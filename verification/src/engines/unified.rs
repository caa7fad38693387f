//! Unified Parakeet engine: the files of a model.

use vstd::prelude::*;

use crate::engines;
use crate::engines::{validate_model_dir, PathFact};
use crate::text;

verus! {

/// Chunk size in samples for streaming (~560ms at 16kHz). The unified model
/// buffers internally and only emits once a full chunk plus its right-context
/// window has arrived (or on flush), so this feed size is not load-bearing; it
/// mirrors the Nemotron cadence for a comparable live-update rate.
pub const STREAMING_CHUNK_SAMPLES: usize = 8960;

#[derive(Debug, Clone, Copy, PartialEq, Eq, Default)]
pub struct UnifiedModelParams;

/// What is asked of the engine.
#[derive(Debug, Clone, Default)]
pub struct UnifiedInferenceParams {
    /// The unified model is English-only and does not expose language forcing,
    /// so this is currently a no-op kept for signature parity with Nemotron.
    pub language: Option<String>,
}

/// The files that a model needs.
pub open spec fn required_files() -> Seq<Seq<char>> {
    seq!["encoder.onnx"@, "encoder.onnx.data"@, "decoder_joint.onnx"@, "tokenizer.model"@]
}

/// The files that a model needs.
pub fn required_file_names() -> (r: Vec<String>)
    ensures
        text::texts(r@) == required_files(),
{
    let mut out: Vec<String> = Vec::new();
    out.push(text::owned("encoder.onnx"));
    out.push(text::owned("encoder.onnx.data"));
    out.push(text::owned("decoder_joint.onnx"));
    out.push(text::owned("tokenizer.model"));
    assert(text::texts(out@) =~= required_files());
    out
}

/// The names whose files are not there.
pub open spec fn absent(names: Seq<Seq<char>>, present: Seq<bool>) -> Seq<Seq<char>>
    decreases names.len(),
{
    if names.len() == 0 {
        seq![]
    } else {
        let before = absent(names.drop_last(), present);
        if present[names.len() - 1] {
            before
        } else {
            before.push(names.last())
        }
    }
}

/// What is wrong with the directory of a model, if anything. `present` says
/// which of the required files are there.
pub open spec fn model_error(path: Seq<char>, fact: PathFact, present: Seq<bool>) -> Option<
    Seq<char>,
> {
    let missing = absent(required_files(), present);
    if engines::dir_error(path, "Unified"@, fact) is Some {
        engines::dir_error(path, "Unified"@, fact)
    } else if missing.len() > 0 {
        Some(
            "Missing Unified model files in "@ + path + ": "@ + text::joined(missing, ", "@),
        )
    } else {
        None
    }
}

/// Accepts a directory that holds all the files of a model.
pub fn validate_model_path(path: &str, fact: PathFact, present: &[bool]) -> (r: Result<(), String>)
    requires
        present@.len() == required_files().len(),
    ensures
        match r {
            Ok(_) => model_error(path@, fact, present@) is None,
            Err(e) => model_error(path@, fact, present@) == Some(e@),
        },
{
    broadcast use text::lemma_texts_push;

    if let Err(e) = validate_model_dir(path, "Unified", fact) {
        return Err(e);
    }
    let names = required_file_names();
    let ghost all = text::texts(names@);
    let mut missing: Vec<String> = Vec::new();
    let mut i: usize = 0;
    assert(text::texts(missing@) =~= Seq::<Seq<char>>::empty());
    while i < names.len()
        invariant
            all == text::texts(names@),
            present@.len() == names@.len(),
            i <= names@.len(),
            text::texts(missing@) == absent(all.take(i as int), present@),
        decreases names@.len() - i,
    {
        proof {
            assert(all.take(i + 1).drop_last() =~= all.take(i as int));
            assert(all.take(i + 1).last() == names@[i as int]@);
        }
        if !present[i] {
            missing.push(names[i].clone());
        }
        i += 1;
    }
    proof {
        assert(all.take(i as int) =~= all);
        assert(text::texts(missing@).len() == missing@.len());
    }
    if missing.len() > 0 {
        let list = text::join(missing.as_slice(), ", ");
        let mut out = text::concat3("Missing Unified model files in ", path, ": ");
        out.append(list.as_str());
        return Err(out);
    }
    Ok(())
}

/// The files that are reported as missing are those that are not there, in
/// order; a directory with all of them is accepted, and no other.
pub proof fn law_missing_files_are_reported(names: Seq<Seq<char>>, present: Seq<bool>) -> (from:
    Seq<int>)
    requires
        names.len() <= present.len(),
    ensures
        from.len() == absent(names, present).len(),
        forall|k: int|
            0 <= k < from.len() ==> 0 <= #[trigger] from[k] < names.len() && !present[from[k]]
                && absent(names, present)[k] == names[from[k]],
        forall|k: int, l: int| 0 <= k < l < from.len() ==> #[trigger] from[k] < #[trigger] from[l],
        forall|i: int| 0 <= i < names.len() && !#[trigger] present[i] ==> from.contains(i),
    decreases names.len(),
{
    if names.len() == 0 {
        seq![]
    } else {
        let init = names.drop_last();
        let m = init.len() as int;
        let before = law_missing_files_are_reported(init, present);
        let from = if present[m] {
            before
        } else {
            before.push(m)
        };
        assert forall|i: int| 0 <= i < names.len() && !#[trigger] present[i]
            implies from.contains(i) by {
            if i < m {
                let k = choose|k: int| 0 <= k < before.len() && before[k] == i;
                assert(from[k] == i);
            } else {
                assert(from[before.len() as int] == i);
            }
        }
        from
    }
}

/// A model is accepted where its directory is there and holds the encoder, the
/// encoder's data, the decoder and the tokenizer.
pub proof fn law_complete_models_are_accepted(path: Seq<char>, fact: PathFact, present: Seq<bool>)
    requires
        present.len() == 4,
    ensures
        model_error(path, fact, present) is None <==> fact.exists && fact.is_dir && present[0]
            && present[1] && present[2] && present[3],
        required_files() == seq![
            "encoder.onnx"@,
            "encoder.onnx.data"@,
            "decoder_joint.onnx"@,
            "tokenizer.model"@,
        ],
{
    let from = law_missing_files_are_reported(required_files(), present);
    if from.len() > 0 {
        assert(!present[from[0]]);
    }
    if !(present[0] && present[1] && present[2] && present[3]) {
        let i: int = if !present[0] {
            0
        } else if !present[1] {
            1
        } else if !present[2] {
            2
        } else {
            3
        };
        assert(!present[i]);
        assert(from.contains(i));
    }
}

} // verus!
