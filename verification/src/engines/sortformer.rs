//! Sortformer engine: parameters and the file of a model.

use vstd::prelude::*;

use crate::engines::PathFact;
use crate::paths;
use crate::paths::PathStyle;
use crate::text;

verus! {

/// Sizes that the runtime works with, in frames.
#[derive(Debug, Clone, Copy, PartialEq, Eq, Structural)]
pub struct SortformerRuntimeInfo {
    pub chunk_len: usize,
    pub fifo_len: usize,
    pub spkcache_len: usize,
    pub right_context: usize,
}

/// How a model is loaded: a configuration of the runtime, and sizes that
/// override its own.
#[derive(Debug, Clone)]
pub struct SortformerModelParams<C> {
    pub config: C,
    pub chunk_len: Option<usize>,
    pub fifo_len: Option<usize>,
    pub spkcache_len: Option<usize>,
    pub right_context: Option<usize>,
}

/// A size, or the one that overrides it.
pub open spec fn overridden(size: usize, by: Option<usize>) -> usize {
    match by {
        Some(n) => n,
        None => size,
    }
}

fn override_size(size: usize, by: Option<usize>) -> (r: usize)
    ensures
        r == overridden(size, by),
{
    match by {
        Some(n) => n,
        None => size,
    }
}

impl<C> SortformerModelParams<C> {
    /// A configuration without overrides.
    pub fn with_config(config: C) -> (r: Self)
        ensures
            r.config == config,
            r.chunk_len is None,
            r.fifo_len is None,
            r.spkcache_len is None,
            r.right_context is None,
    {
        SortformerModelParams {
            config,
            chunk_len: None,
            fifo_len: None,
            spkcache_len: None,
            right_context: None,
        }
    }

    /// The same configuration with other sizes.
    pub fn with_streaming_overrides(
        self,
        chunk_len: usize,
        fifo_len: usize,
        spkcache_len: usize,
        right_context: usize,
    ) -> (r: Self)
        ensures
            r.config == self.config,
            r.chunk_len == Some(chunk_len),
            r.fifo_len == Some(fifo_len),
            r.spkcache_len == Some(spkcache_len),
            r.right_context == Some(right_context),
    {
        SortformerModelParams {
            config: self.config,
            chunk_len: Some(chunk_len),
            fifo_len: Some(fifo_len),
            spkcache_len: Some(spkcache_len),
            right_context: Some(right_context),
        }
    }

    /// The sizes that a runtime works with once the overrides are applied.
    pub fn applied_to(&self, own: SortformerRuntimeInfo) -> (r: SortformerRuntimeInfo)
        ensures
            r == (SortformerRuntimeInfo {
                chunk_len: overridden(own.chunk_len, self.chunk_len),
                fifo_len: overridden(own.fifo_len, self.fifo_len),
                spkcache_len: overridden(own.spkcache_len, self.spkcache_len),
                right_context: overridden(own.right_context, self.right_context),
            }),
    {
        SortformerRuntimeInfo {
            chunk_len: override_size(own.chunk_len, self.chunk_len),
            fifo_len: override_size(own.fifo_len, self.fifo_len),
            spkcache_len: override_size(own.spkcache_len, self.spkcache_len),
            right_context: override_size(own.right_context, self.right_context),
        }
    }
}

/// Whether a path leads to an ONNX file.
pub open spec fn is_onnx(style: PathStyle, path: Seq<char>) -> bool {
    match paths::file_name_of(style, path) {
        Some(name) => match paths::extension_of(name) {
            Some(e) => text::ascii_lower(e) == text::ascii_lower("onnx"@),
            None => false,
        },
        None => false,
    }
}

/// What is wrong with the file of a model, if anything.
pub open spec fn model_error(style: PathStyle, path: Seq<char>, fact: PathFact) -> Option<
    Seq<char>,
> {
    if !fact.exists {
        Some("Sortformer diarization model not found: "@ + path)
    } else if !fact.is_file {
        Some("Sortformer diarization model path must be a file: "@ + path)
    } else if !is_onnx(style, path) {
        Some("Sortformer diarization model must be an ONNX file: "@ + path)
    } else {
        None
    }
}

/// Accepts a path that leads to an ONNX file.
pub fn validate_model_path(style: PathStyle, path: &str, fact: PathFact) -> (r: Result<(), String>)
    ensures
        match r {
            Ok(_) => model_error(style, path@, fact) is None,
            Err(e) => model_error(style, path@, fact) == Some(e@),
        },
{
    if !fact.exists {
        return Err(text::concat2("Sortformer diarization model not found: ", path));
    }
    if !fact.is_file {
        return Err(text::concat2("Sortformer diarization model path must be a file: ", path));
    }
    let onnx = match paths::extension(style, path) {
        Some(e) => text::eq_ignore_ascii_case(e.as_str(), "onnx"),
        None => false,
    };
    if !onnx {
        return Err(text::concat2("Sortformer diarization model must be an ONNX file: ", path));
    }
    Ok(())
}

/// A model is accepted where it is a file with the extension `onnx`, in any
/// letter case.
pub proof fn law_onnx_files_are_accepted(style: PathStyle, path: Seq<char>, fact: PathFact)
    ensures
        model_error(style, path, fact) is None <==> fact.exists && fact.is_file && is_onnx(
            style,
            path,
        ),
        is_onnx(style, path) <==> (paths::file_name_of(style, path) matches Some(name)
            && paths::extension_of(name) matches Some(e) && text::ascii_lower(e) == "onnx"@),
{
    reveal_strlit("onnx");
    assert(text::ascii_lower("onnx"@) =~= "onnx"@);
}

/// A size that is overridden is the new one, and any other stays.
pub proof fn law_overridden_sizes(size: usize, n: usize)
    ensures
        overridden(size, Some(n)) == n,
        overridden(size, None) == size,
{
}

} // verus!
