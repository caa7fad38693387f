//! Local engines: what they are asked for and what is made of their output.

pub mod apple;
pub mod nemotron;
pub mod parakeet;
pub mod sortformer;
pub mod transcribe;
pub mod unified;
pub mod whisper;

use vstd::prelude::*;

use crate::text;

verus! {

/// What is said where an engine has no model.
pub const NOT_LOADED: &'static str = "Model not loaded. Call load_model() first.";

/// The number of inference threads: the performance cores where they are
/// known, else the parallelism of the machine, up to the number where extra
/// threads stop paying for themselves on hybrid-core CPUs.
pub fn inference_threads(performance_cores: Option<usize>, parallelism: Option<usize>) -> (r: usize)
    ensures
        r == ({
            let threads = match performance_cores {
                Some(cores) => cores,
                None => match parallelism {
                    Some(n) => n,
                    None => 4,
                },
            };
            if threads < 8 {
                threads
            } else {
                8
            }
        }),
{
    let threads: usize = match performance_cores {
        Some(cores) => cores,
        None => match parallelism {
            Some(n) => n,
            None => 4,
        },
    };
    if threads < 8 {
        threads
    } else {
        8
    }
}

/// What is on disk in the place of a model.
#[derive(Debug, Clone, Copy, PartialEq, Eq, Structural)]
pub struct PathFact {
    pub exists: bool,
    pub is_dir: bool,
    pub is_file: bool,
}

/// What is wrong with the directory of a model, if anything.
pub open spec fn dir_error(path: Seq<char>, engine: Seq<char>, fact: PathFact) -> Option<Seq<char>> {
    if !fact.exists {
        Some(engine + " model directory not found: "@ + path)
    } else if !fact.is_dir {
        Some(engine + " model path must be a directory: "@ + path)
    } else {
        None
    }
}

/// Accepts a path that leads to a directory.
pub fn validate_model_dir(path: &str, engine: &str, fact: PathFact) -> (r: Result<(), String>)
    ensures
        match r {
            Ok(_) => dir_error(path@, engine@, fact) is None,
            Err(e) => dir_error(path@, engine@, fact) == Some(e@),
        },
{
    if !fact.exists {
        return Err(text::concat3(engine, " model directory not found: ", path));
    }
    if !fact.is_dir {
        return Err(text::concat3(engine, " model path must be a directory: ", path));
    }
    Ok(())
}

/// A run of samples.
#[derive(Debug, Clone, Copy, PartialEq, Eq, Structural)]
pub struct Span {
    pub start: usize,
    pub end: usize,
}

/// The chunks of at most `size` samples that a recording is fed in.
pub fn chunk_spans(total: usize, size: usize) -> (r: Vec<Span>)
    requires
        size > 0,
    ensures
        total == 0 ==> r@.len() == 0,
        total > 0 ==> r@.len() > 0 && r@[0].start == 0 && r@.last().end == total,
        forall|i: int|
            0 <= i < r@.len() ==> {
                &&& (#[trigger] r@[i]).start < r@[i].end <= total
                &&& r@[i].end - r@[i].start <= size
                &&& r@[i].end < total ==> r@[i].end - r@[i].start == size
            },
        forall|i: int, j: int|
            0 <= i && j == i + 1 && j < r@.len() ==> (#[trigger] r@[i]).end == (
            #[trigger] r@[j]).start,
{
    let mut out: Vec<Span> = Vec::new();
    let mut start: usize = 0;
    while start < total
        invariant
            size > 0,
            start <= total,
            start == 0 ==> out@.len() == 0,
            start > 0 ==> out@.len() > 0 && out@[0].start == 0 && out@.last().end == start,
            forall|i: int|
                0 <= i < out@.len() ==> {
                    &&& (#[trigger] out@[i]).start < out@[i].end <= total
                    &&& out@[i].end - out@[i].start <= size
                    &&& out@[i].end < total ==> out@[i].end - out@[i].start == size
                },
            forall|i: int, j: int|
                0 <= i && j == i + 1 && j < out@.len() ==> (#[trigger] out@[i]).end == (
                #[trigger] out@[j]).start,
        decreases total - start,
    {
        let end: usize = if total - start <= size {
            total
        } else {
            start + size
        };
        out.push(Span { start, end });
        start = end;
    }
    out
}

/// A directory is accepted where it is there and is one; the message names it.
pub proof fn law_directories(path: Seq<char>, engine: Seq<char>, fact: PathFact)
    ensures
        dir_error(path, engine, fact) is None <==> fact.exists && fact.is_dir,
        !fact.exists ==> dir_error(path, engine, fact) == Some(
            engine + " model directory not found: "@ + path,
        ),
        fact.exists && !fact.is_dir ==> dir_error(path, engine, fact) == Some(
            engine + " model path must be a directory: "@ + path,
        ),
{
}

} // verus!
