//! transcribe.cpp engine: GGUF models.
//!
//! Some models take a limited stretch of audio at a time. A recording is cut
//! at quiet places, the pieces are decoded in order, and a piece that proves
//! too long is cut again.

use vstd::arithmetic::power2;
use vstd::prelude::*;

use crate::dictionary;
use crate::dictionary::build_dictionary_prompt;
use crate::engines::Span;
use crate::text;
use crate::{ResultText, SegmentText, TranscriptionResult, TranscriptionSegment};

verus! {

/// Samples per second.
pub const SAMPLE_RATE: usize = 16_000;

// ---------------------------------------------------------------------------
// Where to cut
// ---------------------------------------------------------------------------

/// Where the search for a quiet place before `limit` starts.
pub open spec fn search_start(limit: nat) -> nat {
    let earliest = if limit > 48_000 {
        (limit - 48_000) as nat
    } else {
        0
    };
    if earliest > limit / 2 {
        earliest
    } else {
        limit / 2
    }
}

/// How many samples are listened to at once.
pub open spec fn search_window(limit: nat) -> nat {
    let room = (limit - search_start(limit)) as nat;
    if room < 1_600 {
        room
    } else {
        1_600
    }
}

/// The middle of the window that starts at `best`.
pub open spec fn cut_at(limit: nat, best: nat) -> nat {
    best + search_window(limit) / 2
}

/// Where a quiet place is searched before `limit`: the first sample of the
/// first window, and the samples of a window. The last window ends at the
/// limit.
pub fn quiet_search(limit: usize) -> (r: (usize, usize))
    ensures
        r.0 == search_start(limit as nat),
        r.1 == search_window(limit as nat),
        r.0 + r.1 <= limit,
{
    let earliest: usize = if limit > 48_000 {
        limit - 48_000
    } else {
        0
    };
    let start: usize = if earliest > limit / 2 {
        earliest
    } else {
        limit / 2
    };
    let room: usize = limit - start;
    let window: usize = if room < 1_600 {
        room
    } else {
        1_600
    };
    (start, window)
}

/// The cut in the middle of the quietest window, which starts at `best`. It
/// lies before the limit and leaves something on both sides.
pub fn quiet_boundary(limit: usize, best: usize) -> (r: usize)
    requires
        limit >= 2,
        search_start(limit as nat) <= best,
        best + search_window(limit as nat) <= limit,
    ensures
        r == cut_at(limit as nat, best as nat),
        0 < r < limit,
{
    let (start, window) = quiet_search(limit);
    assert(start >= 1);
    assert(window >= 1);
    best + window / 2
}

// ---------------------------------------------------------------------------
// The queue of pieces
// ---------------------------------------------------------------------------

/// A recording that is decoded in pieces: what is left, the next piece last,
/// and what is done.
#[verifier::ext_equal]
pub ghost struct Pieces {
    pub total: nat,
    pub limit: Option<nat>,
    pub pending: Seq<Span>,
    pub done: Seq<Span>,
}

/// How far the recording is done.
pub open spec fn done_until(q: Pieces) -> nat {
    if q.done.len() == 0 {
        0
    } else {
        q.done.last().end as nat
    }
}

/// Whether a piece has its ends in order, and holds something where the
/// recording does.
pub open spec fn proper(s: Span, total: nat) -> bool {
    s.start <= s.end <= total && (total > 0 ==> s.start < s.end)
}

/// Whether pieces follow each other without gap or overlap.
pub open spec fn contiguous(v: Seq<Span>) -> bool {
    forall|i: int, j: int|
        0 <= i && j == i + 1 && j < v.len() ==> (#[trigger] v[i]).end == (#[trigger] v[j]).start
}

/// Whether pieces follow each other backwards.
pub open spec fn contiguous_back(v: Seq<Span>) -> bool {
    forall|i: int, j: int|
        0 <= i && j == i + 1 && j < v.len() ==> (#[trigger] v[i]).start == (#[trigger] v[j]).end
}

/// Whether the pieces that are done and those that are left make up the
/// recording, in order, and none that is done exceeds the limit.
pub open spec fn well_formed(q: Pieces) -> bool {
    &&& q.limit is Some ==> q.limit->0 >= 2
    &&& contiguous(q.done)
    &&& contiguous_back(q.pending)
    &&& forall|i: int| 0 <= i < q.done.len() ==> proper(#[trigger] q.done[i], q.total)
    &&& forall|i: int|
        0 <= i < q.done.len() && q.limit is Some ==> (#[trigger] q.done[i]).end - q.done[i].start
            <= q.limit->0
    &&& forall|i: int| 0 <= i < q.pending.len() ==> proper(#[trigger] q.pending[i], q.total)
    &&& q.done.len() > 0 ==> q.done[0].start == 0
    &&& q.pending.len() == 0 ==> q.done.len() > 0 && done_until(q) == q.total
    &&& q.pending.len() > 0 ==> q.pending.last().start == done_until(q) && q.pending[0].end
        == q.total
}

/// The queue before anything is decoded.
pub open spec fn fresh(total: nat, limit: Option<nat>) -> Pieces {
    Pieces {
        total,
        limit,
        pending: seq![Span { start: 0, end: total as usize }],
        done: seq![],
    }
}

/// The queue after its next piece is cut in two.
pub open spec fn cut_piece(q: Pieces, at: usize) -> Pieces {
    let s = q.pending.last();
    Pieces {
        pending: q.pending.drop_last().push(Span { start: at, end: s.end }).push(
            Span { start: s.start, end: at },
        ),
        ..q
    }
}

/// The queue after its next piece is decoded.
pub open spec fn finish_piece(q: Pieces) -> Pieces {
    Pieces { pending: q.pending.drop_last(), done: q.done.push(q.pending.last()), ..q }
}

/// What to do next.
#[derive(Debug, Clone, Copy, PartialEq, Eq, Structural)]
pub enum Step {
    /// Everything is decoded.
    Finished,
    /// Find a quiet place before `limit` in this piece and cut there.
    Cut { piece: Span, limit: usize },
    /// Decode this piece.
    Decode { piece: Span },
}

/// What became of decoding a piece.
#[derive(Debug, Clone, Copy, PartialEq, Eq, Structural)]
pub enum DecodeOutcome {
    Complete,
    /// The piece or its output was too long for the model.
    TooLong,
    /// Anything else went wrong.
    Failed,
}

/// What to do after decoding a piece.
#[derive(Debug, Clone, Copy, PartialEq, Eq, Structural)]
pub enum Verdict {
    /// Keep the output and go on.
    Keep,
    /// Discard the output, find a quiet place before `limit` and cut there.
    Cut { limit: usize },
    /// Give up and report the error.
    Stop,
}

/// What to do next.
pub open spec fn step_of(q: Pieces) -> Step {
    if q.pending.len() == 0 {
        Step::Finished
    } else {
        let s = q.pending.last();
        if q.limit is Some && s.end - s.start > q.limit->0 {
            Step::Cut { piece: s, limit: q.limit->0 as usize }
        } else {
            Step::Decode { piece: s }
        }
    }
}

/// What to do after decoding a piece. Only pieces of more than a second are
/// cut again, which bounds the retries.
pub open spec fn verdict_on(s: Span, outcome: DecodeOutcome) -> Verdict {
    match outcome {
        DecodeOutcome::Complete => Verdict::Keep,
        DecodeOutcome::TooLong => if s.end - s.start > SAMPLE_RATE {
            Verdict::Cut { limit: ((s.end - s.start) / 2) as usize }
        } else {
            Verdict::Stop
        },
        DecodeOutcome::Failed => Verdict::Stop,
    }
}

/// A recording that is decoded in pieces.
#[derive(Debug, Clone)]
pub struct ChunkQueue {
    total: usize,
    limit: Option<usize>,
    pending: Vec<Span>,
    done: Vec<Span>,
}

impl View for ChunkQueue {
    type V = Pieces;

    closed spec fn view(&self) -> Pieces {
        Pieces {
            total: self.total as nat,
            limit: match self.limit {
                Some(limit) => Some(limit as nat),
                None => None,
            },
            pending: self.pending@,
            done: self.done@,
        }
    }
}

impl ChunkQueue {
    /// A recording of `total` samples, of which at most `limit` are decoded at
    /// a time.
    pub fn new(total: usize, limit: Option<usize>) -> (r: Self)
        requires
            limit matches Some(l) ==> l >= 2,
        ensures
            r@ == fresh(
                total as nat,
                match limit {
                    Some(l) => Some(l as nat),
                    None => None,
                },
            ),
            well_formed(r@),
    {
        let mut pending: Vec<Span> = Vec::new();
        pending.push(Span { start: 0, end: total });
        let done: Vec<Span> = Vec::new();
        let r = ChunkQueue { total, limit, pending, done };
        assert(r@.pending =~= seq![Span { start: 0, end: total }]);
        assert(r@.done =~= Seq::<Span>::empty());
        r
    }

    /// What to do next.
    pub fn next(&self) -> (r: Step)
        requires
            well_formed(self@),
        ensures
            r == step_of(self@),
    {
        let n: usize = self.pending.len();
        if n == 0 {
            return Step::Finished;
        }
        let piece = self.pending[n - 1];
        assert(proper(self@.pending[n - 1], self@.total));
        match self.limit {
            Some(limit) if piece.end - piece.start > limit => Step::Cut { piece, limit },
            _ => Step::Decode { piece },
        }
    }

    /// What to do after decoding the next piece.
    pub fn on_decoded(&mut self, outcome: DecodeOutcome) -> (r: Verdict)
        requires
            well_formed(old(self)@),
            step_of(old(self)@) is Decode,
        ensures
            r == verdict_on(old(self)@.pending.last(), outcome),
            final(self)@ == (if r is Keep {
                finish_piece(old(self)@)
            } else {
                old(self)@
            }),
            well_formed(final(self)@),
            r matches Verdict::Cut { limit } ==> limit >= 2 && limit
                < old(self)@.pending.last().end - old(self)@.pending.last().start,
    {
        let n: usize = self.pending.len();
        let piece = self.pending[n - 1];
        assert(proper(self@.pending[n - 1], self@.total));
        match outcome {
            DecodeOutcome::Complete => {
                proof {
                    lemma_finish_well_formed(self@);
                }
                let _ = self.pending.pop();
                self.done.push(piece);
                assert(self@ =~= finish_piece(old(self)@));
                Verdict::Keep
            },
            DecodeOutcome::TooLong => {
                if piece.end - piece.start > SAMPLE_RATE {
                    Verdict::Cut { limit: (piece.end - piece.start) / 2 }
                } else {
                    Verdict::Stop
                }
            },
            DecodeOutcome::Failed => Verdict::Stop,
        }
    }

    /// Cuts the next piece `offset` samples after its start.
    pub fn cut(&mut self, offset: usize)
        requires
            well_formed(old(self)@),
            old(self)@.pending.len() > 0,
            0 < offset < old(self)@.pending.last().end - old(self)@.pending.last().start,
        ensures
            final(self)@ == cut_piece(
                old(self)@,
                (old(self)@.pending.last().start + offset) as usize,
            ),
            well_formed(final(self)@),
    {
        let n: usize = self.pending.len();
        let piece = self.pending[n - 1];
        proof {
            assert(proper(self@.pending[n - 1], self@.total));
            lemma_cut_well_formed(self@, (piece.start + offset) as usize);
        }
        let at: usize = piece.start + offset;
        let _ = self.pending.pop();
        self.pending.push(Span { start: at, end: piece.end });
        self.pending.push(Span { start: piece.start, end: at });
        assert(self@ =~= cut_piece(old(self)@, at));
    }

    /// The pieces that are decoded, in order.
    pub fn finished(&self) -> (r: &[Span])
        ensures
            r@ == self@.done,
    {
        self.done.as_slice()
    }
}

proof fn lemma_finish_well_formed(q: Pieces)
    requires
        well_formed(q),
        step_of(q) is Decode,
    ensures
        well_formed(finish_piece(q)),
{
    let r = finish_piece(q);
    let n = q.pending.len();
    let s = q.pending[n - 1];
    assert(proper(s, q.total));
    assert forall|i: int, j: int| 0 <= i && j == i + 1 && j < r.done.len() implies (
    #[trigger] r.done[i]).end == (#[trigger] r.done[j]).start by {
        if j < q.done.len() {
            assert(q.done[i].end == q.done[j].start);
        } else {
            assert(q.done[i] == q.done.last());
        }
    }
    assert forall|i: int, j: int| 0 <= i && j == i + 1 && j < r.pending.len() implies (
    #[trigger] r.pending[i]).start == (#[trigger] r.pending[j]).end by {
        assert(q.pending[i].start == q.pending[j].end);
    }
    assert forall|i: int| 0 <= i < r.done.len() implies proper(#[trigger] r.done[i], q.total) by {
        if i < q.done.len() {
            assert(proper(q.done[i], q.total));
        }
    }
    assert forall|i: int| 0 <= i < r.done.len() && q.limit is Some implies (
    #[trigger] r.done[i]).end - r.done[i].start <= q.limit->0 by {
        if i < q.done.len() {
            assert(q.done[i].end - q.done[i].start <= q.limit->0);
        }
    }
    assert forall|i: int| 0 <= i < r.pending.len() implies proper(
        #[trigger] r.pending[i],
        q.total,
    ) by {
        assert(proper(q.pending[i], q.total));
    }
    if r.done.len() > 1 {
        assert(r.done[0] == q.done[0]);
    }
    if n > 1 {
        assert(q.pending[n - 2].start == q.pending[n - 1].end);
        assert(r.pending.last() == q.pending[n - 2]);
        assert(r.pending[0] == q.pending[0]);
    }
}

proof fn lemma_cut_well_formed(q: Pieces, at: usize)
    requires
        well_formed(q),
        q.pending.len() > 0,
        q.pending.last().start < at < q.pending.last().end,
    ensures
        well_formed(cut_piece(q, at)),
{
    let r = cut_piece(q, at);
    let n = q.pending.len();
    let s = q.pending[n - 1];
    assert(proper(s, q.total));
    assert forall|i: int, j: int| 0 <= i && j == i + 1 && j < r.pending.len() implies (
    #[trigger] r.pending[i]).start == (#[trigger] r.pending[j]).end by {
        if j < n - 1 {
            assert(q.pending[i].start == q.pending[j].end);
        } else if j == n - 1 {
            assert(q.pending[i].start == q.pending[j].end);
        }
    }
    assert forall|i: int| 0 <= i < r.pending.len() implies proper(
        #[trigger] r.pending[i],
        q.total,
    ) by {
        if i < n - 1 {
            assert(proper(q.pending[i], q.total));
        }
    }
    if n > 1 {
        assert(r.pending[0] == q.pending[0]);
    }
}

/// Later pieces start where earlier ones end, or after.
proof fn lemma_pieces_ascend(q: Pieces, i: int, j: int)
    requires
        well_formed(q),
        0 <= i < j < q.done.len(),
    ensures
        q.done[i].end <= q.done[j].start,
    decreases j - i,
{
    assert(q.done[j - 1].end == q.done[j].start);
    if i < j - 1 {
        lemma_pieces_ascend(q, i, j - 1);
        assert(proper(q.done[j - 1], q.total));
    }
}

proof fn lemma_sample_is_done(q: Pieces, k: int, n: int) -> (i: int)
    requires
        well_formed(q),
        0 < n <= q.done.len(),
        0 <= k < q.done[n - 1].end,
    ensures
        0 <= i < n,
        q.done[i].start <= k < q.done[i].end,
    decreases n,
{
    if q.done[n - 1].start <= k {
        n - 1
    } else {
        assert(n > 1);
        assert(q.done[n - 2].end == q.done[n - 1].start);
        lemma_sample_is_done(q, k, n - 1)
    }
}

/// Once everything is decoded, every sample lies in exactly one piece: no
/// audio is dropped or repeated.
pub proof fn law_every_sample_once(q: Pieces, k: int)
    requires
        well_formed(q),
        step_of(q) is Finished,
        0 <= k < q.total,
    ensures
        exists|i: int|
            0 <= i < q.done.len() && (#[trigger] q.done[i]).start <= k < q.done[i].end,
        forall|i: int, j: int|
            0 <= i < q.done.len() && 0 <= j < q.done.len() && (#[trigger] q.done[i]).start <= k
                < q.done[i].end && (#[trigger] q.done[j]).start <= k < q.done[j].end ==> i == j,
{
    let i = lemma_sample_is_done(q, k, q.done.len() as int);
    assert(q.done[i].start <= k < q.done[i].end);
    assert forall|i: int, j: int|
        0 <= i < q.done.len() && 0 <= j < q.done.len() && (#[trigger] q.done[i]).start <= k
            < q.done[i].end && (#[trigger] q.done[j]).start <= k < q.done[j].end implies i
        == j by {
        if i < j {
            lemma_pieces_ascend(q, i, j);
        } else if j < i {
            lemma_pieces_ascend(q, j, i);
        }
    }
}

/// The pieces of a recording that holds something start one after the other,
/// the first at its beginning.
pub proof fn law_pieces_are_in_order(q: Pieces, i: int, j: int)
    requires
        well_formed(q),
        q.total > 0,
        0 <= i < j < q.done.len(),
    ensures
        q.done[0].start == 0,
        q.done[i].start < q.done[j].start,
{
    lemma_pieces_ascend(q, i, j);
    assert(proper(q.done[i], q.total));
}

/// How many more steps a piece can take.
pub open spec fn piece_steps(s: Span) -> nat {
    if s.start < s.end {
        (2 * (s.end - s.start) - 1) as nat
    } else {
        1
    }
}

/// How many more steps a queue can take.
pub open spec fn steps_left(pending: Seq<Span>) -> nat
    decreases pending.len(),
{
    if pending.len() == 0 {
        0
    } else {
        steps_left(pending.drop_last()) + piece_steps(pending.last())
    }
}

/// Every cut and every decoded piece leaves fewer steps, so that decoding a
/// recording ends.
pub proof fn law_decoding_ends(q: Pieces, at: usize)
    requires
        well_formed(q),
        q.pending.len() > 0,
    ensures
        steps_left(finish_piece(q).pending) < steps_left(q.pending),
        q.pending.last().start < at < q.pending.last().end ==> steps_left(
            cut_piece(q, at).pending,
        ) < steps_left(q.pending),
{
    let s = q.pending.last();
    let rest = q.pending.drop_last();
    let first = Span { start: s.start, end: at };
    let second = Span { start: at, end: s.end };
    assert(rest.push(second).push(first).drop_last() =~= rest.push(second));
    assert(rest.push(second).drop_last() =~= rest);
    assert(steps_left(rest.push(second)) == steps_left(rest) + piece_steps(second));
    assert(steps_left(rest.push(second).push(first)) == steps_left(rest.push(second))
        + piece_steps(first));
}

/// An output is kept only when its piece was decoded completely, and a piece
/// of a second or less is never cut again.
pub proof fn law_no_partial_output(s: Span, outcome: DecodeOutcome)
    ensures
        verdict_on(s, outcome) is Keep <==> outcome is Complete,
        verdict_on(s, outcome) is Cut ==> s.end - s.start > SAMPLE_RATE && outcome is TooLong,
{
}

/// How many samples the next piece has.
pub open spec fn next_len(q: Pieces) -> int {
    q.pending.last().end - q.pending.last().start
}

/// Whether the next piece of one queue was too long to decode and was cut, as
/// the verdict says, into what the other queue holds.
pub open spec fn recut(q: Pieces, after: Pieces, at: usize) -> bool {
    &&& verdict_on(q.pending.last(), DecodeOutcome::TooLong) matches Verdict::Cut { limit }
        && q.pending.last().start < at < q.pending.last().start + limit
    &&& after == cut_piece(q, at)
}

/// A piece that proves too long again and again is given up soon: each try is at
/// half of it at most, so that a piece of up to two to the power of `k` seconds
/// is tried no more than `k + 1` times in a row.
pub proof fn law_retries_are_few(tries: Seq<Pieces>, cuts: Seq<usize>, k: nat)
    requires
        tries.len() > 0,
        cuts.len() == tries.len() - 1,
        tries[0].pending.len() > 0,
        forall|i: int|
            0 <= i < cuts.len() ==> recut(tries[i], tries[i + 1], #[trigger] cuts[i]),
        next_len(tries[0]) <= SAMPLE_RATE * power2::pow2(k),
    ensures
        tries.len() <= k + 1,
    decreases tries.len(),
{
    power2::lemma2_to64();
    if tries.len() > 1 {
        assert(recut(tries[0], tries[1], cuts[0]));
        assert(k > 0);
        power2::lemma_pow2_unfold(k);
        let later = tries.drop_first();
        let rest = cuts.drop_first();
        assert forall|i: int| 0 <= i < rest.len() implies recut(
            later[i],
            later[i + 1],
            #[trigger] rest[i],
        ) by {
            assert(recut(tries[i + 1], tries[i + 2], cuts[i + 1]));
        }
        assert(next_len(later[0]) <= next_len(tries[0]) / 2);
        law_retries_are_few(later, rest, (k - 1) as nat);
    }
}

// ---------------------------------------------------------------------------
// Models and requests
// ---------------------------------------------------------------------------

/// The most samples that a model takes at a time. Core ML companions hold 15
/// seconds of audio; Qwen also needs this limit without Core ML because of its
/// native generation budget.
pub fn chunk_samples(arch: &str, uses_coreml: bool) -> (r: Option<usize>)
    ensures
        r == (if arch@ == "qwen3_asr"@ || (arch@ == "parakeet"@ && uses_coreml) {
            Some(240_000usize)
        } else {
            None
        }),
{
    if text::same(arch, "qwen3_asr") || (text::same(arch, "parakeet") && uses_coreml) {
        Some(15 * SAMPLE_RATE)
    } else {
        None
    }
}

/// Accepts a path that leads to a file.
pub fn check_model_file(path: &str, is_file: bool) -> (r: Result<(), String>)
    ensures
        match r {
            Ok(_) => is_file,
            Err(e) => !is_file && e@ == "transcribe.cpp model file not found: "@ + path@,
        },
{
    if is_file {
        Ok(())
    } else {
        Err(text::concat2("transcribe.cpp model file not found: ", path))
    }
}

/// Whether a model takes vocabulary hints.
pub fn supports_context(arch: &str) -> (r: bool)
    ensures
        r == (arch@ == "qwen3_asr"@),
{
    text::same(arch, "qwen3_asr")
}

/// The names of the Core ML companions that may lie next to a model.
pub open spec fn companions_of(stem: Seq<char>) -> Seq<Seq<char>> {
    if text::finishes_with(stem, "-decoder"@) {
        seq![
            stem + "-encoder.mlmodelc"@,
            stem.take(stem.len() - "-decoder"@.len()) + "-encoder.mlmodelc"@,
        ]
    } else {
        seq![stem + "-encoder.mlmodelc"@]
    }
}

/// The names of the Core ML companions that may lie next to a model with a
/// given stem, in the order in which they are looked for.
pub fn companion_names(stem: &str) -> (r: Vec<String>)
    ensures
        text::texts(r@) == companions_of(stem@),
{
    let mut out: Vec<String> = Vec::new();
    out.push(text::concat2(stem, "-encoder.mlmodelc"));
    if text::ends_with(stem, "-decoder") {
        let x = text::chars_of(stem);
        let y = text::chars_of("-decoder");
        let short = text::string_between(x.as_slice(), 0, x.len() - y.len());
        assert(short@ =~= stem@.take(stem@.len() - "-decoder"@.len()));
        out.push(text::concat2(short.as_str(), "-encoder.mlmodelc"));
    }
    assert(text::texts(out@) =~= companions_of(stem@));
    out
}

/// The companion that is used: the first that is complete, on Apple Silicon.
pub fn companion_for(stem: &str, complete: &[bool], apple_silicon: bool) -> (r: Option<String>)
    requires
        complete@.len() == companions_of(stem@).len(),
    ensures
        match r {
            Some(name) => apple_silicon && exists|i: int|
                {
                    &&& 0 <= i < complete@.len()
                    &&& #[trigger] complete@[i]
                    &&& name@ == companions_of(stem@)[i]
                    &&& forall|j: int| 0 <= j < i ==> !#[trigger] complete@[j]
                },
            None => apple_silicon ==> forall|i: int|
                0 <= i < complete@.len() ==> !#[trigger] complete@[i],
        },
{
    if !apple_silicon {
        return None;
    }
    let names = companion_names(stem);
    assert(text::texts(names@).len() == names@.len());
    let mut i: usize = 0;
    while i < complete.len()
        invariant
            i <= complete@.len(),
            apple_silicon,
            complete@.len() == names@.len(),
            text::texts(names@) == companions_of(stem@),
            forall|j: int| 0 <= j < i ==> !#[trigger] complete@[j],
        decreases complete@.len() - i,
    {
        if complete[i] {
            assert(companions_of(stem@)[i as int] == names@[i as int]@);
            return Some(names[i].clone());
        }
        i += 1;
    }
    None
}

/// What is asked of the engine.
#[derive(Debug, Clone, Default)]
pub struct TranscribeInferenceParams {
    pub language: Option<String>,
    /// Vocabulary hints for Qwen3-ASR. Other GGUF families ignore these
    /// entries.
    pub dictionary: Vec<String>,
    pub timestamps: bool,
}

/// What a run of the model is given.
#[derive(Debug, Clone)]
pub struct RunPlan {
    pub context: Option<String>,
    pub language: Option<String>,
    pub timestamps: bool,
}

/// A language that is not blank, trimmed.
pub open spec fn real_language(language: Option<Seq<char>>) -> Option<Seq<char>> {
    match language {
        Some(l) if !text::blank(l) => Some(text::trimmed(l)),
        _ => None,
    }
}

/// What a run of the model is given: the dictionary only where the model
/// takes vocabulary hints.
pub fn run_plan(params: &TranscribeInferenceParams, supports_context: bool) -> (r: RunPlan)
    ensures
        text::opt_text(r.context) == (if supports_context {
            dictionary::dictionary_prompt(text::texts(params.dictionary@))
        } else {
            None
        }),
        text::opt_text(r.language) == real_language(text::opt_text(params.language)),
        r.timestamps == params.timestamps,
{
    let context = if supports_context {
        build_dictionary_prompt(params.dictionary.as_slice())
    } else {
        None
    };
    let language = match &params.language {
        Some(value) => {
            let trimmed = text::trim(value.as_str());
            if trimmed.as_str().is_empty() {
                None
            } else {
                Some(trimmed)
            }
        },
        None => None,
    };
    RunPlan { context, language, timestamps: params.timestamps }
}

// ---------------------------------------------------------------------------
// Putting the pieces together
// ---------------------------------------------------------------------------

/// The transcript of one piece, with times in the whole recording.
#[derive(Debug, Clone)]
pub struct ChunkTranscript<T> {
    pub text: String,
    pub language: Option<String>,
    pub segments: Vec<TranscriptionSegment<T>>,
    pub words: Vec<TranscriptionSegment<T>>,
}

/// The texts of pieces, one space between those that are not blank.
pub open spec fn merged_text<T>(chunks: Seq<ChunkTranscript<T>>) -> Seq<char>
    decreases chunks.len(),
{
    if chunks.len() == 0 {
        seq![]
    } else {
        let before = merged_text(chunks.drop_last());
        let t = text::trimmed(chunks.last().text@);
        if t.len() == 0 {
            before
        } else if before.len() == 0 {
            t
        } else {
            before.push(' ') + t
        }
    }
}

/// The language that was asked for, or the first one that was detected.
pub open spec fn merged_language<T>(
    requested: Option<Seq<char>>,
    chunks: Seq<ChunkTranscript<T>>,
) -> Option<Seq<char>>
    decreases chunks.len(),
{
    if chunks.len() == 0 {
        requested
    } else {
        let before = merged_language(requested, chunks.drop_last());
        if before is Some {
            before
        } else {
            text::opt_text(chunks.last().language)
        }
    }
}

/// Segments that are not blank, with trimmed texts.
pub open spec fn spoken_items<T>(items: Seq<SegmentText<T>>) -> Seq<SegmentText<T>>
    decreases items.len(),
{
    if items.len() == 0 {
        seq![]
    } else {
        let before = spoken_items(items.drop_last());
        if text::blank(items.last().text) {
            before
        } else {
            before.push(SegmentText { text: text::trimmed(items.last().text), ..items.last() })
        }
    }
}

/// The segments of all pieces.
pub open spec fn merged_segments<T>(chunks: Seq<ChunkTranscript<T>>) -> Seq<SegmentText<T>>
    decreases chunks.len(),
{
    if chunks.len() == 0 {
        seq![]
    } else {
        merged_segments(chunks.drop_last()) + spoken_items(
            crate::segment_texts(chunks.last().segments@),
        )
    }
}

/// The words of all pieces.
pub open spec fn merged_words<T>(chunks: Seq<ChunkTranscript<T>>) -> Seq<SegmentText<T>>
    decreases chunks.len(),
{
    if chunks.len() == 0 {
        seq![]
    } else {
        merged_words(chunks.drop_last()) + spoken_items(
            crate::segment_texts(chunks.last().words@),
        )
    }
}

/// A list, where it is wanted and not empty.
pub open spec fn wanted_list<T>(wanted: bool, list: Seq<SegmentText<T>>) -> Option<
    Seq<SegmentText<T>>,
> {
    if wanted && list.len() > 0 {
        Some(list)
    } else {
        None
    }
}

fn push_spoken<T: Copy>(
    out: &mut Vec<TranscriptionSegment<T>>,
    items: &[TranscriptionSegment<T>],
)
    ensures
        crate::segment_texts(final(out)@) == crate::segment_texts(old(out)@) + spoken_items(
            crate::segment_texts(items@),
        ),
{
    broadcast use crate::lemma_segment_texts_push;

    let ghost before = crate::segment_texts(out@);
    let ghost all = crate::segment_texts(items@);
    let mut i: usize = 0;
    assert(before + spoken_items(all.take(0)) =~= before);
    while i < items.len()
        invariant
            all == crate::segment_texts(items@),
            i <= items@.len(),
            crate::segment_texts(out@) == before + spoken_items(all.take(i as int)),
        decreases items@.len() - i,
    {
        let ghost kept = spoken_items(all.take(i as int));
        proof {
            assert(all.take(i + 1).drop_last() =~= all.take(i as int));
            assert(all.take(i + 1).last() == items@[i as int]@);
        }
        let trimmed = text::trim(items[i].text.as_str());
        if !trimmed.as_str().is_empty() {
            let item = TranscriptionSegment {
                start: items[i].start,
                end: items[i].end,
                text: trimmed,
            };
            out.push(item);
            assert((before + kept).push(item@) =~= before + kept.push(item@));
        }
        i += 1;
    }
    assert(all.take(i as int) =~= all);
}

fn list_if<T>(wanted: bool, list: Vec<TranscriptionSegment<T>>) -> (r: Option<
    Vec<TranscriptionSegment<T>>,
>)
    ensures
        crate::opt_segment_texts(r) == wanted_list(wanted, crate::segment_texts(list@)),
{
    if wanted && list.len() > 0 {
        Some(list)
    } else {
        None
    }
}

/// The transcription of a recording from those of its pieces.
pub fn merge_chunks<T: Copy>(
    chunks: &[ChunkTranscript<T>],
    requested: &Option<String>,
    timestamps: bool,
) -> (r: TranscriptionResult<T>)
    ensures
        r@ == (ResultText {
            text: merged_text(chunks@),
            segments: wanted_list(timestamps, merged_segments(chunks@)),
            words: wanted_list(timestamps, merged_words(chunks@)),
            language: merged_language(text::opt_text(*requested), chunks@),
        }),
{
    let mut out = String::new();
    let mut language: Option<String> = requested.clone();
    let mut segments: Vec<TranscriptionSegment<T>> = Vec::new();
    let mut words: Vec<TranscriptionSegment<T>> = Vec::new();
    let mut i: usize = 0;
    proof {
        assert(crate::segment_texts(segments@) =~= Seq::<SegmentText<T>>::empty());
        assert(crate::segment_texts(words@) =~= Seq::<SegmentText<T>>::empty());
    }
    while i < chunks.len()
        invariant
            i <= chunks@.len(),
            out@ == merged_text(chunks@.take(i as int)),
            text::opt_text(language) == merged_language(
                text::opt_text(*requested),
                chunks@.take(i as int),
            ),
            crate::segment_texts(segments@) == merged_segments(chunks@.take(i as int)),
            crate::segment_texts(words@) == merged_words(chunks@.take(i as int)),
        decreases chunks@.len() - i,
    {
        proof {
            assert(chunks@.take(i + 1).drop_last() =~= chunks@.take(i as int));
            assert(chunks@.take(i + 1).last() == chunks@[i as int]);
        }
        let trimmed = text::trim(chunks[i].text.as_str());
        if !trimmed.as_str().is_empty() {
            if !out.as_str().is_empty() {
                out.push(' ');
                out.append(trimmed.as_str());
            } else {
                out = trimmed;
            }
        }
        if language.is_none() {
            language = chunks[i].language.clone();
        }
        push_spoken(&mut segments, chunks[i].segments.as_slice());
        push_spoken(&mut words, chunks[i].words.as_slice());
        i += 1;
    }
    assert(chunks@.take(i as int) =~= chunks@);
    TranscriptionResult {
        text: out,
        segments: list_if(timestamps, segments),
        words: list_if(timestamps, words),
        language,
    }
}

// ---------------------------------------------------------------------------
// What the pieces give together
// ---------------------------------------------------------------------------

/// The texts of pieces are put together in order: one piece gives its trimmed
/// text, and two lists of pieces give both texts with one space between them, or
/// the one where the other is empty.
pub proof fn law_texts_are_put_together<T>(
    a: Seq<ChunkTranscript<T>>,
    b: Seq<ChunkTranscript<T>>,
    one: ChunkTranscript<T>,
)
    ensures
        merged_text(Seq::<ChunkTranscript<T>>::empty()) == Seq::<char>::empty(),
        merged_text(seq![one]) == text::trimmed(one.text@),
        merged_text(a + b) == (if merged_text(a).len() == 0 {
            merged_text(b)
        } else if merged_text(b).len() == 0 {
            merged_text(a)
        } else {
            merged_text(a) + seq![' '] + merged_text(b)
        }),
    decreases b.len(),
{
    assert(seq![one].drop_last() =~= Seq::<ChunkTranscript<T>>::empty());
    assert(merged_text(Seq::<ChunkTranscript<T>>::empty()) == Seq::<char>::empty());
    assert(merged_text(seq![one]) =~= text::trimmed(one.text@));
    if b.len() == 0 {
        assert(a + b =~= a);
    } else {
        assert((a + b).drop_last() =~= a + b.drop_last());
        law_texts_are_put_together(a, b.drop_last(), one);
        let x = merged_text(a);
        let y = merged_text(b.drop_last());
        let t = text::trimmed(b.last().text@);
        if t.len() > 0 && x.len() > 0 {
            assert((x + seq![' '] + y).push(' ') + t =~= x + seq![' '] + (y.push(' ') + t));
            assert(x.push(' ') + t =~= x + seq![' '] + t);
        }
    }
}

/// The segments and the words of pieces follow each other: a piece gives its own
/// that are not blank, after those of the pieces before it.
pub proof fn law_segments_follow_each_other<T>(
    chunks: Seq<ChunkTranscript<T>>,
    last: ChunkTranscript<T>,
)
    ensures
        merged_segments(Seq::<ChunkTranscript<T>>::empty()).len() == 0,
        merged_words(Seq::<ChunkTranscript<T>>::empty()).len() == 0,
        merged_segments(chunks.push(last)) == merged_segments(chunks) + spoken_items(
            crate::segment_texts(last.segments@),
        ),
        merged_words(chunks.push(last)) == merged_words(chunks) + spoken_items(
            crate::segment_texts(last.words@),
        ),
{
    assert(chunks.push(last).drop_last() =~= chunks);
}

/// Segments are kept unless they are blank, in order, with their times and their
/// trimmed texts.
pub proof fn law_segments_are_kept_unless_blank<T>(items: Seq<SegmentText<T>>) -> (from: Seq<int>)
    ensures
        from.len() == spoken_items(items).len(),
        forall|k: int|
            0 <= k < from.len() ==> {
                &&& 0 <= #[trigger] from[k] < items.len()
                &&& spoken_items(items)[k].start == items[from[k]].start
                &&& spoken_items(items)[k].end == items[from[k]].end
                &&& spoken_items(items)[k].text == text::trimmed(items[from[k]].text)
                &&& text::trimmed(items[from[k]].text).len() > 0
            },
        forall|k: int, l: int| 0 <= k < l < from.len() ==> #[trigger] from[k] < #[trigger] from[l],
        forall|i: int|
            0 <= i < items.len() && text::trimmed((#[trigger] items[i]).text).len() > 0
                ==> from.contains(i),
    decreases items.len(),
{
    if items.len() == 0 {
        seq![]
    } else {
        let init = items.drop_last();
        let m = init.len() as int;
        let before = law_segments_are_kept_unless_blank(init);
        let from = if text::blank(items.last().text) {
            before
        } else {
            before.push(m)
        };
        assert forall|i: int|
            0 <= i < items.len() && text::trimmed((#[trigger] items[i]).text).len() > 0
            implies from.contains(i) by {
            if i < m {
                assert(init[i] == items[i]);
                let k = choose|k: int| 0 <= k < before.len() && before[k] == i;
                assert(from[k] == i);
            } else {
                assert(from[before.len() as int] == i);
            }
        }
        from
    }
}

/// The language is the one that was asked for. Without one it is the first that
/// a piece names.
pub proof fn law_the_first_language_counts<T>(
    requested: Option<Seq<char>>,
    chunks: Seq<ChunkTranscript<T>>,
    i: int,
)
    ensures
        requested is Some ==> merged_language(requested, chunks) == requested,
        requested is None && 0 <= i < chunks.len() && chunks[i].language is Some && (forall|j: int|
            0 <= j < i ==> (#[trigger] chunks[j]).language is None) ==> merged_language(
            requested,
            chunks,
        ) == Some(chunks[i].language->0@),
        requested is None && (forall|j: int|
            0 <= j < chunks.len() ==> (#[trigger] chunks[j]).language is None) ==> merged_language(
            requested,
            chunks,
        ) is None,
    decreases chunks.len(),
{
    if chunks.len() > 0 {
        let init = chunks.drop_last();
        law_the_first_language_counts(requested, init, i);
        assert forall|j: int| 0 <= j < init.len() implies init[j] == #[trigger] chunks[j] by {}
        if requested is None && 0 <= i < chunks.len() && chunks[i].language is Some && (forall|j: int|
            0 <= j < i ==> (#[trigger] chunks[j]).language is None) {
            assert forall|j: int| 0 <= j < i implies (#[trigger] init[j]).language is None by {
                assert(chunks[j].language is None);
            }
        }
        if requested is None && (forall|j: int|
            0 <= j < chunks.len() ==> (#[trigger] chunks[j]).language is None) {
            assert forall|j: int| 0 <= j < init.len() implies (
            #[trigger] init[j]).language is None by {
                assert(chunks[j].language is None);
            }
            assert(chunks[chunks.len() - 1].language is None);
        }
    }
}

/// Segments and words are reported where times are wanted and there are any.
pub proof fn law_wanted_lists<T>(wanted: bool, list: Seq<SegmentText<T>>)
    ensures
        wanted_list(wanted, list) is Some <==> wanted && list.len() > 0,
        wanted_list(wanted, list) is Some ==> wanted_list(wanted, list)->0 == list,
{
}

/// Nothing longer than the limit is decoded: it is cut first, at a place before
/// the limit.
pub proof fn law_long_pieces_are_cut_first(q: Pieces)
    requires
        well_formed(q),
        q.pending.len() > 0,
        q.limit is Some ==> q.limit->0 <= usize::MAX,
    ensures
        step_of(q) matches Step::Decode { piece } ==> piece == q.pending.last() && (q.limit is Some
            ==> piece.end - piece.start <= q.limit->0),
        step_of(q) matches Step::Cut { piece, limit } ==> piece == q.pending.last()
            && q.limit is Some && limit == q.limit->0 && piece.end - piece.start > limit,
        !(step_of(q) is Finished),
{
}

/// A quiet place is searched in the second half before the limit and in its last
/// three seconds, by a tenth of a second at a time where there is room; the cut
/// is in the middle of the window.
pub proof fn law_where_quiet_is_searched(limit: nat, best: nat)
    ensures
        limit / 2 <= search_start(limit) <= limit,
        limit - search_start(limit) <= 3 * 16_000,
        limit >= 6 * 16_000 ==> search_start(limit) == limit - 3 * 16_000,
        limit < 6 * 16_000 ==> search_start(limit) == limit / 2,
        search_start(limit) + search_window(limit) <= limit,
        limit - search_start(limit) >= 1_600 ==> search_window(limit) == 1_600,
        limit - search_start(limit) < 1_600 ==> search_window(limit) == limit - search_start(limit),
        cut_at(limit, best) - best <= search_window(limit) - (cut_at(limit, best) - best) <= (
        cut_at(limit, best) - best) + 1,
{
}

/// The companion of a model bears its name, or its name without `-decoder`.
pub proof fn law_companions(stem: Seq<char>)
    ensures
        companions_of(stem).len() > 0 && companions_of(stem)[0] == stem + "-encoder.mlmodelc"@,
        companions_of(stem + "-decoder"@).len() == 2 && companions_of(stem + "-decoder"@)[1] == stem
            + "-encoder.mlmodelc"@,
        !text::finishes_with(stem, "-decoder"@) ==> companions_of(stem).len() == 1,
{
    let whole = stem + "-decoder"@;
    let n = "-decoder"@.len() as int;
    assert(whole.subrange(whole.len() - n, whole.len() as int) =~= "-decoder"@);
    assert(whole.take(whole.len() - n) =~= stem);
}

/// A language is handed to the model trimmed, and a blank one is not.
pub proof fn law_languages_for_the_model(language: Seq<char>)
    ensures
        real_language(None) is None,
        text::trimmed(language).len() == 0 ==> real_language(Some(language)) is None,
        text::trimmed(language).len() > 0 ==> real_language(Some(language)) == Some(
            text::trimmed(language),
        ),
{
}

/// A decoded piece moves from what is left to what is done, and a cut one is
/// replaced by its two parts, the first of which comes next; nothing else
/// changes.
pub proof fn law_what_becomes_of_pieces(q: Pieces, at: usize)
    requires
        q.pending.len() > 0,
    ensures
        finish_piece(q).done == q.done.push(q.pending.last()),
        finish_piece(q).pending == q.pending.drop_last(),
        finish_piece(q).total == q.total && finish_piece(q).limit == q.limit,
        cut_piece(q, at).done == q.done,
        cut_piece(q, at).total == q.total && cut_piece(q, at).limit == q.limit,
        cut_piece(q, at).pending.len() == q.pending.len() + 1,
        cut_piece(q, at).pending.last() == (Span { start: q.pending.last().start, end: at }),
        cut_piece(q, at).pending[q.pending.len() - 1] == (Span { start: at, end: q.pending.last().end }),
        cut_piece(q, at).pending.take(q.pending.len() - 1) == q.pending.drop_last(),
{
    assert(cut_piece(q, at).pending.take(q.pending.len() - 1) =~= q.pending.drop_last());
}

/// A piece that is too long is cut in its first half where it is longer than a
/// second, and given up otherwise; any other failure is given up.
pub proof fn law_verdicts(s: Span, outcome: DecodeOutcome)
    requires
        s.start <= s.end,
    ensures
        outcome is Complete ==> verdict_on(s, outcome) == Verdict::Keep,
        outcome is Failed ==> verdict_on(s, outcome) == Verdict::Stop,
        outcome is TooLong && s.end - s.start > 16_000 ==> verdict_on(s, outcome) == (Verdict::Cut {
            limit: ((s.end - s.start) / 2) as usize,
        }),
        outcome is TooLong && s.end - s.start <= 16_000 ==> verdict_on(s, outcome) == Verdict::Stop,
{
}

} // verus!
