//! Voice activity: stretches of speech from a decision per frame.

use vstd::prelude::*;

verus! {

/// Silence of up to this many frames does not end a stretch of speech.
pub const BRIDGE_FRAMES: usize = 4;

/// Samples per frame.
pub const WINDOW: usize = 512;

/// A stretch of frames.
#[derive(Debug, Clone, Copy, PartialEq, Eq, Structural)]
pub struct FrameRegion {
    pub start: usize,
    pub end: usize,
}

/// What is known after some frames: finished stretches, where the current one
/// started, and the frames of silence since its last speech.
#[verifier::ext_equal]
pub ghost struct Scan {
    pub regions: Seq<FrameRegion>,
    pub start: Option<nat>,
    pub gap: nat,
}

/// What is known after the frames of `mask`.
pub open spec fn scanned(mask: Seq<bool>) -> Scan
    decreases mask.len(),
{
    if mask.len() == 0 {
        Scan { regions: seq![], start: None, gap: 0 }
    } else {
        let before = scanned(mask.drop_last());
        let i = (mask.len() - 1) as nat;
        if mask.last() {
            Scan {
                start: if before.start is Some {
                    before.start
                } else {
                    Some(i)
                },
                gap: 0,
                ..before
            }
        } else if before.start is None {
            before
        } else if before.gap < BRIDGE_FRAMES {
            Scan { gap: before.gap + 1, ..before }
        } else {
            Scan {
                regions: before.regions.push(
                    FrameRegion {
                        start: before.start->0 as usize,
                        end: (i - before.gap) as usize,
                    },
                ),
                start: None,
                gap: 0,
            }
        }
    }
}

/// The stretches of speech: frames of speech that no more than
/// [`BRIDGE_FRAMES`] frames of silence separate belong together.
pub open spec fn speech_frames(mask: Seq<bool>) -> Seq<FrameRegion> {
    let s = scanned(mask);
    match s.start {
        Some(start) => s.regions.push(
            FrameRegion { start: start as usize, end: (mask.len() - s.gap) as usize },
        ),
        None => s.regions,
    }
}

/// The stretches of speech.
pub fn mask_to_regions(mask: &[bool]) -> (r: Vec<FrameRegion>)
    ensures
        r@ == speech_frames(mask@),
{
    let mut regions: Vec<FrameRegion> = Vec::new();
    let mut start: Option<usize> = None;
    let mut gap: usize = 0;
    let mut i: usize = 0;
    while i < mask.len()
        invariant
            i <= mask@.len(),
            scanned(mask@.take(i as int)).regions == regions@,
            scanned(mask@.take(i as int)).gap == gap,
            match start {
                Some(s) => scanned(mask@.take(i as int)).start == Some(s as nat) && s + gap < i,
                None => scanned(mask@.take(i as int)).start is None,
            },
            gap <= BRIDGE_FRAMES,
            start is None ==> gap == 0,
        decreases mask@.len() - i,
    {
        proof {
            assert(mask@.take(i + 1).drop_last() =~= mask@.take(i as int));
            assert(mask@.take(i + 1).last() == mask@[i as int]);
        }
        if mask[i] {
            if start.is_none() {
                start = Some(i);
            }
            gap = 0;
        } else if let Some(s) = start {
            if gap < BRIDGE_FRAMES {
                gap = gap + 1;
            } else {
                regions.push(FrameRegion { start: s, end: i - gap });
                start = None;
                gap = 0;
            }
        }
        i += 1;
    }
    assert(mask@.take(i as int) =~= mask@);
    if let Some(s) = start {
        regions.push(FrameRegion { start: s, end: mask.len() - gap });
    }
    regions
}

/// Whether the current stretch starts with speech, and its last speech came
/// just before the silence.
spec fn current_ok(mask: Seq<bool>, s: Scan) -> bool {
    &&& s.gap <= BRIDGE_FRAMES
    &&& s.start is None ==> s.gap == 0
    &&& s.start is Some ==> s.start->0 + s.gap < mask.len() && mask[s.start->0 as int]
        && mask[mask.len() - s.gap - 1]
}

/// Whether a stretch begins and ends with speech.
spec fn region_ok(mask: Seq<bool>, r: FrameRegion) -> bool {
    &&& r.start < r.end <= mask.len()
    &&& mask[r.start as int]
    &&& mask[r.end - 1]
}

/// Whether a frame lies in one of several stretches.
spec fn inside(regions: Seq<FrameRegion>, k: int) -> bool {
    exists|r: int| 0 <= r < regions.len() && (#[trigger] regions[r]).start <= k < regions[r].end
}

proof fn lemma_current_ok(mask: Seq<bool>)
    ensures
        current_ok(mask, scanned(mask)),
    decreases mask.len(),
{
    if mask.len() > 0 {
        let init = mask.drop_last();
        lemma_current_ok(init);
        let before = scanned(init);
        if before.start is Some {
            assert(mask[before.start->0 as int] == init[before.start->0 as int]);
            assert(mask[init.len() - before.gap - 1] == init[init.len() - before.gap - 1]);
        }
    }
}

proof fn lemma_region_ok(mask: Seq<bool>, r: int)
    requires
        mask.len() <= usize::MAX,
        0 <= r < scanned(mask).regions.len(),
    ensures
        region_ok(mask, scanned(mask).regions[r]),
    decreases mask.len(),
{
    let init = mask.drop_last();
    let before = scanned(init);
    lemma_current_ok(init);
    if r < before.regions.len() {
        lemma_region_ok(init, r);
        let region = before.regions[r];
        assert(scanned(mask).regions[r] == region);
        assert(mask[region.start as int] == init[region.start as int]);
        assert(mask[region.end - 1] == init[region.end - 1]);
    } else {
        let start = before.start->0 as int;
        assert(mask[start] == init[start]);
        assert(mask[init.len() - before.gap - 1] == init[init.len() - before.gap - 1]);
    }
}

proof fn lemma_covered(mask: Seq<bool>, k: int)
    requires
        mask.len() <= usize::MAX,
        0 <= k < mask.len(),
        mask[k],
    ensures
        inside(scanned(mask).regions, k) || (scanned(mask).start is Some && scanned(mask).start->0
            <= k < mask.len() - scanned(mask).gap),
    decreases mask.len(),
{
    let init = mask.drop_last();
    let before = scanned(init);
    let after = scanned(mask);
    lemma_current_ok(init);
    if k < init.len() {
        assert(init[k]);
        lemma_covered(init, k);
        if inside(before.regions, k) {
            let r = choose|r: int|
                0 <= r < before.regions.len() && (#[trigger] before.regions[r]).start <= k
                    < before.regions[r].end;
            assert(after.regions[r] == before.regions[r]);
        } else if after.start is None {
            assert(after.regions[before.regions.len() as int].start <= k);
        }
    }
}

/// Every frame of speech lies in a stretch.
pub proof fn law_speech_is_covered(mask: Seq<bool>, k: int)
    requires
        mask.len() <= usize::MAX,
        0 <= k < mask.len(),
        mask[k],
    ensures
        exists|r: int|
            0 <= r < speech_frames(mask).len() && (#[trigger] speech_frames(mask)[r]).start <= k
                < speech_frames(mask)[r].end,
{
    lemma_covered(mask, k);
    let s = scanned(mask);
    let all = speech_frames(mask);
    if inside(s.regions, k) {
        let r = choose|r: int|
            0 <= r < s.regions.len() && (#[trigger] s.regions[r]).start <= k < s.regions[r].end;
        assert(all[r] == s.regions[r]);
    } else {
        assert(all[s.regions.len() as int].start <= k);
    }
}

/// Every stretch begins and ends with speech.
pub proof fn law_stretches_begin_and_end_with_speech(mask: Seq<bool>, r: int)
    requires
        mask.len() <= usize::MAX,
        0 <= r < speech_frames(mask).len(),
    ensures
        speech_frames(mask)[r].start < speech_frames(mask)[r].end <= mask.len(),
        mask[speech_frames(mask)[r].start as int],
        mask[speech_frames(mask)[r].end - 1],
{
    lemma_current_ok(mask);
    let s = scanned(mask);
    if r < s.regions.len() {
        lemma_region_ok(mask, r);
        assert(speech_frames(mask)[r] == s.regions[r]);
    }
}

/// Whether more than a bridge of silence, and nothing else, lies between two
/// frames.
pub open spec fn apart(mask: Seq<bool>, end: int, start: int) -> bool {
    &&& end + BRIDGE_FRAMES < start
    &&& forall|k: int| end <= k < start ==> !#[trigger] mask[k]
}

/// Whether there is speech in one of the frames that a bridge could not span.
pub open spec fn speech_from(mask: Seq<bool>, k: int) -> bool {
    exists|j: int| k <= j <= k + BRIDGE_FRAMES && #[trigger] mask[j]
}

/// Whether only silence follows the last speech, enough of it where that
/// ended a stretch.
spec fn silence_ok(mask: Seq<bool>, s: Scan) -> bool {
    &&& s.start is Some ==> forall|k: int|
        mask.len() - s.gap <= k < mask.len() ==> !#[trigger] mask[k]
    &&& s.regions.len() > 0 ==> apart(
        mask,
        s.regions.last().end as int,
        if s.start is Some {
            s.start->0 as int
        } else {
            mask.len() as int
        },
    )
}

proof fn lemma_silence_ok(mask: Seq<bool>)
    requires
        mask.len() <= usize::MAX,
    ensures
        silence_ok(mask, scanned(mask)),
    decreases mask.len(),
{
    if mask.len() > 0 {
        let init = mask.drop_last();
        let before = scanned(init);
        lemma_silence_ok(init);
        lemma_current_ok(init);
        assert forall|k: int| 0 <= k < init.len() implies #[trigger] mask[k] == init[k] by {}
        if before.regions.len() > 0 {
            lemma_region_ok(init, before.regions.len() - 1);
        }
    }
}

proof fn lemma_regions_apart(mask: Seq<bool>, r: int)
    requires
        mask.len() <= usize::MAX,
        0 <= r,
        r + 1 < scanned(mask).regions.len(),
    ensures
        apart(
            mask,
            scanned(mask).regions[r].end as int,
            scanned(mask).regions[r + 1].start as int,
        ),
    decreases mask.len(),
{
    let init = mask.drop_last();
    let before = scanned(init);
    lemma_silence_ok(init);
    lemma_current_ok(init);
    assert forall|k: int| 0 <= k < init.len() implies #[trigger] mask[k] == init[k] by {}
    lemma_region_ok(mask, r);
    lemma_region_ok(mask, r + 1);
    if r + 1 < before.regions.len() {
        lemma_region_ok(init, r + 1);
        lemma_regions_apart(init, r);
    }
}

proof fn lemma_current_together(mask: Seq<bool>, k: int)
    requires
        scanned(mask).start is Some,
        scanned(mask).start->0 <= k,
        k + BRIDGE_FRAMES < mask.len() - scanned(mask).gap,
    ensures
        speech_from(mask, k),
    decreases mask.len(),
{
    let init = mask.drop_last();
    let before = scanned(init);
    lemma_current_ok(init);
    if k + BRIDGE_FRAMES == mask.len() - 1 {
        assert(mask[mask.len() - 1]);
    } else if k + BRIDGE_FRAMES < init.len() - before.gap {
        lemma_current_together(init, k);
        let j = choose|j: int| k <= j <= k + BRIDGE_FRAMES && #[trigger] init[j];
        assert(mask[j]);
    } else {
        let j = init.len() - before.gap - 1;
        assert(init[j]);
        assert(mask[j]);
    }
}

proof fn lemma_region_together(mask: Seq<bool>, r: int, k: int)
    requires
        mask.len() <= usize::MAX,
        0 <= r < scanned(mask).regions.len(),
        scanned(mask).regions[r].start <= k,
        k + BRIDGE_FRAMES < scanned(mask).regions[r].end,
    ensures
        speech_from(mask, k),
    decreases mask.len(),
{
    let init = mask.drop_last();
    let before = scanned(init);
    lemma_current_ok(init);
    if r < before.regions.len() {
        lemma_region_ok(init, r);
        lemma_region_together(init, r, k);
    } else {
        lemma_current_together(init, k);
    }
    let j = choose|j: int| k <= j <= k + BRIDGE_FRAMES && #[trigger] init[j];
    assert(mask[j]);
}

/// Stretches follow each other, with more silence between them than a bridge
/// spans.
pub proof fn law_stretches_are_apart(mask: Seq<bool>, r: int)
    requires
        mask.len() <= usize::MAX,
        0 <= r,
        r + 1 < speech_frames(mask).len(),
    ensures
        apart(
            mask,
            speech_frames(mask)[r].end as int,
            speech_frames(mask)[r + 1].start as int,
        ),
{
    let s = scanned(mask);
    lemma_current_ok(mask);
    if r + 1 < s.regions.len() {
        lemma_regions_apart(mask, r);
    } else {
        lemma_silence_ok(mask);
    }
}

/// No silence inside a stretch is longer than a bridge.
pub proof fn law_stretches_hold_together(mask: Seq<bool>, r: int, k: int)
    requires
        mask.len() <= usize::MAX,
        0 <= r < speech_frames(mask).len(),
        speech_frames(mask)[r].start <= k,
        k + BRIDGE_FRAMES < speech_frames(mask)[r].end,
    ensures
        speech_from(mask, k),
{
    let s = scanned(mask);
    lemma_current_ok(mask);
    if r < s.regions.len() {
        lemma_region_together(mask, r, k);
    } else {
        lemma_current_together(mask, k);
    }
}

/// Speech with at most four silent frames between belongs to one stretch.
pub proof fn law_short_pauses_are_bridged(mask: Seq<bool>, i: int, j: int) -> (r: int)
    requires
        mask.len() <= usize::MAX,
        0 <= i < j < mask.len(),
        j - i <= 5,
        mask[i],
        mask[j],
    ensures
        0 <= r < speech_frames(mask).len(),
        speech_frames(mask)[r].start <= i,
        j < speech_frames(mask)[r].end,
{
    law_speech_is_covered(mask, i);
    law_speech_is_covered(mask, j);
    let all = speech_frames(mask);
    let a = choose|r: int| 0 <= r < all.len() && (#[trigger] all[r]).start <= i < all[r].end;
    let b = choose|r: int| 0 <= r < all.len() && (#[trigger] all[r]).start <= j < all[r].end;
    if a < b {
        lemma_stretches_rise(mask, a, b);
    } else if b < a {
        lemma_stretches_rise(mask, b, a);
    }
    a
}

proof fn lemma_stretches_rise(mask: Seq<bool>, a: int, b: int)
    requires
        mask.len() <= usize::MAX,
        0 <= a < b < speech_frames(mask).len(),
    ensures
        speech_frames(mask)[a].end + 4 < speech_frames(mask)[b].start,
    decreases b - a,
{
    law_stretches_are_apart(mask, b - 1);
    law_stretches_begin_and_end_with_speech(mask, b - 1);
    if a < b - 1 {
        lemma_stretches_rise(mask, a, b - 1);
    }
}

/// Five silent frames or more end a stretch: none holds them all.
pub proof fn law_long_pauses_part(mask: Seq<bool>, k: int, r: int)
    requires
        mask.len() <= usize::MAX,
        0 <= k,
        k + 5 <= mask.len(),
        forall|j: int| k <= j < k + 5 ==> !#[trigger] mask[j],
        0 <= r < speech_frames(mask).len(),
    ensures
        !(speech_frames(mask)[r].start <= k && k + 5 <= speech_frames(mask)[r].end),
{
    if speech_frames(mask)[r].start <= k && k + 5 <= speech_frames(mask)[r].end {
        law_stretches_hold_together(mask, r, k);
        let j = choose|j: int| k <= j <= k + BRIDGE_FRAMES && #[trigger] mask[j];
        assert(!mask[j]);
    }
}

} // verus!
