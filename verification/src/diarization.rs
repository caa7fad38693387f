//! Speaker diarization: who spoke when.

use vstd::prelude::*;

use crate::audio::MAX_SAMPLE_RATE;
use crate::text;

verus! {

/// Samples per second of the audio that is diarized.
pub const SAMPLE_RATE: u32 = 16_000;

/// Longest input accepted. The whole clip and its spectrogram are held in
/// memory, measured at about 1.5 GB peak per hour of audio. A live stream
/// keeps only per-frame speaker activity but shares the cap.
pub const MAX_AUDIO_SECONDS: u64 = 10_800;

/// A turn of a speaker.
#[derive(Debug, Clone, Copy, PartialEq, Eq, Structural)]
pub struct SpeakerTurn {
    pub start_ms: u64,
    pub end_ms: u64,
    /// 1-based, in order of first appearance, at most 8 (4 for Sortformer
    /// v2.1).
    pub speaker: u32,
}

/// A stretch of speech as the model reports it.
#[derive(Debug, Clone, Copy, PartialEq, Eq, Structural)]
pub struct SpeakerSegment {
    pub t0_ms: i64,
    pub t1_ms: i64,
    pub speaker_id: i32,
}

/// Turns so far of a live stream.
#[derive(Debug, Clone, Default, PartialEq, Eq)]
pub struct LiveTurns {
    pub turns: Vec<SpeakerTurn>,
    /// Turns ending after this can still grow or close; the rest are final.
    pub settled_ms: u64,
}

// ---------------------------------------------------------------------------
// Turns
// ---------------------------------------------------------------------------

/// A time of the model, within the recording.
pub open spec fn clipped(ms: i64, duration_ms: u64) -> u64 {
    if ms < 0 {
        0
    } else if ms > duration_ms {
        duration_ms
    } else {
        ms as u64
    }
}

/// A reported stretch as a turn.
pub open spec fn turn_of(s: SpeakerSegment, duration_ms: u64) -> SpeakerTurn {
    SpeakerTurn {
        start_ms: clipped(s.t0_ms, duration_ms),
        end_ms: clipped(s.t1_ms, duration_ms),
        speaker: s.speaker_id as u32,
    }
}

/// Whether a reported stretch has a speaker and some length.
pub open spec fn is_turn(s: SpeakerSegment, duration_ms: u64) -> bool {
    s.speaker_id >= 1 && turn_of(s, duration_ms).end_ms > turn_of(s, duration_ms).start_ms
}

/// The turns among reported stretches, as they were reported.
pub open spec fn reported_turns(segments: Seq<SpeakerSegment>, duration_ms: u64) -> Seq<SpeakerTurn>
    decreases segments.len(),
{
    if segments.len() == 0 {
        seq![]
    } else {
        let before = reported_turns(segments.drop_last(), duration_ms);
        if is_turn(segments.last(), duration_ms) {
            before.push(turn_of(segments.last(), duration_ms))
        } else {
            before
        }
    }
}

/// The order of turns: by start, then end, then speaker.
pub open spec fn turn_le(a: SpeakerTurn, b: SpeakerTurn) -> bool {
    ||| a.start_ms < b.start_ms
    ||| a.start_ms == b.start_ms && a.end_ms < b.end_ms
    ||| a.start_ms == b.start_ms && a.end_ms == b.end_ms && a.speaker <= b.speaker
}

/// Whether turns are in order.
pub open spec fn in_order(turns: Seq<SpeakerTurn>) -> bool {
    forall|i: int, j: int|
        0 <= i < j < turns.len() ==> turn_le(#[trigger] turns[i], #[trigger] turns[j])
}

fn clip(ms: i64, duration_ms: u64) -> (r: u64)
    ensures
        r == clipped(ms, duration_ms),
{
    if ms < 0 {
        0
    } else if ms as u64 > duration_ms {
        duration_ms
    } else {
        ms as u64
    }
}

fn is_before_or_same(a: SpeakerTurn, b: SpeakerTurn) -> (r: bool)
    ensures
        r == turn_le(a, b),
{
    a.start_ms < b.start_ms || (a.start_ms == b.start_ms && (a.end_ms < b.end_ms || (a.end_ms
        == b.end_ms && a.speaker <= b.speaker)))
}

/// Puts a turn in its place among turns that are in order.
fn insert_turn(turns: &mut Vec<SpeakerTurn>, turn: SpeakerTurn)
    requires
        in_order(old(turns)@),
    ensures
        in_order(final(turns)@),
        final(turns)@.to_multiset() == old(turns)@.to_multiset().insert(turn),
{
    let ghost before = turns@;
    let mut at: usize = turns.len();
    while at > 0 && !is_before_or_same(turns[at - 1], turn)
        invariant
            turns@ == before,
            at <= turns@.len(),
            forall|j: int| at <= j < turns@.len() ==> !turn_le(#[trigger] turns@[j], turn),
        decreases at,
    {
        at -= 1;
    }
    turns.insert(at, turn);
    proof {
        before.to_multiset_ensures();
        assert(turns@ =~= before.insert(at as int, turn));
        vstd::seq_lib::to_multiset_insert(before, at as int, turn);
        assert forall|i: int, j: int| 0 <= i < j < turns@.len() implies turn_le(
            #[trigger] turns@[i],
            #[trigger] turns@[j],
        ) by {
            if i < at && j < at {
                assert(turn_le(before[i], before[j]));
            } else if i < at && j == at {
                if i < at - 1 {
                    assert(turn_le(before[i], before[at - 1]));
                }
            } else if i < at && j > at {
                assert(turn_le(before[i], before[j - 1]));
            } else if i == at {
                assert(!turn_le(before[j - 1], turn));
            } else {
                assert(turn_le(before[i - 1], before[j - 1]));
            }
        }
    }
}

/// The turns among reported stretches, in order. Times are clipped to the
/// recording.
pub fn to_turns(segments: &[SpeakerSegment], duration_ms: u64) -> (r: Vec<SpeakerTurn>)
    ensures
        r@.to_multiset() == reported_turns(segments@, duration_ms).to_multiset(),
        in_order(r@),
{
    let mut turns: Vec<SpeakerTurn> = Vec::new();
    let mut i: usize = 0;
    assert(turns@ =~= reported_turns(segments@.take(0), duration_ms));
    while i < segments.len()
        invariant
            i <= segments@.len(),
            in_order(turns@),
            turns@.to_multiset() == reported_turns(
                segments@.take(i as int),
                duration_ms,
            ).to_multiset(),
        decreases segments@.len() - i,
    {
        proof {
            assert(segments@.take(i + 1).drop_last() =~= segments@.take(i as int));
            assert(segments@.take(i + 1).last() == segments@[i as int]);
            reported_turns(segments@.take(i as int), duration_ms).to_multiset_ensures();
        }
        let s = segments[i];
        if s.speaker_id >= 1 {
            let turn = SpeakerTurn {
                start_ms: clip(s.t0_ms, duration_ms),
                end_ms: clip(s.t1_ms, duration_ms),
                speaker: s.speaker_id as u32,
            };
            if turn.end_ms > turn.start_ms {
                insert_turn(&mut turns, turn);
            }
        }
        i += 1;
    }
    assert(segments@.take(i as int) =~= segments@);
    turns
}

/// Turns have speakers and some length, and lie within the recording.
pub proof fn law_turns_are_proper(segments: Seq<SpeakerSegment>, duration_ms: u64, i: int)
    requires
        0 <= i < reported_turns(segments, duration_ms).len(),
    ensures
        reported_turns(segments, duration_ms)[i].speaker >= 1,
        reported_turns(segments, duration_ms)[i].start_ms < reported_turns(
            segments,
            duration_ms,
        )[i].end_ms <= duration_ms,
    decreases segments.len(),
{
    if i < reported_turns(segments.drop_last(), duration_ms).len() {
        law_turns_are_proper(segments.drop_last(), duration_ms, i);
    }
}

// ---------------------------------------------------------------------------
// Limits
// ---------------------------------------------------------------------------

/// Why audio is not diarized.
#[derive(Debug, Clone, Copy, PartialEq, Eq, Structural)]
pub enum AudioError {
    NoSampleRate,
    UnsupportedRate(u32),
    TooLong,
}

/// What is shown for an error.
pub open spec fn audio_message(e: AudioError) -> Seq<char> {
    match e {
        AudioError::NoSampleRate => "sample rate must be greater than zero"@,
        AudioError::UnsupportedRate(rate) => "unsupported sample rate "@ + text::decimal(
            rate as nat,
        ) + " Hz"@,
        AudioError::TooLong => "audio is too long to diarize: the limit is 3 hours"@,
    }
}

impl AudioError {
    /// What is shown for an error.
    pub fn message(&self) -> (r: String)
        ensures
            r@ == audio_message(*self),
    {
        match self {
            AudioError::NoSampleRate => text::owned("sample rate must be greater than zero"),
            AudioError::UnsupportedRate(rate) => {
                let n = text::decimal_of(*rate as u128);
                text::concat3("unsupported sample rate ", n.as_str(), " Hz")
            },
            AudioError::TooLong => text::owned(
                "audio is too long to diarize: the limit is 3 hours",
            ),
        }
    }
}

/// What keeps a recording from being diarized, if anything.
pub open spec fn recording_error(samples: nat, sample_rate: u32) -> Option<AudioError> {
    if sample_rate == 0 {
        Some(AudioError::NoSampleRate)
    } else if sample_rate > MAX_SAMPLE_RATE {
        Some(AudioError::UnsupportedRate(sample_rate))
    } else if samples / sample_rate as nat > MAX_AUDIO_SECONDS {
        Some(AudioError::TooLong)
    } else {
        None
    }
}

/// Accepts recordings of a supported rate and length.
pub fn check_recording(samples: usize, sample_rate: u32) -> (r: Result<(), AudioError>)
    ensures
        match r {
            Ok(_) => recording_error(samples as nat, sample_rate) is None,
            Err(e) => recording_error(samples as nat, sample_rate) == Some(e),
        },
{
    if sample_rate == 0 {
        return Err(AudioError::NoSampleRate);
    }
    if sample_rate > MAX_SAMPLE_RATE {
        return Err(AudioError::UnsupportedRate(sample_rate));
    }
    if samples as u64 / sample_rate as u64 > MAX_AUDIO_SECONDS {
        return Err(AudioError::TooLong);
    }
    Ok(())
}

/// How long audio at 16 kHz is, in milliseconds.
pub fn duration_ms(samples: usize) -> (r: u64)
    requires
        samples * 1000 <= u64::MAX,
    ensures
        r == samples * 1000 / 16_000,
{
    samples as u64 * 1000 / SAMPLE_RATE as u64
}

/// Accepts a path that leads to a file.
pub fn check_model_file(path: &str, is_file: bool) -> (r: Result<(), String>)
    ensures
        match r {
            Ok(_) => is_file,
            Err(e) => !is_file && e@ == "diarization model file not found: "@ + path@,
        },
{
    if is_file {
        Ok(())
    } else {
        Err(text::concat2("diarization model file not found: ", path))
    }
}

/// Accepts the architectures of models that diarize.
pub fn check_diarizer(arch: &str, path: &str) -> (r: Result<(), String>)
    ensures
        match r {
            Ok(_) => arch@ == "sortformer"@ || arch@ == "nemotron3_diar"@,
            Err(e) => arch@ != "sortformer"@ && arch@ != "nemotron3_diar"@ && e@ == path@
                + " is not a Sortformer diarization model"@,
        },
{
    if text::same(arch, "sortformer") || text::same(arch, "nemotron3_diar") {
        Ok(())
    } else {
        Err(text::concat2(path, " is not a Sortformer diarization model"))
    }
}

/// Accepts the architecture of models that diarize live.
pub fn check_live_diarizer(arch: &str) -> (r: Result<(), String>)
    ensures
        match r {
            Ok(_) => arch@ == "nemotron3_diar"@,
            Err(e) => arch@ != "nemotron3_diar"@ && e@
                == "live diarization needs Nemotron-3 Diarization, not Sortformer v2.1"@,
        },
{
    if text::same(arch, "nemotron3_diar") {
        Ok(())
    } else {
        Err(text::owned("live diarization needs Nemotron-3 Diarization, not Sortformer v2.1"))
    }
}

// ---------------------------------------------------------------------------
// Live streams
// ---------------------------------------------------------------------------

/// The state of a live stream.
#[derive(Debug, Clone, Copy, PartialEq, Eq, Structural)]
pub struct LiveStream {
    /// Samples received so far.
    pub received: u64,
    /// Turns that end by then are final.
    pub settled_ms: u64,
}

/// Where turns are final, once the model has committed to audio. Open turns
/// end exactly at the committed frontier; settling a millisecond before it
/// keeps them provisional.
pub open spec fn settled_at(committed_ms: i64) -> u64 {
    if committed_ms > 0 {
        (committed_ms - 1) as u64
    } else {
        0
    }
}

impl LiveStream {
    pub fn new() -> (r: Self)
        ensures
            r == (LiveStream { received: 0, settled_ms: 0 }),
    {
        LiveStream { received: 0, settled_ms: 0 }
    }

    /// Accepts more samples, unless the stream would get too long. So a stream
    /// never gets longer than the limit.
    pub fn accept(&mut self, samples: usize) -> (r: Result<(), AudioError>)
        ensures
            r is Err <==> samples > 0 && (old(self).received + samples) / 16_000
                > MAX_AUDIO_SECONDS,
            r matches Err(e) ==> e == AudioError::TooLong && *final(self) == *old(self),
            r is Ok ==> *final(self) == (LiveStream {
                received: if samples > 0 {
                    (old(self).received + samples) as u64
                } else {
                    old(self).received
                },
                ..*old(self)
            }),
            old(self).received / SAMPLE_RATE as u64 <= MAX_AUDIO_SECONDS ==> final(self).received
                / SAMPLE_RATE as u64 <= MAX_AUDIO_SECONDS,
    {
        if samples == 0 {
            return Ok(());
        }
        let received: u128 = self.received as u128 + samples as u128;
        if received / SAMPLE_RATE as u128 > MAX_AUDIO_SECONDS as u128 {
            return Err(AudioError::TooLong);
        }
        self.received = received as u64;
        Ok(())
    }

    /// Takes note of how far the model has committed to the audio.
    pub fn committed(&mut self, committed_ms: i64)
        ensures
            *final(self) == (LiveStream { settled_ms: settled_at(committed_ms), ..*old(self) }),
    {
        self.settled_ms = if committed_ms > 0 {
            committed_ms as u64 - 1
        } else {
            0
        };
    }

    /// The turns so far.
    pub fn turns(&self, segments: &[SpeakerSegment]) -> (r: LiveTurns)
        ensures
            r.turns@.to_multiset() == reported_turns(segments@, u64::MAX).to_multiset(),
            in_order(r.turns@),
            r.settled_ms == self.settled_ms,
    {
        LiveTurns { turns: to_turns(segments, u64::MAX), settled_ms: self.settled_ms }
    }
}

/// A turn that reaches the committed frontier can still grow: it is not
/// settled.
pub proof fn law_open_turns_are_not_settled(turn: SpeakerTurn, committed_ms: i64)
    requires
        turn.start_ms < turn.end_ms,
        turn.end_ms >= committed_ms,
    ensures
        turn.end_ms > settled_at(committed_ms),
{
}

/// The turns of a finished stream, from the audio that the model received.
pub fn final_turns(segments: &[SpeakerSegment], received_ms: i64) -> (r: Vec<SpeakerTurn>)
    ensures
        r@.to_multiset() == reported_turns(
            segments@,
            if received_ms > 0 {
                received_ms as u64
            } else {
                0
            },
        ).to_multiset(),
        in_order(r@),
{
    let duration: u64 = if received_ms > 0 {
        received_ms as u64
    } else {
        0
    };
    to_turns(segments, duration)
}

/// Reported stretches become turns in the order in which they were reported,
/// with their speakers. Times before the recording count as its beginning and
/// times after it as its end; a stretch without a speaker, or of which nothing
/// is left, is no turn.
pub proof fn law_turns_are_what_was_reported(segments: Seq<SpeakerSegment>, duration_ms: u64) -> (from:
    Seq<int>)
    ensures
        from.len() == reported_turns(segments, duration_ms).len(),
        forall|k: int|
            0 <= k < from.len() ==> {
                let s = segments[#[trigger] from[k]];
                let turn = reported_turns(segments, duration_ms)[k];
                &&& 0 <= from[k] < segments.len()
                &&& s.speaker_id >= 1 && turn.speaker == s.speaker_id
                &&& 0 <= s.t0_ms <= duration_ms ==> turn.start_ms == s.t0_ms
                &&& 0 <= s.t1_ms <= duration_ms ==> turn.end_ms == s.t1_ms
                &&& s.t0_ms < 0 ==> turn.start_ms == 0
                &&& s.t1_ms > duration_ms ==> turn.end_ms == duration_ms
            },
        forall|k: int, l: int| 0 <= k < l < from.len() ==> #[trigger] from[k] < #[trigger] from[l],
        forall|i: int|
            0 <= i < segments.len() && (#[trigger] segments[i]).speaker_id >= 1
                && segments[i].t0_ms < segments[i].t1_ms && segments[i].t0_ms < duration_ms
                && segments[i].t1_ms > 0 && duration_ms > 0 ==> from.contains(i),
    decreases segments.len(),
{
    if segments.len() == 0 {
        seq![]
    } else {
        let init = segments.drop_last();
        let m = init.len() as int;
        let before = law_turns_are_what_was_reported(init, duration_ms);
        let from = if is_turn(segments.last(), duration_ms) {
            before.push(m)
        } else {
            before
        };
        assert forall|i: int|
            0 <= i < segments.len() && (#[trigger] segments[i]).speaker_id >= 1
                && segments[i].t0_ms < segments[i].t1_ms && segments[i].t0_ms < duration_ms
                && segments[i].t1_ms > 0 && duration_ms > 0 implies from.contains(i) by {
            if i < m {
                assert(init[i] == segments[i]);
                let k = choose|k: int| 0 <= k < before.len() && before[k] == i;
                assert(from[k] == i);
            } else {
                assert(from[before.len() as int] == i);
            }
        }
        from
    }
}

/// Turns in order start no later than those after them.
pub proof fn law_turns_in_order(turns: Seq<SpeakerTurn>, i: int, j: int)
    requires
        in_order(turns),
        0 <= i < j < turns.len(),
    ensures
        turns[i].start_ms <= turns[j].start_ms,
        turns[i].start_ms == turns[j].start_ms ==> turns[i].end_ms <= turns[j].end_ms,
{
}

/// A recording is diarized where it has a rate that is supported and is no
/// longer than three hours.
pub proof fn law_recordings_within_limits(samples: nat, sample_rate: u32)
    ensures
        recording_error(samples, sample_rate) is None ==> 0 < sample_rate && samples < (3 * 3600
            + 1) * sample_rate,
        0 < sample_rate <= MAX_SAMPLE_RATE && samples <= 3 * 3600 * sample_rate ==> recording_error(
            samples,
            sample_rate,
        ) is None,
{
    if sample_rate > 0 {
        let r = sample_rate as nat;
        assert(samples / r > 10_800 <==> samples >= 10_801 * r) by (nonlinear_arith)
            requires
                r > 0,
        ;
        assert(10_800 * r < 10_801 * r);
    }
}

/// What is settled ends before the audio that the model has committed to.
pub proof fn law_settled_before_committed(committed_ms: i64)
    ensures
        committed_ms > 0 ==> settled_at(committed_ms) + 1 == committed_ms,
        committed_ms <= 0 ==> settled_at(committed_ms) == 0,
{
}

/// What is shown for an error says which it is.
pub proof fn law_messages_of_audio_errors(e: AudioError, rate: u32)
    ensures
        e == AudioError::NoSampleRate ==> audio_message(e)
            == "sample rate must be greater than zero"@,
        e == AudioError::UnsupportedRate(rate) ==> audio_message(e) == "unsupported sample rate "@
            + text::decimal(rate as nat) + " Hz"@,
        e == AudioError::TooLong ==> audio_message(e)
            == "audio is too long to diarize: the limit is 3 hours"@,
{
}

} // verus!
