//! Speech transcription: model management, local and remote engines, and the
//! text processing around them.
//!
//! Times inside transcriptions are values of a type parameter `T`, the seconds
//! that an engine reports. The library copies them and never computes with
//! them.

pub mod api;
pub mod audio;
pub mod cleanup;
pub mod cli;
pub mod diarization;
pub mod dictionary;
pub mod download;
pub mod engines;
pub mod itn;
pub mod models;
pub mod paths;
pub mod provider;
pub mod remote;
pub mod service;
pub mod text;
pub mod vad;

use vstd::prelude::*;

verus! {

/// A piece of a transcription with its times.
#[derive(Debug, Clone, PartialEq)]
pub struct TranscriptionSegment<T> {
    /// Start time in seconds.
    pub start: T,
    /// End time in seconds.
    pub end: T,
    pub text: String,
}

/// Raw output of a transcription engine: text plus optional segments.
#[derive(Debug, Clone, PartialEq)]
pub struct TranscriptionResult<T> {
    pub text: String,
    pub segments: Option<Vec<TranscriptionSegment<T>>>,
    pub words: Option<Vec<TranscriptionSegment<T>>>,
    /// Language detected by the engine, when supported.
    pub language: Option<String>,
}

/// A finished transcription.
#[derive(Debug, Clone, PartialEq)]
pub struct Transcription<T> {
    pub text: String,
    pub segments: Option<Vec<TranscriptionSegment<T>>>,
    pub words: Option<Vec<TranscriptionSegment<T>>>,
    pub model_id: String,
    pub language: Option<String>,
    pub duration_ms: u128,
}

/// What a [`TranscriptionSegment`] holds.
#[verifier::ext_equal]
pub ghost struct SegmentText<T> {
    pub start: T,
    pub end: T,
    pub text: Seq<char>,
}

/// What a [`TranscriptionResult`] holds.
#[verifier::ext_equal]
pub ghost struct ResultText<T> {
    pub text: Seq<char>,
    pub segments: Option<Seq<SegmentText<T>>>,
    pub words: Option<Seq<SegmentText<T>>>,
    pub language: Option<Seq<char>>,
}

/// What a [`Transcription`] holds.
#[verifier::ext_equal]
pub ghost struct TranscriptionText<T> {
    pub text: Seq<char>,
    pub segments: Option<Seq<SegmentText<T>>>,
    pub words: Option<Seq<SegmentText<T>>>,
    pub model_id: Seq<char>,
    pub language: Option<Seq<char>>,
    pub duration_ms: nat,
}

impl<T> View for TranscriptionSegment<T> {
    type V = SegmentText<T>;

    open spec fn view(&self) -> SegmentText<T> {
        SegmentText { start: self.start, end: self.end, text: self.text@ }
    }
}

/// What a list of segments holds.
pub open spec fn segment_texts<T>(v: Seq<TranscriptionSegment<T>>) -> Seq<SegmentText<T>> {
    Seq::new(v.len(), |i: int| v[i]@)
}

/// What an optional list of segments holds.
pub open spec fn opt_segment_texts<T>(o: Option<Vec<TranscriptionSegment<T>>>) -> Option<
    Seq<SegmentText<T>>,
> {
    match o {
        Some(v) => Some(segment_texts(v@)),
        None => None,
    }
}

/// Appending a segment appends what it holds.
pub broadcast proof fn lemma_segment_texts_push<T>(
    v: Seq<TranscriptionSegment<T>>,
    s: TranscriptionSegment<T>,
)
    ensures
        #[trigger] segment_texts(v.push(s)) == segment_texts(v).push(s@),
{
    assert(segment_texts(v.push(s)) =~= segment_texts(v).push(s@));
}

impl<T> View for TranscriptionResult<T> {
    type V = ResultText<T>;

    open spec fn view(&self) -> ResultText<T> {
        ResultText {
            text: self.text@,
            segments: opt_segment_texts(self.segments),
            words: opt_segment_texts(self.words),
            language: text::opt_text(self.language),
        }
    }
}

impl<T> View for Transcription<T> {
    type V = TranscriptionText<T>;

    open spec fn view(&self) -> TranscriptionText<T> {
        TranscriptionText {
            text: self.text@,
            segments: opt_segment_texts(self.segments),
            words: opt_segment_texts(self.words),
            model_id: self.model_id@,
            language: text::opt_text(self.language),
            duration_ms: self.duration_ms as nat,
        }
    }
}

/// What a list of segments holds is what its fields hold, one for one.
pub proof fn law_segments_hold_their_fields<T>(v: Seq<TranscriptionSegment<T>>, i: int)
    ensures
        segment_texts(v).len() == v.len(),
        0 <= i < v.len() ==> segment_texts(v)[i].start == v[i].start && segment_texts(v)[i].end
            == v[i].end && segment_texts(v)[i].text == v[i].text@,
{
}

/// What a transcription holds is what its fields hold.
pub proof fn law_transcriptions_hold_their_fields<T>(t: Transcription<T>, r: TranscriptionResult<T>)
    ensures
        t@.text == t.text@ && r@.text == r.text@,
        t@.model_id == t.model_id@,
        t@.duration_ms == t.duration_ms,
        t@.segments is Some <==> t.segments is Some,
        t.segments is Some ==> t@.segments == Some(segment_texts(t.segments->0@)),
        t@.words is Some <==> t.words is Some,
        t.words is Some ==> t@.words == Some(segment_texts(t.words->0@)),
        t.language is None <==> t@.language is None,
        t.language is Some ==> t@.language == Some(t.language->0@),
        r@.segments is Some <==> r.segments is Some,
        r.segments is Some ==> r@.segments == Some(segment_texts(r.segments->0@)),
        r@.words is Some <==> r.words is Some,
        r.words is Some ==> r@.words == Some(segment_texts(r.words->0@)),
        r.language is None <==> r@.language is None,
        r.language is Some ==> r@.language == Some(r.language->0@),
{
}

/// How finely a transcription is timed.
#[derive(Debug, Clone, Copy, PartialEq, Eq, Structural)]
pub enum TimestampGranularity {
    Segment,
    Word,
}

/// A string that does not name any variant of the enum being parsed.
#[derive(Debug, Clone, PartialEq, Eq)]
pub struct UnsupportedValue(pub String);

impl UnsupportedValue {
    /// The value in back quotes, as it appears in messages.
    pub fn message(&self) -> (r: String)
        ensures
            r@ == "`"@ + self.0@ + "`"@,
    {
        text::concat3("`", self.0.as_str(), "`")
    }
}

impl TimestampGranularity {
    /// The name of a granularity.
    pub open spec fn name(self) -> Seq<char> {
        match self {
            TimestampGranularity::Segment => "segment"@,
            TimestampGranularity::Word => "word"@,
        }
    }

    pub fn as_str(self) -> (r: &'static str)
        ensures
            r@ == self.name(),
    {
        match self {
            TimestampGranularity::Segment => "segment",
            TimestampGranularity::Word => "word",
        }
    }

    /// The granularity with a given name.
    pub fn parse(value: &str) -> (r: Result<Self, UnsupportedValue>)
        ensures
            match r {
                Ok(g) => value@ == g.name(),
                Err(e) => e.0@ == value@ && value@ != "segment"@ && value@ != "word"@,
            },
    {
        if text::same(value, "segment") {
            Ok(TimestampGranularity::Segment)
        } else if text::same(value, "word") {
            Ok(TimestampGranularity::Word)
        } else {
            Err(UnsupportedValue(text::owned(value)))
        }
    }
}

impl std::str::FromStr for TimestampGranularity {
    type Err = UnsupportedValue;

    fn from_str(value: &str) -> (r: Result<Self, UnsupportedValue>)
        ensures
            match r {
                Ok(g) => value@ == g.name(),
                Err(e) => e.0@ == value@ && value@ != "segment"@ && value@ != "word"@,
            },
    {
        TimestampGranularity::parse(value)
    }
}

/// Writing a granularity and reading it back gives the same granularity, and
/// the two have different names.
pub proof fn law_granularity_names(a: TimestampGranularity, b: TimestampGranularity)
    ensures
        a.name() == b.name() <==> a == b,
{
    reveal_strlit("segment");
    reveal_strlit("word");
    assert("segment"@.len() != "word"@.len());
}

/// The most Core ML log lines that are kept.
pub const MAX_LINES: usize = 64;

/// The Core ML lines of the native log, the newest last.
#[derive(Debug, Default)]
pub struct CoreMlLog {
    lines: Vec<String>,
}

impl View for CoreMlLog {
    type V = Seq<Seq<char>>;

    closed spec fn view(&self) -> Seq<Seq<char>> {
        text::texts(self.lines@)
    }
}

/// The log after one more message: a line that speaks of Core ML is trimmed
/// and kept, and pushes the oldest out of a full log.
pub open spec fn log_after(lines: Seq<Seq<char>>, message: Seq<char>) -> Seq<Seq<char>> {
    if !text::contains_text(message, "Core ML"@) {
        lines
    } else if lines.len() >= MAX_LINES {
        lines.drop_first().push(text::trimmed(message))
    } else {
        lines.push(text::trimmed(message))
    }
}

impl CoreMlLog {
    /// An empty log.
    pub fn new() -> (r: Self)
        ensures
            r@ == Seq::<Seq<char>>::empty(),
    {
        let lines: Vec<String> = Vec::new();
        let r = CoreMlLog { lines };
        assert(r@ =~= Seq::<Seq<char>>::empty());
        r
    }

    /// Takes one message of the native log.
    pub fn capture(&mut self, message: &str)
        ensures
            final(self)@ == log_after(old(self)@, message@),
    {
        broadcast use text::lemma_texts_push;

        if text::contains(message, "Core ML") {
            let ghost before = self.lines@;
            if self.lines.len() >= MAX_LINES {
                let _ = self.lines.remove(0);
                assert(text::texts(self.lines@) =~= text::texts(before).drop_first());
            }
            self.lines.push(text::trim(message));
        }
    }

    /// Hands out the lines and empties the log.
    pub fn take_lines(&mut self) -> (r: Vec<String>)
        ensures
            text::texts(r@) == old(self)@,
            final(self)@ == Seq::<Seq<char>>::empty(),
    {
        let lines = text::copy_texts(self.lines.as_slice());
        self.lines.clear();
        assert(self@ =~= Seq::<Seq<char>>::empty());
        lines
    }
}

/// Drains captured whisper.cpp Core ML log lines.
pub fn take_coreml_log(log: &mut CoreMlLog) -> (r: Vec<String>)
    ensures
        text::texts(r@) == old(log)@,
        final(log)@ == Seq::<Seq<char>>::empty(),
{
    log.take_lines()
}

/// A log within its limit stays within it, and the newest Core ML message is
/// its last line.
pub proof fn law_log_is_bounded(lines: Seq<Seq<char>>, message: Seq<char>)
    requires
        lines.len() <= MAX_LINES,
    ensures
        log_after(lines, message).len() <= MAX_LINES,
        text::contains_text(message, "Core ML"@) ==> log_after(lines, message).last()
            == text::trimmed(message),
{
}

/// A message that speaks of Core ML becomes the last line, trimmed; the lines
/// before it stay, but for the oldest of 64. Any other message changes nothing.
pub proof fn law_what_is_logged(lines: Seq<Seq<char>>, message: Seq<char>)
    ensures
        !text::contains_text(message, "Core ML"@) ==> log_after(lines, message) == lines,
        text::contains_text(message, "Core ML"@) && lines.len() < 64 ==> log_after(lines, message)
            == lines.push(text::trimmed(message)),
        text::contains_text(message, "Core ML"@) && lines.len() >= 64 ==> log_after(lines, message)
            == lines.skip(1).push(text::trimmed(message)),
{
    if lines.len() > 0 {
        assert(lines.skip(1) =~= lines.drop_first());
    }
}

/// Granularities are called `segment` and `word`.
pub proof fn law_names_of_granularities(g: TimestampGranularity)
    ensures
        g == TimestampGranularity::Segment ==> g.name() == "segment"@,
        g == TimestampGranularity::Word ==> g.name() == "word"@,
{
}

} // verus!
