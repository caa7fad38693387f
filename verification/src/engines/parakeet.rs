//! Parakeet engine: parameters, and words and sentences from tokens.

use vstd::prelude::*;

use crate::dictionary;
use crate::dictionary::sanitize_dictionary_entries;
use crate::models::ModelLayout;
use crate::text;
use crate::text::laws;
use crate::{ResultText, SegmentText, TranscriptionResult, TranscriptionSegment};

verus! {

/// How finely a transcription is timed.
#[derive(Debug, Clone, Copy, PartialEq, Eq, Structural)]
pub enum TimestampGranularity {
    Token,
    Word,
    Segment,
}

impl Default for TimestampGranularity {
    fn default() -> (r: Self)
        ensures
            r == TimestampGranularity::Token,
    {
        TimestampGranularity::Token
    }
}

/// The numbers that a model is made of.
#[derive(Debug, Clone, Copy, PartialEq, Eq, Structural)]
pub enum QuantizationType {
    FP32,
    Int8,
}

impl Default for QuantizationType {
    fn default() -> (r: Self)
        ensures
            r == QuantizationType::FP32,
    {
        QuantizationType::FP32
    }
}

/// How a model is loaded.
#[derive(Debug, Clone, Copy, PartialEq, Eq, Structural)]
pub struct ParakeetModelParams {
    pub layout: ModelLayout,
    pub quantization: QuantizationType,
}

impl Default for ParakeetModelParams {
    fn default() -> (r: Self)
        ensures
            r.layout == ModelLayout::ParakeetTdt,
            r.quantization == QuantizationType::FP32,
    {
        ParakeetModelParams::fp32()
    }
}

impl ParakeetModelParams {
    pub fn fp32() -> (r: Self)
        ensures
            r.layout == ModelLayout::ParakeetTdt,
            r.quantization == QuantizationType::FP32,
    {
        ParakeetModelParams {
            layout: ModelLayout::ParakeetTdt,
            quantization: QuantizationType::FP32,
        }
    }

    pub fn int8() -> (r: Self)
        ensures
            r.layout == ModelLayout::ParakeetTdt,
            r.quantization == QuantizationType::Int8,
    {
        ParakeetModelParams {
            layout: ModelLayout::ParakeetTdt,
            quantization: QuantizationType::Int8,
        }
    }

    pub fn int8_with_layout(layout: ModelLayout) -> (r: Self)
        ensures
            r.layout == layout,
            r.quantization == QuantizationType::Int8,
    {
        ParakeetModelParams { layout, quantization: QuantizationType::Int8 }
    }
}

/// What is asked of the engine.
#[derive(Debug, Clone)]
pub struct ParakeetInferenceParams {
    pub timestamp_granularity: TimestampGranularity,
    pub language: Option<String>,
    pub dictionary: Vec<String>,
}

impl Default for ParakeetInferenceParams {
    fn default() -> (r: Self)
        ensures
            r.timestamp_granularity == TimestampGranularity::Token,
            r.language is None,
            r.dictionary@.len() == 0,
    {
        ParakeetInferenceParams {
            timestamp_granularity: TimestampGranularity::Token,
            language: None,
            dictionary: Vec::new(),
        }
    }
}

/// The parameters of a request, or the default ones, with a clean dictionary.
pub fn normalize_inference_params(params: Option<ParakeetInferenceParams>) -> (r:
    ParakeetInferenceParams)
    ensures
        match params {
            Some(p) => {
                &&& r.timestamp_granularity == p.timestamp_granularity
                &&& r.language == p.language
                &&& text::texts(r.dictionary@) == dictionary::sanitized(
                    text::texts(p.dictionary@),
                )
            },
            None => {
                &&& r.timestamp_granularity == TimestampGranularity::Token
                &&& r.language is None
                &&& r.dictionary@.len() == 0
            },
        },
{
    match params {
        Some(params) => {
            let cleaned = sanitize_dictionary_entries(params.dictionary.as_slice());
            ParakeetInferenceParams {
                timestamp_granularity: params.timestamp_granularity,
                language: params.language,
                dictionary: cleaned,
            }
        },
        None => ParakeetInferenceParams {
            timestamp_granularity: TimestampGranularity::Token,
            language: None,
            dictionary: Vec::new(),
        },
    }
}

/// Accepts models that can be streamed, which only unified ones can.
pub fn check_streaming(layout: ModelLayout) -> (r: Result<(), String>)
    ensures
        match r {
            Ok(_) => layout == ModelLayout::ParakeetUnified,
            Err(e) => layout != ModelLayout::ParakeetUnified && e@
                == "Streaming is only supported with unified Parakeet models"@,
        },
{
    if layout == ModelLayout::ParakeetUnified {
        Ok(())
    } else {
        Err(text::owned("Streaming is only supported with unified Parakeet models"))
    }
}

/// The tokens that are not blank, trimmed.
pub open spec fn real_tokens<T>(tokens: Seq<SegmentText<T>>) -> Seq<SegmentText<T>>
    decreases tokens.len(),
{
    if tokens.len() == 0 {
        seq![]
    } else {
        let before = real_tokens(tokens.drop_last());
        if text::blank(tokens.last().text) {
            before
        } else {
            before.push(SegmentText { text: text::trimmed(tokens.last().text), ..tokens.last() })
        }
    }
}

/// Whether a text holds no letter and no digit.
pub open spec fn punctuation_only(s: Seq<char>) -> bool {
    forall|i: int| 0 <= i < s.len() ==> !text::alphanumeric(#[trigger] s[i])
}

/// Words with punctuation attached to the word before it.
pub open spec fn attached<T>(words: Seq<SegmentText<T>>) -> Seq<SegmentText<T>>
    decreases words.len(),
{
    if words.len() == 0 {
        seq![]
    } else {
        let before = attached(words.drop_last());
        let word = words.last();
        if before.len() > 0 && punctuation_only(word.text) {
            before.drop_last().push(
                SegmentText {
                    end: word.end,
                    text: before.last().text + word.text,
                    ..before.last()
                },
            )
        } else {
            before.push(word)
        }
    }
}

/// Whether a word ends a sentence.
pub open spec fn closes_sentence(s: Seq<char>) -> bool {
    s.len() > 0 && {
        let c = s.last();
        c == '.' || c == '!' || c == '?' || c == '\u{2026}'
    }
}

/// Finished sentences, and the one that is being read.
pub open spec fn sentences_so_far<T>(words: Seq<SegmentText<T>>) -> (
    Seq<SegmentText<T>>,
    Option<SegmentText<T>>,
)
    decreases words.len(),
{
    if words.len() == 0 {
        (seq![], None)
    } else {
        let (finished, open) = sentences_so_far(words.drop_last());
        let word = words.last();
        let current = match open {
            Some(sentence) => SegmentText {
                end: word.end,
                text: sentence.text.push(' ') + word.text,
                ..sentence
            },
            None => word,
        };
        if closes_sentence(word.text) {
            (finished.push(current), None)
        } else {
            (finished, Some(current))
        }
    }
}

/// Words grouped into sentences.
pub open spec fn sentences<T>(words: Seq<SegmentText<T>>) -> Seq<SegmentText<T>> {
    let (finished, open) = sentences_so_far(words);
    match open {
        Some(sentence) => finished.push(sentence),
        None => finished,
    }
}

/// A list that is not empty.
pub open spec fn nonempty<T>(list: Seq<SegmentText<T>>) -> Option<Seq<SegmentText<T>>> {
    if list.len() > 0 {
        Some(list)
    } else {
        None
    }
}

/// The transcription made of a text and its tokens.
pub open spec fn mapped_result<T>(
    full: Seq<char>,
    tokens: Seq<SegmentText<T>>,
    granularity: TimestampGranularity,
) -> ResultText<T> {
    let mapped = real_tokens(tokens);
    ResultText {
        text: text::trimmed(full),
        segments: match granularity {
            TimestampGranularity::Token => None,
            TimestampGranularity::Segment => nonempty(mapped),
            TimestampGranularity::Word => nonempty(sentences(attached(mapped))),
        },
        words: match granularity {
            TimestampGranularity::Word => nonempty(attached(mapped)),
            _ => None,
        },
        language: None,
    }
}

fn keep_real_tokens<T: Copy>(tokens: &[TranscriptionSegment<T>]) -> (r: Vec<
    TranscriptionSegment<T>,
>)
    ensures
        crate::segment_texts(r@) == real_tokens(crate::segment_texts(tokens@)),
{
    broadcast use crate::lemma_segment_texts_push;

    let ghost all = crate::segment_texts(tokens@);
    let mut out: Vec<TranscriptionSegment<T>> = Vec::new();
    let mut i: usize = 0;
    assert(crate::segment_texts(out@) =~= Seq::<SegmentText<T>>::empty());
    while i < tokens.len()
        invariant
            all == crate::segment_texts(tokens@),
            i <= tokens@.len(),
            crate::segment_texts(out@) == real_tokens(all.take(i as int)),
        decreases tokens@.len() - i,
    {
        proof {
            assert(all.take(i + 1).drop_last() =~= all.take(i as int));
            assert(all.take(i + 1).last() == tokens@[i as int]@);
        }
        let trimmed = text::trim(tokens[i].text.as_str());
        if !trimmed.as_str().is_empty() {
            out.push(
                TranscriptionSegment { start: tokens[i].start, end: tokens[i].end, text: trimmed },
            );
        }
        i += 1;
    }
    assert(all.take(i as int) =~= all);
    out
}

fn is_punctuation_only(s: &str) -> (r: bool)
    ensures
        r == punctuation_only(s@),
{
    let x = text::chars_of(s);
    let mut i: usize = 0;
    while i < x.len()
        invariant
            x@ == s@,
            i <= x@.len(),
            forall|j: int| 0 <= j < i ==> !text::alphanumeric(#[trigger] x@[j]),
        decreases x@.len() - i,
    {
        if x[i].is_alphanumeric() {
            assert(text::alphanumeric(s@[i as int]));
            return false;
        }
        i += 1;
    }
    true
}

fn copy_segment<T: Copy>(s: &TranscriptionSegment<T>) -> (r: TranscriptionSegment<T>)
    ensures
        r@ == s@,
{
    TranscriptionSegment { start: s.start, end: s.end, text: s.text.clone() }
}

/// Attaches punctuation to the word before it.
pub fn attach_punctuation<T: Copy>(words: &[TranscriptionSegment<T>]) -> (r: Vec<
    TranscriptionSegment<T>,
>)
    ensures
        crate::segment_texts(r@) == attached(crate::segment_texts(words@)),
{
    let ghost all = crate::segment_texts(words@);
    let mut out: Vec<TranscriptionSegment<T>> = Vec::new();
    let mut i: usize = 0;
    assert(crate::segment_texts(out@) =~= Seq::<SegmentText<T>>::empty());
    while i < words.len()
        invariant
            all == crate::segment_texts(words@),
            i <= words@.len(),
            crate::segment_texts(out@) == attached(all.take(i as int)),
        decreases words@.len() - i,
    {
        let ghost before = crate::segment_texts(out@);
        proof {
            assert(all.take(i + 1).drop_last() =~= all.take(i as int));
            assert(all.take(i + 1).last() == words@[i as int]@);
        }
        let n: usize = out.len();
        if n > 0 && is_punctuation_only(words[i].text.as_str()) {
            assert(before.last() == out@[n - 1]@);
            let extended = TranscriptionSegment {
                start: out[n - 1].start,
                end: words[i].end,
                text: text::concat2(out[n - 1].text.as_str(), words[i].text.as_str()),
            };
            let _ = out.pop();
            out.push(extended);
            assert(crate::segment_texts(out@) =~= before.drop_last().push(extended@));
        } else {
            let word = copy_segment(&words[i]);
            out.push(word);
            assert(crate::segment_texts(out@) =~= before.push(word@));
        }
        i += 1;
    }
    assert(all.take(i as int) =~= all);
    out
}

fn closes_a_sentence(s: &str) -> (r: bool)
    ensures
        r == closes_sentence(s@),
{
    let x = text::chars_of(s);
    if x.len() == 0 {
        return false;
    }
    let c = x[x.len() - 1];
    c == '.' || c == '!' || c == '?' || c == '\u{2026}'
}

/// What an optional segment holds.
spec fn opt_segment<T>(o: Option<TranscriptionSegment<T>>) -> Option<SegmentText<T>> {
    match o {
        Some(s) => Some(s@),
        None => None,
    }
}

/// Groups words into sentences.
pub fn group_words_into_sentences<T: Copy>(words: &[TranscriptionSegment<T>]) -> (r: Vec<
    TranscriptionSegment<T>,
>)
    ensures
        crate::segment_texts(r@) == sentences(crate::segment_texts(words@)),
{
    let ghost all = crate::segment_texts(words@);
    let mut finished: Vec<TranscriptionSegment<T>> = Vec::new();
    let mut open: Option<TranscriptionSegment<T>> = None;
    let mut i: usize = 0;
    assert(crate::segment_texts(finished@) =~= Seq::<SegmentText<T>>::empty());
    while i < words.len()
        invariant
            all == crate::segment_texts(words@),
            i <= words@.len(),
            sentences_so_far(all.take(i as int)) == (
                crate::segment_texts(finished@),
                opt_segment(open),
            ),
        decreases words@.len() - i,
    {
        let ghost before = crate::segment_texts(finished@);
        proof {
            assert(all.take(i + 1).drop_last() =~= all.take(i as int));
            assert(all.take(i + 1).last() == words@[i as int]@);
        }
        let current = match open {
            Some(sentence) => {
                let joined = text::concat3(sentence.text.as_str(), " ", words[i].text.as_str());
                proof {
                    reveal_strlit(" ");
                    assert(" "@ =~= seq![' ']);
                    assert(joined@ =~= sentence.text@.push(' ') + words@[i as int].text@);
                }
                TranscriptionSegment { start: sentence.start, end: words[i].end, text: joined }
            },
            None => copy_segment(&words[i]),
        };
        if closes_a_sentence(words[i].text.as_str()) {
            finished.push(current);
            open = None;
            assert(crate::segment_texts(finished@) =~= before.push(current@));
        } else {
            open = Some(current);
        }
        i += 1;
    }
    assert(all.take(i as int) =~= all);
    let ghost before = crate::segment_texts(finished@);
    if let Some(sentence) = open {
        finished.push(sentence);
        assert(crate::segment_texts(finished@) =~= before.push(sentence@));
    }
    finished
}

fn list_unless_empty<T>(list: Vec<TranscriptionSegment<T>>) -> (r: Option<
    Vec<TranscriptionSegment<T>>,
>)
    ensures
        crate::opt_segment_texts(r) == nonempty(crate::segment_texts(list@)),
{
    if list.len() > 0 {
        Some(list)
    } else {
        None
    }
}

/// The transcription made of a text and its tokens.
pub fn map_result<T: Copy>(
    full: &str,
    tokens: &[TranscriptionSegment<T>],
    timestamp_granularity: TimestampGranularity,
) -> (r: TranscriptionResult<T>)
    ensures
        r@ == mapped_result(full@, crate::segment_texts(tokens@), timestamp_granularity),
{
    let mapped = keep_real_tokens(tokens);
    let (segments, words) = match timestamp_granularity {
        TimestampGranularity::Token => (None, None),
        TimestampGranularity::Segment => (list_unless_empty(mapped), None),
        TimestampGranularity::Word => {
            let words = attach_punctuation(mapped.as_slice());
            let sentences = group_words_into_sentences(words.as_slice());
            (list_unless_empty(sentences), list_unless_empty(words))
        },
    };
    TranscriptionResult { text: text::trim(full), segments, words, language: None }
}

/// The texts of segments.
pub open spec fn spoken_texts<T>(v: Seq<SegmentText<T>>) -> Seq<Seq<char>> {
    Seq::new(v.len(), |i: int| v[i].text)
}

/// Grouping words into sentences keeps all of them, in order.
pub proof fn law_sentences_keep_the_text<T>(words: Seq<SegmentText<T>>)
    ensures
        text::joined(spoken_texts(sentences(words)), seq![' ']) == text::joined(
            spoken_texts(words),
            seq![' '],
        ),
        sentences(words).len() == 0 <==> words.len() == 0,
    decreases words.len(),
{
    let sep = seq![' '];
    if words.len() == 0 {
        assert(spoken_texts(sentences(words)) =~= spoken_texts(words));
    } else {
        let init = words.drop_last();
        let w = words.last().text;
        law_sentences_keep_the_text(init);
        let prev = spoken_texts(sentences(init));
        let all = spoken_texts(words);
        assert(all.drop_last() =~= spoken_texts(init));
        let (finished, open) = sentences_so_far(init);
        let now = spoken_texts(sentences(words));
        if open is Some {
            let x = open->0.text;
            assert(prev.last() == x);
            assert(now =~= prev.drop_last().push(x.push(' ') + w));
            assert(now.drop_last() =~= prev.drop_last());
            assert(x.push(' ') + w =~= x + sep + w);
            assert(text::joined(prev.drop_last(), sep) + sep + (x + sep + w) =~= text::joined(
                prev.drop_last(),
                sep,
            ) + sep + x + sep + w);
        } else {
            assert(now =~= prev.push(w));
            assert(now.drop_last() =~= prev);
        }
    }
}

/// Whether a sentence is made of the words from one place to another: none but
/// the last closes a sentence.
spec fn is_run<T>(words: Seq<SegmentText<T>>, s: SegmentText<T>, from: int, to: int) -> bool {
    &&& 0 <= from < to <= words.len()
    &&& s.start == words[from].start
    &&& s.end == words[to - 1].end
    &&& s.text == text::joined(spoken_texts(words.subrange(from, to)), seq![' '])
    &&& forall|j: int| from <= j < to - 1 ==> !closes_sentence((#[trigger] words[j]).text)
}

proof fn lemma_run_stays<T>(
    words: Seq<SegmentText<T>>,
    longer: Seq<SegmentText<T>>,
    s: SegmentText<T>,
    from: int,
    to: int,
)
    requires
        is_run(words, s, from, to),
        words == longer.drop_last(),
        longer.len() > 0,
    ensures
        is_run(longer, s, from, to),
{
    assert(longer.subrange(from, to) =~= words.subrange(from, to));
    assert forall|j: int| from <= j < to - 1 implies !closes_sentence(
        (#[trigger] longer[j]).text,
    ) by {
        assert(words[j] == longer[j]);
    }
}

/// Where sentences begin among words: the cuts after the finished ones, up to
/// the one that is being read.
proof fn lemma_sentence_runs<T>(words: Seq<SegmentText<T>>) -> (cuts: Seq<int>)
    ensures
        cuts.len() == sentences_so_far(words).0.len() + 1,
        cuts[0] == 0,
        0 <= cuts.last() <= words.len(),
        sentences_so_far(words).1 is Some <==> cuts.last() < words.len(),
        sentences_so_far(words).1 matches Some(s) ==> {
            &&& is_run(words, s, cuts.last(), words.len() as int)
            &&& !closes_sentence(words.last().text)
        },
        forall|g: int|
            0 <= g < cuts.len() - 1 ==> {
                &&& is_run(words, #[trigger] sentences_so_far(words).0[g], cuts[g], cuts[g + 1])
                &&& closes_sentence(words[cuts[g + 1] - 1].text)
            },
    decreases words.len(),
{
    if words.len() == 0 {
        seq![0int]
    } else {
        let init = words.drop_last();
        let word = words.last();
        let m = init.len() as int;
        let before = lemma_sentence_runs(init);
        let (finished, open) = sentences_so_far(init);
        let n = finished.len() as int;
        let now = sentences_so_far(words).0;
        let current = match open {
            Some(sentence) => SegmentText {
                end: word.end,
                text: sentence.text.push(' ') + word.text,
                ..sentence
            },
            None => word,
        };
        let first = before[n];
        let texts = spoken_texts(words.subrange(first, m + 1));
        assert(texts.drop_last() =~= spoken_texts(init.subrange(first, m)));
        assert(texts.last() == word.text);
        if open is Some {
            assert(open->0.text.push(' ') + word.text =~= open->0.text + seq![' '] + word.text);
            assert(init[m - 1] == init.last());
        } else {
            assert(texts =~= seq![word.text]);
        }
        assert forall|j: int| first <= j < m implies !closes_sentence(
            (#[trigger] words[j]).text,
        ) by {
            assert(init[j] == words[j]);
        }
        assert(is_run(words, current, first, m + 1));
        let cuts = if closes_sentence(word.text) {
            before.push(m + 1)
        } else {
            before
        };
        assert forall|g: int| 0 <= g < cuts.len() - 1 implies is_run(
            words,
            #[trigger] now[g],
            cuts[g],
            cuts[g + 1],
        ) && closes_sentence(words[cuts[g + 1] - 1].text) by {
            if g < n {
                assert(now[g] == finished[g]);
                assert(is_run(init, finished[g], before[g], before[g + 1]));
                lemma_run_stays(init, words, finished[g], before[g], before[g + 1]);
            }
        }
        cuts
    }
}

/// Sentences are runs of words that follow each other and leave none out. Each
/// starts when its first word starts, ends when its last word ends, and joins
/// their texts with spaces. A word that ends in a full stop, an exclamation
/// mark, a question mark or an ellipsis ends its sentence, and nothing else
/// does but the end of the words.
pub proof fn law_sentences_are_runs_of_words<T>(words: Seq<SegmentText<T>>) -> (cuts: Seq<int>)
    ensures
        cuts.len() == sentences(words).len() + 1,
        cuts[0] == 0,
        cuts.last() == words.len(),
        forall|g: int|
            0 <= g < sentences(words).len() ==> 0 <= #[trigger] cuts[g] < cuts[g + 1] <= words.len(),
        forall|g: int|
            0 <= g < sentences(words).len() ==> {
                &&& (#[trigger] sentences(words)[g]).start == words[cuts[g]].start
                &&& sentences(words)[g].end == words[cuts[g + 1] - 1].end
                &&& sentences(words)[g].text == text::joined(
                    spoken_texts(words.subrange(cuts[g], cuts[g + 1])),
                    seq![' '],
                )
            },
        forall|g: int, j: int|
            0 <= g < sentences(words).len() && cuts[g] <= j < cuts[g + 1] && j + 1 < words.len()
                ==> (#[trigger] sentences(words)[g]).text.len() >= 0 && ((j == cuts[g + 1] - 1)
                <==> {
                let t = (#[trigger] words[j]).text;
                t.len() > 0 && (t.last() == '.' || t.last() == '!' || t.last() == '?' || t.last()
                    == '\u{2026}')
            }),
{
    let before = lemma_sentence_runs(words);
    let (finished, open) = sentences_so_far(words);
    let n = finished.len() as int;
    let cuts = if open is Some {
        before.push(words.len() as int)
    } else {
        before
    };
    assert forall|g: int| 0 <= g < sentences(words).len() implies is_run(
        words,
        #[trigger] sentences(words)[g],
        cuts[g],
        cuts[g + 1],
    ) && (g < n ==> closes_sentence(words[cuts[g + 1] - 1].text)) by {
        if g < n {
            assert(sentences(words)[g] == finished[g]);
        }
    }
    assert forall|g: int| 0 <= g < sentences(words).len() implies 0 <= #[trigger] cuts[g] < cuts[g
        + 1] <= words.len() by {
        assert(is_run(words, sentences(words)[g], cuts[g], cuts[g + 1]));
    }
    assert forall|g: int| 0 <= g < sentences(words).len() implies ({
        &&& (#[trigger] sentences(words)[g]).start == words[cuts[g]].start
        &&& sentences(words)[g].end == words[cuts[g + 1] - 1].end
        &&& sentences(words)[g].text == text::joined(
            spoken_texts(words.subrange(cuts[g], cuts[g + 1])),
            seq![' '],
        )
    }) by {
        assert(is_run(words, sentences(words)[g], cuts[g], cuts[g + 1]));
    }
    assert forall|g: int, j: int|
        0 <= g < sentences(words).len() && cuts[g] <= j < cuts[g + 1] && j + 1 < words.len() implies (
    #[trigger] sentences(words)[g]).text.len() >= 0 && ((j == cuts[g + 1] - 1) <==> {
        let t = (#[trigger] words[j]).text;
        t.len() > 0 && (t.last() == '.' || t.last() == '!' || t.last() == '?' || t.last()
            == '\u{2026}')
    }) by {
        assert(is_run(words, sentences(words)[g], cuts[g], cuts[g + 1]));
    }
    cuts
}

/// Whether a word is made of the words from one place to another: punctuation
/// follows the first.
spec fn is_attached_run<T>(words: Seq<SegmentText<T>>, s: SegmentText<T>, from: int, to: int) -> bool {
    &&& 0 <= from < to <= words.len()
    &&& s.start == words[from].start
    &&& s.end == words[to - 1].end
    &&& s.text == laws::run_together(spoken_texts(words.subrange(from, to)))
    &&& from > 0 ==> !punctuation_only(words[from].text)
    &&& forall|j: int| from < j < to ==> punctuation_only((#[trigger] words[j]).text)
}

proof fn lemma_attached_runs<T>(words: Seq<SegmentText<T>>) -> (cuts: Seq<int>)
    ensures
        cuts.len() == attached(words).len() + 1,
        cuts[0] == 0,
        cuts.last() == words.len(),
        forall|g: int|
            0 <= g < attached(words).len() ==> is_attached_run(
                words,
                #[trigger] attached(words)[g],
                cuts[g],
                cuts[g + 1],
            ),
    decreases words.len(),
{
    if words.len() == 0 {
        seq![0int]
    } else {
        let init = words.drop_last();
        let word = words.last();
        let m = init.len() as int;
        let before = lemma_attached_runs(init);
        let was = attached(init);
        let list = attached(words);
        let n = was.len() as int;
        let joins = n > 0 && punctuation_only(word.text);
        let cuts = if joins {
            before.drop_last().push(m + 1)
        } else {
            before.push(m + 1)
        };
        assert forall|g: int| 0 <= g < list.len() implies is_attached_run(
            words,
            #[trigger] list[g],
            cuts[g],
            cuts[g + 1],
        ) by {
            if g < n {
                let a = before[g];
                let b = before[g + 1];
                assert(is_attached_run(init, was[g], a, b));
                assert(words.subrange(a, b) =~= init.subrange(a, b));
                if joins && g == n - 1 {
                    let longer = spoken_texts(words.subrange(a, m + 1));
                    assert(longer.drop_last() =~= spoken_texts(words.subrange(a, b)));
                    assert(longer.last() == word.text);
                }
                assert forall|j: int| a < j < cuts[g + 1] implies punctuation_only(
                    (#[trigger] words[j]).text,
                ) by {
                    if j < m {
                        assert(init[j] == words[j]);
                    }
                }
            } else {
                let one = spoken_texts(words.subrange(m, m + 1));
                assert(one.drop_last() =~= Seq::<Seq<char>>::empty());
                assert(laws::run_together(one.drop_last()) == Seq::<char>::empty());
                assert(laws::run_together(one) =~= word.text);
                if m > 0 {
                    assert(n > 0);
                }
            }
        }
        cuts
    }
}

/// Punctuation belongs to the word before it: each word that is kept is a run
/// of one word, or of punctuation where nothing stands before it, and all the
/// punctuation that follows. It starts with the first of the run, ends with the
/// last, and holds their texts without anything between them.
pub proof fn law_punctuation_joins_the_word_before<T>(words: Seq<SegmentText<T>>) -> (cuts: Seq<int>)
    ensures
        cuts.len() == attached(words).len() + 1,
        cuts[0] == 0,
        cuts.last() == words.len(),
        forall|g: int|
            0 <= g < attached(words).len() ==> 0 <= #[trigger] cuts[g] < cuts[g + 1] <= words.len(),
        forall|g: int|
            0 <= g < attached(words).len() ==> {
                &&& (#[trigger] attached(words)[g]).start == words[cuts[g]].start
                &&& attached(words)[g].end == words[cuts[g + 1] - 1].end
                &&& attached(words)[g].text == laws::run_together(
                    spoken_texts(words.subrange(cuts[g], cuts[g + 1])),
                )
            },
        forall|g: int, j: int|
            0 <= g < attached(words).len() && cuts[g] <= j < cuts[g + 1] && j > 0 ==> (
            #[trigger] attached(words)[g]).text.len() >= 0 && ((j == cuts[g]) <==> exists|c: int|
                0 <= c < (#[trigger] words[j]).text.len() && text::alphanumeric(
                    #[trigger] words[j].text[c],
                )),
{
    let cuts = lemma_attached_runs(words);
    assert forall|g: int| 0 <= g < attached(words).len() implies 0 <= #[trigger] cuts[g] < cuts[g
        + 1] <= words.len() by {
        assert(is_attached_run(words, attached(words)[g], cuts[g], cuts[g + 1]));
    }
    assert forall|g: int| 0 <= g < attached(words).len() implies ({
        &&& (#[trigger] attached(words)[g]).start == words[cuts[g]].start
        &&& attached(words)[g].end == words[cuts[g + 1] - 1].end
        &&& attached(words)[g].text == laws::run_together(
            spoken_texts(words.subrange(cuts[g], cuts[g + 1])),
        )
    }) by {
        assert(is_attached_run(words, attached(words)[g], cuts[g], cuts[g + 1]));
    }
    assert forall|g: int, j: int|
        0 <= g < attached(words).len() && cuts[g] <= j < cuts[g + 1] && j > 0 implies (
    #[trigger] attached(words)[g]).text.len() >= 0 && ((j == cuts[g]) <==> exists|c: int|
        0 <= c < (#[trigger] words[j]).text.len() && text::alphanumeric(
            #[trigger] words[j].text[c],
        )) by {
        assert(is_attached_run(words, attached(words)[g], cuts[g], cuts[g + 1]));
        assert(punctuation_only(words[j].text) <==> j != cuts[g]);
    }
    cuts
}

/// Tokens are kept unless they are blank, in order, with their times and their
/// trimmed texts.
pub proof fn law_tokens_are_kept_unless_blank<T>(tokens: Seq<SegmentText<T>>) -> (from: Seq<int>)
    ensures
        from.len() == real_tokens(tokens).len(),
        forall|k: int|
            0 <= k < from.len() ==> {
                &&& 0 <= #[trigger] from[k] < tokens.len()
                &&& real_tokens(tokens)[k].start == tokens[from[k]].start
                &&& real_tokens(tokens)[k].end == tokens[from[k]].end
                &&& real_tokens(tokens)[k].text == text::trimmed(tokens[from[k]].text)
                &&& text::trimmed(tokens[from[k]].text).len() > 0
            },
        forall|k: int, l: int| 0 <= k < l < from.len() ==> #[trigger] from[k] < #[trigger] from[l],
        forall|i: int|
            0 <= i < tokens.len() && text::trimmed((#[trigger] tokens[i]).text).len() > 0
                ==> from.contains(i),
    decreases tokens.len(),
{
    if tokens.len() == 0 {
        seq![]
    } else {
        let init = tokens.drop_last();
        let m = init.len() as int;
        let before = law_tokens_are_kept_unless_blank(init);
        let from = if text::blank(tokens.last().text) {
            before
        } else {
            before.push(m)
        };
        assert forall|i: int|
            0 <= i < tokens.len() && text::trimmed((#[trigger] tokens[i]).text).len() > 0
            implies from.contains(i) by {
            if i < m {
                assert(init[i] == tokens[i]);
                let k = choose|k: int| 0 <= k < before.len() && before[k] == i;
                assert(from[k] == i);
            } else {
                assert(from[before.len() as int] == i);
            }
        }
        from
    }
}

/// A result has the trimmed text. Tokens are not reported as such; segments are
/// the tokens where segments are asked for; where words are asked for, words are
/// the tokens with their punctuation and segments the sentences made of them.
pub proof fn law_results_by_granularity<T>(full: Seq<char>, tokens: Seq<SegmentText<T>>)
    ensures
        ({
            let kept = real_tokens(tokens);
            let by_token = mapped_result(full, tokens, TimestampGranularity::Token);
            let by_segment = mapped_result(full, tokens, TimestampGranularity::Segment);
            let by_word = mapped_result(full, tokens, TimestampGranularity::Word);
            &&& by_token.text == text::trimmed(full) && by_segment.text == by_token.text
                && by_word.text == by_token.text
            &&& by_token.segments is None && by_token.words is None && by_segment.words is None
            &&& kept.len() == 0 ==> by_segment.segments is None && by_word.segments is None
                && by_word.words is None
            &&& kept.len() > 0 ==> by_segment.segments == Some(kept) && by_word.words == Some(
                attached(kept),
            ) && by_word.segments == Some(sentences(attached(kept)))
        }),
{
    let kept = real_tokens(tokens);
    let cuts = law_punctuation_joins_the_word_before(kept);
    let more = law_sentences_are_runs_of_words(attached(kept));
    if kept.len() > 0 {
        assert(attached(kept).len() > 0);
        assert(sentences(attached(kept)).len() > 0);
    } else {
        assert(attached(kept).len() == 0);
        assert(sentences(attached(kept)).len() == 0);
    }
}

/// The texts of segments are theirs, one for one.
pub proof fn law_texts_of_segments<T>(v: Seq<SegmentText<T>>, i: int)
    ensures
        spoken_texts(v).len() == v.len(),
        0 <= i < v.len() ==> spoken_texts(v)[i] == v[i].text,
{
}

} // verus!
