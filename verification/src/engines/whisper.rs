//! Whisper engine: parameters, prompts, and words from tokens.

use vstd::prelude::*;

use crate::dictionary;
use crate::dictionary::build_dictionary_prompt;
use crate::text;
use crate::text::laws;
use crate::{ResultText, SegmentText, TranscriptionResult, TranscriptionSegment};

verus! {

/// The alignment heads of a model generation, for word times.
#[derive(Debug, Clone, Copy, PartialEq, Eq, Structural)]
pub enum DtwPreset {
    Tiny,
    TinyEn,
    Base,
    BaseEn,
    Small,
    SmallEn,
    Medium,
    MediumEn,
    LargeV1,
    LargeV2,
    LargeV3,
    LargeV3Turbo,
}

/// A model variant without its `whisper-` prefix.
pub open spec fn family_of(variant: Seq<char>) -> Seq<char> {
    if text::begins_with(variant, "whisper-"@) {
        variant.skip("whisper-"@.len() as int)
    } else {
        variant
    }
}

/// The preset of a model family.
pub open spec fn preset_of(family: Seq<char>) -> Option<DtwPreset> {
    if family == "tiny"@ {
        Some(DtwPreset::Tiny)
    } else if family == "tiny.en"@ {
        Some(DtwPreset::TinyEn)
    } else if family == "base"@ {
        Some(DtwPreset::Base)
    } else if family == "base.en"@ {
        Some(DtwPreset::BaseEn)
    } else if family == "small"@ {
        Some(DtwPreset::Small)
    } else if family == "small.en"@ {
        Some(DtwPreset::SmallEn)
    } else if family == "medium"@ {
        Some(DtwPreset::Medium)
    } else if family == "medium.en"@ {
        Some(DtwPreset::MediumEn)
    } else if family == "large-v1"@ {
        Some(DtwPreset::LargeV1)
    } else if family == "large-v2"@ {
        Some(DtwPreset::LargeV2)
    } else if family == "large-v3"@ {
        Some(DtwPreset::LargeV3)
    } else if family == "large-v3-turbo"@ {
        Some(DtwPreset::LargeV3Turbo)
    } else {
        None
    }
}

/// Maps a model variant (whisper family, with or without a "whisper-" prefix)
/// to the DTW alignment-heads preset for that model generation.
pub fn dtw_preset_for_variant(variant: &str) -> (r: Option<DtwPreset>)
    ensures
        r == preset_of(family_of(variant@)),
{
    let x = text::chars_of(variant);
    let prefix = text::chars_of("whisper-");
    let family = if text::starts_with(variant, "whisper-") {
        let rest = text::string_between(x.as_slice(), prefix.len(), x.len());
        assert(rest@ =~= variant@.skip("whisper-"@.len() as int));
        rest
    } else {
        text::owned(variant)
    };
    let f = family.as_str();
    if text::same(f, "tiny") {
        Some(DtwPreset::Tiny)
    } else if text::same(f, "tiny.en") {
        Some(DtwPreset::TinyEn)
    } else if text::same(f, "base") {
        Some(DtwPreset::Base)
    } else if text::same(f, "base.en") {
        Some(DtwPreset::BaseEn)
    } else if text::same(f, "small") {
        Some(DtwPreset::Small)
    } else if text::same(f, "small.en") {
        Some(DtwPreset::SmallEn)
    } else if text::same(f, "medium") {
        Some(DtwPreset::Medium)
    } else if text::same(f, "medium.en") {
        Some(DtwPreset::MediumEn)
    } else if text::same(f, "large-v1") {
        Some(DtwPreset::LargeV1)
    } else if text::same(f, "large-v2") {
        Some(DtwPreset::LargeV2)
    } else if text::same(f, "large-v3") {
        Some(DtwPreset::LargeV3)
    } else if text::same(f, "large-v3-turbo") {
        Some(DtwPreset::LargeV3Turbo)
    } else {
        None
    }
}

/// How a model is loaded.
#[derive(Debug, Clone, Copy, PartialEq, Eq)]
pub struct WhisperModelParams {
    pub use_gpu: bool,
    pub gpu_device: i32,
    pub dtw_preset: Option<DtwPreset>,
}

impl Default for WhisperModelParams {
    fn default() -> (r: Self)
        ensures
            r == (WhisperModelParams { use_gpu: true, gpu_device: 0, dtw_preset: None }),
    {
        WhisperModelParams { use_gpu: true, gpu_device: 0, dtw_preset: None }
    }
}

/// Whether a model is loaded with flash attention. whisper.cpp disables DTW
/// with it, and DTW gives accurate word times, so DTW is preferred.
pub fn flash_attention(params: &WhisperModelParams) -> (r: bool)
    ensures
        r == (params.dtw_preset is None),
{
    params.dtw_preset.is_none()
}

/// What is asked of the engine.
#[derive(Debug, Clone)]
pub struct WhisperInferenceParams<T> {
    pub language: Option<String>,
    pub translate: bool,
    pub print_special: bool,
    pub print_progress: bool,
    pub print_realtime: bool,
    pub print_timestamps: bool,
    pub suppress_blank: bool,
    /// Off: suppressing these makes whisper hallucinate phrases ("Thank you.")
    /// on silence instead of emitting a [BLANK_AUDIO] tag.
    pub suppress_non_speech_tokens: bool,
    /// The likelihood of silence from which a segment holds no speech. Without
    /// one, the usual 0.2 holds.
    pub no_speech_thold: Option<T>,
    pub dictionary: Vec<String>,
    pub initial_prompt: Option<String>,
    pub word_timestamps: bool,
}

impl<T> Default for WhisperInferenceParams<T> {
    fn default() -> (r: Self)
        ensures
            r.language is None,
            !r.translate,
            !r.print_special,
            !r.print_progress,
            !r.print_realtime,
            !r.print_timestamps,
            r.suppress_blank,
            !r.suppress_non_speech_tokens,
            r.no_speech_thold is None,
            r.dictionary@.len() == 0,
            r.initial_prompt is None,
            !r.word_timestamps,
    {
        WhisperInferenceParams {
            language: None,
            translate: false,
            print_special: false,
            print_progress: false,
            print_realtime: false,
            print_timestamps: false,
            suppress_blank: true,
            suppress_non_speech_tokens: false,
            no_speech_thold: None,
            dictionary: Vec::new(),
            initial_prompt: None,
            word_timestamps: false,
        }
    }
}

// ---------------------------------------------------------------------------
// Texts that are handed to the engine
// ---------------------------------------------------------------------------

/// A text for the engine: trimmed, nothing where it is blank, and an error
/// where it holds a null character. `auto` may stand for nothing.
pub open spec fn engine_text(
    value: Option<Seq<char>>,
    field: Seq<char>,
    treat_auto_as_none: bool,
) -> Result<Option<Seq<char>>, Seq<char>> {
    match value {
        None => Ok(None),
        Some(v) => {
            let t = text::trimmed(v);
            if t.len() == 0 {
                Ok(None)
            } else if treat_auto_as_none && text::ascii_lower(t) == text::ascii_lower("auto"@) {
                Ok(None)
            } else if t.contains('\0') {
                Err("whisper "@ + field + " contains a null byte"@)
            } else {
                Ok(Some(t))
            }
        },
    }
}

fn has_null(s: &str) -> (r: bool)
    ensures
        r == s@.contains('\0'),
{
    let x = text::chars_of(s);
    let mut i: usize = 0;
    while i < x.len()
        invariant
            x@ == s@,
            i <= x@.len(),
            forall|j: int| 0 <= j < i ==> x@[j] != '\0',
        decreases x@.len() - i,
    {
        if x[i] == '\0' {
            assert(s@[i as int] == '\0');
            return true;
        }
        i += 1;
    }
    false
}

/// A text for the engine.
pub fn normalize_optional_whisper_text(
    value: Option<&str>,
    field: &str,
    treat_auto_as_none: bool,
) -> (r: Result<Option<String>, String>)
    ensures
        match r {
            Ok(v) => engine_text(text::opt_str(value), field@, treat_auto_as_none) == Ok::<
                Option<Seq<char>>,
                Seq<char>,
            >(text::opt_text(v)),
            Err(e) => engine_text(text::opt_str(value), field@, treat_auto_as_none) == Err::<
                Option<Seq<char>>,
                Seq<char>,
            >(e@),
        },
{
    let value = match value {
        None => {
            return Ok(None);
        },
        Some(value) => value,
    };
    let trimmed = text::trim(value);
    if trimmed.as_str().is_empty() {
        return Ok(None);
    }
    if treat_auto_as_none && text::eq_ignore_ascii_case(trimmed.as_str(), "auto") {
        return Ok(None);
    }
    if has_null(trimmed.as_str()) {
        return Err(text::concat3("whisper ", field, " contains a null byte"));
    }
    Ok(Some(trimmed))
}

/// The language for the engine.
pub fn normalize_whisper_language(language: Option<&str>) -> (r: Result<Option<String>, String>)
    ensures
        match r {
            Ok(v) => engine_text(text::opt_str(language), "language"@, true) == Ok::<
                Option<Seq<char>>,
                Seq<char>,
            >(text::opt_text(v)),
            Err(e) => engine_text(text::opt_str(language), "language"@, true) == Err::<
                Option<Seq<char>>,
                Seq<char>,
            >(e@),
        },
{
    normalize_optional_whisper_text(language, "language", true)
}

/// The prompt of a request: its own, or one made of its dictionary.
pub open spec fn request_prompt<T>(params: WhisperInferenceParams<T>) -> Option<Seq<char>> {
    match params.initial_prompt {
        Some(p) => Some(p@),
        None => dictionary::dictionary_prompt(text::texts(params.dictionary@)),
    }
}

/// The prompt for the engine: that of the request, or one made of its
/// dictionary.
pub fn normalize_whisper_prompt<T>(params: &WhisperInferenceParams<T>) -> (r: Result<
    Option<String>,
    String,
>)
    ensures
        match r {
            Ok(v) => engine_text(request_prompt(*params), "initial prompt"@, false) == Ok::<
                Option<Seq<char>>,
                Seq<char>,
            >(text::opt_text(v)),
            Err(e) => engine_text(request_prompt(*params), "initial prompt"@, false) == Err::<
                Option<Seq<char>>,
                Seq<char>,
            >(e@),
        },
{
    let prompt = match &params.initial_prompt {
        Some(prompt) => Some(prompt.clone()),
        None => build_dictionary_prompt(params.dictionary.as_slice()),
    };
    normalize_optional_whisper_text(text::as_deref(&prompt), "initial prompt", false)
}

// ---------------------------------------------------------------------------
// Words
// ---------------------------------------------------------------------------

/// A token of a segment, with its times in hundredths of a second. `t_dtw` is
/// its aligned onset, or negative where there is none. A token that cannot be
/// read has no piece.
#[derive(Debug, Clone)]
pub struct WhisperToken {
    pub id: i32,
    pub piece: Option<String>,
    pub t_dtw: i64,
    pub t0: i64,
    pub t1: i64,
}

/// What a token says, and when.
#[verifier::ext_equal]
pub ghost struct TokenText {
    pub piece: Seq<char>,
    pub t_dtw: i64,
    pub t0: i64,
    pub t1: i64,
}

/// Whether a token is part of the text.
pub open spec fn text_token(token: WhisperToken, eot: i32) -> bool {
    token.id < eot && token.piece is Some && !text::blank(text::opt_text(token.piece)->0)
}

/// The tokens that are part of the text.
pub open spec fn text_tokens(tokens: Seq<WhisperToken>, eot: i32) -> Seq<TokenText>
    decreases tokens.len(),
{
    if tokens.len() == 0 {
        seq![]
    } else {
        let before = text_tokens(tokens.drop_last(), eot);
        let token = tokens.last();
        if text_token(token, eot) {
            before.push(
                TokenText {
                    piece: text::opt_text(token.piece)->0,
                    t_dtw: token.t_dtw,
                    t0: token.t0,
                    t1: token.t1,
                },
            )
        } else {
            before
        }
    }
}

/// Whether every token has an aligned onset.
pub open spec fn aligned(tokens: Seq<TokenText>) -> bool {
    forall|i: int| 0 <= i < tokens.len() ==> (#[trigger] tokens[i]).t_dtw >= 0
}

/// The later of two times.
pub open spec fn later(a: i64, b: i64) -> i64 {
    if a > b {
        a
    } else {
        b
    }
}

/// When a token starts and ends. With alignment a token ends where the next
/// one begins; without it the times of the heuristic are taken.
pub open spec fn token_times(tokens: Seq<TokenText>, i: int) -> (i64, i64) {
    let token = tokens[i];
    if aligned(tokens) {
        let end = if i + 1 < tokens.len() {
            tokens[i + 1].t_dtw
        } else {
            later(token.t1, token.t_dtw)
        };
        (token.t_dtw, later(end, token.t_dtw))
    } else {
        (token.t0, later(token.t1, token.t0))
    }
}

/// Whether a piece starts a word.
pub open spec fn starts_word(piece: Seq<char>) -> bool {
    piece.len() > 0 && (piece[0] == ' ' || piece[0] == '\n')
}

/// The words after the first `k` tokens of a segment. A piece that starts no
/// word extends the last one, even one of an earlier segment.
pub open spec fn words_after(words: Seq<SegmentText<i64>>, tokens: Seq<TokenText>, k: nat) -> Seq<
    SegmentText<i64>,
>
    decreases k,
{
    if k == 0 {
        words
    } else {
        let before = words_after(words, tokens, (k - 1) as nat);
        let piece = tokens[k - 1].piece;
        let (start, end) = token_times(tokens, k - 1);
        if before.len() > 0 && !starts_word(piece) {
            before.drop_last().push(
                SegmentText { end, text: before.last().text + piece, ..before.last() },
            )
        } else {
            before.push(SegmentText { start, end, text: text::trim_start(piece) })
        }
    }
}

/// A token that is part of the text.
struct TextToken {
    piece: String,
    t_dtw: i64,
    t0: i64,
    t1: i64,
}

impl TextToken {
    spec fn text(self) -> TokenText {
        TokenText { piece: self.piece@, t_dtw: self.t_dtw, t0: self.t0, t1: self.t1 }
    }
}

spec fn token_texts(v: Seq<TextToken>) -> Seq<TokenText> {
    Seq::new(v.len(), |i: int| v[i].text())
}

fn keep_text_tokens(tokens: &[WhisperToken], eot: i32) -> (r: Vec<TextToken>)
    ensures
        token_texts(r@) == text_tokens(tokens@, eot),
{
    let mut out: Vec<TextToken> = Vec::new();
    let mut i: usize = 0;
    assert(token_texts(out@) =~= Seq::<TokenText>::empty());
    while i < tokens.len()
        invariant
            i <= tokens@.len(),
            token_texts(out@) == text_tokens(tokens@.take(i as int), eot),
        decreases tokens@.len() - i,
    {
        let ghost before = token_texts(out@);
        proof {
            assert(tokens@.take(i + 1).drop_last() =~= tokens@.take(i as int));
            assert(tokens@.take(i + 1).last() == tokens@[i as int]);
        }
        if tokens[i].id < eot {
            if let Some(piece) = &tokens[i].piece {
                if !text::is_blank(piece.as_str()) {
                    let token = TextToken {
                        piece: piece.clone(),
                        t_dtw: tokens[i].t_dtw,
                        t0: tokens[i].t0,
                        t1: tokens[i].t1,
                    };
                    out.push(token);
                    assert(token_texts(out@) =~= before.push(token.text()));
                }
            }
        }
        i += 1;
    }
    assert(tokens@.take(i as int) =~= tokens@);
    out
}

fn later_of(a: i64, b: i64) -> (r: i64)
    ensures
        r == later(a, b),
{
    if a > b {
        a
    } else {
        b
    }
}

fn all_aligned(tokens: &[TextToken]) -> (r: bool)
    ensures
        r == aligned(token_texts(tokens@)),
{
    let ghost all = token_texts(tokens@);
    let mut i: usize = 0;
    while i < tokens.len()
        invariant
            all == token_texts(tokens@),
            i <= tokens@.len(),
            forall|j: int| 0 <= j < i ==> (#[trigger] all[j]).t_dtw >= 0,
        decreases tokens@.len() - i,
    {
        assert(all[i as int] == tokens@[i as int].text());
        if tokens[i].t_dtw < 0 {
            assert(all[i as int].t_dtw < 0);
            return false;
        }
        i += 1;
    }
    true
}

/// Adds the words of a segment, with times in hundredths of a second. Special
/// and blank tokens are left out.
pub fn append_segment_words(
    tokens: &[WhisperToken],
    eot_token: i32,
    words: &mut Vec<TranscriptionSegment<i64>>,
)
    ensures
        crate::segment_texts(final(words)@) == words_after(
            crate::segment_texts(old(words)@),
            text_tokens(tokens@, eot_token),
            text_tokens(tokens@, eot_token).len(),
        ),
{
    let kept = keep_text_tokens(tokens, eot_token);
    let ghost all = token_texts(kept@);
    let ghost first = crate::segment_texts(words@);
    let use_dtw = all_aligned(kept.as_slice());
    let mut i: usize = 0;
    while i < kept.len()
        invariant
            all == token_texts(kept@),
            use_dtw == aligned(all),
            i <= kept@.len(),
            crate::segment_texts(words@) == words_after(first, all, i as nat),
        decreases kept@.len() - i,
    {
        let ghost before = crate::segment_texts(words@);
        proof {
            assert(all[i as int] == kept@[i as int].text());
            if i + 1 < kept@.len() {
                assert(all[i + 1] == kept@[i + 1].text());
            }
        }
        let (start, end) = if use_dtw {
            let end: i64 = if i + 1 < kept.len() {
                kept[i + 1].t_dtw
            } else {
                later_of(kept[i].t1, kept[i].t_dtw)
            };
            (kept[i].t_dtw, later_of(end, kept[i].t_dtw))
        } else {
            (kept[i].t0, later_of(kept[i].t1, kept[i].t0))
        };
        let x = text::chars_of(kept[i].piece.as_str());
        let new_word = x.len() > 0 && (x[0] == ' ' || x[0] == '\n');
        let n: usize = words.len();
        if n > 0 && !new_word {
            assert(before.last() == words@[n - 1]@);
            let extended = TranscriptionSegment {
                start: words[n - 1].start,
                end,
                text: text::concat2(words[n - 1].text.as_str(), kept[i].piece.as_str()),
            };
            let _ = words.pop();
            words.push(extended);
            assert(crate::segment_texts(words@) =~= before.drop_last().push(extended@));
        } else {
            let word = TranscriptionSegment {
                start,
                end,
                text: text::trim_start_of(kept[i].piece.as_str()),
            };
            words.push(word);
            assert(crate::segment_texts(words@) =~= before.push(word@));
        }
        i += 1;
    }
}

/// The pieces of tokens.
pub open spec fn pieces_of(tokens: Seq<TokenText>) -> Seq<Seq<char>> {
    Seq::new(tokens.len(), |i: int| tokens[i].piece)
}

/// Whether a word is made of the tokens from one place to another.
spec fn is_word_run(tokens: Seq<TokenText>, s: SegmentText<i64>, from: int, to: int) -> bool {
    &&& 0 <= from < to <= tokens.len()
    &&& s.start == token_times(tokens, from).0
    &&& s.end == token_times(tokens, to - 1).1
    &&& s.text == text::trim_start(tokens[from].piece) + laws::run_together(
        pieces_of(tokens.subrange(from + 1, to)),
    )
}

/// What becomes of the last word before the tokens: the first of them may go
/// on with it.
spec fn is_continued(
    tokens: Seq<TokenText>,
    was: SegmentText<i64>,
    s: SegmentText<i64>,
    to: int,
) -> bool {
    &&& 0 <= to <= tokens.len()
    &&& s.start == was.start
    &&& s.end == (if to > 0 {
        token_times(tokens, to - 1).1
    } else {
        was.end
    })
    &&& s.text == was.text + laws::run_together(pieces_of(tokens.subrange(0, to)))
}

proof fn lemma_word_runs(words: Seq<SegmentText<i64>>, tokens: Seq<TokenText>, k: nat) -> (cuts:
    Seq<int>)
    requires
        k <= tokens.len(),
    ensures
        cuts.len() >= 1,
        cuts.last() == k,
        words_after(words, tokens, k).len() == words.len() + cuts.len() - 1,
        forall|g: int|
            0 <= g < cuts.len() - 1 ==> is_word_run(
                tokens,
                #[trigger] words_after(words, tokens, k)[words.len() + g],
                cuts[g],
                cuts[g + 1],
            ),
        words.len() > 0 ==> is_continued(
            tokens,
            words.last(),
            words_after(words, tokens, k)[words.len() - 1],
            cuts[0],
        ),
        words.len() == 0 ==> cuts[0] == 0,
        forall|i: int|
            0 <= i < words.len() - 1 ==> #[trigger] words_after(words, tokens, k)[i] == words[i],
        forall|j: int|
            #![trigger cuts.drop_last().contains(j)]
            0 <= j < k ==> (cuts.drop_last().contains(j) <==> starts_word(tokens[j].piece) || (j
                == 0 && words.len() == 0)),
        0 <= cuts[0] <= k,
    decreases k,
{
    if k == 0 {
        let cuts = seq![0int];
        if words.len() > 0 {
            let none = pieces_of(tokens.subrange(0, 0));
            assert(laws::run_together(none) =~= Seq::<char>::empty());
            assert(words.last().text + Seq::<char>::empty() =~= words.last().text);
        }
        cuts
    } else {
        let p = (k - 1) as nat;
        let before = lemma_word_runs(words, tokens, p);
        let was = words_after(words, tokens, p);
        let now = words_after(words, tokens, k);
        let n = before.len() - 1;
        let w = words.len() as int;
        let piece = tokens[p as int].piece;
        if was.len() > 0 && !starts_word(piece) {
            let cuts = before.drop_last().push(k as int);
            assert(cuts.drop_last() =~= before.drop_last());
            if n > 0 {
                let a = before[n - 1];
                assert(is_word_run(tokens, was[w + (n - 1)], a, before[n]));
                let longer = pieces_of(tokens.subrange(a + 1, k as int));
                assert(longer.drop_last() =~= pieces_of(tokens.subrange(a + 1, p as int)));
                assert(longer.last() == piece);
                assert(now[w + (n - 1)].text =~= text::trim_start(tokens[a].piece)
                    + laws::run_together(longer));
                assert(is_word_run(tokens, now[w + (n - 1)], a, k as int));
            } else {
                let longer = pieces_of(tokens.subrange(0, k as int));
                assert(longer.drop_last() =~= pieces_of(tokens.subrange(0, p as int)));
                assert(longer.last() == piece);
                assert(now[w - 1].text =~= words.last().text + laws::run_together(longer));
            }
            assert forall|g: int| 0 <= g < cuts.len() - 1 implies is_word_run(
                tokens,
                #[trigger] now[w + g],
                cuts[g],
                cuts[g + 1],
            ) by {
                if g < n - 1 {
                    assert(now[w + g] == was[w + g]);
                    assert(is_word_run(tokens, was[w + g], before[g], before[g + 1]));
                }
            }
            assert forall|j: int|
                #![trigger cuts.drop_last().contains(j)]
                0 <= j < k implies (cuts.drop_last().contains(j) <==> starts_word(tokens[j].piece)
                || (j == 0 && words.len() == 0)) by {
                if j == p {
                    if before.drop_last().contains(j) {
                        let g = choose|g: int|
                            0 <= g < before.drop_last().len() && before.drop_last()[g] == j;
                        assert(is_word_run(tokens, was[w + g], before[g], before[g + 1]));
                        lemma_cuts_rise(before, tokens, was, w, g);
                    }
                    if p == 0 && words.len() == 0 {
                        assert(was =~= words);
                    }
                }
            }
            cuts
        } else {
            let cuts = before.push(k as int);
            assert(cuts.drop_last() =~= before);
            assert(tokens.subrange(p as int + 1, k as int) =~= Seq::<TokenText>::empty());
            let none = pieces_of(tokens.subrange(p as int + 1, k as int));
            assert(laws::run_together(none) =~= Seq::<char>::empty());
            assert(text::trim_start(piece) + Seq::<char>::empty() =~= text::trim_start(piece));
            assert(is_word_run(tokens, now[w + n], p as int, k as int));
            assert forall|g: int| 0 <= g < cuts.len() - 1 implies is_word_run(
                tokens,
                #[trigger] now[w + g],
                cuts[g],
                cuts[g + 1],
            ) by {
                if g < n {
                    assert(now[w + g] == was[w + g]);
                    assert(is_word_run(tokens, was[w + g], before[g], before[g + 1]));
                }
            }
            assert forall|j: int|
                #![trigger cuts.drop_last().contains(j)]
                0 <= j < k implies (cuts.drop_last().contains(j) <==> starts_word(tokens[j].piece)
                || (j == 0 && words.len() == 0)) by {
                if j == p {
                    assert(before[n] == j);
                    if !starts_word(piece) && words.len() == 0 && p > 0 {
                        assert(n == 0);
                        assert(before[0] == 0);
                    }
                } else {
                    if before.contains(j) {
                        let g = choose|g: int| 0 <= g < before.len() && before[g] == j;
                        assert(before.drop_last()[g] == j);
                    }
                    if before.drop_last().contains(j) {
                        let g = choose|g: int|
                            0 <= g < before.drop_last().len() && before.drop_last()[g] == j;
                        assert(before[g] == j);
                    }
                }
            }
            cuts
        }
    }
}

/// Each cut lies before the end.
proof fn lemma_cuts_rise(
    cuts: Seq<int>,
    tokens: Seq<TokenText>,
    list: Seq<SegmentText<i64>>,
    w: int,
    g: int,
)
    requires
        0 <= g < cuts.len() - 1,
        forall|h: int|
            0 <= h < cuts.len() - 1 ==> is_word_run(
                tokens,
                #[trigger] list[w + h],
                cuts[h],
                cuts[h + 1],
            ),
    ensures
        cuts[g] < cuts.last(),
    decreases cuts.len() - g,
{
    assert(is_word_run(tokens, list[w + g], cuts[g], cuts[g + 1]));
    if g + 1 < cuts.len() - 1 {
        lemma_cuts_rise(cuts, tokens, list, w, g + 1);
    }
}

/// Tokens are part of the text where they stand before the end of the text,
/// can be read and are not blank; they keep their order, their pieces and their
/// times.
pub proof fn law_text_tokens_are_kept(tokens: Seq<WhisperToken>, eot: i32) -> (kept: Seq<int>)
    ensures
        kept.len() == text_tokens(tokens, eot).len(),
        forall|k: int|
            0 <= k < kept.len() ==> {
                &&& 0 <= #[trigger] kept[k] < tokens.len()
                &&& tokens[kept[k]].id < eot
                &&& tokens[kept[k]].piece is Some
                &&& text::trimmed(tokens[kept[k]].piece->0@).len() > 0
                &&& text_tokens(tokens, eot)[k].piece == tokens[kept[k]].piece->0@
                &&& text_tokens(tokens, eot)[k].t_dtw == tokens[kept[k]].t_dtw
                &&& text_tokens(tokens, eot)[k].t0 == tokens[kept[k]].t0
                &&& text_tokens(tokens, eot)[k].t1 == tokens[kept[k]].t1
            },
        forall|k: int, l: int| 0 <= k < l < kept.len() ==> #[trigger] kept[k] < #[trigger] kept[l],
        forall|i: int|
            0 <= i < tokens.len() && (#[trigger] tokens[i]).id < eot && tokens[i].piece is Some
                && text::trimmed(tokens[i].piece->0@).len() > 0 ==> kept.contains(i),
    decreases tokens.len(),
{
    if tokens.len() == 0 {
        seq![]
    } else {
        let init = tokens.drop_last();
        let m = init.len() as int;
        let before = law_text_tokens_are_kept(init, eot);
        let kept = if text_token(tokens.last(), eot) {
            before.push(m)
        } else {
            before
        };
        assert forall|i: int|
            0 <= i < tokens.len() && (#[trigger] tokens[i]).id < eot && tokens[i].piece is Some
                && text::trimmed(tokens[i].piece->0@).len() > 0 implies kept.contains(i) by {
            if i < m {
                assert(init[i] == tokens[i]);
                let k = choose|k: int| 0 <= k < before.len() && before[k] == i;
                assert(kept[k] == i);
            } else {
                assert(kept[before.len() as int] == i);
            }
        }
        kept
    }
}

/// The words that a segment adds are runs of its text tokens, one after the
/// other. A token that begins with a space or a line break starts a word, and
/// so does the first of all. A word starts when its first token starts: at its
/// aligned onset where all tokens have one, and otherwise at `t0`. It ends with
/// its last token: at the onset of the token after it or, after the last of all
/// and without alignment, at `t1`, but never before that token starts. Tokens
/// before the first such word go on with the last word there was.
pub proof fn law_words_are_runs_of_tokens(
    words: Seq<SegmentText<i64>>,
    tokens: Seq<TokenText>,
) -> (cuts: Seq<int>)
    ensures
        ({
            let all = words_after(words, tokens, tokens.len());
            let w = words.len() as int;
            let with_onsets = forall|i: int|
                0 <= i < tokens.len() ==> (#[trigger] tokens[i]).t_dtw >= 0;
            let start = |i: int|
                if with_onsets {
                    tokens[i].t_dtw as int
                } else {
                    tokens[i].t0 as int
                };
            let end = |i: int|
                if with_onsets && i + 1 < tokens.len() {
                    tokens[i + 1].t_dtw as int
                } else {
                    tokens[i].t1 as int
                };
            &&& cuts.len() >= 1
            &&& cuts.last() == tokens.len()
            &&& all.len() == w + cuts.len() - 1
            &&& forall|g: int|
                0 <= g < cuts.len() - 1 ==> 0 <= #[trigger] cuts[g] < cuts[g + 1] <= tokens.len()
            &&& forall|j: int|
                #![trigger cuts.drop_last().contains(j)]
                0 <= j < tokens.len() ==> (cuts.drop_last().contains(j) <==> (
                tokens[j].piece.len() > 0 && (tokens[j].piece[0] == ' ' || tokens[j].piece[0]
                    == '\n')) || (j == 0 && w == 0))
            &&& forall|g: int|
                0 <= g < cuts.len() - 1 ==> (#[trigger] all[w + g]).start as int == start(cuts[g])
            &&& forall|g: int|
                0 <= g < cuts.len() - 1 ==> (#[trigger] all[w + g]).end as int == if end(
                    cuts[g + 1] - 1,
                ) > start(cuts[g + 1] - 1) {
                    end(cuts[g + 1] - 1)
                } else {
                    start(cuts[g + 1] - 1)
                }
            &&& forall|g: int|
                0 <= g < cuts.len() - 1 ==> (#[trigger] all[w + g]).text == text::trim_start(
                    tokens[cuts[g]].piece,
                ) + laws::run_together(pieces_of(tokens.subrange(cuts[g] + 1, cuts[g + 1])))
            &&& forall|i: int| 0 <= i < w - 1 ==> #[trigger] all[i] == words[i]
            &&& w > 0 ==> all[w - 1].start == words.last().start && all[w - 1].text
                == words.last().text + laws::run_together(pieces_of(tokens.subrange(0, cuts[0])))
            &&& w > 0 && cuts[0] == 0 ==> all[w - 1] == words.last()
        }),
{
    let n = tokens.len();
    let cuts = lemma_word_runs(words, tokens, n);
    let all = words_after(words, tokens, n);
    let w = words.len() as int;
    assert forall|g: int| 0 <= g < cuts.len() - 1 implies 0 <= #[trigger] cuts[g] < cuts[g + 1]
        <= tokens.len() by {
        assert(is_word_run(tokens, all[w + g], cuts[g], cuts[g + 1]));
    }
    if w > 0 && cuts[0] == 0 {
        let none = pieces_of(tokens.subrange(0, 0));
        assert(laws::run_together(none) =~= Seq::<char>::empty());
        assert(all[w - 1].text =~= words.last().text);
    }
    cuts
}

/// No token ends before it starts.
pub proof fn law_token_times_are_ordered(tokens: Seq<TokenText>, i: int)
    requires
        0 <= i < tokens.len(),
    ensures
        token_times(tokens, i).0 <= token_times(tokens, i).1,
{
}

// ---------------------------------------------------------------------------
// Results
// ---------------------------------------------------------------------------

/// The texts of segments in a row.
pub open spec fn full_text<T>(segments: Seq<SegmentText<T>>) -> Seq<char>
    decreases segments.len(),
{
    if segments.len() == 0 {
        seq![]
    } else {
        full_text(segments.drop_last()) + segments.last().text
    }
}

/// The transcription made of segments. Words are reported where there are any.
pub fn whisper_result<T>(
    segments: Vec<TranscriptionSegment<T>>,
    words: Option<Vec<TranscriptionSegment<T>>>,
    language: Option<String>,
) -> (r: TranscriptionResult<T>)
    ensures
        r@ == (ResultText {
            text: text::trimmed(full_text(crate::segment_texts(segments@))),
            segments: Some(crate::segment_texts(segments@)),
            words: match words {
                Some(w) if w@.len() > 0 => Some(crate::segment_texts(w@)),
                _ => None,
            },
            language: text::opt_text(language),
        }),
{
    let ghost all = crate::segment_texts(segments@);
    let mut joined = String::new();
    let mut i: usize = 0;
    while i < segments.len()
        invariant
            all == crate::segment_texts(segments@),
            i <= segments@.len(),
            joined@ == full_text(all.take(i as int)),
        decreases segments@.len() - i,
    {
        proof {
            assert(all.take(i + 1).drop_last() =~= all.take(i as int));
            assert(all.take(i + 1).last() == segments@[i as int]@);
        }
        joined.append(segments[i].text.as_str());
        i += 1;
    }
    assert(all.take(i as int) =~= all);
    let words = match words {
        Some(words) => {
            if words.len() > 0 {
                Some(words)
            } else {
                None
            }
        },
        None => None,
    };
    TranscriptionResult {
        text: text::trim(joined.as_str()),
        segments: Some(segments),
        words,
        language,
    }
}

/// The text of a result is that of its segments in a row, trimmed: the text of
/// one segment is its own, and two lists give both texts without anything
/// between them.
pub proof fn law_texts_in_a_row<T>(
    a: Seq<SegmentText<T>>,
    b: Seq<SegmentText<T>>,
    one: SegmentText<T>,
)
    ensures
        full_text(seq![one]) == one.text,
        full_text(a + b) == full_text(a) + full_text(b),
    decreases b.len(),
{
    assert(seq![one].drop_last() =~= Seq::<SegmentText<T>>::empty());
    assert(full_text(Seq::<SegmentText<T>>::empty()) == Seq::<char>::empty());
    assert(full_text(seq![one]) =~= one.text);
    if b.len() == 0 {
        assert(a + b =~= a);
        assert(full_text(a) + full_text(b) =~= full_text(a));
    } else {
        assert((a + b).drop_last() =~= a + b.drop_last());
        law_texts_in_a_row(a, b.drop_last(), one);
        assert(full_text(a) + full_text(b.drop_last()) + b.last().text =~= full_text(a) + (
        full_text(b.drop_last()) + b.last().text));
    }
}

/// A text is handed to the engine trimmed. A blank one is not handed over, nor
/// is `auto`, in any letter case, where that stands for nothing; one with a null
/// character is refused.
pub proof fn law_texts_for_the_engine(value: Seq<char>, field: Seq<char>, auto_is_none: bool)
    ensures
        engine_text(None, field, auto_is_none) == Ok::<Option<Seq<char>>, Seq<char>>(None),
        ({
            let t = text::trimmed(value);
            let nothing = t.len() == 0 || (auto_is_none && text::ascii_lower(t) == "auto"@);
            &&& nothing ==> engine_text(Some(value), field, auto_is_none) == Ok::<
                Option<Seq<char>>,
                Seq<char>,
            >(None)
            &&& !nothing && t.contains('\0') ==> engine_text(Some(value), field, auto_is_none)
                == Err::<Option<Seq<char>>, Seq<char>>(
                "whisper "@ + field + " contains a null byte"@,
            )
            &&& !nothing && !t.contains('\0') ==> engine_text(Some(value), field, auto_is_none)
                == Ok::<Option<Seq<char>>, Seq<char>>(Some(t))
        }),
{
    reveal_strlit("auto");
    assert(text::ascii_lower("auto"@) =~= "auto"@);
}

/// The prefix `whisper-` does not change the preset of a variant.
pub proof fn law_prefixes_do_not_count(family: Seq<char>)
    ensures
        family_of("whisper-"@ + family) == family,
        !text::begins_with(family, "whisper-"@) ==> family_of(family) == family,
{
    let whole = "whisper-"@ + family;
    let n = "whisper-"@.len() as int;
    assert(whole.subrange(0, n) =~= "whisper-"@);
    assert(whole.skip(n) =~= family);
}

/// Presets are those of the generations of Whisper, by their names, and others
/// have none.
pub proof fn law_presets_by_name(family: Seq<char>)
    ensures
        preset_of(family) == Some(DtwPreset::Tiny) ==> family == "tiny"@,
        preset_of(family) == Some(DtwPreset::TinyEn) ==> family == "tiny.en"@,
        preset_of(family) == Some(DtwPreset::Base) ==> family == "base"@,
        preset_of(family) == Some(DtwPreset::BaseEn) ==> family == "base.en"@,
        preset_of(family) == Some(DtwPreset::Small) ==> family == "small"@,
        preset_of(family) == Some(DtwPreset::SmallEn) ==> family == "small.en"@,
        preset_of(family) == Some(DtwPreset::Medium) ==> family == "medium"@,
        preset_of(family) == Some(DtwPreset::MediumEn) ==> family == "medium.en"@,
        preset_of(family) == Some(DtwPreset::LargeV1) ==> family == "large-v1"@,
        preset_of(family) == Some(DtwPreset::LargeV2) ==> family == "large-v2"@,
        preset_of(family) == Some(DtwPreset::LargeV3) ==> family == "large-v3"@,
        preset_of(family) == Some(DtwPreset::LargeV3Turbo) ==> family == "large-v3-turbo"@,
        preset_of(family) is None <==> family != "tiny"@ && family != "tiny.en"@ && family
            != "base"@ && family != "base.en"@ && family != "small"@ && family != "small.en"@
            && family != "medium"@ && family != "medium.en"@ && family != "large-v1"@ && family
            != "large-v2"@ && family != "large-v3"@ && family != "large-v3-turbo"@,
{
}

/// The prompt of a request is its own, or else the terms of its dictionary.
pub proof fn law_prompts_of_requests<T>(params: WhisperInferenceParams<T>)
    ensures
        params.initial_prompt is Some ==> request_prompt(params) == Some(
            params.initial_prompt->0@,
        ),
        params.initial_prompt is None ==> request_prompt(params) == dictionary::dictionary_prompt(
            text::texts(params.dictionary@),
        ),
{
}

/// The pieces of tokens are theirs, one for one.
pub proof fn law_pieces_of_tokens(tokens: Seq<TokenText>, i: int)
    ensures
        pieces_of(tokens).len() == tokens.len(),
        0 <= i < tokens.len() ==> pieces_of(tokens)[i] == tokens[i].piece,
{
}

} // verus!
