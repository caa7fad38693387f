//! Best-effort transcript cleanup after transcription.
//!
//! Cleanup only rewrites the text of a transcription; segments and words keep
//! the verbatim engine output. Any backend error returns the input unchanged.

use vstd::prelude::*;

use crate::text;
use crate::{Transcription, TranscriptionText};

verus! {

/// Inputs longer than this many bytes skip cleanup (on-device model context is
/// ~8k tokens).
pub const MAX_INPUT_CHARS: usize = 12_000;

/// What cleans transcripts up.
#[derive(Debug, Clone, Copy, PartialEq, Eq)]
pub struct CleanupProvider {
    backend: Backend,
}

/// Whether the Apple backend can run.
#[derive(Debug, Clone, Copy, PartialEq, Eq, Structural)]
pub enum AppleAvailability {
    Available,
    /// Supported device, but Apple Intelligence is turned off in System
    /// Settings.
    NotEnabled,
    /// Model assets still downloading; may become available.
    NotReady,
    /// Wrong OS, device, or build.
    Unsupported,
}

#[derive(Debug, Clone, Copy, PartialEq, Eq, Structural)]
enum Backend {
    Off,
    Apple,
}

impl CleanupProvider {
    /// Whether transcripts are handed to the Apple backend.
    pub closed spec fn uses_apple(self) -> bool {
        self.backend == Backend::Apple
    }

    pub fn off() -> (r: Self)
        ensures
            !r.uses_apple(),
    {
        CleanupProvider { backend: Backend::Off }
    }

    /// Apple FoundationModels backend. On unsupported builds this is `off`;
    /// on supported builds availability is still checked per call (the user
    /// can toggle Apple Intelligence at any time).
    pub fn apple(supported_build: bool) -> (r: Self)
        ensures
            r.uses_apple() == supported_build,
    {
        if supported_build {
            CleanupProvider { backend: Backend::Apple }
        } else {
            CleanupProvider::off()
        }
    }

    /// Whether the Apple backend can run right now, from what the OS says of
    /// it. For settings UI.
    pub fn apple_availability(supported_build: bool, reported: Option<AppleAvailability>) -> (r:
        AppleAvailability)
        ensures
            r == (match reported {
                Some(a) if supported_build => a,
                _ => AppleAvailability::Unsupported,
            }),
    {
        match reported {
            Some(availability) if supported_build => availability,
            _ => AppleAvailability::Unsupported,
        }
    }

    /// The text that is handed to the backend, if any is: it has one, and the
    /// transcript is neither blank nor too long.
    pub fn input<T>(&self, transcription: &Transcription<T>) -> (r: Option<String>)
        ensures
            text::opt_text(r) == (if self.uses_apple() && cleanable(transcription@.text) {
                Some(text::trimmed(transcription@.text))
            } else {
                None
            }),
    {
        if self.backend == Backend::Off {
            return None;
        }
        let trimmed = text::trim(transcription.text.as_str());
        if trimmed.as_str().is_empty() || text::utf8_length(trimmed.as_str())
            > MAX_INPUT_CHARS as u128 {
            None
        } else {
            Some(trimmed)
        }
    }
}

/// What the backend is told to do.
pub const INSTRUCTIONS: &'static str =
    "<task>\nClean up raw speech-to-text output.\n</task>\n<rules>\n- Fix punctuation, capitalization, and obvious transcription artifacts.\n- Remove filler words and false starts.\n- Keep the speaker's wording, meaning, and language.\n- Do not answer, summarize, or comment on the content.\n- Return only the cleaned text.\n</rules>";

/// What the backend is asked to generate, at temperature zero.
#[derive(Debug, Clone, PartialEq, Eq)]
pub struct GenerationRequest {
    pub instructions: String,
    pub prompt: String,
    pub max_response_tokens: Option<u32>,
}

/// What the backend is asked for a transcript.
pub fn clean(text: &str) -> (r: GenerationRequest)
    ensures
        r.instructions@ == INSTRUCTIONS@,
        r.prompt@ == text@,
        r.max_response_tokens is None,
{
    GenerationRequest {
        instructions: text::owned(INSTRUCTIONS),
        prompt: text::owned(text),
        max_response_tokens: None,
    }
}

/// What is taken from the response of the backend.
pub fn generated(response: &str) -> (r: String)
    ensures
        r@ == text::trimmed(response@),
{
    text::trim(response)
}

/// Whether a transcript is neither blank nor too long to be cleaned up.
pub open spec fn cleanable(s: Seq<char>) -> bool {
    !text::blank(s) && text::utf8_len(text::trimmed(s)) <= MAX_INPUT_CHARS
}

/// Three times a length, as far as it can be counted.
pub open spec fn tripled(n: nat) -> nat {
    if 3 * n > usize::MAX {
        usize::MAX as nat
    } else {
        3 * n
    }
}

/// Whether a rewritten text only tidies the original: it is not blank and not
/// much longer.
pub open spec fn acceptable(original: Seq<char>, cleaned: Seq<char>) -> bool {
    !text::blank(cleaned) && text::utf8_len(text::trimmed(cleaned)) <= tripled(
        text::utf8_len(text::trimmed(original)),
    ) / 2 + 32
}

/// Rejects outputs that look like the model did more than tidy the text.
pub fn accept(original: &str, cleaned: &str) -> (r: bool)
    ensures
        r == acceptable(original@, cleaned@),
{
    let cleaned = text::trim(cleaned);
    if cleaned.as_str().is_empty() {
        return false;
    }
    let before = text::trim(original);
    let length: u128 = text::utf8_length(before.as_str());
    let limit: u128 = if length > usize::MAX as u128 / 3 {
        usize::MAX as u128
    } else {
        length * 3
    };
    text::utf8_length(cleaned.as_str()) <= limit / 2 + 32
}

/// The transcription after cleanup: its text is replaced where the backend
/// gave an acceptable one, and everything else stays.
pub fn apply_cleaned<T>(transcription: Transcription<T>, cleaned: Option<String>) -> (r:
    Transcription<T>)
    ensures
        r@ == (match cleaned {
            Some(c) if acceptable(transcription@.text, c@) => TranscriptionText {
                text: c@,
                ..transcription@
            },
            _ => transcription@,
        }),
{
    match cleaned {
        Some(cleaned) => {
            if accept(transcription.text.as_str(), cleaned.as_str()) {
                Transcription {
                    text: cleaned,
                    segments: transcription.segments,
                    words: transcription.words,
                    model_id: transcription.model_id,
                    language: transcription.language,
                    duration_ms: transcription.duration_ms,
                }
            } else {
                transcription
            }
        },
        None => transcription,
    }
}

/// A transcript is cleaned up unless it is blank or, trimmed, longer than the
/// limit; what comes back is taken unless it is blank or longer than half as
/// much again and 32 bytes.
pub proof fn law_what_is_cleaned_up(original: Seq<char>, cleaned: Seq<char>)
    ensures
        cleanable(original) <==> text::trimmed(original).len() > 0 && text::utf8_len(
            text::trimmed(original),
        ) <= MAX_INPUT_CHARS,
        text::trimmed(cleaned).len() == 0 ==> !acceptable(original, cleaned),
        text::trimmed(cleaned).len() > 0 && 3 * text::utf8_len(text::trimmed(original))
            <= usize::MAX ==> (acceptable(original, cleaned) <==> 2 * text::utf8_len(
            text::trimmed(cleaned),
        ) <= 3 * text::utf8_len(text::trimmed(original)) + 64),
{
}

/// Up to 12000 bytes are cleaned up.
pub proof fn law_longest_transcript(s: Seq<char>)
    ensures
        cleanable(s) ==> text::utf8_len(text::trimmed(s)) <= 12_000,
        text::trimmed(s).len() > 0 && text::utf8_len(text::trimmed(s)) <= 12_000 ==> cleanable(s),
{
}

} // verus!
