//! Apple speech engine: sessions and results.
//!
//! Models are built into the OS; there is nothing to download or load from
//! disk. A session of the OS is known by its handle.

use vstd::prelude::*;

use crate::models;
use crate::text;
use crate::{ResultText, TranscriptionResult, TranscriptionSegment};

verus! {

/// What is asked of the engine.
#[derive(Debug, Clone, Default)]
pub struct AppleInferenceParams {
    pub language: Option<String>,
    /// Use the long-form transcriber (finer segments, no dictation extras).
    pub long_form: bool,
    pub dictionary: Vec<String>,
}

/// A character within a JSON string.
pub open spec fn json_char(c: char) -> Seq<char> {
    let v = c as u32;
    if c == '"' || c == '\\' {
        seq!['\\', c]
    } else if v == 0x08 {
        "\\b"@
    } else if v == 0x09 {
        "\\t"@
    } else if v == 0x0a {
        "\\n"@
    } else if v == 0x0c {
        "\\f"@
    } else if v == 0x0d {
        "\\r"@
    } else if v < 0x20 {
        "\\u00"@ + seq![models::hex_digit(v as int / 16), models::hex_digit(v as int % 16)]
    } else {
        seq![c]
    }
}

/// The characters of a text within a JSON string.
pub open spec fn json_chars(s: Seq<char>) -> Seq<char>
    decreases s.len(),
{
    if s.len() == 0 {
        seq![]
    } else {
        json_chars(s.drop_last()) + json_char(s.last())
    }
}

/// A list of texts as a JSON array of strings, without white space.
pub open spec fn json_of_texts(terms: Seq<Seq<char>>) -> Seq<char> {
    let quoted = terms.map_values(|s: Seq<char>| "\""@ + json_chars(s) + "\""@);
    "["@ + text::joined(quoted, ","@) + "]"@
}

/// `serde_json::to_string` on a list of strings, which does not fail: a JSON
/// array of the strings, in which quotes, backslashes and control characters
/// are escaped and everything else stands as it is.
#[verifier::external_body]
fn texts_to_json(terms: &[String]) -> (r: String)
    ensures
        r@ == json_of_texts(text::texts(terms@)),
{
    serde_json::to_string(terms).unwrap_or_default()
}

/// The texts that `serde_json` reads from a JSON array of strings, if the text
/// is one.
pub uninterp spec fn texts_of_json(raw: Seq<char>) -> Option<Seq<Seq<char>>>;

/// `serde_json::from_str` into a list of strings: the strings of a JSON array,
/// or nothing where the text is none. They depend on the text alone.
#[verifier::external_body]
fn json_to_texts(raw: &str) -> (r: Option<Vec<String>>)
    ensures
        match r {
            Some(v) => texts_of_json(raw@) == Some(text::texts(v@)),
            None => texts_of_json(raw@) is None,
        },
{
    serde_json::from_str(raw).ok()
}

/// The vocabulary that is handed to a session; nothing where there is none.
pub fn vocabulary_json(terms: &[String]) -> (r: String)
    ensures
        r@ == (if terms@.len() == 0 {
            ""@
        } else {
            json_of_texts(text::texts(terms@))
        }),
{
    if terms.len() == 0 {
        return text::owned("");
    }
    texts_to_json(terms)
}

/// The locales that the OS lists, none where it lists nothing that can be
/// read.
pub fn supported_locales(raw: Option<&str>) -> (r: Vec<String>)
    ensures
        text::texts(r@) == ({
            let listed = texts_of_json(
                match raw {
                    Some(s) => s@,
                    None => ""@,
                },
            );
            match listed {
                Some(v) => v,
                None => Seq::<Seq<char>>::empty(),
            }
        }),
{
    let raw = match raw {
        Some(s) => s,
        None => "",
    };
    match json_to_texts(raw) {
        Some(v) => v,
        None => {
            let none: Vec<String> = Vec::new();
            assert(text::texts(none@) =~= Seq::<Seq<char>>::empty());
            none
        },
    }
}

/// The state of the engine: the session that is streamed to, and what the next
/// one is started with.
#[derive(Debug, Default)]
pub struct AppleEngine {
    pub stream: Option<i64>,
    pub stream_language: Option<String>,
    pub stream_dictionary: Vec<String>,
}

impl AppleEngine {
    pub fn new() -> (r: Self)
        ensures
            r.stream is None,
            r.stream_language is None,
            r.stream_dictionary@.len() == 0,
    {
        AppleEngine { stream: None, stream_language: None, stream_dictionary: Vec::new() }
    }

    /// Sets language and vocabulary for the next streaming session.
    pub fn configure_stream(&mut self, language: Option<String>, dictionary: Vec<String>)
        ensures
            final(self).stream == old(self).stream,
            final(self).stream_language == language,
            final(self).stream_dictionary == dictionary,
    {
        self.stream_language = language;
        self.stream_dictionary = dictionary;
    }

    /// Takes the handle of a session that was started. The OS gives none where
    /// it fails to start one.
    pub fn session_started(&mut self, handle: i64) -> (r: Result<i64, String>)
        ensures
            match r {
                Ok(h) => h == handle && handle != 0 && final(self).stream == Some(handle),
                Err(e) => handle == 0 && e@ == "failed to start apple speech session"@
                    && final(self).stream == old(self).stream,
            },
            final(self).stream_language == old(self).stream_language,
            final(self).stream_dictionary == old(self).stream_dictionary,
    {
        if handle == 0 {
            return Err(text::owned("failed to start apple speech session"));
        }
        self.stream = Some(handle);
        Ok(handle)
    }

    /// Ends the streamed session without a result, and hands out the handle
    /// of the session that is to be cancelled.
    pub fn reset(&mut self) -> (r: Option<i64>)
        ensures
            r == old(self).stream,
            final(self).stream is None,
            final(self).stream_language == old(self).stream_language,
            final(self).stream_dictionary == old(self).stream_dictionary,
    {
        let handle = self.stream;
        self.stream = None;
        handle
    }

    /// The transcript so far, from what the OS says of the session.
    pub fn get_transcript(&self, so_far: Option<&str>) -> (r: String)
        ensures
            r@ == (match (self.stream, so_far) {
                (Some(_), Some(t)) => t@,
                _ => ""@,
            }),
    {
        match (self.stream, so_far) {
            (Some(_), Some(t)) => text::owned(t),
            _ => text::owned(""),
        }
    }

    /// Ends the stream and returns the fully finalized transcript, from what
    /// the session reports. There is none without a session.
    pub fn finalize<T>(&mut self, report: Result<ShimResult<T>, String>) -> (r: Result<
        String,
        String,
    >)
        ensures
            final(self).stream is None,
            final(self).stream_language == old(self).stream_language,
            final(self).stream_dictionary == old(self).stream_dictionary,
            match old(self).stream {
                None => r matches Ok(t) && t@ == ""@,
                Some(_) => match report {
                    Ok(v) => match v.error {
                        Some(e) => r == Err::<String, String>(e),
                        None => r == Ok::<String, String>(v.text),
                    },
                    Err(e) => r == Err::<String, String>(e),
                },
            },
    {
        match self.reset() {
            None => Ok(text::owned("")),
            Some(_) => match report {
                Ok(report) => match finished(report) {
                    Ok(report) => Ok(report.text),
                    Err(e) => Err(e),
                },
                Err(e) => Err(e),
            },
        }
    }
}

/// What the OS says to a chunk of audio.
pub fn feed_result(status: i32) -> (r: Result<(), String>)
    ensures
        match r {
            Ok(_) => status == 0,
            Err(e) => status != 0 && e@ == "apple speech rejected audio chunk"@,
        },
{
    if status != 0 {
        return Err(text::owned("apple speech rejected audio chunk"));
    }
    Ok(())
}

/// What a session reports at its end.
#[derive(Debug)]
pub struct ShimResult<T> {
    pub text: String,
    pub segments: Vec<TranscriptionSegment<T>>,
    pub error: Option<String>,
}

/// The report of a session, or its error.
pub fn finished<T>(report: ShimResult<T>) -> (r: Result<ShimResult<T>, String>)
    ensures
        match r {
            Ok(v) => report.error is None && v == report,
            Err(e) => report.error == Some(e),
        },
{
    match report.error {
        Some(error) => Err(error),
        None => Ok(ShimResult { text: report.text, segments: report.segments, error: None }),
    }
}

/// The transcription that a session reports.
pub fn apple_result<T>(report: ShimResult<T>, language: Option<String>) -> (r: TranscriptionResult<
    T,
>)
    ensures
        r@ == (ResultText {
            text: report.text@,
            segments: if report.segments@.len() == 0 {
                None
            } else {
                Some(crate::segment_texts(report.segments@))
            },
            words: None,
            language: text::opt_text(language),
        }),
{
    let segments = if report.segments.len() == 0 {
        None
    } else {
        Some(report.segments)
    };
    TranscriptionResult { text: report.text, segments, words: None, language }
}

} // verus!
