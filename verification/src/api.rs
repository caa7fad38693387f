//! The local HTTP API: who may call it, what requests ask for, and how
//! transcriptions are written.

pub mod laws;

use vstd::prelude::*;

use crate::remote::address;
use crate::remote::address::is_loopback_host;
use crate::service::{AudioInput, TranscribeRequest};
use crate::text;
use crate::{SegmentText, TimestampGranularity, Transcription, TranscriptionSegment};

verus! {

// ---------------------------------------------------------------------------
// The server
// ---------------------------------------------------------------------------

/// How the API is served.
#[derive(Debug, Clone)]
pub struct ApiConfig {
    pub host: String,
    pub port: u16,
    pub model_cache_dir: String,
    pub warm_model: Option<String>,
    pub api_key: Option<String>,
    /// When true, responses include permissive CORS headers so browser-based
    /// clients on any origin can call the API.
    pub cors: bool,
}

/// Something that happened in the server.
#[derive(Debug, Clone, PartialEq, Eq)]
pub struct ApiEvent {
    pub level: &'static str,
    pub message: String,
    pub model_id: Option<String>,
}

impl ApiEvent {
    /// An event, of a model where one is named.
    pub fn new(level: &'static str, message: &str, model_id: Option<&str>) -> (r: Self)
        ensures
            r.level@ == level@,
            r.message@ == message@,
            text::opt_text(r.model_id) == text::opt_str(model_id),
    {
        ApiEvent { level, message: text::owned(message), model_id: text::owned_opt(model_id) }
    }
}

impl ApiConfig {
    /// The address that the server listens on.
    pub fn address(&self) -> (r: String)
        ensures
            r@ == self.host@ + ":"@ + text::decimal(self.port as nat),
    {
        let port = text::decimal_of(self.port as u128);
        text::concat3(self.host.as_str(), ":", port.as_str())
    }

    /// Whether the server may listen: on the network it has to ask for a key.
    pub fn check_binding(&self) -> (r: Result<(), String>)
        ensures
            match r {
                Ok(_) => address::loopback(self.host@) || (self.api_key matches Some(k)
                    && !text::blank(k@)),
                Err(e) => {
                    &&& !address::loopback(self.host@)
                    &&& !(self.api_key matches Some(k) && !text::blank(k@))
                    &&& e@ == "Serving on "@ + self.host@ + " requires an API key"@
                },
            },
    {
        if is_loopback_host(self.host.as_str()) {
            return Ok(());
        }
        let has_key = match &self.api_key {
            Some(key) => !text::is_blank(key.as_str()),
            None => false,
        };
        if has_key {
            Ok(())
        } else {
            Err(text::concat3("Serving on ", self.host.as_str(), " requires an API key"))
        }
    }
}

// ---------------------------------------------------------------------------
// Errors
// ---------------------------------------------------------------------------

/// The body of an error response.
#[derive(Debug, Clone, PartialEq, Eq)]
pub struct ErrorBody {
    pub error: ErrorDetail,
}

#[derive(Debug, Clone, PartialEq, Eq)]
pub struct ErrorDetail {
    pub message: String,
    pub error_type: &'static str,
    pub param: Option<String>,
    pub code: Option<String>,
}

/// An error response.
#[derive(Debug, Clone, PartialEq, Eq)]
pub struct ApiFailure {
    pub status: u16,
    pub body: ErrorBody,
}

/// Whether an error body has a message and a type, and nothing else.
pub open spec fn body_is(body: ErrorBody, error_type: Seq<char>, message: Seq<char>) -> bool {
    &&& body.error.message@ == message
    &&& body.error.error_type@ == error_type
    &&& body.error.param is None
    &&& body.error.code is None
}

/// Whether a response blames the request.
pub open spec fn is_bad_request(e: ApiFailure, message: Seq<char>) -> bool {
    e.status == 400 && body_is(e.body, "invalid_request_error"@, message)
}

pub fn typed_error_body(message: &str, error_type: &'static str) -> (r: ErrorBody)
    ensures
        body_is(r, error_type@, message@),
{
    ErrorBody {
        error: ErrorDetail { message: text::owned(message), error_type, param: None, code: None },
    }
}

pub fn error_body(message: &str) -> (r: ErrorBody)
    ensures
        body_is(r, "invalid_request_error"@, message@),
{
    typed_error_body(message, "invalid_request_error")
}

/// The response to a request that cannot be served as it is.
pub fn map_error(message: &str) -> (r: ApiFailure)
    ensures
        is_bad_request(r, message@),
{
    ApiFailure { status: 400, body: error_body(message) }
}

/// The response to a request that could not be served.
pub fn map_server_error(message: &str) -> (r: ApiFailure)
    ensures
        r.status == 500,
        body_is(r.body, "server_error"@, message@),
{
    ApiFailure { status: 500, body: typed_error_body(message, "server_error") }
}

// ---------------------------------------------------------------------------
// Access
// ---------------------------------------------------------------------------

/// The key that callers have to present: a blank one is none.
pub fn required_key(key: Option<String>) -> (r: Option<String>)
    ensures
        text::opt_text(r) == (match key {
            Some(k) if !text::blank(k@) => Some(k@),
            _ => None,
        }),
{
    match key {
        Some(key) => {
            if text::is_blank(key.as_str()) {
                None
            } else {
                Some(key)
            }
        },
        None => None,
    }
}

/// The key in an `Authorization` header.
pub open spec fn bearer_of(header: Seq<char>) -> Option<Seq<char>> {
    if text::begins_with(header, "Bearer "@) {
        Some(text::trimmed(header.skip("Bearer "@.len() as int)))
    } else {
        None
    }
}

/// Whether a caller presents the key that is expected.
pub open spec fn authorized(
    expected: Option<Seq<char>>,
    authorization: Option<Seq<char>>,
    x_api_key: Option<Seq<char>>,
) -> bool {
    match expected {
        None => true,
        Some(key) => {
            ||| authorization is Some && bearer_of(authorization->0) == Some(key)
            ||| x_api_key is Some && text::trimmed(x_api_key->0) == key
        },
    }
}

/// Accepts callers that present the key that is expected, as a bearer token or
/// in a header of its own.
pub fn authorize(
    expected: Option<&str>,
    authorization: Option<&str>,
    x_api_key: Option<&str>,
) -> (r: Result<(), ApiFailure>)
    ensures
        match r {
            Ok(_) => authorized(
                text::opt_str(expected),
                text::opt_str(authorization),
                text::opt_str(x_api_key),
            ),
            Err(e) => {
                &&& !authorized(
                    text::opt_str(expected),
                    text::opt_str(authorization),
                    text::opt_str(x_api_key),
                )
                &&& e.status == 401
                &&& body_is(e.body, "invalid_request_error"@, "Missing or invalid API key"@)
            },
        },
{
    let key = match expected {
        None => {
            return Ok(());
        },
        Some(key) => key,
    };
    if let Some(header) = authorization {
        if text::starts_with(header, "Bearer ") {
            let x = text::chars_of(header);
            let prefix = text::chars_of("Bearer ");
            let rest = text::string_between(x.as_slice(), prefix.len(), x.len());
            assert(rest@ =~= header@.skip("Bearer "@.len() as int));
            let bearer = text::trim(rest.as_str());
            if text::same(bearer.as_str(), key) {
                return Ok(());
            }
        }
    }
    if let Some(header) = x_api_key {
        let presented = text::trim(header);
        if text::same(presented.as_str(), key) {
            return Ok(());
        }
    }
    Err(ApiFailure { status: 401, body: error_body("Missing or invalid API key") })
}

/// Without a configured key everyone may call.
pub proof fn law_open_without_key(authorization: Option<Seq<char>>, x_api_key: Option<Seq<char>>)
    ensures
        authorized(None, authorization, x_api_key),
{
}

/// A caller who presents no key is refused where one is expected.
pub proof fn law_no_key_is_refused(key: Seq<char>)
    ensures
        !authorized(Some(key), None, None),
{
}

/// The key is accepted as a bearer token and in a header of its own, and
/// another one is not. White space around the expected key would not be: what
/// callers present is trimmed.
pub proof fn law_key_in_either_header(key: Seq<char>, presented: Seq<char>)
    requires
        text::trimmed(key) == key,
    ensures
        authorized(Some(key), Some("Bearer "@ + presented), None) <==> text::trimmed(presented)
            == key,
        authorized(Some(key), None, Some(presented)) <==> text::trimmed(presented) == key,
        authorized(Some(key), Some("Bearer "@ + key), None),
        authorized(Some(key), None, Some(key)),
{
    lemma_bearer(key);
    lemma_bearer(presented);
}

proof fn lemma_bearer(key: Seq<char>)
    ensures
        bearer_of("Bearer "@ + key) == Some(text::trimmed(key)),
{
    let header = "Bearer "@ + key;
    let n = "Bearer "@.len() as int;
    assert(header.subrange(0, n) =~= "Bearer "@);
    assert(header.skip(n) =~= key);
}

/// Whether a content type is that of a form.
pub fn is_multipart_content_type(value: &str) -> (r: bool)
    ensures
        r == text::begins_with(text::ascii_lower(value@), "multipart/form-data"@),
{
    let lowered = text::to_ascii_lowercase(value);
    text::starts_with(lowered.as_str(), "multipart/form-data")
}

// ---------------------------------------------------------------------------
// Options of a request
// ---------------------------------------------------------------------------

/// How a transcription is written.
#[derive(Debug, Clone, Copy, PartialEq, Eq, Structural)]
pub enum ResponseFormat {
    Json,
    Text,
    VerboseJson,
    Srt,
    Vtt,
}

impl ResponseFormat {
    /// The name of a format.
    pub open spec fn name(self) -> Seq<char> {
        match self {
            ResponseFormat::Json => "json"@,
            ResponseFormat::Text => "text"@,
            ResponseFormat::VerboseJson => "verbose_json"@,
            ResponseFormat::Srt => "srt"@,
            ResponseFormat::Vtt => "vtt"@,
        }
    }

    /// Whether a format shows times.
    pub fn needs_timestamps(self) -> (r: bool)
        ensures
            r == (self is VerboseJson || self is Srt || self is Vtt),
    {
        match self {
            ResponseFormat::VerboseJson | ResponseFormat::Srt | ResponseFormat::Vtt => true,
            _ => false,
        }
    }

    /// The content type of responses that are not JSON.
    pub fn text_content_type(self) -> (r: Option<&'static str>)
        ensures
            text::opt_str(r) == (match self {
                ResponseFormat::Text => Some("text/plain; charset=utf-8"@),
                ResponseFormat::Srt => Some("application/x-subrip"@),
                ResponseFormat::Vtt => Some("text/vtt; charset=utf-8"@),
                _ => None,
            }),
    {
        match self {
            ResponseFormat::Text => Some("text/plain; charset=utf-8"),
            ResponseFormat::Srt => Some("application/x-subrip"),
            ResponseFormat::Vtt => Some("text/vtt; charset=utf-8"),
            _ => None,
        }
    }
}

/// The format with a given name.
pub open spec fn format_named(name: Seq<char>) -> Option<ResponseFormat> {
    if name == "json"@ {
        Some(ResponseFormat::Json)
    } else if name == "text"@ {
        Some(ResponseFormat::Text)
    } else if name == "verbose_json"@ {
        Some(ResponseFormat::VerboseJson)
    } else if name == "srt"@ {
        Some(ResponseFormat::Srt)
    } else if name == "vtt"@ {
        Some(ResponseFormat::Vtt)
    } else {
        None
    }
}

/// What is said of a format that does not exist.
pub open spec fn bad_format(value: Seq<char>) -> Seq<char> {
    "Unsupported response_format `"@ + value + "`"@
}

/// The format with a given name.
pub fn parse_response_format(value: &str) -> (r: Result<ResponseFormat, ApiFailure>)
    ensures
        match r {
            Ok(f) => format_named(value@) == Some(f),
            Err(e) => format_named(value@) is None && is_bad_request(e, bad_format(value@)),
        },
{
    if text::same(value, "json") {
        Ok(ResponseFormat::Json)
    } else if text::same(value, "text") {
        Ok(ResponseFormat::Text)
    } else if text::same(value, "verbose_json") {
        Ok(ResponseFormat::VerboseJson)
    } else if text::same(value, "srt") {
        Ok(ResponseFormat::Srt)
    } else if text::same(value, "vtt") {
        Ok(ResponseFormat::Vtt)
    } else {
        let message = text::concat3("Unsupported response_format `", value, "`");
        Err(map_error(message.as_str()))
    }
}

/// Writing the name of a format and reading it back gives the same format.
pub proof fn law_format_names(f: ResponseFormat)
    ensures
        format_named(f.name()) == Some(f),
{
    reveal_strlit("json");
    reveal_strlit("text");
    reveal_strlit("verbose_json");
    reveal_strlit("srt");
    reveal_strlit("vtt");
    assert("json"@[0] != "text"@[0]);
    assert("srt"@[0] != "vtt"@[0]);
    assert("json"@.len() == 4 && "text"@.len() == 4);
    assert("verbose_json"@.len() == 12);
    assert("srt"@.len() == 3 && "vtt"@.len() == 3);
}

/// The pieces between commas that are not blank, trimmed.
pub open spec fn real_pieces(pieces: Seq<Seq<char>>) -> Seq<Seq<char>>
    decreases pieces.len(),
{
    if pieces.len() == 0 {
        seq![]
    } else {
        let before = real_pieces(pieces.drop_last());
        if text::blank(pieces.last()) {
            before
        } else {
            before.push(text::trimmed(pieces.last()))
        }
    }
}

/// The values in a field that lists several.
pub open spec fn field_values(value: Seq<char>) -> Seq<Seq<char>> {
    real_pieces(text::split_on(value, ','))
}

/// The values in several fields.
pub open spec fn all_field_values(values: Seq<Seq<char>>) -> Seq<Seq<char>>
    decreases values.len(),
{
    if values.len() == 0 {
        seq![]
    } else {
        all_field_values(values.drop_last()) + field_values(values.last())
    }
}

/// The values in a field that lists several.
pub fn split_field_values(value: &str) -> (r: Vec<String>)
    ensures
        text::texts(r@) == field_values(value@),
{
    broadcast use text::lemma_texts_push;

    let pieces = text::split(value, ',');
    let ghost all = text::texts(pieces@);
    let mut out: Vec<String> = Vec::new();
    let mut i: usize = 0;
    assert(text::texts(out@) =~= Seq::<Seq<char>>::empty());
    while i < pieces.len()
        invariant
            all == text::texts(pieces@),
            i <= pieces@.len(),
            text::texts(out@) == real_pieces(all.take(i as int)),
        decreases pieces@.len() - i,
    {
        proof {
            assert(all.take(i + 1).drop_last() =~= all.take(i as int));
            assert(all.take(i + 1).last() == pieces@[i as int]@);
        }
        let trimmed = text::trim(pieces[i].as_str());
        if !trimmed.as_str().is_empty() {
            out.push(trimmed);
        }
        i += 1;
    }
    assert(all.take(i as int) =~= all);
    out
}

fn extend_texts(out: &mut Vec<String>, more: Vec<String>)
    ensures
        text::texts(final(out)@) == text::texts(old(out)@) + text::texts(more@),
{
    broadcast use text::lemma_texts_push;

    let ghost before = text::texts(out@);
    let ghost all = text::texts(more@);
    let mut i: usize = 0;
    assert(before + all.take(0) =~= before);
    while i < more.len()
        invariant
            all == text::texts(more@),
            i <= more@.len(),
            text::texts(out@) == before + all.take(i as int),
        decreases more@.len() - i,
    {
        out.push(more[i].clone());
        assert((before + all.take(i as int)).push(all[i as int]) =~= before + all.take(i + 1));
        i += 1;
    }
    assert(all.take(i as int) =~= all);
}

/// The granularities that a list names, each once, or the first name that is
/// none.
pub open spec fn granularities_named(names: Seq<Seq<char>>) -> Result<
    Seq<TimestampGranularity>,
    Seq<char>,
>
    decreases names.len(),
{
    if names.len() == 0 {
        Ok(seq![])
    } else {
        match granularities_named(names.drop_last()) {
            Err(name) => Err(name),
            Ok(before) => {
                let name = names.last();
                if name == "segment"@ {
                    if before.contains(TimestampGranularity::Segment) {
                        Ok(before)
                    } else {
                        Ok(before.push(TimestampGranularity::Segment))
                    }
                } else if name == "word"@ {
                    if before.contains(TimestampGranularity::Word) {
                        Ok(before)
                    } else {
                        Ok(before.push(TimestampGranularity::Word))
                    }
                } else {
                    Err(name)
                }
            },
        }
    }
}

/// What is said of a granularity that does not exist.
pub open spec fn bad_granularity(name: Seq<char>) -> Seq<char> {
    "Unsupported timestamp granularity `"@ + name + "`"@
}

proof fn lemma_granularities_stuck(names: Seq<Seq<char>>, k: int)
    requires
        0 <= k <= names.len(),
        granularities_named(names.take(k)) is Err,
    ensures
        granularities_named(names) == granularities_named(names.take(k)),
    decreases names.len() - k,
{
    if k == names.len() {
        assert(names.take(k) =~= names);
    } else {
        assert(names.take(k + 1).drop_last() =~= names.take(k));
        lemma_granularities_stuck(names, k + 1);
    }
}

fn lists_granularity(list: &[TimestampGranularity], g: TimestampGranularity) -> (r: bool)
    ensures
        r == list@.contains(g),
{
    let mut i: usize = 0;
    while i < list.len()
        invariant
            i <= list@.len(),
            forall|j: int| 0 <= j < i ==> list@[j] != g,
        decreases list@.len() - i,
    {
        if list[i] == g {
            return true;
        }
        i += 1;
    }
    false
}

fn collect_field_values(values: &[String]) -> (r: Vec<String>)
    ensures
        text::texts(r@) == all_field_values(text::texts(values@)),
{
    let ghost all = text::texts(values@);
    let mut out: Vec<String> = Vec::new();
    let mut i: usize = 0;
    assert(text::texts(out@) =~= Seq::<Seq<char>>::empty());
    while i < values.len()
        invariant
            all == text::texts(values@),
            i <= values@.len(),
            text::texts(out@) == all_field_values(all.take(i as int)),
        decreases values@.len() - i,
    {
        proof {
            assert(all.take(i + 1).drop_last() =~= all.take(i as int));
            assert(all.take(i + 1).last() == values@[i as int]@);
        }
        let more = split_field_values(values[i].as_str());
        extend_texts(&mut out, more);
        i += 1;
    }
    assert(all.take(i as int) =~= all);
    out
}

/// The granularities that fields name, each once.
pub fn parse_timestamp_granularities(values: Vec<String>) -> (r: Result<
    Vec<TimestampGranularity>,
    ApiFailure,
>)
    ensures
        match r {
            Ok(v) => granularities_named(all_field_values(text::texts(values@))) == Ok::<
                Seq<TimestampGranularity>,
                Seq<char>,
            >(v@),
            Err(e) => granularities_named(
                all_field_values(text::texts(values@)),
            ) matches Err(name) && is_bad_request(e, bad_granularity(name)),
        },
{
    let entries = collect_field_values(values.as_slice());
    let ghost all = text::texts(entries@);
    let mut parsed: Vec<TimestampGranularity> = Vec::new();
    let mut i: usize = 0;
    while i < entries.len()
        invariant
            all == text::texts(entries@),
            all == all_field_values(text::texts(values@)),
            i <= entries@.len(),
            granularities_named(all.take(i as int)) == Ok::<
                Seq<TimestampGranularity>,
                Seq<char>,
            >(parsed@),
        decreases entries@.len() - i,
    {
        proof {
            assert(all.take(i + 1).drop_last() =~= all.take(i as int));
            assert(all.take(i + 1).last() == entries@[i as int]@);
        }
        let entry = entries[i].as_str();
        let granularity = if text::same(entry, "segment") {
            TimestampGranularity::Segment
        } else if text::same(entry, "word") {
            TimestampGranularity::Word
        } else {
            proof {
                lemma_granularities_stuck(all, i + 1);
            }
            let message = text::concat3("Unsupported timestamp granularity `", entry, "`");
            return Err(map_error(message.as_str()));
        };
        if !lists_granularity(parsed.as_slice(), granularity) {
            parsed.push(granularity);
        }
        i += 1;
    }
    assert(all.take(i as int) =~= all);
    Ok(parsed)
}

/// The finest of several granularities.
pub open spec fn finest(values: Seq<TimestampGranularity>) -> Option<TimestampGranularity> {
    if values.contains(TimestampGranularity::Word) {
        Some(TimestampGranularity::Word)
    } else if values.contains(TimestampGranularity::Segment) {
        Some(TimestampGranularity::Segment)
    } else {
        None
    }
}

/// The finest of several granularities.
pub fn service_timestamp_granularity(values: &[TimestampGranularity]) -> (r: Option<
    TimestampGranularity,
>)
    ensures
        r == finest(values@),
{
    if lists_granularity(values, TimestampGranularity::Word) {
        Some(TimestampGranularity::Word)
    } else if lists_granularity(values, TimestampGranularity::Segment) {
        Some(TimestampGranularity::Segment)
    } else {
        None
    }
}

/// Whether a text says yes.
pub open spec fn says_yes(value: Seq<char>) -> bool {
    let v = text::trimmed(value);
    v == "true"@ || v == "1"@ || v == "yes"@ || v == "on"@
}

/// Whether a text says yes.
pub fn parse_bool(value: &str) -> (r: bool)
    ensures
        r == says_yes(value@),
{
    let trimmed = text::trim(value);
    let v = trimmed.as_str();
    text::same(v, "true") || text::same(v, "1") || text::same(v, "yes") || text::same(v, "on")
}

// ---------------------------------------------------------------------------
// Requests
// ---------------------------------------------------------------------------

/// The parts of a request for a transcription.
#[derive(Debug, Clone)]
pub struct TranscriptionRequestParts<S> {
    pub model: String,
    pub audio: AudioInput<S>,
    pub language: Option<String>,
    pub prompt: Option<String>,
    pub response_format: Option<String>,
    pub timestamp_granularities: Vec<String>,
    pub dictionary: Vec<String>,
    pub timestamps: bool,
    pub stream: bool,
    pub uploaded_file: Option<String>,
}

/// A request for a transcription that can be served.
#[derive(Debug, Clone)]
pub struct ParsedTranscriptionRequest<S> {
    pub request: TranscribeRequest<S>,
    pub response_format: ResponseFormat,
    pub timestamp_granularities: Vec<TimestampGranularity>,
    pub uploaded_file: Option<String>,
}

/// The name of the format that is asked for.
pub open spec fn asked_format<S>(parts: TranscriptionRequestParts<S>) -> Seq<char> {
    match parts.response_format {
        Some(f) => f@,
        None => "json"@,
    }
}

/// The granularities that are asked for.
pub open spec fn asked_granularities<S>(parts: TranscriptionRequestParts<S>) -> Result<
    Seq<TimestampGranularity>,
    Seq<char>,
> {
    granularities_named(all_field_values(text::texts(parts.timestamp_granularities@)))
}

/// What keeps a request from being served, if anything.
pub open spec fn request_error<S>(parts: TranscriptionRequestParts<S>, model_known: bool) -> Option<
    Seq<char>,
> {
    if parts.stream {
        Some("Streaming transcription responses are not supported"@)
    } else if !model_known {
        Some("Unknown model: "@ + parts.model@)
    } else if format_named(asked_format(parts)) is None {
        Some(bad_format(asked_format(parts)))
    } else if asked_granularities(parts) is Err {
        Some(bad_granularity(asked_granularities(parts)->Err_0))
    } else if asked_granularities(parts)->Ok_0.len() > 0 && format_named(asked_format(parts))
        != Some(ResponseFormat::VerboseJson) {
        Some("`timestamp_granularities` requires response_format `verbose_json`"@)
    } else {
        None
    }
}

/// Whether a request is what its parts ask for.
pub open spec fn is_request_of<S>(
    parsed: ParsedTranscriptionRequest<S>,
    parts: TranscriptionRequestParts<S>,
) -> bool {
    let granularities = asked_granularities(parts)->Ok_0;
    &&& parsed.request.audio == parts.audio
    &&& parsed.request.model_id == parts.model
    &&& parsed.request.language == parts.language
    &&& parsed.request.prompt == parts.prompt
    &&& parsed.request.dictionary == parts.dictionary
    &&& parsed.request.timestamps == (parts.timestamps || granularities.len() > 0)
    &&& parsed.request.timestamp_granularity == finest(granularities)
    &&& Some(parsed.response_format) == format_named(asked_format(parts))
    &&& parsed.timestamp_granularities@ == granularities
    &&& parsed.uploaded_file == parts.uploaded_file
}

/// The request that its parts ask for. Streaming, unknown models and formats,
/// and times in formats that do not show them are refused.
pub fn build_transcription_request<S>(
    parts: TranscriptionRequestParts<S>,
    model_known: bool,
) -> (r: Result<ParsedTranscriptionRequest<S>, ApiFailure>)
    ensures
        match r {
            Ok(parsed) => request_error(parts, model_known) is None && is_request_of(parsed, parts),
            Err(e) => request_error(parts, model_known) matches Some(message) && is_bad_request(
                e,
                message,
            ),
        },
{
    if parts.stream {
        return Err(map_error("Streaming transcription responses are not supported"));
    }
    if !model_known {
        let message = text::concat2("Unknown model: ", parts.model.as_str());
        return Err(map_error(message.as_str()));
    }
    let format_name = match &parts.response_format {
        Some(name) => name.as_str(),
        None => "json",
    };
    let response_format = match parse_response_format(format_name) {
        Ok(format) => format,
        Err(e) => {
            return Err(e);
        },
    };
    let timestamp_granularities = match parse_timestamp_granularities(
        parts.timestamp_granularities,
    ) {
        Ok(list) => list,
        Err(e) => {
            return Err(e);
        },
    };
    if timestamp_granularities.len() > 0 && response_format != ResponseFormat::VerboseJson {
        return Err(
            map_error("`timestamp_granularities` requires response_format `verbose_json`"),
        );
    }
    Ok(
        ParsedTranscriptionRequest {
            request: TranscribeRequest {
                audio: parts.audio,
                model_id: parts.model,
                language: parts.language,
                prompt: parts.prompt,
                dictionary: parts.dictionary,
                timestamps: parts.timestamps || timestamp_granularities.len() > 0,
                timestamp_granularity: service_timestamp_granularity(
                    timestamp_granularities.as_slice(),
                ),
            },
            response_format,
            timestamp_granularities,
            uploaded_file: parts.uploaded_file,
        },
    )
}

/// A field of a form.
#[derive(Debug, Clone, Copy, PartialEq, Eq, Structural)]
pub enum FieldKind {
    /// The recording.
    File,
    Model,
    Language,
    Prompt,
    ResponseFormat,
    Dictionary,
    Granularities,
    Timestamps,
    Stream,
    /// Read and dropped.
    Temperature,
    /// Not read.
    Other,
}

/// The field with a given name.
pub open spec fn field_named(name: Seq<char>) -> FieldKind {
    if name == "file"@ || name == "audio"@ {
        FieldKind::File
    } else if name == "model"@ {
        FieldKind::Model
    } else if name == "language"@ {
        FieldKind::Language
    } else if name == "prompt"@ {
        FieldKind::Prompt
    } else if name == "response_format"@ {
        FieldKind::ResponseFormat
    } else if name == "dictionary"@ || name == "dictionary[]"@ || name == "glimpse_dictionary"@ {
        FieldKind::Dictionary
    } else if name == "timestamp_granularities"@ || name == "timestamp_granularities[]"@ {
        FieldKind::Granularities
    } else if name == "timestamps"@ {
        FieldKind::Timestamps
    } else if name == "stream"@ {
        FieldKind::Stream
    } else if name == "temperature"@ {
        FieldKind::Temperature
    } else {
        FieldKind::Other
    }
}

/// The field with a given name.
pub fn field_kind(name: &str) -> (r: FieldKind)
    ensures
        r == field_named(name@),
{
    if text::same(name, "file") || text::same(name, "audio") {
        FieldKind::File
    } else if text::same(name, "model") {
        FieldKind::Model
    } else if text::same(name, "language") {
        FieldKind::Language
    } else if text::same(name, "prompt") {
        FieldKind::Prompt
    } else if text::same(name, "response_format") {
        FieldKind::ResponseFormat
    } else if text::same(name, "dictionary") || text::same(name, "dictionary[]") || text::same(
        name,
        "glimpse_dictionary",
    ) {
        FieldKind::Dictionary
    } else if text::same(name, "timestamp_granularities") || text::same(
        name,
        "timestamp_granularities[]",
    ) {
        FieldKind::Granularities
    } else if text::same(name, "timestamps") {
        FieldKind::Timestamps
    } else if text::same(name, "stream") {
        FieldKind::Stream
    } else if text::same(name, "temperature") {
        FieldKind::Temperature
    } else {
        FieldKind::Other
    }
}

/// The text fields of a form that were read so far.
#[derive(Debug, Clone)]
pub struct UploadForm {
    pub model: Option<String>,
    pub language: Option<String>,
    pub prompt: Option<String>,
    pub response_format: Option<String>,
    pub dictionary: Vec<String>,
    pub timestamp_granularities: Vec<String>,
    pub timestamps: bool,
    pub stream: bool,
}

/// What an [`UploadForm`] holds.
#[verifier::ext_equal]
pub ghost struct FormText {
    pub model: Option<Seq<char>>,
    pub language: Option<Seq<char>>,
    pub prompt: Option<Seq<char>>,
    pub response_format: Option<Seq<char>>,
    pub dictionary: Seq<Seq<char>>,
    pub timestamp_granularities: Seq<Seq<char>>,
    pub timestamps: bool,
    pub stream: bool,
}

impl View for UploadForm {
    type V = FormText;

    open spec fn view(&self) -> FormText {
        FormText {
            model: text::opt_text(self.model),
            language: text::opt_text(self.language),
            prompt: text::opt_text(self.prompt),
            response_format: text::opt_text(self.response_format),
            dictionary: text::texts(self.dictionary@),
            timestamp_granularities: text::texts(self.timestamp_granularities@),
            timestamps: self.timestamps,
            stream: self.stream,
        }
    }
}

/// A form after one more field. Lists grow; other fields are replaced, a
/// language and a prompt only by one that is not blank.
pub open spec fn form_after(form: FormText, kind: FieldKind, value: Seq<char>) -> FormText {
    match kind {
        FieldKind::Model => FormText { model: Some(value), ..form },
        FieldKind::Language => if text::blank(value) {
            form
        } else {
            FormText { language: Some(value), ..form }
        },
        FieldKind::Prompt => if text::blank(value) {
            form
        } else {
            FormText { prompt: Some(value), ..form }
        },
        FieldKind::ResponseFormat => FormText { response_format: Some(value), ..form },
        FieldKind::Dictionary => FormText {
            dictionary: form.dictionary + field_values(value),
            ..form
        },
        FieldKind::Granularities => FormText {
            timestamp_granularities: form.timestamp_granularities + field_values(value),
            ..form
        },
        FieldKind::Timestamps => FormText { timestamps: says_yes(value), ..form },
        FieldKind::Stream => FormText { stream: says_yes(value), ..form },
        FieldKind::File => form,
        FieldKind::Temperature => form,
        FieldKind::Other => form,
    }
}

/// A form without fields.
pub open spec fn empty_form() -> FormText {
    FormText {
        model: None,
        language: None,
        prompt: None,
        response_format: None,
        dictionary: Seq::empty(),
        timestamp_granularities: Seq::empty(),
        timestamps: false,
        stream: false,
    }
}

impl UploadForm {
    /// A form without fields.
    pub fn new() -> (r: Self)
        ensures
            r@ == empty_form(),
    {
        let r = UploadForm {
            model: None,
            language: None,
            prompt: None,
            response_format: None,
            dictionary: Vec::new(),
            timestamp_granularities: Vec::new(),
            timestamps: false,
            stream: false,
        };
        assert(r@ =~= empty_form());
        r
    }

    /// Takes one more field.
    pub fn take_field(&mut self, kind: FieldKind, value: &str)
        ensures
            final(self)@ == form_after(old(self)@, kind, value@),
    {
        match kind {
            FieldKind::Model => {
                self.model = Some(text::owned(value));
            },
            FieldKind::Language => {
                if !text::is_blank(value) {
                    self.language = Some(text::owned(value));
                }
            },
            FieldKind::Prompt => {
                if !text::is_blank(value) {
                    self.prompt = Some(text::owned(value));
                }
            },
            FieldKind::ResponseFormat => {
                self.response_format = Some(text::owned(value));
            },
            FieldKind::Dictionary => {
                let more = split_field_values(value);
                extend_texts(&mut self.dictionary, more);
            },
            FieldKind::Granularities => {
                let more = split_field_values(value);
                extend_texts(&mut self.timestamp_granularities, more);
            },
            FieldKind::Timestamps => {
                self.timestamps = parse_bool(value);
            },
            FieldKind::Stream => {
                self.stream = parse_bool(value);
            },
            FieldKind::File | FieldKind::Temperature | FieldKind::Other => {},
        }
    }

    /// The parts of the request in a form. The recording and the model have to
    /// be there.
    pub fn into_parts<S>(self, upload: Option<String>) -> (r: Result<
        TranscriptionRequestParts<S>,
        ApiFailure,
    >)
        ensures
            match r {
                Ok(parts) => {
                    &&& upload matches Some(path) && parts.audio matches AudioInput::WavPath(audio)
                        && audio@ == path@ && text::opt_text(parts.uploaded_file) == Some(path@)
                    &&& self.model == Some(parts.model)
                    &&& parts.language == self.language
                    &&& parts.prompt == self.prompt
                    &&& parts.response_format == self.response_format
                    &&& parts.timestamp_granularities == self.timestamp_granularities
                    &&& parts.dictionary == self.dictionary
                    &&& parts.timestamps == self.timestamps
                    &&& parts.stream == self.stream
                },
                Err(e) => {
                    ||| upload is None && is_bad_request(
                        e,
                        "Missing multipart file field `file`"@,
                    )
                    ||| upload is Some && self.model is None && is_bad_request(
                        e,
                        "Missing multipart field `model`"@,
                    )
                },
            },
    {
        let path = match upload {
            Some(path) => path,
            None => {
                return Err(map_error("Missing multipart file field `file`"));
            },
        };
        let model = match self.model {
            Some(model) => model,
            None => {
                return Err(map_error("Missing multipart field `model`"));
            },
        };
        Ok(
            TranscriptionRequestParts {
                model,
                audio: AudioInput::WavPath(path.clone()),
                language: self.language,
                prompt: self.prompt,
                response_format: self.response_format,
                timestamp_granularities: self.timestamp_granularities,
                dictionary: self.dictionary,
                timestamps: self.timestamps,
                stream: self.stream,
                uploaded_file: Some(path),
            },
        )
    }
}

/// The name of a temporary file for a recording. A process number, a time and
/// a counter keep it apart from others.
pub fn temp_audio_name(process: u32, nanos: u128, sequence: u64, extension: Option<&str>) -> (r:
    String)
    ensures
        r@ == "glimpse-speech-upload-"@ + text::decimal(process as nat) + "-"@ + text::decimal(
            nanos as nat,
        ) + "-"@ + text::decimal(sequence as nat) + (match extension {
            Some(e) => if e@.len() == 0 {
                ""@
            } else {
                "."@ + e@
            },
            None => ".wav"@,
        }),
{
    let first = text::decimal_of(process as u128);
    let second = text::decimal_of(nanos);
    let third = text::decimal_of(sequence as u128);
    let mut out = text::concat3("glimpse-speech-upload-", first.as_str(), "-");
    out.append(second.as_str());
    out.append("-");
    out.append(third.as_str());
    let suffix = match extension {
        Some(e) => {
            if e.is_empty() {
                text::owned("")
            } else {
                text::concat2(".", e)
            }
        },
        None => text::owned(".wav"),
    };
    out.append(suffix.as_str());
    out
}

// ---------------------------------------------------------------------------
// Captions
// ---------------------------------------------------------------------------

/// The segments that captions are made of: those of a transcription, or its
/// whole text from `zero` to `whole`.
pub open spec fn captions<T>(
    segments: Option<Seq<SegmentText<T>>>,
    full: Seq<char>,
    zero: T,
    whole: T,
) -> Seq<SegmentText<T>> {
    if segments is Some && segments->0.len() > 0 {
        segments->0
    } else if full.len() > 0 {
        seq![SegmentText { start: zero, end: whole, text: full }]
    } else {
        seq![]
    }
}

/// The segments that captions are made of. `whole` is the length of the
/// recording.
pub fn caption_segments<T: Copy>(response: &Transcription<T>, zero: T, whole: T) -> (r: Vec<
    TranscriptionSegment<T>,
>)
    ensures
        crate::segment_texts(r@) == captions(response@.segments, response@.text, zero, whole),
{
    let mut out: Vec<TranscriptionSegment<T>> = Vec::new();
    if let Some(segments) = &response.segments {
        let mut i: usize = 0;
        while i < segments.len()
            invariant
                i <= segments@.len(),
                out@.len() == i,
                forall|j: int| 0 <= j < i ==> (#[trigger] out@[j])@ == segments@[j]@,
            decreases segments@.len() - i,
        {
            out.push(
                TranscriptionSegment {
                    start: segments[i].start,
                    end: segments[i].end,
                    text: segments[i].text.clone(),
                },
            );
            i += 1;
        }
        assert(crate::segment_texts(out@) =~= crate::segment_texts(segments@));
        if segments.len() > 0 {
            return out;
        }
    }
    assert(out@.len() == 0);
    if !response.text.as_str().is_empty() {
        out.push(TranscriptionSegment { start: zero, end: whole, text: response.text.clone() });
    }
    assert(crate::segment_texts(out@) =~= captions(
        response@.segments,
        response@.text,
        zero,
        whole,
    ));
    out
}

/// A number with zeros in front.
pub open spec fn zero_padded(n: nat, width: nat) -> Seq<char> {
    let digits = text::decimal(n);
    if digits.len() >= width {
        digits
    } else {
        Seq::new((width - digits.len()) as nat, |i: int| '0') + digits
    }
}

fn pad(n: u64, width: usize) -> (r: String)
    ensures
        r@ == zero_padded(n as nat, width as nat),
{
    let digits = text::decimal_of(n as u128);
    let x = text::chars_of(digits.as_str());
    if x.len() >= width {
        return digits;
    }
    let zeros: usize = width - x.len();
    let mut out = String::new();
    let mut i: usize = 0;
    while i < zeros
        invariant
            i <= zeros,
            out@ == Seq::new(i as nat, |k: int| '0'),
        decreases zeros - i,
    {
        out.push('0');
        assert(out@ =~= Seq::new((i + 1) as nat, |k: int| '0'));
        i += 1;
    }
    out.append(digits.as_str());
    out
}

/// A time of day as captions show it: hours, minutes, seconds, milliseconds.
pub open spec fn timestamp(millis: nat, separator: char) -> Seq<char> {
    zero_padded(millis / 3_600_000, 2) + ":"@ + zero_padded(millis % 3_600_000 / 60_000, 2) + ":"@
        + zero_padded(millis % 60_000 / 1000, 2) + seq![separator] + zero_padded(millis % 1000, 3)
}

/// A time as captions show it.
pub fn format_timestamp(millis: u64, decimal_separator: char) -> (r: String)
    ensures
        r@ == timestamp(millis as nat, decimal_separator),
{
    let hours = pad(millis / 3_600_000, 2);
    let minutes = pad(millis % 3_600_000 / 60_000, 2);
    let secs = pad(millis % 60_000 / 1000, 2);
    let ms = pad(millis % 1000, 3);
    let mut out = text::concat3(hours.as_str(), ":", minutes.as_str());
    out.append(":");
    out.append(secs.as_str());
    out.push(decimal_separator);
    out.append(ms.as_str());
    assert(out@ =~= timestamp(millis as nat, decimal_separator));
    out
}

/// A numbered caption with its times in milliseconds.
pub open spec fn srt_caption(number: nat, s: SegmentText<u64>) -> Seq<char> {
    text::decimal(number) + "\n"@ + timestamp(s.start as nat, ',') + " --> "@ + timestamp(
        s.end as nat,
        ',',
    ) + "\n"@ + text::trimmed(s.text) + "\n"@
}

/// A SubRip file.
pub open spec fn srt_text(segments: Seq<SegmentText<u64>>) -> Seq<char> {
    text::joined(
        Seq::new(segments.len(), |i: int| srt_caption((i + 1) as nat, segments[i])),
        "\n"@,
    )
}

/// A caption with its times in milliseconds.
pub open spec fn vtt_cue(s: SegmentText<u64>) -> Seq<char> {
    timestamp(s.start as nat, '.') + " --> "@ + timestamp(s.end as nat, '.') + "\n"@
        + text::trimmed(s.text)
}

/// A WebVTT file.
pub open spec fn vtt_text(segments: Seq<SegmentText<u64>>) -> Seq<char> {
    "WEBVTT\n\n"@ + text::joined(
        Seq::new(segments.len(), |i: int| vtt_cue(segments[i])),
        "\n\n"@,
    ) + "\n"@
}

fn srt_entry(number: u128, s: &TranscriptionSegment<u64>) -> (r: String)
    ensures
        r@ == srt_caption(number as nat, s@),
{
    let n = text::decimal_of(number);
    let start = format_timestamp(s.start, ',');
    let end = format_timestamp(s.end, ',');
    let body = text::trim(s.text.as_str());
    let mut out = text::concat3(n.as_str(), "\n", start.as_str());
    out.append(" --> ");
    out.append(end.as_str());
    out.append("\n");
    out.append(body.as_str());
    out.append("\n");
    out
}

fn vtt_entry(s: &TranscriptionSegment<u64>) -> (r: String)
    ensures
        r@ == vtt_cue(s@),
{
    let start = format_timestamp(s.start, '.');
    let end = format_timestamp(s.end, '.');
    let body = text::trim(s.text.as_str());
    let mut out = text::concat3(start.as_str(), " --> ", end.as_str());
    out.append("\n");
    out.append(body.as_str());
    out
}

/// Captions as a SubRip file, from segments with times in milliseconds.
pub fn format_srt(segments: &[TranscriptionSegment<u64>]) -> (r: String)
    ensures
        r@ == srt_text(crate::segment_texts(segments@)),
{
    let ghost all = crate::segment_texts(segments@);
    let mut entries: Vec<String> = Vec::new();
    let mut i: usize = 0;
    while i < segments.len()
        invariant
            all == crate::segment_texts(segments@),
            i <= segments@.len(),
            entries@.len() == i,
            forall|j: int|
                0 <= j < i ==> (#[trigger] entries@[j])@ == srt_caption((j + 1) as nat, all[j]),
        decreases segments@.len() - i,
    {
        entries.push(srt_entry(i as u128 + 1, &segments[i]));
        i += 1;
    }
    assert(text::texts(entries@) =~= Seq::new(
        all.len(),
        |i: int| srt_caption((i + 1) as nat, all[i]),
    ));
    text::join(entries.as_slice(), "\n")
}

/// Captions as a WebVTT file, from segments with times in milliseconds.
pub fn format_vtt(segments: &[TranscriptionSegment<u64>]) -> (r: String)
    ensures
        r@ == vtt_text(crate::segment_texts(segments@)),
{
    let ghost all = crate::segment_texts(segments@);
    let mut cues: Vec<String> = Vec::new();
    let mut i: usize = 0;
    while i < segments.len()
        invariant
            all == crate::segment_texts(segments@),
            i <= segments@.len(),
            cues@.len() == i,
            forall|j: int| 0 <= j < i ==> (#[trigger] cues@[j])@ == vtt_cue(all[j]),
        decreases segments@.len() - i,
    {
        cues.push(vtt_entry(&segments[i]));
        i += 1;
    }
    assert(text::texts(cues@) =~= Seq::new(all.len(), |i: int| vtt_cue(all[i])));
    let body = text::join(cues.as_slice(), "\n\n");
    text::concat3("WEBVTT\n\n", body.as_str(), "\n")
}

/// The body of a response that is no JSON: the text of the transcription, or
/// its captions with times in milliseconds.
pub fn text_body(
    format: ResponseFormat,
    full: &str,
    captions: &[TranscriptionSegment<u64>],
) -> (r: Option<String>)
    ensures
        text::opt_text(r) == (match format {
            ResponseFormat::Text => Some(full@),
            ResponseFormat::Srt => Some(srt_text(crate::segment_texts(captions@))),
            ResponseFormat::Vtt => Some(vtt_text(crate::segment_texts(captions@))),
            ResponseFormat::Json | ResponseFormat::VerboseJson => None,
        }),
{
    match format {
        ResponseFormat::Text => Some(text::owned(full)),
        ResponseFormat::Srt => Some(format_srt(captions)),
        ResponseFormat::Vtt => Some(format_vtt(captions)),
        ResponseFormat::Json | ResponseFormat::VerboseJson => None,
    }
}

// ---------------------------------------------------------------------------
// Verbose responses
// ---------------------------------------------------------------------------

/// A transcription with its segments and words.
#[derive(Debug, Clone, PartialEq)]
pub struct VerboseTranscriptionResponse<T> {
    pub task: &'static str,
    pub language: Option<String>,
    pub duration: T,
    pub text: String,
    pub segments: Vec<VerboseSegment<T>>,
    pub words: Option<Vec<VerboseWord<T>>>,
}

#[derive(Debug, Clone, PartialEq)]
pub struct VerboseSegment<T> {
    pub id: usize,
    pub seek: usize,
    pub start: T,
    pub end: T,
    pub text: String,
}

#[derive(Debug, Clone, PartialEq)]
pub struct VerboseWord<T> {
    pub word: String,
    pub start: T,
    pub end: T,
}

/// Whether verbose segments are those of captions, numbered.
pub open spec fn segments_are<T>(v: Seq<VerboseSegment<T>>, from: Seq<SegmentText<T>>) -> bool {
    &&& v.len() == from.len()
    &&& forall|i: int|
        0 <= i < v.len() ==> {
            &&& (#[trigger] v[i]).id == i
            &&& v[i].seek == 0
            &&& v[i].start == from[i].start
            &&& v[i].end == from[i].end
            &&& v[i].text@ == from[i].text
        }
}

/// The words of a segment. Word `i` starts at the `i`-th of the given times
/// and ends at the next one; the last ends with the segment.
pub open spec fn timed_words<T>(s: SegmentText<T>, times: Seq<T>) -> Seq<SegmentText<T>> {
    let words = text::words(s.text);
    Seq::new(
        words.len(),
        |i: int|
            SegmentText {
                start: times[i],
                end: if i + 1 == words.len() {
                    s.end
                } else {
                    times[i + 1]
                },
                text: words[i],
            },
    )
}

/// What a list of verbose words holds.
pub open spec fn word_texts<T>(v: Seq<VerboseWord<T>>) -> Seq<SegmentText<T>> {
    Seq::new(v.len(), |i: int| SegmentText { start: v[i].start, end: v[i].end, text: v[i].word@ })
}

/// The words of several segments.
pub open spec fn all_timed_words<T>(segments: Seq<SegmentText<T>>, times: Seq<Vec<T>>) -> Seq<
    SegmentText<T>,
>
    decreases segments.len(),
{
    if segments.len() == 0 {
        seq![]
    } else {
        all_timed_words(segments.drop_last(), times) + timed_words(
            segments.last(),
            times[segments.len() - 1]@,
        )
    }
}

/// How many words a segment has, so many times are needed for it.
pub fn word_count<T>(segment: &TranscriptionSegment<T>) -> (r: usize)
    ensures
        r == text::words(segment@.text).len(),
{
    let words = text::split_whitespace(segment.text.as_str());
    assert(text::texts(words@).len() == words@.len());
    words.len()
}

/// The words of a segment, with the times at which they start.
pub fn words_for_segment<T: Copy>(segment: &TranscriptionSegment<T>, times: &[T]) -> (r: Vec<
    VerboseWord<T>,
>)
    requires
        times@.len() == text::words(segment@.text).len(),
    ensures
        word_texts(r@) == timed_words(segment@, times@),
{
    let words = text::split_whitespace(segment.text.as_str());
    let ghost all = text::words(segment@.text);
    assert(text::texts(words@).len() == words@.len());
    let mut out: Vec<VerboseWord<T>> = Vec::new();
    let mut i: usize = 0;
    while i < words.len()
        invariant
            all == text::texts(words@),
            all == text::words(segment@.text),
            times@.len() == all.len(),
            words@.len() == all.len(),
            i <= words@.len(),
            out@.len() == i,
            forall|j: int|
                0 <= j < i ==> word_texts(out@)[j] == #[trigger] timed_words(segment@, times@)[j],
        decreases words@.len() - i,
    {
        let ghost before = out@;
        assert(all[i as int] == words@[i as int]@);
        let end = if i + 1 == words.len() {
            segment.end
        } else {
            times[i + 1]
        };
        out.push(VerboseWord { word: words[i].clone(), start: times[i], end });
        assert forall|j: int| 0 <= j < i + 1 implies word_texts(out@)[j]
            == #[trigger] timed_words(segment@, times@)[j] by {
            if j < i {
                assert(out@[j] == before[j]);
                assert(word_texts(before)[j] == word_texts(out@)[j]);
            }
        }
        i += 1;
    }
    assert(word_texts(out@) =~= timed_words(segment@, times@));
    out
}

/// Whether there is a time for every word of every segment.
pub open spec fn times_fit<T>(segments: Seq<SegmentText<T>>, times: Seq<Vec<T>>) -> bool {
    &&& times.len() == segments.len()
    &&& forall|i: int|
        0 <= i < segments.len() ==> (#[trigger] times[i])@.len() == text::words(
            segments[i].text,
        ).len()
}

fn interpolated_words<T: Copy>(segments: &[TranscriptionSegment<T>], times: &[Vec<T>]) -> (r: Vec<
    VerboseWord<T>,
>)
    requires
        times_fit(crate::segment_texts(segments@), times@),
    ensures
        word_texts(r@) == all_timed_words(crate::segment_texts(segments@), times@),
{
    let ghost all = crate::segment_texts(segments@);
    let mut out: Vec<VerboseWord<T>> = Vec::new();
    let mut i: usize = 0;
    assert(word_texts(out@) =~= Seq::<SegmentText<T>>::empty());
    while i < segments.len()
        invariant
            all == crate::segment_texts(segments@),
            times_fit(all, times@),
            i <= segments@.len(),
            word_texts(out@) == all_timed_words(all.take(i as int), times@),
        decreases segments@.len() - i,
    {
        proof {
            assert(all.take(i + 1).drop_last() =~= all.take(i as int));
            assert(all.take(i + 1).last() == segments@[i as int]@);
            assert(times@[i as int]@.len() == text::words(all[i as int].text).len());
        }
        let ghost before = out@;
        let mut words = words_for_segment(&segments[i], times[i].as_slice());
        let ghost more = words@;
        out.append(&mut words);
        assert(word_texts(out@) =~= word_texts(before) + word_texts(more));
        i += 1;
    }
    assert(all.take(i as int) =~= all);
    out
}

/// The words of a response: those that the engine aligned, or else the words
/// of its captions at the given times.
pub open spec fn response_words<T>(
    aligned: Option<Seq<SegmentText<T>>>,
    segments: Seq<SegmentText<T>>,
    times: Seq<Vec<T>>,
) -> Seq<SegmentText<T>> {
    if aligned is Some && aligned->0.len() > 0 {
        aligned->0
    } else {
        all_timed_words(segments, times)
    }
}

/// The words of a response: those that the engine aligned, or else the words
/// of its captions. `times` holds the times of the words of each caption.
pub fn verbose_words<T: Copy>(
    response: &Transcription<T>,
    captions: &[TranscriptionSegment<T>],
    times: &[Vec<T>],
) -> (r: Vec<VerboseWord<T>>)
    requires
        times_fit(crate::segment_texts(captions@), times@),
    ensures
        word_texts(r@) == response_words(
            response@.words,
            crate::segment_texts(captions@),
            times@,
        ),
{
    if let Some(words) = &response.words {
        if words.len() > 0 {
            let mut out: Vec<VerboseWord<T>> = Vec::new();
            let mut i: usize = 0;
            while i < words.len()
                invariant
                    i <= words@.len(),
                    out@.len() == i,
                    forall|j: int| 0 <= j < i ==> word_texts(out@)[j] == (#[trigger] words@[j])@,
                decreases words@.len() - i,
            {
                let ghost before = out@;
                out.push(
                    VerboseWord {
                        word: words[i].text.clone(),
                        start: words[i].start,
                        end: words[i].end,
                    },
                );
                assert forall|j: int| 0 <= j < i + 1 implies word_texts(out@)[j] == (
                #[trigger] words@[j])@ by {
                    if j < i {
                        assert(out@[j] == before[j]);
                        assert(word_texts(before)[j] == words@[j]@);
                    }
                }
                i += 1;
            }
            assert(word_texts(out@) =~= crate::segment_texts(words@));
            return out;
        }
    }
    interpolated_words(captions, times)
}

fn numbered_segments<T: Copy>(segments: &[TranscriptionSegment<T>]) -> (r: Vec<VerboseSegment<T>>)
    ensures
        segments_are(r@, crate::segment_texts(segments@)),
{
    let mut out: Vec<VerboseSegment<T>> = Vec::new();
    let mut i: usize = 0;
    while i < segments.len()
        invariant
            i <= segments@.len(),
            out@.len() == i,
            forall|j: int|
                0 <= j < i ==> {
                    &&& (#[trigger] out@[j]).id == j
                    &&& out@[j].seek == 0
                    &&& out@[j].start == segments@[j].start
                    &&& out@[j].end == segments@[j].end
                    &&& out@[j].text@ == segments@[j].text@
                },
        decreases segments@.len() - i,
    {
        out.push(
            VerboseSegment {
                id: i,
                seek: 0,
                start: segments[i].start,
                end: segments[i].end,
                text: segments[i].text.clone(),
            },
        );
        i += 1;
    }
    out
}

fn wants_words(granularities: &[TimestampGranularity]) -> (r: bool)
    ensures
        r == granularities@.contains(TimestampGranularity::Word),
{
    let mut i: usize = 0;
    while i < granularities.len()
        invariant
            i <= granularities@.len(),
            forall|j: int|
                0 <= j < i ==> (#[trigger] granularities@[j]) != TimestampGranularity::Word,
        decreases granularities@.len() - i,
    {
        if granularities[i] == TimestampGranularity::Word {
            assert(granularities@.contains(TimestampGranularity::Word));
            return true;
        }
        i += 1;
    }
    false
}

/// The verbose response for a transcription. It has words where they are
/// asked for, and is as long as its last caption, or as `whole` where it has
/// none. `times` holds the times of the words of each caption.
pub fn verbose_response<T: Copy>(
    response: Transcription<T>,
    timestamp_granularities: &[TimestampGranularity],
    zero: T,
    whole: T,
    times: &[Vec<T>],
) -> (r: VerboseTranscriptionResponse<T>)
    requires
        timestamp_granularities@.contains(TimestampGranularity::Word) ==> times_fit(
            captions(response@.segments, response@.text, zero, whole),
            times@,
        ),
    ensures
        ({
            let captions = captions(response@.segments, response@.text, zero, whole);
            &&& r.task@ == "transcribe"@
            &&& text::opt_text(r.language) == response@.language
            &&& r.text@ == response@.text
            &&& segments_are(r.segments@, captions)
            &&& r.duration == (if captions.len() > 0 {
                captions.last().end
            } else {
                whole
            })
            &&& match r.words {
                Some(words) => timestamp_granularities@.contains(TimestampGranularity::Word)
                    && word_texts(words@) == response_words(response@.words, captions, times@),
                None => !timestamp_granularities@.contains(TimestampGranularity::Word),
            }
        }),
{
    let captions = caption_segments(&response, zero, whole);
    let ghost all = crate::segment_texts(captions@);
    let segments = numbered_segments(captions.as_slice());
    let words = if wants_words(timestamp_granularities) {
        Some(verbose_words(&response, captions.as_slice(), times))
    } else {
        None
    };
    let n: usize = captions.len();
    assert(all.len() == n);
    let duration = if n > 0 {
        assert(all.last() == captions@[n - 1]@);
        captions[n - 1].end
    } else {
        whole
    };
    VerboseTranscriptionResponse {
        task: "transcribe",
        language: response.language,
        duration,
        text: response.text,
        segments,
        words,
    }
}

} // verus!
