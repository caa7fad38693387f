//! What endpoints support, and the requests that are made of them.

pub mod laws;

use vstd::prelude::*;

use crate::dictionary;
use crate::dictionary::{build_dictionary_prompt, sanitize_dictionary_entries, MAX_DICTIONARY_ENTRIES};
use crate::remote::address;
use crate::remote::address::is_self_hosted_host;
use crate::remote::ResponseFormat;
use crate::text;
use crate::TimestampGranularity;

verus! {

// ---------------------------------------------------------------------------
// Profiles
// ---------------------------------------------------------------------------

/// What an endpoint supports and how it wants to be asked.
#[derive(Debug, Clone, Copy, PartialEq, Eq)]
pub struct EndpointProfile {
    pub timestamp_mode: TimestampMode,
    pub dictionary_mode: DictionaryMode,
    pub sends_response_format: bool,
    pub sends_temperature: bool,
    pub duration_source: DurationSource,
    pub supports_word_timestamps: bool,
    pub keep_timestamps_on_format_fallback: bool,
    pub uploads_flac: bool,
    pub audio_request: AudioRequest,
    pub models_query: &'static str,
    pub diarization: Diarization,
    pub transcriptions_path: &'static str,
    /// Sends `format=true` for written-form numbers. Needs a language.
    pub sends_itn_format: bool,
    pub auth: AuthScheme,
    pub model_field: &'static str,
    pub language_field: &'static str,
    /// Options sent on every transcription request.
    pub fixed_params: &'static [(&'static str, &'static str)],
}

#[derive(Debug, Clone, Copy, PartialEq, Eq, Structural)]
pub enum Diarization {
    Unsupported,
    /// `diarize=true`, speakers come back on segments.
    SegmentSpeakers,
    /// `diarize=true`, speakers come back on words only.
    WordSpeakers,
    /// OpenAI: only `*-diarize` models, via `response_format=diarized_json`.
    DiarizedJson,
}

#[derive(Debug, Clone, Copy, PartialEq, Eq, Structural)]
pub enum AudioRequest {
    Multipart,
    Base64Json,
    /// Audio bytes as the body, options as query parameters.
    RawBody,
}

#[derive(Debug, Clone, Copy, PartialEq, Eq, Structural)]
pub enum AuthScheme {
    Bearer,
    Token,
    XiApiKey,
}

#[derive(Debug, Clone, Copy, PartialEq, Eq, Structural)]
pub enum TimestampMode {
    OpenAiVerboseJson,
    NativeGranularities,
    /// A single on/off option; times come back on words.
    WordTimings,
    Unsupported,
}

#[derive(Debug, Clone, Copy, PartialEq, Eq)]
pub enum DictionaryMode {
    Prompt,
    ContextBias,
    KeyTerms(KeyTermRules),
}

#[derive(Debug, Clone, Copy, PartialEq, Eq)]
pub struct KeyTermRules {
    pub field: &'static str,
    /// Only models starting with this accept key terms.
    pub model_prefix: &'static str,
    pub max_chars: usize,
    pub max_words: usize,
    pub max_total_chars: usize,
    pub rejected_chars: &'static [char],
}

#[derive(Debug, Clone, Copy, PartialEq, Eq, Structural)]
pub enum DurationSource {
    TopLevel,
    UsagePromptAudioSeconds,
}

/// The texts of a list of name and value pairs.
pub open spec fn fixed_pairs(v: Seq<(&'static str, &'static str)>) -> Seq<(Seq<char>, Seq<char>)> {
    Seq::new(v.len(), |i: int| (v[i].0@, v[i].1@))
}

/// Whether an endpoint returns speakers for a model.
pub open spec fn diarizes(diarization: Diarization, model: Seq<char>) -> bool {
    match diarization {
        Diarization::Unsupported => false,
        Diarization::SegmentSpeakers => true,
        Diarization::WordSpeakers => true,
        Diarization::DiarizedJson => text::contains_text(text::ascii_lower(model), "diarize"@),
    }
}

impl EndpointProfile {
    /// Whether the endpoint returns speakers for a model.
    pub fn supports_diarization(&self, model: &str) -> (r: bool)
        ensures
            r == diarizes(self.diarization, model@),
    {
        match self.diarization {
            Diarization::Unsupported => false,
            Diarization::SegmentSpeakers | Diarization::WordSpeakers => true,
            Diarization::DiarizedJson => {
                let lowered = text::to_ascii_lowercase(model);
                text::contains(lowered.as_str(), "diarize")
            },
        }
    }
}

/// Endpoints that speak the OpenAI protocol.
pub open spec fn is_openai_compatible(p: EndpointProfile, diarization: Diarization) -> bool {
    &&& p.timestamp_mode == TimestampMode::OpenAiVerboseJson
    &&& p.dictionary_mode is Prompt
    &&& p.sends_response_format == true
    &&& p.sends_temperature == true
    &&& p.duration_source == DurationSource::TopLevel
    &&& p.supports_word_timestamps == true
    &&& p.keep_timestamps_on_format_fallback == false
    &&& p.uploads_flac == true
    &&& p.audio_request == AudioRequest::Multipart
    &&& p.models_query@ == ""@
    &&& p.diarization == diarization
    &&& p.transcriptions_path@ == "/audio/transcriptions"@
    &&& p.sends_itn_format == false
    &&& p.auth == AuthScheme::Bearer
    &&& p.model_field@ == "model"@
    &&& p.language_field@ == "language"@
    &&& fixed_pairs(p.fixed_params@) =~= Seq::<(Seq<char>, Seq<char>)>::empty()
}

/// OpenAI-compatible servers on the local network.
pub open spec fn is_self_hosted_server(p: EndpointProfile) -> bool {
    &&& p.timestamp_mode == TimestampMode::OpenAiVerboseJson
    &&& p.dictionary_mode is Prompt
    &&& p.sends_response_format == true
    &&& p.sends_temperature == true
    &&& p.duration_source == DurationSource::TopLevel
    &&& p.supports_word_timestamps == false
    &&& p.keep_timestamps_on_format_fallback == true
    &&& p.uploads_flac == false
    &&& p.audio_request == AudioRequest::Multipart
    &&& p.models_query@ == ""@
    &&& p.diarization == Diarization::Unsupported
    &&& p.transcriptions_path@ == "/audio/transcriptions"@
    &&& p.sends_itn_format == false
    &&& p.auth == AuthScheme::Bearer
    &&& p.model_field@ == "model"@
    &&& p.language_field@ == "language"@
    &&& fixed_pairs(p.fixed_params@) =~= Seq::<(Seq<char>, Seq<char>)>::empty()
}

/// Mistral.
pub open spec fn is_mistral(p: EndpointProfile) -> bool {
    &&& p.timestamp_mode == TimestampMode::NativeGranularities
    &&& p.dictionary_mode is ContextBias
    &&& p.sends_response_format == false
    &&& p.sends_temperature == false
    &&& p.duration_source == DurationSource::UsagePromptAudioSeconds
    &&& p.supports_word_timestamps == false
    &&& p.keep_timestamps_on_format_fallback == true
    &&& p.uploads_flac == true
    &&& p.audio_request == AudioRequest::Multipart
    &&& p.models_query@ == ""@
    &&& p.diarization == Diarization::SegmentSpeakers
    &&& p.transcriptions_path@ == "/audio/transcriptions"@
    &&& p.sends_itn_format == false
    &&& p.auth == AuthScheme::Bearer
    &&& p.model_field@ == "model"@
    &&& p.language_field@ == "language"@
    &&& fixed_pairs(p.fixed_params@) =~= Seq::<(Seq<char>, Seq<char>)>::empty()
}

/// OpenRouter.
pub open spec fn is_openrouter(p: EndpointProfile) -> bool {
    &&& p.timestamp_mode == TimestampMode::Unsupported
    &&& p.dictionary_mode is Prompt
    &&& p.sends_response_format == false
    &&& p.sends_temperature == false
    &&& p.duration_source == DurationSource::TopLevel
    &&& p.supports_word_timestamps == false
    &&& p.keep_timestamps_on_format_fallback == false
    &&& p.uploads_flac == false
    &&& p.audio_request == AudioRequest::Base64Json
    &&& p.models_query@ == "?output_modalities=transcription"@
    &&& p.diarization == Diarization::Unsupported
    &&& p.transcriptions_path@ == "/audio/transcriptions"@
    &&& p.sends_itn_format == false
    &&& p.auth == AuthScheme::Bearer
    &&& p.model_field@ == "model"@
    &&& p.language_field@ == "language"@
    &&& fixed_pairs(p.fixed_params@) =~= Seq::<(Seq<char>, Seq<char>)>::empty()
}

/// xAI. Words always come back, so there is nothing to request.
pub open spec fn is_xai(p: EndpointProfile) -> bool {
    &&& p.timestamp_mode == TimestampMode::Unsupported
    &&& p.dictionary_mode matches DictionaryMode::KeyTerms(rules) && {
        &&& rules.field@ == "keyterm"@
        &&& rules.model_prefix@ == ""@
        &&& rules.max_chars == 50
        &&& rules.max_words == usize::MAX
        &&& rules.max_total_chars == usize::MAX
        &&& rules.rejected_chars@ =~= Seq::<char>::empty()
    }
    &&& p.sends_response_format == false
    &&& p.sends_temperature == false
    &&& p.duration_source == DurationSource::TopLevel
    &&& p.supports_word_timestamps == true
    &&& p.keep_timestamps_on_format_fallback == false
    &&& p.uploads_flac == true
    &&& p.audio_request == AudioRequest::Multipart
    &&& p.models_query@ == ""@
    &&& p.diarization == Diarization::WordSpeakers
    &&& p.transcriptions_path@ == "/stt"@
    &&& p.sends_itn_format == true
    &&& p.auth == AuthScheme::Bearer
    &&& p.model_field@ == "model"@
    &&& p.language_field@ == "language"@
    &&& fixed_pairs(p.fixed_params@) =~= Seq::<(Seq<char>, Seq<char>)>::empty()
}

/// ElevenLabs. Spacing and audio events arrive as entries next to the words.
pub open spec fn is_elevenlabs(p: EndpointProfile) -> bool {
    &&& p.timestamp_mode == TimestampMode::WordTimings
    &&& p.dictionary_mode matches DictionaryMode::KeyTerms(rules) && {
        &&& rules.field@ == "keyterms"@
        &&& rules.model_prefix@ == "scribe_v2"@
        &&& rules.max_chars == 49
        &&& rules.max_words == 5
        &&& rules.max_total_chars == usize::MAX
        &&& rules.rejected_chars@ =~= seq!['<', '>', '{', '}', '[', ']', '\\']
    }
    &&& p.sends_response_format == false
    &&& p.sends_temperature == false
    &&& p.duration_source == DurationSource::TopLevel
    &&& p.supports_word_timestamps == true
    &&& p.keep_timestamps_on_format_fallback == false
    &&& p.uploads_flac == true
    &&& p.audio_request == AudioRequest::Multipart
    &&& p.models_query@ == ""@
    &&& p.diarization == Diarization::WordSpeakers
    &&& p.transcriptions_path@ == "/speech-to-text"@
    &&& p.sends_itn_format == false
    &&& p.auth == AuthScheme::XiApiKey
    &&& p.model_field@ == "model_id"@
    &&& p.language_field@ == "language_code"@
    &&& fixed_pairs(p.fixed_params@) =~= seq![("tag_audio_events"@, "false"@)]
}

/// Deepgram. Words always come back; utterances add timed segments with
/// speakers. The limit is 500 tokens across all key terms; over it the request
/// fails.
pub open spec fn is_deepgram(p: EndpointProfile) -> bool {
    &&& p.timestamp_mode == TimestampMode::WordTimings
    &&& p.dictionary_mode matches DictionaryMode::KeyTerms(rules) && {
        &&& rules.field@ == "keyterm"@
        &&& rules.model_prefix@ == "nova-3"@
        &&& rules.max_chars == 50
        &&& rules.max_words == usize::MAX
        &&& rules.max_total_chars == 500
        &&& rules.rejected_chars@ =~= Seq::<char>::empty()
    }
    &&& p.sends_response_format == false
    &&& p.sends_temperature == false
    &&& p.duration_source == DurationSource::TopLevel
    &&& p.supports_word_timestamps == true
    &&& p.keep_timestamps_on_format_fallback == false
    &&& p.uploads_flac == true
    &&& p.audio_request == AudioRequest::RawBody
    &&& p.models_query@ == ""@
    &&& p.diarization == Diarization::SegmentSpeakers
    &&& p.transcriptions_path@ == "/listen"@
    &&& p.sends_itn_format == false
    &&& p.auth == AuthScheme::Token
    &&& p.model_field@ == "model"@
    &&& p.language_field@ == "language"@
    &&& fixed_pairs(p.fixed_params@) =~= seq![("smart_format"@, "true"@), ("punctuate"@, "true"@)]
}

fn openai_compatible(diarization: Diarization) -> (r: EndpointProfile)
    ensures
        is_openai_compatible(r, diarization),
{
    EndpointProfile {
        timestamp_mode: TimestampMode::OpenAiVerboseJson,
        dictionary_mode: DictionaryMode::Prompt,
        sends_response_format: true,
        sends_temperature: true,
        duration_source: DurationSource::TopLevel,
        supports_word_timestamps: true,
        keep_timestamps_on_format_fallback: false,
        uploads_flac: true,
        audio_request: AudioRequest::Multipart,
        models_query: "",
        diarization,
        transcriptions_path: "/audio/transcriptions",
        sends_itn_format: false,
        auth: AuthScheme::Bearer,
        model_field: "model",
        language_field: "language",
        fixed_params: &[],
    }
}

fn self_hosted_server() -> (r: EndpointProfile)
    ensures
        is_self_hosted_server(r),
{
    EndpointProfile {
        timestamp_mode: TimestampMode::OpenAiVerboseJson,
        dictionary_mode: DictionaryMode::Prompt,
        sends_response_format: true,
        sends_temperature: true,
        duration_source: DurationSource::TopLevel,
        supports_word_timestamps: false,
        keep_timestamps_on_format_fallback: true,
        uploads_flac: false,
        audio_request: AudioRequest::Multipart,
        models_query: "",
        diarization: Diarization::Unsupported,
        transcriptions_path: "/audio/transcriptions",
        sends_itn_format: false,
        auth: AuthScheme::Bearer,
        model_field: "model",
        language_field: "language",
        fixed_params: &[],
    }
}

fn mistral() -> (r: EndpointProfile)
    ensures
        is_mistral(r),
{
    EndpointProfile {
        timestamp_mode: TimestampMode::NativeGranularities,
        dictionary_mode: DictionaryMode::ContextBias,
        sends_response_format: false,
        sends_temperature: false,
        duration_source: DurationSource::UsagePromptAudioSeconds,
        supports_word_timestamps: false,
        keep_timestamps_on_format_fallback: true,
        uploads_flac: true,
        audio_request: AudioRequest::Multipart,
        models_query: "",
        diarization: Diarization::SegmentSpeakers,
        transcriptions_path: "/audio/transcriptions",
        sends_itn_format: false,
        auth: AuthScheme::Bearer,
        model_field: "model",
        language_field: "language",
        fixed_params: &[],
    }
}

fn openrouter() -> (r: EndpointProfile)
    ensures
        is_openrouter(r),
{
    EndpointProfile {
        timestamp_mode: TimestampMode::Unsupported,
        dictionary_mode: DictionaryMode::Prompt,
        sends_response_format: false,
        sends_temperature: false,
        duration_source: DurationSource::TopLevel,
        supports_word_timestamps: false,
        keep_timestamps_on_format_fallback: false,
        uploads_flac: false,
        audio_request: AudioRequest::Base64Json,
        models_query: "?output_modalities=transcription",
        diarization: Diarization::Unsupported,
        transcriptions_path: "/audio/transcriptions",
        sends_itn_format: false,
        auth: AuthScheme::Bearer,
        model_field: "model",
        language_field: "language",
        fixed_params: &[],
    }
}

fn xai() -> (r: EndpointProfile)
    ensures
        is_xai(r),
{
    EndpointProfile {
        timestamp_mode: TimestampMode::Unsupported,
        dictionary_mode: DictionaryMode::KeyTerms(
            KeyTermRules {
                field: "keyterm",
                model_prefix: "",
                max_chars: 50,
                max_words: usize::MAX,
                max_total_chars: usize::MAX,
                rejected_chars: &[],
            },
        ),
        sends_response_format: false,
        sends_temperature: false,
        duration_source: DurationSource::TopLevel,
        supports_word_timestamps: true,
        keep_timestamps_on_format_fallback: false,
        uploads_flac: true,
        audio_request: AudioRequest::Multipart,
        models_query: "",
        diarization: Diarization::WordSpeakers,
        transcriptions_path: "/stt",
        sends_itn_format: true,
        auth: AuthScheme::Bearer,
        model_field: "model",
        language_field: "language",
        fixed_params: &[],
    }
}

fn elevenlabs() -> (r: EndpointProfile)
    ensures
        is_elevenlabs(r),
{
    EndpointProfile {
        timestamp_mode: TimestampMode::WordTimings,
        dictionary_mode: DictionaryMode::KeyTerms(
            KeyTermRules {
                field: "keyterms",
                model_prefix: "scribe_v2",
                max_chars: 49,
                max_words: 5,
                max_total_chars: usize::MAX,
                rejected_chars: &['<', '>', '{', '}', '[', ']', '\\'],
            },
        ),
        sends_response_format: false,
        sends_temperature: false,
        duration_source: DurationSource::TopLevel,
        supports_word_timestamps: true,
        keep_timestamps_on_format_fallback: false,
        uploads_flac: true,
        audio_request: AudioRequest::Multipart,
        models_query: "",
        diarization: Diarization::WordSpeakers,
        transcriptions_path: "/speech-to-text",
        sends_itn_format: false,
        auth: AuthScheme::XiApiKey,
        model_field: "model_id",
        language_field: "language_code",
        fixed_params: &[("tag_audio_events", "false")],
    }
}

fn deepgram() -> (r: EndpointProfile)
    ensures
        is_deepgram(r),
{
    EndpointProfile {
        timestamp_mode: TimestampMode::WordTimings,
        dictionary_mode: DictionaryMode::KeyTerms(
            KeyTermRules {
                field: "keyterm",
                model_prefix: "nova-3",
                max_chars: 50,
                max_words: usize::MAX,
                max_total_chars: 500,
                rejected_chars: &[],
            },
        ),
        sends_response_format: false,
        sends_temperature: false,
        duration_source: DurationSource::TopLevel,
        supports_word_timestamps: true,
        keep_timestamps_on_format_fallback: false,
        uploads_flac: true,
        audio_request: AudioRequest::RawBody,
        models_query: "",
        diarization: Diarization::SegmentSpeakers,
        transcriptions_path: "/listen",
        sends_itn_format: false,
        auth: AuthScheme::Token,
        model_field: "model",
        language_field: "language",
        fixed_params: &[("smart_format", "true"), ("punctuate", "true")],
    }
}

/// Whether a host is `suffix` or lies under it.
pub open spec fn host_under(host: Seq<char>, suffix: Seq<char>) -> bool {
    ||| host == suffix
    ||| text::finishes_with(host, suffix) && host.len() > suffix.len() && host[host.len()
        - suffix.len() - 1] == '.'
}

/// Whether `p` is the profile of a host.
pub open spec fn is_profile_of(host: Option<Seq<char>>, p: EndpointProfile) -> bool {
    match host {
        None => is_openai_compatible(p, Diarization::Unsupported),
        Some(h) => if host_under(h, "mistral.ai"@) {
            is_mistral(p)
        } else if host_under(h, "openrouter.ai"@) {
            is_openrouter(p)
        } else if host_under(h, "x.ai"@) {
            is_xai(p)
        } else if host_under(h, "openai.com"@) {
            is_openai_compatible(p, Diarization::DiarizedJson)
        } else if host_under(h, "fireworks.ai"@) {
            is_openai_compatible(p, Diarization::WordSpeakers)
        } else if host_under(h, "elevenlabs.io"@) {
            is_elevenlabs(p)
        } else if host_under(h, "deepgram.com"@) {
            is_deepgram(p)
        } else if address::self_hosted(h) {
            is_self_hosted_server(p)
        } else {
            is_openai_compatible(p, Diarization::Unsupported)
        },
    }
}

fn host_matches(host: &str, suffix: &str) -> (r: bool)
    ensures
        r == host_under(host@, suffix@),
{
    if text::same(host, suffix) {
        return true;
    }
    if !text::ends_with(host, suffix) {
        return false;
    }
    let x = text::chars_of(host);
    let y = text::chars_of(suffix);
    x.len() > y.len() && x[x.len() - y.len() - 1] == '.'
}

/// The profile of a host.
pub fn profile_for_host(host: Option<&str>) -> (r: EndpointProfile)
    ensures
        is_profile_of(text::opt_str(host), r),
{
    match host {
        None => openai_compatible(Diarization::Unsupported),
        Some(host) => {
            if host_matches(host, "mistral.ai") {
                mistral()
            } else if host_matches(host, "openrouter.ai") {
                openrouter()
            } else if host_matches(host, "x.ai") {
                xai()
            } else if host_matches(host, "openai.com") {
                openai_compatible(Diarization::DiarizedJson)
            } else if host_matches(host, "fireworks.ai") {
                // Diarization needs verbose_json with word timestamps, and
                // speakers land on words.
                openai_compatible(Diarization::WordSpeakers)
            } else if host_matches(host, "elevenlabs.io") {
                elevenlabs()
            } else if host_matches(host, "deepgram.com") {
                deepgram()
            } else if is_self_hosted_host(host) {
                self_hosted_server()
            } else {
                openai_compatible(Diarization::Unsupported)
            }
        },
    }
}

/// The host that `url::Url::parse` finds in a text: `None` where the text is
/// no URL, `Some(None)` where the URL has no host.
pub uninterp spec fn url_host(url: Seq<char>) -> Option<Option<Seq<char>>>;

/// `url::Url::parse` and `url::Url::host_str`: whether a text is an absolute
/// URL, and its host. Both depend on the text alone.
#[verifier::external_body]
fn parse_url_host(url: &str) -> (r: Option<Option<String>>)
    ensures
        match r {
            None => url_host(url@) is None,
            Some(host) => url_host(url@) == Some(text::opt_text(host)),
        },
{
    let parsed = reqwest::Url::parse(url).ok()?;
    Some(parsed.host_str().map(String::from))
}

/// The host of an endpoint, with or without a scheme, in lower case.
pub open spec fn endpoint_host(endpoint: Seq<char>) -> Option<Seq<char>> {
    let e = text::ascii_lower(text::trimmed(endpoint));
    let parsed = if url_host(e) is Some {
        url_host(e)
    } else {
        url_host("https://"@ + e)
    };
    match parsed {
        Some(Some(host)) => Some(text::ascii_lower(host)),
        _ => None,
    }
}

/// The profile of an endpoint.
pub fn resolve_profile(endpoint: &str) -> (r: EndpointProfile)
    ensures
        is_profile_of(endpoint_host(endpoint@), r),
{
    let trimmed = text::trim(endpoint);
    let lowered = text::to_ascii_lowercase(trimmed.as_str());
    let parsed = match parse_url_host(lowered.as_str()) {
        Some(host) => Some(host),
        None => {
            let schemed = text::concat2("https://", lowered.as_str());
            parse_url_host(schemed.as_str())
        },
    };
    match parsed {
        Some(Some(host)) => {
            let host = text::to_ascii_lowercase(host.as_str());
            profile_for_host(Some(host.as_str()))
        },
        _ => profile_for_host(None),
    }
}

/// How the endpoint of a host returns speakers.
pub open spec fn diarization_of(host: Option<Seq<char>>) -> Diarization {
    match host {
        None => Diarization::Unsupported,
        Some(h) => if host_under(h, "mistral.ai"@) {
            Diarization::SegmentSpeakers
        } else if host_under(h, "openrouter.ai"@) {
            Diarization::Unsupported
        } else if host_under(h, "x.ai"@) {
            Diarization::WordSpeakers
        } else if host_under(h, "openai.com"@) {
            Diarization::DiarizedJson
        } else if host_under(h, "fireworks.ai"@) {
            Diarization::WordSpeakers
        } else if host_under(h, "elevenlabs.io"@) {
            Diarization::WordSpeakers
        } else if host_under(h, "deepgram.com"@) {
            Diarization::SegmentSpeakers
        } else {
            Diarization::Unsupported
        },
    }
}

// ---------------------------------------------------------------------------
// Request plans
// ---------------------------------------------------------------------------

/// What is asked for in a request.
#[derive(Debug, Clone, PartialEq, Eq)]
pub struct RequestPlan {
    pub response_format: ResponseFormat,
    pub timestamp_granularities: Vec<&'static str>,
}

/// Whether times are asked for, and how fine, once speakers are accounted
/// for.
pub open spec fn wanted_times(
    diarization: Diarization,
    wants_timestamps: bool,
    granularity: Option<TimestampGranularity>,
    diarize: bool,
) -> (bool, Option<TimestampGranularity>) {
    if !diarize {
        (wants_timestamps, granularity)
    } else {
        match diarization {
            Diarization::Unsupported => (wants_timestamps, granularity),
            Diarization::SegmentSpeakers => (
                true,
                if granularity is Some {
                    granularity
                } else {
                    Some(TimestampGranularity::Segment)
                },
            ),
            Diarization::WordSpeakers => (true, Some(TimestampGranularity::Word)),
            Diarization::DiarizedJson => (false, None),
        }
    }
}

/// Whether a request asks for times.
pub open spec fn plans_times(
    p: EndpointProfile,
    wants_timestamps: bool,
    granularity: Option<TimestampGranularity>,
    diarize: bool,
) -> bool {
    wanted_times(p.diarization, wants_timestamps, granularity, diarize).0 && p.timestamp_mode
        != TimestampMode::Unsupported
}

/// The granularities that a request asks for.
pub open spec fn planned_granularities(
    p: EndpointProfile,
    wants_timestamps: bool,
    granularity: Option<TimestampGranularity>,
    diarize: bool,
) -> Seq<Seq<char>> {
    if !plans_times(p, wants_timestamps, granularity, diarize) {
        seq![]
    } else if wanted_times(p.diarization, wants_timestamps, granularity, diarize).1 == Some(
        TimestampGranularity::Word,
    ) && p.supports_word_timestamps {
        seq!["segment"@, "word"@]
    } else {
        seq!["segment"@]
    }
}

/// The response format that a request asks for.
pub open spec fn planned_format(
    p: EndpointProfile,
    wants_timestamps: bool,
    granularity: Option<TimestampGranularity>,
    diarize: bool,
) -> ResponseFormat {
    if plans_times(p, wants_timestamps, granularity, diarize) && p.sends_response_format
        && p.timestamp_mode == TimestampMode::OpenAiVerboseJson {
        ResponseFormat::VerboseJson
    } else {
        ResponseFormat::Json
    }
}

/// Decides which format and which times a request asks for.
pub fn plan_request(
    profile: &EndpointProfile,
    wants_timestamps: bool,
    granularity: Option<TimestampGranularity>,
    diarize: bool,
) -> (r: RequestPlan)
    ensures
        r.response_format == planned_format(*profile, wants_timestamps, granularity, diarize),
        text::strs(r.timestamp_granularities@) == planned_granularities(
            *profile,
            wants_timestamps,
            granularity,
            diarize,
        ),
{
    let (times, fine) = if !diarize {
        (wants_timestamps, granularity)
    } else {
        match profile.diarization {
            Diarization::Unsupported => (wants_timestamps, granularity),
            Diarization::SegmentSpeakers => (
                true,
                match granularity {
                    Some(g) => Some(g),
                    None => Some(TimestampGranularity::Segment),
                },
            ),
            Diarization::WordSpeakers => (true, Some(TimestampGranularity::Word)),
            // diarized_json rejects timestamp_granularities; its segments
            // carry times.
            Diarization::DiarizedJson => (false, None),
        }
    };
    let mut granularities: Vec<&'static str> = Vec::new();
    if !times || profile.timestamp_mode == TimestampMode::Unsupported {
        assert(text::strs(granularities@) =~= Seq::<Seq<char>>::empty());
        return RequestPlan {
            response_format: ResponseFormat::Json,
            timestamp_granularities: granularities,
        };
    }
    granularities.push("segment");
    let by_word = match fine {
        Some(TimestampGranularity::Word) => profile.supports_word_timestamps,
        _ => false,
    };
    if by_word {
        granularities.push("word");
        assert(text::strs(granularities@) =~= seq!["segment"@, "word"@]);
    } else {
        assert(text::strs(granularities@) =~= seq!["segment"@]);
    }
    let response_format = if profile.sends_response_format && profile.timestamp_mode
        == TimestampMode::OpenAiVerboseJson {
        ResponseFormat::VerboseJson
    } else {
        ResponseFormat::Json
    };
    RequestPlan { response_format, timestamp_granularities: granularities }
}

/// A caller who wants no times and no speakers gets plain JSON without times,
/// from every endpoint.
pub proof fn law_opting_out_of_times(
    p: EndpointProfile,
    granularity: Option<TimestampGranularity>,
)
    ensures
        planned_format(p, false, granularity, false) == ResponseFormat::Json,
        planned_granularities(p, false, granularity, false) == Seq::<Seq<char>>::empty(),
{
}

/// Word times are asked only of endpoints that have them, and never without
/// segment times.
pub proof fn law_word_times_need_support(
    p: EndpointProfile,
    wants_timestamps: bool,
    granularity: Option<TimestampGranularity>,
    diarize: bool,
)
    ensures
        planned_granularities(p, wants_timestamps, granularity, diarize).len() == 2
            ==> p.supports_word_timestamps,
        planned_granularities(p, wants_timestamps, granularity, diarize).len() > 0
            ==> planned_granularities(p, wants_timestamps, granularity, diarize)[0] == "segment"@,
        planned_format(p, wants_timestamps, granularity, diarize) == ResponseFormat::VerboseJson
            ==> planned_granularities(p, wants_timestamps, granularity, diarize).len() > 0,
{
}

// ---------------------------------------------------------------------------
// Key terms and prompts
// ---------------------------------------------------------------------------

/// Whether a term is within the limits of an endpoint.
pub open spec fn term_allowed(rules: KeyTermRules, term: Seq<char>) -> bool {
    &&& term.len() <= rules.max_chars
    &&& text::words(term).len() <= rules.max_words
    &&& forall|i: int|
        0 <= i < term.len() ==> !rules.rejected_chars@.contains(#[trigger] term[i])
}

/// The characters of several terms.
pub open spec fn total_chars(terms: Seq<Seq<char>>) -> nat
    decreases terms.len(),
{
    if terms.len() == 0 {
        0
    } else {
        total_chars(terms.drop_last()) + terms.last().len()
    }
}

/// The allowed terms, up to the first that exceeds the limit on all of them;
/// and whether there was one.
pub open spec fn kept_terms(rules: KeyTermRules, terms: Seq<Seq<char>>) -> (Seq<Seq<char>>, bool)
    decreases terms.len(),
{
    if terms.len() == 0 {
        (seq![], false)
    } else {
        let (before, full) = kept_terms(rules, terms.drop_last());
        if full || !term_allowed(rules, terms.last()) {
            (before, full)
        } else if total_chars(before) + terms.last().len() > rules.max_total_chars {
            (before, true)
        } else {
            (before.push(terms.last()), false)
        }
    }
}

/// The key terms that are sent for a dictionary.
pub open spec fn key_terms(rules: KeyTermRules, model: Seq<char>, entries: Seq<Seq<char>>) -> Seq<
    Seq<char>,
> {
    if text::begins_with(text::ascii_lower(model), rules.model_prefix@) {
        kept_terms(rules, dictionary::sanitized(entries)).0
    } else {
        seq![]
    }
}

fn has_rejected_char(term: &[char], rejected: &[char]) -> (r: bool)
    ensures
        r == exists|i: int| 0 <= i < term@.len() && rejected@.contains(#[trigger] term@[i]),
{
    let mut i: usize = 0;
    while i < term.len()
        invariant
            i <= term@.len(),
            forall|j: int| 0 <= j < i ==> !rejected@.contains(#[trigger] term@[j]),
        decreases term@.len() - i,
    {
        let mut k: usize = 0;
        while k < rejected.len()
            invariant
                i < term@.len(),
                k <= rejected@.len(),
                forall|j: int| 0 <= j < k ==> rejected@[j] != term@[i as int],
            decreases rejected@.len() - k,
        {
            if rejected[k] == term[i] {
                assert(rejected@.contains(term@[i as int]));
                return true;
            }
            k += 1;
        }
        assert(!rejected@.contains(term@[i as int]));
        i += 1;
    }
    false
}

impl KeyTermRules {
    fn allows(&self, term: &str) -> (r: bool)
        ensures
            r == term_allowed(*self, term@),
    {
        let x = text::chars_of(term);
        let words = text::split_whitespace(term);
        assert(text::texts(words@).len() == words@.len());
        x.len() <= self.max_chars && words.len() <= self.max_words && !has_rejected_char(
            x.as_slice(),
            self.rejected_chars,
        )
    }

    /// The key terms that are sent for a dictionary.
    pub fn terms(&self, model: &str, dictionary: &[String]) -> (r: Vec<String>)
        ensures
            text::texts(r@) == key_terms(*self, model@, text::texts(dictionary@)),
    {
        broadcast use text::lemma_texts_push;

        let lowered = text::to_ascii_lowercase(model);
        let mut out: Vec<String> = Vec::new();
        if !text::starts_with(lowered.as_str(), self.model_prefix) {
            assert(text::texts(out@) =~= Seq::<Seq<char>>::empty());
            return out;
        }
        let cleaned = sanitize_dictionary_entries(dictionary);
        let ghost all = text::texts(cleaned@);
        proof {
            dictionary::law_terms_are_bounded(text::texts(dictionary@));
            assert(text::texts(out@) =~= Seq::<Seq<char>>::empty());
        }
        let mut total: usize = 0;
        let mut i: usize = 0;
        while i < cleaned.len()
            invariant
                all == text::texts(cleaned@),
                all == dictionary::sanitized(text::texts(dictionary@)),
                text::begins_with(text::ascii_lower(model@), self.model_prefix@),
                all.len() <= 64,
                forall|j: int| 0 <= j < all.len() ==> 0 < (#[trigger] all[j]).len() <= 160,
                i <= cleaned@.len(),
                total <= 160 * i,
                total == total_chars(text::texts(out@)),
                kept_terms(*self, all.take(i as int)) == (text::texts(out@), false),
            decreases cleaned@.len() - i,
        {
            let ghost next = all.take(i + 1);
            proof {
                assert(next.drop_last() =~= all.take(i as int));
                assert(next.last() == all[i as int]);
                assert(all[i as int] == cleaned@[i as int]@);
            }
            if self.allows(cleaned[i].as_str()) {
                let x = text::chars_of(cleaned[i].as_str());
                if total + x.len() > self.max_total_chars {
                    proof {
                        lemma_kept_terms_full(*self, all, i + 1);
                    }
                    return out;
                }
                total = total + x.len();
                let ghost before = text::texts(out@);
                out.push(cleaned[i].clone());
                proof {
                    assert(text::texts(out@) =~= before.push(all[i as int]));
                    assert(text::texts(out@).drop_last() =~= before);
                }
            }
            i += 1;
        }
        assert(all.take(i as int) =~= all);
        out
    }
}

proof fn lemma_kept_terms_full(rules: KeyTermRules, terms: Seq<Seq<char>>, k: int)
    requires
        0 <= k <= terms.len(),
        kept_terms(rules, terms.take(k)).1,
    ensures
        kept_terms(rules, terms) == kept_terms(rules, terms.take(k)),
    decreases terms.len() - k,
{
    if k == terms.len() {
        assert(terms.take(k) =~= terms);
    } else {
        assert(terms.take(k + 1).drop_last() =~= terms.take(k));
        lemma_kept_terms_full(rules, terms, k + 1);
    }
}

/// Key terms keep within all the limits of an endpoint.
pub proof fn law_key_terms_are_within_limits(
    rules: KeyTermRules,
    model: Seq<char>,
    entries: Seq<Seq<char>>,
)
    ensures
        total_chars(key_terms(rules, model, entries)) <= rules.max_total_chars,
        forall|i: int|
            0 <= i < key_terms(rules, model, entries).len() ==> term_allowed(
                rules,
                #[trigger] key_terms(rules, model, entries)[i],
            ),
{
    lemma_kept_terms_within(rules, dictionary::sanitized(entries));
}

proof fn lemma_kept_terms_within(rules: KeyTermRules, terms: Seq<Seq<char>>)
    ensures
        total_chars(kept_terms(rules, terms).0) <= rules.max_total_chars,
        forall|i: int|
            0 <= i < kept_terms(rules, terms).0.len() ==> term_allowed(
                rules,
                #[trigger] kept_terms(rules, terms).0[i],
            ),
    decreases terms.len(),
{
    if terms.len() > 0 {
        lemma_kept_terms_within(rules, terms.drop_last());
        let before = kept_terms(rules, terms.drop_last()).0;
        assert(before.push(terms.last()).drop_last() =~= before);
    }
}

/// The words of several terms, in order.
pub open spec fn term_words(terms: Seq<Seq<char>>) -> Seq<Seq<char>>
    decreases terms.len(),
{
    if terms.len() == 0 {
        seq![]
    } else {
        term_words(terms.drop_last()) + text::words(terms.last())
    }
}

/// The first words that differ by more than letter case, as many as a
/// dictionary may have entries.
pub open spec fn distinct_words(words: Seq<Seq<char>>) -> Seq<Seq<char>>
    decreases words.len(),
{
    if words.len() == 0 {
        seq![]
    } else {
        let before = distinct_words(words.drop_last());
        if before.len() < MAX_DICTIONARY_ENTRIES && (forall|j: int|
            0 <= j < words.len() - 1 ==> text::lowercase(#[trigger] words[j]) != text::lowercase(
                words.last(),
            )) {
            before.push(words.last())
        } else {
            before
        }
    }
}

/// The words that a transcription is biased to.
pub open spec fn bias_words(entries: Seq<Seq<char>>) -> Seq<Seq<char>> {
    distinct_words(term_words(dictionary::sanitized(entries)))
}

fn all_term_words(terms: &[String]) -> (r: Vec<String>)
    ensures
        text::texts(r@) == term_words(text::texts(terms@)),
{
    broadcast use text::lemma_texts_push;

    let ghost all = text::texts(terms@);
    let mut out: Vec<String> = Vec::new();
    let mut i: usize = 0;
    assert(text::texts(out@) =~= Seq::<Seq<char>>::empty());
    while i < terms.len()
        invariant
            all == text::texts(terms@),
            i <= terms@.len(),
            text::texts(out@) == term_words(all.take(i as int)),
        decreases terms@.len() - i,
    {
        let words = text::split_whitespace(terms[i].as_str());
        let ghost ws = text::texts(words@);
        let ghost before = text::texts(out@);
        proof {
            assert(all.take(i + 1).drop_last() =~= all.take(i as int));
            assert(all.take(i + 1).last() == terms@[i as int]@);
            assert(before + ws.take(0) =~= before);
        }
        let mut k: usize = 0;
        while k < words.len()
            invariant
                ws == text::texts(words@),
                k <= words@.len(),
                text::texts(out@) == before + ws.take(k as int),
            decreases words@.len() - k,
        {
            out.push(words[k].clone());
            assert((before + ws.take(k as int)).push(ws[k as int]) =~= before + ws.take(k + 1));
            k += 1;
        }
        assert(ws.take(k as int) =~= ws);
        i += 1;
    }
    assert(all.take(i as int) =~= all);
    out
}

/// The lower-case forms of several words.
spec fn lowered_words(words: Seq<Seq<char>>) -> Seq<Seq<char>> {
    Seq::new(words.len(), |i: int| text::lowercase(words[i]))
}

/// The words that a transcription is biased to.
pub fn context_bias(dictionary: &[String]) -> (r: Vec<String>)
    ensures
        text::texts(r@) == bias_words(text::texts(dictionary@)),
{
    broadcast use text::lemma_texts_push;

    let cleaned = sanitize_dictionary_entries(dictionary);
    let tokens = all_term_words(cleaned.as_slice());
    let ghost all = text::texts(tokens@);
    let mut seen: Vec<String> = Vec::new();
    let mut out: Vec<String> = Vec::new();
    let mut i: usize = 0;
    proof {
        assert(text::texts(out@) =~= Seq::<Seq<char>>::empty());
        assert(text::texts(seen@) =~= lowered_words(all.take(0)));
    }
    while i < tokens.len()
        invariant
            all == text::texts(tokens@),
            i <= tokens@.len(),
            text::texts(seen@) == lowered_words(all.take(i as int)),
            text::texts(out@) == distinct_words(all.take(i as int)),
        decreases tokens@.len() - i,
    {
        let lowered = tokens[i].as_str().to_lowercase();
        let known = text::list_contains(seen.as_slice(), lowered.as_str());
        let ghost next = all.take(i + 1);
        let ghost before = lowered_words(all.take(i as int));
        proof {
            assert(next.drop_last() =~= all.take(i as int));
            assert(next.last() == tokens@[i as int]@);
            assert(text::texts(out@).len() == out@.len());
            assert forall|j: int| 0 <= j < i implies before[j] == text::lowercase(
                #[trigger] next[j],
            ) by {
                assert(next[j] == all.take(i as int)[j]);
            }
            if known {
                let j = choose|j: int| 0 <= j < before.len() && before[j] == lowered@;
                assert(text::lowercase(next[j]) == lowered@);
            } else {
                assert forall|j: int| 0 <= j < next.len() - 1 implies text::lowercase(
                    #[trigger] next[j],
                ) != lowered@ by {
                    assert(before[j] == text::lowercase(next[j]));
                    assert(before.contains(before[j]));
                }
            }
            assert(before.push(lowered@) =~= lowered_words(next));
        }
        seen.push(lowered);
        if !known && out.len() < MAX_DICTIONARY_ENTRIES {
            out.push(tokens[i].clone());
        }
        i += 1;
    }
    assert(all.take(i as int) =~= all);
    out
}

/// The prompt for an endpoint that takes its terms in the prompt.
pub open spec fn composed_prompt(extra: Option<Seq<char>>, terms: Option<Seq<char>>) -> Option<
    Seq<char>,
> {
    let asked = match terms {
        Some(t) => Some(
            "Prefer these names, product terms, and spellings when they are spoken: "@ + t,
        ),
        None => None,
    };
    match (extra, asked) {
        (Some(e), Some(d)) => Some(e + "\n\n"@ + d),
        (Some(e), None) => Some(e),
        (None, Some(d)) => Some(d),
        (None, None) => None,
    }
}

/// The prompt for an endpoint that takes its terms in the prompt.
pub fn compose_openai_prompt(extra: Option<&str>, dictionary_terms: Option<&str>) -> (r: Option<
    String,
>)
    ensures
        text::opt_text(r) == composed_prompt(
            text::opt_str(extra),
            text::opt_str(dictionary_terms),
        ),
{
    let asked = match dictionary_terms {
        Some(terms) => Some(
            text::concat2(
                "Prefer these names, product terms, and spellings when they are spoken: ",
                terms,
            ),
        ),
        None => None,
    };
    match (extra, asked) {
        (Some(extra), Some(dict)) => Some(text::concat3(extra, "\n\n", dict.as_str())),
        (Some(extra), None) => Some(text::owned(extra)),
        (None, Some(dict)) => Some(dict),
        (None, None) => None,
    }
}

// ---------------------------------------------------------------------------
// Transcription requests
// ---------------------------------------------------------------------------

/// What a transcription request is made of.
pub struct TranscriptionFormParams<'a> {
    pub model: &'a str,
    pub response_format: ResponseFormat,
    pub timestamp_granularities: &'a [&'a str],
    pub language: Option<&'a str>,
    pub dictionary: &'a [String],
    pub prompt: Option<&'a str>,
    pub diarize: bool,
}

/// A list of name and value pairs.
pub open spec fn pairs(v: Seq<(String, String)>) -> Seq<(Seq<char>, Seq<char>)> {
    Seq::new(v.len(), |i: int| (v[i].0@, v[i].1@))
}

/// The trimmed prompt, if it is not blank.
pub open spec fn real_prompt(prompt: Option<Seq<char>>) -> Option<Seq<char>> {
    match prompt {
        Some(p) if !text::blank(p) => Some(text::trimmed(p)),
        _ => None,
    }
}

/// Whether speakers are asked for by way of the response format.
pub open spec fn asks_diarized_json(p: EndpointProfile, diarize: bool) -> bool {
    diarize && p.diarization == Diarization::DiarizedJson
}

/// Whether the verbose format is asked for.
pub open spec fn asks_verbose_json(p: EndpointProfile, format: ResponseFormat) -> bool {
    p.sends_response_format && format == ResponseFormat::VerboseJson && p.timestamp_mode
        == TimestampMode::OpenAiVerboseJson
}

/// The fields that name the response format.
pub open spec fn format_fields(p: EndpointProfile, format: ResponseFormat, diarize: bool) -> Seq<
    (Seq<char>, Seq<char>),
> {
    if asks_diarized_json(p, diarize) {
        // Chunking is required for inputs over 30 seconds.
        seq![
            ("response_format"@, "diarized_json"@),
            ("chunking_strategy"@, "auto"@),
        ]
    } else if p.sends_response_format {
        seq![
            (
                "response_format"@,
                if asks_verbose_json(p, format) {
                    ResponseFormat::VerboseJson.name()
                } else {
                    ResponseFormat::Json.name()
                },
            ),
        ]
    } else {
        seq![]
    }
}

/// One field for each granularity that is not blank.
pub open spec fn granularity_fields(name: Seq<char>, granularities: Seq<Seq<char>>) -> Seq<
    (Seq<char>, Seq<char>),
>
    decreases granularities.len(),
{
    if granularities.len() == 0 {
        seq![]
    } else {
        let before = granularity_fields(name, granularities.drop_last());
        if text::blank(granularities.last()) {
            before
        } else {
            before.push((name, text::trimmed(granularities.last())))
        }
    }
}

/// The fields that ask for times.
pub open spec fn timestamp_fields(
    p: EndpointProfile,
    format: ResponseFormat,
    granularities: Seq<Seq<char>>,
) -> Seq<(Seq<char>, Seq<char>)> {
    match p.timestamp_mode {
        TimestampMode::OpenAiVerboseJson => if asks_verbose_json(p, format)
            || p.keep_timestamps_on_format_fallback {
            granularity_fields("timestamp_granularities[]"@, granularities)
        } else {
            seq![]
        },
        TimestampMode::NativeGranularities => granularity_fields(
            "timestamp_granularities"@,
            granularities,
        ),
        TimestampMode::WordTimings => seq![
            (
                "timestamps_granularity"@,
                if granularities.len() > 0 {
                    "word"@
                } else {
                    "none"@
                },
            ),
        ],
        TimestampMode::Unsupported => seq![],
    }
}

/// The fields that name the language.
pub open spec fn language_fields(p: EndpointProfile, language: Option<Seq<char>>) -> Seq<
    (Seq<char>, Seq<char>),
> {
    match language {
        None => seq![],
        Some(l) => if p.sends_itn_format {
            seq![(p.language_field@, l), ("format"@, "true"@)]
        } else {
            seq![(p.language_field@, l)]
        },
    }
}

/// One field for each value.
pub open spec fn repeated_field(name: Seq<char>, values: Seq<Seq<char>>) -> Seq<
    (Seq<char>, Seq<char>),
> {
    Seq::new(values.len(), |i: int| (name, values[i]))
}

/// At most one field.
pub open spec fn optional_field(name: Seq<char>, value: Option<Seq<char>>) -> Seq<
    (Seq<char>, Seq<char>),
> {
    match value {
        Some(v) => seq![(name, v)],
        None => seq![],
    }
}

/// The fields that carry the dictionary and the prompt.
pub open spec fn dictionary_fields(
    mode: DictionaryMode,
    model: Seq<char>,
    entries: Seq<Seq<char>>,
    prompt: Option<Seq<char>>,
) -> Seq<(Seq<char>, Seq<char>)> {
    match mode {
        DictionaryMode::Prompt => optional_field(
            "prompt"@,
            composed_prompt(real_prompt(prompt), dictionary::dictionary_prompt(entries)),
        ),
        DictionaryMode::KeyTerms(rules) => repeated_field(
            rules.field@,
            key_terms(rules, model, entries),
        ),
        DictionaryMode::ContextBias => repeated_field("context_bias"@, bias_words(entries))
            + optional_field("prompt"@, real_prompt(prompt)),
    }
}

/// The field that sets the temperature, where it is sent.
pub open spec fn temperature_fields(p: EndpointProfile) -> Seq<(Seq<char>, Seq<char>)> {
    if p.sends_temperature {
        seq![("temperature"@, "0"@)]
    } else {
        seq![]
    }
}

/// The field that asks for speakers, where a field does.
pub open spec fn speaker_fields(p: EndpointProfile, diarize: bool) -> Seq<(Seq<char>, Seq<char>)> {
    if diarize && (p.diarization == Diarization::SegmentSpeakers || p.diarization
        == Diarization::WordSpeakers) {
        seq![("diarize"@, "true"@)]
    } else {
        seq![]
    }
}

/// The text fields of a transcription form, in order.
pub open spec fn form_texts(p: EndpointProfile, params: TranscriptionFormParams) -> Seq<
    (Seq<char>, Seq<char>),
> {
    let named = seq![(p.model_field@, params.model@)];
    let format = format_fields(p, params.response_format, params.diarize);
    let times = timestamp_fields(
        p,
        params.response_format,
        text::strs(params.timestamp_granularities@),
    );
    let language = language_fields(p, text::opt_str(params.language));
    // Diarize models reject prompts, which is where the dictionary goes.
    let terms = if asks_diarized_json(p, params.diarize) {
        seq![]
    } else {
        dictionary_fields(
            p.dictionary_mode,
            params.model@,
            text::texts(params.dictionary@),
            text::opt_str(params.prompt),
        )
    };
    named + format + temperature_fields(p) + times + language + speaker_fields(p, params.diarize)
        + fixed_pairs(p.fixed_params@) + terms
}

fn push_pair(fields: &mut Vec<(String, String)>, name: &str, value: &str)
    ensures
        pairs(final(fields)@) == pairs(old(fields)@).push((name@, value@)),
{
    fields.push((text::owned(name), text::owned(value)));
    assert(pairs(fields@) =~= pairs(old(fields)@).push((name@, value@)));
}

fn push_repeated(fields: &mut Vec<(String, String)>, name: &str, values: &[String])
    ensures
        pairs(final(fields)@) == pairs(old(fields)@) + repeated_field(
            name@,
            text::texts(values@),
        ),
{
    let ghost before = pairs(fields@);
    let ghost all = text::texts(values@);
    let mut i: usize = 0;
    assert(before + repeated_field(name@, all.take(0)) =~= before);
    while i < values.len()
        invariant
            all == text::texts(values@),
            i <= values@.len(),
            pairs(fields@) == before + repeated_field(name@, all.take(i as int)),
        decreases values@.len() - i,
    {
        push_pair(fields, name, values[i].as_str());
        assert(pairs(fields@) =~= before + repeated_field(name@, all.take(i + 1)));
        i += 1;
    }
    assert(all.take(i as int) =~= all);
}

fn push_fixed(fields: &mut Vec<(String, String)>, fixed: &[(&'static str, &'static str)])
    ensures
        pairs(final(fields)@) == pairs(old(fields)@) + fixed_pairs(fixed@),
{
    let ghost before = pairs(fields@);
    let mut i: usize = 0;
    assert(before + fixed_pairs(fixed@).take(0) =~= before);
    while i < fixed.len()
        invariant
            i <= fixed@.len(),
            pairs(fields@) == before + fixed_pairs(fixed@).take(i as int),
        decreases fixed@.len() - i,
    {
        push_pair(fields, fixed[i].0, fixed[i].1);
        assert(pairs(fields@) =~= before + fixed_pairs(fixed@).take(i + 1));
        i += 1;
    }
    assert(fixed_pairs(fixed@).take(i as int) =~= fixed_pairs(fixed@));
}

fn append_timestamps(fields: &mut Vec<(String, String)>, name: &str, granularities: &[&str])
    ensures
        pairs(final(fields)@) == pairs(old(fields)@) + granularity_fields(
            name@,
            text::strs(granularities@),
        ),
{
    let ghost before = pairs(fields@);
    let ghost all = text::strs(granularities@);
    let mut i: usize = 0;
    assert(before + granularity_fields(name@, all.take(0)) =~= before);
    while i < granularities.len()
        invariant
            all == text::strs(granularities@),
            i <= granularities@.len(),
            pairs(fields@) == before + granularity_fields(name@, all.take(i as int)),
        decreases granularities@.len() - i,
    {
        proof {
            assert(all.take(i + 1).drop_last() =~= all.take(i as int));
            assert(all.take(i + 1).last() == granularities@[i as int]@);
        }
        let value = text::trim(granularities[i]);
        if !value.as_str().is_empty() {
            push_pair(fields, name, value.as_str());
            assert(pairs(fields@) =~= before + granularity_fields(name@, all.take(i + 1)));
        }
        i += 1;
    }
    assert(all.take(i as int) =~= all);
}

fn trimmed_prompt(prompt: Option<&str>) -> (r: Option<String>)
    ensures
        text::opt_text(r) == real_prompt(text::opt_str(prompt)),
{
    match prompt {
        Some(p) => {
            let trimmed = text::trim(p);
            if trimmed.as_str().is_empty() {
                None
            } else {
                Some(trimmed)
            }
        },
        None => None,
    }
}

fn push_optional(fields: &mut Vec<(String, String)>, name: &str, value: &Option<String>)
    ensures
        pairs(final(fields)@) == pairs(old(fields)@) + optional_field(
            name@,
            text::opt_text(*value),
        ),
{
    let ghost before = pairs(fields@);
    if let Some(value) = value {
        push_pair(fields, name, value.as_str());
        assert(pairs(fields@) =~= before + seq![(name@, value@)]);
    } else {
        assert(pairs(fields@) =~= before + Seq::<(Seq<char>, Seq<char>)>::empty());
    }
}

fn apply_dictionary_and_prompt(
    fields: &mut Vec<(String, String)>,
    mode: DictionaryMode,
    model: &str,
    dictionary: &[String],
    prompt: Option<&str>,
)
    ensures
        pairs(final(fields)@) == pairs(old(fields)@) + dictionary_fields(
            mode,
            model@,
            text::texts(dictionary@),
            text::opt_str(prompt),
        ),
{
    let extra = trimmed_prompt(prompt);
    match mode {
        DictionaryMode::Prompt => {
            let terms = build_dictionary_prompt(dictionary);
            let composed = compose_openai_prompt(text::as_deref(&extra), text::as_deref(&terms));
            push_optional(fields, "prompt", &composed);
        },
        DictionaryMode::KeyTerms(rules) => {
            let terms = rules.terms(model, dictionary);
            push_repeated(fields, rules.field, terms.as_slice());
        },
        DictionaryMode::ContextBias => {
            let ghost before = pairs(fields@);
            let words = context_bias(dictionary);
            push_repeated(fields, "context_bias", words.as_slice());
            push_optional(fields, "prompt", &extra);
            proof {
                let first = repeated_field("context_bias"@, text::texts(words@));
                let second = optional_field("prompt"@, text::opt_text(extra));
                assert((before + first) + second =~= before + (first + second));
            }
        },
    }
}

fn push_format(
    fields: &mut Vec<(String, String)>,
    profile: &EndpointProfile,
    format: ResponseFormat,
    diarize: bool,
)
    ensures
        pairs(final(fields)@) == pairs(old(fields)@) + format_fields(*profile, format, diarize),
{
    let ghost before = pairs(fields@);
    if diarize && profile.diarization == Diarization::DiarizedJson {
        push_pair(fields, "response_format", "diarized_json");
        push_pair(fields, "chunking_strategy", "auto");
    } else if profile.sends_response_format {
        let use_verbose_json = format == ResponseFormat::VerboseJson && profile.timestamp_mode
            == TimestampMode::OpenAiVerboseJson;
        let name = if use_verbose_json {
            ResponseFormat::VerboseJson.as_str()
        } else {
            ResponseFormat::Json.as_str()
        };
        push_pair(fields, "response_format", name);
    }
    assert(pairs(fields@) =~= before + format_fields(*profile, format, diarize));
}

fn push_temperature(fields: &mut Vec<(String, String)>, profile: &EndpointProfile)
    ensures
        pairs(final(fields)@) == pairs(old(fields)@) + temperature_fields(*profile),
{
    let ghost before = pairs(fields@);
    if profile.sends_temperature {
        push_pair(fields, "temperature", "0");
    }
    assert(pairs(fields@) =~= before + temperature_fields(*profile));
}

fn push_times(
    fields: &mut Vec<(String, String)>,
    profile: &EndpointProfile,
    format: ResponseFormat,
    granularities: &[&str],
)
    ensures
        pairs(final(fields)@) == pairs(old(fields)@) + timestamp_fields(
            *profile,
            format,
            text::strs(granularities@),
        ),
{
    let ghost before = pairs(fields@);
    match profile.timestamp_mode {
        TimestampMode::OpenAiVerboseJson => {
            let use_verbose_json = profile.sends_response_format && format
                == ResponseFormat::VerboseJson;
            if use_verbose_json || profile.keep_timestamps_on_format_fallback {
                append_timestamps(fields, "timestamp_granularities[]", granularities);
            }
        },
        TimestampMode::NativeGranularities => {
            append_timestamps(fields, "timestamp_granularities", granularities);
        },
        TimestampMode::WordTimings => {
            let wanted = if granularities.len() > 0 {
                "word"
            } else {
                "none"
            };
            push_pair(fields, "timestamps_granularity", wanted);
        },
        TimestampMode::Unsupported => {},
    }
    assert(pairs(fields@) =~= before + timestamp_fields(
        *profile,
        format,
        text::strs(granularities@),
    ));
}

fn push_language(
    fields: &mut Vec<(String, String)>,
    profile: &EndpointProfile,
    language: Option<&str>,
)
    ensures
        pairs(final(fields)@) == pairs(old(fields)@) + language_fields(
            *profile,
            text::opt_str(language),
        ),
{
    let ghost before = pairs(fields@);
    if let Some(language) = language {
        push_pair(fields, profile.language_field, language);
        if profile.sends_itn_format {
            push_pair(fields, "format", "true");
        }
    }
    assert(pairs(fields@) =~= before + language_fields(*profile, text::opt_str(language)));
}

fn push_speakers(fields: &mut Vec<(String, String)>, profile: &EndpointProfile, diarize: bool)
    ensures
        pairs(final(fields)@) == pairs(old(fields)@) + speaker_fields(*profile, diarize),
{
    let ghost before = pairs(fields@);
    let by_field = match profile.diarization {
        Diarization::SegmentSpeakers | Diarization::WordSpeakers => diarize,
        _ => false,
    };
    if by_field {
        push_pair(fields, "diarize", "true");
    }
    assert(pairs(fields@) =~= before + speaker_fields(*profile, diarize));
}

/// The text fields of a transcription form, in order.
pub fn transcription_fields(
    profile: &EndpointProfile,
    params: &TranscriptionFormParams<'_>,
) -> (r: Vec<(String, String)>)
    ensures
        pairs(r@) == form_texts(*profile, *params),
{
    let mut fields: Vec<(String, String)> = Vec::new();
    push_pair(&mut fields, profile.model_field, params.model);
    assert(pairs(fields@) =~= seq![(profile.model_field@, params.model@)]);
    push_format(&mut fields, profile, params.response_format, params.diarize);
    push_temperature(&mut fields, profile);
    push_times(&mut fields, profile, params.response_format, params.timestamp_granularities);
    push_language(&mut fields, profile, params.language);
    push_speakers(&mut fields, profile, params.diarize);
    push_fixed(&mut fields, profile.fixed_params);
    let diarized_json = params.diarize && profile.diarization == Diarization::DiarizedJson;
    let ghost done = pairs(fields@);
    if !diarized_json {
        apply_dictionary_and_prompt(
            &mut fields,
            profile.dictionary_mode,
            params.model,
            params.dictionary,
            params.prompt,
        );
    } else {
        assert(done =~= done + Seq::<(Seq<char>, Seq<char>)>::empty());
    }
    fields
}

#[verifier::external_type_specification]
#[verifier::external_body]
pub struct ExForm(reqwest::multipart::Form);

#[verifier::external_type_specification]
#[verifier::external_body]
pub struct ExPart(reqwest::multipart::Part);

/// What a field of a form holds.
pub ghost enum FieldValue {
    Text(Seq<char>),
    File(reqwest::multipart::Part),
}

/// The fields of a `reqwest::multipart::Form` in order: the name of each, and
/// what it holds.
pub uninterp spec fn form_fields(form: reqwest::multipart::Form) -> Seq<(Seq<char>, FieldValue)>;

/// `reqwest::multipart::Form::new`: a form without fields.
#[verifier::external_body]
fn new_form() -> (r: reqwest::multipart::Form)
    ensures
        form_fields(r) == Seq::<(Seq<char>, FieldValue)>::empty(),
{
    reqwest::multipart::Form::new()
}

/// `reqwest::multipart::Form::text`: adds a text field at the end.
#[verifier::external_body]
fn with_text(form: reqwest::multipart::Form, name: String, value: String) -> (r:
    reqwest::multipart::Form)
    ensures
        form_fields(r) == form_fields(form).push((name@, FieldValue::Text(value@))),
{
    form.text(name, value)
}

/// `reqwest::multipart::Form::part`: adds a part under a name at the end.
#[verifier::external_body]
fn with_part(form: reqwest::multipart::Form, name: &str, part: reqwest::multipart::Part) -> (r:
    reqwest::multipart::Form)
    ensures
        form_fields(r) == form_fields(form).push((name@, FieldValue::File(part))),
{
    form.part(name.to_string(), part)
}

/// Text fields as fields of a form.
pub open spec fn text_fields(v: Seq<(Seq<char>, Seq<char>)>) -> Seq<(Seq<char>, FieldValue)> {
    Seq::new(v.len(), |i: int| (v[i].0, FieldValue::Text(v[i].1)))
}

/// The form of a transcription request: the text fields, and the file last,
/// since xAI ignores fields sent after it.
pub fn build_transcription_form(
    profile: &EndpointProfile,
    file_part: reqwest::multipart::Part,
    params: TranscriptionFormParams<'_>,
) -> (r: reqwest::multipart::Form)
    ensures
        form_fields(r) == text_fields(form_texts(*profile, params)).push(
            ("file"@, FieldValue::File(file_part)),
        ),
{
    let fields = transcription_fields(profile, &params);
    let ghost all = text_fields(pairs(fields@));
    let mut form = new_form();
    let mut i: usize = 0;
    assert(all.take(0) =~= Seq::<(Seq<char>, FieldValue)>::empty());
    while i < fields.len()
        invariant
            all == text_fields(pairs(fields@)),
            i <= fields@.len(),
            form_fields(form) == all.take(i as int),
        decreases fields@.len() - i,
    {
        form = with_text(form, fields[i].0.clone(), fields[i].1.clone());
        assert(all.take(i + 1) =~= all.take(i as int).push(all[i as int]));
        i += 1;
    }
    assert(all.take(i as int) =~= all);
    with_part(form, "file", file_part)
}

/// The options of a raw-body request, in order.
pub open spec fn query_texts(p: EndpointProfile, params: TranscriptionFormParams) -> Seq<
    (Seq<char>, Seq<char>),
> {
    let language = match params.language {
        Some(l) => seq![(p.language_field@, l@)],
        None => seq![("detect_language"@, "true"@)],
    };
    let speakers = if params.diarize && p.diarization != Diarization::Unsupported {
        seq![("diarize_model"@, "latest"@)]
    } else {
        seq![]
    };
    let times = if params.timestamp_granularities@.len() > 0 {
        seq![("utterances"@, "true"@)]
    } else {
        seq![]
    };
    let terms = match p.dictionary_mode {
        DictionaryMode::KeyTerms(rules) => repeated_field(
            rules.field@,
            key_terms(rules, params.model@, text::texts(params.dictionary@)),
        ),
        _ => seq![],
    };
    seq![(p.model_field@, params.model@)] + fixed_pairs(p.fixed_params@) + language + speakers
        + times + terms
}

/// The options of a raw-body request, in order.
pub fn transcription_query(
    profile: &EndpointProfile,
    params: &TranscriptionFormParams<'_>,
) -> (r: Vec<(String, String)>)
    ensures
        pairs(r@) == query_texts(*profile, *params),
{
    let mut query: Vec<(String, String)> = Vec::new();
    push_pair(&mut query, profile.model_field, params.model);
    assert(pairs(query@) =~= seq![(profile.model_field@, params.model@)]);
    push_fixed(&mut query, profile.fixed_params);
    let ghost done = pairs(query@);
    match params.language {
        Some(language) => {
            push_pair(&mut query, profile.language_field, language);
        },
        None => {
            push_pair(&mut query, "detect_language", "true");
        },
    }
    let ghost language = match params.language {
        Some(l) => seq![(profile.language_field@, l@)],
        None => seq![("detect_language"@, "true"@)],
    };
    assert(pairs(query@) =~= done + language);
    let ghost done = pairs(query@);
    if params.diarize && profile.diarization != Diarization::Unsupported {
        push_pair(&mut query, "diarize_model", "latest");
    }
    let ghost speakers = if params.diarize && profile.diarization != Diarization::Unsupported {
        seq![("diarize_model"@, "latest"@)]
    } else {
        seq![]
    };
    assert(pairs(query@) =~= done + speakers);
    let ghost done = pairs(query@);
    if params.timestamp_granularities.len() > 0 {
        push_pair(&mut query, "utterances", "true");
    }
    let ghost times = if params.timestamp_granularities@.len() > 0 {
        seq![("utterances"@, "true"@)]
    } else {
        seq![]
    };
    assert(pairs(query@) =~= done + times);
    if let DictionaryMode::KeyTerms(rules) = profile.dictionary_mode {
        let terms = rules.terms(params.model, params.dictionary);
        push_repeated(&mut query, rules.field, terms.as_slice());
    }
    assert(pairs(query@) =~= query_texts(*profile, *params));
    query
}

/// The URL that `url::Url` makes of a URL and further query pairs, if the
/// text is a URL.
pub uninterp spec fn url_with_query(url: Seq<char>, query: Seq<(Seq<char>, Seq<char>)>) -> Option<
    Seq<char>,
>;

/// The characters of a list of pairs.
pub open spec fn pair_chars(query: Seq<(Seq<char>, Seq<char>)>) -> nat
    decreases query.len(),
{
    if query.len() == 0 {
        0
    } else {
        pair_chars(query.drop_last()) + query.last().0.len() + query.last().1.len()
    }
}

/// The most characters of a URL and its options: positions in a `url::Url`
/// have 32 bits, and encoding may make a text longer.
pub const MAX_URL_CHARS: usize = 0x100_0000;

/// `url::Url::parse`, `url::Url::query_pairs_mut` and
/// `form_urlencoded::Serializer::extend_pairs`: the URL with the pairs
/// appended to its query, percent-encoded, or `None` where the text is no
/// absolute URL. The result depends on the texts alone.
#[verifier::external_body]
fn append_query(url: &str, query: &[(String, String)]) -> (r: Option<String>)
    requires
        url@.len() + pair_chars(pairs(query@)) <= MAX_URL_CHARS,
    ensures
        text::opt_text(r) == url_with_query(url@, pairs(query@)),
{
    let mut parsed = reqwest::Url::parse(url).ok()?;
    parsed.query_pairs_mut().extend_pairs(query);
    Some(parsed.to_string())
}

/// Adds transcription options to the URL of a raw-body request. `None` where
/// `url` is no URL.
pub fn append_transcription_query(
    profile: &EndpointProfile,
    url: &str,
    params: &TranscriptionFormParams<'_>,
) -> (r: Option<String>)
    requires
        url@.len() + pair_chars(query_texts(*profile, *params)) <= MAX_URL_CHARS,
    ensures
        text::opt_text(r) == url_with_query(url@, query_texts(*profile, *params)),
{
    let query = transcription_query(profile, params);
    append_query(url, query.as_slice())
}

/// The header that carries an API key, if there is one.
pub open spec fn auth_field(scheme: AuthScheme, api_key: Seq<char>) -> Option<
    (Seq<char>, Seq<char>),
> {
    if api_key.len() == 0 {
        None
    } else {
        match scheme {
            AuthScheme::Bearer => Some(("Authorization"@, "Bearer "@ + api_key)),
            AuthScheme::Token => Some(("Authorization"@, "Token "@ + api_key)),
            AuthScheme::XiApiKey => Some(("xi-api-key"@, api_key)),
        }
    }
}

/// The header that carries an API key, if there is one.
pub fn auth_header(scheme: AuthScheme, api_key: &str) -> (r: Option<(String, String)>)
    ensures
        match r {
            Some((name, value)) => auth_field(scheme, api_key@) == Some((name@, value@)),
            None => auth_field(scheme, api_key@) is None,
        },
{
    if api_key.is_empty() {
        return None;
    }
    match scheme {
        AuthScheme::Bearer => Some(
            (text::owned("Authorization"), text::concat2("Bearer ", api_key)),
        ),
        AuthScheme::Token => Some((text::owned("Authorization"), text::concat2("Token ", api_key))),
        AuthScheme::XiApiKey => Some((text::owned("xi-api-key"), text::owned(api_key))),
    }
}

} // verus!
