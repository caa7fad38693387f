//! Transcription requests to a remote endpoint, and what comes back.

pub mod laws;

use vstd::prelude::*;

use crate::paths;
use crate::paths::PathStyle;
use crate::remote;
use crate::remote::address;
use crate::remote::address::api_base;
use crate::remote::provider;
use crate::remote::provider::{
    plan_request, resolve_profile, AudioRequest, Diarization, DurationSource, EndpointProfile,
};
use crate::remote::{
    check_reply, config_error, RemoteError, RemoteErrorKind, RemoteErrorText, Reply, ResponseFormat,
};
use crate::text;
use crate::{SegmentText, TimestampGranularity, Transcription, TranscriptionSegment, TranscriptionText};

verus! {

/// Where transcription requests go.
#[derive(Debug, Clone)]
pub struct RemoteConfig {
    pub endpoint: String,
    pub api_key: String,
    pub model: Option<String>,
}

/// What a caller asks for.
#[derive(Debug, Clone)]
pub struct RemoteRequestParams<'a> {
    pub model: &'a str,
    pub language: Option<&'a str>,
    pub dictionary: &'a [String],
    pub prompt: Option<&'a str>,
    pub timestamps: bool,
    pub timestamp_granularity: Option<TimestampGranularity>,
}

// ---------------------------------------------------------------------------
// Preparing a request
// ---------------------------------------------------------------------------

/// A language that is worth naming: neither blank nor `auto`.
pub open spec fn named_language(language: Option<Seq<char>>) -> Option<Seq<char>> {
    match language {
        Some(l) if !text::blank(l) && text::ascii_lower(text::trimmed(l)) != text::ascii_lower(
            "auto"@,
        ) => Some(text::trimmed(l)),
        _ => None,
    }
}

fn language_to_name(language: Option<&str>) -> (r: Option<String>)
    ensures
        text::opt_text(r) == named_language(text::opt_str(language)),
{
    match language {
        Some(value) => {
            let trimmed = text::trim(value);
            if trimmed.as_str().is_empty() || text::eq_ignore_ascii_case(
                trimmed.as_str(),
                "auto",
            ) {
                None
            } else {
                Some(trimmed)
            }
        },
        None => None,
    }
}

/// A request that is ready to be made.
#[derive(Debug, Clone)]
pub struct PreparedRequest {
    pub profile: EndpointProfile,
    pub url: String,
    pub model: String,
    pub api_key: String,
    pub language: Option<String>,
    /// Whether speakers are asked for. Unsupported endpoints and models
    /// transcribe without them.
    pub diarize: bool,
}

/// Prepares a transcription request. Fails where no endpoint or no model is
/// configured.
pub fn prepare_request(
    config: &RemoteConfig,
    params: &RemoteRequestParams<'_>,
    diarize: bool,
) -> (r: Result<PreparedRequest, RemoteError>)
    ensures
        match r {
            Err(e) => {
                ||| text::blank(config.endpoint@) && e@ == remote::bare_error(
                    RemoteErrorKind::InvalidRequest,
                    0,
                    "Remote speech endpoint is not configured"@,
                )
                ||| !text::blank(config.endpoint@) && text::blank(params.model@) && e@
                    == remote::bare_error(
                    RemoteErrorKind::InvalidRequest,
                    0,
                    "Remote speech model is not configured"@,
                )
            },
            Ok(q) => {
                let endpoint = text::trimmed(config.endpoint@);
                &&& !text::blank(config.endpoint@)
                &&& !text::blank(params.model@)
                &&& provider::is_profile_of(provider::endpoint_host(endpoint), q.profile)
                &&& q.model@ == text::trimmed(params.model@)
                &&& q.api_key@ == text::trimmed(config.api_key@)
                &&& text::opt_text(q.language) == named_language(text::opt_str(params.language))
                &&& q.url@ == address::base_url(endpoint) + q.profile.transcriptions_path@
                &&& q.diarize == (diarize && provider::diarizes(q.profile.diarization, q.model@))
            },
        },
{
    let endpoint = text::trim(config.endpoint.as_str());
    if endpoint.as_str().is_empty() {
        return Err(config_error("Remote speech endpoint is not configured"));
    }
    let model = text::trim(params.model);
    if model.as_str().is_empty() {
        return Err(config_error("Remote speech model is not configured"));
    }
    let profile = resolve_profile(endpoint.as_str());
    let base = api_base(endpoint.as_str());
    let diarize = diarize && profile.supports_diarization(model.as_str());
    Ok(
        PreparedRequest {
            profile,
            url: text::concat2(base.as_str(), profile.transcriptions_path),
            model,
            api_key: text::trim(config.api_key.as_str()),
            language: language_to_name(params.language),
            diarize,
        },
    )
}

/// What is asked of a list of models. OpenRouter lists models of all kinds.
pub open spec fn models_query_of(host: Option<Seq<char>>) -> Seq<char> {
    match host {
        Some(h) if !provider::host_under(h, "mistral.ai"@) && provider::host_under(
            h,
            "openrouter.ai"@,
        ) => "?output_modalities=transcription"@,
        _ => ""@,
    }
}

/// The URL that lists the models of an endpoint. `None` where no endpoint is
/// configured.
pub fn models_url(config: &RemoteConfig) -> (r: Option<String>)
    ensures
        text::opt_text(r) == (if text::blank(config.endpoint@) {
            None
        } else {
            let endpoint = text::trimmed(config.endpoint@);
            Some(
                address::base_url(endpoint) + "/models"@ + models_query_of(
                    provider::endpoint_host(endpoint),
                ),
            )
        }),
{
    let endpoint = text::trim(config.endpoint.as_str());
    if endpoint.as_str().is_empty() {
        return None;
    }
    let profile = resolve_profile(endpoint.as_str());
    let base = api_base(endpoint.as_str());
    Some(text::concat3(base.as_str(), "/models", profile.models_query))
}

/// The media type of audio files with an extension.
pub open spec fn mime_of(extension: Option<Seq<char>>) -> Seq<char> {
    match extension {
        None => "application/octet-stream"@,
        Some(e) => if e == "wav"@ {
            "audio/wav"@
        } else if e == "mp3"@ || e == "mpga"@ || e == "mpeg"@ {
            "audio/mpeg"@
        } else if e == "m4a"@ || e == "mp4"@ {
            "audio/mp4"@
        } else if e == "aac"@ {
            "audio/aac"@
        } else if e == "flac"@ {
            "audio/flac"@
        } else if e == "ogg"@ || e == "oga"@ {
            "audio/ogg"@
        } else if e == "opus"@ {
            "audio/opus"@
        } else if e == "webm"@ {
            "audio/webm"@
        } else {
            "application/octet-stream"@
        },
    }
}

/// The media type of audio files with an extension.
pub fn audio_mime_for_extension(extension: Option<&str>) -> (r: &'static str)
    ensures
        r@ == mime_of(text::opt_str(extension)),
{
    match extension {
        None => "application/octet-stream",
        Some(e) => {
            if text::same(e, "wav") {
                "audio/wav"
            } else if text::same(e, "mp3") || text::same(e, "mpga") || text::same(e, "mpeg") {
                "audio/mpeg"
            } else if text::same(e, "m4a") || text::same(e, "mp4") {
                "audio/mp4"
            } else if text::same(e, "aac") {
                "audio/aac"
            } else if text::same(e, "flac") {
                "audio/flac"
            } else if text::same(e, "ogg") || text::same(e, "oga") {
                "audio/ogg"
            } else if text::same(e, "opus") {
                "audio/opus"
            } else if text::same(e, "webm") {
                "audio/webm"
            } else {
                "application/octet-stream"
            }
        },
    }
}

/// The extension of an audio file in ASCII lower case.
pub open spec fn audio_extension_of(style: PathStyle, path: Seq<char>) -> Option<Seq<char>> {
    match paths::file_name_of(style, path) {
        Some(name) => match paths::extension_of(name) {
            Some(e) => Some(text::ascii_lower(e)),
            None => None,
        },
        None => None,
    }
}

/// The extension of an audio file in ASCII lower case.
pub fn audio_extension(style: PathStyle, path: &str) -> (r: Option<String>)
    ensures
        text::opt_text(r) == audio_extension_of(style, path@),
{
    match paths::extension(style, path) {
        Some(e) => Some(text::to_ascii_lowercase(e.as_str())),
        None => None,
    }
}

/// Whether a recording is first tried as FLAC.
pub fn tries_flac(profile: &EndpointProfile, style: PathStyle, path: &str) -> (r: bool)
    ensures
        r == (profile.uploads_flac && audio_extension_of(style, path@) == Some("wav"@)),
{
    if !profile.uploads_flac {
        return false;
    }
    match audio_extension(style, path) {
        Some(e) => text::same(e.as_str(), "wav"),
        None => false,
    }
}

/// The name under which a recording is uploaded.
pub open spec fn upload_name_of(style: PathStyle, path: Seq<char>, use_flac: bool) -> Seq<char> {
    match paths::file_name_of(style, path) {
        Some(name) => if use_flac {
            paths::stem_of(name) + ".flac"@
        } else {
            name
        },
        None => if use_flac {
            "recording.flac"@
        } else {
            "recording.wav"@
        },
    }
}

/// The name under which a recording is uploaded.
pub fn upload_name(style: PathStyle, path: &str, use_flac: bool) -> (r: String)
    ensures
        r@ == upload_name_of(style, path@, use_flac),
{
    if use_flac {
        match paths::file_stem(style, path) {
            Some(stem) => text::concat2(stem.as_str(), ".flac"),
            None => text::owned("recording.flac"),
        }
    } else {
        match paths::file_name(style, path) {
            Some(name) => name,
            None => text::owned("recording.wav"),
        }
    }
}

/// The media type under which a recording is uploaded.
pub fn upload_mime(style: PathStyle, path: &str, use_flac: bool) -> (r: &'static str)
    ensures
        r@ == (if use_flac {
            "audio/flac"@
        } else {
            mime_of(audio_extension_of(style, path@))
        }),
{
    if use_flac {
        "audio/flac"
    } else {
        let extension = audio_extension(style, path);
        audio_mime_for_extension(text::as_deref(&extension))
    }
}

// ---------------------------------------------------------------------------
// Attempts
// ---------------------------------------------------------------------------

/// What one attempt at an upload asks for.
#[derive(Debug, Clone, PartialEq, Eq)]
pub struct UploadAttempt {
    pub response_format: ResponseFormat,
    pub timestamp_granularities: Vec<&'static str>,
    pub use_flac: bool,
    pub diarize: bool,
}

/// What an [`UploadAttempt`] holds.
#[verifier::ext_equal]
pub ghost struct AttemptText {
    pub response_format: ResponseFormat,
    pub timestamp_granularities: Seq<Seq<char>>,
    pub use_flac: bool,
    pub diarize: bool,
}

impl View for UploadAttempt {
    type V = AttemptText;

    open spec fn view(&self) -> AttemptText {
        AttemptText {
            response_format: self.response_format,
            timestamp_granularities: text::strs(self.timestamp_granularities@),
            use_flac: self.use_flac,
            diarize: self.diarize,
        }
    }
}

/// Whether an error speaks of one of several things.
pub open spec fn mentions(e: RemoteErrorText, needles: Seq<Seq<char>>) -> bool {
    ||| text::contains_one_of(text::ascii_lower(e.message), needles)
    ||| e.param is Some && text::contains_one_of(text::ascii_lower(e.param->0), needles)
    ||| e.code is Some && text::contains_one_of(text::ascii_lower(e.code->0), needles)
    ||| e.error_type is Some && text::contains_one_of(text::ascii_lower(e.error_type->0), needles)
}

/// Whether an endpoint refuses the verbose format.
pub open spec fn refuses_verbose(e: RemoteErrorText) -> bool {
    e.kind == RemoteErrorKind::InvalidRequest && mentions(
        e,
        seq!["verbose_json"@, "response_format"@, "timestamp_granularit"@],
    )
}

/// Whether an endpoint refuses to name speakers.
pub open spec fn refuses_speakers(e: RemoteErrorText) -> bool {
    e.kind == RemoteErrorKind::InvalidRequest && mentions(
        e,
        seq!["diariz"@, "chunking_strategy"@],
    )
}

/// Words that speak of a file that could not be read.
pub open spec fn file_complaints() -> Seq<Seq<char>> {
    seq![
        "flac"@,
        "file format"@,
        "audio format"@,
        "unsupported format"@,
        "invalid format"@,
        "decod"@,
        "corrupt"@,
        "riff"@,
        "ffmpeg"@,
        "wave file"@,
    ]
}

/// Whether an endpoint refuses FLAC.
pub open spec fn refuses_flac(e: RemoteErrorText) -> bool {
    ||| e.kind == RemoteErrorKind::InvalidRequest && e.param == Some("file"@)
    ||| mentions(e, file_complaints())
}

fn field_mentions(field: &str, needles: &[&str]) -> (r: bool)
    ensures
        r == text::contains_one_of(text::ascii_lower(field@), text::strs(needles@)),
{
    let lowered = text::to_ascii_lowercase(field);
    text::contains_any(lowered.as_str(), needles)
}

fn opt_field_mentions(field: &Option<String>, needles: &[&str]) -> (r: bool)
    ensures
        r == (field is Some && text::contains_one_of(
            text::ascii_lower(text::opt_text(*field)->0),
            text::strs(needles@),
        )),
{
    match field {
        Some(field) => field_mentions(field.as_str(), needles),
        None => false,
    }
}

fn error_mentions(err: &RemoteError, needles: &[&str]) -> (r: bool)
    ensures
        r == mentions(err@, text::strs(needles@)),
{
    field_mentions(err.message.as_str(), needles) || opt_field_mentions(&err.param, needles)
        || opt_field_mentions(&err.code, needles) || opt_field_mentions(&err.error_type, needles)
}

/// Whether an endpoint refuses the verbose format.
pub fn is_verbose_unsupported(err: &RemoteError) -> (r: bool)
    ensures
        r == refuses_verbose(err@),
{
    let needles: [&str; 3] = ["verbose_json", "response_format", "timestamp_granularit"];
    assert(text::strs(needles@) =~= seq![
        "verbose_json"@,
        "response_format"@,
        "timestamp_granularit"@,
    ]);
    err.kind == RemoteErrorKind::InvalidRequest && error_mentions(err, &needles)
}

/// Whether an endpoint refuses to name speakers.
pub fn is_diarize_unsupported(err: &RemoteError) -> (r: bool)
    ensures
        r == refuses_speakers(err@),
{
    let needles: [&str; 2] = ["diariz", "chunking_strategy"];
    assert(text::strs(needles@) =~= seq!["diariz"@, "chunking_strategy"@]);
    err.kind == RemoteErrorKind::InvalidRequest && error_mentions(err, &needles)
}

/// Whether an endpoint refuses FLAC.
pub fn is_flac_unsupported(err: &RemoteError) -> (r: bool)
    ensures
        r == refuses_flac(err@),
{
    if err.kind == RemoteErrorKind::InvalidRequest {
        if let Some(param) = &err.param {
            if text::same(param.as_str(), "file") {
                return true;
            }
        }
    }
    let needles: [&str; 10] = [
        "flac",
        "file format",
        "audio format",
        "unsupported format",
        "invalid format",
        "decod",
        "corrupt",
        "riff",
        "ffmpeg",
        "wave file",
    ];
    assert(text::strs(needles@) =~= file_complaints());
    error_mentions(err, &needles)
}

/// The first attempt at an upload.
pub fn first_attempt(
    profile: &EndpointProfile,
    timestamps: bool,
    granularity: Option<TimestampGranularity>,
    diarize: bool,
    use_flac: bool,
) -> (r: UploadAttempt)
    ensures
        r@ == (AttemptText {
            response_format: provider::planned_format(*profile, timestamps, granularity, diarize),
            timestamp_granularities: provider::planned_granularities(
                *profile,
                timestamps,
                granularity,
                diarize,
            ),
            use_flac,
            diarize,
        }),
{
    let plan = plan_request(profile, timestamps, granularity, diarize);
    UploadAttempt {
        response_format: plan.response_format,
        timestamp_granularities: plan.timestamp_granularities,
        use_flac,
        diarize,
    }
}

/// The attempt that follows a refused one, if there is one: what the endpoint
/// refused is given up.
pub open spec fn attempt_after(
    p: EndpointProfile,
    timestamps: bool,
    granularity: Option<TimestampGranularity>,
    a: AttemptText,
    e: RemoteErrorText,
) -> Option<AttemptText> {
    if p.sends_response_format && a.response_format == ResponseFormat::VerboseJson
        && refuses_verbose(e) {
        Some(
            AttemptText {
                response_format: ResponseFormat::Json,
                timestamp_granularities: if p.keep_timestamps_on_format_fallback {
                    seq!["segment"@]
                } else {
                    seq![]
                },
                ..a
            },
        )
    } else if a.use_flac && refuses_flac(e) {
        Some(AttemptText { use_flac: false, ..a })
    } else if a.diarize && refuses_speakers(e) {
        Some(
            AttemptText {
                response_format: provider::planned_format(p, timestamps, granularity, false),
                timestamp_granularities: provider::planned_granularities(
                    p,
                    timestamps,
                    granularity,
                    false,
                ),
                use_flac: a.use_flac,
                diarize: false,
            },
        )
    } else {
        None
    }
}

/// The attempt that follows a refused one, if there is one.
pub fn next_attempt(
    profile: &EndpointProfile,
    timestamps: bool,
    granularity: Option<TimestampGranularity>,
    attempt: &UploadAttempt,
    err: &RemoteError,
) -> (r: Option<UploadAttempt>)
    ensures
        match r {
            Some(next) => attempt_after(*profile, timestamps, granularity, attempt@, err@) == Some(
                next@,
            ),
            None => attempt_after(*profile, timestamps, granularity, attempt@, err@) is None,
        },
{
    if profile.sends_response_format && attempt.response_format == ResponseFormat::VerboseJson
        && is_verbose_unsupported(err) {
        let mut granularities: Vec<&'static str> = Vec::new();
        if profile.keep_timestamps_on_format_fallback {
            granularities.push("segment");
            assert(text::strs(granularities@) =~= seq!["segment"@]);
        } else {
            assert(text::strs(granularities@) =~= Seq::<Seq<char>>::empty());
        }
        return Some(
            UploadAttempt {
                response_format: ResponseFormat::Json,
                timestamp_granularities: granularities,
                use_flac: attempt.use_flac,
                diarize: attempt.diarize,
            },
        );
    }
    if attempt.use_flac && is_flac_unsupported(err) {
        let granularities = copy_strs(attempt.timestamp_granularities.as_slice());
        return Some(
            UploadAttempt {
                response_format: attempt.response_format,
                timestamp_granularities: granularities,
                use_flac: false,
                diarize: attempt.diarize,
            },
        );
    }
    if attempt.diarize && is_diarize_unsupported(err) {
        return Some(first_attempt(profile, timestamps, granularity, false, attempt.use_flac));
    }
    None
}

fn copy_strs(v: &[&'static str]) -> (r: Vec<&'static str>)
    ensures
        r@ == v@,
{
    let mut out: Vec<&'static str> = Vec::new();
    let mut i: usize = 0;
    while i < v.len()
        invariant
            i <= v@.len(),
            out@ == v@.take(i as int),
        decreases v@.len() - i,
    {
        out.push(v[i]);
        assert(v@.take(i + 1) =~= v@.take(i as int).push(v@[i as int]));
        i += 1;
    }
    assert(v@.take(i as int) =~= v@);
    out
}

/// How much an attempt can still give up.
pub open spec fn concessions(a: AttemptText) -> nat {
    (if a.diarize {
        2nat
    } else {
        0nat
    }) + (if a.response_format == ResponseFormat::VerboseJson {
        1nat
    } else {
        0nat
    }) + (if a.use_flac {
        1nat
    } else {
        0nat
    })
}

/// Every new attempt has less left to give up, so that an upload is tried at
/// most five times.
pub proof fn law_attempts_end(
    p: EndpointProfile,
    timestamps: bool,
    granularity: Option<TimestampGranularity>,
    a: AttemptText,
    e: RemoteErrorText,
)
    ensures
        concessions(a) <= 4,
        attempt_after(p, timestamps, granularity, a, e) matches Some(next) ==> concessions(next)
            < concessions(a),
{
}

/// A later attempt never asks for what was given up: speakers and FLAC do not
/// come back.
pub proof fn law_concessions_last(
    p: EndpointProfile,
    timestamps: bool,
    granularity: Option<TimestampGranularity>,
    a: AttemptText,
    e: RemoteErrorText,
)
    ensures
        attempt_after(p, timestamps, granularity, a, e) matches Some(next) ==> (next.diarize
            ==> a.diarize) && (next.use_flac ==> a.use_flac),
{
}

/// How far an upload has come.
pub ghost enum UploadState {
    /// A reply to this attempt is awaited.
    Asking(AttemptText),
    /// The endpoint has transcribed the recording.
    Done,
    /// The upload has failed with this error.
    Failed(RemoteErrorText),
}

/// How far an upload has come after a reply, which has a status and stands for
/// an error where it is none of success. Nothing follows the end.
pub open spec fn state_after(
    p: EndpointProfile,
    timestamps: bool,
    granularity: Option<TimestampGranularity>,
    state: UploadState,
    reply: (u16, RemoteErrorText),
) -> UploadState {
    match state {
        UploadState::Asking(a) => if remote::succeeded(reply.0) {
            UploadState::Done
        } else {
            match attempt_after(p, timestamps, granularity, a, reply.1) {
                Some(next) => UploadState::Asking(next),
                None => UploadState::Failed(reply.1),
            }
        },
        ended => ended,
    }
}

/// What follows a reply.
#[derive(Debug)]
pub enum ReplyStep {
    /// The body holds the transcription.
    Done(String),
    /// Ask again.
    Retry(UploadAttempt),
    /// Give up and report the error.
    Fail(RemoteError),
}

impl ReplyStep {
    /// How far the upload has come.
    pub open spec fn state(self) -> UploadState {
        match self {
            ReplyStep::Done(_) => UploadState::Done,
            ReplyStep::Retry(next) => UploadState::Asking(next@),
            ReplyStep::Fail(e) => UploadState::Failed(e@),
        }
    }
}

/// What follows a reply: no request after one of success, another attempt
/// where what the endpoint refused can be given up, or else the error.
pub fn after_reply(
    profile: &EndpointProfile,
    timestamps: bool,
    granularity: Option<TimestampGranularity>,
    attempt: &UploadAttempt,
    reply: Reply,
) -> (r: ReplyStep)
    requires
        100 <= reply.status <= 999,
    ensures
        r.state() == state_after(
            *profile,
            timestamps,
            granularity,
            UploadState::Asking(attempt@),
            (reply.status, remote::reply_error(reply)),
        ),
        r matches ReplyStep::Done(body) ==> body@ == reply.body@,
{
    match check_reply(reply) {
        Ok(body) => ReplyStep::Done(body),
        Err(err) => match next_attempt(profile, timestamps, granularity, attempt, &err) {
            Some(next) => ReplyStep::Retry(next),
            None => ReplyStep::Fail(err),
        },
    }
}

/// How far an upload has come after several replies.
pub open spec fn state_after_all(
    p: EndpointProfile,
    timestamps: bool,
    granularity: Option<TimestampGranularity>,
    a: AttemptText,
    replies: Seq<(u16, RemoteErrorText)>,
) -> UploadState
    decreases replies.len(),
{
    if replies.len() == 0 {
        UploadState::Asking(a)
    } else {
        state_after(
            p,
            timestamps,
            granularity,
            state_after_all(p, timestamps, granularity, a, replies.drop_last()),
            replies.last(),
        )
    }
}

proof fn lemma_asking_concedes(
    p: EndpointProfile,
    timestamps: bool,
    granularity: Option<TimestampGranularity>,
    a: AttemptText,
    replies: Seq<(u16, RemoteErrorText)>,
)
    ensures
        state_after_all(p, timestamps, granularity, a, replies) matches UploadState::Asking(b)
            ==> concessions(b) + replies.len() <= concessions(a),
    decreases replies.len(),
{
    if replies.len() > 0 {
        lemma_asking_concedes(p, timestamps, granularity, a, replies.drop_last());
    }
}

/// Whatever an endpoint replies, an upload ends after five requests at most.
pub proof fn law_uploads_end(
    p: EndpointProfile,
    timestamps: bool,
    granularity: Option<TimestampGranularity>,
    a: AttemptText,
    replies: Seq<(u16, RemoteErrorText)>,
)
    requires
        replies.len() >= 5,
    ensures
        !(state_after_all(p, timestamps, granularity, a, replies) is Asking),
{
    lemma_asking_concedes(p, timestamps, granularity, a, replies);
}

/// An upload that failed reports the error of its last request, and one that
/// is done got a reply of success to its last request.
pub proof fn law_last_reply_decides(
    p: EndpointProfile,
    timestamps: bool,
    granularity: Option<TimestampGranularity>,
    a: AttemptText,
    replies: Seq<(u16, RemoteErrorText)>,
) -> (last: int)
    requires
        !(state_after_all(p, timestamps, granularity, a, replies) is Asking),
    ensures
        0 <= last < replies.len(),
        state_after_all(p, timestamps, granularity, a, replies.take(last)) is Asking,
        state_after_all(p, timestamps, granularity, a, replies) == (if remote::succeeded(
            replies[last].0,
        ) {
            UploadState::Done
        } else {
            UploadState::Failed(replies[last].1)
        }),
    decreases replies.len(),
{
    let init = replies.drop_last();
    if state_after_all(p, timestamps, granularity, a, init) is Asking {
        assert(replies.take(init.len() as int) =~= init);
        init.len() as int
    } else {
        let last = law_last_reply_decides(p, timestamps, granularity, a, init);
        assert(replies.take(last) =~= init.take(last));
        last
    }
}

// ---------------------------------------------------------------------------
// Audio in requests
// ---------------------------------------------------------------------------

/// A digit of the standard base64 alphabet.
pub open spec fn base64_digit(v: int) -> char {
    if v < 26 {
        (v + 'A' as int) as char
    } else if v < 52 {
        (v - 26 + 'a' as int) as char
    } else if v < 62 {
        (v - 52 + '0' as int) as char
    } else if v == 62 {
        '+'
    } else {
        '/'
    }
}

/// Bytes in base64 with padding: three bytes make four digits.
pub open spec fn base64_text(bytes: Seq<u8>) -> Seq<char>
    decreases bytes.len(),
{
    if bytes.len() == 0 {
        seq![]
    } else {
        let a = bytes[0] as int;
        let b = if bytes.len() > 1 {
            bytes[1] as int
        } else {
            0
        };
        let c = if bytes.len() > 2 {
            bytes[2] as int
        } else {
            0
        };
        let third = if bytes.len() > 1 {
            base64_digit(b % 16 * 4 + c / 64)
        } else {
            '='
        };
        let fourth = if bytes.len() > 2 {
            base64_digit(c % 64)
        } else {
            '='
        };
        let group = seq![base64_digit(a / 4), base64_digit(a % 4 * 16 + b / 16), third, fourth];
        if bytes.len() <= 3 {
            group
        } else {
            group + base64_text(bytes.skip(3))
        }
    }
}

/// `base64::engine::general_purpose::STANDARD.encode`: bytes in base64, with
/// the standard alphabet and padding.
#[verifier::external_body]
fn encode_base64(bytes: &[u8]) -> (r: String)
    requires
        bytes@.len() <= usize::MAX / 4,
    ensures
        r@ == base64_text(bytes@),
{
    base64::Engine::encode(&base64::engine::general_purpose::STANDARD, bytes)
}

/// A transcription request that carries its audio as text.
#[derive(Debug, Clone, PartialEq, Eq)]
pub struct Base64AudioRequest {
    pub model: String,
    pub data: String,
    pub format: String,
    pub language: Option<String>,
}

/// A transcription request that carries its audio as text. The format is the
/// extension of the recording, or `wav`.
pub fn base64_request(
    bytes: &[u8],
    style: PathStyle,
    path: &str,
    model: &str,
    language: Option<&str>,
) -> (r: Base64AudioRequest)
    requires
        bytes@.len() <= usize::MAX / 4,
    ensures
        r.model@ == model@,
        r.data@ == base64_text(bytes@),
        r.format@ == (match audio_extension_of(style, path@) {
            Some(e) => e,
            None => "wav"@,
        }),
        text::opt_text(r.language) == text::opt_str(language),
{
    let format = match audio_extension(style, path) {
        Some(e) => e,
        None => text::owned("wav"),
    };
    Base64AudioRequest {
        model: text::owned(model),
        data: encode_base64(bytes),
        format,
        language: text::owned_opt(language),
    }
}

/// The name of a temporary file for an upload. A process number and a time
/// keep it apart from others.
pub fn temp_flac_name(process: u32, nanos: u128) -> (r: String)
    ensures
        r@ == "glimpse-speech-upload-"@ + text::decimal(process as nat) + "-"@ + text::decimal(
            nanos as nat,
        ) + ".flac"@,
{
    let first = text::decimal_of(process as u128);
    let second = text::decimal_of(nanos);
    let mut out = text::concat3("glimpse-speech-upload-", first.as_str(), "-");
    out.append(second.as_str());
    out.append(".flac");
    out
}

// ---------------------------------------------------------------------------
// Responses
// ---------------------------------------------------------------------------

/// A piece of a transcription with its times and its speaker.
#[non_exhaustive]
#[derive(Debug, Clone, PartialEq)]
pub struct DiarizedSegment<T> {
    pub start: T,
    pub end: T,
    pub text: String,
    pub speaker: Option<String>,
}

/// A transcription and who said what.
#[non_exhaustive]
#[derive(Debug, Clone, PartialEq)]
pub struct DiarizedTranscription<T> {
    pub transcription: Transcription<T>,
    pub segments: Option<Vec<DiarizedSegment<T>>>,
}

/// What a [`DiarizedSegment`] holds.
#[verifier::ext_equal]
pub ghost struct DiarizedText<T> {
    pub start: T,
    pub end: T,
    pub text: Seq<char>,
    pub speaker: Option<Seq<char>>,
}

/// What a [`DiarizedTranscription`] holds.
#[verifier::ext_equal]
pub ghost struct DiarizedTranscriptionText<T> {
    pub transcription: TranscriptionText<T>,
    pub segments: Option<Seq<DiarizedText<T>>>,
}

impl<T> View for DiarizedSegment<T> {
    type V = DiarizedText<T>;

    open spec fn view(&self) -> DiarizedText<T> {
        DiarizedText {
            start: self.start,
            end: self.end,
            text: self.text@,
            speaker: text::opt_text(self.speaker),
        }
    }
}

/// What a list of segments holds.
pub open spec fn diarized_texts<T>(v: Seq<DiarizedSegment<T>>) -> Seq<DiarizedText<T>> {
    Seq::new(v.len(), |i: int| v[i]@)
}

impl<T> View for DiarizedTranscription<T> {
    type V = DiarizedTranscriptionText<T>;

    open spec fn view(&self) -> DiarizedTranscriptionText<T> {
        DiarizedTranscriptionText {
            transcription: self.transcription@,
            segments: match self.segments {
                Some(v) => Some(diarized_texts(v@)),
                None => None,
            },
        }
    }
}

/// A speaker: xAI and Deepgram number speakers, the others name them.
#[derive(Debug, Clone)]
pub enum SpeakerLabel {
    Name(String),
    Index(i64),
}

/// How a speaker is called.
pub open spec fn speaker_id(label: SpeakerLabel) -> Seq<char> {
    match label {
        SpeakerLabel::Name(name) => name@,
        SpeakerLabel::Index(index) => "speaker_"@ + text::signed_decimal(index as int),
    }
}

/// How an optional speaker is called.
pub open spec fn opt_speaker_id(label: Option<SpeakerLabel>) -> Option<Seq<char>> {
    match label {
        Some(l) => Some(speaker_id(l)),
        None => None,
    }
}

impl SpeakerLabel {
    /// How a speaker is called.
    pub fn to_id(&self) -> (r: String)
        ensures
            r@ == speaker_id(*self),
    {
        match self {
            SpeakerLabel::Name(name) => name.clone(),
            SpeakerLabel::Index(index) => {
                let digits = text::signed_decimal_of(*index);
                text::concat2("speaker_", digits.as_str())
            },
        }
    }
}

fn opt_id(label: &Option<SpeakerLabel>) -> (r: Option<String>)
    ensures
        text::opt_text(r) == opt_speaker_id(*label),
{
    match label {
        Some(label) => Some(label.to_id()),
        None => None,
    }
}

/// A segment or a word as endpoints send it.
#[derive(Debug, Clone)]
pub struct UpstreamSegment<T> {
    pub start: T,
    pub end: T,
    pub text: String,
    pub word: String,
    pub speaker: Option<SpeakerLabel>,
    /// ElevenLabs: "word", "spacing", or "audio_event".
    pub kind: Option<String>,
    /// Follows the previous word with no space, as in unspaced scripts.
    pub attached: bool,
}

/// What an [`UpstreamSegment`] holds.
#[verifier::ext_equal]
pub ghost struct UpstreamText<T> {
    pub start: T,
    pub end: T,
    /// Its text, or its word where it has no text.
    pub text: Seq<char>,
    pub speaker: Option<Seq<char>>,
    pub kind: Option<Seq<char>>,
    pub attached: bool,
}

impl<T> View for UpstreamSegment<T> {
    type V = UpstreamText<T>;

    open spec fn view(&self) -> UpstreamText<T> {
        UpstreamText {
            start: self.start,
            end: self.end,
            text: if self.text@.len() == 0 {
                self.word@
            } else {
                self.text@
            },
            speaker: opt_speaker_id(self.speaker),
            kind: text::opt_text(self.kind),
            attached: self.attached,
        }
    }
}

/// What a list of upstream segments holds.
pub open spec fn upstream_texts<T>(v: Seq<UpstreamSegment<T>>) -> Seq<UpstreamText<T>> {
    Seq::new(v.len(), |i: int| v[i]@)
}

/// What an optional list of upstream segments holds.
pub open spec fn opt_upstream_texts<T>(o: Option<Vec<UpstreamSegment<T>>>) -> Option<
    Seq<UpstreamText<T>>,
> {
    match o {
        Some(v) => Some(upstream_texts(v@)),
        None => None,
    }
}

fn upstream_segment_text<T>(item: &UpstreamSegment<T>) -> (r: String)
    ensures
        r@ == item@.text,
{
    if item.text.as_str().is_empty() {
        item.word.clone()
    } else {
        item.text.clone()
    }
}

/// The words among the entries of a response, and whether white space came
/// last. Spacing and audio events are dropped; a word that no spacing
/// separates from the word before it is attached to it.
pub open spec fn spoken<T>(entries: Seq<UpstreamText<T>>) -> (Seq<UpstreamText<T>>, bool)
    decreases entries.len(),
{
    if entries.len() == 0 {
        (seq![], true)
    } else {
        let (before, spaced) = spoken(entries.drop_last());
        let entry = entries.last();
        match entry.kind {
            None => (before.push(entry), spaced),
            Some(kind) => if kind == "word"@ {
                (before.push(UpstreamText { attached: !spaced, ..entry }), false)
            } else {
                (before, true)
            },
        }
    }
}

fn copy_label(label: &Option<SpeakerLabel>) -> (r: Option<SpeakerLabel>)
    ensures
        opt_speaker_id(r) == opt_speaker_id(*label),
{
    match label {
        Some(SpeakerLabel::Name(name)) => Some(SpeakerLabel::Name(name.clone())),
        Some(SpeakerLabel::Index(index)) => Some(SpeakerLabel::Index(*index)),
        None => None,
    }
}

fn with_attached<T: Copy>(entry: &UpstreamSegment<T>, attached: bool) -> (r: UpstreamSegment<T>)
    ensures
        r@ == (UpstreamText { attached, ..entry@ }),
{
    UpstreamSegment {
        start: entry.start,
        end: entry.end,
        text: entry.text.clone(),
        word: entry.word.clone(),
        speaker: copy_label(&entry.speaker),
        kind: entry.kind.clone(),
        attached,
    }
}

/// The words among the entries of a response.
pub fn spoken_words<T: Copy>(entries: &[UpstreamSegment<T>]) -> (r: Vec<UpstreamSegment<T>>)
    ensures
        upstream_texts(r@) == spoken(upstream_texts(entries@)).0,
{
    let ghost all = upstream_texts(entries@);
    let mut words: Vec<UpstreamSegment<T>> = Vec::new();
    let mut spaced = true;
    let mut i: usize = 0;
    assert(upstream_texts(words@) =~= Seq::<UpstreamText<T>>::empty());
    while i < entries.len()
        invariant
            all == upstream_texts(entries@),
            i <= entries@.len(),
            spoken(all.take(i as int)) == (upstream_texts(words@), spaced),
        decreases entries@.len() - i,
    {
        let ghost before = upstream_texts(words@);
        proof {
            assert(all.take(i + 1).drop_last() =~= all.take(i as int));
            assert(all.take(i + 1).last() == entries@[i as int]@);
        }
        match &entries[i].kind {
            None => {
                let word = with_attached(&entries[i], entries[i].attached);
                words.push(word);
                assert(upstream_texts(words@) =~= before.push(word@));
            },
            Some(kind) => {
                if text::same(kind.as_str(), "word") {
                    let word = with_attached(&entries[i], !spaced);
                    spaced = false;
                    words.push(word);
                    assert(upstream_texts(words@) =~= before.push(word@));
                } else {
                    spaced = true;
                }
            },
        }
        i += 1;
    }
    assert(all.take(i as int) =~= all);
    words
}

/// Upstream segments as segments of a transcription.
pub open spec fn timed<T>(items: Seq<UpstreamText<T>>) -> Seq<SegmentText<T>> {
    Seq::new(
        items.len(),
        |i: int| SegmentText { start: items[i].start, end: items[i].end, text: items[i].text },
    )
}

/// Upstream segments as segments of a transcription.
pub fn map_timed_text<T: Copy>(items: &[UpstreamSegment<T>]) -> (r: Vec<TranscriptionSegment<T>>)
    ensures
        crate::segment_texts(r@) == timed(upstream_texts(items@)),
{
    let mut out: Vec<TranscriptionSegment<T>> = Vec::new();
    let mut i: usize = 0;
    while i < items.len()
        invariant
            i <= items@.len(),
            out@.len() == i,
            forall|j: int|
                0 <= j < i ==> (#[trigger] out@[j])@ == timed(upstream_texts(items@))[j],
        decreases items@.len() - i,
    {
        out.push(
            TranscriptionSegment {
                start: items[i].start,
                end: items[i].end,
                text: upstream_segment_text(&items[i]),
            },
        );
        i += 1;
    }
    assert(crate::segment_texts(out@) =~= timed(upstream_texts(items@)));
    out
}

/// Upstream segments with their speakers.
pub open spec fn diarized<T>(items: Seq<UpstreamText<T>>) -> Seq<DiarizedText<T>> {
    Seq::new(
        items.len(),
        |i: int|
            DiarizedText {
                start: items[i].start,
                end: items[i].end,
                text: items[i].text,
                speaker: items[i].speaker,
            },
    )
}

/// Upstream segments with their speakers.
pub fn map_diarized_text<T: Copy>(items: &[UpstreamSegment<T>]) -> (r: Vec<DiarizedSegment<T>>)
    ensures
        diarized_texts(r@) == diarized(upstream_texts(items@)),
{
    let mut out: Vec<DiarizedSegment<T>> = Vec::new();
    let mut i: usize = 0;
    while i < items.len()
        invariant
            i <= items@.len(),
            out@.len() == i,
            forall|j: int|
                0 <= j < i ==> (#[trigger] out@[j])@ == diarized(upstream_texts(items@))[j],
        decreases items@.len() - i,
    {
        out.push(
            DiarizedSegment {
                start: items[i].start,
                end: items[i].end,
                text: upstream_segment_text(&items[i]),
                speaker: opt_id(&items[i].speaker),
            },
        );
        i += 1;
    }
    assert(diarized_texts(out@) =~= diarized(upstream_texts(items@)));
    out
}

/// When a word starts a new segment.
pub enum Grouping<'a> {
    /// When another speaker speaks it.
    Speaker,
    /// When the segment before it ends a sentence, or a long pause comes
    /// before it. The flags say before which words.
    Sentence(&'a [bool]),
}

/// Whether a text ends a sentence.
pub open spec fn ends_sentence(s: Seq<char>) -> bool {
    s.len() > 0 && {
        let c = s.last();
        c == '.' || c == '?' || c == '!' || c == '\u{3002}' || c == '\u{ff1f}' || c == '\u{ff01}'
    }
}

/// Whether word `i`, by a given speaker, starts a new segment after `last`.
pub open spec fn starts_segment<T>(
    grouping: Grouping,
    last: DiarizedText<T>,
    i: int,
    speaker: Option<Seq<char>>,
) -> bool {
    match grouping {
        Grouping::Speaker => last.speaker != speaker,
        Grouping::Sentence(pauses) => ends_sentence(last.text) || (i < pauses@.len()
            && pauses@[i]),
    }
}

/// Words joined to segments. Blank words are dropped; a word that starts no
/// segment extends the last one, after a space unless it is attached.
pub open spec fn joined_words<T>(words: Seq<UpstreamText<T>>, grouping: Grouping) -> Seq<
    DiarizedText<T>,
>
    decreases words.len(),
{
    if words.len() == 0 {
        seq![]
    } else {
        let before = joined_words(words.drop_last(), grouping);
        let word = words.last();
        let t = text::trimmed(word.text);
        if t.len() == 0 {
            before
        } else if before.len() > 0 && !starts_segment(
            grouping,
            before.last(),
            words.len() - 1,
            word.speaker,
        ) {
            before.drop_last().push(
                DiarizedText {
                    end: word.end,
                    text: before.last().text + (if word.attached {
                        ""@
                    } else {
                        " "@
                    }) + t,
                    ..before.last()
                },
            )
        } else {
            before.push(
                DiarizedText { start: word.start, end: word.end, text: t, speaker: word.speaker },
            )
        }
    }
}

fn same_opt(a: &Option<String>, b: &Option<String>) -> (r: bool)
    ensures
        r == (text::opt_text(*a) == text::opt_text(*b)),
{
    match (a, b) {
        (Some(a), Some(b)) => text::same(a.as_str(), b.as_str()),
        (None, None) => true,
        _ => false,
    }
}

fn ends_a_sentence(s: &str) -> (r: bool)
    ensures
        r == ends_sentence(s@),
{
    let x = text::chars_of(s);
    if x.len() == 0 {
        return false;
    }
    let c = x[x.len() - 1];
    c == '.' || c == '?' || c == '!' || c == '\u{3002}' || c == '\u{ff1f}' || c == '\u{ff01}'
}

fn begins_segment<T>(
    grouping: &Grouping<'_>,
    last: &DiarizedSegment<T>,
    i: usize,
    speaker: &Option<String>,
) -> (r: bool)
    ensures
        r == starts_segment(*grouping, last@, i as int, text::opt_text(*speaker)),
{
    match grouping {
        Grouping::Speaker => !same_opt(&last.speaker, speaker),
        Grouping::Sentence(pauses) => ends_a_sentence(last.text.as_str()) || (i < pauses.len()
            && pauses[i]),
    }
}

/// Words joined to segments.
pub fn join_words<T: Copy>(words: &[UpstreamSegment<T>], grouping: Grouping<'_>) -> (r: Vec<
    DiarizedSegment<T>,
>)
    ensures
        diarized_texts(r@) == joined_words(upstream_texts(words@), grouping),
{
    let ghost all = upstream_texts(words@);
    let mut segments: Vec<DiarizedSegment<T>> = Vec::new();
    let mut i: usize = 0;
    assert(diarized_texts(segments@) =~= Seq::<DiarizedText<T>>::empty());
    while i < words.len()
        invariant
            all == upstream_texts(words@),
            i <= words@.len(),
            diarized_texts(segments@) == joined_words(all.take(i as int), grouping),
        decreases words@.len() - i,
    {
        let ghost before = diarized_texts(segments@);
        proof {
            assert(all.take(i + 1).drop_last() =~= all.take(i as int));
            assert(all.take(i + 1).last() == words@[i as int]@);
        }
        let full = upstream_segment_text(&words[i]);
        let word = text::trim(full.as_str());
        if word.as_str().is_empty() {
            i += 1;
            continue;
        }
        let speaker = opt_id(&words[i].speaker);
        let n: usize = segments.len();
        proof {
            if n > 0 {
                assert(before.last() == segments@[n - 1]@);
            }
        }
        if n > 0 && !begins_segment(&grouping, &segments[n - 1], i, &speaker) {
            let gap = if words[i].attached {
                ""
            } else {
                " "
            };
            let extended = DiarizedSegment {
                start: segments[n - 1].start,
                end: words[i].end,
                text: text::concat3(segments[n - 1].text.as_str(), gap, word.as_str()),
                speaker: segments[n - 1].speaker.clone(),
            };
            let _ = segments.pop();
            segments.push(extended);
            assert(diarized_texts(segments@) =~= before.drop_last().push(extended@));
        } else {
            let fresh = DiarizedSegment {
                start: words[i].start,
                end: words[i].end,
                text: word,
                speaker,
            };
            segments.push(fresh);
            assert(diarized_texts(segments@) =~= before.push(fresh@));
        }
        i += 1;
    }
    assert(all.take(i as int) =~= all);
    segments
}

/// Neighbouring segments that are grouped by speaker have different speakers.
pub proof fn law_neighbours_differ_in_speaker<T>(words: Seq<UpstreamText<T>>, i: int)
    requires
        0 < i < joined_words(words, Grouping::Speaker).len(),
    ensures
        joined_words(words, Grouping::Speaker)[i - 1].speaker != joined_words(
            words,
            Grouping::Speaker,
        )[i].speaker,
    decreases words.len(),
{
    let before = joined_words(words.drop_last(), Grouping::Speaker);
    let after = joined_words(words, Grouping::Speaker);
    if i < before.len() {
        law_neighbours_differ_in_speaker(words.drop_last(), i);
        assert(after[i - 1].speaker == before[i - 1].speaker);
        assert(after[i].speaker == before[i].speaker);
    } else {
        assert(after.len() == before.len() + 1);
    }
}

/// For each word, the last word before it that is not blank.
pub open spec fn spoken_before<T>(words: Seq<UpstreamText<T>>, i: int) -> Option<int>
    decreases i,
{
    if i <= 0 {
        None
    } else if !text::blank(words[i - 1].text) {
        Some(i - 1)
    } else {
        spoken_before(words, i - 1)
    }
}

/// For each word, the last word before it that is not blank.
pub fn previous_spoken<T: Copy>(words: &[UpstreamSegment<T>]) -> (r: Vec<Option<usize>>)
    ensures
        r@.len() == words@.len(),
        forall|i: int|
            0 <= i < r@.len() ==> match #[trigger] r@[i] {
                Some(j) => spoken_before(upstream_texts(words@), i) == Some(j as int),
                None => spoken_before(upstream_texts(words@), i) is None,
            },
{
    let ghost all = upstream_texts(words@);
    let mut out: Vec<Option<usize>> = Vec::new();
    let mut last: Option<usize> = None;
    let mut i: usize = 0;
    while i < words.len()
        invariant
            all == upstream_texts(words@),
            i <= words@.len(),
            out@.len() == i,
            match last {
                Some(j) => spoken_before(all, i as int) == Some(j as int),
                None => spoken_before(all, i as int) is None,
            },
            forall|k: int|
                0 <= k < i ==> match #[trigger] out@[k] {
                    Some(j) => spoken_before(all, k) == Some(j as int),
                    None => spoken_before(all, k) is None,
                },
        decreases words@.len() - i,
    {
        out.push(last);
        assert(all[i as int] == words@[i as int]@);
        let full = upstream_segment_text(&words[i]);
        if !text::is_blank(full.as_str()) {
            last = Some(i);
        }
        i += 1;
    }
    out
}

/// Words grouped by speaker; nothing where no word has one.
pub open spec fn speaker_groups<T>(words: Seq<UpstreamText<T>>) -> Option<Seq<DiarizedText<T>>> {
    if forall|i: int| 0 <= i < words.len() ==> (#[trigger] words[i]).speaker is None {
        None
    } else {
        Some(joined_words(words, Grouping::Speaker))
    }
}

/// Merges consecutive words from the same speaker into one segment.
pub fn group_speaker_words<T: Copy>(words: &[UpstreamSegment<T>]) -> (r: Option<
    Vec<DiarizedSegment<T>>,
>)
    ensures
        match r {
            Some(v) => speaker_groups(upstream_texts(words@)) == Some(diarized_texts(v@)),
            None => speaker_groups(upstream_texts(words@)) is None,
        },
{
    let ghost all = upstream_texts(words@);
    let mut i: usize = 0;
    while i < words.len()
        invariant
            all == upstream_texts(words@),
            i <= words@.len(),
            forall|j: int| 0 <= j < i ==> (#[trigger] all[j]).speaker is None,
        decreases words@.len() - i,
    {
        assert(all[i as int] == words@[i as int]@);
        if words[i].speaker.is_some() {
            assert(all[i as int].speaker is Some);
            return Some(join_words(words, Grouping::Speaker));
        }
        i += 1;
    }
    None
}

/// The times and texts of segments.
pub open spec fn without_speakers<T>(v: Seq<DiarizedText<T>>) -> Seq<SegmentText<T>> {
    Seq::new(v.len(), |i: int| SegmentText { start: v[i].start, end: v[i].end, text: v[i].text })
}

/// Timed segments for responses that only carry words: one per sentence or
/// pause. `pauses` tells before which words a long pause comes.
pub fn sentence_segments<T: Copy>(words: &[UpstreamSegment<T>], pauses: &[bool]) -> (r: Vec<
    TranscriptionSegment<T>,
>)
    ensures
        crate::segment_texts(r@) == without_speakers(
            joined_words(upstream_texts(words@), Grouping::Sentence(pauses)),
        ),
{
    let joined = join_words(words, Grouping::Sentence(pauses));
    let ghost all = diarized_texts(joined@);
    let mut out: Vec<TranscriptionSegment<T>> = Vec::new();
    let mut i: usize = 0;
    while i < joined.len()
        invariant
            all == diarized_texts(joined@),
            i <= joined@.len(),
            out@.len() == i,
            forall|j: int| 0 <= j < i ==> (#[trigger] out@[j])@ == without_speakers(all)[j],
        decreases joined@.len() - i,
    {
        assert(all[i as int] == joined@[i as int]@);
        out.push(
            TranscriptionSegment {
                start: joined[i].start,
                end: joined[i].end,
                text: joined[i].text.clone(),
            },
        );
        i += 1;
    }
    assert(crate::segment_texts(out@) =~= without_speakers(all));
    out
}

/// A response to a transcription request. Durations are in milliseconds.
#[derive(Debug)]
pub struct TranscriptionBody<T> {
    pub text: String,
    pub segments: Option<Vec<UpstreamSegment<T>>>,
    pub words: Option<Vec<UpstreamSegment<T>>>,
    pub language: Option<String>,
    pub duration_ms: Option<u128>,
    /// What the usage report says of the duration.
    pub usage_ms: Option<u128>,
    /// What the metadata say of the duration.
    pub metadata_ms: Option<u128>,
    pub results: Option<DeepgramResults<T>>,
}

#[derive(Debug)]
pub struct DeepgramResults<T> {
    pub channels: Vec<DeepgramChannel<T>>,
    pub utterances: Option<Vec<UpstreamSegment<T>>>,
}

#[derive(Debug)]
pub struct DeepgramChannel<T> {
    pub alternatives: Vec<DeepgramAlternative<T>>,
    pub detected_language: Option<String>,
}

#[derive(Debug)]
pub struct DeepgramAlternative<T> {
    pub transcript: String,
    pub words: Vec<UpstreamSegment<T>>,
}

/// A response once its transcript has been found.
#[verifier::ext_equal]
pub ghost struct FlatText<T> {
    pub text: Seq<char>,
    pub segments: Option<Seq<UpstreamText<T>>>,
    pub words: Option<Seq<UpstreamText<T>>>,
    pub language: Option<Seq<char>>,
    pub duration_ms: Option<u128>,
    pub usage_ms: Option<u128>,
}

/// A response once its transcript has been found. Deepgram nests it in the
/// first alternative of the first channel.
pub open spec fn flattened<T>(body: TranscriptionBody<T>) -> FlatText<T> {
    let plain = FlatText {
        text: body.text@,
        segments: opt_upstream_texts(body.segments),
        words: opt_upstream_texts(body.words),
        language: text::opt_text(body.language),
        duration_ms: body.duration_ms,
        usage_ms: body.usage_ms,
    };
    match body.results {
        None => plain,
        Some(results) => {
            let found = if results.channels@.len() > 0 {
                let channel = results.channels@[0];
                FlatText {
                    text: if channel.alternatives@.len() > 0 {
                        channel.alternatives@[0].transcript@
                    } else {
                        plain.text
                    },
                    words: if channel.alternatives@.len() > 0 {
                        Some(upstream_texts(channel.alternatives@[0].words@))
                    } else {
                        plain.words
                    },
                    language: remote::first_of(
                        plain.language,
                        text::opt_text(channel.detected_language),
                    ),
                    ..plain
                }
            } else {
                plain
            };
            FlatText {
                segments: remote::first_of(
                    plain.segments,
                    opt_upstream_texts(results.utterances),
                ),
                duration_ms: remote::first_of(plain.duration_ms, body.metadata_ms),
                ..found
            }
        },
    }
}

impl<T> TranscriptionBody<T> {
    /// Finds the transcript of a response.
    pub fn flatten_results(self) -> (r: TranscriptionBody<T>)
        ensures
            flattened(r) == flattened(self),
            r.results is None,
    {
        match self.results {
            None => TranscriptionBody {
                text: self.text,
                segments: self.segments,
                words: self.words,
                language: self.language,
                duration_ms: self.duration_ms,
                usage_ms: self.usage_ms,
                metadata_ms: self.metadata_ms,
                results: None,
            },
            Some(results) => {
                let mut channels = results.channels;
                let mut text = self.text;
                let mut words = self.words;
                let mut language = self.language;
                if channels.len() > 0 {
                    let channel = channels.remove(0);
                    let mut alternatives = channel.alternatives;
                    if alternatives.len() > 0 {
                        let alternative = alternatives.remove(0);
                        text = alternative.transcript;
                        words = Some(alternative.words);
                    }
                    language = remote::either(language, channel.detected_language);
                }
                let segments = match self.segments {
                    Some(segments) => Some(segments),
                    None => results.utterances,
                };
                let duration_ms = match self.duration_ms {
                    Some(duration) => Some(duration),
                    None => self.metadata_ms,
                };
                TranscriptionBody {
                    text,
                    segments,
                    words,
                    language,
                    duration_ms,
                    usage_ms: self.usage_ms,
                    metadata_ms: None,
                    results: None,
                }
            },
        }
    }
}

/// The transcription in a response.
pub open spec fn transcribed<T>(
    body: FlatText<T>,
    pauses: &[bool],
    model: Seq<char>,
    p: EndpointProfile,
    include_speakers: bool,
) -> DiarizedTranscriptionText<T> {
    let words = match body.words {
        Some(w) => Some(spoken(w).0),
        None => None,
    };
    let duration = match p.duration_source {
        DurationSource::TopLevel => body.duration_ms,
        DurationSource::UsagePromptAudioSeconds => body.usage_ms,
    };
    DiarizedTranscriptionText {
        transcription: TranscriptionText {
            text: body.text,
            segments: if body.segments is Some && body.segments->0.len() > 0 {
                Some(timed(body.segments->0))
            } else if words is Some && words->0.len() > 0 {
                Some(without_speakers(joined_words(words->0, Grouping::Sentence(pauses))))
            } else {
                None
            },
            words: if words is Some && p.supports_word_timestamps {
                Some(timed(words->0))
            } else {
                None
            },
            model_id: model,
            language: body.language,
            duration_ms: match duration {
                Some(ms) => ms as nat,
                None => 0,
            },
        },
        segments: if !include_speakers {
            None
        } else if p.diarization == Diarization::WordSpeakers {
            match words {
                Some(w) => speaker_groups(w),
                None => None,
            }
        } else {
            match body.segments {
                Some(s) => Some(diarized(s)),
                None => None,
            }
        },
    }
}

/// The spoken words of a response whose transcript has been found.
pub fn body_words<T: Copy>(body: &TranscriptionBody<T>) -> (r: Option<Vec<UpstreamSegment<T>>>)
    ensures
        match (body.words, r) {
            (Some(w), Some(v)) => upstream_texts(v@) == spoken(upstream_texts(w@)).0,
            (None, None) => true,
            _ => false,
        },
{
    match &body.words {
        Some(words) => Some(spoken_words(words.as_slice())),
        None => None,
    }
}

/// The transcription in a response. `pauses` tells before which of its spoken
/// words a long pause comes.
pub fn parse_transcription_body<T: Copy>(
    body: TranscriptionBody<T>,
    pauses: &[bool],
    model: &str,
    profile: &EndpointProfile,
    include_speakers: bool,
) -> (r: DiarizedTranscription<T>)
    ensures
        r@ == transcribed(flattened(body), pauses, model@, *profile, include_speakers),
        body.results is None ==> r.transcription.text@ == body.text@,
        body.results is None && profile.supports_word_timestamps && body.words is Some && (forall|
            i: int,
        |
            0 <= i < body.words->0@.len() ==> (#[trigger] body.words->0@[i]).kind is None) ==> {
            let sent = body.words->0@;
            let words = r.transcription.words->0@;
            &&& r.transcription.words is Some && words.len() == sent.len()
            &&& forall|i: int|
                0 <= i < words.len() ==> {
                    &&& (#[trigger] words[i]).start == sent[i].start
                    &&& words[i].end == sent[i].end
                    &&& words[i].text@ == (if sent[i].text@.len() == 0 {
                        sent[i].word@
                    } else {
                        sent[i].text@
                    })
                }
        },
        body.results is None && body.segments is Some && body.segments->0@.len() > 0 ==> {
            let sent = body.segments->0@;
            let segments = r.transcription.segments->0@;
            &&& r.transcription.segments is Some && segments.len() == sent.len()
            &&& forall|i: int|
                0 <= i < segments.len() ==> {
                    &&& (#[trigger] segments[i]).start == sent[i].start
                    &&& segments[i].end == sent[i].end
                    &&& segments[i].text@ == (if sent[i].text@.len() == 0 {
                        sent[i].word@
                    } else {
                        sent[i].text@
                    })
                }
        },
{
    let parsed = body.flatten_results();
    let duration = match profile.duration_source {
        DurationSource::TopLevel => parsed.duration_ms,
        DurationSource::UsagePromptAudioSeconds => parsed.usage_ms,
    };
    let words = body_words(&parsed);
    let diarized_segments = if !include_speakers {
        None
    } else if profile.diarization == Diarization::WordSpeakers {
        match &words {
            Some(words) => group_speaker_words(words.as_slice()),
            None => None,
        }
    } else {
        match &parsed.segments {
            Some(segments) => Some(map_diarized_text(segments.as_slice())),
            None => None,
        }
    };
    let given = match &parsed.segments {
        Some(segments) if segments.len() > 0 => Some(map_timed_text(segments.as_slice())),
        _ => None,
    };
    let segments = match given {
        Some(segments) => Some(segments),
        None => match &words {
            Some(words) if words.len() > 0 => Some(sentence_segments(words.as_slice(), pauses)),
            _ => None,
        },
    };
    let timed_words = match &words {
        Some(words) if profile.supports_word_timestamps => Some(map_timed_text(words.as_slice())),
        _ => None,
    };
    let r = DiarizedTranscription {
        transcription: Transcription {
            text: parsed.text,
            segments,
            words: timed_words,
            model_id: text::owned(model),
            language: parsed.language,
            duration_ms: match duration {
                Some(ms) => ms,
                None => 0,
            },
        },
        segments: diarized_segments,
    };
    proof {
        if body.results is None {
            lemma_fields_as_sent(r, body, pauses, model@, *profile, include_speakers);
        }
    }
    r
}

/// What a transcription that was read from a response holds, field by field.
proof fn lemma_fields_as_sent<T>(
    r: DiarizedTranscription<T>,
    body: TranscriptionBody<T>,
    pauses: &[bool],
    model: Seq<char>,
    p: EndpointProfile,
    include_speakers: bool,
)
    requires
        r@ == transcribed(flattened(body), pauses, model, p, include_speakers),
        body.results is None,
    ensures
        p.supports_word_timestamps && body.words is Some && (forall|i: int|
            0 <= i < body.words->0@.len() ==> (#[trigger] body.words->0@[i]).kind is None) ==> {
            let sent = body.words->0@;
            let words = r.transcription.words->0@;
            &&& r.transcription.words is Some && words.len() == sent.len()
            &&& forall|i: int|
                0 <= i < words.len() ==> {
                    &&& (#[trigger] words[i]).start == sent[i].start
                    &&& words[i].end == sent[i].end
                    &&& words[i].text@ == (if sent[i].text@.len() == 0 {
                        sent[i].word@
                    } else {
                        sent[i].text@
                    })
                }
        },
        body.segments is Some && body.segments->0@.len() > 0 ==> {
            let sent = body.segments->0@;
            let segments = r.transcription.segments->0@;
            &&& r.transcription.segments is Some && segments.len() == sent.len()
            &&& forall|i: int|
                0 <= i < segments.len() ==> {
                    &&& (#[trigger] segments[i]).start == sent[i].start
                    &&& segments[i].end == sent[i].end
                    &&& segments[i].text@ == (if sent[i].text@.len() == 0 {
                        sent[i].word@
                    } else {
                        sent[i].text@
                    })
                }
        },
{
    let whole = transcribed(flattened(body), pauses, model, p, include_speakers);
    if body.segments is Some && body.segments->0@.len() > 0 {
        let sent = body.segments->0@;
        let texts = upstream_texts(sent);
        assert(whole.transcription.segments == Some(timed(texts)));
        let segments = r.transcription.segments->0@;
        assert(crate::segment_texts(segments) == timed(texts));
        assert(crate::segment_texts(segments).len() == segments.len());
        assert forall|i: int| 0 <= i < segments.len() implies (#[trigger] segments[i])@
            == timed(texts)[i] && texts[i] == sent[i]@ by {
            assert(crate::segment_texts(segments)[i] == segments[i]@);
        }
    }
    if p.supports_word_timestamps && body.words is Some && (forall|i: int|
        0 <= i < body.words->0@.len() ==> (#[trigger] body.words->0@[i]).kind is None) {
        let sent = body.words->0@;
        let texts = upstream_texts(sent);
        assert forall|i: int| 0 <= i < texts.len() implies (#[trigger] texts[i]).kind is None by {
            assert(sent[i].kind is None);
        }
        lemma_all_spoken(texts);
        let words = r.transcription.words->0@;
        assert(crate::segment_texts(words) == timed(texts));
        assert(crate::segment_texts(words).len() == words.len());
        assert forall|i: int| 0 <= i < words.len() implies (#[trigger] words[i])@ == timed(texts)[i]
            && texts[i] == sent[i]@ by {
            assert(crate::segment_texts(words)[i] == words[i]@);
        }
    }
}

/// Entries without a kind are all words, as they are.
proof fn lemma_all_spoken<T>(entries: Seq<UpstreamText<T>>)
    requires
        forall|i: int| 0 <= i < entries.len() ==> (#[trigger] entries[i]).kind is None,
    ensures
        spoken(entries).0 == entries,
    decreases entries.len(),
{
    if entries.len() > 0 {
        let init = entries.drop_last();
        assert forall|i: int| 0 <= i < init.len() implies (#[trigger] init[i]).kind is None by {
            assert(entries[i].kind is None);
        }
        lemma_all_spoken(init);
        assert(entries[entries.len() - 1].kind is None);
        assert(init.push(entries.last()) =~= entries);
    } else {
        assert(spoken(entries).0 =~= entries);
    }
}

// ---------------------------------------------------------------------------
// Lists of models
// ---------------------------------------------------------------------------

/// A list of models as endpoints send it.
#[derive(Debug)]
pub enum ModelsResponse {
    Wrapped { data: Vec<ModelEntry> },
    Deepgram { stt: Vec<DeepgramModel> },
    List(Vec<ModelEntry>),
}

#[derive(Debug)]
pub struct ModelEntry {
    pub id: String,
}

/// One model and language.
#[derive(Debug)]
pub struct DeepgramModel {
    pub canonical_name: String,
    pub batch: bool,
}

/// The identifiers of entries.
pub open spec fn entry_ids(data: Seq<ModelEntry>) -> Seq<Seq<char>> {
    Seq::new(data.len(), |i: int| data[i].id@)
}

/// The different names of the models that take recordings.
pub open spec fn batch_names(stt: Seq<DeepgramModel>) -> Seq<Seq<char>>
    decreases stt.len(),
{
    if stt.len() == 0 {
        seq![]
    } else {
        let before = batch_names(stt.drop_last());
        if stt.last().batch && !before.contains(stt.last().canonical_name@) {
            before.push(stt.last().canonical_name@)
        } else {
            before
        }
    }
}

/// The models in a list.
pub open spec fn listed_ids(response: ModelsResponse) -> Seq<Seq<char>> {
    match response {
        ModelsResponse::Wrapped { data } => entry_ids(data@),
        ModelsResponse::List(data) => entry_ids(data@),
        ModelsResponse::Deepgram { stt } => batch_names(stt@),
    }
}

fn copy_ids(data: &[ModelEntry]) -> (r: Vec<String>)
    ensures
        text::texts(r@) == entry_ids(data@),
{
    let mut out: Vec<String> = Vec::new();
    let mut i: usize = 0;
    while i < data.len()
        invariant
            i <= data@.len(),
            out@.len() == i,
            forall|j: int| 0 <= j < i ==> (#[trigger] out@[j])@ == data@[j].id@,
        decreases data@.len() - i,
    {
        out.push(data[i].id.clone());
        i += 1;
    }
    assert(text::texts(out@) =~= entry_ids(data@));
    out
}

impl ModelsResponse {
    /// The models in a list, each once.
    pub fn into_ids(self) -> (r: Vec<String>)
        ensures
            text::texts(r@) == listed_ids(self),
    {
        broadcast use text::lemma_texts_push;

        match self {
            ModelsResponse::Wrapped { data } => copy_ids(data.as_slice()),
            ModelsResponse::List(data) => copy_ids(data.as_slice()),
            ModelsResponse::Deepgram { stt } => {
                let mut ids: Vec<String> = Vec::new();
                let mut i: usize = 0;
                assert(text::texts(ids@) =~= Seq::<Seq<char>>::empty());
                while i < stt.len()
                    invariant
                        i <= stt@.len(),
                        text::texts(ids@) == batch_names(stt@.take(i as int)),
                    decreases stt@.len() - i,
                {
                    proof {
                        assert(stt@.take(i + 1).drop_last() =~= stt@.take(i as int));
                        assert(stt@.take(i + 1).last() == stt@[i as int]);
                    }
                    if stt[i].batch && !text::list_contains(
                        ids.as_slice(),
                        stt[i].canonical_name.as_str(),
                    ) {
                        ids.push(stt[i].canonical_name.clone());
                    }
                    i += 1;
                }
                assert(stt@.take(i as int) =~= stt@);
                ids
            },
        }
    }
}

} // verus!
