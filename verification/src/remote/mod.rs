//! Transcription by a remote endpoint: errors, endpoint profiles and requests.

pub mod address;
pub mod engine;
pub mod laws;
pub mod provider;

use vstd::prelude::*;

use crate::text;

verus! {

/// Reports whether an endpoint and model return speaker-diarized
/// transcriptions.
pub fn supports_diarization(endpoint: &str, model: &str) -> (r: bool)
    ensures
        r == provider::diarizes(
            provider::diarization_of(provider::endpoint_host(endpoint@)),
            text::trimmed(model@),
        ),
{
    let profile = provider::resolve_profile(endpoint);
    let trimmed = text::trim(model);
    profile.supports_diarization(trimmed.as_str())
}

/// Why a remote request failed.
#[derive(Debug, Clone, Copy, PartialEq, Eq, Structural)]
pub enum RemoteErrorKind {
    RateLimited,
    QuotaExceeded,
    Unauthorized,
    InvalidRequest,
    NotFound,
    UpstreamUnavailable,
    Other,
}

/// A span of time, with less than a second in `nanos`.
#[derive(Debug, Clone, Copy, PartialEq, Eq, PartialOrd, Ord, Structural)]
pub struct Delay {
    pub secs: u64,
    pub nanos: u32,
}

impl Delay {
    /// A number of whole seconds.
    pub fn from_secs(secs: u64) -> (r: Self)
        ensures
            r == (Delay { secs, nanos: 0 }),
    {
        Delay { secs, nanos: 0 }
    }
}

/// A point in time, counted from the Unix epoch.
#[derive(Debug, Clone, Copy, PartialEq, Eq, Structural)]
pub struct UnixTime {
    pub secs: u64,
    pub nanos: u32,
}

/// A failed remote request.
#[derive(Debug, Clone, PartialEq, Eq)]
pub struct RemoteError {
    pub kind: RemoteErrorKind,
    pub status: u16,
    pub message: String,
    pub error_type: Option<String>,
    pub code: Option<String>,
    pub param: Option<String>,
    pub retry_after: Option<Delay>,
}

/// What a [`RemoteError`] holds.
#[verifier::ext_equal]
pub ghost struct RemoteErrorText {
    pub kind: RemoteErrorKind,
    pub status: u16,
    pub message: Seq<char>,
    pub error_type: Option<Seq<char>>,
    pub code: Option<Seq<char>>,
    pub param: Option<Seq<char>>,
    pub retry_after: Option<Delay>,
}

impl View for RemoteError {
    type V = RemoteErrorText;

    open spec fn view(&self) -> RemoteErrorText {
        RemoteErrorText {
            kind: self.kind,
            status: self.status,
            message: self.message@,
            error_type: text::opt_text(self.error_type),
            code: text::opt_text(self.code),
            param: text::opt_text(self.param),
            retry_after: self.retry_after,
        }
    }
}

/// An error that carries nothing but its kind, status and message.
pub open spec fn bare_error(
    kind: RemoteErrorKind,
    status: u16,
    message: Seq<char>,
) -> RemoteErrorText {
    RemoteErrorText {
        kind,
        status,
        message,
        error_type: None,
        code: None,
        param: None,
        retry_after: None,
    }
}

/// Whether a local engine should take over after an error: the endpoint could
/// not be reached, failed by itself, or timed out.
pub open spec fn calls_for_fallback(kind: RemoteErrorKind, status: u16) -> bool {
    ||| kind == RemoteErrorKind::UpstreamUnavailable && (status == 0 || status >= 500)
    ||| kind == RemoteErrorKind::Other && status >= 500
    ||| status == 408
}

/// What is shown to the user.
pub open spec fn shown_message(e: RemoteErrorText) -> Seq<char> {
    match e.kind {
        RemoteErrorKind::RateLimited => match e.retry_after {
            Some(delay) => {
                let seconds: nat = if delay.secs > 1 {
                    delay.secs as nat
                } else {
                    1
                };
                "Remote speech rate limit reached. Try again in about "@ + text::decimal(seconds)
                    + " second"@ + (if seconds == 1 {
                    ""@
                } else {
                    "s"@
                }) + "."@
            },
            None => "Remote speech rate limit reached. Try again in a moment."@,
        },
        RemoteErrorKind::QuotaExceeded =>
            "Remote speech quota exceeded. Check your provider billing or usage limits."@,
        RemoteErrorKind::Unauthorized => "Remote speech API key is invalid or expired."@,
        RemoteErrorKind::NotFound => "Remote speech endpoint or model was not found."@,
        RemoteErrorKind::UpstreamUnavailable =>
            "Remote speech provider is temporarily unavailable."@,
        RemoteErrorKind::InvalidRequest => e.message,
        RemoteErrorKind::Other => e.message,
    }
}

impl RemoteError {
    /// Whether a local engine should take over.
    pub fn should_fallback(&self) -> (r: bool)
        ensures
            r == calls_for_fallback(self.kind, self.status),
    {
        match self.kind {
            RemoteErrorKind::UpstreamUnavailable if self.status == 0 => true,
            RemoteErrorKind::UpstreamUnavailable if self.status >= 500 => true,
            RemoteErrorKind::Other if self.status >= 500 => true,
            _ => self.status == 408,
        }
    }

    /// What is shown to the user.
    pub fn user_message(&self) -> (r: String)
        ensures
            r@ == shown_message(self@),
    {
        match self.kind {
            RemoteErrorKind::RateLimited => {
                if let Some(retry_after) = self.retry_after {
                    let seconds: u64 = if retry_after.secs > 1 {
                        retry_after.secs
                    } else {
                        1
                    };
                    let digits = text::decimal_of(seconds as u128);
                    let plural = if seconds == 1 {
                        ""
                    } else {
                        "s"
                    };
                    let mut out = text::owned(
                        "Remote speech rate limit reached. Try again in about ",
                    );
                    out.append(digits.as_str());
                    out.append(" second");
                    out.append(plural);
                    out.append(".");
                    out
                } else {
                    text::owned("Remote speech rate limit reached. Try again in a moment.")
                }
            },
            RemoteErrorKind::QuotaExceeded => text::owned(
                "Remote speech quota exceeded. Check your provider billing or usage limits.",
            ),
            RemoteErrorKind::Unauthorized => text::owned(
                "Remote speech API key is invalid or expired.",
            ),
            RemoteErrorKind::NotFound => text::owned(
                "Remote speech endpoint or model was not found.",
            ),
            RemoteErrorKind::UpstreamUnavailable => text::owned(
                "Remote speech provider is temporarily unavailable.",
            ),
            RemoteErrorKind::InvalidRequest | RemoteErrorKind::Other => self.message.clone(),
        }
    }
}

/// The shape of a response that is asked for.
#[derive(Debug, Clone, Copy, PartialEq, Eq, Structural)]
pub enum ResponseFormat {
    Json,
    VerboseJson,
}

impl ResponseFormat {
    /// The name of a format in requests.
    pub open spec fn name(self) -> Seq<char> {
        match self {
            ResponseFormat::Json => "json"@,
            ResponseFormat::VerboseJson => "verbose_json"@,
        }
    }

    pub fn as_str(self) -> (r: &'static str)
        ensures
            r@ == self.name(),
    {
        match self {
            ResponseFormat::Json => "json",
            ResponseFormat::VerboseJson => "verbose_json",
        }
    }
}

/// An error body as endpoints send it.
#[derive(Debug)]
pub struct ErrorEnvelope {
    pub error: Option<UpstreamErrorBody>,
    pub message: Option<String>,
    /// ElevenLabs.
    pub detail: Option<ErrorDetail>,
    /// Deepgram.
    pub err_code: Option<String>,
    pub err_msg: Option<String>,
    pub category: Option<String>,
}

/// The `error` object of an error body. A numeric code is held as text.
#[derive(Debug)]
pub struct UpstreamErrorBody {
    pub message: String,
    pub error_type: Option<String>,
    pub code: Option<String>,
    pub param: Option<String>,
}

/// The `detail` of an error body.
#[derive(Debug)]
pub enum ErrorDetail {
    Body(DetailBody),
    Validation(Vec<ValidationIssue>),
    Text(String),
}

#[derive(Debug)]
pub struct DetailBody {
    pub message: Option<String>,
    pub error_type: Option<String>,
    pub code: Option<String>,
    pub param: Option<String>,
    /// Older responses put the code here.
    pub status: Option<String>,
}

/// One rejected input. An element of `loc` that is not a string is `None`.
#[derive(Debug)]
pub struct ValidationIssue {
    pub msg: String,
    pub loc: Vec<Option<String>>,
}

/// What is taken from an error body.
#[derive(Debug)]
pub struct ErrorFields {
    pub message: Option<String>,
    pub error_type: Option<String>,
    pub code: Option<String>,
    pub param: Option<String>,
}

/// What an [`ErrorFields`] holds.
#[verifier::ext_equal]
pub ghost struct ErrorFieldsText {
    pub message: Option<Seq<char>>,
    pub error_type: Option<Seq<char>>,
    pub code: Option<Seq<char>>,
    pub param: Option<Seq<char>>,
}

impl View for ErrorFields {
    type V = ErrorFieldsText;

    open spec fn view(&self) -> ErrorFieldsText {
        ErrorFieldsText {
            message: text::opt_text(self.message),
            error_type: text::opt_text(self.error_type),
            code: text::opt_text(self.code),
            param: text::opt_text(self.param),
        }
    }
}

/// The first of two optional values that is there.
pub open spec fn first_of<A>(a: Option<A>, b: Option<A>) -> Option<A> {
    if a is Some {
        a
    } else {
        b
    }
}

/// The first of two optional texts that is there.
pub(crate) fn either(a: Option<String>, b: Option<String>) -> (r: Option<String>)
    ensures
        r == first_of(a, b),
{
    match a {
        Some(v) => Some(v),
        None => b,
    }
}

/// The messages of a list of rejected inputs.
pub open spec fn issue_texts(issues: Seq<ValidationIssue>) -> Seq<Seq<char>> {
    Seq::new(issues.len(), |i: int| issues[i].msg@)
}

/// Where the first rejected input was found, if that has a name.
pub open spec fn issue_param(issues: Seq<ValidationIssue>) -> Option<Seq<char>> {
    if issues.len() > 0 && issues[0].loc@.len() > 0 {
        text::opt_text(issues[0].loc@.last())
    } else {
        None
    }
}

/// What is taken from an error body: its `error` object, else its `detail`,
/// else its own fields.
pub open spec fn envelope_fields(e: ErrorEnvelope) -> ErrorFieldsText {
    match e.error {
        Some(error) => ErrorFieldsText {
            message: Some(error.message@),
            error_type: text::opt_text(error.error_type),
            code: text::opt_text(error.code),
            param: text::opt_text(error.param),
        },
        None => match e.detail {
            Some(ErrorDetail::Body(detail)) => ErrorFieldsText {
                message: text::opt_text(detail.message),
                error_type: text::opt_text(detail.error_type),
                code: first_of(text::opt_text(detail.code), text::opt_text(detail.status)),
                param: text::opt_text(detail.param),
            },
            Some(ErrorDetail::Validation(issues)) => ErrorFieldsText {
                message: Some(text::joined(issue_texts(issues@), "; "@)),
                error_type: None,
                code: None,
                param: issue_param(issues@),
            },
            Some(ErrorDetail::Text(message)) => ErrorFieldsText {
                message: Some(message@),
                error_type: None,
                code: None,
                param: None,
            },
            None => ErrorFieldsText {
                message: first_of(text::opt_text(e.err_msg), text::opt_text(e.message)),
                error_type: None,
                code: first_of(text::opt_text(e.err_code), text::opt_text(e.category)),
                param: None,
            },
        },
    }
}

/// What is taken from a body that is no error body.
pub open spec fn no_fields() -> ErrorFieldsText {
    ErrorFieldsText { message: None, error_type: None, code: None, param: None }
}

fn issue_messages(issues: &[ValidationIssue]) -> (r: Vec<String>)
    ensures
        text::texts(r@) == issue_texts(issues@),
{
    let mut out: Vec<String> = Vec::new();
    let mut i: usize = 0;
    while i < issues.len()
        invariant
            i <= issues@.len(),
            out@.len() == i,
            forall|j: int| 0 <= j < i ==> (#[trigger] out@[j])@ == issues@[j].msg@,
        decreases issues@.len() - i,
    {
        out.push(issues[i].msg.clone());
        i += 1;
    }
    assert(text::texts(out@) =~= issue_texts(issues@));
    out
}

impl ErrorEnvelope {
    /// What is taken from an error body.
    pub fn into_fields(self) -> (r: ErrorFields)
        ensures
            r@ == envelope_fields(self),
    {
        if let Some(error) = self.error {
            return ErrorFields {
                message: Some(error.message),
                error_type: error.error_type,
                code: error.code,
                param: error.param,
            };
        }
        match self.detail {
            Some(ErrorDetail::Body(detail)) => ErrorFields {
                message: detail.message,
                error_type: detail.error_type,
                code: either(detail.code, detail.status),
                param: detail.param,
            },
            Some(ErrorDetail::Validation(issues)) => {
                let messages = issue_messages(issues.as_slice());
                let param = if issues.len() > 0 && issues[0].loc.len() > 0 {
                    issues[0].loc[issues[0].loc.len() - 1].clone()
                } else {
                    None
                };
                ErrorFields {
                    message: Some(text::join(messages.as_slice(), "; ")),
                    error_type: None,
                    code: None,
                    param,
                }
            },
            Some(ErrorDetail::Text(message)) => ErrorFields {
                message: Some(message),
                error_type: None,
                code: None,
                param: None,
            },
            None => ErrorFields {
                message: either(self.err_msg, self.message),
                error_type: None,
                code: either(self.err_code, self.category),
                param: None,
            },
        }
    }
}

/// A request that cannot be made.
pub fn config_error(message: &str) -> (r: RemoteError)
    ensures
        r@ == bare_error(RemoteErrorKind::InvalidRequest, 0, message@),
{
    RemoteError {
        kind: RemoteErrorKind::InvalidRequest,
        status: 0,
        message: text::owned(message),
        error_type: None,
        code: None,
        param: None,
        retry_after: None,
    }
}

/// A request that did not reach the endpoint.
pub fn transport_error(message: &str) -> (r: RemoteError)
    ensures
        r@ == bare_error(RemoteErrorKind::UpstreamUnavailable, 0, message@),
{
    RemoteError {
        kind: RemoteErrorKind::UpstreamUnavailable,
        status: 0,
        message: text::owned(message),
        error_type: None,
        code: None,
        param: None,
        retry_after: None,
    }
}

/// A response that cannot be read.
pub fn response_error(status: u16, message: &str) -> (r: RemoteError)
    ensures
        r@ == bare_error(RemoteErrorKind::Other, status, message@),
{
    RemoteError {
        kind: RemoteErrorKind::Other,
        status,
        message: text::owned(message),
        error_type: None,
        code: None,
        param: None,
        retry_after: None,
    }
}

/// How `http::StatusCode` is displayed: its number and its reason phrase.
pub uninterp spec fn status_line(status: u16) -> Seq<char>;

/// `http::StatusCode::to_string`: the number of a status code and its
/// reason phrase, which depend on the number alone.
#[verifier::external_body]
pub(crate) fn status_text(status: u16) -> (r: String)
    requires
        100 <= status <= 999,
    ensures
        r@ == status_line(status),
{
    reqwest::StatusCode::from_u16(status).unwrap().to_string()
}

/// The message of a failed request: what the endpoint said, else the body,
/// else the status.
pub open spec fn upstream_message(status: u16, said: Option<Seq<char>>, body: Seq<char>) -> Seq<
    char,
> {
    if said is Some && !text::blank(said->0) {
        said->0
    } else if !text::blank(body) {
        text::trimmed(body)
    } else {
        "Remote speech request failed with status "@ + status_line(status)
    }
}

/// The error for a response with a failure status.
pub open spec fn upstream_error(
    status: u16,
    retry_after: Option<Delay>,
    fields: ErrorFieldsText,
    body: Seq<char>,
) -> RemoteErrorText {
    RemoteErrorText {
        kind: classified(status, fields.error_type, fields.code),
        status,
        message: upstream_message(status, fields.message, body),
        error_type: fields.error_type,
        code: fields.code,
        param: fields.param,
        retry_after,
    }
}

/// The error for a response with a failure status. `envelope` is the body
/// read as an error body, when it is one.
pub fn parse_upstream_error(
    status: u16,
    retry_after: Option<Delay>,
    envelope: Option<ErrorEnvelope>,
    body: &str,
) -> (r: RemoteError)
    requires
        100 <= status <= 999,
    ensures
        r@ == upstream_error(
            status,
            retry_after,
            match envelope {
                Some(e) => envelope_fields(e),
                None => no_fields(),
            },
            body@,
        ),
{
    let fields = match envelope {
        Some(envelope) => envelope.into_fields(),
        None => ErrorFields { message: None, error_type: None, code: None, param: None },
    };
    let ghost said = fields@;
    let message = match fields.message {
        Some(message) if !text::is_blank(message.as_str()) => message,
        _ => {
            let trimmed = text::trim(body);
            if trimmed.as_str().is_empty() {
                let line = status_text(status);
                text::concat2("Remote speech request failed with status ", line.as_str())
            } else {
                trimmed
            }
        },
    };
    let error_type = fields.error_type;
    let code = fields.code;
    let kind = classify_upstream_error(status, text::as_deref(&error_type), text::as_deref(&code));
    RemoteError { kind, status, message, error_type, code, param: fields.param, retry_after }
}

/// What an endpoint replied. `envelope` is the body read as an error body,
/// when it is one.
#[derive(Debug)]
pub struct Reply {
    pub status: u16,
    pub retry_after: Option<Delay>,
    pub envelope: Option<ErrorEnvelope>,
    pub body: String,
}

/// Whether a status says that a request succeeded.
pub open spec fn succeeded(status: u16) -> bool {
    200 <= status <= 299
}

/// The error that a reply stands for, where it is none of success.
pub open spec fn reply_error(reply: Reply) -> RemoteErrorText {
    upstream_error(
        reply.status,
        reply.retry_after,
        match reply.envelope {
            Some(e) => envelope_fields(e),
            None => no_fields(),
        },
        reply.body@,
    )
}

/// The body of a reply of success, or the error that it stands for.
pub fn check_reply(reply: Reply) -> (r: Result<String, RemoteError>)
    requires
        100 <= reply.status <= 999,
    ensures
        match r {
            Ok(body) => succeeded(reply.status) && body@ == reply.body@,
            Err(e) => !succeeded(reply.status) && e@ == reply_error(reply),
        },
{
    if 200 <= reply.status && reply.status <= 299 {
        return Ok(reply.body);
    }
    Err(
        parse_upstream_error(
            reply.status,
            reply.retry_after,
            reply.envelope,
            reply.body.as_str(),
        ),
    )
}

/// Whether a code is one of several, letter case aside.
pub open spec fn code_is(code: Option<Seq<char>>, expected: Seq<Seq<char>>) -> bool {
    code is Some && text::one_of(text::ascii_lower(code->0), expected)
}

/// The codes that name an exceeded rate.
pub open spec fn rate_codes() -> Seq<Seq<char>> {
    seq![
        "rate_limit_exceeded"@,
        "rate_limit"@,
        "concurrent_limit_exceeded"@,
        "system_busy"@,
    ]
}

/// The codes that name an exhausted quota.
pub open spec fn quota_codes() -> Seq<Seq<char>> {
    seq![
        "insufficient_quota"@,
        "billing_not_active"@,
        "insufficient_credits"@,
        "quota_exceeded"@,
    ]
}

/// The codes that name a refused key.
pub open spec fn auth_codes() -> Seq<Seq<char>> {
    seq![
        "invalid_api_key"@,
        "invalid_authentication"@,
        "missing_api_key"@,
        "invalid_auth"@,
    ]
}

/// What an error type says of the kind, if anything.
pub open spec fn kind_of_type(error_type: Seq<char>) -> Option<RemoteErrorKind> {
    let t = text::ascii_lower(error_type);
    if text::contains_text(t, "insufficient_quota"@) || text::contains_text(t, "billing"@) {
        Some(RemoteErrorKind::QuotaExceeded)
    } else if text::contains_text(t, "rate_limit"@) || text::contains_text(t, "tokens"@) {
        Some(RemoteErrorKind::RateLimited)
    } else if text::contains_text(t, "invalid_request"@) {
        Some(RemoteErrorKind::InvalidRequest)
    } else if text::contains_text(t, "authentication"@) || text::contains_text(t, "permission"@) {
        Some(RemoteErrorKind::Unauthorized)
    } else {
        None
    }
}

/// What a status says of the kind.
pub open spec fn kind_of_status(status: u16) -> RemoteErrorKind {
    if status == 401 || status == 403 {
        RemoteErrorKind::Unauthorized
    } else if status == 402 {
        RemoteErrorKind::QuotaExceeded
    } else if status == 404 {
        RemoteErrorKind::NotFound
    } else if status == 408 || status == 429 {
        RemoteErrorKind::RateLimited
    } else if status == 400 || status == 413 || status == 415 || status == 422 {
        RemoteErrorKind::InvalidRequest
    } else if status >= 500 {
        RemoteErrorKind::UpstreamUnavailable
    } else {
        RemoteErrorKind::Other
    }
}

/// The kind of a failed request. The code counts most, the status least.
pub open spec fn classified(
    status: u16,
    error_type: Option<Seq<char>>,
    code: Option<Seq<char>>,
) -> RemoteErrorKind {
    if code_is(code, rate_codes()) {
        RemoteErrorKind::RateLimited
    } else if code_is(code, quota_codes()) {
        RemoteErrorKind::QuotaExceeded
    } else if code_is(code, auth_codes()) {
        RemoteErrorKind::Unauthorized
    } else if code_is(code, seq!["model_not_found"@]) {
        RemoteErrorKind::NotFound
    } else if error_type is Some && kind_of_type(error_type->0) is Some {
        kind_of_type(error_type->0)->0
    } else {
        kind_of_status(status)
    }
}

fn matches_code(code: Option<&str>, expected: &[&str]) -> (r: bool)
    ensures
        r == code_is(text::opt_str(code), text::strs(expected@)),
{
    match code {
        Some(value) => {
            let normalized = text::to_ascii_lowercase(value);
            text::is_one_of(normalized.as_str(), expected)
        },
        None => false,
    }
}

/// The kind of a failed request.
pub fn classify_upstream_error(
    status: u16,
    error_type: Option<&str>,
    code: Option<&str>,
) -> (r: RemoteErrorKind)
    ensures
        r == classified(status, text::opt_str(error_type), text::opt_str(code)),
{
    let rate: [&str; 4] = [
        "rate_limit_exceeded",
        "rate_limit",
        "concurrent_limit_exceeded",
        "system_busy",
    ];
    assert(text::strs(rate@) =~= rate_codes());
    if matches_code(code, &rate) {
        return RemoteErrorKind::RateLimited;
    }
    let quota: [&str; 4] = [
        "insufficient_quota",
        "billing_not_active",
        "insufficient_credits",
        "quota_exceeded",
    ];
    assert(text::strs(quota@) =~= quota_codes());
    if matches_code(code, &quota) {
        return RemoteErrorKind::QuotaExceeded;
    }
    let auth: [&str; 4] = [
        "invalid_api_key",
        "invalid_authentication",
        "missing_api_key",
        "invalid_auth",
    ];
    assert(text::strs(auth@) =~= auth_codes());
    if matches_code(code, &auth) {
        return RemoteErrorKind::Unauthorized;
    }
    let missing: [&str; 1] = ["model_not_found"];
    assert(text::strs(missing@) =~= seq!["model_not_found"@]);
    if matches_code(code, &missing) {
        return RemoteErrorKind::NotFound;
    }
    if let Some(error_type) = error_type {
        let normalized = text::to_ascii_lowercase(error_type);
        let t = normalized.as_str();
        if text::contains(t, "insufficient_quota") || text::contains(t, "billing") {
            return RemoteErrorKind::QuotaExceeded;
        }
        if text::contains(t, "rate_limit") || text::contains(t, "tokens") {
            return RemoteErrorKind::RateLimited;
        }
        if text::contains(t, "invalid_request") {
            return RemoteErrorKind::InvalidRequest;
        }
        if text::contains(t, "authentication") || text::contains(t, "permission") {
            return RemoteErrorKind::Unauthorized;
        }
    }
    match status {
        401 | 403 => RemoteErrorKind::Unauthorized,
        402 => RemoteErrorKind::QuotaExceeded,
        404 => RemoteErrorKind::NotFound,
        408 | 429 => RemoteErrorKind::RateLimited,
        400 | 413 | 415 | 422 => RemoteErrorKind::InvalidRequest,
        code if code >= 500 => RemoteErrorKind::UpstreamUnavailable,
        _ => RemoteErrorKind::Other,
    }
}

/// The seconds from the Unix epoch to the moment that an HTTP date names, if
/// the text is one.
pub uninterp spec fn http_date(s: Seq<char>) -> Option<u64>;

/// `httpdate::parse_http_date`: reads a date in one of the three forms that
/// HTTP allows. The moment depends on the text alone and is a whole number of
/// seconds after the Unix epoch.
#[verifier::external_body]
fn parse_http_date(s: &str) -> (r: Option<u64>)
    ensures
        r == http_date(s@),
{
    let when = httpdate::parse_http_date(s).ok()?;
    when.duration_since(std::time::UNIX_EPOCH).ok().map(|since| since.as_secs())
}

/// Nanoseconds from the Unix epoch.
pub open spec fn nanos_of(secs: u64, nanos: u32) -> int {
    secs as int * 1_000_000_000 + nanos as int
}

/// How long it is from `now` until `when` seconds after the Unix epoch. No
/// time when that is past.
pub fn delay_until(when: u64, now: UnixTime) -> (r: Delay)
    requires
        now.nanos < 1_000_000_000,
    ensures
        r.nanos < 1_000_000_000,
        nanos_of(r.secs, r.nanos) == (if nanos_of(when, 0) > nanos_of(now.secs, now.nanos) {
            nanos_of(when, 0) - nanos_of(now.secs, now.nanos)
        } else {
            0
        }),
{
    if when <= now.secs {
        Delay { secs: 0, nanos: 0 }
    } else if now.nanos == 0 {
        Delay { secs: when - now.secs, nanos: 0 }
    } else {
        Delay { secs: when - now.secs - 1, nanos: 1_000_000_000 - now.nanos }
    }
}

/// Reads a `Retry-After` header: a number of seconds, or the date at which to
/// try again.
pub fn parse_retry_after(value: Option<&str>, now: UnixTime) -> (r: Option<Delay>)
    requires
        now.nanos < 1_000_000_000,
    ensures
        match value {
            None => r is None,
            Some(v) => match text::unsigned(text::trimmed(v@)) {
                Some(secs) => r == Some(Delay { secs, nanos: 0 }),
                None => match http_date(text::trimmed(v@)) {
                    None => r is None,
                    Some(when) => {
                        &&& r matches Some(d)
                        &&& d.nanos < 1_000_000_000
                        &&& nanos_of(d.secs, d.nanos) == (if nanos_of(when, 0) > nanos_of(
                            now.secs,
                            now.nanos,
                        ) {
                            nanos_of(when, 0) - nanos_of(now.secs, now.nanos)
                        } else {
                            0
                        })
                    },
                },
            },
        },
{
    match value {
        None => None,
        Some(value) => {
            let raw = text::trim(value);
            if let Some(seconds) = text::parse_u64(raw.as_str()) {
                return Some(Delay::from_secs(seconds));
            }
            match parse_http_date(raw.as_str()) {
                Some(when) => Some(delay_until(when, now)),
                None => None,
            }
        },
    }
}

/// A failure that the endpoint answers with a server error and no better
/// explanation is left to a local engine.
pub proof fn law_server_errors_fall_back(status: u16)
    requires
        status >= 500,
    ensures
        calls_for_fallback(classified(status, None, None), status),
{
}

/// A request that the endpoint refused is never left to a local engine,
/// unless the status is that of a timeout.
pub proof fn law_refused_requests_do_not_fall_back(kind: RemoteErrorKind, status: u16)
    requires
        kind != RemoteErrorKind::UpstreamUnavailable,
        kind != RemoteErrorKind::Other,
        status != 408,
    ensures
        !calls_for_fallback(kind, status),
{
}

} // verus!
