//! What holds of failed requests: how they are classified, what is said of
//! them, and what they lead to.

use vstd::prelude::*;

use crate::remote;
use crate::remote::engine;
use crate::remote::engine::AttemptText;
use crate::remote::provider::EndpointProfile;
use crate::remote::{
    ErrorDetail, ErrorEnvelope, RemoteErrorKind, RemoteErrorText, ResponseFormat,
};
use crate::text;
use crate::TimestampGranularity;

verus! {

/// Without a code and a type the status alone says why a request failed: 401 and
/// 403 refuse the key, 402 is a matter of the quota, 404 names nothing, 408 and
/// 429 ask for patience, 400, 413, 415 and 422 blame the request, and from 500 on
/// the endpoint itself failed.
pub proof fn law_statuses_have_kinds(status: u16)
    ensures
        ({
            let kind = remote::classified(status, None, None);
            &&& kind == RemoteErrorKind::Unauthorized <==> status == 401 || status == 403
            &&& kind == RemoteErrorKind::QuotaExceeded <==> status == 402
            &&& kind == RemoteErrorKind::NotFound <==> status == 404
            &&& kind == RemoteErrorKind::RateLimited <==> status == 408 || status == 429
            &&& kind == RemoteErrorKind::InvalidRequest <==> status == 400 || status == 413
                || status == 415 || status == 422
            &&& kind == RemoteErrorKind::UpstreamUnavailable <==> status >= 500
        }),
{
}

/// A code that names its reason counts more than the type and the status, in
/// any letter case; one that names nothing changes nothing.
pub proof fn law_codes_count_most(status: u16, error_type: Option<Seq<char>>, code: Seq<char>)
    ensures
        ({
            let c = text::ascii_lower(code);
            let kind = remote::classified(status, error_type, Some(code));
            let rate = c == "rate_limit_exceeded"@ || c == "rate_limit"@ || c
                == "concurrent_limit_exceeded"@ || c == "system_busy"@;
            let quota = c == "insufficient_quota"@ || c == "billing_not_active"@ || c
                == "insufficient_credits"@ || c == "quota_exceeded"@;
            let auth = c == "invalid_api_key"@ || c == "invalid_authentication"@ || c
                == "missing_api_key"@ || c == "invalid_auth"@;
            let missing = c == "model_not_found"@;
            &&& rate ==> kind == RemoteErrorKind::RateLimited
            &&& quota && !rate ==> kind == RemoteErrorKind::QuotaExceeded
            &&& auth && !rate && !quota ==> kind == RemoteErrorKind::Unauthorized
            &&& missing && !rate && !quota && !auth ==> kind == RemoteErrorKind::NotFound
            &&& !rate && !quota && !auth && !missing ==> kind == remote::classified(
                status,
                error_type,
                None,
            )
        }),
{
    let c = text::ascii_lower(code);
    let rate = remote::rate_codes();
    let quota = remote::quota_codes();
    let auth = remote::auth_codes();
    assert(rate[0] == "rate_limit_exceeded"@ && rate[1] == "rate_limit"@ && rate[2]
        == "concurrent_limit_exceeded"@ && rate[3] == "system_busy"@);
    assert(quota[0] == "insufficient_quota"@ && quota[1] == "billing_not_active"@ && quota[2]
        == "insufficient_credits"@ && quota[3] == "quota_exceeded"@);
    assert(auth[0] == "invalid_api_key"@ && auth[1] == "invalid_authentication"@ && auth[2]
        == "missing_api_key"@ && auth[3] == "invalid_auth"@);
    let missing = seq!["model_not_found"@];
    assert(missing[0] == "model_not_found"@);
}

/// Without such a code the type counts before the status, where it speaks of the
/// quota, of the rate, of the request or of the key, in this order.
pub proof fn law_types_count_before_statuses(status: u16, error_type: Seq<char>)
    ensures
        ({
            let t = text::ascii_lower(error_type);
            let kind = remote::classified(status, Some(error_type), None);
            let quota = text::contains_text(t, "insufficient_quota"@) || text::contains_text(
                t,
                "billing"@,
            );
            let rate = text::contains_text(t, "rate_limit"@) || text::contains_text(t, "tokens"@);
            let request = text::contains_text(t, "invalid_request"@);
            let auth = text::contains_text(t, "authentication"@) || text::contains_text(
                t,
                "permission"@,
            );
            &&& quota ==> kind == RemoteErrorKind::QuotaExceeded
            &&& rate && !quota ==> kind == RemoteErrorKind::RateLimited
            &&& request && !quota && !rate ==> kind == RemoteErrorKind::InvalidRequest
            &&& auth && !quota && !rate && !request ==> kind == RemoteErrorKind::Unauthorized
            &&& !quota && !rate && !request && !auth ==> kind == remote::classified(
                status,
                None,
                None,
            )
        }),
{
}

/// A local engine takes over after a timeout, after a failure of the endpoint
/// itself, and where the endpoint could not be reached; after nothing else.
pub proof fn law_when_a_local_engine_takes_over(kind: RemoteErrorKind, status: u16)
    ensures
        remote::calls_for_fallback(kind, status) <==> {
            ||| status == 408
            ||| status >= 500 && (kind == RemoteErrorKind::UpstreamUnavailable || kind
                == RemoteErrorKind::Other)
            ||| status == 0 && kind == RemoteErrorKind::UpstreamUnavailable
        },
{
}

/// A status from 200 to 299 is one of success, and no other is.
pub proof fn law_success(status: u16)
    ensures
        remote::succeeded(status) <==> status / 100 == 2,
{
}

/// An error says what the endpoint said, or else the body of its reply, or else
/// the status; and it keeps the status, the delay and what was named.
pub proof fn law_errors_say_what_was_said(
    status: u16,
    retry_after: Option<remote::Delay>,
    fields: remote::ErrorFieldsText,
    body: Seq<char>,
)
    ensures
        ({
            let e = remote::upstream_error(status, retry_after, fields, body);
            &&& e.status == status && e.retry_after == retry_after
            &&& e.error_type == fields.error_type && e.code == fields.code && e.param
                == fields.param
            &&& e.kind == remote::classified(status, fields.error_type, fields.code)
            &&& fields.message is Some && text::trimmed(fields.message->0).len() > 0 ==> e.message
                == fields.message->0
            &&& (fields.message is None || text::trimmed(fields.message->0).len() == 0)
                && text::trimmed(body).len() > 0 ==> e.message == text::trimmed(body)
            &&& (fields.message is None || text::trimmed(fields.message->0).len() == 0)
                && text::trimmed(body).len() == 0 ==> e.message
                == "Remote speech request failed with status "@ + remote::status_line(status)
        }),
{
}

/// The error object of an error body counts most, then its detail, then its own
/// fields.
pub proof fn law_error_bodies_are_read(e: ErrorEnvelope)
    ensures
        ({
            let f = remote::envelope_fields(e);
            &&& e.error is Some ==> {
                let error = e.error->0;
                &&& f.message == Some(error.message@)
                &&& error.error_type is Some ==> f.error_type == Some(error.error_type->0@)
                &&& error.error_type is None ==> f.error_type is None
                &&& error.code is Some ==> f.code == Some(error.code->0@)
                &&& error.code is None ==> f.code is None
                &&& error.param is Some ==> f.param == Some(error.param->0@)
                &&& error.param is None ==> f.param is None
            }
            &&& e.error is None && e.detail is Some ==> match e.detail->0 {
                ErrorDetail::Text(message) => f.message == Some(message@) && f.code is None
                    && f.error_type is None && f.param is None,
                ErrorDetail::Validation(issues) => {
                    &&& f.code is None && f.error_type is None
                    &&& issues@.len() == 1 ==> f.message == Some(issues@[0].msg@)
                    &&& issues@.len() > 0 && issues@[0].loc@.len() > 0
                        && issues@[0].loc@.last() is Some ==> f.param == Some(
                        issues@[0].loc@.last()->0@,
                    )
                },
                ErrorDetail::Body(detail) => {
                    &&& detail.message is Some ==> f.message == Some(detail.message->0@)
                    &&& detail.message is None ==> f.message is None
                    &&& detail.code is Some ==> f.code == Some(detail.code->0@)
                    &&& detail.code is None && detail.status is Some ==> f.code == Some(
                        detail.status->0@,
                    )
                    &&& detail.error_type is Some ==> f.error_type == Some(detail.error_type->0@)
                    &&& detail.param is Some ==> f.param == Some(detail.param->0@)
                },
            }
            &&& e.error is None && e.detail is None ==> {
                &&& e.err_msg is Some ==> f.message == Some(e.err_msg->0@)
                &&& e.err_msg is None && e.message is Some ==> f.message == Some(e.message->0@)
                &&& e.err_msg is None && e.message is None ==> f.message is None
                &&& e.err_code is Some ==> f.code == Some(e.err_code->0@)
                &&& e.err_code is None && e.category is Some ==> f.code == Some(e.category->0@)
                &&& f.error_type is None && f.param is None
            }
        }),
{
    if e.error is None && e.detail is Some && e.detail->0 is Validation {
        let issues = e.detail->0->Validation_0;
        if issues@.len() == 1 {
            assert(remote::issue_texts(issues@) =~= seq![issues@[0].msg@]);
        }
    }
}

/// Requests that are blamed and errors without a better explanation show what
/// the endpoint said. An exceeded rate shows for how many seconds to wait, one
/// at least.
pub proof fn law_shown_messages(e: RemoteErrorText)
    ensures
        e.kind == RemoteErrorKind::InvalidRequest || e.kind == RemoteErrorKind::Other
            ==> remote::shown_message(e) == e.message,
        e.kind == RemoteErrorKind::RateLimited && e.retry_after is Some && e.retry_after->0.secs
            >= 2 ==> remote::shown_message(e)
            == "Remote speech rate limit reached. Try again in about "@ + text::decimal(
            e.retry_after->0.secs as nat,
        ) + " seconds."@,
        e.kind == RemoteErrorKind::RateLimited && e.retry_after is Some && e.retry_after->0.secs < 2
            ==> remote::shown_message(e)
            == "Remote speech rate limit reached. Try again in about 1 second."@,
        e.kind == RemoteErrorKind::RateLimited && e.retry_after is None ==> remote::shown_message(e)
            == "Remote speech rate limit reached. Try again in a moment."@,
        e.kind == RemoteErrorKind::QuotaExceeded ==> remote::shown_message(e)
            == "Remote speech quota exceeded. Check your provider billing or usage limits."@,
        e.kind == RemoteErrorKind::Unauthorized ==> remote::shown_message(e)
            == "Remote speech API key is invalid or expired."@,
        e.kind == RemoteErrorKind::NotFound ==> remote::shown_message(e)
            == "Remote speech endpoint or model was not found."@,
        e.kind == RemoteErrorKind::UpstreamUnavailable ==> remote::shown_message(e)
            == "Remote speech provider is temporarily unavailable."@,
{
    if e.kind == RemoteErrorKind::RateLimited && e.retry_after is Some {
        reveal_strlit("Remote speech rate limit reached. Try again in about ");
        reveal_strlit("Remote speech rate limit reached. Try again in about 1 second.");
        reveal_strlit(" second");
        reveal_strlit(" seconds.");
        reveal_strlit("s");
        reveal_strlit("");
        reveal_strlit(".");
        let front = "Remote speech rate limit reached. Try again in about "@;
        if e.retry_after->0.secs >= 2 {
            let d = text::decimal(e.retry_after->0.secs as nat);
            assert(front + d + " second"@ + "s"@ + "."@ =~= front + d + " seconds."@);
        } else {
            assert(text::decimal(1) =~= seq!['1']);
            assert(front + text::decimal(1) + " second"@ + ""@ + "."@
                =~= "Remote speech rate limit reached. Try again in about 1 second."@);
        }
    }
}

/// A moment in nanoseconds counts a thousand million for each second.
pub proof fn law_nanoseconds(secs: u64, nanos: u32)
    ensures
        remote::nanos_of(secs, nanos) == secs * 1_000_000_000 + nanos,
{
}

// ---------------------------------------------------------------------------
// Attempts
// ---------------------------------------------------------------------------

/// Whether an error holds a text in its message, its parameter, its code or its
/// type, in any letter case.
pub open spec fn speaks_of(e: RemoteErrorText, what: Seq<char>) -> bool {
    ||| text::contains_text(text::ascii_lower(e.message), what)
    ||| e.param is Some && text::contains_text(text::ascii_lower(e.param->0), what)
    ||| e.code is Some && text::contains_text(text::ascii_lower(e.code->0), what)
    ||| e.error_type is Some && text::contains_text(text::ascii_lower(e.error_type->0), what)
}

/// An endpoint that refuses the verbose format is asked for plain JSON, and for
/// nothing else than before but the times that it keeps.
pub proof fn law_refused_verbose_format(
    p: EndpointProfile,
    timestamps: bool,
    granularity: Option<TimestampGranularity>,
    a: AttemptText,
    e: RemoteErrorText,
)
    requires
        p.sends_response_format,
        a.response_format == ResponseFormat::VerboseJson,
        e.kind == RemoteErrorKind::InvalidRequest,
        speaks_of(e, "verbose_json"@) || speaks_of(e, "response_format"@) || speaks_of(
            e,
            "timestamp_granularit"@,
        ),
    ensures
        engine::attempt_after(p, timestamps, granularity, a, e) matches Some(next)
            && next.response_format == ResponseFormat::Json && next.use_flac == a.use_flac
            && next.diarize == a.diarize && next.timestamp_granularities == (
        if p.keep_timestamps_on_format_fallback {
            seq!["segment"@]
        } else {
            seq![]
        }),
{
    let needles = seq!["verbose_json"@, "response_format"@, "timestamp_granularit"@];
    assert(needles[0] == "verbose_json"@ && needles[1] == "response_format"@ && needles[2]
        == "timestamp_granularit"@);
    assert(engine::mentions(e, needles));
}

/// An endpoint that cannot read FLAC gets the recording as it is, and is asked
/// for the same as before.
pub proof fn law_refused_flac(
    p: EndpointProfile,
    timestamps: bool,
    granularity: Option<TimestampGranularity>,
    a: AttemptText,
    e: RemoteErrorText,
)
    requires
        a.response_format != ResponseFormat::VerboseJson || !p.sends_response_format,
        a.use_flac,
        speaks_of(e, "flac"@) || speaks_of(e, "decod"@) || speaks_of(e, "file format"@)
            || speaks_of(e, "audio format"@) || speaks_of(e, "unsupported format"@) || speaks_of(
            e,
            "invalid format"@,
        ) || speaks_of(e, "corrupt"@) || speaks_of(e, "riff"@) || speaks_of(e, "ffmpeg"@)
            || speaks_of(e, "wave file"@) || (e.kind == RemoteErrorKind::InvalidRequest && e.param
            == Some("file"@)),
    ensures
        engine::attempt_after(p, timestamps, granularity, a, e) == Some(
            AttemptText { use_flac: false, ..a },
        ),
{
    let needles = engine::file_complaints();
    assert(needles[0] == "flac"@ && needles[1] == "file format"@ && needles[2] == "audio format"@
        && needles[3] == "unsupported format"@ && needles[4] == "invalid format"@ && needles[5]
        == "decod"@ && needles[6] == "corrupt"@ && needles[7] == "riff"@ && needles[8]
        == "ffmpeg"@ && needles[9] == "wave file"@);
    assert(engine::refuses_flac(e));
}

/// An endpoint that does not tell speakers apart is asked again without them,
/// and still gets FLAC where it got that.
pub proof fn law_refused_speakers(
    p: EndpointProfile,
    timestamps: bool,
    granularity: Option<TimestampGranularity>,
    a: AttemptText,
    e: RemoteErrorText,
)
    requires
        a.response_format != ResponseFormat::VerboseJson || !p.sends_response_format,
        !a.use_flac,
        a.diarize,
        e.kind == RemoteErrorKind::InvalidRequest,
        speaks_of(e, "diariz"@) || speaks_of(e, "chunking_strategy"@),
    ensures
        engine::attempt_after(p, timestamps, granularity, a, e) matches Some(next) && !next.diarize
            && next.use_flac == a.use_flac,
{
    let needles = seq!["diariz"@, "chunking_strategy"@];
    assert(needles[0] == "diariz"@ && needles[1] == "chunking_strategy"@);
    assert(engine::mentions(e, needles));
}

/// An attempt that asks for nothing that can be given up is the last, and so is
/// one whose error is about none of it.
pub proof fn law_nothing_left_to_give_up(
    p: EndpointProfile,
    timestamps: bool,
    granularity: Option<TimestampGranularity>,
    a: AttemptText,
    e: RemoteErrorText,
)
    ensures
        a.response_format != ResponseFormat::VerboseJson && !a.use_flac && !a.diarize
            ==> engine::attempt_after(p, timestamps, granularity, a, e) is None,
        e.kind != RemoteErrorKind::InvalidRequest && !a.use_flac ==> engine::attempt_after(
            p,
            timestamps,
            granularity,
            a,
            e,
        ) is None,
        e.message.len() == 0 && e.param is None && e.code is None && e.error_type is None
            ==> engine::attempt_after(p, timestamps, granularity, a, e) is None,
{
    if e.message.len() == 0 && e.param is None && e.code is None && e.error_type is None {
        lemma_silent(e, seq!["verbose_json"@, "response_format"@, "timestamp_granularit"@]);
        lemma_silent(e, seq!["diariz"@, "chunking_strategy"@]);
        lemma_silent(e, engine::file_complaints());
    }
}

proof fn lemma_silent(e: RemoteErrorText, needles: Seq<Seq<char>>)
    requires
        e.message.len() == 0,
        e.param is None && e.code is None && e.error_type is None,
        needles == seq!["verbose_json"@, "response_format"@, "timestamp_granularit"@] || needles
            == seq!["diariz"@, "chunking_strategy"@] || needles == engine::file_complaints(),
    ensures
        !engine::mentions(e, needles),
{
    reveal_strlit("verbose_json");
    reveal_strlit("response_format");
    reveal_strlit("timestamp_granularit");
    reveal_strlit("diariz");
    reveal_strlit("chunking_strategy");
    reveal_strlit("flac");
    reveal_strlit("file format");
    reveal_strlit("audio format");
    reveal_strlit("unsupported format");
    reveal_strlit("invalid format");
    reveal_strlit("decod");
    reveal_strlit("corrupt");
    reveal_strlit("riff");
    reveal_strlit("ffmpeg");
    reveal_strlit("wave file");
    let s = text::ascii_lower(e.message);
    assert forall|i: int| 0 <= i < needles.len() implies !text::contains_text(
        s,
        #[trigger] needles[i],
    ) by {
        assert(needles[i].len() > 0);
    }
}

/// A language is named by its trimmed text; a blank one and `auto`, in any
/// letter case, are not named.
pub proof fn law_named_languages(language: Seq<char>)
    ensures
        engine::named_language(None) is None,
        engine::named_language(Some(language)) is None <==> text::trimmed(language).len() == 0
            || text::ascii_lower(text::trimmed(language)) == "auto"@,
        engine::named_language(Some(language)) is Some ==> engine::named_language(Some(language))
            == Some(text::trimmed(language)),
{
    reveal_strlit("auto");
    assert(text::ascii_lower("auto"@) =~= "auto"@);
}

/// What errors hold is what their fields hold.
pub proof fn law_errors_hold_their_fields(e: remote::RemoteError)
    ensures
        e@.kind == e.kind && e@.status == e.status && e@.message == e.message@ && e@.retry_after
            == e.retry_after,
        e.error_type is Some ==> e@.error_type == Some(e.error_type->0@),
        e.error_type is None ==> e@.error_type is None,
        e.code is Some ==> e@.code == Some(e.code->0@),
        e.code is None ==> e@.code is None,
        e.param is Some ==> e@.param == Some(e.param->0@),
        e.param is None ==> e@.param is None,
{
}

/// Formats are called by their names in requests.
pub proof fn law_names_of_formats(f: ResponseFormat)
    ensures
        f == ResponseFormat::Json ==> f.name() == "json"@,
        f == ResponseFormat::VerboseJson ==> f.name() == "verbose_json"@,
{
}

/// Rejected inputs are reported together, with semicolons between them.
pub proof fn law_rejected_inputs(issues: Seq<remote::ValidationIssue>, e: ErrorEnvelope, i: int)
    ensures
        e.error is None && (e.detail matches Some(ErrorDetail::Validation(v)) && v@ == issues)
            ==> remote::envelope_fields(e).message == Some(
            text::joined(remote::issue_texts(issues), "; "@),
        ),
        remote::issue_texts(issues).len() == issues.len(),
        0 <= i < issues.len() ==> remote::issue_texts(issues)[i] == issues[i].msg@,
        issues.len() == 0 || issues[0].loc@.len() == 0 ==> remote::issue_param(issues) is None,
{
}

/// Without speakers everything else is asked for as if they had never been.
pub proof fn law_replanned_without_speakers(
    p: EndpointProfile,
    timestamps: bool,
    granularity: Option<TimestampGranularity>,
    a: AttemptText,
    e: RemoteErrorText,
)
    requires
        a.diarize,
    ensures
        ({
            let next = engine::attempt_after(p, timestamps, granularity, a, e);
            next is Some && !next->0.diarize ==> {
                &&& next->0.response_format == remote::provider::planned_format(
                    p,
                    timestamps,
                    granularity,
                    false,
                )
                &&& next->0.timestamp_granularities == remote::provider::planned_granularities(
                    p,
                    timestamps,
                    granularity,
                    false,
                )
                &&& next->0.use_flac == a.use_flac
            }
        }),
{
}

} // verus!
