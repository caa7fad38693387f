//! Where transcriptions come from: the local service, or a remote endpoint with
//! the local service to fall back on.

use vstd::prelude::*;

use crate::remote;
use crate::remote::engine::{RemoteConfig, RemoteRequestParams};
use crate::remote::{config_error, RemoteError, RemoteErrorKind};
use crate::service::{AudioInput, TranscribeRequest};
use crate::text;
use crate::{Transcription, TranscriptionText};

verus! {

/// Why a transcription failed.
#[derive(Debug, Clone)]
pub enum TranscribeError {
    Local(String),
    Remote(RemoteError),
}

impl TranscribeError {
    /// What is shown for an error.
    pub fn message(&self) -> (r: String)
        ensures
            r@ == (match *self {
                TranscribeError::Local(message) => message@,
                TranscribeError::Remote(error) => remote::shown_message(error@),
            }),
    {
        match self {
            TranscribeError::Local(message) => message.clone(),
            TranscribeError::Remote(error) => error.user_message(),
        }
    }
}

/// The configuration of a remote endpoint. A blank model is none.
pub fn remote_config(endpoint: &str, api_key: &str, model: Option<String>) -> (r: RemoteConfig)
    ensures
        r.endpoint@ == endpoint@,
        r.api_key@ == api_key@,
        text::opt_text(r.model) == (match model {
            Some(m) if !text::blank(m@) => Some(m@),
            _ => None,
        }),
{
    let model = match model {
        Some(model) => {
            if text::is_blank(model.as_str()) {
                None
            } else {
                Some(model)
            }
        },
        None => None,
    };
    RemoteConfig { endpoint: text::owned(endpoint), api_key: text::owned(api_key), model }
}

/// The model that a remote endpoint is always asked for, if one is configured.
pub open spec fn default_model_of(config: RemoteConfig) -> Option<Seq<char>> {
    match config.model {
        Some(m) if !text::blank(m@) => Some(text::trimmed(m@)),
        _ => None,
    }
}

/// The model that a remote endpoint is always asked for, if one is configured.
pub fn default_model(config: &RemoteConfig) -> (r: Option<String>)
    ensures
        text::opt_text(r) == default_model_of(*config),
{
    match &config.model {
        Some(model) => {
            let trimmed = text::trim(model.as_str());
            if trimmed.as_str().is_empty() {
                None
            } else {
                Some(trimmed)
            }
        },
        None => None,
    }
}

/// The models of a remote endpoint that are known without asking: the one that
/// is configured.
pub fn known_model_ids(default_model: Option<&str>) -> (r: Option<Vec<String>>)
    ensures
        match (default_model, r) {
            (Some(m), Some(ids)) => text::texts(ids@) == seq![m@],
            (None, None) => true,
            _ => false,
        },
{
    match default_model {
        Some(model) => {
            let mut ids: Vec<String> = Vec::new();
            ids.push(text::owned(model));
            assert(text::texts(ids@) =~= seq![model@]);
            Some(ids)
        },
        None => None,
    }
}

/// What to do with a request to a remote endpoint.
#[derive(Debug, Clone)]
pub enum RemoteStep {
    /// Upload the recording.
    Upload { path: String, model: String },
    /// Leave it to the local service.
    Fallback,
    /// Refuse it.
    Refuse(RemoteError),
}

/// What to do with a request to a remote endpoint. Only recordings in files
/// can be uploaded.
pub fn plan_remote<S>(
    request: &TranscribeRequest<S>,
    default_model: Option<&str>,
    has_fallback: bool,
) -> (r: RemoteStep)
    ensures
        match request.audio {
            AudioInput::WavPath(audio) => r matches RemoteStep::Upload { path, model } && path@
                == audio@ && model@ == (match default_model {
                Some(m) => m@,
                None => request.model_id@,
            }),
            _ => if has_fallback {
                r is Fallback
            } else {
                r matches RemoteStep::Refuse(e) && e@ == remote::bare_error(
                    RemoteErrorKind::InvalidRequest,
                    0,
                    "Remote provider requires an audio file upload"@,
                )
            },
        },
{
    match &request.audio {
        AudioInput::WavPath(audio) => {
            let model = match default_model {
                Some(model) => text::owned(model),
                None => request.model_id.clone(),
            };
            RemoteStep::Upload { path: audio.clone(), model }
        },
        _ => {
            if has_fallback {
                RemoteStep::Fallback
            } else {
                RemoteStep::Refuse(config_error("Remote provider requires an audio file upload"))
            }
        },
    }
}

/// What a remote endpoint is asked for by a request.
pub fn remote_params<'a, S>(request: &'a TranscribeRequest<S>, model: &'a str) -> (r:
    RemoteRequestParams<'a>)
    ensures
        r.model@ == model@,
        text::opt_str(r.language) == text::opt_text(request.language),
        r.dictionary@ == request.dictionary@,
        text::opt_str(r.prompt) == text::opt_text(request.prompt),
        r.timestamps == request.timestamps,
        r.timestamp_granularity == request.timestamp_granularity,
{
    RemoteRequestParams {
        model,
        language: text::as_deref(&request.language),
        dictionary: request.dictionary.as_slice(),
        prompt: text::as_deref(&request.prompt),
        timestamps: request.timestamps,
        timestamp_granularity: request.timestamp_granularity,
    }
}

/// The transcription of a remote endpoint: its model is marked as remote, and
/// a language that it does not name is the requested one.
pub fn remote_transcription<T>(
    response: Transcription<T>,
    requested_language: Option<String>,
) -> (r: Transcription<T>)
    ensures
        r@ == (TranscriptionText {
            model_id: "remote:"@ + response@.model_id,
            language: remote::first_of(response@.language, text::opt_text(requested_language)),
            ..response@
        }),
{
    Transcription {
        text: response.text,
        segments: response.segments,
        words: response.words,
        model_id: text::concat2("remote:", response.model_id.as_str()),
        language: remote::either(response.language, requested_language),
        duration_ms: response.duration_ms,
    }
}

/// What to do after a remote endpoint failed.
#[derive(Debug, Clone)]
pub enum FailureStep {
    /// Ask the local service for this model; report the remote error where
    /// that fails too.
    TryLocal { model_id: String },
    /// Report the remote error.
    Report,
}

/// What to do after a remote endpoint failed. `local_model` is the model that
/// the local service would take, where there is a local service and it has
/// one.
pub fn after_remote_failure(err: &RemoteError, local_model: Option<&str>) -> (r: FailureStep)
    ensures
        match local_model {
            Some(m) if remote::calls_for_fallback(err.kind, err.status) => {
                r matches FailureStep::TryLocal { model_id } && model_id@ == m@
            },
            _ => r is Report,
        },
{
    match local_model {
        Some(model) => {
            if err.should_fallback() {
                FailureStep::TryLocal { model_id: text::owned(model) }
            } else {
                FailureStep::Report
            }
        },
        None => FailureStep::Report,
    }
}

/// The request that the local service gets instead of a remote endpoint.
pub fn local_fallback_request<S>(
    request: TranscribeRequest<S>,
    local_model: Option<String>,
) -> (r: Result<TranscribeRequest<S>, TranscribeError>)
    ensures
        match (r, local_model) {
            (Ok(q), Some(m)) => q == (TranscribeRequest { model_id: m, ..request }),
            (Err(e), None) => e matches TranscribeError::Local(message) && message@
                == "No local transcription model is installed for fallback"@,
            _ => false,
        },
{
    match local_model {
        Some(model_id) => Ok(
            TranscribeRequest {
                audio: request.audio,
                model_id,
                language: request.language,
                prompt: request.prompt,
                dictionary: request.dictionary,
                timestamps: request.timestamps,
                timestamp_granularity: request.timestamp_granularity,
            },
        ),
        None => Err(
            TranscribeError::Local(
                text::owned("No local transcription model is installed for fallback"),
            ),
        ),
    }
}

/// The model that an endpoint is always asked for is the configured one, trimmed,
/// and a blank one is none.
pub proof fn law_default_models(config: RemoteConfig)
    ensures
        config.model is None ==> default_model_of(config) is None,
        config.model is Some && text::trimmed(config.model->0@).len() == 0 ==> default_model_of(
            config,
        ) is None,
        config.model is Some && text::trimmed(config.model->0@).len() > 0 ==> default_model_of(
            config,
        ) == Some(text::trimmed(config.model->0@)),
{
}

} // verus!
