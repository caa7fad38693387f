//! The speech service: which model is loaded, how engines are started, and what
//! they are asked for.
//!
//! Audio samples are values of a type parameter `S`; the service counts and
//! pads them.

use vstd::prelude::*;

use crate::audio::MAX_SAMPLE_RATE;
use crate::dictionary;
use crate::dictionary::build_dictionary_prompt;
use crate::engines::apple::AppleInferenceParams;
use crate::engines::nemotron::NemotronInferenceParams;
use crate::engines::parakeet;
use crate::engines::parakeet::{ParakeetInferenceParams, ParakeetModelParams, QuantizationType};
use crate::engines::transcribe::TranscribeInferenceParams;
use crate::engines::whisper;
use crate::engines::whisper::{dtw_preset_for_variant, DtwPreset, WhisperInferenceParams};
use crate::models;
use crate::models::{
    CacheText, FileFact, InstallSpec, LooseFacts, ModelEngine, ModelError, ModelErrorText,
    ModelInstallManager, ModelLayout, ResolvedModel, ResolvedText,
};
use crate::paths;
use crate::paths::PathStyle;
use crate::remote;
use crate::text;
use crate::{TimestampGranularity, Transcription, TranscriptionResult, TranscriptionText};

verus! {

/// Where the models of a service are.
#[derive(Debug, Clone)]
pub struct SpeechConfig {
    pub model_cache_dir: String,
    /// How that path is written.
    pub path_style: PathStyle,
}

impl SpeechConfig {
    pub fn loose(model_cache_dir: &str, path_style: PathStyle) -> (r: Self)
        ensures
            r.model_cache_dir@ == model_cache_dir@,
            r.path_style == path_style,
    {
        SpeechConfig { model_cache_dir: text::owned(model_cache_dir), path_style }
    }
}

/// Where the audio of a request is.
#[derive(Debug, Clone)]
pub enum AudioInput<S> {
    WavPath(String),
    Samples16Khz(Vec<S>),
    PcmI16 { samples: Vec<i16>, sample_rate: u32 },
}

/// A request for a transcription.
#[derive(Debug, Clone)]
pub struct TranscribeRequest<S> {
    pub audio: AudioInput<S>,
    pub model_id: String,
    pub language: Option<String>,
    pub prompt: Option<String>,
    pub dictionary: Vec<String>,
    pub timestamps: bool,
    pub timestamp_granularity: Option<TimestampGranularity>,
}

// ---------------------------------------------------------------------------
// The loaded model
// ---------------------------------------------------------------------------

/// A model that is loaded.
#[derive(Debug, Clone)]
pub struct LoadedModel {
    pub model_id: String,
    pub path: String,
    /// Whether it has transcribed something.
    pub warmed: bool,
}

/// What a [`LoadedModel`] holds.
#[verifier::ext_equal]
pub ghost struct LoadedText {
    pub model_id: Seq<char>,
    pub path: Seq<char>,
    pub warmed: bool,
}

impl View for LoadedModel {
    type V = LoadedText;

    open spec fn view(&self) -> LoadedText {
        LoadedText { model_id: self.model_id@, path: self.path@, warmed: self.warmed }
    }
}

/// The models of a cache directory, of which one at a time is loaded.
#[derive(Debug)]
pub struct SpeechService {
    model_manager: ModelInstallManager,
    loose_engine: ModelEngine,
    loaded: Option<LoadedModel>,
}

/// What a [`SpeechService`] holds.
#[verifier::ext_equal]
pub ghost struct ServiceText {
    pub cache: CacheText,
    pub loose_engine: ModelEngine,
    pub loaded: Option<LoadedText>,
}

impl View for SpeechService {
    type V = ServiceText;

    closed spec fn view(&self) -> ServiceText {
        ServiceText {
            cache: self.model_manager@,
            loose_engine: self.loose_engine,
            loaded: match self.loaded {
                Some(l) => Some(l@),
                None => None,
            },
        }
    }
}

/// Whether a model has to be loaded before it is used: another one is loaded,
/// or none.
pub open spec fn must_load(loaded: Option<LoadedText>, resolved: ResolvedText) -> bool {
    match loaded {
        Some(l) => l.model_id != resolved.id || l.path != resolved.path,
        None => true,
    }
}

impl SpeechService {
    /// A service whose loose references are Whisper models.
    pub fn new(config: SpeechConfig) -> (r: Self)
        ensures
            r@ == (ServiceText {
                cache: CacheText { dir: config.model_cache_dir@, style: config.path_style },
                loose_engine: ModelEngine::Whisper,
                loaded: None,
            }),
    {
        SpeechService::new_loose_with_engine(
            config.model_cache_dir.as_str(),
            config.path_style,
            ModelEngine::Whisper,
        )
    }

    /// A service whose loose references are models for an engine.
    pub fn new_loose_with_engine(
        cache_dir: &str,
        path_style: PathStyle,
        engine: ModelEngine,
    ) -> (r: Self)
        ensures
            r@ == (ServiceText {
                cache: CacheText { dir: cache_dir@, style: path_style },
                loose_engine: engine,
                loaded: None,
            }),
    {
        SpeechService {
            model_manager: ModelInstallManager::new(cache_dir, path_style),
            loose_engine: engine,
            loaded: None,
        }
    }

    /// The same service with no model loaded.
    pub fn unloaded_copy(&self) -> (r: Self)
        ensures
            r@ == (ServiceText { loaded: None, ..self@ }),
    {
        SpeechService {
            model_manager: ModelInstallManager::new(
                self.model_manager.cache_dir(),
                self.model_manager.style(),
            ),
            loose_engine: self.loose_engine,
            loaded: None,
        }
    }

    pub fn model_manager(&self) -> (r: &ModelInstallManager)
        ensures
            r@ == self@.cache,
    {
        &self.model_manager
    }

    /// The engine of loose references.
    pub fn loose_engine(&self) -> (r: ModelEngine)
        ensures
            r == self@.loose_engine,
    {
        self.loose_engine
    }

    /// The model that an identifier names. One without a specification is a
    /// loose reference.
    pub fn resolve(
        &self,
        model_id: &str,
        spec: Option<&InstallSpec>,
        facts: &[FileFact],
        dir_bytes: Option<u64>,
        loose: &LooseFacts,
    ) -> (r: Result<ResolvedModel, ModelError>)
        requires
            spec matches Some(s) ==> facts@.len() == s.files@.len(),
        ensures
            match (spec, r) {
                (Some(s), Ok(m)) => {
                    &&& models::spec_error(self@.cache.style, *s) is None
                    &&& s.engine == ModelEngine::Whisper || models::status_in(
                        self@.cache.style,
                        paths::joined(self@.cache.style, self@.cache.dir, s.id@),
                        *s,
                        facts@,
                        dir_bytes,
                    ).installed
                    &&& m@ == (ResolvedText {
                        id: s.id@,
                        path: models::artifact_in(
                            self@.cache.style,
                            paths::joined(self@.cache.style, self@.cache.dir, s.id@),
                            s.storage,
                        ),
                        engine: s.engine,
                    })
                },
                (Some(s), Err(e)) => {
                    ||| models::spec_error(self@.cache.style, *s) == Some(e@)
                    ||| models::spec_error(self@.cache.style, *s) is None && s.engine != ModelEngine::Whisper
                        && !models::status_in(
                        self@.cache.style,
                        paths::joined(self@.cache.style, self@.cache.dir, s.id@),
                        *s,
                        facts@,
                        dir_bytes,
                    ).installed && e@ == (ModelErrorText::NotInstalled {
                        id: s.id@,
                        missing: models::missing(s.files@, facts@),
                    })
                },
                (None, Ok(m)) => models::loose_path(
                    self@.cache.style,
                    self@.cache.dir,
                    model_id@,
                    self@.loose_engine,
                    *loose,
                ) == Some(m.path@) && m.id@ == model_id@ && m.engine == self@.loose_engine,
                (None, Err(e)) => models::loose_path(
                    self@.cache.style,
                    self@.cache.dir,
                    model_id@,
                    self@.loose_engine,
                    *loose,
                ) is None && e@ == (if self@.loose_engine == ModelEngine::Whisper {
                    ModelErrorText::Unknown(model_id@)
                } else {
                    ModelErrorText::NeedsDirectory {
                        engine: self@.loose_engine,
                        reference: model_id@,
                    }
                }),
            },
    {
        match spec {
            Some(spec) => self.model_manager.resolve(spec, facts, dir_bytes),
            None => self.model_manager.resolve_loose(model_id, self.loose_engine, loose),
        }
    }

    /// The specification of a model, which installing needs and its status is
    /// held against.
    pub fn require_spec(spec: Option<InstallSpec>, model_id: &str) -> (r: Result<
        InstallSpec,
        ModelError,
    >)
        ensures
            match (spec, r) {
                (Some(s), Ok(found)) => found == s,
                (None, Err(e)) => e@ == ModelErrorText::Unknown(model_id@),
                _ => false,
            },
    {
        match spec {
            Some(spec) => Ok(spec),
            None => Err(ModelError::Unknown(text::owned(model_id))),
        }
    }

    /// Whether a model has to be loaded before it is used.
    pub fn needs_load(&self, resolved: &ResolvedModel) -> (r: bool)
        ensures
            r == must_load(self@.loaded, resolved@),
    {
        match &self.loaded {
            Some(loaded) => !text::same(loaded.model_id.as_str(), resolved.id.as_str())
                || !text::same(loaded.path.as_str(), resolved.path.as_str()),
            None => true,
        }
    }

    /// Takes note of a model that was loaded. It has not transcribed anything
    /// yet.
    pub fn set_loaded(&mut self, resolved: &ResolvedModel)
        ensures
            final(self)@ == (ServiceText {
                loaded: Some(
                    LoadedText { model_id: resolved@.id, path: resolved@.path, warmed: false },
                ),
                ..old(self)@
            }),
    {
        self.loaded = Some(
            LoadedModel {
                model_id: resolved.id.clone(),
                path: resolved.path.clone(),
                warmed: false,
            },
        );
    }

    /// Takes note that the loaded model has transcribed something.
    pub fn mark_warmed(&mut self)
        ensures
            final(self)@ == (ServiceText {
                loaded: match old(self)@.loaded {
                    Some(l) => Some(LoadedText { warmed: true, ..l }),
                    None => None,
                },
                ..old(self)@
            }),
    {
        let loaded = self.loaded.take();
        self.loaded = match loaded {
            Some(l) => Some(LoadedModel { model_id: l.model_id, path: l.path, warmed: true }),
            None => None,
        };
    }

    /// Whether the loaded model has still to transcribe something. Fails where
    /// none is loaded.
    pub fn needs_warming(&self) -> (r: Result<bool, String>)
        ensures
            match self@.loaded {
                Some(l) => r == Ok::<bool, String>(!l.warmed),
                None => r matches Err(e) && e@ == "model did not load"@,
            },
    {
        match &self.loaded {
            Some(loaded) => Ok(!loaded.warmed),
            None => Err(text::owned("model did not load")),
        }
    }

    pub fn unload(&mut self)
        ensures
            final(self)@ == (ServiceText { loaded: None, ..old(self)@ }),
    {
        self.loaded = None;
    }

    pub fn is_loaded(&self) -> (r: bool)
        ensures
            r == self@.loaded is Some,
    {
        self.loaded.is_some()
    }

    pub fn loaded_model_id(&self) -> (r: Option<String>)
        ensures
            text::opt_text(r) == (match self@.loaded {
                Some(l) => Some(l.model_id),
                None => None,
            }),
    {
        match &self.loaded {
            Some(loaded) => Some(loaded.model_id.clone()),
            None => None,
        }
    }
}

/// A model that was loaded is not loaded again until another one is, and
/// having transcribed something does not change that.
pub proof fn law_loaded_models_stay(resolved: ResolvedText, warmed: bool, other: ResolvedText)
    ensures
        !must_load(
            Some(LoadedText { model_id: resolved.id, path: resolved.path, warmed }),
            resolved,
        ),
        (other.id != resolved.id || other.path != resolved.path) ==> must_load(
            Some(LoadedText { model_id: resolved.id, path: resolved.path, warmed }),
            other,
        ),
        must_load(None, resolved),
{
}

// ---------------------------------------------------------------------------
// Starting engines
// ---------------------------------------------------------------------------

/// An engine that runs models.
#[derive(Debug, Clone, Copy, PartialEq, Eq, Structural)]
pub enum EngineKind {
    Whisper,
    Parakeet,
    Nemotron,
    Transcribe,
    Apple,
}

/// The engines that are built in.
#[derive(Debug, Clone, Copy, PartialEq, Eq, Structural)]
pub struct BuildSupport {
    pub whisper: bool,
    pub nvidia: bool,
    pub transcribe: bool,
    pub apple: bool,
}

/// Where a model computes.
#[derive(Debug, Clone, Copy, PartialEq, Eq, Structural)]
pub enum ComputeBackend {
    Auto,
    Cpu,
}

/// How an engine is started.
#[derive(Debug, Clone, Copy, PartialEq, Eq, Structural)]
pub enum LoadPlan {
    Whisper { dtw_preset: Option<DtwPreset> },
    Parakeet { params: ParakeetModelParams },
    Nemotron,
    Transcribe { backend: ComputeBackend },
    Apple,
}

/// The engine that runs the models of a model engine.
pub fn engine_kind(engine: ModelEngine) -> (r: EngineKind)
    ensures
        r == (match engine {
            ModelEngine::Whisper => EngineKind::Whisper,
            ModelEngine::Parakeet => EngineKind::Parakeet,
            ModelEngine::Nemotron => EngineKind::Nemotron,
        }),
{
    match engine {
        ModelEngine::Whisper => EngineKind::Whisper,
        ModelEngine::Parakeet => EngineKind::Parakeet,
        ModelEngine::Nemotron => EngineKind::Nemotron,
    }
}

/// Whether an engine is built in.
pub open spec fn supported(engine: EngineKind, build: BuildSupport) -> bool {
    match engine {
        EngineKind::Whisper => build.whisper,
        EngineKind::Parakeet => build.nvidia,
        EngineKind::Nemotron => build.nvidia,
        EngineKind::Transcribe => build.transcribe,
        EngineKind::Apple => build.apple,
    }
}

/// What is said of an engine that is not built in.
pub open spec fn unsupported_message(engine: EngineKind) -> Seq<char> {
    match engine {
        EngineKind::Whisper => "Whisper support is not enabled"@,
        EngineKind::Parakeet => "NVIDIA speech support is not enabled on this build"@,
        EngineKind::Nemotron => "NVIDIA speech support is not enabled on this build"@,
        EngineKind::Transcribe => "transcribe.cpp support is not enabled on this build"@,
        EngineKind::Apple => "Apple speech support is not enabled on this build"@,
    }
}

/// How an engine is started for a model.
pub open spec fn planned_load(
    engine: EngineKind,
    variant: Option<Seq<char>>,
    layout: ModelLayout,
    has_companion: bool,
) -> LoadPlan {
    match engine {
        EngineKind::Whisper => LoadPlan::Whisper {
            dtw_preset: match variant {
                Some(v) => whisper::preset_of(whisper::family_of(v)),
                None => None,
            },
        },
        EngineKind::Parakeet => LoadPlan::Parakeet {
            params: ParakeetModelParams { layout, quantization: QuantizationType::Int8 },
        },
        EngineKind::Nemotron => LoadPlan::Nemotron,
        EngineKind::Transcribe => LoadPlan::Transcribe {
            backend: if has_companion && variant is Some && text::begins_with(
                variant->0,
                "parakeet-"@,
            ) {
                ComputeBackend::Cpu
            } else {
                ComputeBackend::Auto
            },
        },
        EngineKind::Apple => LoadPlan::Apple,
    }
}

/// How an engine is started for a model. Fails where the engine is not built
/// in.
pub fn load_engine(
    engine: EngineKind,
    variant: Option<&str>,
    layout: ModelLayout,
    has_companion: bool,
    build: BuildSupport,
) -> (r: Result<LoadPlan, String>)
    ensures
        match r {
            Ok(plan) => supported(engine, build) && plan == planned_load(
                engine,
                text::opt_str(variant),
                layout,
                has_companion,
            ),
            Err(e) => !supported(engine, build) && e@ == unsupported_message(engine),
        },
{
    match engine {
        EngineKind::Whisper => {
            if !build.whisper {
                return Err(text::owned("Whisper support is not enabled"));
            }
            let dtw_preset = match variant {
                Some(variant) => dtw_preset_for_variant(variant),
                None => None,
            };
            Ok(LoadPlan::Whisper { dtw_preset })
        },
        EngineKind::Parakeet => {
            if !build.nvidia {
                return Err(text::owned("NVIDIA speech support is not enabled on this build"));
            }
            Ok(LoadPlan::Parakeet { params: ParakeetModelParams::int8_with_layout(layout) })
        },
        EngineKind::Nemotron => {
            if !build.nvidia {
                return Err(text::owned("NVIDIA speech support is not enabled on this build"));
            }
            Ok(LoadPlan::Nemotron)
        },
        EngineKind::Transcribe => {
            if !build.transcribe {
                return Err(text::owned("transcribe.cpp support is not enabled on this build"));
            }
            let parakeet = match variant {
                Some(variant) => text::starts_with(variant, "parakeet-"),
                None => false,
            };
            let backend = if has_companion && parakeet {
                ComputeBackend::Cpu
            } else {
                ComputeBackend::Auto
            };
            Ok(LoadPlan::Transcribe { backend })
        },
        EngineKind::Apple => {
            if !build.apple {
                return Err(text::owned("Apple speech support is not enabled on this build"));
            }
            Ok(LoadPlan::Apple)
        },
    }
}

/// Whether an engine can be streamed to.
pub fn check_streaming(engine: EngineKind) -> (r: Result<(), String>)
    ensures
        match r {
            Ok(_) => engine != EngineKind::Whisper && engine != EngineKind::Transcribe,
            Err(e) => (engine == EngineKind::Whisper || engine == EngineKind::Transcribe) && e@
                == "Streaming is only supported with Apple, Nemotron, or unified Parakeet models"@,
        },
{
    match engine {
        EngineKind::Whisper | EngineKind::Transcribe => Err(
            text::owned(
                "Streaming is only supported with Apple, Nemotron, or unified Parakeet models",
            ),
        ),
        _ => Ok(()),
    }
}

/// The transcript of a stream that was ended. Where ending it failed, what was
/// transcribed so far counts; nothing where there is none.
pub fn ended_transcript(finalized: Result<String, String>, so_far: Option<String>) -> (r: String)
    ensures
        r@ == (match (finalized, so_far) {
            (Ok(transcript), _) => transcript@,
            (Err(_), Some(transcript)) => transcript@,
            (Err(_), None) => ""@,
        }),
{
    match finalized {
        Ok(transcript) => transcript,
        Err(_) => match so_far {
            Some(transcript) => transcript,
            None => text::owned(""),
        },
    }
}

// ---------------------------------------------------------------------------
// What engines are asked for
// ---------------------------------------------------------------------------

/// What an engine is asked for.
#[derive(Debug, Clone)]
pub enum InferencePlan<T> {
    Whisper(WhisperInferenceParams<T>),
    Parakeet(ParakeetInferenceParams),
    Nemotron(NemotronInferenceParams),
    Apple(AppleInferenceParams),
    Transcribe(TranscribeInferenceParams),
}

/// A prompt followed by the terms of a dictionary.
pub open spec fn prompt_and_terms(prompt: Option<Seq<char>>, entries: Seq<Seq<char>>) -> Option<
    Seq<char>,
> {
    match (prompt, dictionary::dictionary_prompt(entries)) {
        (Some(p), Some(d)) => Some(p + "\n\n"@ + d),
        (Some(p), None) => Some(p),
        (None, Some(d)) => Some(d),
        (None, None) => None,
    }
}

/// A prompt followed by the terms of a dictionary.
pub fn combined_prompt(prompt: Option<&str>, dictionary: &[String]) -> (r: Option<String>)
    ensures
        text::opt_text(r) == prompt_and_terms(
            text::opt_str(prompt),
            text::texts(dictionary@),
        ),
{
    match (prompt, build_dictionary_prompt(dictionary)) {
        (Some(prompt), Some(terms)) => Some(text::concat3(prompt, "\n\n", terms.as_str())),
        (Some(prompt), None) => Some(text::owned(prompt)),
        (None, Some(terms)) => Some(terms),
        (None, None) => None,
    }
}

/// Whether a request asks for times.
pub open spec fn wants_times<S>(request: TranscribeRequest<S>) -> bool {
    request.timestamps || request.timestamp_granularity is Some
}

/// Whether a plan is what an engine is asked for by a request.
pub open spec fn is_plan_for<S, T>(
    plan: InferencePlan<T>,
    engine: EngineKind,
    request: TranscribeRequest<S>,
) -> bool {
    match engine {
        EngineKind::Whisper => plan matches InferencePlan::Whisper(p) && {
            &&& text::texts(p.dictionary@) == (if request.prompt is Some {
                Seq::<Seq<char>>::empty()
            } else {
                text::texts(request.dictionary@)
            })
            &&& text::opt_text(p.language) == text::opt_text(request.language)
            &&& text::opt_text(p.initial_prompt) == prompt_and_terms(
                text::opt_text(request.prompt),
                text::texts(request.dictionary@),
            )
            &&& p.print_timestamps == wants_times(request)
            &&& p.word_timestamps == (request.timestamp_granularity == Some(
                TimestampGranularity::Word,
            ))
            &&& !p.translate && !p.print_special && !p.print_progress && !p.print_realtime
            &&& p.suppress_blank && !p.suppress_non_speech_tokens && p.no_speech_thold is None
        },
        EngineKind::Parakeet => plan matches InferencePlan::Parakeet(p) && {
            &&& p.timestamp_granularity == (match request.timestamp_granularity {
                Some(TimestampGranularity::Word) => parakeet::TimestampGranularity::Word,
                Some(TimestampGranularity::Segment) => parakeet::TimestampGranularity::Segment,
                None => if request.timestamps {
                    parakeet::TimestampGranularity::Segment
                } else {
                    parakeet::TimestampGranularity::Token
                },
            })
            &&& text::opt_text(p.language) == text::opt_text(request.language)
            &&& text::texts(p.dictionary@) == text::texts(request.dictionary@)
        },
        EngineKind::Nemotron => plan matches InferencePlan::Nemotron(p) && text::opt_text(p.language)
            == text::opt_text(request.language),
        EngineKind::Apple => plan matches InferencePlan::Apple(p) && {
            &&& text::opt_text(p.language) == text::opt_text(request.language)
            &&& p.long_form == wants_times(request)
            &&& text::texts(p.dictionary@) == text::texts(request.dictionary@)
        },
        EngineKind::Transcribe => plan matches InferencePlan::Transcribe(p) && {
            &&& text::opt_text(p.language) == text::opt_text(request.language)
            &&& p.timestamps == wants_times(request)
            &&& text::texts(p.dictionary@) == text::texts(request.dictionary@)
        },
    }
}

/// What an engine is asked for by a request.
pub fn transcribe_with_engine<S, T>(engine: EngineKind, request: &TranscribeRequest<S>) -> (r:
    InferencePlan<T>)
    ensures
        is_plan_for(r, engine, *request),
{
    let wants_timestamps = request.timestamps || request.timestamp_granularity.is_some();
    match engine {
        EngineKind::Whisper => {
            let dictionary = if request.prompt.is_some() {
                let none: Vec<String> = Vec::new();
                assert(text::texts(none@) =~= Seq::<Seq<char>>::empty());
                none
            } else {
                text::copy_texts(request.dictionary.as_slice())
            };
            let word_timestamps = match request.timestamp_granularity {
                Some(TimestampGranularity::Word) => true,
                _ => false,
            };
            InferencePlan::Whisper(
                WhisperInferenceParams {
                    dictionary,
                    language: request.language.clone(),
                    initial_prompt: combined_prompt(
                        text::as_deref(&request.prompt),
                        request.dictionary.as_slice(),
                    ),
                    print_timestamps: wants_timestamps,
                    word_timestamps,
                    translate: false,
                    print_special: false,
                    print_progress: false,
                    print_realtime: false,
                    suppress_blank: true,
                    suppress_non_speech_tokens: false,
                    no_speech_thold: None,
                },
            )
        },
        EngineKind::Parakeet => {
            let timestamp_granularity = match request.timestamp_granularity {
                Some(TimestampGranularity::Word) => parakeet::TimestampGranularity::Word,
                Some(TimestampGranularity::Segment) => parakeet::TimestampGranularity::Segment,
                None => {
                    if request.timestamps {
                        parakeet::TimestampGranularity::Segment
                    } else {
                        parakeet::TimestampGranularity::Token
                    }
                },
            };
            InferencePlan::Parakeet(
                ParakeetInferenceParams {
                    timestamp_granularity,
                    language: request.language.clone(),
                    dictionary: text::copy_texts(request.dictionary.as_slice()),
                },
            )
        },
        EngineKind::Nemotron => InferencePlan::Nemotron(
            NemotronInferenceParams { language: request.language.clone() },
        ),
        EngineKind::Apple => InferencePlan::Apple(
            AppleInferenceParams {
                language: request.language.clone(),
                long_form: wants_timestamps,
                dictionary: text::copy_texts(request.dictionary.as_slice()),
            },
        ),
        EngineKind::Transcribe => InferencePlan::Transcribe(
            TranscribeInferenceParams {
                language: request.language.clone(),
                dictionary: text::copy_texts(request.dictionary.as_slice()),
                timestamps: wants_timestamps,
            },
        ),
    }
}

/// The transcription that answers a request. The detected language counts
/// before the requested one.
pub fn finish_transcription<T>(
    result: TranscriptionResult<T>,
    model_id: String,
    requested_language: Option<String>,
    duration_ms: u128,
) -> (r: Transcription<T>)
    ensures
        r@ == (TranscriptionText {
            text: result@.text,
            segments: result@.segments,
            words: result@.words,
            model_id: model_id@,
            language: remote::first_of(result@.language, text::opt_text(requested_language)),
            duration_ms: duration_ms as nat,
        }),
{
    Transcription {
        text: result.text,
        segments: result.segments,
        words: result.words,
        model_id,
        language: remote::either(result.language, requested_language),
        duration_ms,
    }
}

// ---------------------------------------------------------------------------
// Preparing audio
// ---------------------------------------------------------------------------

/// Recordings are padded to this many samples.
pub const MIN_SAMPLES: usize = 16_000;

/// Every recording is followed by this many samples of silence.
pub const EXTRA_PADDING: usize = 4_000;

/// Audio that an engine can take.
#[derive(Debug, Clone)]
pub struct PreparedAudio<S> {
    pub samples: Vec<S>,
    /// How long the recording is without padding.
    pub duration_ms: u128,
}

/// How many samples of silence follow a recording.
pub open spec fn padding_of(samples: nat) -> nat {
    EXTRA_PADDING as nat + if samples < MIN_SAMPLES {
        (MIN_SAMPLES - samples) as nat
    } else {
        0
    }
}

/// How long a recording is, in milliseconds.
pub open spec fn length_ms(samples: nat, sample_rate: nat) -> nat {
    if sample_rate == 0 {
        0
    } else {
        samples * 1000 / sample_rate
    }
}

/// How long a recording is, in milliseconds.
pub fn audio_duration_ms(sample_count: usize, sample_rate: u32) -> (r: u128)
    ensures
        r == length_ms(sample_count as nat, sample_rate as nat),
{
    if sample_rate == 0 {
        return 0;
    }
    sample_count as u128 * 1000 / sample_rate as u128
}

/// Accepts the sample rates that are supported.
pub fn check_sample_rate(sample_rate: u32) -> (r: Result<(), String>)
    ensures
        match r {
            Ok(_) => sample_rate <= MAX_SAMPLE_RATE,
            Err(e) => sample_rate > MAX_SAMPLE_RATE && e@ == "Unsupported sample rate "@
                + text::decimal(sample_rate as nat) + " Hz"@,
        },
{
    if sample_rate > MAX_SAMPLE_RATE {
        let n = text::decimal_of(sample_rate as u128);
        return Err(text::concat3("Unsupported sample rate ", n.as_str(), " Hz"));
    }
    Ok(())
}

fn append_silence<S: Copy>(samples: &mut Vec<S>, silence: S, count: usize)
    ensures
        final(samples)@ == old(samples)@ + Seq::new(count as nat, |i: int| silence),
{
    let ghost before = samples@;
    let mut i: usize = 0;
    assert(before + Seq::new(0, |k: int| silence) =~= before);
    while i < count
        invariant
            i <= count,
            samples@ == before + Seq::new(i as nat, |k: int| silence),
        decreases count - i,
    {
        samples.push(silence);
        assert(samples@ =~= before + Seq::new((i + 1) as nat, |k: int| silence));
        i += 1;
    }
}

/// Audio that an engine can take, from samples at 16 kHz. `source_count` and
/// `source_rate` are those of the recording before it was resampled.
pub fn prepare_audio<S: Copy>(
    samples: Vec<S>,
    silence: S,
    source_count: usize,
    source_rate: u32,
) -> (r: PreparedAudio<S>)
    ensures
        r.samples@ == samples@ + Seq::new(padding_of(samples@.len()), |i: int| silence),
        r.duration_ms == length_ms(source_count as nat, source_rate as nat),
{
    let missing: usize = if samples.len() < MIN_SAMPLES {
        MIN_SAMPLES - samples.len()
    } else {
        0
    };
    let mut padded = samples;
    append_silence(&mut padded, silence, missing + EXTRA_PADDING);
    PreparedAudio { samples: padded, duration_ms: audio_duration_ms(source_count, source_rate) }
}

/// The request that warms a model up: two seconds of silence.
pub fn warm_request<S: Copy>(model_id: &str, silence: S) -> (r: TranscribeRequest<S>)
    ensures
        r.audio matches AudioInput::Samples16Khz(samples) && samples@ == Seq::new(
            32_000,
            |i: int| silence,
        ),
        r.model_id@ == model_id@,
        r.language is None,
        r.prompt is None,
        r.dictionary@.len() == 0,
        !r.timestamps,
        r.timestamp_granularity is None,
{
    let mut samples: Vec<S> = Vec::new();
    append_silence(&mut samples, silence, 32_000);
    assert(samples@ =~= Seq::new(32_000, |i: int| silence));
    TranscribeRequest {
        audio: AudioInput::Samples16Khz(samples),
        model_id: text::owned(model_id),
        language: None,
        prompt: None,
        dictionary: Vec::new(),
        timestamps: false,
        timestamp_granularity: None,
    }
}

/// Prepared audio is never shorter than an engine needs.
pub proof fn law_prepared_audio_is_long_enough(samples: nat)
    ensures
        samples + padding_of(samples) >= MIN_SAMPLES + EXTRA_PADDING,
{
}

/// A recording of less than a second is filled up to one, and every recording is
/// followed by a quarter of a second of silence.
pub proof fn law_padding(samples: nat)
    ensures
        samples < 16_000 ==> samples + padding_of(samples) == 20_000,
        samples >= 16_000 ==> padding_of(samples) == 4_000,
{
}

/// The length of a recording is its samples by its rate, in whole milliseconds.
pub proof fn law_lengths(samples: nat, sample_rate: nat)
    ensures
        sample_rate > 0 ==> length_ms(samples, sample_rate) * sample_rate <= samples * 1000 < (
        length_ms(samples, sample_rate) + 1) * sample_rate,
        sample_rate == 0 ==> length_ms(samples, sample_rate) == 0,
{
    if sample_rate > 0 {
        let x = samples * 1000;
        assert((x / sample_rate) * sample_rate <= x < (x / sample_rate + 1) * sample_rate)
            by (nonlinear_arith)
            requires
                sample_rate > 0,
        ;
    }
}

/// A model is loaded unless the same one is loaded already, from the same place.
pub proof fn law_when_models_are_loaded(loaded: LoadedText, resolved: ResolvedText)
    ensures
        must_load(None, resolved),
        must_load(Some(loaded), resolved) <==> !(loaded.model_id == resolved.id && loaded.path
            == resolved.path),
{
}

/// Each engine is started as it needs: Whisper with the preset of its variant,
/// Parakeet in whole numbers with its layout, transcribe.cpp on the processor
/// where a Parakeet model has a companion; and none that is not built in.
pub proof fn law_how_engines_are_started(
    variant: Option<Seq<char>>,
    layout: ModelLayout,
    has_companion: bool,
    build: BuildSupport,
)
    ensures
        planned_load(EngineKind::Whisper, variant, layout, has_companion) == (LoadPlan::Whisper {
            dtw_preset: if variant is Some {
                whisper::preset_of(whisper::family_of(variant->0))
            } else {
                None
            },
        }),
        planned_load(EngineKind::Parakeet, variant, layout, has_companion) == (LoadPlan::Parakeet {
            params: ParakeetModelParams { layout, quantization: QuantizationType::Int8 },
        }),
        planned_load(EngineKind::Transcribe, variant, layout, has_companion) == (
        LoadPlan::Transcribe {
            backend: if has_companion && variant is Some && text::begins_with(
                variant->0,
                "parakeet-"@,
            ) {
                ComputeBackend::Cpu
            } else {
                ComputeBackend::Auto
            },
        }),
        planned_load(EngineKind::Nemotron, variant, layout, has_companion) == LoadPlan::Nemotron,
        planned_load(EngineKind::Apple, variant, layout, has_companion) == LoadPlan::Apple,
        supported(EngineKind::Whisper, build) == build.whisper,
        supported(EngineKind::Parakeet, build) == build.nvidia,
        supported(EngineKind::Nemotron, build) == build.nvidia,
        supported(EngineKind::Transcribe, build) == build.transcribe,
        supported(EngineKind::Apple, build) == build.apple,
{
}

/// A prompt comes before the terms of a dictionary, with an empty line between;
/// each stands alone where the other is missing.
pub proof fn law_prompts_come_first(prompt: Seq<char>, entries: Seq<Seq<char>>)
    ensures
        prompt_and_terms(None, entries) == dictionary::dictionary_prompt(entries),
        dictionary::dictionary_prompt(entries) is None ==> prompt_and_terms(Some(prompt), entries)
            == Some(prompt),
        dictionary::dictionary_prompt(entries) matches Some(terms) ==> prompt_and_terms(
            Some(prompt),
            entries,
        ) == Some(prompt + "\n\n"@ + terms),
{
}

/// What engines are asked for is what the request asks for: its language, its
/// dictionary unless a prompt carries it, and times where they are wanted in any
/// way.
pub proof fn law_plans_ask_for_the_request<S, T>(
    plan: InferencePlan<T>,
    engine: EngineKind,
    request: TranscribeRequest<S>,
)
    requires
        is_plan_for(plan, engine, request),
    ensures
        ({
            let times = request.timestamps || request.timestamp_granularity is Some;
            let language = text::opt_text(request.language);
            match plan {
                InferencePlan::Whisper(p) => {
                    &&& engine is Whisper
                    &&& text::opt_text(p.language) == language
                    &&& p.print_timestamps == times
                    &&& p.word_timestamps <==> request.timestamp_granularity == Some(
                        TimestampGranularity::Word,
                    )
                    &&& !p.translate
                    &&& request.prompt is None ==> text::texts(p.dictionary@) == text::texts(
                        request.dictionary@,
                    )
                },
                InferencePlan::Parakeet(p) => {
                    &&& engine is Parakeet
                    &&& text::opt_text(p.language) == language
                    &&& p.timestamp_granularity is Word <==> request.timestamp_granularity == Some(
                        TimestampGranularity::Word,
                    )
                    &&& p.timestamp_granularity is Token <==> !times
                    &&& text::texts(p.dictionary@) == text::texts(request.dictionary@)
                },
                InferencePlan::Nemotron(p) => engine is Nemotron && text::opt_text(p.language)
                    == language,
                InferencePlan::Apple(p) => engine is Apple && text::opt_text(p.language) == language
                    && p.long_form == times && text::texts(p.dictionary@) == text::texts(
                    request.dictionary@,
                ),
                InferencePlan::Transcribe(p) => engine is Transcribe && text::opt_text(p.language)
                    == language && p.timestamps == times && text::texts(p.dictionary@)
                    == text::texts(request.dictionary@),
            }
        }),
{
}

/// What a loaded model holds is what its fields hold.
pub proof fn law_loaded_models_hold_their_fields(l: LoadedModel)
    ensures
        l@.model_id == l.model_id@ && l@.path == l.path@ && l@.warmed == l.warmed,
{
}

/// An engine that is not built in is named in the message.
pub proof fn law_messages_of_missing_engines(e: EngineKind)
    ensures
        e == EngineKind::Whisper ==> unsupported_message(e) == "Whisper support is not enabled"@,
        e == EngineKind::Parakeet || e == EngineKind::Nemotron ==> unsupported_message(e)
            == "NVIDIA speech support is not enabled on this build"@,
        e == EngineKind::Transcribe ==> unsupported_message(e)
            == "transcribe.cpp support is not enabled on this build"@,
        e == EngineKind::Apple ==> unsupported_message(e)
            == "Apple speech support is not enabled on this build"@,
{
}

/// Whisper is asked for silence to be reported as such and for nothing to be
/// printed. A prompt carries the dictionary, which is then not sent again.
pub proof fn law_what_whisper_is_asked_for<S, T>(
    plan: InferencePlan<T>,
    request: TranscribeRequest<S>,
)
    requires
        is_plan_for(plan, EngineKind::Whisper, request),
    ensures
        plan matches InferencePlan::Whisper(p) && {
            &&& p.suppress_blank && !p.suppress_non_speech_tokens && p.no_speech_thold is None
            &&& !p.print_special && !p.print_progress && !p.print_realtime && !p.translate
            &&& request.prompt is Some ==> p.dictionary@.len() == 0
            &&& text::opt_text(p.initial_prompt) == prompt_and_terms(
                text::opt_text(request.prompt),
                text::texts(request.dictionary@),
            )
        },
{
    let p = plan->Whisper_0;
    assert(text::texts(p.dictionary@).len() == p.dictionary@.len());
}

} // verus!
