use glimpse_speech::audio::MAX_SAMPLE_RATE;
use glimpse_speech::engines::parakeet;
use glimpse_speech::engines::whisper::DtwPreset;
use glimpse_speech::models::{LooseFacts, ModelEngine, ModelLayout, ResolvedModel};
use glimpse_speech::paths::PathStyle;
use glimpse_speech::provider::{
    after_remote_failure, default_model, known_model_ids, local_fallback_request, plan_remote,
    remote_config, remote_transcription, FailureStep, RemoteStep, TranscribeError,
};
use glimpse_speech::remote::{config_error, transport_error};
use glimpse_speech::service::{
    audio_duration_ms, check_sample_rate, check_streaming, combined_prompt, ended_transcript, engine_kind,
    finish_transcription, load_engine, prepare_audio, transcribe_with_engine, warm_request,
    AudioInput, BuildSupport, ComputeBackend, EngineKind, InferencePlan, LoadPlan, SpeechConfig,
    SpeechService, TranscribeRequest,
};
use glimpse_speech::{TimestampGranularity, Transcription, TranscriptionResult};

const ALL: BuildSupport = BuildSupport { whisper: true, nvidia: true, transcribe: true, apple: true };
const NONE: BuildSupport =
    BuildSupport { whisper: false, nvidia: false, transcribe: false, apple: false };

fn resolved(id: &str, path: &str) -> ResolvedModel {
    ResolvedModel { id: id.to_string(), path: path.to_string(), engine: ModelEngine::Whisper }
}

fn request() -> TranscribeRequest<f32> {
    TranscribeRequest {
        audio: AudioInput::WavPath("a.wav".to_string()),
        model_id: "m".to_string(),
        language: Some("en".to_string()),
        prompt: Some("Notes".to_string()),
        dictionary: vec!["Glimpse".to_string()],
        timestamps: false,
        timestamp_granularity: Some(TimestampGranularity::Word),
    }
}

#[test]
fn pcm_with_zero_sample_rate_does_not_blow_up() {
    assert!(check_sample_rate(0).is_ok());
    let prepared = prepare_audio(vec![1.0f32, 2.0, 3.0, 4.0], 0.0, 4, 0);

    assert_eq!(prepared.samples.len(), 20_000);
    assert_eq!(prepared.duration_ms, 0);
}

#[test]
fn pcm_above_the_supported_rate_is_rejected() {
    assert!(check_sample_rate(MAX_SAMPLE_RATE + 1).is_err());
    assert_eq!(
        check_sample_rate(1_000_000),
        Err("Unsupported sample rate 1000000 Hz".to_string())
    );
}

#[test]
fn pcm_at_16khz_preserves_sample_count_and_duration() {
    let prepared = prepare_audio(vec![0.0f32; 32_000], 0.0, 32_000, 16_000);

    assert_eq!(prepared.duration_ms, 2_000);
    assert_eq!(prepared.samples.len(), 32_000 + 4_000);
}

#[test]
fn models_are_loaded_when_they_change() {
    let mut service = SpeechService::new(SpeechConfig::loose("/cache", PathStyle::Unix));
    assert!(!service.is_loaded());
    assert_eq!(service.needs_warming(), Err("model did not load".to_string()));
    let model = resolved("m", "/cache/m");
    assert!(service.needs_load(&model));
    service.set_loaded(&model);
    assert!(!service.needs_load(&model));
    assert!(service.needs_load(&resolved("m", "/other/m")));
    assert!(service.needs_load(&resolved("n", "/cache/m")));
    assert_eq!(service.needs_warming(), Ok(true));
    service.mark_warmed();
    assert_eq!(service.needs_warming(), Ok(false));
    assert!(!service.needs_load(&model));
    assert_eq!(service.loaded_model_id().as_deref(), Some("m"));
    assert!(!service.unloaded_copy().is_loaded());
    service.set_loaded(&model);
    assert_eq!(service.needs_warming(), Ok(true));
    service.unload();
    assert_eq!(service.loaded_model_id(), None);
}

#[test]
fn loose_references_use_the_configured_engine() {
    let service = SpeechService::new_loose_with_engine("/cache", PathStyle::Unix, ModelEngine::Parakeet);
    let mut facts = LooseFacts {
        is_file: false,
        is_dir: false,
        cached_file: false,
        cached_dir: true,
        entries: Vec::new(),
    };
    let model = service.resolve("p", None, &[], None, &facts).unwrap();
    assert_eq!(model.engine, ModelEngine::Parakeet);
    assert_eq!(model.path, "/cache/p");
    facts.cached_dir = false;
    assert!(service.resolve("p", None, &[], None, &facts).is_err());
    assert_eq!(
        SpeechService::require_spec(None, "p").unwrap_err().message(),
        "Unknown model: p"
    );
    assert_eq!(service.model_manager().cache_dir(), "/cache");
}

#[test]
fn engines_are_started_by_plan() {
    let tdt = ModelLayout::ParakeetTdt;
    assert_eq!(
        load_engine(EngineKind::Whisper, Some("whisper-base"), tdt, false, ALL),
        Ok(LoadPlan::Whisper { dtw_preset: Some(DtwPreset::Base) })
    );
    assert_eq!(
        load_engine(EngineKind::Transcribe, Some("parakeet-tdt"), tdt, true, ALL),
        Ok(LoadPlan::Transcribe { backend: ComputeBackend::Cpu })
    );
    assert_eq!(
        load_engine(EngineKind::Transcribe, Some("parakeet-tdt"), tdt, false, ALL),
        Ok(LoadPlan::Transcribe { backend: ComputeBackend::Auto })
    );
    for (kind, message) in [
        (EngineKind::Whisper, "Whisper support is not enabled"),
        (EngineKind::Parakeet, "NVIDIA speech support is not enabled on this build"),
        (EngineKind::Nemotron, "NVIDIA speech support is not enabled on this build"),
        (EngineKind::Transcribe, "transcribe.cpp support is not enabled on this build"),
        (EngineKind::Apple, "Apple speech support is not enabled on this build"),
    ] {
        assert_eq!(load_engine(kind, None, tdt, false, NONE), Err(message.to_string()));
        assert!(load_engine(kind, None, tdt, false, ALL).is_ok());
    }
    assert_eq!(engine_kind(ModelEngine::Nemotron), EngineKind::Nemotron);
    assert!(check_streaming(EngineKind::Apple).is_ok());
    assert!(check_streaming(EngineKind::Whisper).is_err());
}

#[test]
fn engines_are_asked_for_what_a_request_wants() {
    let InferencePlan::<f32>::Whisper(p) = transcribe_with_engine(EngineKind::Whisper, &request()) else {
        panic!("a whisper plan");
    };
    assert!(p.dictionary.is_empty());
    assert_eq!(p.initial_prompt.as_deref(), Some("Notes\n\nGlimpse."));
    assert!(p.print_timestamps && p.word_timestamps && p.suppress_blank);
    let mut plain = request();
    plain.timestamp_granularity = None;
    plain.timestamps = true;
    let InferencePlan::<f32>::Parakeet(p) = transcribe_with_engine(EngineKind::Parakeet, &plain) else {
        panic!("a parakeet plan");
    };
    assert_eq!(p.timestamp_granularity, parakeet::TimestampGranularity::Segment);
    let InferencePlan::<f32>::Apple(p) = transcribe_with_engine(EngineKind::Apple, &plain) else {
        panic!("an apple plan");
    };
    assert!(p.long_form);
    let InferencePlan::<f32>::Transcribe(p) = transcribe_with_engine(EngineKind::Transcribe, &plain) else {
        panic!("a transcribe plan");
    };
    assert!(p.timestamps);
    let InferencePlan::<f32>::Nemotron(p) = transcribe_with_engine(EngineKind::Nemotron, &plain) else {
        panic!("a nemotron plan");
    };
    assert_eq!(p.language.as_deref(), Some("en"));
    assert_eq!(combined_prompt(None, &[]), None);
}

#[test]
fn detected_languages_come_first() {
    let result = |language: Option<&str>| TranscriptionResult::<f32> {
        text: "t".to_string(),
        segments: None,
        words: None,
        language: language.map(str::to_string),
    };
    let requested = Some("en".to_string());
    let t = finish_transcription(result(Some("de")), "m".to_string(), requested.clone(), 5);
    assert_eq!(t.language.as_deref(), Some("de"));
    let t = finish_transcription(result(None), "m".to_string(), requested, 5);
    assert_eq!(t.language.as_deref(), Some("en"));
    assert_eq!(t.duration_ms, 5);
}

#[test]
fn ended_streams_keep_what_they_have() {
    let so_far = Some("so far".to_string());
    assert_eq!(ended_transcript(Ok("done".to_string()), so_far.clone()), "done");
    assert_eq!(ended_transcript(Err("broken".to_string()), so_far), "so far");
    assert_eq!(ended_transcript(Err("broken".to_string()), None), "");
}

#[test]
fn durations_and_warm_requests() {
    assert_eq!(audio_duration_ms(44_100, 44_100), 1000);
    assert_eq!(audio_duration_ms(1, 3), 333);
    let warm = warm_request("m", 0.0f32);
    let AudioInput::Samples16Khz(samples) = warm.audio else {
        panic!("samples");
    };
    assert_eq!(samples.len(), 32_000);
}

#[test]
fn remote_requests_upload_files_only() {
    let RemoteStep::Upload { path, model } = plan_remote(&request(), None, true) else {
        panic!("an upload");
    };
    assert_eq!((path.as_str(), model.as_str()), ("a.wav", "m"));
    let mut samples = request();
    samples.audio = AudioInput::Samples16Khz(vec![0.0]);
    assert!(matches!(plan_remote(&samples, None, true), RemoteStep::Fallback));
    let RemoteStep::Refuse(e) = plan_remote(&samples, None, false) else {
        panic!("a refusal");
    };
    assert_eq!(e.message, "Remote provider requires an audio file upload");
}

#[test]
fn transient_remote_failures_fall_back() {
    let offline = transport_error("offline");
    let FailureStep::TryLocal { model_id } = after_remote_failure(&offline, Some("local")) else {
        panic!("a fallback");
    };
    assert_eq!(model_id, "local");
    assert!(matches!(after_remote_failure(&offline, None), FailureStep::Report));
    let bad = config_error("bad");
    assert!(matches!(after_remote_failure(&bad, Some("local")), FailureStep::Report));
    let moved = local_fallback_request(request(), Some("local".to_string())).unwrap();
    assert_eq!(moved.model_id, "local");
    assert_eq!(moved.language.as_deref(), Some("en"));
    let err = local_fallback_request(request(), None).unwrap_err();
    assert_eq!(err.message(), "No local transcription model is installed for fallback");
    assert_eq!(TranscribeError::Remote(offline).message(), "Remote speech provider is temporarily unavailable.");
}

#[test]
fn remote_configurations() {
    let c = remote_config("e", "k", Some("  ".to_string()));
    assert_eq!(c.model, None);
    let c = remote_config("e", "k", Some(" m ".to_string()));
    assert_eq!(c.model.as_deref(), Some(" m "));
    assert_eq!(default_model(&c).as_deref(), Some("m"));
    assert_eq!(known_model_ids(Some("m")), Some(vec!["m".to_string()]));
    assert_eq!(known_model_ids(None), None);
    let t = remote_transcription(
        Transcription::<f32> {
            text: "t".to_string(),
            segments: None,
            words: None,
            model_id: "m".to_string(),
            language: None,
            duration_ms: 1,
        },
        Some("en".to_string()),
    );
    assert_eq!(t.model_id, "remote:m");
    assert_eq!(t.language.as_deref(), Some("en"));
}
