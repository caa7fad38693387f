use glimpse_speech::api::ResponseFormat;
use glimpse_speech::cli::{
    filename_from_url, install_spec, installed_model_ids, listening_address, models_text,
    plan_serve, plan_transcribe, status_line, ServeBanner, ServeOptions,
};
use glimpse_speech::models::{ModelEngine, ModelStatus, ModelStorage};
use glimpse_speech::TimestampGranularity;

#[test]
fn filename_from_url_strips_query_and_fragment() {
    assert_eq!(
        filename_from_url("https://example.test/models/ggml-base.bin?download=1#top"),
        "ggml-base.bin"
    );
    assert_eq!(filename_from_url("https://example.test/"), "example.test");
    assert_eq!(filename_from_url(""), "model.bin");
}

#[test]
fn file_names_without_a_name() {
    assert_eq!(filename_from_url("https://h/a#b?c"), "a");
    assert_eq!(filename_from_url("https://h/?x=1"), "model.bin");
}

#[test]
fn models_are_listed_in_order() {
    let names: Vec<String> =
        ["b", "é", "a", "B", "ab", "a"].iter().map(|s| s.to_string()).collect();
    let mut expected = names.clone();
    expected.sort();
    assert_eq!(installed_model_ids(&names), expected);
    assert_eq!(models_text(&[], "/cache"), "No models installed in /cache");
    assert_eq!(models_text(&["a".to_string(), "b".to_string()], "/cache"), "a\nb");
}

#[test]
fn models_are_installed_from_urls() {
    let spec = install_spec("w".to_string(), "https://h/m.bin?x".to_string(), None, Some(3), None);
    assert_eq!(spec.engine, ModelEngine::Whisper);
    assert_eq!(spec.storage, ModelStorage::File { artifact: "m.bin".to_string() });
    assert_eq!(spec.files[0].path, "m.bin");
    assert_eq!(spec.files[0].size_bytes, Some(3));
    let spec = install_spec("w".to_string(), "u".to_string(), Some("x".to_string()), None, None);
    assert_eq!(spec.files[0].path, "x");
}

#[test]
fn statuses_are_shown() {
    let mut status = ModelStatus {
        id: "m".to_string(),
        installed: true,
        bytes_on_disk: 1,
        missing_files: Vec::new(),
        directory: "/cache/m".to_string(),
    };
    assert_eq!(status_line(&status), "m installed at /cache/m");
    status.installed = false;
    status.missing_files = vec!["a".to_string(), "b".to_string()];
    assert_eq!(status_line(&status), "m not installed; missing: a, b");
}

#[test]
fn formats_decide_about_times() {
    let plan = plan_transcribe(ResponseFormat::Text, true, false);
    assert_eq!(plan.format, ResponseFormat::Json);
    assert!(!plan.timestamps);
    assert_eq!(plan.timestamp_granularity, None);
    let plan = plan_transcribe(ResponseFormat::Srt, true, false);
    assert_eq!(plan.format, ResponseFormat::Srt);
    assert_eq!(plan.timestamp_granularity, Some(TimestampGranularity::Segment));
    assert!(plan_transcribe(ResponseFormat::Text, false, true).timestamps);
}

fn options() -> ServeOptions {
    ServeOptions {
        model: Some("m".to_string()),
        api_key: None,
        remote_endpoint: None,
        remote_api_key: None,
        remote_model: None,
        cors: true,
        no_cors: false,
    }
}

#[test]
fn serving_locally_warms_the_model() {
    let plan = plan_serve(&options());
    assert!(plan.cors_enabled);
    assert!(!plan.api_key_required);
    assert_eq!(plan.warm_model.as_deref(), Some("m"));
    assert!(plan.remote.is_none());
}

#[test]
fn serving_remotely_passes_the_model_on() {
    let mut o = options();
    o.no_cors = true;
    o.api_key = Some("k".to_string());
    o.remote_endpoint = Some(" https://h ".to_string());
    let plan = plan_serve(&o);
    assert!(!plan.cors_enabled);
    assert!(plan.api_key_required);
    assert_eq!(plan.warm_model, None);
    let remote = plan.remote.expect("remote");
    assert_eq!(remote.endpoint, "https://h");
    assert_eq!(remote.api_key, "");
    assert_eq!(remote.model.as_deref(), Some("m"));
    o.remote_model = Some("  ".to_string());
    assert_eq!(plan_serve(&o).remote.expect("remote").model, None);
}

#[test]
fn the_banner_shows_what_is_served() {
    let banner = ServeBanner {
        model_cache_dir: "/cache".to_string(),
        warm_model: None,
        engine: ModelEngine::Whisper,
        remote_enabled: true,
        api_key_required: false,
        cors_enabled: true,
    };
    let url = listening_address("Local API listening on http://127.0.0.1:1").expect("address");
    assert_eq!(listening_address("other"), None);
    assert_eq!(
        banner.render(&url),
        "Now serving Glimpse Speech API\nBase URL: http://127.0.0.1:1\nServing:\n- Models: GET http://127.0.0.1:1/v1/models\n- Transcriptions: POST http://127.0.0.1:1/v1/audio/transcriptions\n- Health: GET http://127.0.0.1:1/health\nModel cache: /cache\nBackend: remote proxy\nEngine: whisper\nModel: configured remote model\nAuth: none\nCORS: enabled"
    );
}
