use glimpse_speech::api::{
    authorize, build_transcription_request, caption_segments, field_kind, format_srt,
    format_timestamp, format_vtt, is_multipart_content_type, map_error, map_server_error,
    parse_bool, parse_response_format, parse_timestamp_granularities, required_key,
    split_field_values, temp_audio_name, text_body, verbose_response, verbose_words, word_count, ApiConfig,
    ApiEvent, FieldKind, ResponseFormat, TranscriptionRequestParts, UploadForm,
};
use glimpse_speech::service::AudioInput;
use glimpse_speech::{TimestampGranularity, Transcription, TranscriptionSegment};

fn sample_response() -> Transcription<f32> {
    Transcription {
        text: "hello world".to_string(),
        segments: Some(vec![TranscriptionSegment {
            start: 1.25,
            end: 2.5,
            text: "hello world".to_string(),
        }]),
        words: None,
        model_id: "whisper_small_q5".to_string(),
        language: Some("en".to_string()),
        duration_ms: 1250,
    }
}

fn in_millis(segments: &[TranscriptionSegment<f32>]) -> Vec<TranscriptionSegment<u64>> {
    segments
        .iter()
        .map(|s| TranscriptionSegment {
            start: (s.start.max(0.0) * 1000.0).round() as u64,
            end: (s.end.max(0.0) * 1000.0).round() as u64,
            text: s.text.clone(),
        })
        .collect()
}

fn word_times(segment: &TranscriptionSegment<f32>) -> Vec<f32> {
    let count = word_count(segment);
    let step = (segment.end - segment.start).max(0.0) / count as f32;
    (0..count).map(|i| segment.start + step * i as f32).collect()
}

fn parts() -> TranscriptionRequestParts<f32> {
    TranscriptionRequestParts {
        model: "whisper_small_q5".to_string(),
        audio: AudioInput::WavPath("audio.wav".to_string()),
        language: None,
        prompt: None,
        response_format: Some("json".to_string()),
        timestamp_granularities: vec!["segment".to_string()],
        dictionary: Vec::new(),
        timestamps: false,
        stream: false,
        uploaded_file: None,
    }
}

#[test]
fn parses_openai_timestamp_granularity_arrays() {
    let parsed =
        parse_timestamp_granularities(vec!["segment".to_string(), "word,segment".to_string()])
            .unwrap();
    assert_eq!(
        parsed,
        vec![TimestampGranularity::Segment, TimestampGranularity::Word]
    );
}

#[test]
fn rejects_timestamp_granularity_without_verbose_json() {
    let result = build_transcription_request(parts(), true);
    assert!(result.is_err());
}

#[test]
fn formats_srt_and_vtt() {
    let response = sample_response();
    let captions = in_millis(&caption_segments(&response, 0.0, 1.25));
    assert!(format_srt(&captions).contains("00:00:01,250 --> 00:00:02,500"));
    assert!(format_vtt(&captions).starts_with("WEBVTT"));
}

#[test]
fn verbose_words_split_segment_text() {
    let response = sample_response();
    let captions = caption_segments(&response, 0.0, 1.25);
    let times: Vec<Vec<f32>> = captions.iter().map(word_times).collect();
    let words = verbose_words(&response, &captions, &times);
    assert_eq!(words.len(), 2);
    assert_eq!(words[0].word, "hello");
    assert_eq!(words[0].start, 1.25);
    assert!((words[0].end - 1.875).abs() < f32::EPSILON);
    assert_eq!(words[1].word, "world");
    assert!((words[1].start - 1.875).abs() < f32::EPSILON);
    assert_eq!(words[1].end, 2.5);
}

#[test]
fn accepts_multipart_content_type_case_insensitively() {
    assert!(is_multipart_content_type(
        "Multipart/Form-Data; boundary=abc"
    ));
}

#[test]
fn server_errors_are_not_invalid_request_errors() {
    let failure = map_server_error("model load failed");
    assert_eq!(failure.status, 500);
    assert_eq!(failure.body.error.error_type, "server_error");
}

#[test]
fn verbose_json_falls_back_to_full_text_segment() {
    let response: Transcription<f32> = Transcription {
        text: "hello world".to_string(),
        segments: None,
        words: None,
        model_id: "nemotron_streaming_en".to_string(),
        language: Some("en".to_string()),
        duration_ms: 1_500,
    };

    let verbose = verbose_response(response, &[], 0.0, 1.5, &[]);
    assert_eq!(verbose.text, "hello world");
    assert_eq!(verbose.segments[0].text, "hello world");
    assert_eq!(verbose.segments[0].start, 0.0);
    assert_eq!(verbose.segments[0].end, 1.5);
    assert_eq!(verbose.duration, 1.5);
    assert_eq!(verbose.task, "transcribe");
}

#[test]
fn words_of_the_engine_are_not_interpolated() {
    let mut response = sample_response();
    response.words = Some(vec![TranscriptionSegment {
        start: 1.3,
        end: 2.4,
        text: "hello".to_string(),
    }]);
    let times = vec![vec![1.25, 1.875]];
    let granularities = [TimestampGranularity::Segment, TimestampGranularity::Word];
    let verbose = verbose_response(response.clone(), &granularities, 0.0, 1.25, &times);
    let words = verbose.words.expect("words");
    assert_eq!(words.len(), 1);
    assert_eq!((words[0].start, words[0].end), (1.3, 2.4));
    assert_eq!(verbose.duration, 2.5);
    response.words = Some(Vec::new());
    let verbose = verbose_response(response.clone(), &granularities, 0.0, 1.25, &times);
    assert_eq!(verbose.words.expect("words")[1].start, 1.875);
    let verbose =
        verbose_response(response, &[TimestampGranularity::Segment], 0.0, 1.25, &[]);
    assert!(verbose.words.is_none());
}

#[test]
fn captions_are_written_exactly() {
    let segment = |start, end, text: &str| TranscriptionSegment { start, end, text: text.to_string() };
    let captions = [segment(0, 999, " one "), segment(3_600_000, 3_661_001, "two")];
    assert_eq!(
        format_srt(&captions),
        "1\n00:00:00,000 --> 00:00:00,999\none\n\n2\n01:00:00,000 --> 01:01:01,001\ntwo\n"
    );
    assert_eq!(
        format_vtt(&captions),
        "WEBVTT\n\n00:00:00.000 --> 00:00:00.999\none\n\n01:00:00.000 --> 01:01:01.001\ntwo\n"
    );
    assert_eq!(text_body(ResponseFormat::Text, " t ", &captions).as_deref(), Some(" t "));
    assert_eq!(text_body(ResponseFormat::Srt, "t", &captions), Some(format_srt(&captions)));
    assert_eq!(text_body(ResponseFormat::Vtt, "t", &captions), Some(format_vtt(&captions)));
    assert_eq!(text_body(ResponseFormat::Json, "t", &captions), None);
    assert_eq!(text_body(ResponseFormat::VerboseJson, "t", &captions), None);
    assert_eq!(format_srt(&[]), "");
    assert_eq!(format_vtt(&[]), "WEBVTT\n\n\n");
    assert_eq!(format_timestamp(360_000_007, '.'), "100:00:00.007");
}

#[test]
fn keys_are_accepted_in_either_header() {
    assert!(authorize(None, None, None).is_ok());
    assert!(authorize(Some("k"), Some("Bearer  k "), None).is_ok());
    assert!(authorize(Some("k"), None, Some(" k")).is_ok());
    for (bearer, header) in [(None, None), (Some("k"), None), (Some("bearer k"), None), (Some("Bearer x"), Some("y"))] {
        let e = authorize(Some("k"), bearer, header).unwrap_err();
        assert_eq!(e.status, 401);
        assert_eq!(e.body.error.message, "Missing or invalid API key");
        assert_eq!(e.body.error.error_type, "invalid_request_error");
    }
    assert_eq!(required_key(Some("  ".to_string())), None);
    assert_eq!(required_key(Some(" k".to_string())).as_deref(), Some(" k"));
}

#[test]
fn requests_are_refused_for_the_first_fault() {
    let message = |parts, known| {
        let e = build_transcription_request::<f32>(parts, known).unwrap_err();
        assert_eq!(e.status, 400);
        e.body.error.message
    };
    let mut p = parts();
    p.stream = true;
    assert_eq!(message(p, false), "Streaming transcription responses are not supported");
    assert_eq!(message(parts(), false), "Unknown model: whisper_small_q5");
    let mut p = parts();
    p.response_format = Some("xml".to_string());
    assert_eq!(message(p, true), "Unsupported response_format `xml`");
    let mut p = parts();
    p.timestamp_granularities = vec!["char".to_string()];
    assert_eq!(message(p, true), "Unsupported timestamp granularity `char`");
    assert_eq!(
        message(parts(), true),
        "`timestamp_granularities` requires response_format `verbose_json`"
    );
}

#[test]
fn requests_are_built() {
    let mut p = parts();
    p.response_format = Some("verbose_json".to_string());
    p.timestamp_granularities = vec!["segment, word".to_string()];
    let parsed = build_transcription_request(p, true).unwrap();
    assert_eq!(parsed.response_format, ResponseFormat::VerboseJson);
    assert_eq!(parsed.request.timestamp_granularity, Some(TimestampGranularity::Word));
    assert!(parsed.request.timestamps);
    let mut p = parts();
    p.response_format = None;
    p.timestamp_granularities.clear();
    let parsed = build_transcription_request(p, true).unwrap();
    assert_eq!(parsed.response_format, ResponseFormat::Json);
    assert!(!parsed.request.timestamps);
}

#[test]
fn forms_are_read_field_by_field() {
    let mut form = UploadForm::new();
    for (name, value) in [
        ("model", "a"),
        ("model", "b"),
        ("language", "en"),
        ("language", "  "),
        ("dictionary[]", "x, y"),
        ("glimpse_dictionary", "z"),
        ("timestamp_granularities[]", "word"),
        ("timestamps", " yes "),
        ("stream", "no"),
        ("temperature", "0.3"),
        ("unknown", "?"),
    ] {
        form.take_field(field_kind(name), value);
    }
    assert_eq!(field_kind("audio"), FieldKind::File);
    assert_eq!(form.dictionary, vec!["x", "y", "z"]);
    assert!(form.timestamps && !form.stream);
    let missing = form.clone().into_parts::<f32>(None).unwrap_err();
    assert_eq!(missing.body.error.message, "Missing multipart file field `file`");
    let missing = UploadForm::new().into_parts::<f32>(Some("/tmp/x".to_string())).unwrap_err();
    assert_eq!(missing.body.error.message, "Missing multipart field `model`");
    let parts = form.into_parts::<f32>(Some("/tmp/x".to_string())).unwrap();
    assert_eq!(parts.model, "b");
    assert_eq!(parts.language.as_deref(), Some("en"));
    assert_eq!(parts.uploaded_file.as_deref(), Some("/tmp/x"));
    assert_eq!(parts.timestamp_granularities, vec!["word"]);
}

#[test]
fn small_parsers() {
    assert_eq!(split_field_values(" a,, b ,"), vec!["a", "b"]);
    assert!(parse_bool(" on "));
    assert!(!parse_bool("TRUE"));
    assert_eq!(parse_response_format("vtt").unwrap(), ResponseFormat::Vtt);
    assert!(ResponseFormat::Srt.needs_timestamps());
    assert!(!ResponseFormat::Text.needs_timestamps());
    assert_eq!(ResponseFormat::Srt.text_content_type(), Some("application/x-subrip"));
    assert_eq!(ResponseFormat::Json.text_content_type(), None);
    assert_eq!(map_error("x").status, 400);
    assert_eq!(temp_audio_name(1, 2, 3, Some("ogg")), "glimpse-speech-upload-1-2-3.ogg");
    assert_eq!(temp_audio_name(1, 2, 3, None), "glimpse-speech-upload-1-2-3.wav");
    assert_eq!(temp_audio_name(1, 2, 3, Some("")), "glimpse-speech-upload-1-2-3");
    let event = ApiEvent::new("info", "ready", Some("m"));
    assert_eq!(event.model_id.as_deref(), Some("m"));
}

#[test]
fn the_network_is_served_only_with_a_key() {
    let mut config = ApiConfig {
        host: "127.0.0.1".to_string(),
        port: 11435,
        model_cache_dir: "/cache".to_string(),
        warm_model: None,
        api_key: None,
        cors: false,
    };
    assert_eq!(config.address(), "127.0.0.1:11435");
    assert!(config.check_binding().is_ok());
    config.host = "0.0.0.0".to_string();
    assert_eq!(
        config.check_binding(),
        Err("Serving on 0.0.0.0 requires an API key".to_string())
    );
    config.api_key = Some(" ".to_string());
    assert!(config.check_binding().is_err());
    config.api_key = Some("k".to_string());
    assert!(config.check_binding().is_ok());
}
