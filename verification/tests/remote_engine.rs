use glimpse_speech::paths::PathStyle;
use glimpse_speech::remote::address::{api_base, ensure_scheme, is_loopback_host, is_self_hosted_host};
use glimpse_speech::remote::engine::{
    after_reply, audio_extension, audio_mime_for_extension, base64_request, first_attempt,
    group_speaker_words, join_words, models_url, next_attempt, parse_transcription_body,
    prepare_request, previous_spoken, sentence_segments, spoken_words, temp_flac_name, tries_flac, upload_mime,
    upload_name, DeepgramAlternative, DeepgramChannel, DeepgramModel, DeepgramResults, Grouping,
    ModelEntry, ModelsResponse, RemoteConfig, RemoteRequestParams, ReplyStep, SpeakerLabel,
    TranscriptionBody, UpstreamSegment,
};
use glimpse_speech::remote::provider::resolve_profile;
use glimpse_speech::remote::{check_reply, config_error, RemoteErrorKind, Reply, ResponseFormat};
use glimpse_speech::{TimestampGranularity, TranscriptionSegment};

fn word(text: &str, start: f32, end: f32) -> UpstreamSegment<f32> {
    UpstreamSegment {
        start,
        end,
        text: text.to_string(),
        word: String::new(),
        speaker: None,
        kind: None,
        attached: false,
    }
}

fn body() -> TranscriptionBody<f32> {
    TranscriptionBody {
        text: String::new(),
        segments: None,
        words: None,
        language: None,
        duration_ms: None,
        usage_ms: None,
        metadata_ms: None,
        results: None,
    }
}

fn config(endpoint: &str) -> RemoteConfig {
    RemoteConfig { endpoint: endpoint.to_string(), api_key: " key ".to_string(), model: None }
}

fn params(model: &str) -> RemoteRequestParams<'_> {
    RemoteRequestParams {
        model,
        language: Some(" Auto "),
        dictionary: &[],
        prompt: None,
        timestamps: true,
        timestamp_granularity: Some(TimestampGranularity::Word),
    }
}

#[test]
fn infers_endpoint_scheme() {
    assert_eq!(
        ensure_scheme("server.local:8000"),
        "http://server.local:8000"
    );
    assert_eq!(ensure_scheme("[::1]:8000"), "http://[::1]:8000");
    assert_eq!(ensure_scheme("api.example.com"), "https://api.example.com");
    assert_eq!(
        ensure_scheme("http://localhost:8000"),
        "http://localhost:8000"
    );
}

#[test]
fn preserves_diarized_speaker_ids_separately_from_standard_segments() {
    let mut parsed = body();
    parsed.text = "Hello there".to_string();
    parsed.language = Some("en".to_string());
    let mut segment = word("Hello there", 0.25, 1.5);
    segment.speaker = Some(SpeakerLabel::Name("speaker_0".to_string()));
    parsed.segments = Some(vec![segment]);
    parsed.usage_ms = Some(2000);
    let response = parse_transcription_body(
        parsed,
        &[],
        "voxtral-mini-latest",
        &resolve_profile("https://api.mistral.ai/v1"),
        true,
    );

    assert_eq!(
        response.transcription.segments.as_deref(),
        Some(
            [TranscriptionSegment {
                start: 0.25,
                end: 1.5,
                text: "Hello there".to_string(),
            }]
            .as_slice()
        )
    );
    let speakers = response.segments.as_deref().expect("speakers");
    assert_eq!(speakers.len(), 1);
    assert_eq!(speakers[0].start, 0.25);
    assert_eq!(speakers[0].end, 1.5);
    assert_eq!(speakers[0].text, "Hello there");
    assert_eq!(speakers[0].speaker.as_deref(), Some("speaker_0"));
    assert_eq!(response.transcription.duration_ms, 2000);
    assert_eq!(response.transcription.words, None);
}

#[test]
fn base_urls() {
    assert_eq!(api_base("api.openai.com"), "https://api.openai.com/v1");
    assert_eq!(api_base("https://api.openai.com/v1/"), "https://api.openai.com/v1");
    assert_eq!(
        api_base("https://api.openai.com/v1/audio/transcriptions"),
        "https://api.openai.com/v1"
    );
    assert_eq!(api_base(" https://h/v2/audio/transcriptions// "), "https://h/v2");
    assert_eq!(api_base("localhost:8000/listen"), "http://localhost:8000/v1");
    assert_eq!(api_base(""), "");
}

#[test]
fn request_urls_can_be_given_as_endpoints() {
    for endpoint in ["api.openai.com", "https://h/v2", "http://10.0.0.1:80/x/", "ftp://h"] {
        let base = api_base(endpoint);
        assert_eq!(api_base(&base), base);
        for path in ["/audio/transcriptions", "/stt", "/speech-to-text", "/listen"] {
            assert_eq!(api_base(&format!("{base}{path}")), base);
        }
    }
    assert_eq!(api_base("https://h/v2/v1"), "https://h/v2/v1");
    assert_eq!(api_base("https://h/v2/v1/stt"), "https://h/v2");
}

#[test]
fn local_hosts_are_recognised_as_by_the_standard_library() {
    let hosts = [
        "localhost", "a.local", "10.0.0.1", "172.16.3.4", "172.32.0.1", "192.168.1.1",
        "192.169.1.1", "127.9.9.9", "169.254.0.1", "8.8.8.8", "256.1.1.1", "01.2.3.4", "1.2.3",
        "::1", "::", "fc00::1", "fdff::", "fe80::1", "febf::", "fec0::1", "2001:db8::1",
        "::ffff:10.0.0.1", "1:2:3:4:5:6:7:8", "1:2:3:4:5:6:7", "1:2:3:4:5:6:1.2.3.4", ":::",
        "1::2::3", "fe80::1%eth0", "0:0:0:0:0:0:0:1", "0000:0:0:0:0:0:0:0001", "00000::1",
        "1:2:3:4:5:6:7:8::", "::1.2.3.4", "1.2.3.4::", "FC00::A", "example.com", "",
        "1:2:3:4:5:6:7::", "::2:3:4:5:6:7:8", "fe80::1.2.3.256",
    ];
    for host in hosts {
        let expected = if host == "localhost" || host.ends_with(".local") {
            true
        } else {
            local_address(host)
        };
        assert_eq!(is_self_hosted_host(host), expected, "{host}");
    }
}

fn local_address(host: &str) -> bool {
    match host.parse::<core::net::IpAddr>() {
        Ok(core::net::IpAddr::V4(ip)) => ip.is_private() || ip.is_loopback() || ip.is_link_local(),
        Ok(core::net::IpAddr::V6(ip)) => {
            ip.is_loopback()
                || (ip.segments()[0] & 0xfe00) == 0xfc00
                || (ip.segments()[0] & 0xffc0) == 0xfe80
        }
        Err(_) => false,
    }
}

#[test]
fn loopback_hosts() {
    assert!(is_loopback_host("127.0.0.1"));
    assert!(is_loopback_host("[::1]"));
    assert!(!is_loopback_host("::1"));
    assert!(!is_loopback_host("0.0.0.0"));
    assert!(!is_loopback_host("[::]"));
}

#[test]
fn requests_need_an_endpoint_and_a_model() {
    let err = prepare_request(&config("  "), &params("m"), false).expect_err("no endpoint");
    assert_eq!(err.message, "Remote speech endpoint is not configured");
    assert_eq!(err.kind, RemoteErrorKind::InvalidRequest);
    let err = prepare_request(&config("api.openai.com"), &params("  "), false).expect_err("no model");
    assert_eq!(err.message, "Remote speech model is not configured");
}

#[test]
fn requests_are_prepared() {
    let q = prepare_request(&config(" api.openai.com "), &params(" whisper-1 "), true)
        .expect("prepared");
    assert_eq!(q.url, "https://api.openai.com/v1/audio/transcriptions");
    assert_eq!(q.model, "whisper-1");
    assert_eq!(q.api_key, "key");
    assert_eq!(q.language, None);
    assert!(!q.diarize);
    let q = prepare_request(&config("api.mistral.ai"), &params("voxtral"), true).expect("prepared");
    assert!(q.diarize);
    assert_eq!(
        models_url(&config("openrouter.ai")).as_deref(),
        Some("https://openrouter.ai/v1/models?output_modalities=transcription")
    );
    assert_eq!(models_url(&config(" ")), None);
}

#[test]
fn refused_features_are_given_up_one_by_one() {
    let profile = resolve_profile("https://api.fireworks.ai/v1");
    let mut attempt = first_attempt(&profile, true, None, true, true);
    assert_eq!(attempt.response_format, ResponseFormat::VerboseJson);
    let mut all = config_error("response_format: diarization of flac is not supported");
    all.status = 400;
    let mut attempts = 1;
    while let Some(next) = next_attempt(&profile, true, None, &attempt, &all) {
        attempt = next;
        attempts += 1;
    }
    assert!(attempts <= 5);
    assert!(!attempt.use_flac);
    assert!(!attempt.diarize);
    assert_eq!(attempt.response_format, ResponseFormat::Json);
    assert!(attempt.timestamp_granularities.is_empty());

    let other = config_error("quota");
    assert!(next_attempt(&profile, true, None, &first_attempt(&profile, true, None, true, true), &other).is_none());
}

fn reply(status: u16, body: &str) -> Reply {
    Reply { status, retry_after: None, envelope: None, body: body.to_string() }
}

#[test]
fn replies_end_an_upload_or_lead_to_another() {
    let profile = resolve_profile("https://api.openai.com/v1");
    let first = first_attempt(&profile, true, None, false, true);
    for status in [200, 204, 299] {
        let ReplyStep::Done(body) = after_reply(&profile, true, None, &first, reply(status, "flac"))
        else {
            panic!("done");
        };
        assert_eq!(body, "flac");
    }
    let ReplyStep::Retry(next) =
        after_reply(&profile, true, None, &first, reply(415, "no flac please"))
    else {
        panic!("another attempt");
    };
    assert!(!next.use_flac);
    let ReplyStep::Fail(err) = after_reply(&profile, true, None, &next, reply(415, "no flac please"))
    else {
        panic!("a failure");
    };
    assert_eq!((err.status, err.message.as_str()), (415, "no flac please"));
    assert_eq!(check_reply(reply(201, "b")).expect("body"), "b");
    assert_eq!(check_reply(reply(199, "b")).expect_err("error").status, 199);
    assert_eq!(check_reply(reply(300, "b")).expect_err("error").kind, RemoteErrorKind::Other);
}

#[test]
fn self_hosted_servers_keep_segment_times() {
    let profile = resolve_profile("http://127.0.0.1:8080");
    let first = first_attempt(&profile, true, None, false, false);
    let refused = config_error("unknown verbose_json");
    let next = next_attempt(&profile, true, None, &first, &refused).expect("another attempt");
    assert_eq!(next.response_format, ResponseFormat::Json);
    assert_eq!(next.timestamp_granularities, vec!["segment"]);
}

#[test]
fn flac_is_given_up_when_the_file_is_blamed() {
    let profile = resolve_profile("https://api.openai.com/v1");
    let first = first_attempt(&profile, false, None, false, true);
    let mut err = config_error("nope");
    err.param = Some("file".to_string());
    let next = next_attempt(&profile, false, None, &first, &err).expect("another attempt");
    assert!(!next.use_flac);
}

#[test]
fn recordings_are_named_and_typed() {
    assert_eq!(audio_extension(PathStyle::Unix, "a/b/Clip.WAV").as_deref(), Some("wav"));
    assert_eq!(audio_extension(PathStyle::Unix, ".wav"), None);
    assert_eq!(audio_extension(PathStyle::Unix, "dir.x/file"), None);
    assert_eq!(upload_name(PathStyle::Unix, "a/clip.wav", false), "clip.wav");
    assert_eq!(upload_name(PathStyle::Unix, "a/clip.wav", true), "clip.flac");
    assert_eq!(upload_name(PathStyle::Unix, "..", false), "recording.wav");
    assert_eq!(upload_name(PathStyle::Unix, "/", true), "recording.flac");
    assert_eq!(upload_name(PathStyle::Unix, "a\\clip.wav", false), "a\\clip.wav");
    assert_eq!(upload_name(PathStyle::Windows, "a\\clip.wav", true), "clip.flac");
    assert_eq!(upload_name(PathStyle::Windows, "C:clip.wav", false), "clip.wav");
    assert_eq!(upload_name(PathStyle::Windows, "C:\\", false), "recording.wav");
    assert_eq!(audio_extension(PathStyle::Windows, "dir.x\\file"), None);
    assert_eq!(upload_mime(PathStyle::Unix, "x.MP3", false), "audio/mpeg");
    assert_eq!(upload_mime(PathStyle::Unix, "x.wav", true), "audio/flac");
    assert_eq!(audio_mime_for_extension(Some("oga")), "audio/ogg");
    assert_eq!(audio_mime_for_extension(None), "application/octet-stream");
    let openai = resolve_profile("https://api.openai.com/v1");
    assert!(tries_flac(&openai, PathStyle::Unix, "x.wav"));
    assert!(!tries_flac(&openai, PathStyle::Unix, "x.mp3"));
    assert!(!tries_flac(&resolve_profile("localhost"), PathStyle::Unix, "x.mp3"));
    assert_eq!(temp_flac_name(7, 8), "glimpse-speech-upload-7-8.flac");
}

#[test]
fn audio_travels_as_base64() {
    let r = base64_request(b"hello", PathStyle::Unix, "clip.Ogg", "m", Some("en"));
    assert_eq!(r.data, "aGVsbG8=");
    assert_eq!(r.format, "ogg");
    assert_eq!(r.language.as_deref(), Some("en"));
    assert_eq!(base64_request(&[0xfb, 0xff], PathStyle::Unix, "clip", "m", None).data, "+/8=");
    assert_eq!(base64_request(&[], PathStyle::Unix, "clip", "m", None).data, "");
    assert_eq!(base64_request(b"abc", PathStyle::Unix, "clip", "m", None).format, "wav");
}

#[test]
fn spacing_attaches_words() {
    let mut entries = Vec::new();
    for (text, kind) in [("東", "word"), ("京", "word"), (" ", "spacing"), ("x", "word"), ("(laugh)", "audio_event")] {
        let mut w = word(text, 0.0, 1.0);
        w.kind = Some(kind.to_string());
        entries.push(w);
    }
    let words = spoken_words(&entries);
    let shown: Vec<(String, bool)> = words.iter().map(|w| (w.text.clone(), w.attached)).collect();
    assert_eq!(
        shown,
        vec![("東".to_string(), false), ("京".to_string(), true), ("x".to_string(), false)]
    );
    let joined = join_words(&words, Grouping::Sentence(&[]));
    assert_eq!(joined.len(), 1);
    assert_eq!(joined[0].text, "東京 x");
}

#[test]
fn sentences_end_at_punctuation_and_pauses() {
    let words = [
        word("Hi.", 0.0, 0.5),
        word(" ", 0.5, 0.6),
        word("How", 0.6, 1.0),
        word("are", 2.5, 3.0),
    ];
    let previous = previous_spoken(&words);
    assert_eq!(previous, vec![None, Some(0), Some(0), Some(2)]);
    let pauses: Vec<bool> = (0..words.len())
        .map(|i| previous[i].is_some_and(|j| words[i].start - words[j].end >= 1.0))
        .collect();
    let segments = sentence_segments(&words, &pauses);
    let texts: Vec<&str> = segments.iter().map(|s| s.text.as_str()).collect();
    assert_eq!(texts, vec!["Hi.", "How", "are"]);
    assert_eq!(segments[1].start, 0.6);
    assert_eq!(segments[1].end, 1.0);
}

#[test]
fn words_are_grouped_by_speaker() {
    let mut words = vec![word("a", 0.0, 1.0), word("b", 1.0, 2.0), word("c", 2.0, 3.0)];
    assert!(group_speaker_words(&words).is_none());
    words[0].speaker = Some(SpeakerLabel::Index(0));
    words[1].speaker = Some(SpeakerLabel::Name("speaker_0".to_string()));
    words[2].speaker = Some(SpeakerLabel::Index(1));
    let groups = group_speaker_words(&words).expect("groups");
    assert_eq!(groups.len(), 2);
    assert_eq!(groups[0].text, "a b");
    assert_eq!(groups[0].end, 2.0);
    assert_eq!(groups[1].speaker.as_deref(), Some("speaker_1"));
}

#[test]
fn nested_results_are_found() {
    let mut parsed = body();
    parsed.metadata_ms = Some(1500);
    parsed.results = Some(DeepgramResults {
        channels: vec![DeepgramChannel {
            alternatives: vec![DeepgramAlternative {
                transcript: "hello world".to_string(),
                words: vec![word("hello", 0.0, 0.5), word("world", 0.5, 1.0)],
            }],
            detected_language: Some("en".to_string()),
        }],
        utterances: None,
    });
    let profile = resolve_profile("https://api.deepgram.com/v1");
    let r = parse_transcription_body(parsed, &[], "nova-3", &profile, true);
    assert_eq!(r.transcription.text, "hello world");
    assert_eq!(r.transcription.language.as_deref(), Some("en"));
    assert_eq!(r.transcription.duration_ms, 1500);
    assert_eq!(r.transcription.words.as_ref().map(Vec::len), Some(2));
    assert_eq!(
        r.transcription.segments.as_ref().map(|s| s[0].text.clone()).as_deref(),
        Some("hello world")
    );
    assert!(r.segments.is_none());
}

#[test]
fn models_are_listed_once() {
    let r = ModelsResponse::List(vec![ModelEntry { id: "a".to_string() }]);
    assert_eq!(r.into_ids(), vec!["a"]);
    let r = ModelsResponse::Wrapped { data: vec![ModelEntry { id: "b".to_string() }] };
    assert_eq!(r.into_ids(), vec!["b"]);
    let model = |name: &str, batch| DeepgramModel { canonical_name: name.to_string(), batch };
    let r = ModelsResponse::Deepgram {
        stt: vec![model("n3", true), model("n3", true), model("live", false), model("n2", true)],
    };
    assert_eq!(r.into_ids(), vec!["n3", "n2"]);
}
