use glimpse_speech::remote::provider::{
    append_transcription_query, auth_header, build_transcription_form, plan_request,
    resolve_profile, transcription_fields, transcription_query, AudioRequest, AuthScheme,
    DictionaryMode, TimestampMode, TranscriptionFormParams,
};
use glimpse_speech::remote::{supports_diarization, ResponseFormat};
use glimpse_speech::TimestampGranularity;

fn params<'a>(model: &'a str, granularities: &'a [&'a str]) -> TranscriptionFormParams<'a> {
    TranscriptionFormParams {
        model,
        response_format: ResponseFormat::Json,
        timestamp_granularities: granularities,
        language: None,
        dictionary: &[],
        prompt: None,
        diarize: false,
    }
}

fn pairs(fields: &[(&str, &str)]) -> Vec<(String, String)> {
    fields.iter().map(|(a, b)| (a.to_string(), b.to_string())).collect()
}

#[test]
fn default_profile_is_openai_compatible() {
    let profile = resolve_profile("https://api.openai.com/v1");
    assert!(profile.sends_response_format);
    assert_eq!(profile.timestamp_mode, TimestampMode::OpenAiVerboseJson);
}

#[test]
fn mistral_resolves_from_host() {
    let profile = resolve_profile("https://api.mistral.ai/v1");
    assert_eq!(profile.timestamp_mode, TimestampMode::NativeGranularities);
    assert_eq!(profile.dictionary_mode, DictionaryMode::ContextBias);
    assert!(!profile.sends_response_format);

    assert_eq!(resolve_profile("api.mistral.ai/v1"), profile);
}

#[test]
fn mistral_profile_does_not_match_path_or_host_substring() {
    let proxy = resolve_profile("https://proxy.example/mistral.ai/v1");
    assert_eq!(proxy.dictionary_mode, DictionaryMode::Prompt);
    assert!(proxy.sends_response_format);

    let lookalike = resolve_profile("https://mistral.ai.evil.example/v1");
    assert_eq!(lookalike.dictionary_mode, DictionaryMode::Prompt);
    assert!(lookalike.sends_response_format);
}

#[test]
fn self_hosted_endpoints_disable_word_timestamps() {
    let profile = resolve_profile("http://127.0.0.1:8080/v1");
    assert!(!profile.supports_word_timestamps);
    assert!(profile.keep_timestamps_on_format_fallback);
}

#[test]
fn does_not_request_timestamps_when_caller_opts_out() {
    let profile = resolve_profile("https://api.openai.com/v1");
    let plan = plan_request(&profile, false, None, false);
    assert_eq!(plan.response_format, ResponseFormat::Json);
    assert!(plan.timestamp_granularities.is_empty());
}

#[test]
fn requests_verbose_json_with_word_timestamps() {
    let profile = resolve_profile("https://api.openai.com/v1");
    let plan = plan_request(&profile, true, Some(TimestampGranularity::Word), false);
    assert_eq!(plan.response_format, ResponseFormat::VerboseJson);
    assert_eq!(plan.timestamp_granularities, vec!["segment", "word"]);
}

#[test]
fn speakers_change_what_is_asked_for() {
    let mistral = resolve_profile("https://api.mistral.ai/v1");
    let plan = plan_request(&mistral, false, None, true);
    assert_eq!(plan.timestamp_granularities, vec!["segment"]);
    let openai = resolve_profile("https://api.openai.com/v1");
    let plan = plan_request(&openai, true, Some(TimestampGranularity::Word), true);
    assert!(plan.timestamp_granularities.is_empty());
    let fireworks = resolve_profile("https://api.fireworks.ai/v1");
    let plan = plan_request(&fireworks, false, None, true);
    assert_eq!(plan.response_format, ResponseFormat::VerboseJson);
    assert_eq!(plan.timestamp_granularities, vec!["segment", "word"]);
}

#[test]
fn speakers_depend_on_endpoint_and_model() {
    assert!(supports_diarization("api.mistral.ai", "any"));
    assert!(supports_diarization("https://api.openai.com/v1", " GPT-4o-Transcribe-Diarize "));
    assert!(!supports_diarization("https://api.openai.com/v1", "whisper-1"));
    assert!(!supports_diarization("https://example.com", "diarize"));
}

#[test]
fn providers_are_told_apart() {
    assert_eq!(resolve_profile("openrouter.ai").audio_request, AudioRequest::Base64Json);
    assert_eq!(resolve_profile("https://api.deepgram.com").auth, AuthScheme::Token);
    assert_eq!(resolve_profile("https://api.elevenlabs.io").model_field, "model_id");
    assert_eq!(resolve_profile("https://API.X.AI/v1").transcriptions_path, "/stt");
    assert!(resolve_profile("http://studio.local:9000").keep_timestamps_on_format_fallback);
    assert!(resolve_profile("not a url at all").uploads_flac);
}

#[test]
fn openai_fields() {
    let profile = resolve_profile("https://api.openai.com/v1");
    let mut p = params("whisper-1", &["segment", " ", "word"]);
    p.response_format = ResponseFormat::VerboseJson;
    p.language = Some("en");
    let terms = ["Glimpse".to_string()];
    p.dictionary = &terms;
    p.prompt = Some("  Meeting notes ");
    assert_eq!(
        transcription_fields(&profile, &p),
        pairs(&[
            ("model", "whisper-1"),
            ("response_format", "verbose_json"),
            ("temperature", "0"),
            ("timestamp_granularities[]", "segment"),
            ("timestamp_granularities[]", "word"),
            ("language", "en"),
            (
                "prompt",
                "Meeting notes\n\nPrefer these names, product terms, and spellings when they are spoken: Glimpse."
            ),
        ])
    );
    p.diarize = true;
    assert_eq!(
        transcription_fields(&profile, &p)[1..3].to_vec(),
        pairs(&[("response_format", "diarized_json"), ("chunking_strategy", "auto")])
    );
}

#[test]
fn mistral_fields_bias_distinct_words() {
    let profile = resolve_profile("https://api.mistral.ai/v1");
    let terms = ["New York".to_string(), "york city".to_string()];
    let mut p = params("voxtral", &["segment"]);
    p.dictionary = &terms;
    p.prompt = Some("x");
    p.diarize = true;
    assert_eq!(
        transcription_fields(&profile, &p),
        pairs(&[
            ("model", "voxtral"),
            ("timestamp_granularities", "segment"),
            ("diarize", "true"),
            ("context_bias", "New"),
            ("context_bias", "York"),
            ("context_bias", "city"),
            ("prompt", "x"),
        ])
    );
}

#[test]
fn elevenlabs_fields_limit_key_terms() {
    let profile = resolve_profile("https://api.elevenlabs.io/v1");
    let terms = [
        "fine".to_string(),
        "has [brackets]".to_string(),
        "one two three four five six".to_string(),
        "a".repeat(50),
    ];
    let mut p = params("scribe_v2", &[]);
    p.dictionary = &terms;
    assert_eq!(
        transcription_fields(&profile, &p),
        pairs(&[
            ("model_id", "scribe_v2"),
            ("timestamps_granularity", "none"),
            ("tag_audio_events", "false"),
            ("keyterms", "fine"),
        ])
    );
    p.model = "scribe_v1";
    assert_eq!(transcription_fields(&profile, &p).len(), 3);
}

#[test]
fn forms_end_with_the_file() {
    let profile = resolve_profile("https://api.x.ai/v1");
    let mut p = params("grok-stt", &[]);
    p.language = Some("de");
    let part = reqwest::multipart::Part::bytes(vec![1, 2, 3]);
    let form = build_transcription_form(&profile, part, p);
    let shown = format!("{form:?}");
    let at = |needle: &str| shown.find(needle).expect("field is shown");
    assert!(at("\"model\"") < at("\"language\""));
    assert!(at("\"language\"") < at("\"format\""));
    assert!(at("\"format\"") < at("\"file\""));
}

#[test]
fn deepgram_options_go_into_the_query() {
    let profile = resolve_profile("https://api.deepgram.com/v1");
    let terms = ["Glimpse & Co".to_string()];
    let mut p = params("nova-3", &["segment"]);
    p.dictionary = &terms;
    p.diarize = true;
    assert_eq!(
        transcription_query(&profile, &p),
        pairs(&[
            ("model", "nova-3"),
            ("smart_format", "true"),
            ("punctuate", "true"),
            ("detect_language", "true"),
            ("diarize_model", "latest"),
            ("utterances", "true"),
            ("keyterm", "Glimpse & Co"),
        ])
    );
    let url = append_transcription_query(&profile, "https://api.deepgram.com/v1/listen?a=b", &p)
        .expect("a URL");
    let parsed = reqwest::Url::parse(&url).expect("a URL");
    let shown: Vec<(String, String)> = parsed.query_pairs().into_owned().collect();
    let mut wanted = pairs(&[("a", "b")]);
    wanted.extend(transcription_query(&profile, &p));
    assert_eq!(shown, wanted);
    assert_eq!(append_transcription_query(&profile, "no url", &p), None);
}

#[test]
fn keys_travel_in_headers() {
    assert_eq!(auth_header(AuthScheme::Bearer, ""), None);
    assert_eq!(
        auth_header(AuthScheme::Bearer, "k"),
        Some(("Authorization".to_string(), "Bearer k".to_string()))
    );
    assert_eq!(
        auth_header(AuthScheme::Token, "k"),
        Some(("Authorization".to_string(), "Token k".to_string()))
    );
    assert_eq!(
        auth_header(AuthScheme::XiApiKey, "k"),
        Some(("xi-api-key".to_string(), "k".to_string()))
    );
}

#[test]
fn deepgram_terms_stop_at_the_total_limit() {
    let profile = resolve_profile("https://api.deepgram.com/v1");
    let DictionaryMode::KeyTerms(rules) = profile.dictionary_mode else {
        panic!("key terms");
    };
    let terms: Vec<String> = (0..20).map(|i| format!("{i:02}{}", "x".repeat(38))).collect();
    assert_eq!(rules.terms("nova-3-general", &terms).len(), 12);
    assert!(rules.terms("nova-2", &terms).is_empty());
}
