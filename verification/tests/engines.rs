use glimpse_speech::engines::apple::{
    apple_result, feed_result, supported_locales, vocabulary_json, AppleEngine, ShimResult,
};
use glimpse_speech::engines::nemotron::{language_to_set, nemotron_language};
use glimpse_speech::engines::parakeet::{
    attach_punctuation, check_streaming, group_words_into_sentences, map_result,
    normalize_inference_params, ParakeetInferenceParams, ParakeetModelParams, QuantizationType,
    TimestampGranularity,
};
use glimpse_speech::engines::sortformer::{SortformerModelParams, SortformerRuntimeInfo};
use glimpse_speech::engines::transcribe::{
    check_model_file, chunk_samples, companion_for, companion_names, merge_chunks, quiet_boundary,
    quiet_search, run_plan, ChunkQueue, ChunkTranscript, DecodeOutcome, Step,
    TranscribeInferenceParams, Verdict,
};
use glimpse_speech::engines::whisper::{
    append_segment_words, dtw_preset_for_variant, flash_attention, normalize_whisper_language,
    normalize_whisper_prompt, whisper_result, DtwPreset, WhisperInferenceParams,
    WhisperModelParams, WhisperToken,
};
use glimpse_speech::engines::{
    chunk_spans, inference_threads, sortformer, unified, validate_model_dir, PathFact,
};
use glimpse_speech::models::ModelLayout;
use glimpse_speech::paths::PathStyle;
use glimpse_speech::TranscriptionSegment;

const MISSING: PathFact = PathFact { exists: false, is_dir: false, is_file: false };
const FILE: PathFact = PathFact { exists: true, is_dir: false, is_file: true };
const DIR: PathFact = PathFact { exists: true, is_dir: true, is_file: false };

fn segment<T>(start: T, end: T, text: &str) -> TranscriptionSegment<T> {
    TranscriptionSegment { start, end, text: text.to_string() }
}

fn texts<T>(v: &[TranscriptionSegment<T>]) -> Vec<&str> {
    v.iter().map(|s| s.text.as_str()).collect()
}

#[test]
fn validate_model_dir_rejects_missing_and_file_paths() {
    let err = validate_model_dir("/models/p", "Parakeet", MISSING).unwrap_err();
    assert!(err.contains("Parakeet"));
    assert!(err.contains("not found"));

    let err = validate_model_dir("/models/model.bin", "Nemotron", FILE).unwrap_err();
    assert!(err.contains("Nemotron"));
    assert!(err.contains("must be a directory"));

    assert!(validate_model_dir("/models/p", "Parakeet", DIR).is_ok());
}

#[test]
fn int8_constructor_sets_int8_quantization() {
    let params = ParakeetModelParams::int8();
    assert_eq!(params.quantization, QuantizationType::Int8);
}

#[test]
fn fp32_constructor_sets_fp32_quantization() {
    let params = ParakeetModelParams::fp32();
    assert_eq!(params.quantization, QuantizationType::FP32);
}

#[test]
fn rejects_missing_model_file() {
    let err = check_model_file("/definitely/missing.gguf", false).expect_err("missing file must fail");
    assert!(err.contains("not found"));
    assert!(check_model_file("/there.gguf", true).is_ok());
}

/// Finds the quietest window before `limit`, the last one where several are.
fn quietest(samples: &[f32], limit: usize) -> usize {
    let (start, window) = quiet_search(limit);
    let mut energy: f64 = samples[start..start + window].iter().map(|v| v.abs() as f64).sum();
    let mut best = (energy, start);
    for end in start + window..limit {
        energy += samples[end].abs() as f64 - samples[end - window].abs() as f64;
        if energy <= best.0 {
            best = (energy, end + 1 - window);
        }
    }
    quiet_boundary(limit, best.1)
}

fn decode_chunks(
    samples: &[f32],
    limit: Option<usize>,
    mut decode: impl FnMut(&[f32]) -> DecodeOutcome,
) -> Option<Vec<usize>> {
    let mut queue = ChunkQueue::new(samples.len(), limit);
    loop {
        match queue.next() {
            Step::Finished => return Some(queue.finished().iter().map(|s| s.start).collect()),
            Step::Cut { piece, limit } => {
                queue.cut(quietest(&samples[piece.start..piece.end], limit));
            }
            Step::Decode { piece } => {
                let chunk = &samples[piece.start..piece.end];
                match queue.on_decoded(decode(chunk)) {
                    Verdict::Keep => {}
                    Verdict::Cut { limit } => queue.cut(quietest(chunk, limit)),
                    Verdict::Stop => return None,
                }
            }
        }
    }
}

#[test]
fn splits_without_dropping_or_repeating_audio() {
    let samples: Vec<_> = (0..16_000 * 47).map(|i| i as f32).collect();
    let mut consumed = Vec::new();
    let chunks = decode_chunks(&samples, Some(16_000 * 15), |chunk| {
        assert!(chunk.len() <= 16_000 * 15);
        consumed.extend_from_slice(chunk);
        DecodeOutcome::Complete
    })
    .unwrap();
    assert_eq!(consumed, samples);
    assert_eq!(chunks[0], 0);
    assert!(chunks.windows(2).all(|pair| pair[0] < pair[1]));
}

#[test]
fn retries_length_errors_but_never_returns_partial_output() {
    let samples = vec![0.0; 16_000 * 8];
    let mut consumed = 0;
    let mut kept = Vec::new();
    let chunks = decode_chunks(&samples, None, |chunk| {
        if chunk.len() > 16_000 * 4 {
            return DecodeOutcome::TooLong;
        }
        if chunk.len() > 16_000 * 2 {
            return DecodeOutcome::TooLong;
        }
        consumed += chunk.len();
        kept.push("complete");
        DecodeOutcome::Complete
    })
    .unwrap();
    assert_eq!(consumed, samples.len());
    assert_eq!(chunks.len(), kept.len());
    assert!(kept.iter().all(|t| *t == "complete"));
}

#[test]
fn errors_stop_without_unbounded_retries() {
    let mut attempts = 0;
    let result = decode_chunks(&vec![0.0; 16_000 * 4], None, |_| {
        attempts += 1;
        DecodeOutcome::TooLong
    });
    assert!(result.is_none());
    assert!(attempts <= 4);
    attempts = 0;
    let result = decode_chunks(&vec![0.0; 16_000 * 4], None, |_| {
        attempts += 1;
        DecodeOutcome::Failed
    });
    assert!(result.is_none());
    assert_eq!(attempts, 1);
}

#[test]
fn companion_requires_complete_directory() {
    assert_eq!(companion_names("Model-Q8_0"), vec!["Model-Q8_0-encoder.mlmodelc"]);
    assert_eq!(companion_for("Model-Q8_0", &[false], true), None);
    let expected = Some("Model-Q8_0-encoder.mlmodelc".to_string());
    assert_eq!(companion_for("Model-Q8_0", &[true], true), expected);
    assert_eq!(companion_for("Model-Q8_0", &[true], false), None);
    assert_eq!(
        companion_names("Model-Q8_0-decoder"),
        vec!["Model-Q8_0-decoder-encoder.mlmodelc", "Model-Q8_0-encoder.mlmodelc"]
    );
    assert_eq!(companion_for("Model-Q8_0-decoder", &[false, true], true), expected);
}

#[test]
fn empty_recordings_are_decoded_once() {
    let mut calls = 0;
    let chunks = decode_chunks(&[], Some(10), |chunk| {
        calls += 1;
        assert!(chunk.is_empty());
        DecodeOutcome::Complete
    });
    assert_eq!(chunks, Some(vec![0]));
    assert_eq!(calls, 1);
}

#[test]
fn quiet_places_are_searched_late() {
    assert_eq!(quiet_search(240_000), (192_000, 1_600));
    assert_eq!(quiet_search(8_000), (4_000, 1_600));
    assert_eq!(quiet_search(2), (1, 1));
    assert_eq!(quiet_boundary(2, 1), 1);
    assert_eq!(quiet_boundary(240_000, 238_400), 239_200);
}

#[test]
fn pieces_are_put_together() {
    let chunk = |text: &str, language: Option<&str>, words: Vec<TranscriptionSegment<f32>>| {
        ChunkTranscript {
            text: text.to_string(),
            language: language.map(str::to_string),
            segments: Vec::new(),
            words,
        }
    };
    let chunks = [
        chunk(" one ", None, vec![segment(0.0, 1.0, " one"), segment(1.0, 1.5, "  ")]),
        chunk("  ", Some("de"), vec![]),
        chunk("two", Some("en"), vec![segment(2.0, 3.0, "two ")]),
    ];
    let r = merge_chunks(&chunks, &None, true);
    assert_eq!(r.text, "one two");
    assert_eq!(r.language.as_deref(), Some("de"));
    assert_eq!(r.segments, None);
    assert_eq!(texts(&r.words.unwrap()), vec!["one", "two"]);
    let r = merge_chunks(&chunks, &Some("fr".to_string()), false);
    assert_eq!(r.language.as_deref(), Some("fr"));
    assert_eq!(r.words, None);
}

#[test]
fn runs_are_planned_by_architecture() {
    assert_eq!(chunk_samples("qwen3_asr", false), Some(240_000));
    assert_eq!(chunk_samples("parakeet", true), Some(240_000));
    assert_eq!(chunk_samples("parakeet", false), None);
    let params = TranscribeInferenceParams {
        language: Some(" en ".to_string()),
        dictionary: vec!["Glimpse".to_string()],
        timestamps: true,
    };
    let plan = run_plan(&params, true);
    assert_eq!(plan.context.as_deref(), Some("Glimpse."));
    assert_eq!(plan.language.as_deref(), Some("en"));
    assert_eq!(run_plan(&params, false).context, None);
}

#[test]
fn whisper_texts_are_normalised() {
    assert_eq!(normalize_whisper_language(None), Ok(None));
    assert_eq!(normalize_whisper_language(Some(" AUTO ")), Ok(None));
    assert_eq!(normalize_whisper_language(Some(" de ")), Ok(Some("de".to_string())));
    assert_eq!(
        normalize_whisper_language(Some("d\0e")),
        Err("whisper language contains a null byte".to_string())
    );
    let mut params = WhisperInferenceParams::<f32>::default();
    assert_eq!(params.no_speech_thold, None);
    params.no_speech_thold = Some(0.5);
    params.dictionary = vec!["Glimpse".to_string()];
    assert_eq!(normalize_whisper_prompt(&params), Ok(Some("Glimpse.".to_string())));
    params.initial_prompt = Some(" auto ".to_string());
    assert_eq!(normalize_whisper_prompt(&params), Ok(Some("auto".to_string())));
    params.initial_prompt = Some("a\0".to_string());
    assert_eq!(
        normalize_whisper_prompt(&params),
        Err("whisper initial prompt contains a null byte".to_string())
    );
}

#[test]
fn whisper_variants_have_presets() {
    assert_eq!(dtw_preset_for_variant("whisper-large-v3-turbo"), Some(DtwPreset::LargeV3Turbo));
    assert_eq!(dtw_preset_for_variant("tiny.en"), Some(DtwPreset::TinyEn));
    assert_eq!(dtw_preset_for_variant("whisper-"), None);
    let mut params = WhisperModelParams::default();
    assert!(flash_attention(&params));
    params.dtw_preset = Some(DtwPreset::Base);
    assert!(!flash_attention(&params));
}

#[test]
fn whisper_words_are_made_of_tokens() {
    let token = |id, piece: &str, t_dtw, t0, t1| WhisperToken {
        id,
        piece: Some(piece.to_string()),
        t_dtw,
        t0,
        t1,
    };
    let mut words = Vec::new();
    append_segment_words(
        &[
            token(1, " Hel", 10, 0, 5),
            token(2, "lo", 20, 5, 9),
            token(50_257, "[_BEG_]", -1, 0, 0),
            token(3, " ", 25, 0, 0),
            token(4, " there", 30, 9, 90),
        ],
        50_000,
        &mut words,
    );
    assert_eq!(words, vec![segment(10, 30, "Hello"), segment(30, 90, "there")]);
    append_segment_words(&[token(5, "!", -1, 95, 92)], 50_000, &mut words);
    assert_eq!(words[1], segment(30, 95, "there!"));
    let result = whisper_result(
        vec![segment(0, 1, " a"), segment(1, 2, " b ")],
        Some(Vec::new()),
        Some("en".to_string()),
    );
    assert_eq!(result.text, "a b");
    assert_eq!(result.words, None);
}

#[test]
fn parakeet_words_and_sentences() {
    let tokens = [
        segment(0.0, 0.5, "Hello"),
        segment(0.5, 0.6, ","),
        segment(0.6, 1.0, " world "),
        segment(1.0, 1.1, "!"),
        segment(1.1, 1.2, "  "),
        segment(1.2, 2.0, "Bye"),
    ];
    let r = map_result(" Hello, world! Bye ", &tokens, TimestampGranularity::Word);
    assert_eq!(r.text, "Hello, world! Bye");
    assert_eq!(texts(r.words.as_ref().unwrap()), vec!["Hello,", "world!", "Bye"]);
    assert_eq!(texts(r.segments.as_ref().unwrap()), vec!["Hello, world!", "Bye"]);
    assert_eq!(r.segments.unwrap()[0].end, 1.1);
    let r = map_result("x", &tokens, TimestampGranularity::Token);
    assert_eq!((r.segments, r.words), (None, None));
    let r = map_result("x", &tokens, TimestampGranularity::Segment);
    assert_eq!(r.segments.unwrap().len(), 5);
    assert_eq!(texts(&attach_punctuation(&[segment(0, 1, "…")])), vec!["…"]);
    assert_eq!(texts(&attach_punctuation(&[segment(0, 1, "a"), segment(1, 2, "ß")])), vec!["a", "ß"]);
    let words: Vec<TranscriptionSegment<i32>> =
        ["one", "two.", "three"].iter().map(|t| segment(0, 1, t)).collect();
    assert_eq!(texts(&group_words_into_sentences(&words)).join(" "), "one two. three");
    assert_eq!(
        texts(&group_words_into_sentences(&[segment(0, 1, "a…"), segment(1, 2, "b")])),
        vec!["a…", "b"]
    );
}

#[test]
fn parakeet_parameters() {
    assert_eq!(
        ParakeetModelParams::int8_with_layout(ModelLayout::ParakeetUnified).layout,
        ModelLayout::ParakeetUnified
    );
    assert_eq!(ParakeetModelParams::default(), ParakeetModelParams::fp32());
    let mut params = ParakeetInferenceParams::default();
    params.dictionary = vec!["a".to_string(), "A".to_string()];
    assert_eq!(normalize_inference_params(Some(params)).dictionary, vec!["a"]);
    assert!(normalize_inference_params(None).dictionary.is_empty());
    assert!(check_streaming(ModelLayout::ParakeetUnified).is_ok());
    assert!(check_streaming(ModelLayout::ParakeetTdt).is_err());
}

#[test]
fn nemotron_languages() {
    assert_eq!(nemotron_language(" zh "), "zh-CN");
    assert_eq!(nemotron_language("pt-BR"), "pt-BR");
    assert_eq!(nemotron_language("klingon"), "auto");
    assert_eq!(nemotron_language(""), "auto");
    assert_eq!(language_to_set(false, Some("de")), None);
    assert_eq!(language_to_set(true, Some("de")).as_deref(), Some("de"));
    assert_eq!(language_to_set(true, None), None);
}

#[test]
fn unified_models_need_their_files() {
    assert!(unified::validate_model_path("/m", DIR, &[true; 4]).is_ok());
    assert_eq!(
        unified::validate_model_path("/m", DIR, &[true, false, true, false]).unwrap_err(),
        "Missing Unified model files in /m: encoder.onnx.data, tokenizer.model"
    );
    assert_eq!(
        unified::validate_model_path("/m", MISSING, &[true; 4]).unwrap_err(),
        "Unified model directory not found: /m"
    );
}

#[test]
fn sortformer_models_are_onnx_files() {
    assert!(sortformer::validate_model_path(PathStyle::Unix, "/m/x.ONNX", FILE).is_ok());
    assert_eq!(
        sortformer::validate_model_path(PathStyle::Unix, "/m/x.bin", FILE).unwrap_err(),
        "Sortformer diarization model must be an ONNX file: /m/x.bin"
    );
    assert!(sortformer::validate_model_path(PathStyle::Unix, "/m", DIR).unwrap_err().contains("must be a file"));
    assert!(sortformer::validate_model_path(PathStyle::Unix, "/m", MISSING).unwrap_err().contains("not found"));
    let own = SortformerRuntimeInfo { chunk_len: 1, fifo_len: 2, spkcache_len: 3, right_context: 4 };
    let params = SortformerModelParams::with_config("callhome");
    assert_eq!(params.applied_to(own), own);
    let params = params.with_streaming_overrides(5, 6, 7, 8);
    assert_eq!(
        params.applied_to(own),
        SortformerRuntimeInfo { chunk_len: 5, fifo_len: 6, spkcache_len: 7, right_context: 8 }
    );
}

#[test]
fn apple_sessions() {
    let mut engine = AppleEngine::new();
    let report = |text: &str, error: Option<&str>| -> Result<ShimResult<f32>, String> {
        Ok(ShimResult {
            text: text.to_string(),
            segments: Vec::new(),
            error: error.map(str::to_string),
        })
    };
    assert_eq!(engine.get_transcript(Some("x")), "");
    assert_eq!(engine.finalize(report("ignored", None)), Ok(String::new()));
    assert_eq!(
        engine.session_started(0),
        Err("failed to start apple speech session".to_string())
    );
    assert_eq!(engine.session_started(7), Ok(7));
    assert_eq!(engine.get_transcript(Some("so far")), "so far");
    assert_eq!(engine.finalize(report("done", None)), Ok("done".to_string()));
    assert_eq!(engine.stream, None);
    engine.session_started(8).unwrap();
    assert_eq!(engine.finalize(report("", Some("broken"))), Err("broken".to_string()));
    engine.session_started(9).unwrap();
    assert_eq!(engine.reset(), Some(9));
    assert_eq!(engine.reset(), None);
    assert!(feed_result(0).is_ok());
    assert_eq!(feed_result(-1), Err("apple speech rejected audio chunk".to_string()));
    engine.configure_stream(Some("en".to_string()), vec!["a".to_string()]);
    assert_eq!(engine.stream_language.as_deref(), Some("en"));
    let r = apple_result(report("t", None).unwrap(), None);
    assert_eq!(r.segments, None);
}

#[test]
fn apple_lists_travel_as_json() {
    assert_eq!(vocabulary_json(&[]), "");
    assert_eq!(
        vocabulary_json(&["a \"b\"".to_string(), "c".to_string()]),
        r#"["a \"b\"","c"]"#
    );
    assert_eq!(
        vocabulary_json(&["\\/\u{8}\t\n\u{c}\r\u{0}\u{1f}\u{7f}é".to_string(), String::new()]),
        "[\"\\\\/\\b\\t\\n\\f\\r\\u0000\\u001f\u{7f}é\",\"\"]"
    );
    assert_eq!(supported_locales(Some(r#"["en-US","de-DE"]"#)), vec!["en-US", "de-DE"]);
    assert!(supported_locales(Some("nothing")).is_empty());
    assert!(supported_locales(None).is_empty());
}

#[test]
fn threads_and_chunks() {
    assert_eq!(inference_threads(Some(4), Some(12)), 4);
    assert_eq!(inference_threads(None, Some(12)), 8);
    assert_eq!(inference_threads(None, None), 4);
    let spans: Vec<(usize, usize)> =
        chunk_spans(20_000, 8_960).iter().map(|s| (s.start, s.end)).collect();
    assert_eq!(spans, vec![(0, 8_960), (8_960, 17_920), (17_920, 20_000)]);
    assert!(chunk_spans(0, 8_960).is_empty());
}
