use glimpse_speech::cleanup::{
    accept, apply_cleaned, clean, generated, AppleAvailability, CleanupProvider, INSTRUCTIONS,
};
use glimpse_speech::diarization::{
    check_diarizer, check_live_diarizer, check_model_file, check_recording, duration_ms,
    final_turns, to_turns, AudioError, LiveStream, SpeakerSegment, SpeakerTurn,
};
use glimpse_speech::{
    take_coreml_log, CoreMlLog, TimestampGranularity, Transcription, UnsupportedValue,
};

fn transcription(text: &str) -> Transcription<f32> {
    Transcription {
        text: text.to_string(),
        segments: None,
        words: None,
        model_id: "m".to_string(),
        language: None,
        duration_ms: 1,
    }
}

#[test]
fn granularities_have_names() {
    assert_eq!("word".parse::<TimestampGranularity>(), Ok(TimestampGranularity::Word));
    assert_eq!(TimestampGranularity::Segment.as_str(), "segment");
    let e: UnsupportedValue = TimestampGranularity::parse("char").unwrap_err();
    assert_eq!(e, UnsupportedValue("char".to_string()));
    assert_eq!(e.message(), "`char`");
}

#[test]
fn only_core_ml_lines_are_kept() {
    let mut log = CoreMlLog::new();
    log.capture("whisper_init: loading");
    for i in 0..70 {
        log.capture(&format!(" Core ML line {i}\n"));
    }
    let lines = take_coreml_log(&mut log);
    assert_eq!(lines.len(), 64);
    assert_eq!(lines[0], "Core ML line 6");
    assert_eq!(lines[63], "Core ML line 69");
    assert!(take_coreml_log(&mut log).is_empty());
}

#[test]
fn cleanup_is_off_without_support() {
    let t = transcription(" hello ");
    assert_eq!(CleanupProvider::off().input(&t), None);
    assert_eq!(CleanupProvider::apple(false).input(&t), None);
    assert_eq!(CleanupProvider::apple(true).input(&t).as_deref(), Some("hello"));
    assert_eq!(CleanupProvider::apple(true).input(&transcription("  ")), None);
    assert_eq!(CleanupProvider::apple(true).input(&transcription(&"é".repeat(6_001))), None);
    assert!(CleanupProvider::apple(true).input(&transcription(&"é".repeat(6_000))).is_some());
    assert_eq!(
        CleanupProvider::apple_availability(true, Some(AppleAvailability::NotReady)),
        AppleAvailability::NotReady
    );
    assert_eq!(
        CleanupProvider::apple_availability(false, Some(AppleAvailability::Available)),
        AppleAvailability::Unsupported
    );
}

#[test]
fn cleanup_output_is_checked() {
    assert!(accept("um hello", "Hello."));
    assert!(!accept("um hello", "  "));
    assert!(accept("", &"x".repeat(32)));
    assert!(!accept("", &"x".repeat(33)));
    assert_eq!(apply_cleaned(transcription("um"), Some("Um.".to_string())).text, "Um.");
    assert_eq!(apply_cleaned(transcription("um"), Some(String::new())).text, "um");
    assert_eq!(apply_cleaned(transcription("um"), None).text, "um");
    let request = clean("um");
    assert_eq!(request.instructions, INSTRUCTIONS);
    assert_eq!(request.prompt, "um");
    assert_eq!(generated(" a \n"), "a");
}

#[test]
fn turns_are_clipped_and_ordered() {
    let s = |t0_ms, t1_ms, speaker_id| SpeakerSegment { t0_ms, t1_ms, speaker_id };
    let t = |start_ms, end_ms, speaker| SpeakerTurn { start_ms, end_ms, speaker };
    let segments = [s(500, 900, 2), s(-10, 400, 1), s(100, 100, 1), s(0, 400, 0), s(800, 2000, 1), s(500, 900, 1)];
    assert_eq!(
        to_turns(&segments, 1000),
        vec![t(0, 400, 1), t(500, 900, 1), t(500, 900, 2), t(800, 1000, 1)]
    );
    assert!(final_turns(&segments, -5).is_empty());
    assert_eq!(final_turns(&segments, 300), vec![t(0, 300, 1)]);
}

#[test]
fn recordings_are_limited() {
    assert_eq!(check_recording(1, 0), Err(AudioError::NoSampleRate));
    assert_eq!(check_recording(1, 384_001), Err(AudioError::UnsupportedRate(384_001)));
    assert_eq!(check_recording(16_000 * 10_801, 16_000), Err(AudioError::TooLong));
    assert!(check_recording(16_000 * 10_800, 16_000).is_ok());
    assert_eq!(AudioError::NoSampleRate.message(), "sample rate must be greater than zero");
    assert_eq!(AudioError::UnsupportedRate(7).message(), "unsupported sample rate 7 Hz");
    assert_eq!(
        AudioError::TooLong.message(),
        "audio is too long to diarize: the limit is 3 hours"
    );
    assert_eq!(duration_ms(24_000), 1500);
    assert!(check_model_file("m", false).is_err());
    assert!(check_diarizer("sortformer", "m").is_ok());
    assert_eq!(
        check_diarizer("whisper", "m"),
        Err("m is not a Sortformer diarization model".to_string())
    );
    assert!(check_live_diarizer("nemotron3_diar").is_ok());
    assert!(check_live_diarizer("sortformer").is_err());
}

#[test]
fn live_streams_settle_before_the_frontier() {
    let mut live = LiveStream::new();
    assert!(live.accept(16_000).is_ok());
    live.committed(800);
    assert_eq!(live.settled_ms, 799);
    live.committed(-3);
    assert_eq!(live.settled_ms, 0);
    assert!(live.accept(0).is_ok());
    assert_eq!(live.received, 16_000);
    assert_eq!(live.accept(16_000 * 10_800), Err(AudioError::TooLong));
    assert_eq!(live.received, 16_000);
    let turns = live.turns(&[SpeakerSegment { t0_ms: 0, t1_ms: 5, speaker_id: 1 }]);
    assert_eq!(turns.turns.len(), 1);
    assert_eq!(turns.settled_ms, 0);
}
