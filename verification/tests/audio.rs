use glimpse_speech::audio::{
    check_pcm16, check_wav, downmix, flac_input, flac_of_wav, read_pcm16_wav, read_wav_samples,
    temp_decode_dir, FlacInput, WavHeader,
};
use glimpse_speech::vad::{mask_to_regions, FrameRegion};

const GOOD: WavHeader = WavHeader {
    channels: 1,
    sample_rate: 16_000,
    bits_per_sample: 16,
    integer: true,
};

fn wav(channels: u16, sample_rate: u32, samples: &[i16]) -> Vec<u8> {
    let spec = hound::WavSpec {
        channels,
        sample_rate,
        bits_per_sample: 16,
        sample_format: hound::SampleFormat::Int,
    };
    let mut bytes = std::io::Cursor::new(Vec::new());
    let mut writer = hound::WavWriter::new(&mut bytes, spec).expect("wav should be created");
    for sample in samples {
        writer.write_sample(*sample).expect("sample should be written");
    }
    writer.finalize().expect("wav should be finalized");
    bytes.into_inner()
}

#[test]
fn reads_pcm16_mono_16khz_wav() {
    let samples = read_wav_samples(&wav(1, 16_000, &[0, 1000, -1000, 250])).expect("wav should load");

    assert_eq!(samples.len(), 4);
    assert!(samples[1] > 0);
    assert!(samples[2] < 0);
    assert_eq!(samples, vec![0, 1000, -1000, 250]);
}

#[test]
fn rejects_non_16khz_wav() {
    let error = read_wav_samples(&wav(1, 8_000, &[0, 100, -100, 50]))
        .expect_err("8kHz input must fail");

    assert!(error.contains("16000"));
}

#[test]
fn recordings_are_mixed_to_one_channel() {
    let mono = read_pcm16_wav(&wav(2, 44_100, &[100, 300, 7, 8])).expect("wav should load");
    assert_eq!(mono.samples, vec![200, 7]);
    assert_eq!(mono.sample_rate, 44_100);
}

#[test]
fn recordings_are_encoded_to_flac() {
    let samples: Vec<i16> = (0..8_000).map(|i| (i % 100) * 50 - 2_500).collect();
    let bytes = wav(2, 44_100, &samples);
    assert_eq!(
        flac_input(&bytes),
        Some(FlacInput { samples, channels: 2, sample_rate: 44_100 })
    );
    let flac = flac_of_wav(&bytes).expect("flac");
    assert_eq!(&flac[..4], b"fLaC");
    assert!(flac.len() < bytes.len());
    // The stream information: rate in 20 bits, channels less one in three,
    // bits less one in five, and the samples of a channel in 36.
    assert_eq!(&flac[18..26], &[0x0a, 0xc4, 0x42, 0xf0, 0, 0, 0x0f, 0xa0]);
    // The digest of the samples.
    assert_eq!(
        &flac[26..42],
        &[
            0x16, 0xbd, 0xaf, 0xb4, 0x1e, 0x79, 0x69, 0x39,
            0x34, 0xa9, 0x21, 0x24, 0x21, 0x4e, 0x27, 0x83,
        ]
    );
    let slower = flac_of_wav(&wav(1, 8_000, &[1, 2, 3, 4])).expect("flac");
    assert_eq!(&slower[18..26], &[0x01, 0xf4, 0x00, 0xf0, 0, 0, 0, 4]);
    assert_ne!(&slower[26..42], &flac[26..42]);
}

#[test]
fn only_some_recordings_are_encoded_to_flac() {
    assert_eq!(flac_input(&wav(1, 16_000, &[])), None);
    assert_eq!(flac_of_wav(&wav(1, 16_000, &[])), None);
    assert_eq!(flac_of_wav(b"OggS"), None);
    let mut cut = wav(1, 16_000, &[1, 2, 3]);
    cut.pop();
    assert_eq!(flac_of_wav(&cut), None);
    let spec = hound::WavSpec {
        channels: 1,
        sample_rate: 16_000,
        bits_per_sample: 8,
        sample_format: hound::SampleFormat::Int,
    };
    let mut bytes = std::io::Cursor::new(Vec::new());
    let mut writer = hound::WavWriter::new(&mut bytes, spec).expect("wav should be created");
    writer.write_sample(1i8).expect("sample should be written");
    writer.finalize().expect("wav should be finalized");
    assert_eq!(flac_of_wav(&bytes.into_inner()), None);
    // The encoder takes no more than eight channels.
    let nine = wav(9, 16_000, &[1; 9]);
    assert!(flac_input(&nine).is_some());
    assert_eq!(flac_of_wav(&nine), None);
    // Nor does it take rates above 96 kHz.
    assert_eq!(flac_of_wav(&wav(1, 192_000, &[1, 2, 3])), None);
}

#[test]
fn other_files_are_refused() {
    assert_eq!(
        read_wav_samples(b"OggS").expect_err("no wav"),
        "Ill-formed WAVE file: no RIFF tag found"
    );
    assert_eq!(
        read_pcm16_wav(&[]).expect_err("no wav"),
        "Failed to read enough bytes."
    );
    let mut cut = wav(1, 16_000, &[1, 2, 3]);
    cut.pop();
    assert_eq!(
        read_wav_samples(&cut).expect_err("cut short"),
        "Failed to read enough bytes."
    );
    assert_eq!(
        read_pcm16_wav(&cut).expect_err("cut short"),
        "Failed to read enough bytes."
    );
}

#[test]
fn downmix_averages_interleaved_frames() {
    assert_eq!(
        downmix(vec![100, 300, -32_768, -32_768, 7, 8], 2),
        vec![200, -32_768, 7]
    );
    assert_eq!(downmix(vec![1, 2, 3], 1), vec![1, 2, 3]);
}

#[test]
fn averages_lose_their_fraction_and_frames_their_rest() {
    assert_eq!(downmix(vec![-1, -2, -3, -3, 5], 2), vec![-1, -3]);
    assert_eq!(downmix(vec![32_767, 32_767, 32_767], 3), vec![32_767]);
    assert_eq!(downmix(vec![], 2), Vec::<i16>::new());
}

#[test]
fn headers_are_checked() {
    assert!(check_wav(GOOD).is_ok());
    let message = |h| check_wav(h).unwrap_err();
    assert_eq!(message(WavHeader { channels: 2, ..GOOD }), "Expected 1 channel, found 2");
    assert_eq!(
        message(WavHeader { sample_rate: 8_000, ..GOOD }),
        "Expected 16000 Hz sample rate, found 8000 Hz"
    );
    assert_eq!(
        message(WavHeader { bits_per_sample: 24, ..GOOD }),
        "Expected 16 bits per sample, found 24"
    );
    assert_eq!(
        message(WavHeader { integer: false, ..GOOD }),
        "Expected Int sample format, found Float"
    );
    assert!(check_pcm16(WavHeader { channels: 6, sample_rate: 48_000, ..GOOD }).is_ok());
    assert_eq!(
        check_pcm16(WavHeader { bits_per_sample: 32, integer: false, ..GOOD }).unwrap_err(),
        "Expected PCM int16 samples, found 32 bit Float"
    );
    assert_eq!(
        check_pcm16(WavHeader { channels: 0, ..GOOD }).unwrap_err(),
        "WAV has no channels"
    );
    assert_eq!(temp_decode_dir(1, 2, 3), "glimpse-speech-decode-1-2-3");
}

#[test]
fn short_silence_is_bridged() {
    let mask = |s: &str| s.chars().map(|c| c == 'x').collect::<Vec<bool>>();
    let regions = |s: &str| {
        mask_to_regions(&mask(s))
            .into_iter()
            .map(|r: FrameRegion| (r.start, r.end))
            .collect::<Vec<_>>()
    };
    assert_eq!(regions(""), vec![]);
    assert_eq!(regions("....."), vec![]);
    assert_eq!(regions("..x...."), vec![(2, 3)]);
    assert_eq!(regions("x....x"), vec![(0, 6)]);
    assert_eq!(regions("x.....x.."), vec![(0, 1), (6, 7)]);
    assert_eq!(regions("xx.x......"), vec![(0, 4)]);
}
