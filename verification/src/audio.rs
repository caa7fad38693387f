//! Recordings: which WAV files can be read, and how channels are mixed.

use vstd::prelude::*;

use crate::text;

verus! {

/// The highest sample rate of input that is accepted, in hertz.
pub const MAX_SAMPLE_RATE: u32 = 384_000;

/// The header of a WAV file.
#[derive(Debug, Clone, Copy, PartialEq, Eq, Structural)]
pub struct WavHeader {
    pub channels: u16,
    pub sample_rate: u32,
    pub bits_per_sample: u16,
    /// Samples are integers, not floating-point numbers.
    pub integer: bool,
}

/// How the format of samples is called.
pub open spec fn format_name(integer: bool) -> Seq<char> {
    if integer {
        "Int"@
    } else {
        "Float"@
    }
}

/// What keeps a WAV file from being read directly, if anything: it has to be
/// mono, at 16 kHz, with integer samples of 16 bits.
pub open spec fn wav_error(h: WavHeader) -> Option<Seq<char>> {
    if h.channels != 1 {
        Some("Expected 1 channel, found "@ + text::decimal(h.channels as nat))
    } else if h.sample_rate != 16_000 {
        Some(
            "Expected 16000 Hz sample rate, found "@ + text::decimal(h.sample_rate as nat)
                + " Hz"@,
        )
    } else if h.bits_per_sample != 16 {
        Some("Expected 16 bits per sample, found "@ + text::decimal(h.bits_per_sample as nat))
    } else if !h.integer {
        Some("Expected Int sample format, found "@ + format_name(h.integer))
    } else {
        None
    }
}

/// Accepts WAV files that can be read directly.
pub fn check_wav(header: WavHeader) -> (r: Result<(), String>)
    ensures
        match r {
            Ok(_) => wav_error(header) is None,
            Err(e) => wav_error(header) == Some(e@),
        },
{
    if header.channels != 1 {
        let n = text::decimal_of(header.channels as u128);
        return Err(text::concat2("Expected 1 channel, found ", n.as_str()));
    }
    if header.sample_rate != 16_000 {
        let n = text::decimal_of(header.sample_rate as u128);
        return Err(text::concat3("Expected 16000 Hz sample rate, found ", n.as_str(), " Hz"));
    }
    if header.bits_per_sample != 16 {
        let n = text::decimal_of(header.bits_per_sample as u128);
        return Err(text::concat2("Expected 16 bits per sample, found ", n.as_str()));
    }
    if !header.integer {
        return Err(text::concat2("Expected Int sample format, found ", "Float"));
    }
    Ok(())
}

/// What keeps a WAV file from being mixed and resampled, if anything: it has
/// to have channels of integer samples of 16 bits.
pub open spec fn pcm16_error(h: WavHeader) -> Option<Seq<char>> {
    if h.bits_per_sample != 16 || !h.integer {
        Some(
            "Expected PCM int16 samples, found "@ + text::decimal(h.bits_per_sample as nat)
                + " bit "@ + format_name(h.integer),
        )
    } else if h.channels == 0 {
        Some("WAV has no channels"@)
    } else {
        None
    }
}

/// Accepts WAV files that can be mixed and resampled.
pub fn check_pcm16(header: WavHeader) -> (r: Result<(), String>)
    ensures
        match r {
            Ok(_) => pcm16_error(header) is None,
            Err(e) => pcm16_error(header) == Some(e@),
        },
{
    if header.bits_per_sample != 16 || !header.integer {
        let n = text::decimal_of(header.bits_per_sample as u128);
        let name = if header.integer {
            "Int"
        } else {
            "Float"
        };
        let mut out = text::concat3("Expected PCM int16 samples, found ", n.as_str(), " bit ");
        out.append(name);
        return Err(out);
    }
    if header.channels == 0 {
        return Err(text::owned("WAV has no channels"));
    }
    Ok(())
}

/// The sum of samples.
pub open spec fn sample_sum(frame: Seq<i16>) -> int
    decreases frame.len(),
{
    if frame.len() == 0 {
        0
    } else {
        sample_sum(frame.drop_last()) + frame.last()
    }
}

/// The average of the samples of a frame, without its fraction.
pub open spec fn frame_average(frame: Seq<i16>) -> int {
    let sum = sample_sum(frame);
    if sum >= 0 {
        sum / frame.len() as int
    } else {
        -((-sum) / frame.len() as int)
    }
}

/// One channel made of several: the average of every whole frame.
pub open spec fn mixed(samples: Seq<i16>, channels: nat) -> Seq<int> {
    Seq::new(
        samples.len() / channels,
        |i: int| frame_average(samples.subrange(i * channels, (i + 1) * channels)),
    )
}

proof fn lemma_sum_bounds(frame: Seq<i16>)
    ensures
        -32_768 * frame.len() <= sample_sum(frame) <= 32_767 * frame.len(),
    decreases frame.len(),
{
    if frame.len() > 0 {
        lemma_sum_bounds(frame.drop_last());
    }
}

proof fn lemma_average_bounds(frame: Seq<i16>)
    requires
        frame.len() > 0,
    ensures
        -32_768 <= frame_average(frame) <= 32_767,
{
    lemma_sum_bounds(frame);
    let sum = sample_sum(frame);
    let n = frame.len() as int;
    if sum >= 0 {
        assert(sum / n <= 32_767) by (nonlinear_arith)
            requires
                0 <= sum <= 32_767 * n,
                n > 0,
        ;
        assert(sum / n >= 0) by (nonlinear_arith)
            requires
                0 <= sum,
                n > 0,
        ;
    } else {
        assert((-sum) / n <= 32_768) by (nonlinear_arith)
            requires
                0 <= -sum <= 32_768 * n,
                n > 0,
        ;
        assert((-sum) / n >= 0) by (nonlinear_arith)
            requires
                0 <= -sum,
                n > 0,
        ;
    }
}

fn average(samples: &[i16], from: usize, channels: usize) -> (r: i16)
    requires
        0 < channels <= 65_535,
        from + channels <= samples@.len(),
    ensures
        r == frame_average(samples@.subrange(from as int, from + channels)),
{
    let ghost frame = samples@.subrange(from as int, from + channels);
    let mut sum: i64 = 0;
    let mut k: usize = 0;
    assert(samples.len() == samples@.len());
    while k < channels
        invariant
            0 < channels <= 65_535,
            k <= channels,
            from + channels <= samples@.len() <= usize::MAX,
            frame == samples@.subrange(from as int, from + channels),
            sum == sample_sum(frame.take(k as int)),
            -32_768 * k <= sum <= 32_767 * k,
        decreases channels - k,
    {
        proof {
            assert(frame.take(k + 1).drop_last() =~= frame.take(k as int));
            assert(frame.take(k + 1).last() == samples@[from + k]);
        }
        sum = sum + samples[from + k] as i64;
        k += 1;
    }
    proof {
        assert(frame.take(k as int) =~= frame);
        lemma_average_bounds(frame);
    }
    if sum >= 0 {
        (sum as u64 / channels as u64) as i16
    } else {
        let magnitude: u64 = (-sum) as u64 / channels as u64;
        (-(magnitude as i64)) as i16
    }
}

/// Mixes interleaved channels to one by averaging every whole frame.
pub fn downmix(samples: Vec<i16>, channels: usize) -> (r: Vec<i16>)
    requires
        0 < channels <= 65_535,
    ensures
        r@.map_values(|s: i16| s as int) == mixed(samples@, channels as nat),
{
    let ghost wanted = mixed(samples@, channels as nat);
    if channels == 1 {
        proof {
            let n = samples@.len();
            let c = channels as nat;
            assert(n / c == n) by (nonlinear_arith)
                requires
                    c == 1,
            ;
            assert forall|i: int| 0 <= i < samples@.len() implies wanted[i]
                == samples@[i] as int by {
                let frame = samples@.subrange(i, i + 1);
                assert(samples@.subrange(i * channels as nat, (i + 1) * channels as nat) =~= frame);
                assert(frame.drop_last() =~= Seq::<i16>::empty());
                assert(sample_sum(frame.drop_last()) == 0);
                assert(sample_sum(frame) == frame.last() as int);
            }
            assert(samples@.map_values(|s: i16| s as int) =~= wanted);
        }
        return samples;
    }
    let frames: usize = samples.len() / channels;
    let mut out: Vec<i16> = Vec::new();
    let mut i: usize = 0;
    while i < frames
        invariant
            0 < channels <= 65_535,
            frames == samples@.len() / channels as nat,
            i <= frames,
            out@.len() == i,
            forall|j: int|
                0 <= j < i ==> (#[trigger] out@[j]) as int == frame_average(
                    samples@.subrange(j * channels, (j + 1) * channels),
                ),
        decreases frames - i,
    {
        proof {
            assert((i + 1) * channels <= samples@.len()) by (nonlinear_arith)
                requires
                    i + 1 <= frames,
                    frames == samples@.len() / channels as nat,
                    channels > 0,
            ;
            assert(i * channels + channels == (i + 1) * channels) by (nonlinear_arith);
            assert(0 <= i * channels) by (nonlinear_arith);
            assert(samples@.len() <= usize::MAX) by {
                assert(samples.len() == samples@.len());
            }
        }
        let from: usize = i * channels;
        out.push(average(samples.as_slice(), from, channels));
        i += 1;
    }
    assert(out@.map_values(|s: i16| s as int) =~= wanted);
    out
}

// ---------------------------------------------------------------------------
// WAV files
// ---------------------------------------------------------------------------

/// What `hound` finds in the header of a WAV file: channels, sample rate, bits
/// per sample, and whether samples are integers; or why it reads none.
pub uninterp spec fn wav_format(bytes: Seq<u8>) -> Result<(u16, u32, u16, bool), Seq<char>>;

/// The interleaved samples that `hound` reads from a WAV file as integers of 16
/// bits, or why it does not.
pub uninterp spec fn wav_samples(bytes: Seq<u8>) -> Result<Seq<i16>, Seq<char>>;

/// `hound::WavReader::new` on bytes and `hound::WavReader::spec`: the header of
/// a WAV file, or the message of the error. Both depend on the bytes alone. A
/// file without channels is refused.
#[verifier::external_body]
fn wav_header(bytes: &[u8]) -> (r: Result<WavHeader, String>)
    ensures
        match r {
            Ok(h) => wav_format(bytes@) == Ok::<(u16, u32, u16, bool), Seq<char>>(
                (h.channels, h.sample_rate, h.bits_per_sample, h.integer),
            ) && h.channels > 0,
            Err(e) => wav_format(bytes@) == Err::<(u16, u32, u16, bool), Seq<char>>(e@),
        },
{
    let spec = hound::WavReader::new(bytes).map_err(|err| err.to_string())?.spec();
    Ok(
        WavHeader {
            channels: spec.channels,
            sample_rate: spec.sample_rate,
            bits_per_sample: spec.bits_per_sample,
            integer: spec.sample_format == hound::SampleFormat::Int,
        },
    )
}

/// `hound::WavReader::into_samples` on bytes: all samples of a WAV file as
/// integers of 16 bits, or the message of the first error. They depend on the
/// bytes alone. A file that gives samples has a header, and every channel has
/// as many samples.
#[verifier::external_body]
fn pcm16_samples(bytes: &[u8]) -> (r: Result<Vec<i16>, String>)
    ensures
        match r {
            Ok(samples) => {
                &&& wav_samples(bytes@) == Ok::<Seq<i16>, Seq<char>>(samples@)
                &&& wav_format(bytes@) matches Ok(f) && f.0 > 0 && samples@.len() % f.0 as nat == 0
            },
            Err(e) => wav_samples(bytes@) == Err::<Seq<i16>, Seq<char>>(e@),
        },
{
    let reader = hound::WavReader::new(bytes).map_err(|err| err.to_string())?;
    reader.into_samples::<i16>().collect::<Result<Vec<i16>, hound::Error>>().map_err(
        |err| err.to_string(),
    )
}

/// The header with the given fields.
pub open spec fn header_of(format: (u16, u32, u16, bool)) -> WavHeader {
    WavHeader {
        channels: format.0,
        sample_rate: format.1,
        bits_per_sample: format.2,
        integer: format.3,
    }
}

/// Reads a WAV file that is mono, at 16 kHz, with integer samples of 16 bits.
pub fn read_wav_samples(bytes: &[u8]) -> (r: Result<Vec<i16>, String>)
    ensures
        match wav_format(bytes@) {
            Err(e) => r matches Err(f) && f@ == e,
            Ok(format) => match wav_error(header_of(format)) {
                Some(e) => r matches Err(f) && f@ == e,
                None => match (wav_samples(bytes@), r) {
                    (Ok(samples), Ok(read)) => read@ == samples,
                    (Err(e), Err(f)) => f@ == e,
                    _ => false,
                },
            },
        },
{
    match wav_header(bytes) {
        Err(e) => Err(e),
        Ok(header) => {
            if let Err(e) = check_wav(header) {
                return Err(e);
            }
            pcm16_samples(bytes)
        },
    }
}

/// A recording with one channel.
#[derive(Debug, Clone, PartialEq, Eq)]
pub struct MonoAudio {
    pub samples: Vec<i16>,
    pub sample_rate: u32,
}

/// Reads a WAV file of any rate with integer samples of 16 bits, and mixes its
/// channels to one.
pub fn read_pcm16_wav(bytes: &[u8]) -> (r: Result<MonoAudio, String>)
    ensures
        match wav_format(bytes@) {
            Err(e) => r matches Err(f) && f@ == e,
            Ok(format) => match pcm16_error(header_of(format)) {
                Some(e) => r matches Err(f) && f@ == e,
                None => match (wav_samples(bytes@), r) {
                    (Ok(samples), Ok(mono)) => {
                        &&& mono.samples@.map_values(|s: i16| s as int) == mixed(
                            samples,
                            format.0 as nat,
                        )
                        &&& mono.sample_rate == format.1
                    },
                    (Err(e), Err(f)) => f@ == e,
                    _ => false,
                },
            },
        },
{
    match wav_header(bytes) {
        Err(e) => Err(e),
        Ok(header) => {
            if let Err(e) = check_pcm16(header) {
                return Err(e);
            }
            match pcm16_samples(bytes) {
                Err(e) => Err(e),
                Ok(samples) => Ok(
                    MonoAudio {
                        samples: downmix(samples, header.channels as usize),
                        sample_rate: header.sample_rate,
                    },
                ),
            }
        },
    }
}

// ---------------------------------------------------------------------------
// FLAC
// ---------------------------------------------------------------------------

/// What a FLAC encoder is given: interleaved samples, the same number for each
/// channel.
#[derive(Debug, Clone, PartialEq, Eq)]
pub struct FlacInput {
    pub samples: Vec<i16>,
    pub channels: u16,
    pub sample_rate: u32,
}

/// What a FLAC encoder is given for a WAV file, as long as that holds samples
/// and they are integers of 16 bits.
pub fn flac_input(bytes: &[u8]) -> (r: Option<FlacInput>)
    ensures
        match (wav_format(bytes@), wav_samples(bytes@)) {
            (Ok(f), Ok(s)) if f.3 && f.2 == 16 && s.len() > 0 => r matches Some(i) && i.samples@
                == s && i.channels == f.0 && i.sample_rate == f.1,
            _ => r is None,
        },
        r matches Some(i) ==> i.channels > 0 && i.samples@.len() > 0 && i.samples@.len()
            % i.channels as nat == 0,
{
    match wav_header(bytes) {
        Err(_) => None,
        Ok(header) => {
            if !header.integer || header.bits_per_sample != 16 {
                return None;
            }
            match pcm16_samples(bytes) {
                Err(_) => None,
                Ok(samples) => {
                    if samples.len() == 0 {
                        return None;
                    }
                    Some(
                        FlacInput {
                            samples,
                            channels: header.channels,
                            sample_rate: header.sample_rate,
                        },
                    )
                },
            }
        },
    }
}

/// The bytes that a FLAC file begins with.
pub open spec fn flac_marker() -> Seq<u8> {
    seq![0x66u8, 0x4c, 0x61, 0x43]
}

/// The number that bytes stand for, the first being the highest.
pub open spec fn big_endian(bytes: Seq<u8>) -> int
    decreases bytes.len(),
{
    if bytes.len() == 0 {
        0
    } else {
        big_endian(bytes.drop_last()) * 256 + bytes.last()
    }
}

/// What the first bytes of a FLAC file say of the recording in it: the rate in
/// 20 bits, the channels less one in three, the bits of a sample less one in
/// five, and the samples of a channel in 36. The format has room for eight
/// channels, and the encoder for rates up to 96 kHz.
pub open spec fn is_flac_of(v: Seq<u8>, samples: Seq<i16>, channels: u16, rate: u32) -> bool {
    &&& v.len() > 42
    &&& v.take(4) == flac_marker()
    &&& big_endian(v.subrange(18, 26)) == rate * 0x1000_0000_0000 + (channels - 1)
        * 0x200_0000_0000 + 15 * 0x10_0000_0000 + (samples.len() as int / channels as int)
        % 0x10_0000_0000
    &&& 1 <= channels <= 8
    &&& rate <= 96_000
}

/// What `flacenc::source::Context::md5_digest` gives once it was filled with
/// interleaved samples of 16 bits: their MD5 digest, in the file after the rest
/// of the stream information.
pub uninterp spec fn flac_digest(samples: Seq<i16>) -> Seq<u8>;

/// `flacenc::encode_with_fixed_block_size` with the default settings, and
/// `flacenc::component::Stream::write`: the bytes of a FLAC file, or nothing
/// where the encoder refuses the channels or the rate, or cannot learn how many
/// workers the machine has. The file begins with the marker of the format and
/// the stream information, which hold the rate, the channels, the length and
/// the digest of the samples that were given. Which bytes follow is left
/// unsaid: the encoder chooses predictors by floating-point estimates.
#[verifier::external_body]
fn encode_flac(input: &FlacInput) -> (r: Option<Vec<u8>>)
    requires
        input.channels > 0,
        input.samples@.len() > 0,
        input.samples@.len() % input.channels as nat == 0,
    ensures
        r matches Some(v) ==> is_flac_of(v@, input.samples@, input.channels, input.sample_rate),
        r matches Some(v) ==> v@.subrange(26, 42) == flac_digest(input.samples@),
{
    let config = flacenc::error::Verify::into_verified(flacenc::config::Encoder::default()).ok()?;
    let samples: Vec<i32> = input.samples.iter().map(|sample| i32::from(*sample)).collect();
    let source = flacenc::source::MemSource::from_samples(
        &samples,
        usize::from(input.channels),
        16,
        input.sample_rate as usize,
    );
    let stream = flacenc::encode_with_fixed_block_size(&config, source, config.block_size).ok()?;
    let mut sink = flacenc::bitsink::ByteSink::new();
    flacenc::component::BitRepr::write(&stream, &mut sink).ok()?;
    Some(sink.into_inner())
}

/// A WAV file as a FLAC file of the same samples, channels and rate, as long as
/// it holds samples, they are integers of 16 bits, and the encoder takes them.
pub fn flac_of_wav(bytes: &[u8]) -> (r: Option<Vec<u8>>)
    ensures
        match (wav_format(bytes@), wav_samples(bytes@)) {
            (Ok(f), Ok(s)) => r matches Some(v) ==> {
                &&& f.3 && f.2 == 16 && s.len() > 0
                &&& is_flac_of(v@, s, f.0, f.1)
                &&& v@.subrange(26, 42) == flac_digest(s)
            },
            _ => r is None,
        },
{
    match flac_input(bytes) {
        Some(input) => encode_flac(&input),
        None => None,
    }
}

/// The name of a directory for decoding a recording. A process number, a time
/// and a counter keep it apart from others.
pub fn temp_decode_dir(process: u32, nanos: u128, sequence: u64) -> (r: String)
    ensures
        r@ == "glimpse-speech-decode-"@ + text::decimal(process as nat) + "-"@ + text::decimal(
            nanos as nat,
        ) + "-"@ + text::decimal(sequence as nat),
{
    let first = text::decimal_of(process as u128);
    let second = text::decimal_of(nanos);
    let third = text::decimal_of(sequence as u128);
    let mut out = text::concat3("glimpse-speech-decode-", first.as_str(), "-");
    out.append(second.as_str());
    out.append("-");
    out.append(third.as_str());
    out
}

/// The average of a frame lies next to the exact one, towards zero: times the
/// channels it differs from the sum by less than one sample for each. Sums add
/// up, so that equal channels give their own value.
pub proof fn law_averages(frame: Seq<i16>, more: Seq<i16>, x: i16)
    requires
        frame.len() > 0,
    ensures
        sample_sum(seq![x]) == x,
        sample_sum(frame + more) == sample_sum(frame) + sample_sum(more),
        sample_sum(frame) >= 0 ==> 0 <= sample_sum(frame) - frame_average(frame) * frame.len()
            < frame.len(),
        sample_sum(frame) < 0 ==> -(frame.len() as int) < sample_sum(frame) - frame_average(frame)
            * frame.len() <= 0,
{
    assert(seq![x].drop_last() =~= Seq::<i16>::empty());
    assert(sample_sum(Seq::<i16>::empty()) == 0);
    lemma_sums_add(frame, more);
    let s = sample_sum(frame);
    let n = frame.len() as int;
    if s >= 0 {
        assert(0 <= s - (s / n) * n < n) by (nonlinear_arith)
            requires
                n > 0,
        ;
    } else {
        let m = -s;
        assert(0 <= m - (m / n) * n < n) by (nonlinear_arith)
            requires
                n > 0,
        ;
        assert((-(m / n)) * n == -((m / n) * n)) by (nonlinear_arith);
    }
}

proof fn lemma_sums_add(a: Seq<i16>, b: Seq<i16>)
    ensures
        sample_sum(a + b) == sample_sum(a) + sample_sum(b),
    decreases b.len(),
{
    if b.len() == 0 {
        assert(a + b =~= a);
    } else {
        assert((a + b).drop_last() =~= a + b.drop_last());
        lemma_sums_add(a, b.drop_last());
    }
}

/// One channel stays as it is, and of more than one every whole frame gives one
/// sample, the average of its own.
pub proof fn law_mixing(samples: Seq<i16>, channels: nat, i: int)
    requires
        channels > 0,
    ensures
        mixed(samples, channels).len() == samples.len() / channels,
        channels == 1 && 0 <= i < samples.len() ==> mixed(samples, channels).len() == samples.len()
            && mixed(samples, channels)[i] == samples[i],
        0 <= i < samples.len() / channels ==> mixed(samples, channels)[i] == frame_average(
            samples.subrange(i * channels, i * channels + channels),
        ),
{
    assert((i + 1) * channels == i * channels + channels) by (nonlinear_arith);
    if channels == 1 && 0 <= i < samples.len() {
        let frame = samples.subrange(i, i + 1);
        assert(samples.len() / channels == samples.len()) by (nonlinear_arith)
            requires
                channels == 1,
        ;
        assert(samples.subrange(i * channels, (i + 1) * channels) =~= frame);
        assert(frame.drop_last() =~= Seq::<i16>::empty());
        assert(sample_sum(frame.drop_last()) == 0);
        assert(sample_sum(frame) == frame.last() as int);
    }
}

/// A WAV file is read directly where it has one channel, 16000 samples a second
/// and integers of 16 bits; it is mixed and resampled where it has channels of
/// such integers.
pub proof fn law_readable_headers(h: WavHeader)
    ensures
        wav_error(h) is None <==> h.channels == 1 && h.sample_rate == 16_000 && h.bits_per_sample
            == 16 && h.integer,
        pcm16_error(h) is None <==> h.channels >= 1 && h.bits_per_sample == 16 && h.integer,
{
}

/// The first thing that keeps a header from being read is named, with what was
/// found.
pub proof fn law_messages_of_headers(h: WavHeader)
    ensures
        h.channels != 1 ==> wav_error(h) == Some(
            "Expected 1 channel, found "@ + text::decimal(h.channels as nat),
        ),
        h.channels == 1 && h.sample_rate != 16_000 ==> wav_error(h) == Some(
            "Expected 16000 Hz sample rate, found "@ + text::decimal(h.sample_rate as nat) + " Hz"@,
        ),
        h.channels == 1 && h.sample_rate == 16_000 && h.bits_per_sample != 16 ==> wav_error(h)
            == Some(
            "Expected 16 bits per sample, found "@ + text::decimal(h.bits_per_sample as nat),
        ),
        h.channels == 1 && h.sample_rate == 16_000 && h.bits_per_sample == 16 && !h.integer
            ==> wav_error(h) == Some("Expected Int sample format, found "@ + "Float"@),
        h.bits_per_sample != 16 && h.integer ==> pcm16_error(h) == Some(
            "Expected PCM int16 samples, found "@ + text::decimal(h.bits_per_sample as nat)
                + " bit "@ + "Int"@,
        ),
        h.bits_per_sample == 16 && h.integer && h.channels == 0 ==> pcm16_error(h) == Some(
            "WAV has no channels"@,
        ),
{
}

/// What a header says is what was found.
pub proof fn law_headers(channels: u16, sample_rate: u32, bits_per_sample: u16, integer: bool)
    ensures
        header_of((channels, sample_rate, bits_per_sample, integer)) == (WavHeader {
            channels,
            sample_rate,
            bits_per_sample,
            integer,
        }),
{
}

/// The highest rate that is resampled is 384 kHz.
pub proof fn law_highest_rate()
    ensures
        MAX_SAMPLE_RATE == 384_000,
{
}

} // verus!
