use amberhead_or100::ir::{
    decode_wav, sample_at, u16_at, u32_at, DecodedWav, IrError, FORMAT_EXTENSIBLE,
    FORMAT_IEEE_FLOAT, FORMAT_PCM, MAX_SOURCE_RATE,
};

/// Builds a `RIFF`/`WAVE` byte stream around `data`.
fn wav(format: u16, channels: u16, rate: u32, bits: u16, data: &[u8]) -> Vec<u8> {
    let block_align = channels * (bits / 8);
    let mut fmt = Vec::new();
    fmt.extend_from_slice(&format.to_le_bytes());
    fmt.extend_from_slice(&channels.to_le_bytes());
    fmt.extend_from_slice(&rate.to_le_bytes());
    fmt.extend_from_slice(&rate.wrapping_mul(block_align as u32).to_le_bytes());
    fmt.extend_from_slice(&block_align.to_le_bytes());
    fmt.extend_from_slice(&bits.to_le_bytes());
    riff(&[(b"fmt ", &fmt), (b"data", data)])
}

/// Builds a `RIFF`/`WAVE` byte stream out of chunks, padding odd ones.
fn riff(chunks: &[(&[u8; 4], &[u8])]) -> Vec<u8> {
    let mut body = Vec::new();
    body.extend_from_slice(b"WAVE");
    for (id, payload) in chunks {
        body.extend_from_slice(*id);
        body.extend_from_slice(&(payload.len() as u32).to_le_bytes());
        body.extend_from_slice(payload);
        if payload.len() % 2 == 1 {
            body.push(0);
        }
    }
    let mut file = Vec::new();
    file.extend_from_slice(b"RIFF");
    file.extend_from_slice(&(body.len() as u32).to_le_bytes());
    file.extend_from_slice(&body);
    file
}

fn f32_data(samples: &[f32]) -> Vec<u8> {
    samples
        .iter()
        .flat_map(|sample| sample.to_bits().to_le_bytes())
        .collect()
}

fn values(decoded: &DecodedWav) -> Vec<f32> {
    decoded
        .samples
        .iter()
        .map(|bits| f32::from_bits(*bits))
        .collect()
}

fn float_format(channels: u16) -> Vec<u8> {
    let mut fmt = Vec::new();
    fmt.extend_from_slice(&FORMAT_IEEE_FLOAT.to_le_bytes());
    fmt.extend_from_slice(&channels.to_le_bytes());
    fmt.extend_from_slice(&48_000u32.to_le_bytes());
    fmt.extend_from_slice(&(48_000u32 * 4).to_le_bytes());
    fmt.extend_from_slice(&4u16.to_le_bytes());
    fmt.extend_from_slice(&32u16.to_le_bytes());
    fmt
}

#[test]
fn decodes_16_bit_pcm() {
    let data: Vec<u8> = [0i16, 16_384, -16_384, i16::MIN]
        .iter()
        .flat_map(|sample| sample.to_le_bytes())
        .collect();
    let decoded = decode_wav(&wav(FORMAT_PCM, 1, 48_000, 16, &data)).expect("decode failed");
    assert_eq!(decoded.sample_rate, 48_000);
    assert_eq!(decoded.channels, 1);
    assert_eq!(values(&decoded), vec![0.0, 0.5, -0.5, -1.0]);
}

#[test]
fn decodes_24_bit_pcm_with_correct_sign_extension() {
    // 0x000000 = 0, 0x400000 = +0.5, 0xC00000 = -0.5, 0x800000 = -1.0.
    let data = [
        0x00, 0x00, 0x00, //
        0x00, 0x00, 0x40, //
        0x00, 0x00, 0xC0, //
        0x00, 0x00, 0x80,
    ];
    let decoded = decode_wav(&wav(FORMAT_PCM, 1, 44_100, 24, &data)).expect("decode failed");
    assert_eq!(values(&decoded), vec![0.0, 0.5, -0.5, -1.0]);
}

#[test]
fn decodes_8_and_32_bit_pcm() {
    let eight = decode_wav(&wav(FORMAT_PCM, 1, 48_000, 8, &[128, 192, 64, 0]))
        .expect("8-bit decode failed");
    assert_eq!(values(&eight), vec![0.0, 0.5, -0.5, -1.0]);

    let data: Vec<u8> = [0i32, 1_073_741_824, -1_073_741_824]
        .iter()
        .flat_map(|sample| sample.to_le_bytes())
        .collect();
    let thirty_two =
        decode_wav(&wav(FORMAT_PCM, 1, 48_000, 32, &data)).expect("32-bit decode failed");
    assert_eq!(values(&thirty_two), vec![0.0, 0.5, -0.5]);
}

#[test]
fn decodes_32_and_64_bit_float() {
    let single = decode_wav(&wav(
        FORMAT_IEEE_FLOAT,
        1,
        96_000,
        32,
        &f32_data(&[0.25, -0.75, 1.0]),
    ))
    .expect("f32 decode failed");
    assert_eq!(values(&single), vec![0.25, -0.75, 1.0]);

    let data: Vec<u8> = [0.25f64, -0.75, 1.0]
        .iter()
        .flat_map(|sample| sample.to_bits().to_le_bytes())
        .collect();
    let double =
        decode_wav(&wav(FORMAT_IEEE_FLOAT, 1, 96_000, 64, &data)).expect("f64 decode failed");
    assert_eq!(values(&double), vec![0.25, -0.75, 1.0]);
}

#[test]
fn takes_channel_zero_of_a_multichannel_file() {
    // Interleaved stereo: left ramps up, right is held at -1.
    let samples: Vec<f32> = (0..4).flat_map(|n| [n as f32 * 0.25, -1.0]).collect();
    let decoded = decode_wav(&wav(FORMAT_IEEE_FLOAT, 2, 48_000, 32, &f32_data(&samples)))
        .expect("decode failed");
    assert_eq!(decoded.channels, 2);
    assert_eq!(values(&decoded), vec![0.0, 0.25, 0.5, 0.75]);
}

#[test]
fn resolves_wave_format_extensible_to_its_sub_format() {
    // A 40-byte `fmt ` chunk: the 16 mandatory bytes, cbSize, the union, the
    // channel mask, then a 16-byte GUID whose first field is the real format
    // tag.
    let mut fmt = Vec::new();
    fmt.extend_from_slice(&FORMAT_EXTENSIBLE.to_le_bytes());
    fmt.extend_from_slice(&1u16.to_le_bytes()); // channels
    fmt.extend_from_slice(&48_000u32.to_le_bytes());
    fmt.extend_from_slice(&(48_000u32 * 4).to_le_bytes());
    fmt.extend_from_slice(&4u16.to_le_bytes()); // block align
    fmt.extend_from_slice(&32u16.to_le_bytes()); // bits
    fmt.extend_from_slice(&22u16.to_le_bytes()); // cbSize
    fmt.extend_from_slice(&32u16.to_le_bytes()); // valid bits
    fmt.extend_from_slice(&4u32.to_le_bytes()); // channel mask
    fmt.extend_from_slice(&FORMAT_IEEE_FLOAT.to_le_bytes());
    fmt.extend_from_slice(&[0u8; 14]); // rest of the GUID

    let data = f32_data(&[0.5, -0.5]);
    let decoded =
        decode_wav(&riff(&[(b"fmt ", &fmt), (b"data", &data)])).expect("extensible decode failed");
    assert_eq!(values(&decoded), vec![0.5, -0.5]);
}

#[test]
fn an_extensible_header_without_a_sub_format_is_no_format() {
    let mut fmt = float_format(1);
    if let Some(tag) = fmt.get_mut(0..2) {
        tag.copy_from_slice(&FORMAT_EXTENSIBLE.to_le_bytes());
    }
    let data = f32_data(&[0.5, -0.5]);
    assert_eq!(
        decode_wav(&riff(&[(b"fmt ", &fmt), (b"data", &data)])),
        Err(IrError::MissingFormat)
    );
}

#[test]
fn skips_unknown_chunks_in_any_order() {
    // `LIST` before `fmt `, an odd-sized chunk needing its pad byte, and `data`
    // last: the layout most IR vendors actually ship.
    let data = f32_data(&[1.0, 0.5]);
    let fmt = float_format(1);
    let file = riff(&[(b"LIST", b"INFO\0"), (b"fmt ", &fmt), (b"data", &data)]);
    let decoded = decode_wav(&file).expect("decode failed");
    assert_eq!(values(&decoded), vec![1.0, 0.5]);
}

#[test]
fn the_format_may_follow_the_data() {
    let data = f32_data(&[1.0, 0.5]);
    let fmt = float_format(1);
    let file = riff(&[(b"data", &data), (b"cue ", &[7u8; 3]), (b"fmt ", &fmt)]);
    assert_eq!(
        decode_wav(&file),
        decode_wav(&riff(&[(b"fmt ", &fmt), (b"data", &data)]))
    );
    assert!(decode_wav(&file).is_ok());
}

#[test]
fn rejects_every_malformed_header_with_a_specific_error() {
    assert_eq!(decode_wav(&[]), Err(IrError::Truncated));
    assert_eq!(
        decode_wav(b"not a wave at all!!"),
        Err(IrError::NotRiffWave)
    );

    // RIFF but not WAVE.
    let mut avi = b"RIFF".to_vec();
    avi.extend_from_slice(&8u32.to_le_bytes());
    avi.extend_from_slice(b"AVI JUNK");
    assert_eq!(decode_wav(&avi), Err(IrError::NotRiffWave));

    // WAVE with no chunks at all.
    let mut bare = b"RIFF".to_vec();
    bare.extend_from_slice(&4u32.to_le_bytes());
    bare.extend_from_slice(b"WAVE");
    assert_eq!(decode_wav(&bare), Err(IrError::MissingFormat));

    assert_eq!(
        decode_wav(&wav(FORMAT_PCM, 1, 48_000, 64, &[0u8; 16])),
        Err(IrError::UnsupportedFormat {
            code: FORMAT_PCM,
            bits: 64
        })
    );
    assert!(matches!(
        decode_wav(&wav(999, 1, 48_000, 16, &[0u8; 4])),
        Err(IrError::UnsupportedFormat { code: 999, .. })
    ));

    assert_eq!(
        decode_wav(&wav(FORMAT_PCM, 0, 48_000, 16, &[0u8; 4])),
        Err(IrError::EmptyFormat)
    );
    assert_eq!(
        decode_wav(&wav(FORMAT_PCM, 1, 0, 16, &[0u8; 4])),
        Err(IrError::BadSampleRate(0))
    );
    assert_eq!(
        decode_wav(&wav(FORMAT_PCM, 1, 48_000, 16, &[])),
        Err(IrError::NoFrames)
    );
    assert_eq!(
        decode_wav(&wav(
            FORMAT_IEEE_FLOAT,
            1,
            48_000,
            32,
            &f32_data(&[f32::NAN])
        )),
        Err(IrError::NonFinite)
    );
}

#[test]
fn every_other_malformed_header_has_its_error_too() {
    let fmt = float_format(1);
    assert_eq!(
        decode_wav(&riff(&[(b"fmt ", &fmt)])),
        Err(IrError::MissingData)
    );
    assert_eq!(
        decode_wav(&riff(&[(b"fmt ", &fmt[..15]), (b"data", &[0u8; 4])])),
        Err(IrError::MissingFormat)
    );
    assert_eq!(
        decode_wav(&wav(FORMAT_PCM, 1, 48_000, 0, &[0u8; 4])),
        Err(IrError::EmptyFormat)
    );
    assert_eq!(
        decode_wav(&wav(FORMAT_PCM, 1, MAX_SOURCE_RATE + 1, 16, &[0u8; 4])),
        Err(IrError::BadSampleRate(MAX_SOURCE_RATE + 1))
    );
    assert!(decode_wav(&wav(FORMAT_PCM, 1, MAX_SOURCE_RATE, 16, &[0u8; 4])).is_ok());
    // Twelve bits are not a depth this reads.
    assert_eq!(
        decode_wav(&wav(FORMAT_PCM, 1, 48_000, 12, &[0u8; 4])),
        Err(IrError::UnsupportedFormat {
            code: FORMAT_PCM,
            bits: 12
        })
    );
    // Half a frame is no frame.
    assert_eq!(
        decode_wav(&wav(FORMAT_PCM, 2, 48_000, 16, &[0u8; 3])),
        Err(IrError::NoFrames)
    );
    // Infinity, and a double beyond single precision.
    assert_eq!(
        decode_wav(&wav(
            FORMAT_IEEE_FLOAT,
            1,
            48_000,
            32,
            &f32_data(&[1.0, f32::INFINITY])
        )),
        Err(IrError::NonFinite)
    );
    assert_eq!(
        decode_wav(&wav(
            FORMAT_IEEE_FLOAT,
            1,
            48_000,
            64,
            &1.0e300f64.to_bits().to_le_bytes()
        )),
        Err(IrError::NonFinite)
    );
}

#[test]
fn a_truncated_data_chunk_yields_the_frames_that_survived() {
    // Declare eight frames, supply three. A recorder killed mid-write leaves
    // exactly this, and the audio before the cut is still good.
    let mut file = wav(
        FORMAT_IEEE_FLOAT,
        1,
        48_000,
        32,
        &f32_data(&[1.0, 0.5, 0.25]),
    );
    let length = file.len();
    // Overwrite the `data` chunk size with a larger figure.
    let data_size_offset = length - 12 - 4;
    assert_eq!(
        file.get(data_size_offset - 4..data_size_offset),
        Some(&b"data"[..])
    );
    if let Some(field) = file.get_mut(data_size_offset..data_size_offset + 4) {
        field.copy_from_slice(&32u32.to_le_bytes());
    }
    let decoded = decode_wav(&file).expect("decode failed");
    assert_eq!(values(&decoded), vec![1.0, 0.5, 0.25]);
}

#[test]
fn an_incomplete_last_frame_is_dropped() {
    let mut data = f32_data(&[1.0, -1.0, 0.5, -0.5]);
    data.truncate(14);
    let decoded =
        decode_wav(&wav(FORMAT_IEEE_FLOAT, 2, 48_000, 32, &data)).expect("decode failed");
    assert_eq!(values(&decoded), vec![1.0]);
}

#[test]
fn the_last_chunk_of_a_name_counts() {
    let fmt = float_format(1);
    let first = f32_data(&[1.0]);
    let second = f32_data(&[0.25, 0.125]);
    let decoded = decode_wav(&riff(&[
        (b"fmt ", &fmt),
        (b"data", &first),
        (b"data", &second),
    ]))
    .expect("decode failed");
    assert_eq!(values(&decoded), vec![0.25, 0.125]);
}

#[test]
fn other_channels_do_not_matter() {
    let quiet = f32_data(&[0.5, 0.0, -0.5, 0.0]);
    let loud = f32_data(&[0.5, 9.0, -0.5, f32::NAN]);
    assert_eq!(
        decode_wav(&wav(FORMAT_IEEE_FLOAT, 2, 48_000, 32, &quiet)),
        decode_wav(&wav(FORMAT_IEEE_FLOAT, 2, 48_000, 32, &loud))
    );
}

#[test]
fn wide_pcm_is_rounded_to_single_precision() {
    for raw in [i32::MAX, i32::MIN, 1, -1, 16_777_217, 1_234_567_891, -987_654_321] {
        let bits = sample_at(&raw.to_le_bytes(), 0, FORMAT_PCM, 32);
        assert_eq!(
            bits,
            Some((raw as f32 / 2_147_483_648.0).to_bits()),
            "{raw}"
        );
    }
}

#[test]
fn narrow_pcm_is_exact() {
    for raw in [i16::MIN, -32_767, -1, 0, 1, 12_345, i16::MAX] {
        let bits = sample_at(&raw.to_le_bytes(), 0, FORMAT_PCM, 16);
        assert_eq!(
            bits.map(f32::from_bits),
            Some(raw as f32 / 32_768.0),
            "{raw}"
        );
    }
}

#[test]
fn doubles_are_narrowed_as_a_cast_does() {
    for value in [
        0.1f64, -0.1, 1.0e-40, -1.0e-45, 1.0e-50, 3.4e38, 1.0e39, -1.0e39, 0.0, -0.0, 1.0 / 3.0,
        16_777_217.0,
    ] {
        let bits = sample_at(&value.to_bits().to_le_bytes(), 0, FORMAT_IEEE_FLOAT, 64);
        assert_eq!(bits, Some((value as f32).to_bits()), "{value}");
    }
    let nan = sample_at(&f64::NAN.to_bits().to_le_bytes(), 0, FORMAT_IEEE_FLOAT, 64);
    assert!(nan.is_some_and(|bits| f32::from_bits(bits).is_nan()));
}

#[test]
fn fields_beyond_the_end_are_not_there() {
    let bytes = [0x34u8, 0x12, 0x78, 0x56];
    assert_eq!(u16_at(&bytes, 0), Some(0x1234));
    assert_eq!(u16_at(&bytes, 2), Some(0x5678));
    assert_eq!(u16_at(&bytes, 3), None);
    assert_eq!(u32_at(&bytes, 0), Some(0x5678_1234));
    assert_eq!(u32_at(&bytes, 1), None);
    assert_eq!(u16_at(&bytes, usize::MAX), None);
    assert_eq!(sample_at(&bytes, 0, FORMAT_PCM, 20), None);
    assert_eq!(sample_at(&bytes, 2, FORMAT_PCM, 24), None);
}
