//! Loading a measured impulse response from a WAV file.

use std::path::PathBuf;

use vstd::arithmetic::div_mod;
use vstd::prelude::*;
use vstd::slice::slice_subrange;
use vstd::string::*;

use crate::dsp::cabinet::IR_LENGTH;
use crate::ieee;
use crate::text;
use crate::text::{comes_before, decimal, lowercase, same};

verus! {

/// Longest impulse response the convolver can hold, in taps.
pub const MAX_IR_TAPS: usize = IR_LENGTH;

/// Largest file the loader will read, in bytes.
pub const MAX_FILE_BYTES: u64 = 64 * 1024 * 1024;

/// Highest sample rate accepted in a file header, in Hz. Anything above this is
/// a misparsed header rather than a real recording.
pub const MAX_SOURCE_RATE: u32 = 768_000;

/// `WAVE_FORMAT_PCM`.
pub const FORMAT_PCM: u16 = 1;

/// `WAVE_FORMAT_IEEE_FLOAT`.
pub const FORMAT_IEEE_FLOAT: u16 = 3;

/// `WAVE_FORMAT_EXTENSIBLE`; the real format is the first field of its
/// sub-format GUID, at offset 24 of the `fmt ` chunk.
pub const FORMAT_EXTENSIBLE: u16 = 0xFFFE;

/// Everything that can stop an impulse response from being loaded.
#[derive(Debug, Clone, PartialEq, Eq)]
pub enum IrError {
    /// The file could not be opened or read.
    Io(String),
    /// The file is larger than [`MAX_FILE_BYTES`].
    TooLarge {
        /// Size reported by the filesystem, in bytes.
        bytes: u64,
    },
    /// The first twelve bytes are not `RIFF....WAVE`.
    NotRiffWave,
    /// The file ends inside its own header.
    Truncated,
    /// No `fmt ` chunk, or one shorter than the mandatory sixteen bytes.
    MissingFormat,
    /// No `data` chunk.
    MissingData,
    /// A format tag or bit depth this decoder does not handle.
    UnsupportedFormat {
        /// The `wFormatTag` field, resolved through `WAVE_FORMAT_EXTENSIBLE`.
        code: u16,
        /// The `wBitsPerSample` field.
        bits: u16,
    },
    /// The header declares zero channels or a zero bit depth.
    EmptyFormat,
    /// The header's sample rate is zero or beyond [`MAX_SOURCE_RATE`].
    BadSampleRate(u32),
    /// The `data` chunk holds no complete frames.
    NoFrames,
    /// The decoded samples contain a NaN or an infinity.
    NonFinite,
    /// The decoded response is silent, so there is nothing to convolve with.
    Silent,
    /// The host sample rate handed to the loader, as a double-precision
    /// pattern, is not a usable rate.
    BadTargetRate(u64),
}

/// One decoded WAV file, reduced to its first channel.
#[derive(Debug, Clone, PartialEq, Eq)]
pub struct DecodedWav {
    /// Sample rate declared by the `fmt ` chunk.
    pub sample_rate: u32,
    /// Channel count declared by the `fmt ` chunk, before reduction.
    pub channels: u16,
    /// Channel 0, as single-precision patterns.
    pub samples: Vec<u32>,
}

/// What a WAV file holds.
#[verifier::ext_equal]
pub struct Recording {
    /// Sample rate in Hz.
    pub rate: u32,
    /// Channels in the file.
    pub channels: u16,
    /// Channel 0, as single-precision patterns.
    pub samples: Seq<u32>,
}

impl View for DecodedWav {
    type V = Recording;

    open spec fn view(&self) -> Recording {
        Recording { rate: self.sample_rate, channels: self.channels, samples: self.samples@ }
    }
}

// ---------------------------------------------------------------------------
// The container
// ---------------------------------------------------------------------------

/// The little-endian 16-bit field at `at`.
pub open spec fn le16(bytes: Seq<u8>, at: int) -> int {
    bytes[at] + 0x100 * bytes[at + 1]
}

/// The little-endian 32-bit field at `at`.
pub open spec fn le32(bytes: Seq<u8>, at: int) -> int {
    le16(bytes, at) + 0x1_0000 * le16(bytes, at + 2)
}

/// One chunk of a `RIFF` file.
#[verifier::ext_equal]
pub struct Chunk {
    /// Its four-byte name.
    pub id: Seq<u8>,
    /// What it holds, as far as the file goes.
    pub body: Seq<u8>,
}

/// Length of the body that the chunk header at `at` leaves in the file.
pub open spec fn body_length(file: Seq<u8>, at: int) -> int {
    let declared = le32(file, at + 4);
    let left = file.len() - at - 8;
    if declared < left {
        declared
    } else {
        left
    }
}

/// The chunks of `file` from offset `at` on.
///
/// A header declares the length of its body; the body stops early where the
/// file does, and a body of odd length is followed by a pad byte.
pub open spec fn chunks_from(file: Seq<u8>, at: int) -> Seq<Chunk>
    decreases
            (if at < file.len() {
                file.len() - at
            } else {
                0
            }),
{
    if at < 0 || at + 8 > file.len() {
        seq![]
    } else {
        let declared = le32(file, at + 4);
        let chunk = Chunk {
            id: file.subrange(at, at + 4),
            body: file.subrange(at + 8, at + 8 + body_length(file, at)),
        };
        seq![chunk] + chunks_from(file, at + 8 + declared + declared % 2)
    }
}

/// Body of the last chunk named `id`.
pub open spec fn last_named(chunks: Seq<Chunk>, id: Seq<u8>) -> Option<Seq<u8>>
    decreases chunks.len(),
{
    if chunks.len() == 0 {
        None
    } else if chunks.last().id == id {
        Some(chunks.last().body)
    } else {
        last_named(chunks.drop_last(), id)
    }
}

/// The name `RIFF`.
pub open spec fn riff_id() -> Seq<u8> {
    seq![0x52u8, 0x49, 0x46, 0x46]
}

/// The name `WAVE`.
pub open spec fn wave_id() -> Seq<u8> {
    seq![0x57u8, 0x41, 0x56, 0x45]
}

/// The name `fmt `.
pub open spec fn format_id() -> Seq<u8> {
    seq![0x66u8, 0x6D, 0x74, 0x20]
}

/// The name `data`.
pub open spec fn data_id() -> Seq<u8> {
    seq![0x64u8, 0x61, 0x74, 0x61]
}

// ---------------------------------------------------------------------------
// The samples
// ---------------------------------------------------------------------------

/// Whether samples of this format tag and width can be decoded.
pub open spec fn supported(format: u16, bits: u16) -> bool {
    ||| format == FORMAT_PCM && (bits == 8 || bits == 16 || bits == 24 || bits == 32)
    ||| format == FORMAT_IEEE_FLOAT && (bits == 32 || bits == 64)
}

/// `n` read as a two's complement number below `2 * half`.
pub open spec fn twos_complement(n: int, half: int) -> int {
    if n < half {
        n
    } else {
        n - 2 * half
    }
}

/// The sample of the given format that starts at `at`.
///
/// Integer samples are fractions of full scale; 8-bit ones are unsigned with an
/// offset of 128, wider ones are two's complement.
pub open spec fn sample(bytes: Seq<u8>, at: int, format: u16, bits: u16) -> u32 {
    if format == FORMAT_PCM {
        if bits == 8 {
            ieee::fraction_of(bytes[at] - 128, 7)
        } else if bits == 16 {
            ieee::fraction_of(twos_complement(le16(bytes, at), 0x8000), 15)
        } else if bits == 24 {
            ieee::fraction_of(
                twos_complement(le16(bytes, at) + 0x1_0000 * bytes[at + 2], 0x80_0000),
                23,
            )
        } else {
            ieee::fraction_of(twos_complement(le32(bytes, at), 0x8000_0000), 31)
        }
    } else {
        if bits == 32 {
            le32(bytes, at) as u32
        } else {
            ieee::narrowed((le32(bytes, at) + 0x1_0000_0000 * le32(bytes, at + 4)) as u64)
        }
    }
}

/// Channel 0 of the whole frames of `data`.
pub open spec fn first_channel(data: Seq<u8>, format: u16, bits: u16, channels: u16) -> Seq<u32> {
    let frame = bits / 8 * channels;
    Seq::new(
        (data.len() / (frame as nat)) as nat,
        |n: int| sample(data, n * frame, format, bits),
    )
}

/// The format tag of a `fmt ` chunk, looked up in the sub-format where the tag
/// says so.
pub open spec fn format_tag(format: Seq<u8>) -> Option<u16> {
    if le16(format, 0) != FORMAT_EXTENSIBLE {
        Some(le16(format, 0) as u16)
    } else if format.len() >= 26 {
        Some(le16(format, 24) as u16)
    } else {
        None
    }
}

/// What a file with these `fmt ` and `data` chunks holds.
pub open spec fn audio(format: Option<Seq<u8>>, data: Option<Seq<u8>>) -> Result<
    Recording,
    IrError,
> {
    match format {
        None => Err(IrError::MissingFormat),
        Some(format) => if format.len() < 16 {
            Err(IrError::MissingFormat)
        } else {
            match data {
                None => Err(IrError::MissingData),
                Some(data) => match format_tag(format) {
                    None => Err(IrError::MissingFormat),
                    Some(tag) => frames(
                        tag,
                        le16(format, 2) as u16,
                        le32(format, 4) as u32,
                        le16(format, 14) as u16,
                        data,
                    ),
                },
            }
        },
    }
}

/// What `data` holds under a header with these fields.
pub open spec fn frames(
    tag: u16,
    channels: u16,
    rate: u32,
    bits: u16,
    data: Seq<u8>,
) -> Result<Recording, IrError> {
    let samples = first_channel(data, tag, bits, channels);
    if channels == 0 || bits == 0 {
        Err(IrError::EmptyFormat)
    } else if rate == 0 || rate > MAX_SOURCE_RATE {
        Err(IrError::BadSampleRate(rate))
    } else if !supported(tag, bits) {
        Err(IrError::UnsupportedFormat { code: tag, bits })
    } else if samples.len() == 0 {
        Err(IrError::NoFrames)
    } else if exists|n: int| 0 <= n < samples.len() && !ieee::finite(#[trigger] samples[n]) {
        Err(IrError::NonFinite)
    } else {
        Ok(Recording { rate, channels, samples })
    }
}

/// What a WAV file holds, or why it cannot be used.
pub open spec fn decoded(file: Seq<u8>) -> Result<Recording, IrError> {
    if file.len() < 12 {
        Err(IrError::Truncated)
    } else if file.subrange(0, 4) != riff_id() || file.subrange(8, 12) != wave_id() {
        Err(IrError::NotRiffWave)
    } else {
        let chunks = chunks_from(file, 12);
        audio(last_named(chunks, format_id()), last_named(chunks, data_id()))
    }
}

// ---------------------------------------------------------------------------
// Decoding
// ---------------------------------------------------------------------------

/// Reads a little-endian `u16` at `offset`, or `None` past the end.
pub fn u16_at(bytes: &[u8], offset: usize) -> (field: Option<u16>)
    ensures
        field == (if offset + 2 <= bytes@.len() {
            Some(le16(bytes@, offset as int) as u16)
        } else {
            None
        }),
{
    let length: usize = bytes.len();
    if offset > length || length - offset < 2 {
        return None;
    }
    let low: u16 = bytes[offset] as u16;
    let high: u16 = bytes[offset + 1] as u16;
    Some(low + 0x100 * high)
}

/// Reads a little-endian `u32` at `offset`, or `None` past the end.
pub fn u32_at(bytes: &[u8], offset: usize) -> (field: Option<u32>)
    ensures
        field == (if offset + 4 <= bytes@.len() {
            Some(le32(bytes@, offset as int) as u32)
        } else {
            None
        }),
{
    let length: usize = bytes.len();
    if offset > length || length - offset < 4 {
        return None;
    }
    match (u16_at(bytes, offset), u16_at(bytes, offset + 2)) {
        (Some(low), Some(high)) => Some(low as u32 + 0x1_0000 * (high as u32)),
        _ => None,
    }
}

/// Decodes one PCM or float sample of `bits` width starting at `offset`.
///
/// Returns `None` where the format is not supported or the sample runs past the
/// end.
pub fn sample_at(bytes: &[u8], offset: usize, format: u16, bits: u16) -> (value: Option<u32>)
    ensures
        value == (if supported(format, bits) && offset + bits / 8 <= bytes@.len() {
            Some(sample(bytes@, offset as int, format, bits))
        } else {
            None
        }),
{
    let length: usize = bytes.len();
    if format == FORMAT_PCM && bits == 8 {
        if offset < length {
            let raw: i32 = bytes[offset] as i32 - 128;
            Some(ieee::fraction(raw, 7))
        } else {
            None
        }
    } else if format == FORMAT_PCM && bits == 16 {
        match u16_at(bytes, offset) {
            Some(field) => {
                let raw: i32 = if field < 0x8000 {
                    field as i32
                } else {
                    field as i32 - 0x1_0000
                };
                Some(ieee::fraction(raw, 15))
            },
            None => None,
        }
    } else if format == FORMAT_PCM && bits == 24 {
        if offset < length && length - offset >= 3 {
            let field: i32 = bytes[offset] as i32 + 0x100 * (bytes[offset + 1] as i32) + 0x1_0000 * (
            bytes[offset + 2] as i32);
            let raw: i32 = if field < 0x80_0000 {
                field
            } else {
                field - 0x100_0000
            };
            Some(ieee::fraction(raw, 23))
        } else {
            None
        }
    } else if format == FORMAT_PCM && bits == 32 {
        match u32_at(bytes, offset) {
            Some(field) => {
                let raw: i32 = if field < 0x8000_0000 {
                    field as i32
                } else {
                    (field as i64 - 0x1_0000_0000) as i32
                };
                Some(ieee::fraction(raw, 31))
            },
            None => None,
        }
    } else if format == FORMAT_IEEE_FLOAT && bits == 32 {
        u32_at(bytes, offset)
    } else if format == FORMAT_IEEE_FLOAT && bits == 64 {
        if offset < length && length - offset >= 8 {
            match (u32_at(bytes, offset), u32_at(bytes, offset + 4)) {
                (Some(low), Some(high)) => {
                    let wide: u64 = low as u64 + 0x1_0000_0000 * (high as u64);
                    Some(ieee::narrow(wide))
                },
                _ => None,
            }
        } else {
            None
        }
    } else {
        None
    }
}

/// Whether the four bytes at `at` are `a`, `b`, `c` and `d`.
fn name_at(bytes: &[u8], at: usize, a: u8, b: u8, c: u8, d: u8) -> (yes: bool)
    requires
        at + 4 <= bytes@.len(),
    ensures
        yes == (bytes@.subrange(at as int, at + 4) == seq![a, b, c, d]),
{
    let yes: bool = bytes[at] == a && bytes[at + 1] == b && bytes[at + 2] == c && bytes[at + 3]
        == d;
    proof {
        let name = bytes@.subrange(at as int, at + 4);
        assert(yes ==> name =~= seq![a, b, c, d]);
        assert(name[0] == bytes@[at as int] && name[1] == bytes@[at + 1]);
        assert(name[2] == bytes@[at + 2] && name[3] == bytes@[at + 3]);
        assert(seq![a, b, c, d][0] == a && seq![a, b, c, d][1] == b);
        assert(seq![a, b, c, d][2] == c && seq![a, b, c, d][3] == d);
    }
    yes
}

/// The bytes behind an optional slice.
pub open spec fn contents(chunk: Option<&[u8]>) -> Option<Seq<u8>> {
    match chunk {
        Some(bytes) => Some(bytes@),
        None => None,
    }
}

/// Appending a chunk hides earlier ones of its name and no others.
proof fn lemma_last_named_push(chunks: Seq<Chunk>, chunk: Chunk, id: Seq<u8>)
    ensures
        last_named(chunks.push(chunk), id) == (if chunk.id == id {
            Some(chunk.body)
        } else {
            last_named(chunks, id)
        }),
{
    assert(chunks.push(chunk).drop_last() =~= chunks);
}

/// Finds the `fmt ` and `data` chunks of a file.
fn find_chunks(bytes: &[u8]) -> (found: (Option<&[u8]>, Option<&[u8]>))
    requires
        bytes@.len() >= 12,
    ensures
        contents(found.0) == last_named(chunks_from(bytes@, 12), format_id()),
        contents(found.1) == last_named(chunks_from(bytes@, 12), data_id()),
{
    let length: usize = bytes.len();
    let mut format_chunk: Option<&[u8]> = None;
    let mut data_chunk: Option<&[u8]> = None;
    let mut cursor: usize = 12;
    let ghost mut seen: Seq<Chunk> = seq![];
    assert(seen + chunks_from(bytes@, 12) =~= chunks_from(bytes@, 12));
    while length - cursor >= 8
        invariant
            12 <= cursor <= length,
            length == bytes@.len(),
            seen + chunks_from(bytes@, cursor as int) == chunks_from(bytes@, 12),
            contents(format_chunk) == last_named(seen, format_id()),
            contents(data_chunk) == last_named(seen, data_id()),
        decreases length - cursor,
    {
        let size: u32 = match u32_at(bytes, cursor + 4) {
            Some(size) => size,
            None => 0,
        };
        assert(size == le32(bytes@, cursor + 4));
        let body_start: usize = cursor + 8;
        let left: usize = length - body_start;
        let body_end: usize = if (size as u64) < left as u64 {
            body_start + size as usize
        } else {
            length
        };
        let body: &[u8] = slice_subrange(bytes, body_start, body_end);
        let ghost chunk = Chunk {
            id: bytes@.subrange(cursor as int, cursor + 4),
            body: body@,
        };
        let ghost before = cursor as int;
        proof {
            assert(body_end - body_start == body_length(bytes@, cursor as int));
            lemma_last_named_push(seen, chunk, format_id());
            lemma_last_named_push(seen, chunk, data_id());
        }
        if name_at(bytes, cursor, 0x66, 0x6D, 0x74, 0x20) {
            format_chunk = Some(body);
            assert(chunk.id != data_id()) by {
                assert(format_id()[0] != data_id()[0]);
            }
        } else if name_at(bytes, cursor, 0x64, 0x61, 0x74, 0x61) {
            data_chunk = Some(body);
        }
        let advance: u64 = size as u64 + (size % 2) as u64;
        let ghost next = before + 8 + advance;
        if advance <= left as u64 {
            cursor = body_start + advance as usize;
        } else {
            cursor = length;
            assert(chunks_from(bytes@, next) =~= chunks_from(bytes@, length as int));
        }
        proof {
            assert(chunks_from(bytes@, before) == seq![chunk] + chunks_from(bytes@, next));
            assert(seen + (seq![chunk] + chunks_from(bytes@, next)) =~= seen.push(chunk)
                + chunks_from(bytes@, next));
            seen = seen.push(chunk);
        }
    }
    assert(seen + chunks_from(bytes@, cursor as int) =~= seen);
    (format_chunk, data_chunk)
}

/// Decodes channel 0 of `data` under a header with these fields.
fn decode_frames(tag: u16, channels: u16, rate: u32, bits: u16, data: &[u8]) -> (result: Result<
    DecodedWav,
    IrError,
>)
    ensures
        match result {
            Ok(decoded) => frames(tag, channels, rate, bits, data@) == Ok::<_, IrError>(decoded@),
            Err(error) => frames(tag, channels, rate, bits, data@) == Err::<Recording, _>(error),
        },
{
    if channels == 0 || bits == 0 {
        return Err(IrError::EmptyFormat);
    }
    if rate == 0 || rate > MAX_SOURCE_RATE {
        return Err(IrError::BadSampleRate(rate));
    }
    let silence: [u8; 8] = [0, 0, 0, 0, 0, 0, 0, 0];
    if sample_at(&silence, 0, tag, bits).is_none() {
        return Err(IrError::UnsupportedFormat { code: tag, bits });
    }
    let sample_bytes: usize = (bits / 8) as usize;
    proof {
        assert(sample_bytes * channels <= 8 * 0xFFFF) by (nonlinear_arith)
            requires
                sample_bytes <= 8,
                channels <= 0xFFFF,
        ;
        assert(sample_bytes * channels >= sample_bytes) by (nonlinear_arith)
            requires
                channels >= 1,
                sample_bytes >= 1,
        ;
    }
    let frame_bytes: usize = sample_bytes * channels as usize;
    let length: usize = data.len();
    let count: usize = length / frame_bytes;
    let ghost expected = first_channel(data@, tag, bits, channels);
    assert(expected.len() == count);
    if count == 0 {
        return Err(IrError::NoFrames);
    }
    let mut samples: Vec<u32> = Vec::with_capacity(count);
    let mut frame: usize = 0;
    while frame < count
        invariant
            frame <= count,
            length == data@.len(),
            count == data@.len() / (frame_bytes as nat),
            frame_bytes == bits / 8 * channels,
            frame_bytes >= bits / 8 > 0,
            supported(tag, bits),
            channels > 0,
            0 < rate <= MAX_SOURCE_RATE,
            expected == first_channel(data@, tag, bits, channels),
            expected.len() == count,
            samples@ == expected.take(frame as int),
            forall|n: int| 0 <= n < frame ==> ieee::finite(#[trigger] expected[n]),
        decreases count - frame,
    {
        proof {
            div_mod::lemma_fundamental_div_mod(
                data@.len() as int,
                frame_bytes as int,
            );
            assert(0 <= frame * frame_bytes <= frame_bytes * count - frame_bytes)
                by (nonlinear_arith)
                requires
                    0 <= frame < count,
                    frame_bytes > 0,
            ;
        }
        let value: u32 = match sample_at(data, frame * frame_bytes, tag, bits) {
            Some(value) => value,
            None => 0,
        };
        assert(value == expected[frame as int]);
        if !ieee::is_finite(value) {
            return Err(IrError::NonFinite);
        }
        samples.push(value);
        assert(expected.take(frame as int).push(value) =~= expected.take(frame + 1));
        frame = frame + 1;
    }
    assert(expected.take(count as int) =~= expected);
    Ok(DecodedWav { sample_rate: rate, channels, samples })
}

/// Parses a `RIFF`/`WAVE` byte stream into channel 0 of its audio.
///
/// Chunks may appear in any order and unknown chunks are skipped, which is what
/// lets this read the `LIST`-prefixed files most IR vendors ship.
pub fn decode_wav(bytes: &[u8]) -> (result: Result<DecodedWav, IrError>)
    ensures
        match result {
            Ok(wav) => decoded(bytes@) == Ok::<_, IrError>(wav@),
            Err(error) => decoded(bytes@) == Err::<Recording, _>(error),
        },
        result matches Ok(wav) ==> decoded(bytes@)->Ok_0.rate == wav.sample_rate && decoded(
            bytes@,
        )->Ok_0.channels == wav.channels && decoded(bytes@)->Ok_0.samples == wav.samples@,
{
    if bytes.len() < 12 {
        return Err(IrError::Truncated);
    }
    if !name_at(bytes, 0, 0x52, 0x49, 0x46, 0x46) || !name_at(bytes, 8, 0x57, 0x41, 0x56, 0x45) {
        return Err(IrError::NotRiffWave);
    }
    let (format_chunk, data_chunk) = find_chunks(bytes);
    let format: &[u8] = match format_chunk {
        Some(chunk) => chunk,
        None => return Err(IrError::MissingFormat),
    };
    if format.len() < 16 {
        return Err(IrError::MissingFormat);
    }
    let data: &[u8] = match data_chunk {
        Some(chunk) => chunk,
        None => return Err(IrError::MissingData),
    };
    match (u16_at(format, 0), u16_at(format, 2), u32_at(format, 4), u16_at(format, 14)) {
        (Some(tag), Some(channels), Some(rate), Some(bits)) => {
            if tag != FORMAT_EXTENSIBLE {
                decode_frames(tag, channels, rate, bits, data)
            } else {
                match u16_at(format, 24) {
                    Some(tag) => decode_frames(tag, channels, rate, bits, data),
                    None => Err(IrError::MissingFormat),
                }
            }
        },
        _ => Err(IrError::MissingFormat),
    }
}

// ---------------------------------------------------------------------------
// Error messages
// ---------------------------------------------------------------------------

/// The text the editor shows for an error. `host_rate` is how the offending
/// host rate reads, for the one error that names it.
pub open spec fn message_text(error: IrError, host_rate: Seq<char>) -> Seq<char> {
    match error {
        IrError::Io(message) => "cannot read file: "@ + message@,
        IrError::TooLarge { bytes } => "file is "@ + text::decimal_text((bytes / 1_048_576) as nat)
            + " MB, limit is "@ + text::decimal_text((MAX_FILE_BYTES / 1_048_576) as nat) + " MB"@,
        IrError::NotRiffWave => "not a RIFF/WAVE file"@,
        IrError::Truncated => "file is truncated"@,
        IrError::MissingFormat => "no usable 'fmt ' chunk"@,
        IrError::MissingData => "no 'data' chunk"@,
        IrError::UnsupportedFormat { code, bits } => "unsupported format "@ + text::decimal_text(
            code as nat,
        ) + " at "@ + text::decimal_text(bits as nat)
            + "-bit; use 16/24/32-bit PCM or 32/64-bit float"@,
        IrError::EmptyFormat => "header declares no channels or no bits"@,
        IrError::BadSampleRate(rate) => "implausible sample rate "@ + text::decimal_text(rate as nat)
            + " Hz"@,
        IrError::NoFrames => "no audio frames"@,
        IrError::NonFinite => "samples contain NaN or infinity"@,
        IrError::Silent => "response is silent"@,
        IrError::BadTargetRate(_) => "invalid host sample rate "@ + host_rate,
    }
}

impl IrError {
    /// Renders the error for the editor.
    pub fn message(&self, host_rate: &str) -> (text: String)
        ensures
            text@ == message_text(*self, host_rate@),
    {
        match self {
            IrError::Io(message) => {
                let mut text: String = String::from_str("cannot read file: ");
                text.append(message.as_str());
                text
            },
            IrError::TooLarge { bytes } => {
                let mut text: String = String::from_str("file is ");
                text.append(decimal(*bytes / 1_048_576).as_str());
                text.append(" MB, limit is ");
                text.append(decimal(MAX_FILE_BYTES / 1_048_576).as_str());
                text.append(" MB");
                text
            },
            IrError::NotRiffWave => String::from_str("not a RIFF/WAVE file"),
            IrError::Truncated => String::from_str("file is truncated"),
            IrError::MissingFormat => String::from_str("no usable 'fmt ' chunk"),
            IrError::MissingData => String::from_str("no 'data' chunk"),
            IrError::UnsupportedFormat { code, bits } => {
                let mut text: String = String::from_str("unsupported format ");
                text.append(decimal(*code as u64).as_str());
                text.append(" at ");
                text.append(decimal(*bits as u64).as_str());
                text.append("-bit; use 16/24/32-bit PCM or 32/64-bit float");
                text
            },
            IrError::EmptyFormat => String::from_str("header declares no channels or no bits"),
            IrError::BadSampleRate(rate) => {
                let mut text: String = String::from_str("implausible sample rate ");
                text.append(decimal(*rate as u64).as_str());
                text.append(" Hz");
                text
            },
            IrError::NoFrames => String::from_str("no audio frames"),
            IrError::NonFinite => String::from_str("samples contain NaN or infinity"),
            IrError::Silent => String::from_str("response is silent"),
            IrError::BadTargetRate(_) => {
                let mut text: String = String::from_str("invalid host sample rate ");
                text.append(host_rate);
                text
            },
        }
    }
}

/// A message names what was wrong: what the system said, the size in whole
/// megabytes, the format and its width, or the rate.
pub proof fn law_messages_name_what_was_wrong(
    reason: String,
    bytes: u64,
    code: u16,
    bits: u16,
    rate: u32,
    pattern: u64,
    host_rate: Seq<char>,
)
    ensures
        message_text(IrError::Io(reason), host_rate) == "cannot read file: "@ + reason@,
        message_text(IrError::TooLarge { bytes }, host_rate) == "file is "@ + text::decimal_text(
            (bytes / 1_048_576) as nat,
        ) + " MB, limit is "@ + text::decimal_text(64) + " MB"@,
        message_text(IrError::UnsupportedFormat { code, bits }, host_rate)
            == "unsupported format "@ + text::decimal_text(code as nat) + " at "@
            + text::decimal_text(bits as nat) + "-bit; use 16/24/32-bit PCM or 32/64-bit float"@,
        message_text(IrError::BadSampleRate(rate), host_rate) == "implausible sample rate "@
            + text::decimal_text(rate as nat) + " Hz"@,
        message_text(IrError::BadTargetRate(pattern), host_rate) == "invalid host sample rate "@
            + host_rate,
{
}

/// Every message can stand in the middle of a sentence: it is never empty and
/// starts with a small letter.
pub proof fn law_messages_start_small(error: IrError, host_rate: Seq<char>)
    ensures
        message_text(error, host_rate).len() > 0,
        'a' <= message_text(error, host_rate)[0] <= 'z',
{
    reveal_strlit("cannot read file: ");
    reveal_strlit("file is ");
    reveal_strlit("not a RIFF/WAVE file");
    reveal_strlit("file is truncated");
    reveal_strlit("no usable 'fmt ' chunk");
    reveal_strlit("no 'data' chunk");
    reveal_strlit("unsupported format ");
    reveal_strlit("header declares no channels or no bits");
    reveal_strlit("implausible sample rate ");
    reveal_strlit("no audio frames");
    reveal_strlit("samples contain NaN or infinity");
    reveal_strlit("response is silent");
    reveal_strlit("invalid host sample rate ");
}

// ---------------------------------------------------------------------------
// From samples to taps
// ---------------------------------------------------------------------------

/// Taps over which a truncated response is faded out.
///
/// A response longer than [`MAX_IR_TAPS`] has to be cut somewhere, and cutting
/// it mid-tail leaves a step that convolves into an audible click on every
/// transient.
pub const TRUNCATION_FADE_TAPS: usize = 128;

/// An impulse response ready to hand to the convolver.
#[derive(Debug, Clone, PartialEq, Eq)]
pub struct LoadedIr {
    /// At most [`MAX_IR_TAPS`] taps, at the host sample rate.
    pub taps: Vec<u32>,
    /// Rate the file was recorded at, before resampling.
    pub source_rate: u32,
    /// Channel count of the file, before channel 0 was taken.
    pub source_channels: u16,
    /// Frames the file held, before resampling and truncation.
    pub source_frames: usize,
    /// Whether the response had to be cut to [`MAX_IR_TAPS`].
    pub truncated: bool,
}

/// How decoded audio gets to the host's rate.
#[derive(Debug, Clone, Copy, PartialEq, Eq)]
pub enum Conversion {
    /// It is at that rate already: the samples are the taps.
    Keep,
    /// It has to be resampled.
    Resample,
}

/// Fails where the file is too large to read.
pub fn check_file_size(bytes: u64) -> (result: Result<(), IrError>)
    ensures
        result == (if bytes > MAX_FILE_BYTES {
            Err(IrError::TooLarge { bytes })
        } else {
            Ok(())
        }),
{
    if bytes > MAX_FILE_BYTES {
        Err(IrError::TooLarge { bytes })
    } else {
        Ok(())
    }
}

/// Decides how decoded audio is converted to taps at `target_rate`, a
/// double-precision pattern.
///
/// Audio within a millionth of a hertz of the target rate is kept as it is.
pub fn prepare_taps(decoded: &DecodedWav, target_rate: u64) -> (result: Result<
    Conversion,
    IrError,
>)
    ensures
        result == (if !ieee::positive_up_to(target_rate, MAX_SOURCE_RATE) {
            Err(IrError::BadTargetRate(target_rate))
        } else if decoded.samples@.len() == 0 || decoded.sample_rate == 0 {
            Err(IrError::NoFrames)
        } else if ieee::within_a_millionth(decoded.sample_rate, target_rate) {
            Ok(Conversion::Keep)
        } else {
            Ok(Conversion::Resample)
        }),
        !(0 < target_rate <= 0x4127_7000_0000_0000) ==> result == Err::<Conversion, _>(
            IrError::BadTargetRate(target_rate),
        ),
        0 < target_rate <= 0x4127_7000_0000_0000 && decoded.samples@.len() > 0
            && decoded.sample_rate > 0 ==> result is Ok,
{
    proof {
        ieee::law_rates_up_to_the_limit(target_rate);
    }
    if !ieee::is_positive_up_to(target_rate, MAX_SOURCE_RATE) {
        return Err(IrError::BadTargetRate(target_rate));
    }
    if decoded.samples.len() == 0 || decoded.sample_rate == 0 {
        return Err(IrError::NoFrames);
    }
    if ieee::is_within_a_millionth(decoded.sample_rate, target_rate) {
        Ok(Conversion::Keep)
    } else {
        Ok(Conversion::Resample)
    }
}

/// The part of a response that the convolver can hold.
pub open spec fn held(samples: Seq<u32>) -> Seq<u32> {
    if samples.len() <= MAX_IR_TAPS {
        samples
    } else {
        samples.take(MAX_IR_TAPS as int)
    }
}

/// Trims `samples` to [`MAX_IR_TAPS`] and says whether a cut was made.
///
/// The last [`TRUNCATION_FADE_TAPS`] taps of a cut response are to be faded.
pub fn truncate(samples: Vec<u32>) -> (trimmed: (Vec<u32>, bool))
    ensures
        trimmed.0@ == held(samples@),
        trimmed.1 == (samples@.len() > MAX_IR_TAPS),
        trimmed.0@.len() == if samples@.len() < 4096 {
            samples@.len()
        } else {
            4096
        },
        forall|i: int| 0 <= i < trimmed.0@.len() ==> #[trigger] trimmed.0@[i] == samples@[i],
{
    let mut taps: Vec<u32> = samples;
    if taps.len() <= MAX_IR_TAPS {
        return (taps, false);
    }
    taps.truncate(MAX_IR_TAPS);
    (taps, true)
}

/// A cut keeps the beginning of a response: what the convolver holds is as much
/// of it as fits, tap by tap from the first sample on.
pub proof fn law_a_cut_keeps_the_beginning(samples: Seq<u32>)
    ensures
        held(samples).len() <= samples.len(),
        held(samples).len() <= MAX_IR_TAPS,
        held(samples).len() == samples.len() || held(samples).len() == MAX_IR_TAPS,
        forall|i: int| 0 <= i < held(samples).len() ==> #[trigger] held(samples)[i] == samples[i],
{
}

/// The limits a file has to keep to, and the length of the convolver.
pub proof fn law_the_limits()
    ensures
        MAX_IR_TAPS == 4096,
        MAX_FILE_BYTES == 67_108_864,
        MAX_SOURCE_RATE == 768_000,
        TRUNCATION_FADE_TAPS == 128,
{
}

/// A response is usable if every tap is a number and some tap is not zero, and
/// both can be told from the patterns.
pub proof fn law_usable_taps(taps: Seq<u32>)
    ensures
        all_finite(taps) <==> forall|i: int|
            0 <= i < taps.len() ==> #[trigger] taps[i] % 0x8000_0000 < 0x7F80_0000,
        all_zero(taps) <==> forall|i: int|
            0 <= i < taps.len() ==> #[trigger] taps[i] % 0x8000_0000 == 0,
{
    assert forall|i: int| 0 <= i < taps.len() implies (ieee::units(#[trigger] taps[i]) == 0) == (
    taps[i] % 0x8000_0000 == 0) by {
        if ieee::magnitude(taps[i]) > 0 {
            ieee::lemma_units_increase(0, ieee::magnitude(taps[i]));
        }
    }
}

/// Whether every tap is a number.
pub open spec fn all_finite(taps: Seq<u32>) -> bool {
    forall|i: int| 0 <= i < taps.len() ==> ieee::finite(#[trigger] taps[i])
}

/// Whether every tap is a zero of either sign.
pub open spec fn all_zero(taps: Seq<u32>) -> bool {
    forall|i: int| 0 <= i < taps.len() ==> ieee::units(#[trigger] taps[i]) == 0
}

/// Tests whether every tap is a number.
pub fn taps_are_finite(taps: &[u32]) -> (yes: bool)
    ensures
        yes == all_finite(taps@),
{
    let mut i: usize = 0;
    while i < taps.len()
        invariant
            i <= taps@.len(),
            forall|k: int| 0 <= k < i ==> ieee::finite(#[trigger] taps@[k]),
        decreases taps@.len() - i,
    {
        if !ieee::is_finite(taps[i]) {
            return false;
        }
        i = i + 1;
    }
    true
}

/// Tests whether every tap is zero.
fn taps_are_zero(taps: &[u32]) -> (yes: bool)
    ensures
        yes == all_zero(taps@),
{
    let mut i: usize = 0;
    while i < taps.len()
        invariant
            i <= taps@.len(),
            forall|k: int| 0 <= k < i ==> ieee::units(#[trigger] taps@[k]) == 0,
        decreases taps@.len() - i,
    {
        if !ieee::is_zero(taps[i]) {
            return false;
        }
        i = i + 1;
    }
    true
}

/// Accepts finished taps, or rejects a response that came out empty,
/// non-finite or silent.
pub fn accept_taps(decoded: &DecodedWav, taps: Vec<u32>, truncated: bool) -> (result: Result<
    LoadedIr,
    IrError,
>)
    requires
        taps@.len() <= MAX_IR_TAPS,
    ensures
        match result {
            Ok(loaded) => {
                &&& 0 < taps@.len() <= MAX_IR_TAPS
                &&& all_finite(taps@)
                &&& !all_zero(taps@)
                &&& loaded.taps == taps
                &&& loaded.source_rate == decoded.sample_rate
                &&& loaded.source_channels == decoded.channels
                &&& loaded.source_frames == decoded.samples@.len()
                &&& loaded.truncated == truncated
            },
            Err(error) => error == if taps@.len() == 0 {
                IrError::NoFrames
            } else if !all_finite(taps@) {
                IrError::NonFinite
            } else {
                IrError::Silent
            } && (taps@.len() == 0 || !all_finite(taps@) || all_zero(taps@)),
        },
{
    if taps.len() == 0 {
        return Err(IrError::NoFrames);
    }
    if !taps_are_finite(taps.as_slice()) {
        return Err(IrError::NonFinite);
    }
    if taps_are_zero(taps.as_slice()) {
        return Err(IrError::Silent);
    }
    Ok(
        LoadedIr {
            taps,
            source_rate: decoded.sample_rate,
            source_channels: decoded.channels,
            source_frames: decoded.samples.len(),
            truncated,
        },
    )
}

// ---------------------------------------------------------------------------
// Which files are offered
// ---------------------------------------------------------------------------

/// Index of the last `c` in `text`, or -1.
pub open spec fn last_of(text: Seq<char>, c: char) -> int
    decreases text.len(),
{
    if text.len() == 0 {
        -1
    } else if text.last() == c {
        text.len() - 1
    } else {
        last_of(text.drop_last(), c)
    }
}

/// A path without what may trail its last part and names nothing: separators,
/// and single dots that stand alone between them.
pub open spec fn path_end(path: Seq<char>) -> Seq<char>
    decreases path.len(),
{
    if path.len() == 0 {
        path
    } else if path.last() == '/' || (path.len() >= 2 && path.last() == '.' && path[path.len() - 2]
        == '/') {
        path_end(path.drop_last())
    } else {
        path
    }
}

/// The last part of a path, where separators are `/`.
pub open spec fn last_part(path: Seq<char>) -> Seq<char> {
    path_end(path).skip(last_of(path_end(path), '/') + 1)
}

/// The name a path ends in, where separators are `/`. A path that ends in a
/// root, in `..`, or is a single dot ends in none.
pub open spec fn file_name_of(path: Seq<char>) -> Option<Seq<char>> {
    if last_part(path).len() == 0 || last_part(path) == seq!['.'] || last_part(path) == seq![
        '.',
        '.',
    ] {
        None
    } else {
        Some(last_part(path))
    }
}

/// Whether a path ends in the same name by the rules of Unix and of Windows:
/// it has no backslash and does not begin with the name of a share, and its last
/// part does not begin with the name of a drive.
pub open spec fn reads_alike(path: Seq<char>) -> bool {
    &&& !path.contains('\\')
    &&& !(path.len() >= 2 && path[0] == '/' && path[1] == '/')
    &&& !(path.len() >= 2 && path[1] == ':' && last_part(path) == path_end(path))
}

/// The part of a file name behind its last dot, where that dot is not the
/// first character.
pub open spec fn extension_of(name: Seq<char>) -> Option<Seq<char>> {
    if last_of(name, '.') > 0 {
        Some(name.skip(last_of(name, '.') + 1))
    } else {
        None
    }
}

/// The part of a file name before its extension.
pub open spec fn stem_of(name: Seq<char>) -> Seq<char> {
    if last_of(name, '.') > 0 {
        name.take(last_of(name, '.'))
    } else {
        name
    }
}

/// The extension of the name a path ends in.
pub open spec fn path_extension_of(path: Seq<char>) -> Option<Seq<char>> {
    match file_name_of(path) {
        Some(name) => extension_of(name),
        None => None,
    }
}

/// The name a path ends in, without its extension.
pub open spec fn path_stem_of(path: Seq<char>) -> Option<Seq<char>> {
    match file_name_of(path) {
        Some(name) => Some(stem_of(name)),
        None => None,
    }
}

/// Whether `part` stands somewhere in `text`.
pub open spec fn occurs_in(text: Seq<char>, part: Seq<char>) -> bool {
    exists|i: int|
        0 <= i <= text.len() - part.len() && #[trigger] text.subrange(i, i + part.len()) == part
}

/// Wraps `Path::extension` on a path given as text: the part of the file name
/// behind the final dot, and nothing where there is no file name or it has no
/// dot but a leading one. What separates directories differs between systems, so
/// which dot it is is left unsaid of paths that do not read alike on them.
#[verifier::external_body]
fn path_extension(path: &str) -> (extension: Option<String>)
    ensures
        reads_alike(path@) ==> match extension {
            Some(text) => path_extension_of(path@) == Some(text@),
            None => path_extension_of(path@) is None,
        },
        extension matches Some(text) ==> occurs_in(path@, seq!['.'] + text@) && !text@.contains(
            '.',
        ),
{
    std::path::Path::new(path).extension().and_then(|part| part.to_str()).map(
        |part| part.to_string(),
    )
}

/// Whether the browser offers files of this extension.
pub open spec fn ir_extension(extension: Seq<char>) -> bool {
    text::lowercase_text(extension) == "wav"@ || text::lowercase_text(extension) == "wave"@
}

/// The same of an ASCII extension, letter by letter.
pub open spec fn ascii_ir_extension(extension: Seq<char>) -> bool {
    let lowered = extension.map_values(|c: char| text::ascii_lower(c));
    lowered == "wav"@ || lowered == "wave"@
}

/// Whether `yes` is the answer that the text of an extension gives.
pub open spec fn decided_by_text(extension: Seq<char>, yes: bool) -> bool {
    &&& yes == ir_extension(extension)
    &&& text::all_ascii(extension) ==> yes == ascii_ir_extension(extension)
}

/// Whether `yes` is the answer that a path's extension gives. Of a path that
/// does not read alike on all systems, only that a yes needs an offered
/// extension behind one of its dots.
pub open spec fn decided_by_extension(path: Seq<char>, yes: bool) -> bool {
    &&& reads_alike(path) ==> match path_extension_of(path) {
        Some(extension) => decided_by_text(extension, yes),
        None => !yes,
    }
    &&& yes ==> exists|extension: Seq<char>| #[trigger]
        decided_by_text(extension, true) && occurs_in(path, seq!['.'] + extension)
            && !extension.contains('.')
}

/// Tests an extension, whatever its case.
pub fn is_ir_extension(extension: &str) -> (yes: bool)
    ensures
        decided_by_text(extension@, yes),
{
    let lowered: String = lowercase(extension);
    same(lowered.as_str(), "wav") || same(lowered.as_str(), "wave")
}

/// Whether `path` ends in an extension the browser offers.
pub fn has_ir_extension(path: &str) -> (yes: bool)
    ensures
        decided_by_extension(path@, yes),
{
    match path_extension(path) {
        Some(extension) => is_ir_extension(extension.as_str()),
        None => false,
    }
}

/// Looking for the last of a character passes over a text without it.
proof fn lemma_last_of_add(a: Seq<char>, b: Seq<char>, c: char)
    requires
        !b.contains(c),
    ensures
        last_of(a + b, c) == last_of(a, c),
    decreases b.len(),
{
    if b.len() == 0 {
        assert(a + b =~= a);
    } else {
        assert(b.contains(b.last()));
        assert((a + b).drop_last() =~= a + b.drop_last());
        assert forall|i: int| 0 <= i < b.drop_last().len() implies b.drop_last()[i] != c by {
            assert(b.contains(b[i]));
        }
        lemma_last_of_add(a, b.drop_last(), c);
    }
}

/// The last of a character is found where it stands.
proof fn lemma_last_of_at(a: Seq<char>, c: char, b: Seq<char>)
    requires
        !b.contains(c),
    ensures
        last_of(a.push(c) + b, c) == a.len(),
        last_of(b, c) == -1,
{
    lemma_last_of_add(a.push(c), b, c);
    lemma_last_of_add(seq![], b, c);
    assert(Seq::<char>::empty() + b =~= b);
}

/// A path is a directory, a separator and a name: the name is found behind the
/// last separator, whatever the directory, and alone where there is none.
pub proof fn law_a_path_ends_in_its_name(directory: Seq<char>, name: Seq<char>)
    requires
        name.len() > 0,
        !name.contains('/'),
        name != seq!['.'],
        name != seq!['.', '.'],
    ensures
        file_name_of(directory + seq!['/'] + name) == Some(name),
        file_name_of(name) == Some(name),
{
    let path = directory + seq!['/'] + name;
    assert(name.contains(name.last()));
    assert(path =~= directory.push('/') + name);
    lemma_last_of_at(directory, '/', name);
    if name.len() == 1 {
        assert(name =~= seq![name.last()]);
    } else {
        assert(name.contains(name[name.len() - 2]));
    }
    assert(path.last() == name.last());
    assert(path_end(path) == path);
    assert(path_end(name) == name);
    assert(path.skip(directory.len() as int + 1) =~= name);
    assert(name.skip(0) =~= name);
}

/// A name is a stem, a dot and an extension: the extension is what follows the
/// last dot, and the stem what comes before it. A name whose only dot is its
/// first character, or that has none, is all stem.
pub proof fn law_a_name_ends_in_its_extension(stem: Seq<char>, extension: Seq<char>)
    requires
        !extension.contains('.'),
    ensures
        stem.len() > 0 ==> extension_of(stem + seq!['.'] + extension) == Some(extension) && stem_of(
            stem + seq!['.'] + extension,
        ) == stem,
        extension_of(seq!['.'] + extension) is None,
        stem_of(seq!['.'] + extension) == seq!['.'] + extension,
        extension_of(extension) is None,
        stem_of(extension) == extension,
{
    let name = stem + seq!['.'] + extension;
    assert(name =~= stem.push('.') + extension);
    lemma_last_of_at(stem, '.', extension);
    assert(name.skip(stem.len() as int + 1) =~= extension);
    assert(name.take(stem.len() as int) =~= stem);
    lemma_last_of_at(seq![], '.', extension);
    assert(Seq::<char>::empty().push('.') + extension =~= seq!['.'] + extension);
}

/// An ordinary path reads alike on all systems.
pub proof fn law_ordinary_paths_read_alike(path: Seq<char>)
    requires
        !path.contains('\\'),
        path.len() >= 2 ==> path[1] != ':' && !(path[0] == '/' && path[1] == '/'),
    ensures
        reads_alike(path),
{
}

/// A file is offered exactly if what follows the last dot of its name is `wav`
/// or `wave`, in whatever mix of small letters and capitals, and whatever
/// directory it is in.
pub proof fn law_offered_files(
    directory: Seq<char>,
    stem: Seq<char>,
    extension: Seq<char>,
    yes: bool,
)
    requires
        decided_by_extension(directory + seq!['/'] + (stem + seq!['.'] + extension), yes),
        reads_alike(directory + seq!['/'] + (stem + seq!['.'] + extension)),
        stem.len() > 0,
        extension.len() > 0,
        !stem.contains('/'),
        !extension.contains('/'),
        !extension.contains('.'),
        text::all_ascii(extension),
    ensures
        yes <==> {
            &&& extension.len() == 3 || extension.len() == 4
            &&& extension[0] == 'w' || extension[0] == 'W'
            &&& extension[1] == 'a' || extension[1] == 'A'
            &&& extension[2] == 'v' || extension[2] == 'V'
            &&& extension.len() == 4 ==> extension[3] == 'e' || extension[3] == 'E'
        },
{
    let name = stem + seq!['.'] + extension;
    assert(name.len() >= 3);
    assert(seq!['.'].len() == 1 && seq!['.', '.'].len() == 2);
    assert forall|i: int| 0 <= i < name.len() implies name[i] != '/' by {
        if i < stem.len() {
            assert(stem.contains(stem[i]));
        } else if i > stem.len() {
            assert(extension.contains(extension[i - stem.len() - 1]));
        }
    }
    law_a_path_ends_in_its_name(directory, name);
    law_a_name_ends_in_its_extension(stem, extension);
    law_offered_extensions(extension);
}

/// Among ASCII extensions exactly `wav` and `wave` are offered, in whatever mix
/// of small letters and capitals.
pub proof fn law_offered_extensions(extension: Seq<char>)
    requires
        text::all_ascii(extension),
    ensures
        ascii_ir_extension(extension) <==> {
            &&& extension.len() == 3 || extension.len() == 4
            &&& extension[0] == 'w' || extension[0] == 'W'
            &&& extension[1] == 'a' || extension[1] == 'A'
            &&& extension[2] == 'v' || extension[2] == 'V'
            &&& extension.len() == 4 ==> extension[3] == 'e' || extension[3] == 'E'
        },
{
    reveal_strlit("wav");
    reveal_strlit("wave");
    let lowered = extension.map_values(|c: char| text::ascii_lower(c));
    assert(lowered.len() == extension.len());
    assert forall|i: int| 0 <= i < extension.len() implies {
        let c = extension[i];
        &&& #[trigger] lowered[i] == 'w' <==> c == 'w' || c == 'W'
        &&& lowered[i] == 'a' <==> c == 'a' || c == 'A'
        &&& lowered[i] == 'v' <==> c == 'v' || c == 'V'
        &&& lowered[i] == 'e' <==> c == 'e' || c == 'E'
    } by {
        lemma_small_letter(extension[i]);
    }
    if extension.len() == 3 {
        if lowered[0] == 'w' && lowered[1] == 'a' && lowered[2] == 'v' {
            assert(lowered =~= "wav"@);
        }
    } else if extension.len() == 4 {
        if lowered[0] == 'w' && lowered[1] == 'a' && lowered[2] == 'v' && lowered[3] == 'e' {
            assert(lowered =~= "wave"@);
        }
    }
}

/// Which letters have the small forms of an offered extension.
proof fn lemma_small_letter(c: char)
    requires
        (c as int) < 0x80,
    ensures
        text::ascii_lower(c) == 'w' <==> c == 'w' || c == 'W',
        text::ascii_lower(c) == 'a' <==> c == 'a' || c == 'A',
        text::ascii_lower(c) == 'v' <==> c == 'v' || c == 'V',
        text::ascii_lower(c) == 'e' <==> c == 'e' || c == 'E',
{
    if 'A' <= c && c <= 'Z' {
        assert(text::ascii_lower(c) as int == c as int + 32);
    }
}

// ---------------------------------------------------------------------------
// The browser's list
// ---------------------------------------------------------------------------

/// `std::path::PathBuf`, carried through unread.
#[verifier::external_type_specification]
#[verifier::external_body]
pub struct ExPathBuf(std::path::PathBuf);

/// `PathBuf::clone`: the copy is the same path.
pub assume_specification[ <std::path::PathBuf as Clone>::clone ](
    path: &std::path::PathBuf,
) -> (copy: std::path::PathBuf)
    ensures
        copy == *path,
;

/// One entry of a directory as the file system reports it.
pub struct FoundEntry {
    /// Its name, where the name is text.
    pub name: Option<String>,
    /// Where it is.
    pub path: PathBuf,
    /// Whether it is a directory, where that could be read.
    pub is_directory: Option<bool>,
}

/// One row of the editor's file browser.
#[derive(Debug, Clone, PartialEq, Eq)]
pub struct DirectoryEntry {
    /// Text shown in the list.
    pub label: String,
    /// Where selecting the row leads.
    pub path: PathBuf,
    /// Whether selecting it navigates rather than loads.
    pub is_directory: bool,
}

/// Whether an entry is shown as a directory (`is_directory`) or can be shown
/// as a file (otherwise): its name is text and not hidden, and its kind is
/// known.
pub open spec fn visible_as(entry: FoundEntry, is_directory: bool) -> bool {
    &&& entry.name is Some
    &&& entry.name->0@.len() > 0 ==> entry.name->0@[0] != '.'
    &&& entry.is_directory == Some(is_directory)
}

/// The row for an entry.
pub open spec fn row(entry: FoundEntry) -> DirectoryEntry {
    DirectoryEntry {
        label: entry.name->0,
        path: entry.path,
        is_directory: entry.is_directory->0,
    }
}

/// Rows for the directories among `found`.
pub open spec fn directory_rows(found: Seq<FoundEntry>) -> Seq<DirectoryEntry>
    decreases found.len(),
{
    if found.len() == 0 {
        seq![]
    } else if visible_as(found.last(), true) {
        directory_rows(found.drop_last()).push(row(found.last()))
    } else {
        directory_rows(found.drop_last())
    }
}

/// Rows for the loadable files among `found`.
pub open spec fn file_rows(found: Seq<FoundEntry>, loadable: Seq<bool>) -> Seq<DirectoryEntry>
    decreases found.len(),
{
    if found.len() == 0 {
        seq![]
    } else if visible_as(found.last(), false) && loadable[found.len() - 1] {
        file_rows(found.drop_last(), loadable).push(row(found.last()))
    } else {
        file_rows(found.drop_last(), loadable)
    }
}

/// Order of the rows: by the text in small letters, and by the text itself
/// where those agree.
pub open spec fn label_precedes(left: Seq<char>, right: Seq<char>) -> bool {
    let small_left = text::lowercase_text(left);
    let small_right = text::lowercase_text(right);
    text::precedes(small_left, small_right) || (small_left == small_right && text::precedes(
        left,
        right,
    ))
}

/// The rows of `rows` labelled `label`, in their order.
pub open spec fn labelled(rows: Seq<DirectoryEntry>, label: Seq<char>) -> Seq<DirectoryEntry>
    decreases rows.len(),
{
    if rows.len() == 0 {
        seq![]
    } else if rows.last().label@ == label {
        labelled(rows.drop_last(), label).push(rows.last())
    } else {
        labelled(rows.drop_last(), label)
    }
}

/// Whether no row precedes an earlier one.
pub open spec fn in_order(rows: Seq<DirectoryEntry>) -> bool {
    forall|i: int, j: int|
        0 <= i < j < rows.len() ==> !label_precedes(#[trigger] rows[j].label@, #[trigger] rows[i].label@)
}

/// Whether `sorted` is `rows` put in order, rows of one label staying in the
/// order they had.
pub open spec fn is_sorting_of(rows: Seq<DirectoryEntry>, sorted: Seq<DirectoryEntry>) -> bool {
    &&& in_order(sorted)
    &&& forall|label: Seq<char>| #[trigger] labelled(sorted, label) == labelled(rows, label)
}

/// Whether `rows` is the list shown for `found`: the directories in order, and
/// behind them the loadable files in order.
pub open spec fn is_listing(
    found: Seq<FoundEntry>,
    loadable: Seq<bool>,
    rows: Seq<DirectoryEntry>,
) -> bool {
    exists|directories: Seq<DirectoryEntry>, files: Seq<DirectoryEntry>|
        {
            &&& #[trigger] is_sorting_of(directory_rows(found), directories)
            &&& #[trigger] is_sorting_of(file_rows(found, loadable), files)
            &&& rows == directories + files
        }
}

/// Whether `loadable` says of each entry what the extension in its name says.
pub open spec fn decided_by_name(found: Seq<FoundEntry>, loadable: Seq<bool>) -> bool {
    &&& loadable.len() == found.len()
    &&& forall|i: int|
        0 <= i < found.len() && found[i].name is Some ==> decided_by_extension(
            found[i].name->0@,
            #[trigger] loadable[i],
        )
}

/// Whether `rows` is the list shown for `found`.
pub open spec fn is_listing_by_name(found: Seq<FoundEntry>, rows: Seq<DirectoryEntry>) -> bool {
    exists|loadable: Seq<bool>|
        decided_by_name(found, loadable) && #[trigger] is_listing(found, loadable, rows)
}

/// A label with small letters in place of ASCII capitals.
pub open spec fn small(label: Seq<char>) -> Seq<char> {
    label.map_values(|c: char| text::ascii_lower(c))
}

/// Whether the small form of a label, if it is ASCII, is its small letters.
pub open spec fn folds(label: Seq<char>) -> bool {
    text::all_ascii(label) ==> text::lowercase_text(label) == small(label)
}

/// Whether all labels fold, where there is more than one.
pub open spec fn all_fold(rows: Seq<DirectoryEntry>) -> bool {
    rows.len() >= 2 ==> forall|i: int| 0 <= i < rows.len() ==> folds(#[trigger] rows[i].label@)
}

/// Whether ASCII labels of one kind stand in the order of their small letters.
pub open spec fn ascii_in_order(rows: Seq<DirectoryEntry>) -> bool {
    forall|i: int, j: int|
        0 <= i < j < rows.len() && rows[i].is_directory == rows[j].is_directory && text::all_ascii(
            rows[i].label@,
        ) && text::all_ascii(rows[j].label@) ==> !text::precedes(
            small(#[trigger] rows[j].label@),
            small(#[trigger] rows[i].label@),
        ) && (small(rows[i].label@) == small(rows[j].label@) ==> !text::precedes(
            rows[j].label@,
            rows[i].label@,
        ))
}

/// Compares two labels as the list orders them.
fn label_comes_before(left: &str, right: &str) -> (yes: bool)
    ensures
        yes == label_precedes(left@, right@),
        folds(left@),
        folds(right@),
{
    let small_left: String = lowercase(left);
    let small_right: String = lowercase(right);
    if same(small_left.as_str(), small_right.as_str()) {
        proof {
            text::lemma_precedes_total(small_left@, small_right@);
        }
        comes_before(left, right)
    } else {
        comes_before(small_left.as_str(), small_right.as_str())
    }
}

/// The order of labels is total and transitive.
proof fn lemma_label_order(a: Seq<char>, b: Seq<char>, c: Seq<char>)
    ensures
        label_precedes(a, b) ==> !label_precedes(b, a),
        label_precedes(a, b) ==> a != b,
        label_precedes(a, b) && !label_precedes(c, b) ==> label_precedes(a, c),
{
    let la = text::lowercase_text(a);
    let lb = text::lowercase_text(b);
    let lc = text::lowercase_text(c);
    text::lemma_precedes_total(a, b);
    text::lemma_precedes_total(la, lb);
    text::lemma_precedes_total(b, c);
    text::lemma_precedes_total(lb, lc);
    if text::precedes(a, b) && text::precedes(b, c) {
        text::lemma_precedes_transitive(a, b, c);
    }
    if text::precedes(la, lb) && text::precedes(lb, lc) {
        text::lemma_precedes_transitive(la, lb, lc);
    }
}

/// Selecting a label distributes over concatenation.
proof fn lemma_labelled_add(a: Seq<DirectoryEntry>, b: Seq<DirectoryEntry>, label: Seq<char>)
    ensures
        labelled(a + b, label) == labelled(a, label) + labelled(b, label),
    decreases b.len(),
{
    if b.len() == 0 {
        assert(a + b =~= a);
        assert(labelled(a, label) + labelled(b, label) =~= labelled(a, label));
    } else {
        assert((a + b).drop_last() =~= a + b.drop_last());
        lemma_labelled_add(a, b.drop_last(), label);
        assert(labelled(a + b, label) =~= labelled(a, label) + labelled(b, label));
    }
}

/// Where no row has a label, selecting it gives nothing.
proof fn lemma_labelled_none(rows: Seq<DirectoryEntry>, label: Seq<char>)
    requires
        forall|i: int| 0 <= i < rows.len() ==> (#[trigger] rows[i]).label@ != label,
    ensures
        labelled(rows, label) == Seq::<DirectoryEntry>::empty(),
    decreases rows.len(),
{
    if rows.len() > 0 {
        let shorter = rows.drop_last();
        assert forall|i: int| 0 <= i < shorter.len() implies (#[trigger] shorter[i]).label@
            != label by {
            assert(shorter[i] == rows[i]);
        }
        lemma_labelled_none(shorter, label);
    }
}

/// Puts a row behind every row that does not come after it.
fn insert_row(rows: &mut Vec<DirectoryEntry>, entry: DirectoryEntry, Ghost(before): Ghost<
    Seq<DirectoryEntry>,
>)
    requires
        is_sorting_of(before, old(rows)@),
        all_fold(old(rows)@),
    ensures
        is_sorting_of(before.push(entry), final(rows)@),
        all_fold(final(rows)@),
        exists|at: int|
            0 <= at <= old(rows)@.len() && final(rows)@ == #[trigger] old(rows)@.insert(at, entry),
{
    let ghost start = rows@;
    let mut at: usize = 0;
    while at < rows.len() && !label_comes_before(entry.label.as_str(), rows[at].label.as_str())
        invariant
            at <= rows@.len(),
            rows@ == start,
            forall|i: int|
                0 <= i < at ==> !label_precedes(entry.label@, #[trigger] rows@[i].label@),
            at > 0 ==> folds(entry.label@) && folds(rows@[0].label@),
        decreases rows@.len() - at,
    {
        at = at + 1;
    }
    assert(start.len() > 0 ==> folds(entry.label@) && folds(start[0].label@));
    rows.insert(at, entry);
    proof {
        let sorted = rows@;
        assert(sorted == start.insert(at as int, entry));
        assert forall|i: int| start.len() > 0 && 0 <= i < sorted.len() implies folds(
            #[trigger] sorted[i].label@,
        ) by {
            if i < at {
                assert(sorted[i] == start[i]);
            } else if i > at {
                assert(sorted[i] == start[i - 1]);
            }
        }
        let head = start.take(at as int);
        let tail = start.skip(at as int);
        assert(start =~= head + tail);
        assert(sorted =~= head + seq![entry] + tail);
        assert forall|j: int| 0 <= j < tail.len() implies label_precedes(
            entry.label@,
            (#[trigger] tail[j]).label@,
        ) by {
            assert(tail[j] == start[at + j]);
            assert(label_precedes(entry.label@, start[at as int].label@));
            if j > 0 {
                assert(!label_precedes(start[at + j].label@, start[at as int].label@));
                lemma_label_order(entry.label@, start[at as int].label@, start[at + j].label@);
            }
        }
        assert forall|i: int, j: int| 0 <= i < j < sorted.len() implies !label_precedes(
            #[trigger] sorted[j].label@,
            #[trigger] sorted[i].label@,
        ) by {
            if i < at && j < at {
                assert(sorted[i] == start[i] && sorted[j] == start[j]);
            } else if i < at && j == at {
                assert(sorted[i] == start[i] && sorted[j] == entry);
            } else if i < at {
                assert(sorted[i] == start[i] && sorted[j] == start[j - 1]);
            } else if i == at {
                assert(sorted[i] == entry && sorted[j] == tail[j - 1 - at]);
                lemma_label_order(entry.label@, tail[j - 1 - at].label@, entry.label@);
            } else {
                assert(sorted[i] == start[i - 1] && sorted[j] == start[j - 1]);
            }
        }
        assert forall|label: Seq<char>| #[trigger]
            labelled(sorted, label) == labelled(before.push(entry), label) by {
            assert(labelled(start, label) == labelled(before, label));
            lemma_labelled_add(head, tail, label);
            lemma_labelled_add(head + seq![entry], tail, label);
            lemma_labelled_add(head, seq![entry], label);
            assert(before.push(entry).drop_last() =~= before);
            reveal_with_fuel(labelled, 2);
            if label == entry.label@ {
                assert forall|j: int| 0 <= j < tail.len() implies (#[trigger] tail[j]).label@
                    != label by {
                    lemma_label_order(entry.label@, tail[j].label@, entry.label@);
                }
                lemma_labelled_none(tail, label);
                assert(labelled(seq![entry], label) =~= seq![entry]);
                assert(labelled(sorted, label) =~= labelled(head, label).push(entry));
                assert(labelled(start, label) =~= labelled(head, label));
            } else {
                assert(labelled(seq![entry], label) =~= seq![]);
                assert(labelled(sorted, label) =~= labelled(head, label) + labelled(tail, label));
            }
        }
    }
}

/// Lists `found`, with what is loadable among it already decided.
pub fn arrange(found: Vec<FoundEntry>, loadable: &[bool]) -> (rows: Vec<DirectoryEntry>)
    requires
        found@.len() == loadable@.len(),
    ensures
        is_listing(found@, loadable@, rows@),
        ascii_in_order(rows@),
{
    let ghost all = found@;
    let mut left: Vec<FoundEntry> = found;
    let mut directories: Vec<DirectoryEntry> = Vec::new();
    let mut files: Vec<DirectoryEntry> = Vec::new();
    let mut done: usize = 0;
    assert(all.take(0) =~= seq![]);
    while left.len() > 0
        invariant
            all.len() == loadable@.len(),
            done + left@.len() == all.len(),
            left@ == all.skip(done as int),
            is_sorting_of(directory_rows(all.take(done as int)), directories@),
            is_sorting_of(file_rows(all.take(done as int), loadable@), files@),
            all_fold(directories@),
            all_fold(files@),
            forall|k: int| 0 <= k < directories@.len() ==> (#[trigger] directories@[k]).is_directory,
            forall|k: int| 0 <= k < files@.len() ==> !(#[trigger] files@[k]).is_directory,
        decreases left@.len(),
    {
        let entry: FoundEntry = left.remove(0);
        let ghost before = all.take(done as int);
        let ghost after = all.take(done + 1);
        proof {
            assert(entry == all[done as int]);
            assert(after.drop_last() =~= before);
            assert(after.last() == entry);
            assert(left@ =~= all.skip(done + 1));
        }
        let offered: bool = loadable[done];
        done = done + 1;
        if let Some(label) = entry.name {
            if label.as_str().unicode_len() == 0 || label.as_str().get_char(0) != '.' {
                if let Some(is_directory) = entry.is_directory {
                    let entry_row: DirectoryEntry = DirectoryEntry {
                        label,
                        path: entry.path,
                        is_directory,
                    };
                    if is_directory {
                        insert_row(&mut directories, entry_row, Ghost(directory_rows(before)));
                    } else if offered {
                        insert_row(&mut files, entry_row, Ghost(file_rows(before, loadable@)));
                    }
                }
            }
        }
    }
    assert(all.take(done as int) =~= all);
    let ghost sorted_directories = directories@;
    let ghost sorted_files = files@;
    directories.append(&mut files);
    assert(directories@ == sorted_directories + sorted_files);
    proof {
        let rows = directories@;
        assert(is_listing(all, loadable@, rows));
        assert forall|i: int, j: int|
            0 <= i < j < rows.len() && rows[i].is_directory == rows[j].is_directory
                && text::all_ascii(rows[i].label@) && text::all_ascii(
                rows[j].label@,
            ) implies !text::precedes(
            small(#[trigger] rows[j].label@),
            small(#[trigger] rows[i].label@),
        ) && (small(rows[i].label@) == small(rows[j].label@) ==> !text::precedes(
            rows[j].label@,
            rows[i].label@,
        )) by {
            law_directories_come_first(all, loadable@, rows, i, j);
            let cut = sorted_directories.len();
            if j < cut {
                assert(rows[i] == sorted_directories[i] && rows[j] == sorted_directories[j]);
            } else if i >= cut {
                assert(rows[i] == sorted_files[i - cut] && rows[j] == sorted_files[j - cut]);
            } else {
                assert(rows[i] == sorted_directories[i] && rows[j] == sorted_files[j - cut]);
            }
            assert(folds(rows[i].label@) && folds(rows[j].label@));
        }
    }
    directories
}

/// Lists a directory, keeping sub-directories and WAV files.
///
/// Directories sort before files and both sort case-insensitively, so the list
/// does not reorder itself between platforms. Entries that could not be read
/// are skipped rather than failing the whole listing. `reading` is what reading
/// the directory gave, or the reason it could not be read.
pub fn list_directory(reading: Result<Vec<FoundEntry>, String>) -> (result: Result<
    Vec<DirectoryEntry>,
    IrError,
>)
    ensures
        match (reading, result) {
            (Ok(found), Ok(rows)) => is_listing_by_name(found@, rows@) && ascii_in_order(rows@),
            (Err(message), Err(error)) => error == IrError::Io(message),
            _ => false,
        },
{
    let found: Vec<FoundEntry> = match reading {
        Ok(found) => found,
        Err(message) => return Err(IrError::Io(message)),
    };
    let mut loadable: Vec<bool> = Vec::new();
    let mut i: usize = 0;
    while i < found.len()
        invariant
            reading == Ok::<Vec<FoundEntry>, String>(found),
            i <= found@.len(),
            loadable@.len() == i,
            decided_by_name(found@.take(i as int), loadable@),
        decreases found@.len() - i,
    {
        let offered: bool = match &found[i].name {
            Some(name) => has_ir_extension(name.as_str()),
            None => false,
        };
        loadable.push(offered);
        i = i + 1;
    }
    assert(found@.take(i as int) =~= found@);
    let ghost all = found@;
    let rows: Vec<DirectoryEntry> = arrange(found, loadable.as_slice());
    assert(is_listing(all, loadable@, rows@));
    assert(is_listing_by_name(all, rows@));
    Ok(rows)
}

/// Every row found by its label was there to begin with.
proof fn lemma_labelled_members(rows: Seq<DirectoryEntry>, label: Seq<char>, entry: DirectoryEntry)
    ensures
        labelled(rows, label).contains(entry) <==> rows.contains(entry) && entry.label@ == label,
    decreases rows.len(),
{
    if rows.len() > 0 {
        let shorter = rows.drop_last();
        let last = rows.last();
        lemma_labelled_members(shorter, label, entry);
        if rows.contains(entry) {
            let i = choose|i: int| 0 <= i < rows.len() && rows[i] == entry;
            if i < shorter.len() {
                assert(shorter[i] == entry);
            }
        }
        if shorter.contains(entry) {
            let i = choose|i: int| 0 <= i < shorter.len() && shorter[i] == entry;
            assert(rows[i] == entry);
        }
        assert(rows[rows.len() - 1] == last);
        let kept = labelled(shorter, label);
        if last.label@ == label {
            let more = kept.push(last);
            assert(more[kept.len() as int] == last);
            if kept.contains(entry) {
                let i = choose|i: int| 0 <= i < kept.len() && kept[i] == entry;
                assert(more[i] == entry);
            }
            if more.contains(entry) {
                let i = choose|i: int| 0 <= i < more.len() && more[i] == entry;
                if i < kept.len() {
                    assert(kept[i] == entry);
                }
            }
        }
    }
}

/// Sorting neither loses nor invents a row.
proof fn lemma_sorting_members(
    rows: Seq<DirectoryEntry>,
    sorted: Seq<DirectoryEntry>,
    entry: DirectoryEntry,
)
    requires
        is_sorting_of(rows, sorted),
    ensures
        sorted.contains(entry) <==> rows.contains(entry),
{
    assert(labelled(sorted, entry.label@) == labelled(rows, entry.label@));
    lemma_labelled_members(rows, entry.label@, entry);
    lemma_labelled_members(sorted, entry.label@, entry);
}

/// What the rows for directories and files stem from.
proof fn lemma_rows_found(found: Seq<FoundEntry>, loadable: Seq<bool>, entry: DirectoryEntry)
    requires
        found.len() <= loadable.len(),
    ensures
        directory_rows(found).contains(entry) <==> exists|i: int|
            0 <= i < found.len() && visible_as(found[i], true) && entry == #[trigger] row(found[i]),
        file_rows(found, loadable).contains(entry) <==> exists|i: int|
            0 <= i < found.len() && visible_as(found[i], false) && loadable[i] && entry
                == #[trigger] row(found[i]),
    decreases found.len(),
{
    if found.len() > 0 {
        let shorter = found.drop_last();
        let last = found.len() - 1;
        lemma_rows_found(shorter, loadable, entry);
        assert(forall|i: int| 0 <= i < shorter.len() ==> shorter[i] == found[i]);
        let directories = directory_rows(shorter);
        let files = file_rows(shorter, loadable);
        if directories.contains(entry) {
            let i = choose|i: int|
                0 <= i < shorter.len() && visible_as(shorter[i], true) && entry == row(shorter[i]);
            assert(entry == row(found[i]));
            let k = choose|k: int| 0 <= k < directories.len() && directories[k] == entry;
            assert(directories.push(row(found[last]))[k] == entry);
        }
        if files.contains(entry) {
            let i = choose|i: int|
                0 <= i < shorter.len() && visible_as(shorter[i], false) && loadable[i] && entry
                    == row(shorter[i]);
            assert(entry == row(found[i]));
            let k = choose|k: int| 0 <= k < files.len() && files[k] == entry;
            assert(files.push(row(found[last]))[k] == entry);
        }
        assert(directories.push(row(found[last]))[directories.len() as int] == row(found[last]));
        assert(files.push(row(found[last]))[files.len() as int] == row(found[last]));
        assert forall|i: int|
            0 <= i < shorter.len() && entry == #[trigger] row(found[i]) implies entry == row(
            shorter[i],
        ) by {}
    }
}

/// A row is shown exactly where its entry is a visible directory or a visible,
/// loadable file: nothing hidden, unreadable or unloadable, and nothing left
/// out.
pub proof fn law_listing_is_complete(
    found: Seq<FoundEntry>,
    loadable: Seq<bool>,
    rows: Seq<DirectoryEntry>,
    entry: DirectoryEntry,
)
    requires
        found.len() == loadable.len(),
        is_listing(found, loadable, rows),
    ensures
        rows.contains(entry) <==> exists|i: int|
            0 <= i < found.len() && (visible_as(found[i], true) || (visible_as(found[i], false)
                && loadable[i])) && entry == #[trigger] row(found[i]),
{
    let (directories, files) = choose|directories: Seq<DirectoryEntry>, files: Seq<DirectoryEntry>|
        {
            &&& #[trigger] is_sorting_of(directory_rows(found), directories)
            &&& #[trigger] is_sorting_of(file_rows(found, loadable), files)
            &&& rows == directories + files
        };
    lemma_rows_found(found, loadable, entry);
    lemma_sorting_members(directory_rows(found), directories, entry);
    lemma_sorting_members(file_rows(found, loadable), files, entry);
    if directories.contains(entry) {
        let i = choose|i: int| 0 <= i < directories.len() && directories[i] == entry;
        assert(rows[i] == entry);
    }
    if files.contains(entry) {
        let i = choose|i: int| 0 <= i < files.len() && files[i] == entry;
        assert(rows[directories.len() + i] == entry);
    }
    if rows.contains(entry) {
        let i = choose|i: int| 0 <= i < rows.len() && rows[i] == entry;
        if i < directories.len() {
            assert(directories[i] == entry);
        } else {
            assert(files[i - directories.len()] == entry);
        }
    }
}

/// What is listed, entry by entry: a directory or a loadable file whose name is
/// text and does not begin with a dot, under that name and at its path. Nothing
/// else is.
pub proof fn law_rows_show_what_was_found(
    found: Seq<FoundEntry>,
    loadable: Seq<bool>,
    rows: Seq<DirectoryEntry>,
    i: int,
)
    requires
        found.len() == loadable.len(),
        is_listing(found, loadable, rows),
    ensures
        0 <= i < found.len() && found[i].name is Some && !(found[i].name->0@.len() > 0
            && found[i].name->0@[0] == '.') && (found[i].is_directory == Some(true) || (
        found[i].is_directory == Some(false) && loadable[i])) ==> exists|k: int|
            {
                &&& 0 <= k < rows.len()
                &&& (#[trigger] rows[k]).label == found[i].name->0
                &&& rows[k].path == found[i].path
                &&& rows[k].is_directory == found[i].is_directory->0
            },
        0 <= i < rows.len() ==> exists|k: int|
            {
                &&& 0 <= k < found.len()
                &&& (#[trigger] found[k]).name == Some(rows[i].label)
                &&& found[k].path == rows[i].path
                &&& found[k].is_directory == Some(rows[i].is_directory)
                &&& !(rows[i].label@.len() > 0 && rows[i].label@[0] == '.')
                &&& rows[i].is_directory || loadable[k]
            },
{
    if 0 <= i < found.len() && (visible_as(found[i], true) || (visible_as(found[i], false)
        && loadable[i])) {
        let entry = row(found[i]);
        law_listing_is_complete(found, loadable, rows, entry);
        assert(rows.contains(entry));
        let k = choose|k: int| 0 <= k < rows.len() && rows[k] == entry;
        assert(rows[k].label == found[i].name->0);
    }
    if 0 <= i < rows.len() {
        let entry = rows[i];
        law_listing_is_complete(found, loadable, rows, entry);
        assert(rows.contains(entry));
        let k = choose|k: int|
            0 <= k < found.len() && (visible_as(found[k], true) || (visible_as(found[k], false)
                && loadable[k])) && entry == #[trigger] row(found[k]);
        assert(found[k].name == Some(entry.label));
    }
}

/// Where a label was last seen.
proof fn lemma_last_labelled(rows: Seq<DirectoryEntry>, label: Seq<char>) -> (k: int)
    requires
        labelled(rows, label).len() > 0,
    ensures
        0 <= k < rows.len(),
        rows[k].label@ == label,
        forall|j: int| k < j < rows.len() ==> (#[trigger] rows[j]).label@ != label,
    decreases rows.len(),
{
    if rows.last().label@ == label {
        rows.len() - 1
    } else {
        let k = lemma_last_labelled(rows.drop_last(), label);
        assert forall|j: int| k < j < rows.len() implies (#[trigger] rows[j]).label@ != label by {
            if j < rows.len() - 1 {
                assert(rows.drop_last()[j] == rows[j]);
            }
        }
        k
    }
}

/// Rows that agree label by label are as many.
proof fn lemma_as_many(a: Seq<DirectoryEntry>, b: Seq<DirectoryEntry>)
    requires
        forall|label: Seq<char>| #[trigger] labelled(a, label) == labelled(b, label),
    ensures
        a.len() == b.len(),
    decreases a.len(),
{
    if a.len() == 0 {
        if b.len() > 0 {
            assert(labelled(a, b.last().label@) == labelled(b, b.last().label@));
        }
    } else {
        let label = a.last().label@;
        assert(labelled(a, label) == labelled(b, label));
        let k = lemma_last_labelled(b, label);
        let head = b.take(k);
        let entry = b[k];
        let tail = b.skip(k + 1);
        let rest = head + tail;
        assert(b =~= head + seq![entry] + tail);
        assert forall|other: Seq<char>| #[trigger]
            labelled(a.drop_last(), other) == labelled(rest, other) by {
            assert(labelled(a, other) == labelled(b, other));
            lemma_labelled_add(head + seq![entry], tail, other);
            lemma_labelled_add(head, seq![entry], other);
            lemma_labelled_add(head, tail, other);
            reveal_with_fuel(labelled, 2);
            assert(seq![entry].drop_last() =~= Seq::<DirectoryEntry>::empty());
            if other == label {
                assert forall|j: int| 0 <= j < tail.len() implies (#[trigger] tail[j]).label@
                    != label by {
                    assert(tail[j] == b[k + 1 + j]);
                }
                lemma_labelled_none(tail, label);
                assert(labelled(b, label) =~= labelled(head, label).push(entry));
                assert(labelled(rest, label) =~= labelled(head, label));
                assert(labelled(a, label).drop_last() =~= labelled(a.drop_last(), label));
                assert(labelled(b, label).drop_last() =~= labelled(head, label));
            } else {
                assert(labelled(seq![entry], other) =~= Seq::<DirectoryEntry>::empty());
                assert(labelled(b, other) =~= labelled(head, other) + labelled(tail, other));
            }
        }
        lemma_as_many(a.drop_last(), rest);
    }
}

/// Nothing is listed twice: there are as many rows as entries to list, and each
/// further entry found makes one more row if it is a directory or a loadable
/// file with a name that is text and does not begin with a dot, and none
/// otherwise.
pub proof fn law_every_entry_makes_one_row(
    found: Seq<FoundEntry>,
    entry: FoundEntry,
    loadable: Seq<bool>,
    fewer: Seq<DirectoryEntry>,
    rows: Seq<DirectoryEntry>,
)
    requires
        loadable.len() == found.len() + 1,
        is_listing(found, loadable, fewer),
        is_listing(found.push(entry), loadable, rows),
    ensures
        rows.len() - fewer.len() == if entry.name is Some && !(entry.name->0@.len() > 0
            && entry.name->0@[0] == '.') && (entry.is_directory == Some(true) || (
        entry.is_directory == Some(false) && loadable.last())) {
            1int
        } else {
            0
        },
        is_listing(Seq::<FoundEntry>::empty(), loadable, seq![]),
{
    let more = found.push(entry);
    let (d1, f1) = choose|directories: Seq<DirectoryEntry>, files: Seq<DirectoryEntry>|
        {
            &&& #[trigger] is_sorting_of(directory_rows(found), directories)
            &&& #[trigger] is_sorting_of(file_rows(found, loadable), files)
            &&& fewer == directories + files
        };
    let (d2, f2) = choose|directories: Seq<DirectoryEntry>, files: Seq<DirectoryEntry>|
        {
            &&& #[trigger] is_sorting_of(directory_rows(more), directories)
            &&& #[trigger] is_sorting_of(file_rows(more, loadable), files)
            &&& rows == directories + files
        };
    lemma_as_many(d1, directory_rows(found));
    lemma_as_many(f1, file_rows(found, loadable));
    lemma_as_many(d2, directory_rows(more));
    lemma_as_many(f2, file_rows(more, loadable));
    assert(more.drop_last() =~= found);
    assert(more.last() == entry);
    let none = Seq::<FoundEntry>::empty();
    let nothing = Seq::<DirectoryEntry>::empty();
    assert(is_sorting_of(directory_rows(none), nothing));
    assert(is_sorting_of(file_rows(none, loadable), nothing));
    assert(nothing + nothing =~= nothing);
}

/// Directories come before files, and within each kind no row precedes an
/// earlier one.
pub proof fn law_directories_come_first(
    found: Seq<FoundEntry>,
    loadable: Seq<bool>,
    rows: Seq<DirectoryEntry>,
    i: int,
    j: int,
)
    requires
        found.len() == loadable.len(),
        is_listing(found, loadable, rows),
        0 <= i < j < rows.len(),
    ensures
        rows[j].is_directory ==> rows[i].is_directory,
        rows[i].is_directory == rows[j].is_directory ==> !label_precedes(
            rows[j].label@,
            rows[i].label@,
        ),
{
    let (directories, files) = choose|directories: Seq<DirectoryEntry>, files: Seq<DirectoryEntry>|
        {
            &&& #[trigger] is_sorting_of(directory_rows(found), directories)
            &&& #[trigger] is_sorting_of(file_rows(found, loadable), files)
            &&& rows == directories + files
        };
    assert forall|k: int| 0 <= k < rows.len() implies (#[trigger] rows[k]).is_directory == (k
        < directories.len()) by {
        lemma_rows_found(found, loadable, rows[k]);
        lemma_sorting_members(directory_rows(found), directories, rows[k]);
        lemma_sorting_members(file_rows(found, loadable), files, rows[k]);
        if k < directories.len() {
            assert(directories[k] == rows[k]);
            assert(directories.contains(rows[k]));
        } else {
            assert(files[k - directories.len()] == rows[k]);
            assert(files.contains(rows[k]));
        }
    }
    if j < directories.len() {
        assert(rows[i] == directories[i] && rows[j] == directories[j]);
    } else if i >= directories.len() {
        assert(rows[i] == files[i - directories.len()]);
        assert(rows[j] == files[j - directories.len()]);
    }
}

// ---------------------------------------------------------------------------
// Where the browser opens
// ---------------------------------------------------------------------------

/// A directory the browser might open at.
pub struct Candidate {
    /// The path.
    pub path: PathBuf,
    /// Whether a directory is there.
    pub is_directory: bool,
}

/// The first of `candidates` that is a directory, or else `fallback`.
pub open spec fn first_directory(candidates: Seq<Candidate>, fallback: PathBuf) -> PathBuf
    decreases candidates.len(),
{
    if candidates.len() == 0 {
        fallback
    } else if candidates[0].is_directory {
        candidates[0].path
    } else {
        first_directory(candidates.drop_first(), fallback)
    }
}

/// The first directory is the one with none before it, and the fallback serves
/// where there is none at all.
pub proof fn law_the_first_directory_is_found(
    candidates: Seq<Candidate>,
    fallback: PathBuf,
    i: int,
)
    ensures
        0 <= i < candidates.len() && candidates[i].is_directory && (forall|k: int|
            0 <= k < i ==> !(#[trigger] candidates[k]).is_directory) ==> first_directory(
            candidates,
            fallback,
        ) == candidates[i].path,
        (forall|k: int| 0 <= k < candidates.len() ==> !(#[trigger] candidates[k]).is_directory)
            ==> first_directory(candidates, fallback) == fallback,
    decreases candidates.len(),
{
    if candidates.len() > 0 {
        let rest = candidates.drop_first();
        law_the_first_directory_is_found(rest, fallback, i - 1);
        assert(forall|k: int| 0 <= k < rest.len() ==> rest[k] == candidates[k + 1]);
        if forall|k: int| 0 <= k < candidates.len() ==> !(#[trigger] candidates[k]).is_directory {
            assert(!candidates[0].is_directory);
        }
        if 0 < i < candidates.len() && (forall|k: int|
            0 <= k < i ==> !(#[trigger] candidates[k]).is_directory) {
            assert(!candidates[0].is_directory);
            assert(rest[i - 1] == candidates[i]);
            assert forall|k: int| 0 <= k < i - 1 implies !(#[trigger] rest[k]).is_directory by {
                assert(rest[k] == candidates[k + 1]);
            }
        }
    }
}

/// Directory the browser should open at.
///
/// Prefers the folder of the response already loaded, so reopening the browser
/// lands where the user last was; otherwise the first home directory that
/// exists, and finally `working`. `parent` is the folder of `current`, where
/// it has one.
pub fn starting_directory(
    current: &str,
    parent: Option<Candidate>,
    homes: Vec<Candidate>,
    working: PathBuf,
) -> (directory: PathBuf)
    ensures
        directory == match parent {
            Some(parent) if current@.len() > 0 && parent.is_directory => parent.path,
            _ => first_directory(homes@, working),
        },
{
    if current.unicode_len() > 0 {
        if let Some(parent) = parent {
            if parent.is_directory {
                return parent.path;
            }
        }
    }
    first_existing(homes, working)
}

/// The first of `candidates` that is a directory, or else `fallback`.
fn first_existing(candidates: Vec<Candidate>, fallback: PathBuf) -> (directory: PathBuf)
    ensures
        directory == first_directory(candidates@, fallback),
{
    let ghost all = candidates@;
    let mut left: Vec<Candidate> = candidates;
    while left.len() > 0
        invariant
            all == candidates@,
            first_directory(left@, fallback) == first_directory(all, fallback),
        decreases left@.len(),
    {
        let ghost before = left@;
        let candidate: Candidate = left.remove(0);
        assert(left@ =~= before.drop_first());
        if candidate.is_directory {
            return candidate.path;
        }
    }
    fallback
}

} // verus!
