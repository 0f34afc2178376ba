//! What holds of WAV decoding as a whole.

use vstd::arithmetic::{div_mod, power2};
use vstd::prelude::*;

use crate::ieee;
use crate::ir::{Chunk, IrError, Recording};

verus! {

/// The little-endian bytes of a 32-bit field.
pub open spec fn le32_bytes(n: nat) -> Seq<u8> {
    seq![
        (n % 0x100) as u8,
        (n / 0x100 % 0x100) as u8,
        (n / 0x1_0000 % 0x100) as u8,
        (n / 0x100_0000 % 0x100) as u8,
    ]
}

/// Whether a chunk can be written: four bytes of name and a length that fits
/// its field.
pub open spec fn writable(chunk: Chunk) -> bool {
    chunk.id.len() == 4 && chunk.body.len() < 0x1_0000_0000
}

/// A chunk as it stands in a file, padded to an even length.
pub open spec fn chunk_bytes(chunk: Chunk) -> Seq<u8> {
    let pad = if chunk.body.len() % 2 == 1 {
        seq![0u8]
    } else {
        seq![]
    };
    chunk.id + le32_bytes(chunk.body.len()) + chunk.body + pad
}

/// Chunks one behind the other.
pub open spec fn chunk_list_bytes(chunks: Seq<Chunk>) -> Seq<u8>
    decreases chunks.len(),
{
    if chunks.len() == 0 {
        seq![]
    } else {
        chunk_bytes(chunks[0]) + chunk_list_bytes(chunks.drop_first())
    }
}

/// A WAV file made of these chunks.
pub open spec fn wav_file(chunks: Seq<Chunk>) -> Seq<u8> {
    let body = chunk_list_bytes(chunks);
    seq![0x52u8, 0x49, 0x46, 0x46] + le32_bytes(body.len() + 4) + seq![0x57u8, 0x41, 0x56, 0x45]
        + body
}

/// A written length is read back.
proof fn lemma_length_field(file: Seq<u8>, at: int, n: nat)
    requires
        0 <= at,
        at + 4 <= file.len(),
        n < 0x1_0000_0000,
        file.subrange(at, at + 4) == le32_bytes(n),
    ensures
        crate::ir::le32(file, at) == n,
{
    let field = file.subrange(at, at + 4);
    assert(field[0] == file[at] && field[1] == file[at + 1]);
    assert(field[2] == file[at + 2] && field[3] == file[at + 3]);
    assert(n % 0x100 + 0x100 * (n / 0x100 % 0x100) + 0x1_0000 * (n / 0x1_0000 % 0x100)
        + 0x100_0000 * (n / 0x100_0000 % 0x100) == n);
}

/// A written chunk is the first chunk read back.
proof fn lemma_chunk_read_back(before: Seq<u8>, chunk: Chunk, after: Seq<u8>)
    requires
        writable(chunk),
    ensures
        ({
            let file = before + chunk_bytes(chunk) + after;
            let next = (before + chunk_bytes(chunk)).len() as int;
            crate::ir::chunks_from(file, before.len() as int) == seq![chunk]
                + crate::ir::chunks_from(file, next)
        }),
{
    let file = before + chunk_bytes(chunk) + after;
    let at = before.len() as int;
    let n = chunk.body.len();
    assert(file.subrange(at, at + 4) =~= chunk.id);
    assert(file.subrange(at + 4, at + 8) =~= le32_bytes(n));
    lemma_length_field(file, at + 4, n);
    assert(crate::ir::body_length(file, at) == n);
    assert(file.subrange(at + 8, at + 8 + n) =~= chunk.body);
    assert((before + chunk_bytes(chunk)).len() == at + 8 + n + n % 2);
}

/// Chunks written one behind the other are read back, whatever stands before
/// them.
#[verifier::spinoff_prover]
#[verifier::rlimit(40)]
proof fn lemma_chunks_read_back(before: Seq<u8>, chunks: Seq<Chunk>)
    requires
        forall|i: int| 0 <= i < chunks.len() ==> writable(#[trigger] chunks[i]),
    ensures
        crate::ir::chunks_from(before + chunk_list_bytes(chunks), before.len() as int) == chunks,
    decreases chunks.len(),
{
    if chunks.len() == 0 {
        assert(before + chunk_list_bytes(chunks) =~= before);
        assert(crate::ir::chunks_from(before, before.len() as int) =~= chunks);
    } else {
        let chunk = chunks[0];
        let rest = chunks.drop_first();
        let after = chunk_list_bytes(rest);
        let ahead = before + chunk_bytes(chunk);
        assert(writable(chunk));
        assert forall|i: int| 0 <= i < rest.len() implies writable(#[trigger] rest[i]) by {
            assert(rest[i] == chunks[i + 1]);
        }
        lemma_chunks_read_back(ahead, rest);
        lemma_chunk_read_back(before, chunk, after);
        assert(before + (chunk_bytes(chunk) + after) =~= ahead + after);
        assert(seq![chunk] + rest =~= chunks);
    }
}

/// What a file holds follows from its chunks alone, and from no more of them
/// than the last `fmt ` and the last `data`: chunks written to a file are the
/// chunks read from it.
pub proof fn law_written_chunks_are_read_back(chunks: Seq<Chunk>)
    requires
        forall|i: int| 0 <= i < chunks.len() ==> writable(#[trigger] chunks[i]),
    ensures
        crate::ir::decoded(wav_file(chunks)) == crate::ir::audio(
            crate::ir::last_named(chunks, crate::ir::format_id()),
            crate::ir::last_named(chunks, crate::ir::data_id()),
        ),
{
    let body = chunk_list_bytes(chunks);
    let head = crate::ir::riff_id() + le32_bytes(body.len() + 4) + crate::ir::wave_id();
    let file = wav_file(chunks);
    assert(file =~= head + body);
    assert(file.subrange(0, 4) =~= crate::ir::riff_id());
    assert(file.subrange(8, 12) =~= crate::ir::wave_id());
    lemma_chunks_read_back(head, chunks);
}

/// Looking up a name passes over a chunk of another name.
proof fn lemma_lookup_skips(a: Seq<Chunk>, c: Chunk, b: Seq<Chunk>, id: Seq<u8>)
    requires
        c.id != id,
    ensures
        crate::ir::last_named(a + seq![c] + b, id) == crate::ir::last_named(a + b, id),
    decreases b.len(),
{
    if b.len() == 0 {
        assert(a + seq![c] + b =~= a.push(c));
        assert(a.push(c).drop_last() =~= a);
        assert(a + b =~= a);
    } else {
        lemma_lookup_skips(a, c, b.drop_last(), id);
        assert((a + seq![c] + b).drop_last() =~= a + seq![c] + b.drop_last());
        assert((a + b).drop_last() =~= a + b.drop_last());
        assert((a + seq![c] + b).last() == b.last());
        assert((a + b).last() == b.last());
    }
}

/// An unknown chunk anywhere in a file changes nothing.
pub proof fn law_unknown_chunks_are_skipped(a: Seq<Chunk>, unknown: Chunk, b: Seq<Chunk>)
    requires
        forall|i: int| 0 <= i < a.len() ==> writable(#[trigger] a[i]),
        forall|i: int| 0 <= i < b.len() ==> writable(#[trigger] b[i]),
        writable(unknown),
        unknown.id != crate::ir::format_id(),
        unknown.id != crate::ir::data_id(),
    ensures
        crate::ir::decoded(wav_file(a + seq![unknown] + b)) == crate::ir::decoded(wav_file(a + b)),
{
    law_written_chunks_are_read_back(a + seq![unknown] + b);
    law_written_chunks_are_read_back(a + b);
    lemma_lookup_skips(a, unknown, b, crate::ir::format_id());
    lemma_lookup_skips(a, unknown, b, crate::ir::data_id());
}

/// Two neighbouring chunks of different names may stand in either order.
pub proof fn law_chunk_order_is_free(a: Seq<Chunk>, c: Chunk, d: Chunk, b: Seq<Chunk>)
    requires
        forall|i: int| 0 <= i < a.len() ==> writable(#[trigger] a[i]),
        forall|i: int| 0 <= i < b.len() ==> writable(#[trigger] b[i]),
        writable(c),
        writable(d),
        c.id != d.id,
    ensures
        crate::ir::decoded(wav_file(a + seq![c, d] + b)) == crate::ir::decoded(
            wav_file(a + seq![d, c] + b),
        ),
{
    lemma_lookup_swaps(a, c, d, b, crate::ir::format_id());
    lemma_lookup_swaps(a, c, d, b, crate::ir::data_id());
    let one = a + seq![c, d] + b;
    let other = a + seq![d, c] + b;
    assert forall|i: int| 0 <= i < one.len() implies writable(#[trigger] one[i]) by {
        lemma_writable_between(a, seq![c, d], b, i);
    }
    assert forall|i: int| 0 <= i < other.len() implies writable(#[trigger] other[i]) by {
        lemma_writable_between(a, seq![d, c], b, i);
    }
    law_written_chunks_are_read_back(one);
    law_written_chunks_are_read_back(other);
}

/// Chunks put together from writable ones are writable.
proof fn lemma_writable_between(a: Seq<Chunk>, middle: Seq<Chunk>, b: Seq<Chunk>, i: int)
    requires
        forall|k: int| 0 <= k < a.len() ==> writable(#[trigger] a[k]),
        forall|k: int| 0 <= k < middle.len() ==> writable(#[trigger] middle[k]),
        forall|k: int| 0 <= k < b.len() ==> writable(#[trigger] b[k]),
        0 <= i < (a + middle + b).len(),
    ensures
        writable((a + middle + b)[i]),
{
    if i < a.len() {
        assert((a + middle + b)[i] == a[i]);
    } else if i < a.len() + middle.len() {
        assert((a + middle + b)[i] == middle[i - a.len()]);
    } else {
        assert((a + middle + b)[i] == b[i - a.len() - middle.len()]);
    }
}

/// Swapping neighbours of different names keeps every lookup.
proof fn lemma_lookup_swaps(a: Seq<Chunk>, c: Chunk, d: Chunk, b: Seq<Chunk>, id: Seq<u8>)
    requires
        c.id != d.id,
    ensures
        crate::ir::last_named(a + seq![c, d] + b, id) == crate::ir::last_named(
            a + seq![d, c] + b,
            id,
        ),
{
    if c.id != id {
        lemma_lookup_skips(a, c, seq![d] + b, id);
        assert(a + seq![c] + (seq![d] + b) =~= a + seq![c, d] + b);
        lemma_lookup_skips(a + seq![d], c, b, id);
        assert(a + seq![d] + seq![c] + b =~= a + seq![d, c] + b);
        assert(a + (seq![d] + b) =~= a + seq![d] + b);
    } else {
        lemma_lookup_skips(a, d, seq![c] + b, id);
        assert(a + seq![d] + (seq![c] + b) =~= a + seq![d, c] + b);
        lemma_lookup_skips(a + seq![c], d, b, id);
        assert(a + seq![c] + seq![d] + b =~= a + seq![c, d] + b);
        assert(a + (seq![c] + b) =~= a + seq![c] + b);
    }
}

/// A chunk whose body the file cuts short keeps what is there.
pub proof fn law_a_cut_body_keeps_what_is_there(before: Seq<u8>, id: Seq<u8>, n: nat, body: Seq<u8>)
    requires
        id.len() == 4,
        body.len() <= n < 0x1_0000_0000,
    ensures
        crate::ir::chunks_from(before + id + le32_bytes(n) + body, before.len() as int)
            == seq![Chunk { id, body }],
{
    let file = before + id + le32_bytes(n) + body;
    let at = before.len() as int;
    assert(file.subrange(at, at + 4) =~= id);
    assert(file.subrange(at + 4, at + 8) =~= le32_bytes(n));
    lemma_length_field(file, at + 4, n);
    assert(crate::ir::body_length(file, at) == body.len());
    assert(file.subrange(at + 8, at + 8 + body.len()) =~= body);
    let next = at + 8 + n + n % 2;
    assert(crate::ir::chunks_from(file, next) =~= seq![]);
    assert(crate::ir::chunks_from(file, at) =~= seq![Chunk { id, body }]);
}

/// The bytes of channel 0 in frame `n`.
pub open spec fn first_sample(data: Seq<u8>, width: int, channels: int, n: int) -> Seq<u8> {
    data.subrange(n * (width * channels), n * (width * channels) + width)
}

/// Only the first sample of each frame matters: files that differ in other
/// channels, or after the last whole frame, decode alike.
pub proof fn law_only_channel_zero_matters(
    tag: u16,
    channels: u16,
    rate: u32,
    bits: u16,
    left: Seq<u8>,
    right: Seq<u8>,
)
    requires
        left.len() / ((bits / 8 * channels) as nat) == right.len() / ((bits / 8 * channels) as nat),
        forall|n: int|
            0 <= n < left.len() / ((bits / 8 * channels) as nat) ==> #[trigger] first_sample(
                left,
                (bits / 8) as int,
                channels as int,
                n,
            ) == first_sample(right, (bits / 8) as int, channels as int, n),
    ensures
        crate::ir::frames(tag, channels, rate, bits, left) == crate::ir::frames(
            tag,
            channels,
            rate,
            bits,
            right,
        ),
{
    if crate::ir::supported(tag, bits) && channels > 0 {
        let frame = bits / 8 * channels;
        let from_left = crate::ir::first_channel(left, tag, bits, channels);
        let from_right = crate::ir::first_channel(right, tag, bits, channels);
        assert forall|n: int| 0 <= n < from_left.len() implies from_left[n] == from_right[n] by {
            let count = from_left.len() as int;
            assert(frame >= bits / 8) by (nonlinear_arith)
                requires
                    frame == bits / 8 * channels,
                    channels >= 1,
            ;
            div_mod::lemma_fundamental_div_mod(left.len() as int, frame as int);
            div_mod::lemma_fundamental_div_mod(right.len() as int, frame as int);
            assert(0 <= n * frame <= frame * count - frame) by (nonlinear_arith)
                requires
                    0 <= n < count,
                    frame > 0,
            ;
            let l = first_sample(left, (bits / 8) as int, channels as int, n);
            let r = first_sample(right, (bits / 8) as int, channels as int, n);
            assert(l == r);
            let at = n * frame;
            assert(l[0] == left[at] && r[0] == right[at]);
            if bits >= 16 {
                assert(l[1] == left[at + 1] && r[1] == right[at + 1]);
            }
            if bits >= 24 {
                assert(l[2] == left[at + 2] && r[2] == right[at + 2]);
            }
            if bits >= 32 {
                assert(l[3] == left[at + 3] && r[3] == right[at + 3]);
            }
            if bits == 64 {
                assert(l[4] == left[at + 4] && r[4] == right[at + 4]);
                assert(l[5] == left[at + 5] && r[5] == right[at + 5]);
                assert(l[6] == left[at + 6] && r[6] == right[at + 6]);
                assert(l[7] == left[at + 7] && r[7] == right[at + 7]);
            }
        }
        assert(frame > 0) by (nonlinear_arith)
            requires
                frame == bits / 8 * channels,
                bits / 8 >= 1,
                channels >= 1,
        ;
        div_mod::lemma_div_pos_is_pos(left.len() as int, frame as int);
        assert(from_left.len() == left.len() / (frame as nat));
        assert(from_right.len() == right.len() / (frame as nat));
        assert(from_left =~= from_right);
    }
}

/// A significand of at most 24 bits is a magnitude of its own.
proof fn lemma_representable(n: int, e: nat) -> (m: int)
    requires
        0 <= n < 0x100_0000,
        23 <= e <= 253,
    ensures
        0 <= m < ieee::INFINITY,
        ieee::magnitude_units(m) == n * power2::pow2(e),
{
    power2::lemma2_to64();
    if n == 0 {
        0
    } else {
        lemma_representable_from(n, e, 0)
    }
}

/// As above, with `n` already doubled `done` times.
proof fn lemma_representable_from(n: int, e: nat, done: nat) -> (m: int)
    requires
        power2::pow2(done) <= n < 0x100_0000,
        done <= 23,
        23 <= e + done,
        e <= 253,
    ensures
        0 <= m < ieee::INFINITY,
        ieee::magnitude_units(m) == n * power2::pow2(e),
    decreases 0x100_0000 - n,
{
    power2::lemma2_to64();
    power2::lemma_pow2_pos(done);
    if n >= 0x80_0000 {
        ieee::lemma_packed_units(e, n);
        e * 0x80_0000 + n
    } else {
        if done == 23 {
            assert(power2::pow2(23) == 0x80_0000);
        }
        power2::lemma_pow2_unfold(done + 1);
        power2::lemma_pow2_unfold(e);
        let half = power2::pow2((e - 1) as nat) as int;
        assert((2 * n) * half == n * (2 * half)) by (nonlinear_arith);
        lemma_representable_from(2 * n, (e - 1) as nat, done + 1)
    }
}

/// PCM up to 24 bits decodes without loss: the sample is exactly the integer
/// over full scale.
pub proof fn law_narrow_pcm_is_exact(raw: int, scale_bits: int)
    requires
        -0x100_0000 < raw < 0x100_0000,
        0 <= scale_bits <= 31,
    ensures
        ieee::finite(ieee::fraction_of(raw, scale_bits)),
        ieee::units(ieee::fraction_of(raw, scale_bits)) == raw * power2::pow2((149 - scale_bits) as nat),
{
    let p = power2::pow2((149 - scale_bits) as nat) as int;
    let size = if raw < 0 {
        -raw
    } else {
        raw
    };
    let m = lemma_representable(size, (149 - scale_bits) as nat);
    assert((-raw) * p == -(raw * p)) by (nonlinear_arith);
    ieee::lemma_units_increase(m, m + 1);
    if m > 0 {
        ieee::lemma_units_increase(m - 1, m);
    }
    assert(ieee::nearest(size * p, 1, m));
    ieee::lemma_nearest_unique(size * p, 1, m);
    if raw < 0 {
        assert(ieee::magnitude((ieee::SIGN + m) as u32) == m);
    } else {
        assert(ieee::magnitude(m as u32) == m);
    }
}

// ---------------------------------------------------------------------------
// From the bytes of a file to what it holds
// ---------------------------------------------------------------------------

/// The 16-bit number that two bytes spell, the lower one first.
pub open spec fn two_bytes(bytes: Seq<u8>, at: int) -> int {
    bytes[at] + 256 * bytes[at + 1]
}

/// The 32-bit number that four bytes spell, the lowest one first.
pub open spec fn four_bytes(bytes: Seq<u8>, at: int) -> int {
    bytes[at] + 256 * bytes[at + 1] + 65_536 * bytes[at + 2] + 16_777_216 * bytes[at + 3]
}

/// Whether a file of these chunks can be written, `at` is where its last chunk
/// of name `id` stands, and holds at least `least` bytes.
pub open spec fn last_chunk(chunks: Seq<Chunk>, id: Seq<u8>, at: int, least: int) -> bool {
    &&& forall|i: int| 0 <= i < chunks.len() ==> writable(#[trigger] chunks[i])
    &&& 0 <= at < chunks.len()
    &&& chunks[at].id == id
    &&& chunks[at].body.len() >= least
    &&& forall|i: int| at < i < chunks.len() ==> (#[trigger] chunks[i]).id != id
}

/// A file with a header and audio: the places of its last `fmt ` and its last
/// `data` chunk.
pub open spec fn has_audio(chunks: Seq<Chunk>, header: int, audio: int) -> bool {
    &&& last_chunk(chunks, seq![0x66u8, 0x6D, 0x74, 0x20], header, 16)
    &&& last_chunk(chunks, seq![0x64u8, 0x61, 0x74, 0x61], audio, 0)
    &&& two_bytes(chunks[header].body, 0) == 0xFFFE ==> chunks[header].body.len() >= 26
}

/// The format a header names: its first field, or the one at offset 24 where
/// the first is `0xFFFE`.
pub open spec fn named_format(header: Seq<u8>) -> int {
    if two_bytes(header, 0) == 0xFFFE {
        two_bytes(header, 24)
    } else {
        two_bytes(header, 0)
    }
}

/// Bytes of one frame, all channels together.
pub open spec fn frame_bytes(header: Seq<u8>) -> int {
    two_bytes(header, 14) / 8 * two_bytes(header, 2)
}

/// The last chunk of a name is the one looked up.
proof fn lemma_looked_up(chunks: Seq<Chunk>, id: Seq<u8>, at: int)
    requires
        0 <= at < chunks.len(),
        chunks[at].id == id,
        forall|i: int| at < i < chunks.len() ==> (#[trigger] chunks[i]).id != id,
    ensures
        crate::ir::last_named(chunks, id) == Some(chunks[at].body),
    decreases chunks.len(),
{
    if at < chunks.len() - 1 {
        let shorter = chunks.drop_last();
        assert(chunks[chunks.len() - 1].id != id);
        assert forall|i: int| at < i < shorter.len() implies (#[trigger] shorter[i]).id != id by {
            assert(shorter[i] == chunks[i]);
        }
        lemma_looked_up(shorter, id, at);
    }
}

/// Where a name is nowhere, nothing is looked up.
proof fn lemma_looked_up_nowhere(chunks: Seq<Chunk>, id: Seq<u8>)
    requires
        forall|i: int| 0 <= i < chunks.len() ==> (#[trigger] chunks[i]).id != id,
    ensures
        crate::ir::last_named(chunks, id) is None,
    decreases chunks.len(),
{
    if chunks.len() > 0 {
        let shorter = chunks.drop_last();
        assert(chunks[chunks.len() - 1].id != id);
        assert forall|i: int| 0 <= i < shorter.len() implies (#[trigger] shorter[i]).id != id by {
            assert(shorter[i] == chunks[i]);
        }
        lemma_looked_up_nowhere(shorter, id);
    }
}

/// What a file holds is what its header and its audio say.
proof fn lemma_file(chunks: Seq<Chunk>, header: int, audio: int)
    requires
        has_audio(chunks, header, audio),
    ensures
        ({
            let h = chunks[header].body;
            crate::ir::decoded(wav_file(chunks)) == crate::ir::frames(
                named_format(h) as u16,
                two_bytes(h, 2) as u16,
                four_bytes(h, 4) as u32,
                two_bytes(h, 14) as u16,
                chunks[audio].body,
            )
        }),
{
    law_written_chunks_are_read_back(chunks);
    lemma_looked_up(chunks, seq![0x66u8, 0x6D, 0x74, 0x20], header);
    lemma_looked_up(chunks, seq![0x64u8, 0x61, 0x74, 0x61], audio);
}

/// The header is reported as it is written: whenever a file decodes, the rate is
/// the number at offset 4 of its last `fmt ` chunk, the channel count the number
/// at offset 2, and there are as many samples as whole frames in its last `data`
/// chunk.
pub proof fn law_the_header_is_reported(chunks: Seq<Chunk>, header: int, audio: int)
    requires
        has_audio(chunks, header, audio),
    ensures
        ({
            let h = chunks[header].body;
            let data = chunks[audio].body;
            crate::ir::decoded(wav_file(chunks)) matches Ok(recording) ==> {
                &&& recording.rate == four_bytes(h, 4)
                &&& recording.channels == two_bytes(h, 2)
                &&& recording.samples.len() * frame_bytes(h) <= data.len()
                &&& data.len() < (recording.samples.len() + 1) * frame_bytes(h)
                &&& recording.samples.len() > 0
            }
        }),
{
    lemma_file(chunks, header, audio);
    let h = chunks[header].body;
    let data = chunks[audio].body;
    if crate::ir::decoded(wav_file(chunks)) is Ok {
        let frame = frame_bytes(h);
        assert(frame > 0) by (nonlinear_arith)
            requires
                frame == two_bytes(h, 14) / 8 * two_bytes(h, 2),
                two_bytes(h, 14) / 8 >= 1,
                two_bytes(h, 2) >= 1,
        ;
        let count = data.len() as int / frame;
        div_mod::lemma_fundamental_div_mod(data.len() as int, frame);
        assert(count * frame <= data.len() < (count + 1) * frame) by (nonlinear_arith)
            requires
                data.len() == frame * count + data.len() as int % frame,
                0 <= data.len() as int % frame < frame,
        ;
        assert(crate::ir::decoded(wav_file(chunks))->Ok_0.samples.len() == count);
    }
}

/// A usable file decodes: 8, 16, 24 or 32-bit integers, a rate from 1 to 768000,
/// a channel and a whole frame are all it takes.
pub proof fn law_usable_integer_files_decode(chunks: Seq<Chunk>, header: int, audio: int)
    requires
        has_audio(chunks, header, audio),
        1 <= four_bytes(chunks[header].body, 4) <= 768_000,
        two_bytes(chunks[header].body, 2) >= 1,
        named_format(chunks[header].body) == 1,
        ({
            let bits = two_bytes(chunks[header].body, 14);
            bits == 8 || bits == 16 || bits == 24 || bits == 32
        }),
        chunks[audio].body.len() >= frame_bytes(chunks[header].body),
    ensures
        crate::ir::decoded(wav_file(chunks)) is Ok,
{
    lemma_file(chunks, header, audio);
    let h = chunks[header].body;
    let data = chunks[audio].body;
    let bits = two_bytes(h, 14) as u16;
    let samples = crate::ir::first_channel(data, 1, bits, two_bytes(h, 2) as u16);
    let frame = frame_bytes(h);
    assert(frame > 0) by (nonlinear_arith)
        requires
            frame == two_bytes(h, 14) / 8 * two_bytes(h, 2),
            two_bytes(h, 14) / 8 >= 1,
            two_bytes(h, 2) >= 1,
    ;
    div_mod::lemma_div_non_zero(data.len() as int, frame);
    assert forall|n: int| 0 <= n < samples.len() implies ieee::finite(#[trigger] samples[n]) by {
        lemma_integer_samples_are_finite(data, n * frame, bits);
    }
}

/// An integer sample is a number.
proof fn lemma_integer_samples_are_finite(data: Seq<u8>, at: int, bits: u16)
    requires
        bits == 8 || bits == 16 || bits == 24 || bits == 32,
    ensures
        ieee::finite(crate::ir::sample(data, at, 1, bits)),
{
    if bits == 8 {
        law_narrow_pcm_is_exact(data[at] - 128, 7);
    } else if bits == 16 {
        law_narrow_pcm_is_exact(crate::ir::twos_complement(two_bytes(data, at), 0x8000), 15);
    } else if bits == 24 {
        let raw = two_bytes(data, at) + 65_536 * data[at + 2];
        law_narrow_pcm_is_exact(crate::ir::twos_complement(raw, 0x80_0000), 23);
    } else {
        let raw = crate::ir::twos_complement(four_bytes(data, at), 0x8000_0000);
        lemma_fraction_is_finite(raw);
    }
}

/// A fraction of full scale is a number.
proof fn lemma_fraction_is_finite(raw: int)
    requires
        -0x8000_0000 <= raw < 0x8000_0000,
    ensures
        ieee::finite(ieee::fraction_of(raw, 31)),
{
    let one: u32 = 0x3F80_0000;
    power2::lemma2_to64();
    power2::lemma2_to64_rest();
    // The closest number is no farther from the fraction than one of either sign.
    ieee::law_fractions_become_the_closest_number(raw, 31, one);
    ieee::law_fractions_become_the_closest_number(raw, 31, (one + ieee::SIGN) as u32);
    ieee::lemma_packed_units(126, 0x80_0000);
    assert(ieee::magnitude(one) == one);
    assert(ieee::magnitude((one + ieee::SIGN) as u32) == one);
    power2::lemma_pow2_adds(23, 126);
    power2::lemma_pow2_adds(31, 118);
    power2::lemma_pow2_adds(1, 149);
    power2::lemma_pow2_pos(118);
    let p = power2::pow2(118) as int;
    assert(power2::pow2(149) == 0x8000_0000 * p);
    assert(0x80_0000 * power2::pow2(126) == power2::pow2(149)) by (nonlinear_arith)
        requires
            power2::pow2(149) == 0x80_0000 * power2::pow2(126),
    ;
    assert(-0x8000_0000 * p <= raw * p <= 0x8000_0000 * p) by (nonlinear_arith)
        requires
            -0x8000_0000 <= raw <= 0x8000_0000,
            p > 0,
    ;
    let bits = ieee::fraction_of(raw, 31);
    // Anything as large as eight is.
    let eight: u32 = 0x4100_0000;
    ieee::lemma_packed_units(129, 0x80_0000);
    assert(ieee::magnitude(eight) == eight);
    power2::lemma_pow2_adds(3, 126);
    assert(0x80_0000 * (8 * power2::pow2(126)) == 8 * (0x80_0000 * power2::pow2(126)))
        by (nonlinear_arith);
    if !ieee::finite(bits) {
        let m = ieee::magnitude(bits);
        ieee::lemma_units_increase(eight as int, m);
    }
}

/// Integers of up to 24 bits come out as the exact fraction of full scale they
/// stand for: the first sample of each frame, 8-bit ones with an offset of 128,
/// wider ones as two's complement, the lowest byte first.
#[verifier::spinoff_prover]
#[verifier::rlimit(40)]
pub proof fn law_narrow_integers_are_read_exactly(
    chunks: Seq<Chunk>,
    header: int,
    audio: int,
    n: int,
)
    requires
        has_audio(chunks, header, audio),
        named_format(chunks[header].body) == 1,
        crate::ir::decoded(wav_file(chunks)) is Ok,
        0 <= n < crate::ir::decoded(wav_file(chunks))->Ok_0.samples.len(),
    ensures
        ({
            let h = chunks[header].body;
            let data = chunks[audio].body;
            let at = n * frame_bytes(h);
            let bits = two_bytes(h, 14);
            let value = ieee::units(crate::ir::decoded(wav_file(chunks))->Ok_0.samples[n]);
            &&& bits == 8 ==> value == (data[at] - 128) * power2::pow2(142)
            &&& bits == 16 ==> value == (if data[at + 1] < 128 {
                two_bytes(data, at)
            } else {
                two_bytes(data, at) - 65_536
            }) * power2::pow2(134)
            &&& bits == 24 ==> value == (if data[at + 2] < 128 {
                two_bytes(data, at) + 65_536 * data[at + 2]
            } else {
                two_bytes(data, at) + 65_536 * data[at + 2] - 16_777_216
            }) * power2::pow2(126)
        }),
{
    let h = chunks[header].body;
    lemma_sample_of(chunks, header, audio, n);
    lemma_narrow_sample(chunks[audio].body, n * frame_bytes(h), two_bytes(h, 14) as u16);
}

/// Where a sample of a file comes from.
proof fn lemma_sample_of(chunks: Seq<Chunk>, header: int, audio: int, n: int)
    requires
        has_audio(chunks, header, audio),
        crate::ir::decoded(wav_file(chunks)) is Ok,
        0 <= n < crate::ir::decoded(wav_file(chunks))->Ok_0.samples.len(),
    ensures
        crate::ir::decoded(wav_file(chunks))->Ok_0.samples[n] == crate::ir::sample(
            chunks[audio].body,
            n * frame_bytes(chunks[header].body),
            named_format(chunks[header].body) as u16,
            two_bytes(chunks[header].body, 14) as u16,
        ),
{
    lemma_file(chunks, header, audio);
    let h = chunks[header].body;
    let bits = two_bytes(h, 14) as u16;
    let channels = two_bytes(h, 2) as u16;
    assert(bits == two_bytes(h, 14) && channels == two_bytes(h, 2));
    assert(bits / 8 * channels == frame_bytes(h));
    lemma_frames_sample(
        named_format(h) as u16,
        channels,
        four_bytes(h, 4) as u32,
        bits,
        chunks[audio].body,
        n,
    );
}

/// Where a sample of some audio comes from.
proof fn lemma_frames_sample(
    tag: u16,
    channels: u16,
    rate: u32,
    bits: u16,
    data: Seq<u8>,
    n: int,
)
    requires
        crate::ir::frames(tag, channels, rate, bits, data) is Ok,
        0 <= n < crate::ir::frames(tag, channels, rate, bits, data)->Ok_0.samples.len(),
    ensures
        crate::ir::frames(tag, channels, rate, bits, data)->Ok_0.samples[n] == crate::ir::sample(
            data,
            n * (bits / 8 * channels),
            tag,
            bits,
        ),
{
    let samples = crate::ir::first_channel(data, tag, bits, channels);
    let frame = bits / 8 * channels;
    assert(crate::ir::frames(tag, channels, rate, bits, data)->Ok_0.samples == samples);
    assert(frame > 0) by (nonlinear_arith)
        requires
            frame == bits / 8 * channels,
            bits / 8 >= 1,
            channels >= 1,
    ;
    div_mod::lemma_div_pos_is_pos(data.len() as int, frame as int);
    assert(samples.len() == data.len() / (frame as nat));
    assert(samples[n] == crate::ir::sample(data, n * frame, tag, bits));
}

/// The value of an integer sample of up to 24 bits.
proof fn lemma_narrow_sample(data: Seq<u8>, at: int, bits: u16)
    ensures
        ({
            let value = ieee::units(crate::ir::sample(data, at, 1, bits));
            &&& bits == 8 ==> value == (data[at] - 128) * power2::pow2(142)
            &&& bits == 16 ==> value == (if data[at + 1] < 128 {
                two_bytes(data, at)
            } else {
                two_bytes(data, at) - 65_536
            }) * power2::pow2(134)
            &&& bits == 24 ==> value == (if data[at + 2] < 128 {
                two_bytes(data, at) + 65_536 * data[at + 2]
            } else {
                two_bytes(data, at) + 65_536 * data[at + 2] - 16_777_216
            }) * power2::pow2(126)
        }),
{
    if bits == 8 {
        law_narrow_pcm_is_exact(data[at] - 128, 7);
    } else if bits == 16 {
        law_narrow_pcm_is_exact(crate::ir::twos_complement(two_bytes(data, at), 0x8000), 15);
    } else if bits == 24 {
        let raw = two_bytes(data, at) + 65_536 * data[at + 2];
        law_narrow_pcm_is_exact(crate::ir::twos_complement(raw, 0x80_0000), 23);
    }
}

/// 32-bit integers come out as the number closest to the fraction of full scale
/// they stand for.
pub proof fn law_wide_integers_are_read_closely(
    chunks: Seq<Chunk>,
    header: int,
    audio: int,
    n: int,
    other: u32,
)
    requires
        has_audio(chunks, header, audio),
        named_format(chunks[header].body) == 1,
        two_bytes(chunks[header].body, 14) == 32,
        crate::ir::decoded(wav_file(chunks)) is Ok,
        0 <= n < crate::ir::decoded(wav_file(chunks))->Ok_0.samples.len(),
        !ieee::not_a_number(other),
    ensures
        ({
            let data = chunks[audio].body;
            let at = n * frame_bytes(chunks[header].body);
            let exact = (if data[at + 3] < 128 {
                four_bytes(data, at)
            } else {
                four_bytes(data, at) - 4_294_967_296
            }) * power2::pow2(118);
            let sample = crate::ir::decoded(wav_file(chunks))->Ok_0.samples[n];
            ieee::apart(ieee::units(sample), exact) <= ieee::apart(ieee::units(other), exact)
        }),
{
    lemma_file(chunks, header, audio);
    let data = chunks[audio].body;
    let at = n * frame_bytes(chunks[header].body);
    ieee::law_fractions_become_the_closest_number(
        crate::ir::twos_complement(four_bytes(data, at), 0x8000_0000),
        31,
        other,
    );
}

/// Floating-point files: 32-bit samples are taken as they are, 64-bit ones
/// become the closest single-precision number, and a sample that is infinite or
/// no number then refuses the file.
pub proof fn law_floating_point_files(chunks: Seq<Chunk>, header: int, audio: int, n: int)
    requires
        has_audio(chunks, header, audio),
        1 <= four_bytes(chunks[header].body, 4) <= 768_000,
        two_bytes(chunks[header].body, 2) >= 1,
        named_format(chunks[header].body) == 3,
        two_bytes(chunks[header].body, 14) == 32 || two_bytes(chunks[header].body, 14) == 64,
        0 <= n,
        (n + 1) * frame_bytes(chunks[header].body) <= chunks[audio].body.len(),
    ensures
        ({
            let h = chunks[header].body;
            let data = chunks[audio].body;
            let at = n * frame_bytes(h);
            let wide = (four_bytes(data, at) + 4_294_967_296 * four_bytes(data, at + 4)) as u64;
            match crate::ir::decoded(wav_file(chunks)) {
                Ok(recording) => {
                    &&& n < recording.samples.len()
                    &&& two_bytes(h, 14) == 32 ==> recording.samples[n] == four_bytes(data, at)
                    &&& two_bytes(h, 14) == 64 ==> recording.samples[n] == ieee::narrowed(wide)
                    &&& recording.samples[n] % 0x8000_0000 < 0x7F80_0000
                },
                Err(error) => error == IrError::NonFinite && exists|k: int|
                    {
                        let sample = #[trigger] crate::ir::first_channel(
                            data,
                            3,
                            two_bytes(h, 14) as u16,
                            two_bytes(h, 2) as u16,
                        )[k];
                        &&& 0 <= k
                        &&& (k + 1) * frame_bytes(h) <= data.len()
                        &&& sample % 0x8000_0000 >= 0x7F80_0000
                    },
            }
        }),
{
    lemma_file(chunks, header, audio);
    let h = chunks[header].body;
    let data = chunks[audio].body;
    let frame = frame_bytes(h);
    let bits = two_bytes(h, 14) as u16;
    let samples = crate::ir::first_channel(data, 3, bits, two_bytes(h, 2) as u16);
    assert(frame > 0) by (nonlinear_arith)
        requires
            frame == two_bytes(h, 14) / 8 * two_bytes(h, 2),
            two_bytes(h, 14) / 8 >= 1,
            two_bytes(h, 2) >= 1,
    ;
    let count = data.len() as int / frame;
    div_mod::lemma_fundamental_div_mod(data.len() as int, frame);
    assert(n < count) by (nonlinear_arith)
        requires
            (n + 1) * frame <= data.len(),
            data.len() == frame * count + data.len() as int % frame,
            data.len() as int % frame < frame,
            frame > 0,
    ;
    assert(samples.len() == count);
    if exists|k: int| 0 <= k < samples.len() && !ieee::finite(#[trigger] samples[k]) {
        let k = choose|k: int| 0 <= k < samples.len() && !ieee::finite(#[trigger] samples[k]);
        assert((k + 1) * frame <= data.len()) by (nonlinear_arith)
            requires
                0 <= k < count,
                data.len() == frame * count + data.len() as int % frame,
                data.len() as int % frame >= 0,
                frame > 0,
        ;
        assert(samples[k] % 0x8000_0000 >= 0x7F80_0000);
    } else {
        assert(ieee::finite(samples[n]));
    }
}

/// What refuses a file, and in which order it is looked at: its length, its
/// name, its header, its audio, and then what the header says.
pub proof fn law_refused_files(file: Seq<u8>)
    ensures
        file.len() < 12 ==> crate::ir::decoded(file) == Err::<Recording, IrError>(IrError::Truncated),
        file.len() >= 12 && !(file[0] == 0x52 && file[1] == 0x49 && file[2] == 0x46 && file[3]
            == 0x46 && file[8] == 0x57 && file[9] == 0x41 && file[10] == 0x56 && file[11] == 0x45)
            ==> crate::ir::decoded(file) == Err::<Recording, IrError>(IrError::NotRiffWave),
{
    if file.len() >= 12 {
        let riff = file.subrange(0, 4);
        let wave = file.subrange(8, 12);
        assert(riff[0] == file[0] && riff[1] == file[1] && riff[2] == file[2] && riff[3]
            == file[3]);
        assert(wave[0] == file[8] && wave[1] == file[9] && wave[2] == file[10] && wave[3]
            == file[11]);
    }
}

/// A file without a `fmt ` chunk, or whose last one, at `header`, is shorter than
/// its mandatory sixteen bytes, has no usable format, and one without a `data`
/// chunk no audio.
pub proof fn law_files_without_their_chunks(chunks: Seq<Chunk>, header: int)
    requires
        forall|i: int| 0 <= i < chunks.len() ==> writable(#[trigger] chunks[i]),
    ensures
        (forall|i: int|
            0 <= i < chunks.len() ==> (#[trigger] chunks[i]).id != seq![0x66u8, 0x6D, 0x74, 0x20])
            ==> crate::ir::decoded(wav_file(chunks)) == Err::<Recording, IrError>(
            IrError::MissingFormat,
        ),
        last_chunk(chunks, seq![0x66u8, 0x6D, 0x74, 0x20], header, 0) && chunks[header].body.len()
            < 16 ==> crate::ir::decoded(wav_file(chunks)) == Err::<Recording, IrError>(
            IrError::MissingFormat,
        ),
        last_chunk(chunks, seq![0x66u8, 0x6D, 0x74, 0x20], header, 16) && (forall|i: int|
            0 <= i < chunks.len() ==> (#[trigger] chunks[i]).id != seq![0x64u8, 0x61, 0x74, 0x61])
            ==> crate::ir::decoded(wav_file(chunks)) == Err::<Recording, IrError>(
            IrError::MissingData,
        ),
{
    let format_id = seq![0x66u8, 0x6D, 0x74, 0x20];
    let data_id = seq![0x64u8, 0x61, 0x74, 0x61];
    law_written_chunks_are_read_back(chunks);
    if forall|i: int| 0 <= i < chunks.len() ==> (#[trigger] chunks[i]).id != format_id {
        lemma_looked_up_nowhere(chunks, format_id);
    }
    if last_chunk(chunks, format_id, header, 0) {
        lemma_looked_up(chunks, format_id, header);
    }
    if forall|i: int| 0 <= i < chunks.len() ==> (#[trigger] chunks[i]).id != data_id {
        lemma_looked_up_nowhere(chunks, data_id);
    }
}

/// What a header can say that refuses a file: no channel or no bits, a rate of
/// zero or above 768000, a format or width that is not decoded, and audio that
/// is shorter than one frame, in this order.
pub proof fn law_refused_headers(chunks: Seq<Chunk>, header: int, audio: int)
    requires
        has_audio(chunks, header, audio),
    ensures
        ({
            let h = chunks[header].body;
            let format = named_format(h);
            let channels = two_bytes(h, 2);
            let rate = four_bytes(h, 4);
            let bits = two_bytes(h, 14);
            let known = (format == 1 && (bits == 8 || bits == 16 || bits == 24 || bits == 32)) || (
            format == 3 && (bits == 32 || bits == 64));
            let result = crate::ir::decoded(wav_file(chunks));
            if channels == 0 || bits == 0 {
                result == Err::<Recording, IrError>(IrError::EmptyFormat)
            } else if rate == 0 || rate > 768_000 {
                result == Err::<Recording, IrError>(IrError::BadSampleRate(rate as u32))
            } else if !known {
                result == Err::<Recording, IrError>(
                    IrError::UnsupportedFormat { code: format as u16, bits: bits as u16 },
                )
            } else if chunks[audio].body.len() < frame_bytes(h) {
                result == Err::<Recording, IrError>(IrError::NoFrames)
            } else {
                result is Ok || result == Err::<Recording, IrError>(IrError::NonFinite)
            }
        }),
{
    lemma_file(chunks, header, audio);
    let h = chunks[header].body;
    let data = chunks[audio].body;
    let frame = frame_bytes(h);
    if two_bytes(h, 2) > 0 && two_bytes(h, 14) >= 8 {
        assert(frame > 0) by (nonlinear_arith)
            requires
                frame == two_bytes(h, 14) / 8 * two_bytes(h, 2),
                two_bytes(h, 14) / 8 >= 1,
                two_bytes(h, 2) >= 1,
        ;
        if data.len() < frame {
            div_mod::lemma_basic_div(data.len() as int, frame);
        } else {
            div_mod::lemma_div_non_zero(data.len() as int, frame);
        }
    }
}

} // verus!
