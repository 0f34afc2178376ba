//! Why the windows, frames and ring slots of the cabinet add up to a
//! convolution.
//!
//! The laws are about exact arithmetic: samples and taps are integers here.

use vstd::prelude::*;

use crate::dsp::cabinet::{FFT_SIZE, IR_LENGTH, PARTITION, PARTITIONS};

verus! {

/// `f(0) + f(1) + ... + f(n - 1)`.
pub open spec fn sum(f: spec_fn(int) -> int, n: nat) -> int
    decreases n,
{
    if n == 0 {
        0
    } else {
        sum(f, (n - 1) as nat) + f(n - 1)
    }
}

/// One sample of the circular convolution that multiplying spectra computes.
pub open spec fn circular(a: Seq<int>, b: Seq<int>, at: int) -> int {
    sum(|j: int| a[j] * b[(at - j) % (FFT_SIZE as int)], FFT_SIZE as nat)
}

/// Sample `i` of the block computed once `blocks` blocks have come in: the
/// second half of every frame's circular convolution with the window that is
/// as many blocks old as the frame's number.
pub open spec fn block_sample(response: Seq<int>, input: Seq<int>, blocks: int, i: int) -> int {
    sum(
        |p: int|
            circular(
                crate::dsp::cabinet::frame(response, p, 0),
                crate::dsp::cabinet::window(input, blocks - p, 0),
                PARTITION + i,
            ),
        PARTITIONS as nat,
    )
}

/// One tap's contribution to the convolution at time `t`.
pub open spec fn contribution(response: Seq<int>, input: Seq<int>, t: int, tap: int) -> int {
    crate::dsp::cabinet::past(response, tap, 0) * crate::dsp::cabinet::past(input, t - tap, 0)
}

/// The convolution of a response with an input at time `t`.
pub open spec fn convolution(response: Seq<int>, input: Seq<int>, t: int) -> int {
    sum(|tap: int| contribution(response, input, t, tap), IR_LENGTH as nat)
}

/// Equal terms have equal sums.
proof fn lemma_sum_equal(f: spec_fn(int) -> int, g: spec_fn(int) -> int, n: nat)
    requires
        forall|k: int| 0 <= k < n ==> #[trigger] f(k) == g(k),
    ensures
        sum(f, n) == sum(g, n),
    decreases n,
{
    if n > 0 {
        lemma_sum_equal(f, g, (n - 1) as nat);
    }
}

/// A sum splits.
proof fn lemma_sum_split(f: spec_fn(int) -> int, a: nat, b: nat)
    ensures
        sum(f, a + b) == sum(f, a) + sum(|k: int| f(a + k), b),
    decreases b,
{
    if b > 0 {
        lemma_sum_split(f, a, (b - 1) as nat);
    }
}

/// A sum over partitions of sums over their taps is one sum over the taps.
proof fn lemma_sum_partitions(f: spec_fn(int) -> int, partitions: nat)
    ensures
        sum(
            |p: int| sum(|j: int| f(PARTITION * p + j), PARTITION as nat),
            partitions,
        ) == sum(f, PARTITION as nat * partitions),
    decreases partitions,
{
    if partitions > 0 {
        let before = (partitions - 1) as nat;
        lemma_sum_partitions(f, before);
        lemma_sum_split(f, PARTITION as nat * before, PARTITION as nat);
        lemma_sum_equal(
            |k: int| f(PARTITION as nat * before + k),
            |j: int| f(PARTITION * before + j),
            PARTITION as nat,
        );
    }
}

/// Terms of zero add nothing.
proof fn lemma_sum_zero_tail(f: spec_fn(int) -> int, a: nat, b: nat)
    requires
        forall|k: int| a <= k < a + b ==> #[trigger] f(k) == 0,
    ensures
        sum(f, a + b) == sum(f, a),
    decreases b,
{
    if b > 0 {
        lemma_sum_zero_tail(f, a, (b - 1) as nat);
    }
}

/// The second half of one frame's circular convolution is free of wrap-around.
proof fn lemma_frame(response: Seq<int>, input: Seq<int>, blocks: int, i: int, p: int)
    requires
        0 <= i < PARTITION,
        0 <= p,
    ensures
        circular(
            crate::dsp::cabinet::frame(response, p, 0),
            crate::dsp::cabinet::window(input, blocks - p, 0),
            PARTITION + i,
        ) == sum(
            |j: int|
                contribution(response, input, PARTITION * (blocks - 1) + i, PARTITION * p + j),
            PARTITION as nat,
        ),
{
    let a = crate::dsp::cabinet::frame(response, p, 0);
    let b = crate::dsp::cabinet::window(input, blocks - p, 0);
    let at = PARTITION + i;
    let t = PARTITION * (blocks - 1) + i;
    let f = |j: int| a[j] * b[(at - j) % (FFT_SIZE as int)];
    let g = |j: int| contribution(response, input, t, PARTITION * p + j);
    assert forall|j: int| PARTITION <= j < PARTITION + PARTITION implies #[trigger] f(j) == 0 by {
        assert(a[j] == 0);
        assert(0 * b[(at - j) % (FFT_SIZE as int)] == 0);
    }
    lemma_sum_zero_tail(f, PARTITION as nat, PARTITION as nat);
    assert forall|j: int| 0 <= j < PARTITION implies #[trigger] f(j) == g(j) by {
        assert((at - j) % (FFT_SIZE as int) == at - j);
        assert(a[j] == crate::dsp::cabinet::past(response, PARTITION * p + j, 0));
        assert(PARTITION * (blocks - p) - FFT_SIZE + (at - j) == t - (PARTITION * p + j));
        assert(b[at - j] == crate::dsp::cabinet::past(input, t - (PARTITION * p + j), 0));
    }
    lemma_sum_equal(f, g, PARTITION as nat);
}

/// The block computed from windows and frames is the convolution of the input
/// with the response, late by exactly [`PARTITION`] samples: sample `i` of the
/// block is read back while input number `PARTITION * blocks + i` comes in.
pub proof fn law_partitions_add_up_to_the_convolution(
    response: Seq<int>,
    input: Seq<int>,
    blocks: int,
    i: int,
)
    requires
        0 <= i < PARTITION,
    ensures
        block_sample(response, input, blocks, i) == convolution(
            response,
            input,
            PARTITION * blocks + i - PARTITION,
        ),
{
    let t = PARTITION * (blocks - 1) + i;
    let f = |tap: int| contribution(response, input, t, tap);
    let by_frame = |p: int|
        circular(
            crate::dsp::cabinet::frame(response, p, 0),
            crate::dsp::cabinet::window(input, blocks - p, 0),
            PARTITION + i,
        );
    let by_partition = |p: int| sum(|j: int| f(PARTITION * p + j), PARTITION as nat);
    assert forall|p: int| 0 <= p < PARTITIONS implies #[trigger] by_frame(p) == by_partition(
        p,
    ) by {
        lemma_frame(response, input, blocks, i, p);
        lemma_sum_equal(
            |j: int| contribution(response, input, t, PARTITION * p + j),
            |j: int| f(PARTITION * p + j),
            PARTITION as nat,
        );
    }
    lemma_sum_equal(by_frame, by_partition, PARTITIONS as nat);
    lemma_sum_partitions(f, PARTITIONS as nat);
    assert(PARTITION as nat * PARTITIONS as nat == IR_LENGTH);
}

/// The sizes the convolver is built on.
pub proof fn law_the_sizes()
    ensures
        PARTITION == 64,
        FFT_SIZE == 128,
        IR_LENGTH == 4096,
        PARTITIONS == 64,
        crate::dsp::cabinet::SPECTRUM_BINS == 65,
{
}

/// A response is fitted by cutting its end or padding it with silence: no tap is
/// moved, changed or repeated.
pub proof fn law_fitting_keeps_taps_in_place(taps: Seq<u32>, i: int)
    requires
        0 <= i < 4096,
    ensures
        crate::dsp::cabinet::fitted(taps).len() == 4096,
        i < taps.len() ==> crate::dsp::cabinet::fitted(taps)[i] == taps[i],
        i >= taps.len() ==> crate::dsp::cabinet::fitted(taps)[i] == 0,
{
}

/// Taken together, the frames hold every tap of a response once, in order.
pub proof fn law_frames_hold_the_response(response: Seq<u32>, tap: int)
    requires
        0 <= tap < response.len(),
        response.len() == 4096,
    ensures
        crate::dsp::cabinet::frame(response, tap / 64, 0)[tap % 64] == response[tap],
        crate::dsp::cabinet::frame(response, tap / 64, 0)[tap % 64 + 64] == 0,
{
}

/// The spectrum from `ago` blocks ago is still in the ring, in the slot it was
/// written to: no newer block has taken that slot.
pub proof fn law_the_ring_keeps_the_last_blocks(blocks: int, ago: int)
    requires
        0 <= ago < PARTITIONS,
    ensures
        (crate::dsp::cabinet::head_of(blocks) + ago) % (PARTITIONS as int)
            == crate::dsp::cabinet::head_of(blocks - ago),
        forall|newer: int|
            blocks - ago < newer <= blocks ==> #[trigger] crate::dsp::cabinet::head_of(newer)
                != crate::dsp::cabinet::head_of(blocks - ago),
{
}

/// An impulse comes back as the response itself, late by [`PARTITION`]
/// samples.
pub proof fn law_an_impulse_returns_the_response(response: Seq<int>, blocks: int, i: int)
    requires
        0 <= i < PARTITION,
        response.len() == IR_LENGTH,
        PARTITION <= PARTITION * blocks + i < PARTITION + IR_LENGTH,
    ensures
        block_sample(response, seq![1], blocks, i) == response[PARTITION * blocks + i - PARTITION],
{
    let t = PARTITION * blocks + i - PARTITION;
    let f = |tap: int| contribution(response, seq![1], t, tap);
    law_partitions_add_up_to_the_convolution(response, seq![1], blocks, i);
    assert forall|tap: int| 0 <= tap < IR_LENGTH && tap != t implies #[trigger] f(tap) == 0 by {
        assert(response[tap] * 0 == 0);
    }
    lemma_sum_zero_tail(f, (t + 1) as nat, (IR_LENGTH - t - 1) as nat);
    lemma_sum_zero_tail(f, 0, t as nat);
    assert(f(t) == response[t] * 1);
}

} // verus!
