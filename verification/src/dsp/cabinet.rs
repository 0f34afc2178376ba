//! Uniformly-partitioned cabinet convolution: what is delayed, what is
//! transformed and when, and which impulse response is in force.
//!
//! The [`IR_LENGTH`]-tap response is split into [`PARTITIONS`] frames of
//! [`PARTITION`] taps. Every [`PARTITION`] input samples the last [`FFT_SIZE`]
//! samples are transformed, the spectrum joins a ring of the last
//! [`PARTITIONS`] spectra, each is multiplied with the spectrum of one frame,
//! and the sum is transformed back (overlap-save). [`Cabinet`] keeps the
//! samples and the indices; the transforms happen outside, on the windows,
//! frames and ring slots it names.
//!
//! Collecting a block costs exactly [`PARTITION`] samples of latency. The
//! bypass path runs through a delay of the *same* length, so bypassing the
//! cabinet never changes the latency.

use vstd::prelude::*;

use crate::dsp::denormal;
use crate::ir;

verus! {

/// Samples per convolution partition, and hence the convolver's latency.
pub const PARTITION: usize = 64;

/// Transform size: twice the partition, as overlap-save requires.
pub const FFT_SIZE: usize = PARTITION * 2;

/// Number of complex bins a real transform of [`FFT_SIZE`] produces.
pub const SPECTRUM_BINS: usize = FFT_SIZE / 2 + 1;

/// Impulse response length in samples.
pub const IR_LENGTH: usize = 4096;

/// Number of uniform partitions the response is split into.
pub const PARTITIONS: usize = IR_LENGTH / PARTITION;

// ---------------------------------------------------------------------------
// Delays, windows, frames and ring slots
// ---------------------------------------------------------------------------

/// The sample at `at`, and silence before the first one and after the last.
pub open spec fn past<T>(samples: Seq<T>, at: int, silence: T) -> T {
    if 0 <= at < samples.len() {
        samples[at]
    } else {
        silence
    }
}

/// The samples transformed once `blocks` blocks have come in: the last two
/// blocks.
pub open spec fn window<T>(samples: Seq<T>, blocks: int, silence: T) -> Seq<T> {
    Seq::new(
        FFT_SIZE as nat,
        |i: int| past(samples, PARTITION * blocks - FFT_SIZE + i, silence),
    )
}

/// One partition of a response, padded with silence to the transform size.
pub open spec fn frame<T>(response: Seq<T>, partition: int, silence: T) -> Seq<T> {
    Seq::new(
        FFT_SIZE as nat,
        |i: int|
            if i < PARTITION {
                past(response, PARTITION * partition + i, silence)
            } else {
                silence
            },
    )
}

/// Ring slot of the newest spectrum once `blocks` blocks have come in.
pub open spec fn head_of(blocks: int) -> int {
    (PARTITIONS - blocks % (PARTITIONS as int)) % (PARTITIONS as int)
}

/// `taps` cut or padded with silence to [`IR_LENGTH`].
pub open spec fn fitted(taps: Seq<u32>) -> Seq<u32> {
    Seq::new(IR_LENGTH as nat, |i: int| past(taps, i, 0))
}

// ---------------------------------------------------------------------------
// The cabinet
// ---------------------------------------------------------------------------

/// The state of the convolver around its transforms.
pub struct Cabinet {
    /// Sliding window of the last `FFT_SIZE` input samples.
    history: Vec<u32>,
    /// Ring slot of the newest spectrum.
    head: usize,
    /// Samples of the block currently being collected.
    input_block: Vec<u32>,
    /// Convolved output of the previous block, read back sample by sample.
    output_block: Vec<u32>,
    /// Latency-matched dry path used when the cabinet is bypassed.
    bypass_delay: Vec<u32>,
    /// Position inside the current block.
    cursor: usize,
    /// The impulse response currently convolved with.
    impulse_response: Vec<u32>,
    /// The synthesised default, kept so it can be put back at once.
    default_response: Vec<u32>,
    /// Whether responses and transforms are in place.
    prepared: bool,
    /// Every sample since the last reset.
    heard: Ghost<Seq<u32>>,
}

impl Cabinet {
    /// Every sample processed since the last reset.
    pub closed spec fn inputs(&self) -> Seq<u32> {
        self.heard@
    }

    /// Whether the cabinet is prepared.
    pub closed spec fn ready(&self) -> bool {
        self.prepared
    }

    /// The response in force.
    pub closed spec fn response(&self) -> Seq<u32> {
        self.impulse_response@
    }

    /// The response to fall back on.
    pub closed spec fn fallback(&self) -> Seq<u32> {
        self.default_response@
    }

    /// The convolved block being read back.
    pub closed spec fn wet(&self) -> Seq<u32> {
        self.output_block@
    }

    /// What every operation keeps.
    pub closed spec fn well_formed(&self) -> bool {
        let n = self.heard@.len() as int;
        let c = n % (PARTITION as int);
        &&& self.cursor == c
        &&& self.input_block@.len() == PARTITION
        &&& self.output_block@.len() == PARTITION
        &&& self.bypass_delay@.len() == PARTITION
        &&& self.history@.len() == FFT_SIZE
        &&& forall|i: int|
            0 <= i < PARTITION ==> #[trigger] self.bypass_delay@[i] == past(
                self.heard@,
                if i < c {
                    n - c + i
                } else {
                    n - c + i - PARTITION
                },
                0,
            )
        &&& forall|i: int| 0 <= i < c ==> #[trigger] self.input_block@[i] == self.heard@[n - c + i]
        &&& self.prepared ==> {
            &&& self.history@ == window(self.heard@, n / (PARTITION as int), 0)
            &&& self.head == head_of(n / (PARTITION as int))
            &&& self.impulse_response@.len() == IR_LENGTH
            &&& self.default_response@.len() == IR_LENGTH
        }
    }

    /// Builds an unprepared cabinet.
    pub fn new() -> (cabinet: Self)
        ensures
            cabinet.well_formed(),
            !cabinet.ready(),
            cabinet.inputs() == Seq::<u32>::empty(),
            cabinet.response() == Seq::<u32>::empty(),
            cabinet.fallback() == Seq::<u32>::empty(),
            cabinet.wet() == Seq::new(PARTITION as nat, |i: int| 0u32),
    {
        let cabinet = Cabinet {
            history: vec![0; FFT_SIZE],
            head: 0,
            input_block: vec![0; PARTITION],
            output_block: vec![0; PARTITION],
            bypass_delay: vec![0; PARTITION],
            cursor: 0,
            impulse_response: Vec::new(),
            default_response: Vec::new(),
            prepared: false,
            heard: Ghost(Seq::empty()),
        };
        assert(cabinet.output_block@ =~= Seq::new(PARTITION as nat, |i: int| 0u32));
        cabinet
    }

    /// Latency the convolver introduces, in host samples.
    pub fn latency_samples() -> (latency: u32)
        ensures
            latency == PARTITION,
            latency == 64,
    {
        64
    }

    /// Clears every delay and the collected block, keeping the response.
    pub fn reset(&mut self)
        requires
            old(self).well_formed(),
        ensures
            final(self).well_formed(),
            final(self).inputs() == Seq::<u32>::empty(),
            final(self).wet() == Seq::new(PARTITION as nat, |i: int| 0u32),
            final(self).ready() == old(self).ready(),
            final(self).response() == old(self).response(),
            final(self).fallback() == old(self).fallback(),
    {
        self.silence();
    }

    /// Clears every buffer and counter.
    fn silence(&mut self)
        requires
            old(self).well_formed(),
        ensures
            final(self).well_formed(),
            final(self).history@ == window(Seq::<u32>::empty(), 0, 0),
            final(self).head == 0,
            final(self).heard@ == Seq::<u32>::empty(),
            final(self).output_block@ == Seq::new(PARTITION as nat, |i: int| 0u32),
            final(self).impulse_response == old(self).impulse_response,
            final(self).default_response == old(self).default_response,
            final(self).prepared == old(self).prepared,
    {
        clear(&mut self.history);
        clear(&mut self.input_block);
        clear(&mut self.output_block);
        clear(&mut self.bypass_delay);
        self.cursor = 0;
        self.head = 0;
        self.heard = Ghost(Seq::empty());
        assert(self.history@ =~= window(self.heard@, 0, 0));
        assert(self.output_block@ =~= Seq::new(PARTITION as nat, |i: int| 0u32));
    }

    /// Processes one sample at the host rate.
    ///
    /// Returns the output, and whether a block is complete and its
    /// [`Self::window`] is to be transformed. When `enabled` is false the dry
    /// signal is returned through a latency-matched delay, so the latency stays
    /// constant across the bypass toggle.
    #[verifier::spinoff_prover]
    #[verifier::rlimit(60)]
    pub fn process(&mut self, input: u32, enabled: bool) -> (result: (u32, bool))
        requires
            old(self).well_formed(),
        ensures
            final(self).well_formed(),
            final(self).inputs() == old(self).inputs().push(input),
            final(self).wet() == old(self).wet(),
            final(self).ready() == old(self).ready(),
            final(self).response() == old(self).response(),
            final(self).fallback() == old(self).fallback(),
            result.0 == if enabled && old(self).ready() {
                denormal::contained(
                    old(self).wet()[old(self).inputs().len() as int % (PARTITION as int)],
                    denormal::AUDIO_LIMIT,
                )
            } else {
                past(old(self).inputs(), old(self).inputs().len() - PARTITION, 0)
            },
            result.1 == (old(self).ready() && final(self).inputs().len() % (PARTITION as nat) == 0),
            (!enabled || !old(self).ready()) && old(self).inputs().len() >= 64 ==> result.0
                == old(self).inputs()[old(self).inputs().len() - 64],
            (!enabled || !old(self).ready()) && old(self).inputs().len() < 64 ==> result.0 == 0,
            result.1 ==> final(self).inputs().len() % 64 == 0,
    {
        let cursor: usize = self.cursor;
        let ghost before = self.heard@;
        let ghost n = before.len() as int;
        let dry: u32 = self.bypass_delay[cursor];
        let wet: u32 = self.output_block[cursor];
        self.bypass_delay[cursor] = input;
        self.input_block[cursor] = input;
        self.heard = Ghost(before.push(input));
        self.cursor = cursor + 1;
        let mut due: bool = false;
        if self.cursor >= PARTITION {
            self.cursor = 0;
            if self.prepared {
                self.slide();
                due = true;
                assert(self.history@ =~= window(self.heard@, (n + 1) / (PARTITION as int), 0));
            }
        } else {
            assert((n + 1) / (PARTITION as int) == n / (PARTITION as int));
            assert(window(self.heard@, n / (PARTITION as int), 0) =~= window(
                before,
                n / (PARTITION as int),
                0,
            ));
        }
        let output: u32 = if enabled && self.prepared {
            denormal::sanitize(wet)
        } else {
            dry
        };
        (output, due)
    }

    /// Drops the oldest block from the window, appends the one just collected,
    /// and moves the newest spectrum one ring slot back.
    fn slide(&mut self)
        requires
            old(self).history@.len() == FFT_SIZE,
            old(self).input_block@.len() == PARTITION,
            old(self).head < PARTITIONS,
        ensures
            final(self).history@ == old(self).history@.skip(PARTITION as int)
                + old(self).input_block@,
            final(self).head == (old(self).head + PARTITIONS - 1) % (PARTITIONS as int),
            final(self).input_block == old(self).input_block,
            final(self).output_block == old(self).output_block,
            final(self).bypass_delay == old(self).bypass_delay,
            final(self).cursor == old(self).cursor,
            final(self).impulse_response == old(self).impulse_response,
            final(self).default_response == old(self).default_response,
            final(self).prepared == old(self).prepared,
            final(self).heard == old(self).heard,
    {
        let ghost before = *self;
        let mut i: usize = 0;
        while i < PARTITION
            invariant
                i <= PARTITION,
                self.history@.len() == FFT_SIZE,
                before.history@.len() == FFT_SIZE,
                before.input_block@.len() == PARTITION,
                forall|k: int| 0 <= k < i ==> self.history@[k] == before.history@[k + PARTITION],
                forall|k: int|
                    0 <= k < i ==> #[trigger] self.history@[k + PARTITION]
                        == before.input_block@[k],
                forall|k: int|
                    i <= k < PARTITION ==> #[trigger] self.history@[k + PARTITION]
                        == before.history@[k + PARTITION],
                self.head == before.head,
                self.input_block == before.input_block,
                self.output_block == before.output_block,
                self.bypass_delay == before.bypass_delay,
                self.cursor == before.cursor,
                self.impulse_response == before.impulse_response,
                self.default_response == before.default_response,
                self.prepared == before.prepared,
                self.heard == before.heard,
            decreases PARTITION - i,
        {
            let older: u32 = self.history[i + PARTITION];
            let newer: u32 = self.input_block[i];
            self.history[i] = older;
            self.history[i + PARTITION] = newer;
            i = i + 1;
        }
        proof {
            let expected = before.history@.skip(PARTITION as int) + before.input_block@;
            assert forall|k: int| 0 <= k < FFT_SIZE implies self.history@[k] == expected[k] by {
                if k >= PARTITION {
                    assert(self.history@[(k - PARTITION) + PARTITION] == before.input_block@[k
                        - PARTITION]);
                }
            }
            assert(self.history@ =~= expected);
        }
        self.head = (self.head + PARTITIONS - 1) % PARTITIONS;
    }

    /// Takes over a freshly synthesised default response.
    ///
    /// Its frames are to be transformed next; [`Self::finish_prepare`] says
    /// whether that worked.
    pub fn begin_prepare(&mut self, default_response: Vec<u32>)
        requires
            old(self).well_formed(),
            default_response@.len() == IR_LENGTH,
        ensures
            final(self).well_formed(),
            final(self).response() == default_response@,
            final(self).fallback() == default_response@,
            !final(self).ready(),
            final(self).inputs() == old(self).inputs(),
            final(self).wet() == old(self).wet(),
    {
        self.prepared = false;
        self.impulse_response = vec![0; IR_LENGTH];
        copy(&mut self.impulse_response, default_response.as_slice());
        self.default_response = default_response;
    }

    /// Ends [`Self::begin_prepare`]: a cabinet whose transforms are in place is
    /// prepared and starts from silence, any other passes the dry signal
    /// through the same latency.
    pub fn finish_prepare(&mut self, transformed: bool) -> (prepared: bool)
        requires
            old(self).well_formed(),
            old(self).response().len() == IR_LENGTH,
            old(self).fallback().len() == IR_LENGTH,
        ensures
            final(self).well_formed(),
            prepared == transformed,
            final(self).ready() == transformed,
            final(self).response() == old(self).response(),
            final(self).fallback() == old(self).fallback(),
            transformed ==> final(self).inputs() == Seq::<u32>::empty() && final(self).wet()
                == Seq::new(PARTITION as nat, |i: int| 0u32),
            !transformed ==> final(self).inputs() == old(self).inputs() && final(self).wet()
                == old(self).wet(),
    {
        self.prepared = false;
        if transformed {
            self.silence();
            self.prepared = true;
        }
        transformed
    }

    /// The samples to transform when a block is complete.
    pub fn window(&self) -> (samples: &[u32])
        requires
            self.well_formed(),
            self.ready(),
        ensures
            samples@ == window(self.inputs(), self.inputs().len() as int / (PARTITION as int), 0),
            samples@.len() == 128,
            self.inputs().len() % 64 == 0 && self.inputs().len() >= 128 ==> forall|i: int|
                0 <= i < 128 ==> #[trigger] samples@[i] == self.inputs()[self.inputs().len() - 128
                    + i],
    {
        self.history.as_slice()
    }

    /// Ring slot of the spectrum from `ago` blocks ago. The newest, which the
    /// current window's spectrum replaces, is zero blocks old.
    pub fn slot(&self, ago: usize) -> (slot: usize)
        requires
            self.well_formed(),
            self.ready(),
            ago < PARTITIONS,
        ensures
            slot == (head_of(self.inputs().len() as int / (PARTITION as int)) + ago) % (
            PARTITIONS as int),
            slot < PARTITIONS,
    {
        (self.head + ago) % PARTITIONS
    }

    /// Takes the convolved block that the next [`PARTITION`] samples read back.
    pub fn finish_block(&mut self, block: &[u32])
        requires
            old(self).well_formed(),
            block@.len() == PARTITION,
        ensures
            final(self).well_formed(),
            final(self).wet() == block@,
            final(self).inputs() == old(self).inputs(),
            final(self).ready() == old(self).ready(),
            final(self).response() == old(self).response(),
            final(self).fallback() == old(self).fallback(),
    {
        copy(&mut self.output_block, block);
    }

    /// The impulse response currently loaded.
    pub fn impulse_response(&self) -> (taps: &[u32])
        ensures
            taps@ == self.response(),
    {
        self.impulse_response.as_slice()
    }

    /// Writes the frame of one partition of the response in force.
    pub fn partition_frame(&self, partition: usize, out: &mut [u32])
        requires
            partition < PARTITIONS,
            old(out)@.len() == FFT_SIZE,
        ensures
            final(out)@ == frame(self.response(), partition as int, 0),
            forall|i: int|
                64 <= i < 128 ==> #[trigger] final(out)@[i] == 0,
            self.response().len() == 4096 ==> forall|i: int|
                0 <= i < 64 ==> #[trigger] final(out)@[i] == self.response()[64 * partition + i],
    {
        let start: usize = partition * PARTITION;
        let mut i: usize = 0;
        while i < FFT_SIZE
            invariant
                i <= FFT_SIZE,
                out@.len() == FFT_SIZE,
                partition < PARTITIONS,
                start == partition * PARTITION,
                forall|k: int|
                    0 <= k < i ==> out@[k] == frame(self.response(), partition as int, 0)[k],
            decreases FFT_SIZE - i,
        {
            out[i] = if i < PARTITION && start + i < self.impulse_response.len() {
                self.impulse_response[start + i]
            } else {
                0
            };
            i = i + 1;
        }
        assert(out@ =~= frame(self.response(), partition as int, 0));
    }

    /// Decides whether `taps` can replace the running response, and if so
    /// writes them, cut or padded to [`IR_LENGTH`], into `out`, there to be
    /// levelled and handed to [`Self::commit_ir`].
    ///
    /// Refuses while the cabinet is not prepared, and refuses taps that are
    /// empty or hold what is no number.
    pub fn load_ir(&self, taps: &[u32], out: &mut [u32]) -> (accepted: bool)
        requires
            self.well_formed(),
            old(out)@.len() == IR_LENGTH,
        ensures
            accepted == (self.ready() && taps@.len() > 0 && ir::all_finite(taps@)),
            final(out)@ == if accepted {
                fitted(taps@)
            } else {
                old(out)@
            },
            accepted ==> forall|i: int|
                0 <= i < 4096 ==> #[trigger] final(out)@[i] == (if i < taps@.len() {
                    taps@[i]
                } else {
                    0
                }),
    {
        if !self.prepared || taps.len() == 0 || !ir::taps_are_finite(taps) {
            return false;
        }
        let mut i: usize = 0;
        while i < IR_LENGTH
            invariant
                i <= IR_LENGTH,
                out@.len() == IR_LENGTH,
                forall|k: int| 0 <= k < i ==> out@[k] == fitted(taps@)[k],
            decreases IR_LENGTH - i,
        {
            out[i] = if i < taps.len() {
                taps[i]
            } else {
                0
            };
            i = i + 1;
        }
        assert(out@ =~= fitted(taps@));
        true
    }

    /// Puts a levelled response in force.
    ///
    /// `levelled` is `None` where the response could not be levelled; the
    /// previous response keeps running then. The delays are deliberately *not*
    /// cleared: the tail already in flight belongs to audio that was played
    /// through the old cabinet.
    pub fn commit_ir(&mut self, levelled: Option<&[u32]>) -> (committed: bool)
        requires
            old(self).well_formed(),
            levelled matches Some(taps) ==> taps@.len() == IR_LENGTH,
        ensures
            final(self).well_formed(),
            committed == (old(self).ready() && levelled is Some),
            final(self).response() == match levelled {
                Some(taps) if old(self).ready() => taps@,
                _ => old(self).response(),
            },
            final(self).fallback() == old(self).fallback(),
            final(self).ready() == old(self).ready(),
            final(self).inputs() == old(self).inputs(),
            final(self).wet() == old(self).wet(),
    {
        if !self.prepared {
            return false;
        }
        match levelled {
            Some(taps) => {
                copy(&mut self.impulse_response, taps);
                true
            },
            None => false,
        }
    }

    /// Puts the synthesised response back.
    pub fn restore_default_ir(&mut self) -> (restored: bool)
        requires
            old(self).well_formed(),
        ensures
            final(self).well_formed(),
            restored == old(self).ready(),
            final(self).response() == if old(self).ready() {
                old(self).fallback()
            } else {
                old(self).response()
            },
            final(self).fallback() == old(self).fallback(),
            final(self).ready() == old(self).ready(),
            final(self).inputs() == old(self).inputs(),
            final(self).wet() == old(self).wet(),
    {
        if !self.prepared {
            return false;
        }
        copy(&mut self.impulse_response, self.default_response.as_slice());
        true
    }
}

impl Default for Cabinet {
    /// An unprepared cabinet.
    fn default() -> (cabinet: Self)
        ensures
            cabinet.well_formed(),
            !cabinet.ready(),
            cabinet.inputs() == Seq::<u32>::empty(),
            cabinet.response() == Seq::<u32>::empty(),
            cabinet.fallback() == Seq::<u32>::empty(),
            cabinet.wet() == Seq::new(PARTITION as nat, |i: int| 0u32),
    {
        Cabinet::new()
    }
}

/// Copies `source` over `target`.
fn copy(target: &mut Vec<u32>, source: &[u32])
    requires
        old(target)@.len() == source@.len(),
    ensures
        final(target)@ == source@,
{
    let mut i: usize = 0;
    while i < source.len()
        invariant
            i <= source@.len(),
            target@.len() == source@.len(),
            forall|k: int| 0 <= k < i ==> target@[k] == source@[k],
        decreases source@.len() - i,
    {
        target[i] = source[i];
        i = i + 1;
    }
    assert(target@ =~= source@);
}

/// Fills a buffer with silence.
fn clear(buffer: &mut Vec<u32>)
    ensures
        final(buffer)@ == Seq::new(old(buffer)@.len(), |i: int| 0u32),
{
    let mut i: usize = 0;
    let ghost length = buffer@.len();
    while i < buffer.len()
        invariant
            i <= buffer@.len(),
            buffer@.len() == length,
            forall|k: int| 0 <= k < i ==> buffer@[k] == 0,
        decreases buffer@.len() - i,
    {
        buffer[i] = 0;
        i = i + 1;
    }
    assert(buffer@ =~= Seq::new(length, |i: int| 0u32));
}

} // verus!
