//! Lock-free state shared between the audio thread and the editor.
//!
//! What an atomic cell holds is up to every thread that shares it, so nothing
//! is claimed of a single load. The contracts here say which cell every load
//! and store of a slot goes to, in which order, and what is made of the values
//! that were loaded, whatever they are. `slot_memory` says what follows where
//! one thread has the slot to itself, and `slot_laws` when the cells are shared.

use std::sync::atomic::{AtomicBool, AtomicU32, AtomicUsize};

use vstd::prelude::*;

use crate::cells;
use crate::cells::{Access, Log};

verus! {

/// Wait-free cell for one single-precision pattern.
///
/// The value is a standalone display quantity that guards no other memory, so
/// relaxed ordering is enough.
#[derive(Debug)]
pub struct AtomicLevel(AtomicU32);

impl AtomicLevel {
    /// Creates a cell holding `value`. As with [`Self::store`], that shows only
    /// in loads.
    pub fn new(value: u32) -> Self {
        AtomicLevel(AtomicU32::new(value))
    }

    /// Publishes `value`. Called from the audio thread. What the cell holds
    /// from then on shows only in loads, so there is nothing to state here.
    pub fn store(&self, value: u32) {
        let mut log: Log = Log::new();
        store_relaxed(&self.0, value, &mut log);
    }

    /// Reads the most recently published value. Called from the UI thread.
    /// Which value that is depends on the other threads.
    pub fn load(&self) -> u32 {
        let mut log: Log = Log::new();
        load_relaxed(&self.0, &mut log)
    }
}

impl Default for AtomicLevel {
    /// A cell holding zero.
    fn default() -> Self {
        AtomicLevel::new(0)
    }
}

/// Lock-free handoff of an impulse response from the editor to the audio
/// thread.
///
/// A seqlock: the editor stamps an odd generation before it writes and an even
/// one after, and the audio thread copies the payload between two matching even
/// stamps. If the two stamps disagree the copy is abandoned, and the next block
/// picks the response up. The audio side never blocks, never spins and never
/// allocates.
///
/// Taps and length are stored with release and loaded with acquire ordering: a
/// reader that catches a value of a later write has then also that write's odd
/// stamp to find when it looks at the generation again.
#[derive(Debug)]
pub struct IrSlot {
    /// Impulse response taps, as single-precision patterns.
    taps: Vec<AtomicU32>,
    /// Number of valid entries in `taps`. Zero means "use the default cab".
    length: AtomicUsize,
    /// Seqlock counter: odd while a write is in progress.
    generation: AtomicU32,
    /// Guards against two editor threads publishing at once.
    writing: AtomicBool,
}

/// The values one call of [`IrSlot::collect`] loaded. A call that finds nothing
/// new loads the generation alone.
#[verifier::ext_equal]
pub struct Reads {
    /// The generation before the copy.
    pub before: u32,
    /// The stored length.
    pub length: int,
    /// The taps that were copied.
    pub taps: Seq<u32>,
    /// The generation after the copy.
    pub after: u32,
}

/// What one call of [`IrSlot::publish`] did.
pub struct Published {
    /// The writes it made.
    pub writes: Ghost<Seq<SlotStore>>,
    /// Every access to a cell, in order.
    pub log: Log,
}

/// What one call of [`IrSlot::collect`] did.
pub struct Collected {
    /// The values it loaded.
    pub reads: Ghost<Reads>,
    /// Every access to a cell, in order.
    pub log: Log,
}

/// The taps copied into a buffer of `room` entries: those loaded, and silence
/// behind them.
pub open spec fn copied(reads: Reads, room: nat) -> Seq<u32> {
    Seq::new(
        room,
        |i: int|
            if i < reads.length && i < reads.taps.len() {
                reads.taps[i]
            } else {
                0
            },
    )
}

/// Whether the loaded generation promises a response not seen yet.
pub open spec fn worth_copying(generation: u32, seen: u32) -> bool {
    generation % 2 == 0 && generation != seen
}

/// What [`IrSlot::collect`] makes of the values it loaded: the length it
/// returns, the generation seen last, and the destination.
pub open spec fn collect_outcome(reads: Reads, seen: u32, destination: Seq<u32>) -> (
    Option<int>,
    u32,
    Seq<u32>,
) {
    if !worth_copying(reads.before, seen) {
        (None, seen, destination)
    } else if reads.after != reads.before {
        (None, seen, copied(reads, destination.len()))
    } else {
        (
            Some(
                if reads.length < destination.len() {
                    reads.length
                } else {
                    destination.len() as int
                },
            ),
            reads.before,
            copied(reads, destination.len()),
        )
    }
}

/// The generation that marks a write in progress.
pub open spec fn odd_stamp(generation: u32) -> u32 {
    ((generation + 1) % 0x1_0000_0000) as u32
}

/// The generation that marks a finished write.
pub open spec fn even_stamp(generation: u32) -> u32 {
    ((generation + 2) % 0x1_0000_0000) as u32
}

fn load_relaxed(cell: &AtomicU32, log: &mut Log) -> (value: u32)
    ensures
        final(log)@ == old(log)@.push(Access::LoadWord { cell: *cell, value }),
{
    cells::load_relaxed(cell, log)
}

fn load_acquire(cell: &AtomicU32, log: &mut Log) -> (value: u32)
    ensures
        final(log)@ == old(log)@.push(Access::LoadWord { cell: *cell, value }),
{
    cells::load_acquire(cell, log)
}

fn store_relaxed(cell: &AtomicU32, value: u32, log: &mut Log)
    ensures
        final(log)@ == old(log)@.push(Access::StoreWord { cell: *cell, value }),
{
    cells::store_relaxed(cell, value, log)
}

fn store_release(cell: &AtomicU32, value: u32, log: &mut Log)
    ensures
        final(log)@ == old(log)@.push(Access::StoreWord { cell: *cell, value }),
{
    cells::store_release(cell, value, log)
}

fn load_length(cell: &AtomicUsize, log: &mut Log) -> (value: usize)
    ensures
        final(log)@ == old(log)@.push(Access::LoadLength { cell: *cell, value }),
{
    cells::load_length(cell, log)
}

fn store_length(cell: &AtomicUsize, value: usize, log: &mut Log)
    ensures
        final(log)@ == old(log)@.push(Access::StoreLength { cell: *cell, value }),
{
    cells::store_length(cell, value, log)
}

fn claim(cell: &AtomicBool, log: &mut Log) -> (taken: bool)
    ensures
        final(log)@ == old(log)@.push(Access::Claim { flag: *cell, taken }),
{
    is_claimed(cells::raise(cell, log))
}

fn release(cell: &AtomicBool, log: &mut Log)
    ensures
        final(log)@ == old(log)@.push(Access::Release { flag: *cell }),
{
    cells::lower(cell, log)
}

/// Decides whether the exchange that raises the writing flag took the claim: it
/// did if the flag was down, so that the exchange went through.
pub fn is_claimed(exchange: Result<bool, bool>) -> (yes: bool)
    ensures
        yes == (exchange is Ok),
{
    match exchange {
        Ok(_) => true,
        Err(_) => false,
    }
}

/// Decides whether a loaded generation is worth a copy: even, so that no write
/// is in flight, and not the one seen last.
pub fn is_worth_copying(generation: u32, seen: u32) -> (yes: bool)
    ensures
        yes == worth_copying(generation, seen),
{
    generation % 2 == 0 && generation != seen
}

/// Ends a collect that found the generation `before` worth a copy, loaded the
/// number `stored` of valid taps, copied those that `cells` cells hold to the
/// front of `destination`, and then found the generation `again`.
///
/// Whatever stands behind those taps is silenced. If the generation has moved on
/// meanwhile, the copy may mix two responses and is abandoned; otherwise `seen`
/// is advanced, and the number of valid taps returned.
pub fn settle_collect(
    before: u32,
    again: u32,
    stored: usize,
    cells: usize,
    seen: &mut u32,
    destination: &mut [u32],
) -> (result: Option<usize>)
    ensures
        final(destination)@ == Seq::new(
            old(destination)@.len(),
            |i: int|
                if i < stored && i < cells {
                    old(destination)@[i]
                } else {
                    0u32
                },
        ),
        again == before ==> result == Some(
            carried(stored as nat, old(destination)@.len()) as usize,
        ) && *final(seen) == before,
        again != before ==> result is None && *final(seen) == *old(seen),
{
    let ghost start = destination@;
    let room: usize = destination.len();
    let length: usize = carried_length(stored, room);
    let mut i: usize = carried_length(length, cells);
    while i < room
        invariant
            carried(carried(stored as nat, room as nat), cells as nat) <= i <= room,
            room == destination@.len(),
            room == start.len(),
            forall|k: int|
                0 <= k < room ==> #[trigger] destination@[k] == (if (k < stored && k < cells) || k
                    >= i {
                    start[k]
                } else {
                    0u32
                }),
        decreases room - i,
    {
        destination[i] = 0;
        i = i + 1;
    }
    if again != before {
        return None;
    }
    *seen = before;
    Some(length)
}

/// The generation a reader starts from when `generation` is loaded: the last
/// finished one.
pub fn settled_generation(generation: u32) -> (settled: u32)
    ensures
        settled == generation - generation % 2,
{
    generation - generation % 2
}

/// One write to the cells of a slot.
#[derive(Debug, Clone, Copy, PartialEq, Eq)]
pub enum SlotStore {
    /// A new generation.
    Generation(u32),
    /// One tap.
    Tap {
        /// Which cell.
        index: usize,
        /// What to put there.
        value: u32,
    },
    /// The number of valid taps.
    Length(usize),
}

/// Length of the payload when `offered` taps meet `room` cells.
pub open spec fn carried(offered: nat, room: nat) -> nat {
    if offered < room {
        offered
    } else {
        room
    }
}

/// Number of taps a collect loads when `stored` are valid: no more than its
/// destination has room for, nor than there are cells.
pub open spec fn copied_taps(stored: nat, wanted: nat, room: nat) -> nat {
    carried(carried(stored, wanted), room)
}

/// The `k`-th write of a publish that found `generation`: the odd stamp, the
/// taps, their number, and the even stamp.
pub open spec fn store_at(generation: u32, taps: Seq<u32>, room: nat, k: nat) -> SlotStore {
    let length = carried(taps.len(), room);
    if k == 0 {
        SlotStore::Generation(odd_stamp(generation))
    } else if k <= length {
        SlotStore::Tap { index: (k - 1) as usize, value: taps[k - 1] }
    } else if k == length + 1 {
        SlotStore::Length(length as usize)
    } else {
        SlotStore::Generation(even_stamp(generation))
    }
}

/// The writes of a publish that found `generation`, in order.
pub open spec fn publish_writes(generation: u32, taps: Seq<u32>, room: nat) -> Seq<SlotStore> {
    Seq::new(carried(taps.len(), room) + 3, |k: int| store_at(generation, taps, room, k as nat))
}

/// Length of the payload when `offered` taps meet `room` cells.
pub fn carried_length(offered: usize, room: usize) -> (length: usize)
    ensures
        length == carried(offered as nat, room as nat),
        length <= offered,
        length <= room,
        length == offered || length == room,
{
    if offered < room {
        offered
    } else {
        room
    }
}

/// The `k`-th write of a publish that found `generation`.
pub fn store_step(generation: u32, taps: &[u32], room: usize, k: usize) -> (store: SlotStore)
    ensures
        store == store_at(generation, taps@, room as nat, k as nat),
{
    let length: usize = carried_length(taps.len(), room);
    if k == 0 {
        SlotStore::Generation(generation.wrapping_add(1))
    } else if k <= length {
        SlotStore::Tap { index: k - 1, value: taps[k - 1] }
    } else if k - 1 == length {
        SlotStore::Length(length)
    } else {
        SlotStore::Generation(generation.wrapping_add(2))
    }
}

impl IrSlot {
    /// Taps the slot can carry.
    pub open spec fn room(&self) -> nat {
        self.tap_cells().len()
    }

    /// The cells of the taps.
    pub closed spec fn tap_cells(&self) -> Seq<AtomicU32> {
        self.taps@
    }

    /// The cell of the generation.
    pub closed spec fn generation_cell(&self) -> AtomicU32 {
        self.generation
    }

    /// The cell of the length.
    pub closed spec fn length_cell(&self) -> AtomicUsize {
        self.length
    }

    /// The flag that a publish in progress has raised.
    pub closed spec fn writing_flag(&self) -> AtomicBool {
        self.writing
    }

    /// Where one write goes.
    pub open spec fn place(&self, store: SlotStore) -> Access {
        match store {
            SlotStore::Generation(value) => Access::StoreWord {
                cell: self.generation_cell(),
                value,
            },
            SlotStore::Tap { index, value } => Access::StoreWord {
                cell: self.tap_cells()[index as int],
                value,
            },
            SlotStore::Length(value) => Access::StoreLength { cell: self.length_cell(), value },
        }
    }

    /// Where a run of writes goes.
    pub open spec fn placed(&self, writes: Seq<SlotStore>) -> Seq<Access> {
        Seq::new(writes.len(), |k: int| self.place(writes[k]))
    }

    /// Whether this is what publishing `taps` does: nothing once the flag is
    /// found raised, and otherwise all the writes, with the flag raised around
    /// them.
    pub open spec fn publishes(&self, taps: Seq<u32>, published: bool, record: Published) -> bool {
        if published {
            exists|generation: u32|
                {
                    &&& record.writes@ == #[trigger] publish_writes(generation, taps, self.room())
                    &&& record.log@ == seq![
                        Access::Claim { flag: self.writing_flag(), taken: true },
                        Access::LoadWord { cell: self.generation_cell(), value: generation },
                    ] + self.placed(record.writes@) + seq![
                        Access::Release { flag: self.writing_flag() },
                    ]
                }
        } else {
            &&& record.writes@ == Seq::<SlotStore>::empty()
            &&& record.log@ == seq![Access::Claim { flag: self.writing_flag(), taken: false }]
        }
    }

    /// The loads of a collect that loaded `reads`: the generation, and where it
    /// is worth a copy the length, the taps from the first on, and the
    /// generation again.
    pub open spec fn loads(&self, reads: Reads, copied: bool) -> Seq<Access> {
        let first = seq![Access::LoadWord { cell: self.generation_cell(), value: reads.before }];
        if !copied {
            first
        } else {
            first + seq![
                Access::LoadLength { cell: self.length_cell(), value: reads.length as usize },
            ] + Seq::new(
                reads.taps.len(),
                |i: int| Access::LoadWord { cell: self.tap_cells()[i], value: reads.taps[i] },
            ) + seq![Access::LoadWord { cell: self.generation_cell(), value: reads.after }]
        }
    }

    /// Whether this is what collecting into `destination` does, for a reader that
    /// saw the generation `seen` last: what it returns, the generation seen then,
    /// and the destination follow from the values that were loaded.
    pub open spec fn collects(
        &self,
        seen: u32,
        destination: Seq<u32>,
        result: Option<usize>,
        seen_after: u32,
        destination_after: Seq<u32>,
        record: Collected,
    ) -> bool {
        let reads = record.reads@;
        let copying = worth_copying(reads.before, seen);
        let expected = collect_outcome(reads, seen, destination);
        &&& 0 <= reads.length <= usize::MAX
        &&& copying ==> reads.taps.len() == copied_taps(
            reads.length as nat,
            destination.len(),
            self.room(),
        )
        &&& record.log@ == self.loads(reads, copying)
        &&& (result is Some) == (expected.0 is Some)
        &&& result is Some ==> result->0 == expected.0->0
        &&& seen_after == expected.1
        &&& destination_after == expected.2
    }

    /// Creates a slot able to carry `capacity` taps.
    ///
    /// Allocates, so call this when the plugin is constructed, never later.
    pub fn new(capacity: usize) -> (slot: Self)
        ensures
            slot.room() == capacity,
    {
        let mut taps: Vec<AtomicU32> = Vec::new();
        while taps.len() < capacity
            invariant
                taps@.len() <= capacity,
            decreases capacity - taps@.len(),
        {
            taps.push(AtomicU32::new(0));
        }
        IrSlot {
            taps,
            length: AtomicUsize::new(0),
            generation: AtomicU32::new(0),
            writing: AtomicBool::new(false),
        }
    }

    /// Taps this slot can carry.
    pub fn capacity(&self) -> (capacity: usize)
        ensures
            capacity == self.room(),
    {
        self.taps.len()
    }

    /// Publishes `taps` for the audio thread. Called from the editor.
    ///
    /// Anything beyond [`Self::capacity`] is dropped; the loader is expected to
    /// have truncated already. Returns `false` if another thread is mid-publish,
    /// in which case nothing was written and the caller should try again.
    ///
    /// The record handed back beside it says which writes were made, and to
    /// which cells: all those of a publish, in order, or none. Whether the slot
    /// was free depends on the other threads.
    pub fn publish(&self, taps: &[u32]) -> (outcome: (bool, Published))
        ensures
            self.publishes(taps@, outcome.0, outcome.1),
            outcome.0 ==> exists|generation: u32|
                outcome.1.writes@ == #[trigger] publish_writes(generation, taps@, self.room()),
            !outcome.0 ==> outcome.1.writes@ == Seq::<SlotStore>::empty(),
    {
        let mut log: Log = Log::new();
        let mut writes: Ghost<Seq<SlotStore>> = Ghost(Seq::empty());
        if !claim(&self.writing, &mut log) {
            assert(log@ =~= seq![Access::Claim { flag: self.writing, taken: false }]);
            return (false, Published { writes, log });
        }
        let generation: u32 = load_relaxed(&self.generation, &mut log);
        let ghost before = log@;
        self.write_response(generation, taps, &mut writes, &mut log);
        release(&self.writing, &mut log);
        proof {
            let opening = seq![
                Access::Claim { flag: self.writing, taken: true },
                Access::LoadWord { cell: self.generation, value: generation },
            ];
            let closing = seq![Access::Release { flag: self.writing }];
            assert(before =~= opening);
            assert(log@ =~= opening + self.placed(writes@) + closing);
            assert(writes@ == publish_writes(generation, taps@, self.room()));
        }
        (true, Published { writes, log })
    }

    /// Makes the writes of a publish that found `generation`.
    fn write_response(
        &self,
        generation: u32,
        taps: &[u32],
        writes: &mut Ghost<Seq<SlotStore>>,
        log: &mut Log,
    )
        requires
            old(writes)@ == Seq::<SlotStore>::empty(),
        ensures
            final(writes)@ == publish_writes(generation, taps@, self.room()),
            final(log)@ == old(log)@ + self.placed(final(writes)@),
    {
        let room: usize = self.taps.len();
        let length: usize = carried_length(taps.len(), room);
        let ghost all = publish_writes(generation, taps@, room as nat);
        let ghost before = log@;
        self.perform(store_step(generation, taps, room, 0), writes, log);
        assert(writes@ =~= all.take(1));
        assert(log@ =~= before + self.placed(writes@));
        let mut stored: usize = 0;
        while stored < length
            invariant
                stored <= length,
                length == carried(taps@.len(), room as nat),
                room == self.room(),
                all == publish_writes(generation, taps@, room as nat),
                writes@ == all.take(stored + 1),
                log@ == before + self.placed(writes@),
            decreases length - stored,
        {
            self.perform(store_step(generation, taps, room, stored + 1), writes, log);
            stored = stored + 1;
            assert(writes@ =~= all.take(stored + 1));
            assert(log@ =~= before + self.placed(writes@));
        }
        self.perform(SlotStore::Length(length), writes, log);
        assert(log@ =~= before + self.placed(writes@));
        self.perform(SlotStore::Generation(generation.wrapping_add(2)), writes, log);
        assert(log@ =~= before + self.placed(writes@));
        assert(writes@ =~= all);
    }

    /// Carries out one write and records it.
    fn perform(
        &self,
        store: SlotStore,
        writes: &mut Ghost<Seq<SlotStore>>,
        log: &mut Log,
    )
        requires
            store matches SlotStore::Tap { index, .. } ==> index < self.room(),
        ensures
            final(writes)@ == old(writes)@.push(store),
            final(log)@ == old(log)@.push(self.place(store)),
    {
        match store {
            SlotStore::Generation(generation) => store_release(&self.generation, generation, log),
            SlotStore::Tap { index, value } => store_release(&self.taps[index], value, log),
            SlotStore::Length(length) => store_length(&self.length, length, log),
        }
        proof {
            writes@ = writes@.push(store);
        }
    }

    /// Publishes the "revert to the built-in cabinet" request.
    ///
    /// Carried as a zero-length payload so the audio thread never has to
    /// synthesise anything, which it could not do without allocating.
    pub fn publish_default(&self) -> (outcome: (bool, Published))
        ensures
            self.publishes(Seq::<u32>::empty(), outcome.0, outcome.1),
            outcome.0 ==> exists|generation: u32|
                outcome.1.writes@ == #[trigger] publish_writes(
                    generation,
                    Seq::<u32>::empty(),
                    self.room(),
                ),
            !outcome.0 ==> outcome.1.writes@ == Seq::<SlotStore>::empty(),
    {
        let nothing: [u32; 0] = [];
        assert(nothing@ =~= Seq::<u32>::empty());
        self.publish(&nothing)
    }

    /// Collects a newly published response into `destination`.
    ///
    /// `seen` is the caller's record of the last generation it consumed; it is
    /// advanced only on a successful read. Returns the number of valid taps
    /// written into `destination`, or `None` when there is nothing new. A
    /// returned length of zero is a request to restore the default cabinet.
    ///
    /// The record handed back beside it says which values were loaded, and from
    /// which cells; they decide everything else. What they are depends on the
    /// other threads.
    pub fn collect(&self, seen: &mut u32, destination: &mut [u32]) -> (outcome: (
        Option<usize>,
        Collected,
    ))
        ensures
            self.collects(
                *old(seen),
                old(destination)@,
                outcome.0,
                *final(seen),
                final(destination)@,
                outcome.1,
            ),
            ({
                let reads = outcome.1.reads@;
                let expected = collect_outcome(reads, *old(seen), old(destination)@);
                &&& 0 <= reads.length <= usize::MAX
                &&& worth_copying(reads.before, *old(seen)) ==> reads.taps.len() == copied_taps(
                    reads.length as nat,
                    old(destination)@.len(),
                    self.room(),
                )
                &&& outcome.1.log@ == self.loads(reads, worth_copying(reads.before, *old(seen)))
                &&& (outcome.0 is Some) == (expected.0 is Some)
                &&& outcome.0 is Some ==> outcome.0->0 == expected.0->0
                &&& *final(seen) == expected.1
                &&& final(destination)@ == expected.2
            }),
    {
        let mut log: Log = Log::new();
        let generation: u32 = load_acquire(&self.generation, &mut log);
        let ghost start = destination@;
        if !is_worth_copying(generation, *seen) {
            let reads: Ghost<Reads> = Ghost(
                Reads { before: generation, length: 0, taps: seq![], after: generation },
            );
            assert(log@ =~= self.loads(reads@, false));
            return (None, Collected { reads, log });
        }
        let stored: usize = load_length(&self.length, &mut log);
        let ghost opening = log@;
        let cells: usize = self.taps.len();
        let length: usize = carried_length(carried_length(stored, destination.len()), cells);
        let mut i: usize = 0;
        while i < length
            invariant
                i <= length,
                length <= cells,
                cells == self.room(),
                length <= start.len(),
                destination@.len() == start.len(),
                log@ == opening + Seq::new(
                    i as nat,
                    |k: int|
                        Access::LoadWord { cell: self.tap_cells()[k], value: destination@[k] },
                ),
            decreases length - i,
        {
            let ghost so_far = destination@;
            destination[i] = load_acquire(&self.taps[i], &mut log);
            assert(forall|k: int| 0 <= k < i ==> destination@[k] == so_far[k]);
            i = i + 1;
            assert(log@ =~= opening + Seq::new(
                i as nat,
                |k: int| Access::LoadWord { cell: self.tap_cells()[k], value: destination@[k] },
            ));
        }
        let ghost loaded = destination@.take(length as int);
        let again: u32 = load_acquire(&self.generation, &mut log);
        let result: Option<usize> = settle_collect(
            generation,
            again,
            stored,
            cells,
            seen,
            destination,
        );
        let reads: Ghost<Reads> = Ghost(
            Reads { before: generation, length: stored as int, taps: loaded, after: again },
        );
        assert(destination@ =~= copied(reads@, start.len()));
        assert(log@ =~= self.loads(reads@, true));
        (result, Collected { reads, log })
    }

    /// The generation a fresh reader should start from.
    ///
    /// Reading the current value rather than starting at zero means a reader
    /// created after a response was published does not immediately re-collect
    /// it.
    pub fn current_generation(&self) -> (generation: u32)
        ensures
            generation % 2 == 0,
    {
        let mut log: Log = Log::new();
        settled_generation(load_acquire(&self.generation, &mut log))
    }
}

} // verus!
