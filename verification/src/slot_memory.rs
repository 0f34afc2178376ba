//! What holds of an impulse response slot that one thread has to itself.
//!
//! The cells of a slot are objects in memory, and memory gives back at a cell
//! what was stored there last. Every access that [`IrSlot::publish`] and
//! [`IrSlot::collect`] make is in their records, so what one call leaves behind
//! and the next one finds can be followed from cell to cell.

use std::sync::atomic::{AtomicBool, AtomicU32, AtomicUsize};

use vstd::prelude::*;

use crate::cells::Access;
use crate::shared::{Collected, IrSlot, Published};

verus! {

/// What cells hold.
#[verifier::ext_equal]
pub struct Memory {
    /// The words.
    pub words: Map<AtomicU32, u32>,
    /// The lengths.
    pub lengths: Map<AtomicUsize, usize>,
    /// The flags.
    pub flags: Map<AtomicBool, bool>,
}

/// Memory after one access.
pub open spec fn after_one(memory: Memory, access: Access) -> Memory {
    match access {
        Access::StoreWord { cell, value } => Memory {
            words: memory.words.insert(cell, value),
            ..memory
        },
        Access::StoreLength { cell, value } => Memory {
            lengths: memory.lengths.insert(cell, value),
            ..memory
        },
        Access::Claim { flag, .. } => Memory { flags: memory.flags.insert(flag, true), ..memory },
        Access::Release { flag } => Memory { flags: memory.flags.insert(flag, false), ..memory },
        _ => memory,
    }
}

/// Whether an access found what memory holds.
pub open spec fn found(memory: Memory, access: Access) -> bool {
    match access {
        Access::LoadWord { cell, value } => memory.words[cell] == value,
        Access::LoadLength { cell, value } => memory.lengths[cell] == value,
        Access::Claim { flag, taken } => taken == !memory.flags[flag],
        _ => true,
    }
}

/// Memory after a run of accesses.
pub open spec fn after(memory: Memory, log: Seq<Access>) -> Memory
    decreases log.len(),
{
    if log.len() == 0 {
        memory
    } else {
        after_one(after(memory, log.drop_last()), log.last())
    }
}

/// Whether every access of a run found what memory held by then: nobody else
/// came in between.
pub open spec fn undisturbed(memory: Memory, log: Seq<Access>) -> bool
    decreases log.len(),
{
    log.len() == 0 || (undisturbed(memory, log.drop_last()) && found(
        after(memory, log.drop_last()),
        log.last(),
    ))
}

/// Whether the words of a slot are different cells.
pub open spec fn separate(slot: IrSlot) -> bool {
    &&& forall|i: int, j: int|
        0 <= i < j < slot.tap_cells().len() ==> #[trigger] slot.tap_cells()[i]
            != #[trigger] slot.tap_cells()[j]
    &&& forall|i: int|
        0 <= i < slot.tap_cells().len() ==> #[trigger] slot.tap_cells()[i]
            != slot.generation_cell()
}

/// One run behind another.
proof fn lemma_after_add(memory: Memory, a: Seq<Access>, b: Seq<Access>)
    ensures
        after(memory, a + b) == after(after(memory, a), b),
        undisturbed(memory, a + b) == (undisturbed(memory, a) && undisturbed(after(memory, a), b)),
    decreases b.len(),
{
    if b.len() == 0 {
        assert(a + b =~= a);
    } else {
        assert((a + b).drop_last() =~= a + b.drop_last());
        lemma_after_add(memory, a, b.drop_last());
    }
}

/// A run of one access.
proof fn lemma_after_single(memory: Memory, access: Access)
    ensures
        after(memory, seq![access]) == after_one(memory, access),
        undisturbed(memory, seq![access]) == found(memory, access),
{
    reveal_with_fuel(after, 2);
    reveal_with_fuel(undisturbed, 2);
    assert(seq![access].drop_last() =~= Seq::<Access>::empty());
}

/// Whether an access is a load.
pub open spec fn is_load(access: Access) -> bool {
    access is LoadWord || access is LoadLength
}

/// Loads change nothing, and each finds what memory held before the first.
proof fn lemma_loads(memory: Memory, log: Seq<Access>)
    requires
        forall|k: int| 0 <= k < log.len() ==> is_load(#[trigger] log[k]),
    ensures
        after(memory, log) == memory,
        undisturbed(memory, log) ==> forall|k: int|
            0 <= k < log.len() ==> found(memory, #[trigger] log[k]),
    decreases log.len(),
{
    if log.len() > 0 {
        let shorter = log.drop_last();
        assert forall|k: int| 0 <= k < shorter.len() implies is_load(#[trigger] shorter[k]) by {
            assert(shorter[k] == log[k]);
        }
        lemma_loads(memory, shorter);
        assert(is_load(log[log.len() - 1]));
        if undisturbed(memory, log) {
            assert forall|k: int| 0 <= k < log.len() implies found(memory, #[trigger] log[k]) by {
                if k < shorter.len() {
                    assert(found(memory, shorter[k]));
                }
            }
        }
    }
}

/// What memory holds after some of the writes of a publish.
proof fn lemma_after_stores(
    slot: IrSlot,
    memory: Memory,
    generation: u32,
    taps: Seq<u32>,
    count: nat,
)
    requires
        separate(slot),
        slot.room() <= usize::MAX,
        count <= crate::shared::carried(taps.len(), slot.room()) + 3,
    ensures
        ({
            let length = crate::shared::carried(taps.len(), slot.room());
            let writes = crate::shared::publish_writes(generation, taps, slot.room());
            let now = after(memory, slot.placed(writes.take(count as int)));
            &&& forall|i: int|
                0 <= i < length && i + 1 < count ==> now.words[#[trigger] slot.tap_cells()[i]]
                    == taps[i]
            &&& count >= length + 2 ==> now.lengths[slot.length_cell()] == length
            &&& count == length + 3 ==> now.words[slot.generation_cell()]
                == crate::shared::even_stamp(generation)
            &&& now.flags == memory.flags
        }),
    decreases count,
{
    if count > 0 {
        let length = crate::shared::carried(taps.len(), slot.room());
        let writes = crate::shared::publish_writes(generation, taps, slot.room());
        let before = writes.take(count - 1);
        let last = writes[count - 1];
        lemma_after_stores(slot, memory, generation, taps, (count - 1) as nat);
        assert(slot.placed(writes.take(count as int)) =~= slot.placed(before) + seq![
            slot.place(last),
        ]);
        lemma_after_add(memory, slot.placed(before), seq![slot.place(last)]);
        lemma_after_single(after(memory, slot.placed(before)), slot.place(last));
    }
}

/// What a publish on a slot at rest leaves in memory.
proof fn lemma_after_publish(
    slot: IrSlot,
    memory: Memory,
    taps: Seq<u32>,
    published: bool,
    record: Published,
)
    requires
        separate(slot),
        slot.room() <= usize::MAX,
        !memory.flags[slot.writing_flag()],
        slot.publishes(taps, published, record),
        undisturbed(memory, record.log@),
    ensures
        published,
        ({
            let length = crate::shared::carried(taps.len(), slot.room());
            let now = after(memory, record.log@);
            &&& forall|i: int|
                0 <= i < length ==> now.words[#[trigger] slot.tap_cells()[i]] == taps[i]
            &&& now.lengths[slot.length_cell()] == length
            &&& now.words[slot.generation_cell()] == crate::shared::even_stamp(
                memory.words[slot.generation_cell()],
            )
            &&& !now.flags[slot.writing_flag()]
        }),
{
    let flag = slot.writing_flag();
    if !published {
        lemma_after_single(memory, Access::Claim { flag, taken: false });
    } else {
        let generation = choose|generation: u32|
            {
                &&& record.writes@ == #[trigger] crate::shared::publish_writes(
                    generation,
                    taps,
                    slot.room(),
                )
                &&& record.log@ == seq![
                    Access::Claim { flag, taken: true },
                    Access::LoadWord { cell: slot.generation_cell(), value: generation },
                ] + slot.placed(record.writes@) + seq![Access::Release { flag }]
            };
        let claim = Access::Claim { flag, taken: true };
        let load = Access::LoadWord { cell: slot.generation_cell(), value: generation };
        let stores = slot.placed(record.writes@);
        let release = Access::Release { flag };
        let opening = seq![claim, load];
        assert(opening =~= seq![claim] + seq![load]);
        lemma_after_add(memory, opening + stores, seq![release]);
        lemma_after_add(memory, opening, stores);
        lemma_after_add(memory, seq![claim], seq![load]);
        lemma_after_single(memory, claim);
        lemma_after_single(after(memory, seq![claim]), load);
        lemma_after_single(after(memory, opening + stores), release);
        let length = crate::shared::carried(taps.len(), slot.room());
        lemma_after_stores(slot, after(memory, opening), generation, taps, length + 3);
        assert(record.writes@.take((length + 3) as int) =~= record.writes@);
        assert(generation == memory.words[slot.generation_cell()]);
    }
}

/// What a collect that nobody disturbs loads.
proof fn lemma_collected(
    slot: IrSlot,
    memory: Memory,
    seen: u32,
    destination: Seq<u32>,
    result: Option<usize>,
    seen_after: u32,
    destination_after: Seq<u32>,
    record: Collected,
)
    requires
        slot.collects(seen, destination, result, seen_after, destination_after, record),
        undisturbed(memory, record.log@),
    ensures
        after(memory, record.log@) == memory,
        record.reads@.before == memory.words[slot.generation_cell()],
        crate::shared::worth_copying(record.reads@.before, seen) ==> {
            &&& record.reads@.length == memory.lengths[slot.length_cell()]
            &&& record.reads@.after == record.reads@.before
            &&& forall|i: int|
                0 <= i < record.reads@.taps.len() ==> #[trigger] record.reads@.taps[i]
                    == memory.words[slot.tap_cells()[i]]
        },
{
    let reads = record.reads@;
    let copying = crate::shared::worth_copying(reads.before, seen);
    let log = slot.loads(reads, copying);
    assert forall|k: int| 0 <= k < log.len() implies is_load(#[trigger] log[k]) by {}
    lemma_loads(memory, log);
    assert(found(memory, log[0]));
    if copying {
        assert(found(memory, log[1]));
        assert(found(memory, log[log.len() - 1]));
        assert forall|i: int| 0 <= i < reads.taps.len() implies #[trigger] reads.taps[i]
            == memory.words[slot.tap_cells()[i]] by {
            assert(log[i + 2] == (Access::LoadWord {
                cell: slot.tap_cells()[i],
                value: reads.taps[i],
            }));
            assert(found(memory, log[i + 2]));
        }
    }
}

/// What is published is what is collected: with nobody else at the slot, a
/// publish of `taps` goes through, and the collect behind it returns how many of
/// them the slot and the destination have room for, and puts each in its place,
/// with silence behind them.
pub proof fn law_a_published_response_comes_back(
    slot: IrSlot,
    memory: Memory,
    taps: Seq<u32>,
    published: bool,
    publishing: Published,
    seen: u32,
    destination: Seq<u32>,
    result: Option<usize>,
    seen_after: u32,
    destination_after: Seq<u32>,
    collecting: Collected,
)
    requires
        separate(slot),
        slot.room() <= usize::MAX,
        !memory.flags[slot.writing_flag()],
        memory.words[slot.generation_cell()] % 2 == 0,
        slot.publishes(taps, published, publishing),
        undisturbed(memory, publishing.log@),
        seen != (memory.words[slot.generation_cell()] + 2) % 0x1_0000_0000,
        slot.collects(seen, destination, result, seen_after, destination_after, collecting),
        undisturbed(after(memory, publishing.log@), collecting.log@),
    ensures
        published,
        result matches Some(count) && {
            &&& count <= taps.len() && count <= slot.room() && count <= destination.len()
            &&& count == taps.len() || count == slot.room() || count == destination.len()
            &&& forall|i: int| 0 <= i < count ==> #[trigger] destination_after[i] == taps[i]
            &&& forall|i: int|
                count <= i < destination.len() ==> #[trigger] destination_after[i] == 0
        },
        destination_after.len() == destination.len(),
        seen_after == (memory.words[slot.generation_cell()] + 2) % 0x1_0000_0000,
{
    lemma_after_publish(slot, memory, taps, published, publishing);
    let now = after(memory, publishing.log@);
    lemma_collected(
        slot,
        now,
        seen,
        destination,
        result,
        seen_after,
        destination_after,
        collecting,
    );
    let reads = collecting.reads@;
    let stamp = now.words[slot.generation_cell()];
    assert(stamp % 2 == 0 && stamp != seen);
    let count = result->0;
    assert forall|i: int| 0 <= i < count implies #[trigger] destination_after[i] == taps[i] by {
        assert(reads.taps[i] == now.words[slot.tap_cells()[i]]);
    }
}

/// A response is collected once: a reader that has seen the generation the slot
/// holds gets nothing, and its destination is left alone.
pub proof fn law_nothing_comes_back_twice(
    slot: IrSlot,
    memory: Memory,
    seen: u32,
    destination: Seq<u32>,
    result: Option<usize>,
    seen_after: u32,
    destination_after: Seq<u32>,
    collecting: Collected,
)
    requires
        memory.words[slot.generation_cell()] == seen || memory.words[slot.generation_cell()] % 2
            == 1,
        slot.collects(seen, destination, result, seen_after, destination_after, collecting),
        undisturbed(memory, collecting.log@),
    ensures
        result is None,
        seen_after == seen,
        destination_after == destination,
        after(memory, collecting.log@) == memory,
{
    lemma_collected(
        slot,
        memory,
        seen,
        destination,
        result,
        seen_after,
        destination_after,
        collecting,
    );
}

/// While another thread is publishing, a publish is refused and leaves every
/// cell as it is.
pub proof fn law_a_busy_slot_is_left_alone(
    slot: IrSlot,
    memory: Memory,
    taps: Seq<u32>,
    published: bool,
    publishing: Published,
)
    requires
        memory.flags[slot.writing_flag()],
        slot.publishes(taps, published, publishing),
        undisturbed(memory, publishing.log@),
    ensures
        !published,
        after(memory, publishing.log@).words == memory.words,
        after(memory, publishing.log@).lengths == memory.lengths,
{
    let flag = slot.writing_flag();
    if published {
        let rest = publishing.log@.skip(1);
        let claim = Access::Claim { flag, taken: true };
        assert(publishing.log@ =~= seq![claim] + rest);
        lemma_after_add(memory, seq![claim], rest);
        lemma_after_single(memory, claim);
    } else {
        lemma_after_single(memory, Access::Claim { flag, taken: false });
    }
}

} // verus!
