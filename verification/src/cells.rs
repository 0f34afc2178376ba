//! Accesses to cells that threads share, and a log of them.
//!
//! What a cell holds is up to every thread that shares it, so nothing is claimed
//! of what a load finds. A [`Log`] can be written only by making an access: it
//! says which cells were accessed, in which order, and what was found or left
//! there.

use std::sync::atomic::{AtomicBool, AtomicU32, AtomicUsize, Ordering};

use vstd::prelude::*;

verus! {

/// One access to a cell that threads share. Cells are told apart as objects.
pub enum Access {
    /// A word was loaded.
    LoadWord {
        /// From where.
        cell: AtomicU32,
        /// What was there.
        value: u32,
    },
    /// A word was stored.
    StoreWord {
        /// To where.
        cell: AtomicU32,
        /// What is there now.
        value: u32,
    },
    /// A length was loaded.
    LoadLength {
        /// From where.
        cell: AtomicUsize,
        /// What was there.
        value: usize,
    },
    /// A length was stored.
    StoreLength {
        /// To where.
        cell: AtomicUsize,
        /// What is there now.
        value: usize,
    },
    /// A flag was raised, or found raised already.
    Claim {
        /// Which one.
        flag: AtomicBool,
        /// Whether it was down.
        taken: bool,
    },
    /// A flag was lowered.
    Release {
        /// Which one.
        flag: AtomicBool,
    },
}

/// The accesses made so far.
pub struct Log {
    entries: Ghost<Seq<Access>>,
}

impl View for Log {
    type V = Seq<Access>;

    closed spec fn view(&self) -> Seq<Access> {
        self.entries@
    }
}

impl Log {
    /// A log without entries.
    pub fn new() -> (log: Self)
        ensures
            log@ == Seq::<Access>::empty(),
    {
        Log { entries: Ghost(Seq::empty()) }
    }
}

/// Loads a word that guards no other memory.
pub fn load_relaxed(cell: &AtomicU32, log: &mut Log) -> (value: u32)
    ensures
        final(log)@ == old(log)@.push(Access::LoadWord { cell: *cell, value }),
{
    let value: u32 = cell.load(Ordering::Relaxed);
    log.entries = Ghost(log.entries@.push(Access::LoadWord { cell: *cell, value }));
    value
}

/// Loads a word, and with it what its writer did before.
pub fn load_acquire(cell: &AtomicU32, log: &mut Log) -> (value: u32)
    ensures
        final(log)@ == old(log)@.push(Access::LoadWord { cell: *cell, value }),
{
    let value: u32 = cell.load(Ordering::Acquire);
    log.entries = Ghost(log.entries@.push(Access::LoadWord { cell: *cell, value }));
    value
}

/// Stores a word that guards no other memory.
pub fn store_relaxed(cell: &AtomicU32, value: u32, log: &mut Log)
    ensures
        final(log)@ == old(log)@.push(Access::StoreWord { cell: *cell, value }),
{
    cell.store(value, Ordering::Relaxed);
    log.entries = Ghost(log.entries@.push(Access::StoreWord { cell: *cell, value }));
}

/// Stores a word, and hands over with it what was done before.
pub fn store_release(cell: &AtomicU32, value: u32, log: &mut Log)
    ensures
        final(log)@ == old(log)@.push(Access::StoreWord { cell: *cell, value }),
{
    cell.store(value, Ordering::Release);
    log.entries = Ghost(log.entries@.push(Access::StoreWord { cell: *cell, value }));
}

/// Loads a length, and with it what its writer did before.
pub fn load_length(cell: &AtomicUsize, log: &mut Log) -> (value: usize)
    ensures
        final(log)@ == old(log)@.push(Access::LoadLength { cell: *cell, value }),
{
    let value: usize = cell.load(Ordering::Acquire);
    log.entries = Ghost(log.entries@.push(Access::LoadLength { cell: *cell, value }));
    value
}

/// Stores a length, and hands over with it what was done before.
pub fn store_length(cell: &AtomicUsize, value: usize, log: &mut Log)
    ensures
        final(log)@ == old(log)@.push(Access::StoreLength { cell: *cell, value }),
{
    cell.store(value, Ordering::Release);
    log.entries = Ghost(log.entries@.push(Access::StoreLength { cell: *cell, value }));
}

/// Raises a flag, if it is down.
pub fn raise(flag: &AtomicBool, log: &mut Log) -> (exchange: Result<bool, bool>)
    ensures
        final(log)@ == old(log)@.push(Access::Claim { flag: *flag, taken: exchange is Ok }),
{
    let exchange: Result<bool, bool> = flag.compare_exchange(
        false,
        true,
        Ordering::Acquire,
        Ordering::Relaxed,
    );
    log.entries = Ghost(
        log.entries@.push(Access::Claim { flag: *flag, taken: exchange is Ok }),
    );
    exchange
}

/// Lowers a flag, and hands over with it what was done before.
pub fn lower(flag: &AtomicBool, log: &mut Log)
    ensures
        final(log)@ == old(log)@.push(Access::Release { flag: *flag }),
{
    flag.store(false, Ordering::Release);
    log.entries = Ghost(log.entries@.push(Access::Release { flag: *flag }));
}

} // verus!
