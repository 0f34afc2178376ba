//! What holds of an impulse response slot that threads share.
//!
//! The cells of a slot are modelled as one state, and the loads and stores of
//! [`crate::shared::IrSlot`] as steps that interleave in any order, one at a
//! time. The slot's release and acquire orderings are what lets a reader that
//! met a write of a step count on the steps of that thread before it.

use vstd::prelude::*;

use crate::shared::{Reads, SlotStore};

verus! {

/// What the cells of a slot hold.
#[verifier::ext_equal]
pub struct Cells {
    /// The taps.
    pub taps: Seq<u32>,
    /// The number of valid taps.
    pub length: int,
    /// The generation.
    pub generation: u32,
}

/// The cells of a new slot.
pub open spec fn fresh_cells(room: nat) -> Cells {
    Cells { taps: Seq::new(room, |i: int| 0u32), length: 0, generation: 0 }
}

/// The cells after one write.
pub open spec fn written(cells: Cells, store: SlotStore) -> Cells {
    match store {
        SlotStore::Generation(generation) => Cells { generation, ..cells },
        SlotStore::Tap { index, value } => Cells {
            taps: cells.taps.update(index as int, value),
            ..cells
        },
        SlotStore::Length(length) => Cells { length: length as int, ..cells },
    }
}

/// The part of a response that `room` cells carry.
pub open spec fn payload(taps: Seq<u32>, room: nat) -> Seq<u32> {
    taps.take(crate::shared::carried(taps.len(), room) as int)
}

/// `taps` in a buffer of `room` entries, silence behind them.
pub open spec fn padded(taps: Seq<u32>, room: nat) -> Seq<u32> {
    Seq::new(
        room,
        |i: int|
            if i < taps.len() {
                taps[i]
            } else {
                0
            },
    )
}

/// A publish in progress: it holds the claim and has made `done` writes.
pub struct Writer {
    /// The generation it found.
    pub generation: u32,
    /// What it publishes.
    pub taps: Seq<u32>,
    /// Writes made.
    pub done: nat,
}

/// A collect in progress.
pub struct Reader {
    /// Publishes finished when it began.
    pub began: nat,
    /// The generation it found.
    pub before: u32,
    /// Room in its destination.
    pub room: nat,
    /// The length it loaded, once it has.
    pub length: Option<int>,
    /// The taps it loaded so far.
    pub taps: Seq<u32>,
}

/// A slot, the publish and the collect in progress on it, and the responses
/// published so far.
pub struct World {
    /// The slot's cells.
    pub cells: Cells,
    /// The publish that holds the claim.
    pub writer: Option<Writer>,
    /// The collect in progress.
    pub reader: Option<Reader>,
    /// What was published, oldest first.
    pub published: Seq<Seq<u32>>,
}

/// What a thread may do next.
pub enum Step {
    /// A publisher takes the claim.
    Claim(Seq<u32>),
    /// The publisher makes its next write.
    Store,
    /// The publisher gives up the claim.
    Release,
    /// A reader loads the generation.
    Look {
        /// The generation it saw last.
        seen: u32,
        /// Room in its destination.
        room: nat,
    },
    /// The reader loads the length.
    LoadLength,
    /// The reader loads its next tap.
    LoadTap,
    /// The reader loads the generation again and is done.
    Finish,
}

/// Writes of a whole publish.
pub open spec fn all_writes(taps: Seq<u32>, room: nat) -> nat {
    crate::shared::carried(taps.len(), room) + 3
}

/// Taps a reader that knows the length has to load.
pub open spec fn to_load(reader: Reader, room: nat) -> nat {
    crate::shared::copied_taps(reader.length->0 as nat, reader.room, room)
}

/// Whether a step can be taken.
pub open spec fn enabled(world: World, step: Step) -> bool {
    let room = world.cells.taps.len();
    match step {
        Step::Claim(_) => world.writer is None,
        Step::Store => world.writer matches Some(writer) && writer.done < all_writes(
            writer.taps,
            room,
        ),
        Step::Release => world.writer matches Some(writer) && writer.done == all_writes(
            writer.taps,
            room,
        ),
        Step::Look { .. } => world.reader is None,
        Step::LoadLength => world.reader matches Some(reader) && reader.length is None,
        Step::LoadTap => world.reader matches Some(reader) && reader.length is Some
            && reader.taps.len() < to_load(reader, room),
        Step::Finish => world.reader matches Some(reader) && reader.length is Some
            && reader.taps.len() == to_load(reader, room),
    }
}

/// The world after a step.
pub open spec fn after(world: World, step: Step) -> World {
    let room = world.cells.taps.len();
    match step {
        Step::Claim(taps) => World {
            writer: Some(Writer { generation: world.cells.generation, taps, done: 0 }),
            ..world
        },
        Step::Store => {
            let writer = world.writer->0;
            World {
                cells: written(
                    world.cells,
                    crate::shared::store_at(writer.generation, writer.taps, room, writer.done),
                ),
                writer: Some(Writer { done: writer.done + 1, ..writer }),
                published: if writer.done + 1 == all_writes(writer.taps, room) {
                    world.published.push(payload(writer.taps, room))
                } else {
                    world.published
                },
                ..world
            }
        },
        Step::Release => World { writer: None, ..world },
        Step::Look { seen, room: wanted } => if crate::shared::worth_copying(
            world.cells.generation,
            seen,
        ) {
            World {
                reader: Some(
                    Reader {
                        began: world.published.len(),
                        before: world.cells.generation,
                        room: wanted,
                        length: None,
                        taps: seq![],
                    },
                ),
                ..world
            }
        } else {
            world
        },
        Step::LoadLength => World {
            reader: Some(Reader { length: Some(world.cells.length), ..world.reader->0 }),
            ..world
        },
        Step::LoadTap => {
            let reader = world.reader->0;
            World {
                reader: Some(
                    Reader {
                        taps: reader.taps.push(world.cells.taps[reader.taps.len() as int]),
                        ..reader
                    },
                ),
                ..world
            }
        },
        Step::Finish => World { reader: None, ..world },
    }
}

/// A new slot nobody uses yet.
pub open spec fn start(room: nat) -> World {
    World { cells: fresh_cells(room), writer: None, reader: None, published: seq![] }
}

/// The world after a run of steps.
pub open spec fn run(room: nat, steps: Seq<Step>) -> World
    decreases steps.len(),
{
    if steps.len() == 0 {
        start(room)
    } else {
        after(run(room, steps.drop_last()), steps.last())
    }
}

/// Whether each step of a run could be taken in its turn.
pub open spec fn possible(room: nat, steps: Seq<Step>) -> bool
    decreases steps.len(),
{
    steps.len() == 0 || (possible(room, steps.drop_last()) && enabled(
        run(room, steps.drop_last()),
        steps.last(),
    ))
}

/// The values a finishing reader has loaded.
pub open spec fn reads_of(world: World) -> Reads {
    let reader = world.reader->0;
    Reads {
        before: reader.before,
        length: reader.length->0,
        taps: reader.taps,
        after: world.cells.generation,
    }
}

/// The response in force once `count` publishes have finished.
pub open spec fn in_force(world: World, count: nat) -> Seq<u32> {
    if count == 0 {
        seq![]
    } else {
        world.published[count - 1]
    }
}

/// The generation once `count` publishes have finished.
pub open spec fn stamp(count: nat) -> u32 {
    (2 * count % 0x1_0000_0000) as u32
}

/// Whether a publish is between its two stamps.
pub open spec fn mid_write(world: World) -> bool {
    world.writer matches Some(writer) && 1 <= writer.done < all_writes(
        writer.taps,
        world.cells.taps.len(),
    )
}

/// Whether a publish has taken the claim and not made all its writes yet.
pub open spec fn unfinished(world: World) -> bool {
    world.writer matches Some(writer) && writer.done < all_writes(
        writer.taps,
        world.cells.taps.len(),
    )
}

/// Whether the cells hold a whole response.
pub open spec fn holds(cells: Cells, taps: Seq<u32>) -> bool {
    &&& cells.length == taps.len()
    &&& taps.len() <= cells.taps.len()
    &&& forall|i: int| 0 <= i < taps.len() ==> #[trigger] cells.taps[i] == taps[i]
}

/// What every step keeps.
pub open spec fn sound(world: World) -> bool {
    let room = world.cells.taps.len();
    let count = world.published.len();
    &&& room <= usize::MAX
    &&& !mid_write(world) ==> world.cells.generation == stamp(count) && holds(
        world.cells,
        in_force(world, count),
    )
    &&& mid_write(world) ==> world.cells.generation == crate::shared::odd_stamp(stamp(count))
    &&& world.writer matches Some(writer) ==> {
        let length = crate::shared::carried(writer.taps.len(), room);
        &&& writer.done <= length + 3
        &&& writer.done < length + 3 ==> writer.generation == stamp(count)
        &&& forall|i: int|
            0 <= i < length && i + 1 < writer.done ==> #[trigger] world.cells.taps[i]
                == writer.taps[i]
        &&& writer.done >= length + 2 ==> world.cells.length == length
    }
    &&& world.reader matches Some(reader) ==> {
        &&& reader.began <= count
        &&& reader.before == stamp(reader.began)
        &&& reader.taps.len() <= room
        &&& (!mid_write(world) && count == reader.began) ==> {
            let taps = in_force(world, count);
            &&& reader.length matches Some(length) ==> length == taps.len()
            &&& forall|i: int|
                0 <= i < reader.taps.len() && i < taps.len() ==> #[trigger] reader.taps[i]
                    == taps[i]
        }
    }
}

/// Stamps count up by two.
proof fn lemma_next_stamp(count: nat)
    ensures
        crate::shared::even_stamp(stamp(count)) == stamp(count + 1),
        stamp(count) % 2 == 0,
        crate::shared::odd_stamp(stamp(count)) % 2 == 1,
        crate::shared::odd_stamp(stamp(count)) == stamp(count) + 1,
{
}

/// Two counts less than `2^31` apart have different stamps.
proof fn lemma_stamps_differ(a: nat, b: nat)
    requires
        a <= b < a + 0x8000_0000,
        stamp(a) == stamp(b),
    ensures
        a == b,
{
    assert((2 * b - 2 * a) % 0x1_0000_0000 == 0);
}

/// Every step keeps [`sound`].
proof fn lemma_step_is_sound(world: World, step: Step)
    requires
        sound(world),
        enabled(world, step),
    ensures
        sound(after(world, step)),
        after(world, step).cells.taps.len() == world.cells.taps.len(),
{
    let count = world.published.len();
    let room = world.cells.taps.len();
    let next = after(world, step);
    lemma_next_stamp(count);
    match step {
        Step::Store => {
            let writer = world.writer->0;
            let length = crate::shared::carried(writer.taps.len(), room);
            if writer.done == length + 2 {
                let taps = payload(writer.taps, room);
                assert(next.published.last() == taps);
                assert(in_force(next, count + 1) == taps);
                assert forall|i: int| 0 <= i < taps.len() implies #[trigger] next.cells.taps[i]
                    == taps[i] by {
                    assert(world.cells.taps[i] == writer.taps[i]);
                }
            }
        },
        Step::LoadTap => {
            let reader = world.reader->0;
            assert(forall|i: int|
                0 <= i < reader.taps.len() ==> next.reader->0.taps[i] == reader.taps[i]);
        },
        _ => {},
    }
}

/// Every run keeps [`sound`].
proof fn lemma_run_is_sound(room: nat, steps: Seq<Step>)
    requires
        room <= usize::MAX,
        possible(room, steps),
    ensures
        sound(run(room, steps)),
        run(room, steps).cells.taps.len() == room,
    decreases steps.len(),
{
    if steps.len() > 0 {
        lemma_run_is_sound(room, steps.drop_last());
        lemma_step_is_sound(run(room, steps.drop_last()), steps.last());
    }
}

/// Every collected payload is one publisher's, never two spliced together.
///
/// However the steps of publishers and a reader interleave, a collect that
/// succeeds hands over exactly the response that was in force when it began,
/// with silence behind it. The one thing that could fool the two stamps, `2^31`
/// publishes during a single collect, is left out.
pub proof fn law_a_collected_response_is_one_publishers(room: nat, steps: Seq<Step>, seen: u32)
    requires
        room <= usize::MAX,
        possible(room, steps),
        enabled(run(room, steps), Step::Finish),
        run(room, steps).published.len() - run(room, steps).reader->0.began < 0x8000_0000,
        crate::shared::worth_copying(run(room, steps).reader->0.before, seen),
    ensures
        ({
            let world = run(room, steps);
            let reader = world.reader->0;
            let response = in_force(world, reader.began);
            forall|destination: Seq<u32>|
                destination.len() == reader.room ==> {
                    let outcome = #[trigger] crate::shared::collect_outcome(
                        reads_of(world),
                        seen,
                        destination,
                    );
                    outcome.0 is Some ==> {
                        &&& outcome.0 == Some(
                            crate::shared::carried(response.len(), reader.room) as int,
                        )
                        &&& outcome.1 == stamp(reader.began)
                        &&& outcome.2 == padded(response, reader.room)
                    }
                }
        }),
{
    let world = run(room, steps);
    let reader = world.reader->0;
    let count = world.published.len();
    lemma_run_is_sound(room, steps);
    lemma_next_stamp(count);
    lemma_next_stamp(reader.began);
    if world.cells.generation == reader.before {
        lemma_stamps_differ(reader.began, count);
        let response = in_force(world, reader.began);
        assert(crate::shared::copied(reads_of(world), reader.room) =~= padded(
            response,
            reader.room,
        ));
    }
}

// ---------------------------------------------------------------------------
// A publish or a collect that nothing interrupts
// ---------------------------------------------------------------------------

/// The cells after a run of writes.
pub open spec fn all_written(cells: Cells, writes: Seq<SlotStore>) -> Cells
    decreases writes.len(),
{
    if writes.len() == 0 {
        cells
    } else {
        written(all_written(cells, writes.drop_last()), writes.last())
    }
}

/// The cells after the writes of a publish that found the generation they hold.
pub open spec fn after_publish(cells: Cells, taps: Seq<u32>) -> Cells {
    all_written(
        cells,
        crate::shared::publish_writes(cells.generation, taps, cells.taps.len()),
    )
}

/// What a collect into a destination of `wanted` entries loads when nothing
/// interrupts it.
pub open spec fn quiet_reads(cells: Cells, wanted: nat) -> Reads {
    Reads {
        before: cells.generation,
        length: cells.length,
        taps: cells.taps.take(
            crate::shared::copied_taps(cells.length as nat, wanted, cells.taps.len()) as int,
        ),
        after: cells.generation,
    }
}

/// What a collect returns, notes and copies when nothing interrupts it.
pub open spec fn quiet_collect(cells: Cells, seen: u32, destination: Seq<u32>) -> (
    Option<int>,
    u32,
    Seq<u32>,
) {
    crate::shared::collect_outcome(quiet_reads(cells, destination.len()), seen, destination)
}

/// What collecting the whole of `response` at `generation` gives.
pub open spec fn collected(response: Seq<u32>, generation: u32, room: nat) -> (
    Option<int>,
    u32,
    Seq<u32>,
) {
    (
        Some(crate::shared::carried(response.len(), room) as int),
        generation,
        padded(response, room),
    )
}

/// The generation a reader starts from when the cells hold `generation`.
pub open spec fn starting_point(generation: u32) -> u32 {
    (generation - generation % 2) as u32
}

/// How far a publish has got after some of its writes.
proof fn lemma_after_writes(cells: Cells, taps: Seq<u32>, count: nat)
    requires
        cells.taps.len() <= usize::MAX,
        count <= all_writes(taps, cells.taps.len()),
    ensures
        ({
            let writes = crate::shared::publish_writes(cells.generation, taps, cells.taps.len());
            let so_far = all_written(cells, writes.take(count as int));
            let length = crate::shared::carried(taps.len(), cells.taps.len());
            &&& so_far.taps.len() == cells.taps.len()
            &&& forall|i: int|
                0 <= i < length && i + 1 < count ==> #[trigger] so_far.taps[i] == taps[i]
            &&& count >= length + 2 ==> so_far.length == length
            &&& count == length + 3 ==> so_far.generation == crate::shared::even_stamp(
                cells.generation,
            )
        }),
    decreases count,
{
    if count > 0 {
        let writes = crate::shared::publish_writes(cells.generation, taps, cells.taps.len());
        lemma_after_writes(cells, taps, (count - 1) as nat);
        assert(writes.take(count as int).drop_last() =~= writes.take(count - 1));
        assert(writes.take(count as int).last() == crate::shared::store_at(
            cells.generation,
            taps,
            cells.taps.len(),
            (count - 1) as nat,
        ));
    }
}

/// A finished publish leaves its payload and the even stamp.
proof fn lemma_after_publish(cells: Cells, taps: Seq<u32>)
    requires
        cells.taps.len() <= usize::MAX,
    ensures
        holds(after_publish(cells, taps), payload(taps, cells.taps.len())),
        after_publish(cells, taps).taps.len() == cells.taps.len(),
        after_publish(cells, taps).generation == crate::shared::even_stamp(cells.generation),
{
    let writes = crate::shared::publish_writes(cells.generation, taps, cells.taps.len());
    lemma_after_writes(cells, taps, all_writes(taps, cells.taps.len()));
    assert(writes.take(writes.len() as int) =~= writes);
}

/// A collect that nothing interrupts hands over what the cells hold.
proof fn lemma_quiet_collect(cells: Cells, response: Seq<u32>, seen: u32, destination: Seq<u32>)
    requires
        holds(cells, response),
        cells.generation % 2 == 0,
        seen != cells.generation,
    ensures
        quiet_collect(cells, seen, destination) == collected(
            response,
            cells.generation,
            destination.len(),
        ),
{
    assert(crate::shared::copied(quiet_reads(cells, destination.len()), destination.len())
        =~= padded(response, destination.len()));
}

/// A publish stamps the slot odd before its first write of a tap or the length,
/// and even, two above what it found, behind the last.
pub proof fn law_stamps_frame_a_publish(generation: u32, taps: Seq<u32>, room: nat)
    ensures
        ({
            let writes = crate::shared::publish_writes(generation, taps, room);
            &&& writes.first() == SlotStore::Generation(crate::shared::odd_stamp(generation))
            &&& writes.last() == SlotStore::Generation(crate::shared::even_stamp(generation))
            &&& forall|k: int|
                0 < k < writes.len() - 1 ==> !(#[trigger] writes[k] is Generation)
            &&& generation % 2 == 0 ==> crate::shared::odd_stamp(generation) % 2 == 1
                && crate::shared::even_stamp(generation) % 2 == 0
        }),
{
}

/// A published response is collected exactly once, with silence behind it: a
/// reader that has not seen its generation gets it, and the next collect finds
/// nothing new and leaves the destination alone.
pub proof fn law_published_is_collected_once(
    cells: Cells,
    taps: Seq<u32>,
    seen: u32,
    destination: Seq<u32>,
    later: Seq<u32>,
)
    requires
        cells.taps.len() <= usize::MAX,
        cells.generation % 2 == 0,
        seen != crate::shared::even_stamp(cells.generation),
    ensures
        ({
            let next = after_publish(cells, taps);
            let response = payload(taps, cells.taps.len());
            let first = quiet_collect(next, seen, destination);
            let second = quiet_collect(next, first.1, later);
            &&& first == collected(
                response,
                crate::shared::even_stamp(cells.generation),
                destination.len(),
            )
            &&& second == (None::<int>, first.1, later)
        }),
{
    lemma_after_publish(cells, taps);
    lemma_quiet_collect(
        after_publish(cells, taps),
        payload(taps, cells.taps.len()),
        seen,
        destination,
    );
}

/// A request for the built-in cabinet arrives as a length of zero, and as
/// silence.
pub proof fn law_a_default_request_has_no_taps(cells: Cells, seen: u32, destination: Seq<u32>)
    requires
        cells.taps.len() <= usize::MAX,
        cells.generation % 2 == 0,
        seen != crate::shared::even_stamp(cells.generation),
    ensures
        quiet_collect(after_publish(cells, seq![]), seen, destination) == (
            Some(0int),
            crate::shared::even_stamp(cells.generation),
            Seq::new(destination.len(), |i: int| 0u32),
        ),
{
    law_published_is_collected_once(cells, seq![], seen, destination, destination);
    let response = payload(seq![], cells.taps.len());
    assert(padded(response, destination.len()) =~= Seq::new(destination.len(), |i: int| 0u32));
}

/// Generations keep coming after the counter wraps: a publish always leaves the
/// generation it found plus two, which is even again and another one.
pub proof fn law_generations_survive_wrapping(cells: Cells, taps: Seq<u32>)
    requires
        cells.taps.len() <= usize::MAX,
        cells.generation % 2 == 0,
    ensures
        after_publish(cells, taps).generation == crate::shared::even_stamp(cells.generation),
        after_publish(cells, taps).generation % 2 == 0,
        after_publish(cells, taps).generation != cells.generation,
{
    lemma_after_publish(cells, taps);
}

/// A collect that returns nothing keeps the reader's generation, and one that
/// finds an odd generation or the one it saw last keeps the destination too.
pub proof fn law_a_refused_collect_notes_nothing(reads: Reads, seen: u32, destination: Seq<u32>)
    ensures
        ({
            let outcome = crate::shared::collect_outcome(reads, seen, destination);
            &&& outcome.0 is None ==> outcome.1 == seen
            &&& reads.before % 2 == 1 || reads.before == seen ==> outcome == (
                None::<int>,
                seen,
                destination,
            )
        }),
{
}

// ---------------------------------------------------------------------------
// After any run of steps
// ---------------------------------------------------------------------------

/// The generation counts the finished publishes by twos, and is odd exactly
/// while a publish is between its stamps.
pub proof fn law_generations_count_publishes(room: nat, steps: Seq<Step>)
    requires
        room <= usize::MAX,
        possible(room, steps),
    ensures
        ({
            let world = run(room, steps);
            &&& starting_point(world.cells.generation) == stamp(world.published.len())
            &&& world.cells.generation % 2 == 1 <==> mid_write(world)
        }),
{
    lemma_run_is_sound(room, steps);
    lemma_next_stamp(run(room, steps).published.len());
}

/// With no write under way, a reader that has not seen the current generation
/// collects the response published last, with silence behind it, and then has
/// seen the generation a fresh reader starts from.
pub proof fn law_the_last_response_is_collected(
    room: nat,
    steps: Seq<Step>,
    seen: u32,
    destination: Seq<u32>,
)
    requires
        room <= usize::MAX,
        possible(room, steps),
        !mid_write(run(room, steps)),
        seen != run(room, steps).cells.generation,
    ensures
        ({
            let world = run(room, steps);
            quiet_collect(world.cells, seen, destination) == collected(
                in_force(world, world.published.len()),
                starting_point(world.cells.generation),
                destination.len(),
            )
        }),
{
    let world = run(room, steps);
    lemma_run_is_sound(room, steps);
    lemma_next_stamp(world.published.len());
    lemma_quiet_collect(
        world.cells,
        in_force(world, world.published.len()),
        seen,
        destination,
    );
}

/// A collect that begins while a publish is between its stamps, or with nothing
/// new, is refused and leaves everything as it is, whatever happens meanwhile.
pub proof fn law_nothing_new_is_refused(
    room: nat,
    steps: Seq<Step>,
    reads: Reads,
    seen: u32,
    destination: Seq<u32>,
)
    requires
        room <= usize::MAX,
        possible(room, steps),
        mid_write(run(room, steps)) || run(room, steps).cells.generation == seen,
        reads.before == run(room, steps).cells.generation,
    ensures
        crate::shared::collect_outcome(reads, seen, destination) == (
            None::<int>,
            seen,
            destination,
        ),
{
    law_generations_count_publishes(room, steps);
}

/// A run that goes on from another.
proof fn lemma_going_on(room: nat, steps: Seq<Step>, more: Seq<Step>)
    requires
        possible(room, steps + more),
    ensures
        possible(room, steps),
        more.len() > 0 ==> {
            let shorter = steps + more.drop_last();
            &&& possible(room, shorter)
            &&& enabled(run(room, shorter), more.last())
            &&& run(room, steps + more) == after(run(room, shorter), more.last())
        },
    decreases more.len(),
{
    if more.len() == 0 {
        assert(steps + more =~= steps);
    } else {
        assert((steps + more).drop_last() =~= steps + more.drop_last());
        lemma_going_on(room, steps, more.drop_last());
    }
}

/// A publish under way either still is, or has been published in its turn.
proof fn lemma_a_publish_goes_on(room: nat, steps: Seq<Step>, more: Seq<Step>)
    requires
        room <= usize::MAX,
        possible(room, steps + more),
        unfinished(run(room, steps)),
    ensures
        ({
            let world = run(room, steps);
            let later = run(room, steps + more);
            let count = world.published.len();
            ||| {
                &&& later.published.len() == count
                &&& unfinished(later)
                &&& later.writer->0.taps == world.writer->0.taps
            }
            ||| {
                &&& later.published.len() > count
                &&& later.published[count as int] == payload(world.writer->0.taps, room)
            }
        }),
    decreases more.len(),
{
    lemma_going_on(room, steps, more);
    if more.len() == 0 {
        assert(steps + more =~= steps);
    } else {
        let shorter = steps + more.drop_last();
        lemma_a_publish_goes_on(room, steps, more.drop_last());
        lemma_run_is_sound(room, shorter);
        lemma_run_is_sound(room, steps);
    }
}

/// A reader that starts from the current generation does not collect what was
/// published before it came: every collect is refused until another publish has
/// finished, whatever happens meanwhile.
pub proof fn law_a_fresh_reader_waits(
    room: nat,
    steps: Seq<Step>,
    more: Seq<Step>,
    reads: Reads,
    destination: Seq<u32>,
)
    requires
        room <= usize::MAX,
        possible(room, steps + more),
        run(room, steps + more).published.len() == run(room, steps).published.len(),
        reads.before == run(room, steps + more).cells.generation,
    ensures
        ({
            let seen = starting_point(run(room, steps).cells.generation);
            crate::shared::collect_outcome(reads, seen, destination) == (
                None::<int>,
                seen,
                destination,
            )
        }),
{
    lemma_going_on(room, steps, more);
    law_generations_count_publishes(room, steps);
    law_generations_count_publishes(room, steps + more);
}

/// A publish under way when a reader starts from the current generation is not
/// lost on that reader: once it has finished it is the next response in the
/// published order, and from then on the reader collects, whenever no write is
/// under way, the response published last. The one thing that could hide it,
/// `2^31` publishes before that collect, is left out.
pub proof fn law_a_publish_under_way_is_collected(
    room: nat,
    steps: Seq<Step>,
    more: Seq<Step>,
    destination: Seq<u32>,
)
    requires
        room <= usize::MAX,
        possible(room, steps + more),
        unfinished(run(room, steps)),
        !mid_write(run(room, steps + more)),
        0 < run(room, steps + more).published.len() - run(room, steps).published.len()
            < 0x8000_0000,
    ensures
        ({
            let world = run(room, steps);
            let later = run(room, steps + more);
            let count = world.published.len();
            let seen = starting_point(world.cells.generation);
            let last = later.published.len();
            &&& later.published[count as int] == payload(world.writer->0.taps, room)
            &&& last == count + 1 ==> in_force(later, last) == payload(world.writer->0.taps, room)
            &&& quiet_collect(later.cells, seen, destination) == collected(
                in_force(later, last),
                stamp(last),
                destination.len(),
            )
        }),
{
    let world = run(room, steps);
    let later = run(room, steps + more);
    let count = world.published.len();
    let seen = starting_point(world.cells.generation);
    lemma_going_on(room, steps, more);
    lemma_a_publish_goes_on(room, steps, more);
    law_generations_count_publishes(room, steps);
    law_generations_count_publishes(room, steps + more);
    if seen == later.cells.generation {
        lemma_stamps_differ(count, later.published.len());
    }
    law_the_last_response_is_collected(room, steps + more, seen, destination);
}

} // verus!
