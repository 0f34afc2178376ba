use amberhead_or100::shared::{
    carried_length, is_claimed, is_worth_copying, settle_collect, settled_generation, store_step,
    AtomicLevel, IrSlot, SlotStore,
};

fn patterns(samples: &[f32]) -> Vec<u32> {
    samples.iter().map(|sample| sample.to_bits()).collect()
}

fn level(cell: &AtomicLevel) -> f32 {
    f32::from_bits(cell.load())
}

#[test]
fn round_trips_values_including_negatives_and_zero() {
    let cell = AtomicLevel::new(0.25f32.to_bits());
    assert_eq!(level(&cell), 0.25);
    cell.store((-3.5f32).to_bits());
    assert_eq!(level(&cell), -3.5);
    cell.store(0.0f32.to_bits());
    assert_eq!(level(&cell), 0.0);
    assert_eq!(level(&AtomicLevel::default()), 0.0);
}

#[test]
fn a_fresh_slot_has_nothing_to_collect() {
    let slot = IrSlot::new(8);
    assert_eq!(slot.capacity(), 8);
    let mut seen = slot.current_generation();
    let mut destination = patterns(&[9.0f32; 8]);
    assert_eq!(slot.collect(&mut seen, &mut destination).0, None);
    // A refused collect must leave the destination alone rather than clearing
    // it, or a spurious poll would wipe the running cabinet.
    assert_eq!(destination, patterns(&[9.0; 8]));
}

#[test]
fn a_published_response_is_collected_exactly_once() {
    let slot = IrSlot::new(8);
    let mut seen = slot.current_generation();
    let mut destination = patterns(&[0.0f32; 8]);

    assert!(slot.publish(&patterns(&[1.0, 2.0, 3.0])).0);
    assert_eq!(slot.collect(&mut seen, &mut destination).0, Some(3));
    assert_eq!(
        destination,
        patterns(&[1.0, 2.0, 3.0, 0.0, 0.0, 0.0, 0.0, 0.0])
    );

    // Nothing new: the audio thread must not reload the same response on every
    // block.
    assert_eq!(slot.collect(&mut seen, &mut destination).0, None);

    assert!(slot.publish(&patterns(&[7.0])).0);
    assert_eq!(slot.collect(&mut seen, &mut destination).0, Some(1));
    assert_eq!(
        destination.first().copied().map(f32::from_bits),
        Some(7.0)
    );
    // Everything past the new length is cleared, so the tail of the previous
    // response cannot survive into the new one.
    assert!(destination
        .iter()
        .skip(1)
        .all(|tap| f32::from_bits(*tap) == 0.0));
}

#[test]
fn a_default_request_is_a_zero_length_payload() {
    let slot = IrSlot::new(4);
    let mut seen = slot.current_generation();
    let mut destination = patterns(&[1.0f32; 4]);
    assert!(slot.publish_default().0);
    assert_eq!(slot.collect(&mut seen, &mut destination).0, Some(0));
}

#[test]
fn publishing_more_taps_than_the_slot_holds_keeps_the_head() {
    let slot = IrSlot::new(3);
    let mut seen = slot.current_generation();
    let mut destination = patterns(&[0.0f32; 3]);
    assert!(slot.publish(&patterns(&[1.0, 2.0, 3.0, 4.0, 5.0])).0);
    assert_eq!(slot.collect(&mut seen, &mut destination).0, Some(3));
    assert_eq!(destination, patterns(&[1.0, 2.0, 3.0]));
}

#[test]
fn collecting_into_a_short_buffer_does_not_overrun_it() {
    let slot = IrSlot::new(8);
    let mut seen = slot.current_generation();
    let mut destination = patterns(&[0.0f32; 2]);
    assert!(slot.publish(&patterns(&[1.0, 2.0, 3.0, 4.0])).0);
    assert_eq!(slot.collect(&mut seen, &mut destination).0, Some(2));
    assert_eq!(destination, patterns(&[1.0, 2.0]));
}

#[test]
fn a_reader_created_after_a_publish_does_not_re_collect_it() {
    // The engine loads the persisted response when it starts; the audio thread
    // must not then load it a second time on its first block.
    let slot = IrSlot::new(4);
    assert!(slot.publish(&patterns(&[1.0, 2.0])).0);
    let mut seen = slot.current_generation();
    let mut destination = patterns(&[0.0f32; 4]);
    assert_eq!(slot.collect(&mut seen, &mut destination).0, None);
}

#[test]
fn the_generation_counter_survives_wrapping() {
    // u32 wrapping is reachable in a long session only in principle, but a
    // seqlock that deadlocks at the wrap is a seqlock that eventually stops
    // accepting cabinets.
    let slot = IrSlot::new(2);
    let mut seen = u32::MAX - 1;
    let mut destination = patterns(&[0.0f32; 2]);
    for _ in 0..8 {
        assert!(slot.publish(&patterns(&[1.0])).0);
    }
    assert!(slot.collect(&mut seen, &mut destination).0.is_some());
}

#[test]
fn only_finished_and_unseen_generations_are_copied() {
    assert!(is_worth_copying(4, 2));
    assert!(!is_worth_copying(4, 4));
    assert!(!is_worth_copying(5, 2));
    assert_eq!(settled_generation(5), 4);
    assert_eq!(settled_generation(4), 4);
    assert_eq!(settled_generation(u32::MAX), u32::MAX - 1);
}

#[test]
fn a_publish_writes_between_two_stamps() {
    let taps = [11, 12, 13];
    let writes: Vec<SlotStore> = (0..5).map(|k| store_step(6, &taps, 2, k)).collect();
    assert_eq!(
        writes,
        [
            SlotStore::Generation(7),
            SlotStore::Tap {
                index: 0,
                value: 11
            },
            SlotStore::Tap {
                index: 1,
                value: 12
            },
            SlotStore::Length(2),
            SlotStore::Generation(8),
        ]
    );
    assert_eq!(
        store_step(u32::MAX - 1, &[], 2, 0),
        SlotStore::Generation(u32::MAX)
    );
    assert_eq!(
        store_step(u32::MAX - 1, &[], 2, 2),
        SlotStore::Generation(0)
    );
    assert_eq!(carried_length(3, 2), 2);
    assert_eq!(carried_length(1, 2), 1);
}

#[test]
fn only_an_exchange_that_went_through_takes_the_claim() {
    assert!(is_claimed(Ok(false)));
    assert!(!is_claimed(Err(true)));
}

#[test]
fn a_settled_copy_has_silence_behind_its_taps() {
    let mut seen = 2;
    let mut destination = [1, 2, 3, 4];
    assert_eq!(settle_collect(4, 4, 2, 8, &mut seen, &mut destination), Some(2));
    assert_eq!(seen, 4);
    assert_eq!(destination, [1, 2, 0, 0]);

    // More taps announced than there are cells, and than there is room.
    let mut destination = [1, 2, 3, 4];
    assert_eq!(settle_collect(6, 6, 9, 3, &mut seen, &mut destination), Some(4));
    assert_eq!(seen, 6);
    assert_eq!(destination, [1, 2, 3, 0]);
}

#[test]
fn a_copy_that_a_publish_overtook_is_abandoned() {
    let mut seen = 2;
    let mut destination = [1, 2, 3, 4];
    assert_eq!(settle_collect(4, 5, 2, 8, &mut seen, &mut destination), None);
    assert_eq!(settle_collect(4, 6, 2, 8, &mut seen, &mut destination), None);
    assert_eq!(seen, 2);
}

#[test]
fn generations_count_publishes_by_twos() {
    let slot = IrSlot::new(2);
    for count in 0..5 {
        assert_eq!(slot.current_generation(), 2 * count);
        assert!(slot.publish(&[7]).0);
    }
}

#[test]
fn a_reader_that_lags_behind_gets_the_last_response() {
    let slot = IrSlot::new(3);
    let mut seen = slot.current_generation();
    assert!(slot.publish(&[1, 2, 3]).0);
    assert!(slot.publish(&[4, 5]).0);
    let mut destination = [9; 4];
    assert_eq!(slot.collect(&mut seen, &mut destination).0, Some(2));
    assert_eq!(destination, [4, 5, 0, 0]);
    assert_eq!(seen, slot.current_generation());
}
