use gator::types::Epoch;

#[test]
fn epoch_slot_range() {
    let epoch = Epoch { epoch: 5, slot_index: 2, slots_in_epoch: 3, absolute_slot: 102 };
    assert_eq!(epoch.first_slot(), 100);
    assert_eq!(epoch.last_slot(), 102);
    assert_eq!(epoch.candidate_slots(), vec![100, 101, 102]);
}

#[test]
fn epoch_starting_at_genesis() {
    let epoch = Epoch { epoch: 0, slot_index: 4, slots_in_epoch: 8, absolute_slot: 4 };
    assert_eq!(epoch.first_slot(), 0);
    assert_eq!(epoch.last_slot(), 7);
    let slots = epoch.candidate_slots();
    assert_eq!(slots.len(), 8);
    assert_eq!(slots.first(), Some(&0));
    assert_eq!(slots.last(), Some(&7));
}

#[test]
fn candidate_slots_are_ascending() {
    let epoch = Epoch { epoch: 7, slot_index: 0, slots_in_epoch: 5, absolute_slot: 1000 };
    let slots = epoch.candidate_slots();
    for pair in slots.windows(2) {
        assert!(pair[0] < pair[1]);
    }
}
