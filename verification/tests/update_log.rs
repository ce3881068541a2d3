use channel_node::update_log::plan_replay;
use channel_node::update_log::same_channel;
use channel_node::update_log::sort_by_sequence;
use channel_node::update_log::ChannelIdentity;
use channel_node::update_log::ReplayError;
use channel_node::update_log::UpdateLog;
use channel_node::update_log::UpdateRecord;

fn channel(tag: u8) -> ChannelIdentity {
    ChannelIdentity { txid: [tag; 32], index: 0 }
}

fn record(sequence_no: u64, payload: &[u8]) -> UpdateRecord {
    UpdateRecord { channel: channel(1), sequence_no, payload: payload.to_vec() }
}

fn numbers(records: &[UpdateRecord]) -> Vec<u64> {
    records.iter().map(|r| r.sequence_no).collect()
}

/// Applies an update to a state in memory: the state is the list of payloads seen.
fn apply(mut state: Vec<Vec<u8>>, update: &UpdateRecord) -> Vec<Vec<u8>> {
    state.push(update.payload.clone());
    state
}

#[test]
fn same_channel_compares_txid_and_index() {
    assert!(same_channel(&channel(1), &channel(1)));
    assert!(!same_channel(&channel(1), &channel(2)));
    assert!(!same_channel(&channel(1), &ChannelIdentity { txid: [1; 32], index: 1 }));
}

#[test]
fn sort_orders_by_sequence_number() {
    let sorted = sort_by_sequence(vec![
        record(3, b"c"),
        record(1, b"a"),
        record(4, b"d"),
        record(2, b"b"),
    ]);
    assert_eq!(sorted, vec![record(1, b"a"), record(2, b"b"), record(3, b"c"), record(4, b"d")]);
}

#[test]
fn sort_keeps_the_order_of_equal_numbers() {
    let sorted = sort_by_sequence(vec![
        record(2, b"first"),
        record(1, b"x"),
        record(2, b"second"),
        record(2, b"third"),
    ]);
    assert_eq!(
        sorted,
        vec![record(1, b"x"), record(2, b"first"), record(2, b"second"), record(2, b"third")]
    );
}

#[test]
fn sort_of_nothing_is_nothing() {
    assert_eq!(sort_by_sequence(vec![]), vec![]);
}

#[test]
fn replay_matches_direct_application_in_any_stored_order() {
    let updates = vec![record(6, b"six"), record(7, b"seven"), record(8, b"eight"), record(9, b"nine")];
    let mut direct: Vec<Vec<u8>> = vec![b"snapshot".to_vec()];
    for update in &updates {
        direct = apply(direct, update);
    }
    let orders: [[usize; 4]; 5] =
        [[0, 1, 2, 3], [3, 2, 1, 0], [1, 3, 0, 2], [2, 0, 3, 1], [3, 0, 1, 2]];
    for order in orders.iter() {
        let stored: Vec<UpdateRecord> = order.iter().map(|&i| updates[i].duplicate()).collect();
        let plan = plan_replay(5, stored).unwrap();
        let mut replayed: Vec<Vec<u8>> = vec![b"snapshot".to_vec()];
        for update in &plan {
            replayed = apply(replayed, update);
        }
        assert_eq!(replayed, direct);
        assert_eq!(plan, updates);
    }
}

#[test]
fn gap_in_sequence_numbers_fails_replay() {
    let stored = vec![record(1, b"a"), record(2, b"b"), record(4, b"d")];
    assert_eq!(plan_replay(0, stored), Err(ReplayError::Gap { expected: 3, found: 4 }));
}

#[test]
fn gap_is_found_in_any_stored_order() {
    let stored = vec![record(4, b"d"), record(1, b"a"), record(2, b"b")];
    assert_eq!(plan_replay(0, stored), Err(ReplayError::Gap { expected: 3, found: 4 }));
}

#[test]
fn gap_behind_the_snapshot_fails_replay() {
    let stored = vec![record(3, b"c"), record(4, b"d")];
    assert_eq!(plan_replay(1, stored), Err(ReplayError::Gap { expected: 2, found: 3 }));
}

#[test]
fn gap_below_the_snapshot_fails_replay() {
    let stored = vec![record(1, b"a"), record(3, b"c"), record(4, b"d")];
    assert_eq!(plan_replay(3, stored), Err(ReplayError::Gap { expected: 2, found: 3 }));
}

#[test]
fn duplicate_sequence_number_fails_replay() {
    let stored = vec![record(1, b"a"), record(2, b"b"), record(2, b"b"), record(3, b"c")];
    assert_eq!(plan_replay(0, stored), Err(ReplayError::Duplicate { sequence_no: 2 }));
}

#[test]
fn first_fault_in_ascending_order_is_reported() {
    let stored = vec![record(9, b"i"), record(5, b"e"), record(2, b"b"), record(2, b"x")];
    assert_eq!(plan_replay(1, stored), Err(ReplayError::Duplicate { sequence_no: 2 }));
    let stored = vec![record(9, b"i"), record(5, b"e"), record(5, b"x"), record(2, b"b")];
    assert_eq!(plan_replay(1, stored), Err(ReplayError::Gap { expected: 3, found: 5 }));
}

#[test]
fn records_up_to_the_snapshot_are_not_replayed() {
    let stored = vec![record(3, b"c"), record(1, b"a"), record(4, b"d"), record(2, b"b")];
    assert_eq!(plan_replay(2, stored), Ok(vec![record(3, b"c"), record(4, b"d")]));
    let stored = vec![record(3, b"c"), record(1, b"a"), record(4, b"d"), record(2, b"b")];
    assert_eq!(plan_replay(4, stored), Ok(vec![]));
    let stored = vec![record(1, b"a"), record(2, b"b")];
    assert_eq!(plan_replay(7, stored), Ok(vec![]));
}

#[test]
fn empty_log_has_an_empty_plan() {
    assert_eq!(plan_replay(0, vec![]), Ok(vec![]));
    assert_eq!(plan_replay(u64::MAX, vec![]), Ok(vec![]));
}

#[test]
fn plan_at_the_upper_end_of_the_numbers() {
    let stored = vec![record(u64::MAX, b"z"), record(u64::MAX - 1, b"y")];
    assert_eq!(
        plan_replay(u64::MAX - 2, stored),
        Ok(vec![record(u64::MAX - 1, b"y"), record(u64::MAX, b"z")])
    );
    let stored = vec![record(u64::MAX, b"z")];
    assert_eq!(plan_replay(u64::MAX, stored), Ok(vec![]));
    let stored = vec![record(u64::MAX, b"z")];
    assert_eq!(
        plan_replay(u64::MAX - 2, stored),
        Err(ReplayError::Gap { expected: u64::MAX - 1, found: u64::MAX })
    );
}

#[test]
fn log_reads_back_ascending_by_channel() {
    let mut log = UpdateLog::new();
    assert_eq!(log.len(), 0);
    log.append(channel(1), 2, b"1-2".to_vec());
    log.append(channel(2), 1, b"2-1".to_vec());
    log.append(channel(1), 1, b"1-1".to_vec());
    log.append(channel(1), 3, b"1-3".to_vec());
    log.append(channel(2), 2, b"2-2".to_vec());
    assert_eq!(log.len(), 5);
    assert_eq!(
        log.read_all(&channel(1)),
        vec![record(1, b"1-1"), record(2, b"1-2"), record(3, b"1-3")]
    );
    assert_eq!(numbers(&log.read_all(&channel(2))), vec![1, 2]);
    assert_eq!(log.read_all(&channel(2))[0].payload, b"2-1".to_vec());
    assert_eq!(log.read_all(&channel(3)), vec![]);
    assert_eq!(log.len(), 5);
}

#[test]
fn log_keeps_every_appended_record() {
    let mut log = UpdateLog::new();
    log.append(channel(1), 5, b"first".to_vec());
    log.append(channel(1), 5, b"second".to_vec());
    assert_eq!(log.read_all(&channel(1)), vec![record(5, b"first"), record(5, b"second")]);
}

#[test]
fn duplicate_copies_a_record() {
    let record = record(9, b"payload");
    assert_eq!(record.duplicate(), record);
}
