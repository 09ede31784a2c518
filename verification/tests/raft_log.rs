use marie_core::raft_log::{IndexBound, LogEntry, LogId, LogState, RaftLog, Vote};

fn entry(index: u64) -> LogEntry<()> {
    LogEntry { log_id: LogId { term: 1, node_id: 1, index }, payload: () }
}

fn log(indexes: &[u64]) -> RaftLog<()> {
    let mut log = RaftLog::new();
    log.append(indexes.iter().map(|i| entry(*i)).collect());
    log
}

fn indexes(log: &RaftLog<()>, low: IndexBound, high: IndexBound) -> Vec<u64> {
    log.entries(low, high).iter().map(|e| e.log_id.index).collect()
}

#[test]
fn test_append_then_read_entries_in_range() {
    let log = log(&[1, 2, 3]);
    assert_eq!(indexes(&log, IndexBound::Included(2), IndexBound::Unbounded), vec![2, 3]);
}

#[test]
fn test_log_state_reflects_last_entry() {
    let mut log = RaftLog::new();
    assert_eq!(log.log_state(), LogState { last_purged_log_id: None, last_log_id: None });

    log.append(vec![entry(1), entry(2)]);

    let state = log.log_state();
    assert_eq!(state.last_purged_log_id, None);
    assert_eq!(state.last_log_id.map(|id| id.index), Some(2));
}

#[test]
fn test_truncate_removes_entries_from_index() {
    let mut log = log(&[1, 2, 3]);
    log.truncate(2);
    assert_eq!(indexes(&log, IndexBound::Unbounded, IndexBound::Unbounded), vec![1]);
}

#[test]
fn test_purge_removes_entries_up_to_index_and_records_last_purged() {
    let mut log = log(&[1, 2, 3]);
    let purge_point = LogId { term: 1, node_id: 1, index: 2 };
    log.purge(purge_point);
    assert_eq!(indexes(&log, IndexBound::Unbounded, IndexBound::Unbounded), vec![3]);

    let state = log.log_state();
    assert_eq!(state.last_purged_log_id.map(|id| id.index), Some(2));
    assert_eq!(state.last_log_id.map(|id| id.index), Some(3));
}

#[test]
fn test_save_then_read_vote_round_trip() {
    let mut log: RaftLog<()> = RaftLog::new();
    assert_eq!(log.read_vote(), None);

    let vote = Vote { term: 3, node_id: 42, committed: false };
    log.save_vote(vote);

    assert_eq!(log.read_vote(), Some(vote));
}

#[test]
fn purged_log_remembers_where_it_ended() {
    let mut log = log(&[1, 2]);
    let end = LogId { term: 1, node_id: 1, index: 2 };
    log.purge(end);
    assert_eq!(log.log_state(), LogState { last_purged_log_id: Some(end), last_log_id: Some(end) });
}

#[test]
fn appending_replaces_entries_of_the_same_index() {
    let mut log = RaftLog::new();
    log.append(vec![LogEntry { log_id: LogId { term: 1, node_id: 1, index: 5 }, payload: "a" }]);
    log.append(vec![LogEntry { log_id: LogId { term: 2, node_id: 1, index: 5 }, payload: "b" }]);
    let all = log.entries(IndexBound::Unbounded, IndexBound::Unbounded);
    assert_eq!(all.len(), 1);
    assert_eq!(all[0].payload, "b");
}

#[test]
fn bounds_may_exclude_their_index() {
    let log = log(&[3, 1, 2, 4]);
    assert_eq!(indexes(&log, IndexBound::Excluded(1), IndexBound::Excluded(4)), vec![2, 3]);
    assert_eq!(indexes(&log, IndexBound::Included(1), IndexBound::Included(2)), vec![1, 2]);
}
