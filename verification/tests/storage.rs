use raft::{HardState, InMemoryStorage, LogEntry, Storage, StorageError};
use std::future::Future;
use std::sync::{Arc, Mutex};
use std::time::Duration;

fn run<F: Future>(test: F) -> F::Output {
    tokio::runtime::Builder::new_current_thread()
        .enable_time()
        .build()
        .unwrap()
        .block_on(test)
}

fn create_entry(index: u64, term: u64) -> LogEntry {
    LogEntry {
        index,
        term,
        command: format!("cmd{}", index).into_bytes(),
    }
}

#[test]
fn test_hard_state_read_write() {
    let mut storage = InMemoryStorage::new();
    let initial_state = storage.read_hard_state().unwrap();
    assert_eq!(initial_state, HardState::default(), "Initial state should be default");

    let new_state = HardState {
        term: 5,
        voted_for: 3,
        commit_index: 10,
    };
    storage.save_hard_state(&new_state).unwrap();
    let read_state = storage.read_hard_state().unwrap();
    assert_eq!(read_state, new_state, "Read state should match saved state");

    let newer_state = HardState {
        term: 6,
        ..new_state
    };
    storage.save_hard_state(&newer_state).unwrap();
    let read_newer_state = storage.read_hard_state().unwrap();
    assert_eq!(
        read_newer_state, newer_state,
        "Read state should reflect the latest save"
    );
}

#[test]
fn test_log_append_and_read_single() {
    let mut storage = InMemoryStorage::new();
    let entry1 = create_entry(1, 1);

    storage.append_log_entries(&[entry1.clone()]).unwrap();

    assert_eq!(storage.last_log_index().unwrap(), 1);
    assert_eq!(storage.last_log_term().unwrap(), 1);

    let read_entry = storage.read_log_entry(1).unwrap();
    assert_eq!(
        read_entry,
        Some(entry1.clone()),
        "Should read back the appended entry"
    );

    let read_nonexistent = storage.read_log_entry(0).unwrap();
    assert!(read_nonexistent.is_none(), "Index 0 should return None");
    let read_nonexistent = storage.read_log_entry(2).unwrap();
    assert!(
        read_nonexistent.is_none(),
        "Index beyond log end should return None"
    );
}

#[test]
fn test_log_append_multiple_and_read_range() {
    let mut storage = InMemoryStorage::new();
    let entries = vec![
        create_entry(1, 1),
        create_entry(2, 1),
        create_entry(3, 2),
        create_entry(4, 2),
    ];

    storage.append_log_entries(&entries).unwrap();

    assert_eq!(storage.last_log_index().unwrap(), 4);
    assert_eq!(storage.last_log_term().unwrap(), 2);

    let read_entries = storage.read_log_entries(1, 5).unwrap();
    assert_eq!(read_entries, entries, "Should read back all appended entries");

    let read_sub = storage.read_log_entries(2, 4).unwrap();
    assert_eq!(read_sub, &entries[1..3], "Should read back sub-range");

    let read_start = storage.read_log_entries(1, 3).unwrap();
    assert_eq!(read_start, &entries[0..2], "Should read range from start");

    let read_end = storage.read_log_entries(3, 5).unwrap();
    assert_eq!(read_end, &entries[2..4], "Should read range to end");

    let read_empty1 = storage.read_log_entries(2, 2).unwrap();
    assert!(read_empty1.is_empty(), "Start == end should yield empty");

    let read_empty2 = storage.read_log_entries(3, 2).unwrap();
    assert!(read_empty2.is_empty(), "Start > end should yield empty");

    let read_beyond = storage.read_log_entries(4, 10).unwrap();
    assert_eq!(read_beyond, &entries[3..], "Should read up to log end");

    let read_start_beyond = storage.read_log_entries(5, 10).unwrap();
    assert!(
        read_start_beyond.is_empty(),
        "Start beyond end should yield empty"
    );

    let read_zero_start = storage.read_log_entries(0, 3).unwrap();
    assert_eq!(
        read_zero_start,
        &entries[0..2],
        "Start=0 should act like start=1"
    );
}

#[test]
fn test_append_overwrite() {
    let mut storage = InMemoryStorage::new();
    let initial_entries = vec![create_entry(1, 1), create_entry(2, 1), create_entry(3, 1)];
    storage.append_log_entries(&initial_entries).unwrap();

    let overwrite_entries = vec![create_entry(2, 2), create_entry(3, 2)];
    storage.append_log_entries(&overwrite_entries).unwrap();

    assert_eq!(
        storage.last_log_index().unwrap(),
        3,
        "Last index should still be 3 after overwrite"
    );
    assert_eq!(
        storage.last_log_term().unwrap(),
        2,
        "Last term should be from the overwrite"
    );

    let entry1 = storage.read_log_entry(1).unwrap().unwrap();
    let entry2 = storage.read_log_entry(2).unwrap().unwrap();
    let entry3 = storage.read_log_entry(3).unwrap().unwrap();

    assert_eq!(entry1, initial_entries[0], "Entry 1 should be unchanged");
    assert_eq!(entry2, overwrite_entries[0], "Entry 2 should be overwritten");
    assert_eq!(entry3, overwrite_entries[1], "Entry 3 should be overwritten");

    let all_entries = storage.read_log_entries(1, 4).unwrap();
    assert_eq!(all_entries.len(), 3);
    assert_eq!(all_entries[0].term, 1);
    assert_eq!(all_entries[1].term, 2);
    assert_eq!(all_entries[2].term, 2);
}

#[test]
fn test_append_gap_error() {
    let mut storage = InMemoryStorage::new();
    storage.append_log_entries(&[create_entry(1, 1)]).unwrap();

    let gap_entries = vec![create_entry(3, 2)];
    let result = storage.append_log_entries(&gap_entries);

    assert!(result.is_err(), "Appending with a gap should return an error");
    assert_eq!(
        storage.last_log_index().unwrap(),
        1,
        "Log should remain unchanged after gap error"
    );
}

#[test]
fn test_truncate_suffix() {
    let mut storage = InMemoryStorage::new();
    let entries = vec![
        create_entry(1, 1),
        create_entry(2, 1),
        create_entry(3, 2),
        create_entry(4, 2),
        create_entry(5, 3),
    ];
    storage.append_log_entries(&entries).unwrap();

    storage.truncate_log_suffix(4).unwrap();
    assert_eq!(storage.last_log_index().unwrap(), 3);
    assert_eq!(storage.last_log_term().unwrap(), 2);
    assert!(storage.read_log_entry(4).unwrap().is_none());
    assert!(storage.read_log_entry(5).unwrap().is_none());
    assert_eq!(storage.read_log_entry(3).unwrap().unwrap().term, 2);

    storage.truncate_log_suffix(1).unwrap();
    assert_eq!(storage.last_log_index().unwrap(), 0);
    assert_eq!(storage.last_log_term().unwrap(), 0);
    assert!(storage.read_log_entry(1).unwrap().is_none());

    storage.truncate_log_suffix(1).unwrap();
    assert_eq!(storage.last_log_index().unwrap(), 0);

    storage.append_log_entries(&entries[0..2]).unwrap();
    assert_eq!(storage.last_log_index().unwrap(), 2);
    storage.truncate_log_suffix(10).unwrap();
    assert_eq!(storage.last_log_index().unwrap(), 2);

    storage.truncate_log_suffix(0).unwrap();
    assert_eq!(storage.last_log_index().unwrap(), 0);
    assert!(storage.read_log_entry(1).unwrap().is_none());
}

#[test]
fn test_truncate_prefix() {
    let mut storage = InMemoryStorage::new();
    let entries = vec![
        create_entry(1, 1),
        create_entry(2, 1),
        create_entry(3, 2),
        create_entry(4, 2),
        create_entry(5, 3),
    ];
    storage.append_log_entries(&entries).unwrap();

    storage.truncate_log_prefix(3).unwrap();
    assert_eq!(storage.last_log_index().unwrap(), 5);
    assert_eq!(storage.last_log_term().unwrap(), 3);
    assert!(
        storage.read_log_entry(1).unwrap().is_none(),
        "Entry 1 should be gone after truncate_prefix(3)"
    );
    assert!(
        storage.read_log_entry(2).unwrap().is_none(),
        "Entry 2 should be gone after truncate_prefix(3)"
    );

    let entry3 = storage.read_log_entry(3).unwrap().unwrap();
    assert_eq!(entry3.term, 2, "Entry 3 should remain");
    let entry5 = storage.read_log_entry(5).unwrap().unwrap();
    assert_eq!(entry5.term, 3, "Entry 5 should remain");

    let remaining_entries = storage.read_log_entries(1, 6).unwrap();
    assert_eq!(remaining_entries.len(), 3, "Should only get entries 3, 4, 5");
    assert_eq!(remaining_entries[0].index, 3);
    assert_eq!(remaining_entries[2].index, 5);

    storage.truncate_log_prefix(5).unwrap();
    assert_eq!(storage.last_log_index().unwrap(), 5);
    assert!(storage.read_log_entry(4).unwrap().is_none());
    assert!(storage.read_log_entry(5).unwrap().is_some());
    assert_eq!(
        storage.read_log_entries(1, 6).unwrap().len(),
        1,
        "Only entry 5 should remain"
    );

    storage = InMemoryStorage::new();
    storage.append_log_entries(&entries).unwrap();
    storage.truncate_log_prefix(1).unwrap();
    assert_eq!(storage.last_log_index().unwrap(), 5);
    assert!(storage.read_log_entry(1).unwrap().is_some());
    assert_eq!(storage.read_log_entries(1, 6).unwrap().len(), 5);

    storage.truncate_log_prefix(7).unwrap();
    assert_eq!(storage.last_log_index().unwrap(), 0);
    assert!(storage.read_log_entry(5).unwrap().is_none());
    assert_eq!(storage.log_len(), 0);
    assert!(storage.read_log_entries(1, 6).unwrap().is_empty());

    storage = InMemoryStorage::new();
    storage.truncate_log_prefix(1).unwrap();
    assert_eq!(storage.last_log_index().unwrap(), 0);
    storage.truncate_log_prefix(10).unwrap();
    assert_eq!(storage.last_log_index().unwrap(), 0);
}

#[test]
fn test_truncate_prefix_minimal_no_op() {
    let mut storage = InMemoryStorage::new();
    let entry1 = create_entry(1, 1);
    storage.append_log_entries(&[entry1.clone()]).unwrap();

    storage.truncate_log_prefix(1).unwrap();

    assert_eq!(
        storage.last_log_index().unwrap(),
        1,
        "Last index should still be 1"
    );

    let entries_read = storage.read_log_entries(1, 2).unwrap();
    assert_eq!(
        entries_read.len(),
        1,
        "Should read back 1 entry after no-op truncate"
    );
    assert_eq!(entries_read[0], entry1);
}

#[test]
fn test_last_index_term_empty_log() {
    let storage = InMemoryStorage::new();
    assert_eq!(
        storage.last_log_index().unwrap(),
        0,
        "Last index of empty log is 0"
    );
    assert_eq!(
        storage.last_log_term().unwrap(),
        0,
        "Last term of empty log is 0"
    );
}

#[test]
fn test_log_reappend_same_index() {
    let mut storage = InMemoryStorage::new();
    let entries1 = vec![create_entry(1, 1), create_entry(2, 1)];
    storage.append_log_entries(&entries1).unwrap();

    let entries2 = vec![create_entry(2, 1), create_entry(3, 1)];
    storage.append_log_entries(&entries2).unwrap();

    assert_eq!(storage.last_log_index().unwrap(), 3);
    assert_eq!(storage.last_log_term().unwrap(), 1);

    let final_log = storage.read_log_entries(1, 4).unwrap();
    assert_eq!(final_log.len(), 3);
    assert_eq!(final_log[0].index, 1);
    assert_eq!(final_log[1].index, 2);
    assert_eq!(final_log[2].index, 3);
}

#[test]
fn test_concurrent_append_read() {
    run(async {
        let storage = Arc::new(Mutex::new(InMemoryStorage::new()));
        let num_writers: u64 = 5;
        let entries_per_writer: u64 = 10;
        let mut writers = Vec::new();

        for i in 0..num_writers {
            let storage = storage.clone();
            writers.push(tokio::spawn(async move {
                let start_index = i * entries_per_writer + 1;
                let entries: Vec<LogEntry> = (start_index..start_index + entries_per_writer)
                    .map(|idx| create_entry(idx, i + 1))
                    .collect();
                tokio::time::sleep(Duration::from_millis(i * 2)).await;
                storage.lock().unwrap().append_log_entries(&entries)
            }));
        }
        for writer in writers {
            writer.await.unwrap().expect("Concurrent append failed");
        }

        let total_entries = num_writers * entries_per_writer;
        assert_eq!(
            storage.lock().unwrap().last_log_index().unwrap(),
            total_entries
        );

        let num_readers = 10;
        let mut readers = Vec::new();
        for reader_id in 0..num_readers {
            let storage = storage.clone();
            readers.push(tokio::spawn(async move {
                let first_entry = storage.lock().unwrap().read_log_entry(1);
                let last_entry = storage.lock().unwrap().read_log_entry(total_entries);
                assert!(
                    first_entry.is_ok() && last_entry.is_ok(),
                    "Concurrent read failed for reader {}",
                    reader_id
                );
                assert!(
                    first_entry.unwrap().is_some(),
                    "Reader {} found None for first entry",
                    reader_id
                );
                assert!(
                    last_entry.unwrap().is_some(),
                    "Reader {} found None for last entry",
                    reader_id
                );
            }));
        }
        for reader in readers {
            reader.await.expect("Read tasks failed");
        }

        let all_read = storage
            .lock()
            .unwrap()
            .read_log_entries(1, total_entries + 1)
            .unwrap();
        assert_eq!(all_read.len() as u64, total_entries);
        for (i, entry) in all_read.iter().enumerate() {
            assert_eq!(entry.index, (i + 1) as u64, "Index mismatch at pos {}", i);
        }
    });
}

#[test]
fn test_concurrent_truncate() {
    run(async {
        let mut initial = InMemoryStorage::new();
        let initial_entries = (1..=100).map(|i| create_entry(i, 1)).collect::<Vec<_>>();
        initial.append_log_entries(&initial_entries).unwrap();
        let storage = Arc::new(Mutex::new(initial));
        let mut handles = Vec::new();

        let suffix = storage.clone();
        handles.push(tokio::spawn(async move {
            tokio::time::sleep(Duration::from_millis(10)).await;
            suffix.lock().unwrap().truncate_log_suffix(51)
        }));
        let prefix = storage.clone();
        handles.push(tokio::spawn(async move {
            tokio::time::sleep(Duration::from_millis(5)).await;
            prefix.lock().unwrap().truncate_log_prefix(21)
        }));
        let reader = storage.clone();
        handles.push(tokio::spawn(async move {
            tokio::time::sleep(Duration::from_millis(15)).await;
            let _ = reader.lock().unwrap().last_log_index().unwrap();
            Ok(())
        }));
        for handle in handles {
            handle
                .await
                .unwrap()
                .expect("Concurrent truncate/read failed");
        }

        let storage = storage.lock().unwrap();
        let final_log = storage.read_log_entries(1, 101).unwrap();
        let final_indices: Vec<u64> = final_log.iter().map(|e| e.index).collect();
        let outcome1: Vec<u64> = (21..=50).collect();
        assert_eq!(final_indices, outcome1, "Final log state mismatch");
        assert_eq!(storage.last_log_index().unwrap(), 50);
        assert_eq!(
            storage.read_hard_state().unwrap(),
            HardState::default(),
            "Hard state shouldn't be affected"
        );
    });
}

#[test]
fn truncations_give_the_same_log_in_either_order() {
    let entries = (1..=100).map(|i| create_entry(i, 1)).collect::<Vec<_>>();
    let mut one = InMemoryStorage::new();
    one.append_log_entries(&entries).unwrap();
    one.truncate_log_prefix(21).unwrap();
    one.truncate_log_suffix(51).unwrap();
    let mut other = InMemoryStorage::new();
    other.append_log_entries(&entries).unwrap();
    other.truncate_log_suffix(51).unwrap();
    other.truncate_log_prefix(21).unwrap();
    assert_eq!(
        one.read_log_entries(0, u64::MAX).unwrap(),
        other.read_log_entries(0, u64::MAX).unwrap()
    );
    assert_eq!(one.log_len(), 30);
}

#[test]
fn test_append_empty_slice() {
    let mut storage = InMemoryStorage::new();
    let result = storage.append_log_entries(&[]);
    assert!(result.is_ok());
    assert_eq!(storage.last_log_index().unwrap(), 0);
}

#[test]
fn test_read_empty_log() {
    let storage = InMemoryStorage::new();
    assert!(storage.read_log_entry(1).unwrap().is_none());
    assert!(storage.read_log_entries(1, 10).unwrap().is_empty());
    assert_eq!(storage.last_log_index().unwrap(), 0);
    assert_eq!(storage.last_log_term().unwrap(), 0);
}

#[test]
fn test_truncate_empty_log() {
    let mut storage = InMemoryStorage::new();
    assert!(storage.truncate_log_prefix(1).is_ok());
    assert_eq!(storage.last_log_index().unwrap(), 0);
    assert!(storage.truncate_log_prefix(100).is_ok());
    assert_eq!(storage.last_log_index().unwrap(), 0);

    assert!(storage.truncate_log_suffix(0).is_ok());
    assert_eq!(storage.last_log_index().unwrap(), 0);
    assert!(storage.truncate_log_suffix(1).is_ok());
    assert_eq!(storage.last_log_index().unwrap(), 0);
    assert!(storage.truncate_log_suffix(100).is_ok());
    assert_eq!(storage.last_log_index().unwrap(), 0);
}

#[test]
fn test_truncate_prefix_all() {
    let mut storage = InMemoryStorage::new();
    let initial_entries = (1..=6).map(|i| create_entry(i, 1)).collect::<Vec<_>>();
    storage.append_log_entries(&initial_entries).unwrap();
    assert_eq!(storage.last_log_index().unwrap(), 6);

    storage.truncate_log_prefix(7).unwrap();
    assert_eq!(
        storage.last_log_index().unwrap(),
        0,
        "Log should be empty after truncate(7)"
    );
    assert!(storage.read_log_entry(1).unwrap().is_none());
    assert!(storage.read_log_entry(6).unwrap().is_none());
    assert!(
        storage.log_len() == 0,
        "Inner log vec size should be 0 after truncate(7)"
    );

    storage.truncate_log_prefix(5).unwrap();
    assert_eq!(
        storage.last_log_index().unwrap(),
        0,
        "Log should still be empty after truncate(5)"
    );
    assert!(storage.log_len() == 0, "Inner log vec size after truncate(5)");

    storage.truncate_log_prefix(7).unwrap();
    assert_eq!(
        storage.last_log_index().unwrap(),
        0,
        "Log should be empty after truncate(7) again"
    );
    assert!(
        storage.log_len() == 0,
        "Inner log vec empty after truncate(7) again"
    );

    storage.truncate_log_prefix(100).unwrap();
    assert_eq!(
        storage.last_log_index().unwrap(),
        0,
        "Log should still be empty after truncate(100)"
    );
    assert!(
        storage.log_len() == 0,
        "Inner log vec should still be empty after truncate(100)"
    );

    let entries_from_1 = vec![create_entry(1, 2), create_entry(2, 2)];
    storage.append_log_entries(&entries_from_1).unwrap();
    assert_eq!(storage.last_log_index().unwrap(), 2);
    assert_eq!(storage.read_log_entry(1).unwrap().unwrap().term, 2);

    let entries_with_gap = vec![create_entry(5, 3)];
    let result = storage.append_log_entries(&entries_with_gap);
    assert!(result.is_err(), "Appending with gap should fail");
    let err = result.unwrap_err();
    assert!(
        err.message()
            .contains("Gap detected between log end (2) and new entries starting at 5"),
        "Incorrect gap error message: {}",
        err.message()
    );
    assert_eq!(
        storage.last_log_index().unwrap(),
        2,
        "Log should be unchanged after gap error"
    );
}

#[test]
fn test_truncate_prefix_then_append() {
    let mut storage = InMemoryStorage::new();
    let initial = (1..=5).map(|i| create_entry(i, 1)).collect::<Vec<_>>();
    storage.append_log_entries(&initial).unwrap();

    storage.truncate_log_prefix(3).unwrap();
    assert_eq!(storage.last_log_index().unwrap(), 5);
    assert!(storage.read_log_entry(2).unwrap().is_none());
    assert!(storage.read_log_entry(3).unwrap().is_some());

    let next_entries = vec![create_entry(6, 2), create_entry(7, 2)];
    storage.append_log_entries(&next_entries).unwrap();

    assert_eq!(storage.last_log_index().unwrap(), 7);
    assert_eq!(storage.last_log_term().unwrap(), 2);

    let final_log = storage.read_log_entries(1, 8).unwrap();
    assert_eq!(final_log.len(), 5);
    assert_eq!(final_log[0].index, 3);
    assert_eq!(final_log[4].index, 7);
}

#[test]
fn non_consecutive_entries_are_refused() {
    let mut storage = InMemoryStorage::new();
    storage.append_log_entries(&[create_entry(1, 1)]).unwrap();
    let err = storage
        .append_log_entries(&[create_entry(2, 1), create_entry(4, 1)])
        .unwrap_err();
    assert_eq!(err, StorageError::NonConsecutive);
    assert_eq!(err.message(), "Non-consecutive log entries");
    assert_eq!(storage.log_len(), 1);
}

#[test]
fn non_consecutive_is_reported_before_a_gap() {
    let mut storage = InMemoryStorage::new();
    let err = storage
        .append_log_entries(&[create_entry(7, 1), create_entry(9, 1)])
        .unwrap_err();
    assert_eq!(err, StorageError::NonConsecutive);
}

#[test]
fn nothing_follows_the_largest_index() {
    let mut storage = InMemoryStorage::new();
    let err = storage
        .append_log_entries(&[create_entry(u64::MAX, 1), create_entry(0, 1)])
        .unwrap_err();
    assert_eq!(err, StorageError::NonConsecutive);
}

#[test]
fn gap_error_names_both_ends() {
    let mut storage = InMemoryStorage::new();
    let err = storage.append_log_entries(&[create_entry(2, 1)]).unwrap_err();
    assert_eq!(
        err,
        StorageError::Gap {
            log_end: 0,
            first_new: 2
        }
    );
    assert_eq!(
        err.message(),
        "Gap detected between log end (0) and new entries starting at 2"
    );
}

#[test]
fn backend_error_shows_its_reason() {
    let err = StorageError::Backend("disk full".to_string());
    assert_eq!(err.message(), "disk full");
}

#[test]
fn an_empty_log_takes_an_entry_at_index_zero() {
    let mut storage = InMemoryStorage::new();
    storage
        .append_log_entries(&[create_entry(0, 1), create_entry(1, 1)])
        .unwrap();
    assert_eq!(storage.log_len(), 2);
    assert!(storage.read_log_entry(0).unwrap().is_none());
    assert_eq!(storage.read_log_entries(0, 2).unwrap().len(), 2);
    storage.truncate_log_prefix(1).unwrap();
    assert_eq!(storage.log_len(), 2);
}

#[test]
fn overwriting_from_before_the_log_replaces_all_of_it() {
    let mut storage = InMemoryStorage::new();
    let entries: Vec<LogEntry> = (1..=5).map(|i| create_entry(i, 1)).collect();
    storage.append_log_entries(&entries).unwrap();
    storage.truncate_log_prefix(4).unwrap();
    storage.append_log_entries(&[create_entry(2, 9)]).unwrap();
    assert_eq!(storage.log_len(), 1);
    assert_eq!(storage.last_log_index().unwrap(), 2);
    assert_eq!(storage.last_log_term().unwrap(), 9);
}

#[test]
fn appending_twice_is_appending_once() {
    let mut storage = InMemoryStorage::new();
    let base: Vec<LogEntry> = (1..=4).map(|i| create_entry(i, 1)).collect();
    let new = vec![create_entry(3, 2), create_entry(4, 2), create_entry(5, 2)];
    storage.append_log_entries(&base).unwrap();
    storage.append_log_entries(&new).unwrap();
    let once = storage.read_log_entries(0, 100).unwrap();
    storage.append_log_entries(&new).unwrap();
    assert_eq!(storage.read_log_entries(0, 100).unwrap(), once);
    assert_eq!(storage.read_log_entries(3, 6).unwrap(), new);
}

#[test]
fn the_hard_state_survives_what_is_done_to_the_log() {
    let mut storage = InMemoryStorage::new();
    storage.append_log_entries(&[create_entry(1, 1)]).unwrap();
    assert_eq!(storage.read_hard_state().unwrap(), HardState::default());

    let state = HardState {
        term: 4,
        voted_for: 2,
        commit_index: 1,
    };
    storage.save_hard_state(&state).unwrap();
    storage
        .append_log_entries(&[create_entry(2, 4), create_entry(3, 4)])
        .unwrap();
    assert!(storage.append_log_entries(&[create_entry(9, 4)]).is_err());
    storage.truncate_log_prefix(2).unwrap();
    storage.truncate_log_suffix(3).unwrap();
    assert_eq!(storage.read_hard_state().unwrap(), state);
}

#[test]
fn reading_from_zero_is_reading_from_one() {
    let mut storage = InMemoryStorage::new();
    storage
        .append_log_entries(&[create_entry(1, 1), create_entry(2, 1)])
        .unwrap();
    let from_zero = storage.read_log_entries(0, 3).unwrap();
    assert_eq!(from_zero, storage.read_log_entries(1, 3).unwrap());
    assert_eq!(from_zero.len(), 2);
}
