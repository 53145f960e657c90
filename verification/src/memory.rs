//! A storage that keeps everything in memory.

use crate::messages::{EntryView, HardState, LogEntry};
use crate::storage::{Storage, StorageError};
use vstd::prelude::*;

verus! {

/// An in-memory [`Storage`]. It never fails for a reason of its own; it only
/// refuses entries that do not fit its log.
#[derive(Debug)]
pub struct InMemoryStorage {
    hard_state: HardState,
    log: Vec<LogEntry>,
}

impl InMemoryStorage {
    /// Whether the log has no hole. A new storage satisfies this and every
    /// operation keeps it.
    pub open spec fn well_formed(&self) -> bool {
        crate::log::consecutive(self.log())
    }

    /// Creates a new, empty storage.
    pub fn new() -> (r: InMemoryStorage)
        ensures
            r.hard_state() == HardState::initial(),
            r.log() == Seq::<EntryView>::empty(),
            r.well_formed(),
    {
        let r = InMemoryStorage { hard_state: HardState::default(), log: Vec::new() };
        assert(r.log() =~= Seq::<EntryView>::empty());
        r
    }

    /// The number of entries in the log.
    pub fn log_len(&self) -> (r: usize)
        ensures
            r == self.log().len(),
    {
        self.log.len()
    }

    /// Finds the position of the first entry whose index is at least `index`.
    fn position_at_least(&self, index: u64) -> (r: usize)
        ensures
            r == crate::log::first_at_least(self.log(), index),
            r <= self.log.len(),
    {
        let mut i: usize = 0;
        while i < self.log.len()
            invariant_except_break
                i <= self.log.len(),
                forall|j: int| 0 <= j < i ==> (#[trigger] self.log()[j]).index < index,
            ensures
                i <= self.log.len(),
                forall|j: int| 0 <= j < i ==> (#[trigger] self.log()[j]).index < index,
                i < self.log.len() ==> self.log()[i as int].index >= index,
            decreases self.log.len() - i,
        {
            assert(self.log()[i as int] == self.log[i as int]@);
            if self.log[i].index >= index {
                break;
            }
            i += 1;
        }
        proof {
            crate::log::lemma_first_at_least(self.log(), index, i as int);
        }
        i
    }
}

impl Default for InMemoryStorage {
    fn default() -> (r: InMemoryStorage)
        ensures
            r.hard_state() == HardState::initial(),
            r.log() == Seq::<EntryView>::empty(),
            r.well_formed(),
    {
        InMemoryStorage::new()
    }
}

impl Storage for InMemoryStorage {
    closed spec fn hard_state(&self) -> HardState {
        self.hard_state
    }

    closed spec fn log(&self) -> Seq<EntryView> {
        crate::messages::entries_view(self.log@)
    }

    open spec fn reliable(&self) -> bool {
        true
    }

    fn save_hard_state(&mut self, state: &HardState) -> (r: Result<(), StorageError>)
        ensures
            r is Ok,
    {
        self.hard_state = *state;
        Ok(())
    }

    fn read_hard_state(&self) -> (r: Result<HardState, StorageError>)
        ensures
            r == Ok::<HardState, StorageError>(self.hard_state()),
    {
        Ok(self.hard_state)
    }

    fn append_log_entries(&mut self, entries: &[LogEntry]) -> (r: Result<(), StorageError>)
        ensures
            final(self).hard_state() == old(self).hard_state(),
            match crate::log::appended(old(self).log(), crate::messages::entries_view(entries@)) {
                Ok(log) => r is Ok && final(self).log() == log,
                Err(e) => r == Err::<(), StorageError>(e) && final(self).log() == old(self).log(),
            },
            old(self).well_formed() ==> final(self).well_formed(),
    {
        let ghost new = crate::messages::entries_view(entries@);
        if entries.len() == 0 {
            return Ok(());
        }
        let first_new_index: u64 = entries[0].index;
        assert(new[0] == entries[0]@);
        let last_current_index: u64 = if self.log.len() == 0 {
            0
        } else {
            self.log[self.log.len() - 1].index
        };
        assert(last_current_index == crate::log::last_index(self.log()));

        let mut i: usize = 1;
        while i < entries.len()
            invariant
                1 <= i <= entries.len(),
                new == crate::messages::entries_view(entries@),
                forall|j: int| 0 <= j < i ==> (#[trigger] new[j]).index == new[0].index + j,
                *self == *old(self),
            decreases entries.len() - i,
        {
            assert(new[i as int] == entries[i as int]@);
            assert(new[i - 1] == entries[i - 1]@);
            if entries[i - 1].index == u64::MAX || entries[i].index != entries[i - 1].index + 1 {
                return Err(StorageError::NonConsecutive);
            }
            i += 1;
        }

        if first_new_index <= last_current_index {
            let conflict_pos: usize = self.position_at_least(first_new_index);
            proof {
                crate::log::lemma_first_at_least_bounds(self.log(), first_new_index);
            }
            self.log.truncate(conflict_pos);
        } else if first_new_index > last_current_index + 1 {
            return Err(
                StorageError::Gap { log_end: last_current_index, first_new: first_new_index },
            );
        }
        let ghost kept = self.log();
        self.log.extend_from_slice(entries);
        proof {
            assert(self.log() =~= kept + new);
            if old(self).well_formed() {
                crate::log::lemma_append_keeps_consecutive(old(self).log(), new);
            }
            if first_new_index <= last_current_index {
                assert(kept =~= old(self).log().take(
                    crate::log::first_at_least(old(self).log(), first_new_index),
                ));
            }
        }
        Ok(())
    }

    fn read_log_entry(&self, index: u64) -> (r: Result<Option<LogEntry>, StorageError>)
        ensures
            match crate::log::lookup(self.log(), index) {
                Some(e) => r matches Ok(Some(entry)) && entry@ == e,
                None => r == Ok::<Option<LogEntry>, StorageError>(None),
            },
    {
        if index == 0 {
            return Ok(None);
        }
        let mut i: usize = 0;
        while i < self.log.len()
            invariant
                i <= self.log.len(),
                index != 0,
                forall|j: int| 0 <= j < i ==> (#[trigger] self.log()[j]).index != index,
            decreases self.log.len() - i,
        {
            assert(self.log()[i as int] == self.log[i as int]@);
            if self.log[i].index == index {
                proof {
                    crate::log::lemma_find_at(self.log(), index, i as int);
                }
                return Ok(Some(self.log[i].clone()));
            }
            i += 1;
        }
        proof {
            crate::log::lemma_find_none(self.log(), index);
        }
        Ok(None)
    }

    fn read_log_entries(&self, start_index: u64, end_index: u64) -> (r: Result<
        Vec<LogEntry>,
        StorageError,
    >)
        ensures
            r is Ok,
    {
        let ghost wanted = crate::log::in_range(start_index, end_index);
        let mut result: Vec<LogEntry> = Vec::new();
        if start_index >= end_index || self.log.len() == 0 {
            proof {
                crate::log::lemma_filter_none(self.log(), wanted);
                assert(crate::messages::entries_view(result@) =~= Seq::<EntryView>::empty());
            }
            return Ok(result);
        }
        assert(self.log().take(0) =~= Seq::<EntryView>::empty());
        proof {
            crate::log::lemma_filter_none(self.log().take(0), wanted);
            assert(crate::messages::entries_view(result@) =~= Seq::<EntryView>::empty());
        }
        let mut i: usize = 0;
        while i < self.log.len()
            invariant
                i <= self.log.len(),
                wanted == crate::log::in_range(start_index, end_index),
                crate::messages::entries_view(result@) == self.log().take(i as int).filter(wanted),
            decreases self.log.len() - i,
        {
            let ghost before = result@;
            proof {
                crate::log::lemma_filter_step(self.log(), wanted, i as int);
            }
            assert(self.log()[i as int] == self.log[i as int]@);
            if self.log[i].index >= start_index && self.log[i].index < end_index {
                result.push(self.log[i].clone());
                assert(crate::messages::entries_view(result@)
                    =~= crate::messages::entries_view(before).push(self.log()[i as int]));
            }
            i += 1;
        }
        assert(self.log().take(self.log.len() as int) =~= self.log());
        Ok(result)
    }

    fn truncate_log_prefix(&mut self, end_index_exclusive: u64) -> (r: Result<(), StorageError>)
        ensures
            r is Ok,
            final(self).hard_state() == old(self).hard_state(),
            final(self).log() == crate::log::without_prefix(old(self).log(), end_index_exclusive),
            old(self).well_formed() ==> final(self).well_formed(),
    {
        let ghost kept_by = crate::log::at_least(end_index_exclusive);
        if end_index_exclusive <= 1 {
            proof {
                if crate::log::one_based(self.log()) {
                    crate::log::lemma_filter_all(self.log(), kept_by);
                }
            }
            return Ok(());
        }
        let mut kept: Vec<LogEntry> = Vec::new();
        assert(self.log().take(0) =~= Seq::<EntryView>::empty());
        proof {
            crate::log::lemma_filter_none(self.log().take(0), kept_by);
            assert(crate::messages::entries_view(kept@) =~= Seq::<EntryView>::empty());
        }
        let mut i: usize = 0;
        while i < self.log.len()
            invariant
                i <= self.log.len(),
                *self == *old(self),
                kept_by == crate::log::at_least(end_index_exclusive),
                crate::messages::entries_view(kept@) == self.log().take(i as int).filter(kept_by),
            decreases self.log.len() - i,
        {
            let ghost before = kept@;
            proof {
                crate::log::lemma_filter_step(self.log(), kept_by, i as int);
            }
            assert(self.log()[i as int] == self.log[i as int]@);
            if self.log[i].index >= end_index_exclusive {
                kept.push(self.log[i].clone());
                assert(crate::messages::entries_view(kept@)
                    =~= crate::messages::entries_view(before).push(self.log()[i as int]));
            }
            i += 1;
        }
        assert(self.log().take(self.log.len() as int) =~= self.log());
        self.log = kept;
        proof {
            if old(self).well_formed() {
                crate::log::lemma_prefix_keeps_consecutive(old(self).log(), end_index_exclusive);
            }
        }
        Ok(())
    }

    fn truncate_log_suffix(&mut self, start_index_inclusive: u64) -> (r: Result<(), StorageError>)
        ensures
            r is Ok,
            final(self).hard_state() == old(self).hard_state(),
            final(self).log() == crate::log::without_suffix(old(self).log(), start_index_inclusive),
            old(self).well_formed() ==> final(self).well_formed(),
    {
        let pos: usize = self.position_at_least(start_index_inclusive);
        self.log.truncate(pos);
        proof {
            crate::log::lemma_first_at_least_bounds(old(self).log(), start_index_inclusive);
            assert(self.log() =~= old(self).log().take(pos as int));
            if crate::log::consecutive(old(self).log()) {
                crate::log::lemma_suffix_is_filter(old(self).log(), start_index_inclusive);
            }
        }
        Ok(())
    }

    fn last_log_index(&self) -> (r: Result<u64, StorageError>)
        ensures
            r == Ok::<u64, StorageError>(crate::log::last_index(self.log())),
    {
        if self.log.len() == 0 {
            Ok(0)
        } else {
            Ok(self.log[self.log.len() - 1].index)
        }
    }

    fn last_log_term(&self) -> (r: Result<u64, StorageError>)
        ensures
            r == Ok::<u64, StorageError>(crate::log::last_term(self.log())),
    {
        if self.log.len() == 0 {
            Ok(0)
        } else {
            Ok(self.log[self.log.len() - 1].term)
        }
    }
}

/// Whether `after` is what an append or a truncation can make of `before`.
pub open spec fn log_operation(before: InMemoryStorage, after: InMemoryStorage) -> bool {
    &&& after.hard_state() == before.hard_state()
    &&& {
        ||| exists|new: Seq<EntryView>|
            match #[trigger] crate::log::appended(before.log(), new) {
                Ok(log) => after.log() == log,
                Err(_) => after.log() == before.log(),
            }
        ||| exists|end: u64| after.log() == #[trigger] crate::log::without_prefix(before.log(), end)
        ||| exists|start: u64|
            after.log() == #[trigger] crate::log::without_suffix(before.log(), start)
    }
}

/// The hard state is read back as it was saved, whatever was done to the log in
/// between. `run` gives the storage right after the save and after each operation
/// on its log; a storage that was never saved to starts with the initial hard state.
pub proof fn law_hard_state_is_read_back(run: Seq<InMemoryStorage>, state: HardState)
    requires
        run.len() > 0,
        run[0].hard_state() == state,
        forall|i: int| 0 <= i < run.len() - 1 ==> log_operation(#[trigger] run[i], run[i + 1]),
    ensures
        run.last().hard_state() == state,
    decreases run.len(),
{
    if run.len() > 1 {
        let earlier = run.drop_last();
        assert forall|i: int| 0 <= i < earlier.len() - 1 implies log_operation(
            #[trigger] earlier[i],
            earlier[i + 1],
        ) by {
            assert(earlier[i] == run[i]);
        }
        law_hard_state_is_read_back(earlier, state);
        assert(log_operation(run[run.len() - 2], run[run.len() - 2 + 1]));
    }
}

} // verus!
