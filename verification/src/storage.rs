//! What a node requires of the place that it persists its state to.

use crate::messages::{EntryView, HardState, LogEntry};
use crate::text::decimal_string;
use vstd::prelude::*;

verus! {

/// Why a storage operation failed.
#[derive(Clone, Debug, PartialEq, Eq)]
pub enum StorageError {
    /// The indices of the entries to append do not follow one another.
    NonConsecutive,
    /// The entries to append would leave a hole behind the end of the log.
    Gap { log_end: u64, first_new: u64 },
    /// The medium behind the storage failed.
    Backend(String),
}

impl StorageError {
    /// The message that describes the error.
    pub open spec fn text(&self) -> Seq<char> {
        match self {
            StorageError::NonConsecutive => "Non-consecutive log entries"@,
            StorageError::Gap { log_end, first_new } => "Gap detected between log end ("@
                + crate::text::decimal(*log_end as nat) + ") and new entries starting at "@
                + crate::text::decimal(*first_new as nat),
            StorageError::Backend(reason) => reason@,
        }
    }

    /// Renders the error for a reader.
    pub fn message(&self) -> (s: String)
        ensures
            s@ == self.text(),
    {
        match self {
            StorageError::NonConsecutive => String::from_str("Non-consecutive log entries"),
            StorageError::Gap { log_end, first_new } => {
                let mut s = String::from_str("Gap detected between log end (");
                s.append(decimal_string(*log_end).as_str());
                s.append(") and new entries starting at ");
                s.append(decimal_string(*first_new).as_str());
                s
            },
            StorageError::Backend(reason) => reason.clone(),
        }
    }
}

/// The persistent storage of a node.
///
/// A storage may fail. Nothing is promised about a storage after a failed
/// operation on it, and a storage that never fails says so in
/// [`Storage::reliable`].
pub trait Storage {
    /// The hard state that a reader of the storage finds. A new storage holds the
    /// initial one, and an implementation says here how it holds a later one.
    open spec fn hard_state(&self) -> HardState {
        HardState::initial()
    }

    /// The log that a reader of the storage finds. A new storage holds no entry, and
    /// an implementation says here how it holds those that it was given.
    open spec fn log(&self) -> Seq<EntryView> {
        Seq::empty()
    }

    /// Whether saving and reading always succeed; not so, unless an implementation
    /// says otherwise.
    open spec fn reliable(&self) -> bool {
        false
    }

    /// Saves the hard state.
    fn save_hard_state(&mut self, state: &HardState) -> (r: Result<(), StorageError>)
        ensures
            r is Ok ==> final(self).hard_state() == *state,
            r is Ok ==> final(self).log() == old(self).log(),
            r is Ok ==> final(self).reliable() == old(self).reliable(),
            old(self).reliable() ==> r is Ok,
    ;

    /// Reads the saved hard state.
    fn read_hard_state(&self) -> (r: Result<HardState, StorageError>)
        ensures
            r matches Ok(state) ==> state == self.hard_state(),
            self.reliable() ==> r is Ok,
    ;

    /// Appends entries to the log. The implementation decides which entries fit.
    fn append_log_entries(&mut self, entries: &[LogEntry]) -> (r: Result<(), StorageError>)
        ensures
            r is Ok ==> final(self).hard_state() == old(self).hard_state(),
            r is Ok ==> final(self).reliable() == old(self).reliable(),
    ;

    /// Reads the entry with the given index.
    fn read_log_entry(&self, index: u64) -> (r: Result<Option<LogEntry>, StorageError>)
        ensures
            r matches Ok(found) ==> match crate::log::lookup(self.log(), index) {
                Some(e) => found matches Some(entry) && entry@ == e,
                None => found is None,
            },
            self.reliable() ==> r is Ok,
    ;

    /// Reads the entries from `start_index` up to, but not including, `end_index`.
    fn read_log_entries(&self, start_index: u64, end_index: u64) -> (r: Result<
        Vec<LogEntry>,
        StorageError,
    >)
        ensures
            r matches Ok(entries) ==> crate::messages::entries_view(entries@) == self.log().filter(
                crate::log::in_range(start_index, end_index),
            ),
            self.reliable() ==> r is Ok,
    ;

    /// Deletes the entries before `end_index_exclusive`.
    fn truncate_log_prefix(&mut self, end_index_exclusive: u64) -> (r: Result<(), StorageError>)
        ensures
            r is Ok && crate::log::one_based(old(self).log()) ==> final(self).log() == old(self).log().filter(
                crate::log::at_least(end_index_exclusive),
            ),
            r is Ok ==> final(self).hard_state() == old(self).hard_state(),
            r is Ok ==> final(self).reliable() == old(self).reliable(),
            old(self).reliable() ==> r is Ok,
    ;

    /// Deletes the entries from `start_index_inclusive` on.
    fn truncate_log_suffix(&mut self, start_index_inclusive: u64) -> (r: Result<(), StorageError>)
        ensures
            r is Ok && crate::log::consecutive(old(self).log()) ==> final(self).log() == old(
                self,
            ).log().filter(crate::log::below(start_index_inclusive)),
            r is Ok ==> final(self).hard_state() == old(self).hard_state(),
            r is Ok ==> final(self).reliable() == old(self).reliable(),
            old(self).reliable() ==> r is Ok,
    ;

    /// Returns the index of the last entry of the log, or 0 when there is none.
    fn last_log_index(&self) -> (r: Result<u64, StorageError>)
        ensures
            r matches Ok(index) ==> index == crate::log::last_index(self.log()),
            self.reliable() ==> r is Ok,
    ;

    /// Returns the term of the last entry of the log, or 0 when there is none.
    fn last_log_term(&self) -> (r: Result<u64, StorageError>)
        ensures
            r matches Ok(term) ==> term == crate::log::last_term(self.log()),
            self.reliable() ==> r is Ok,
    ;
}

} // verus!
