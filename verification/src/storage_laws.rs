//! What a caller of a storage can rely on, stated over the calls and their results.
//!
//! Each law speaks of what a call is given and what comes back. `before` and
//! `after` are the storage around a call that changes it.

use crate::memory::InMemoryStorage;
use crate::messages::{EntryView, HardState, LogEntry};
use crate::storage::{Storage, StorageError};
use vstd::prelude::*;

verus! {

/// Whether positions come in order, each of them once.
pub open spec fn increasing(at: Seq<int>) -> bool {
    forall|i: int, j: int| 0 <= i < j < at.len() ==> #[trigger] at[i] < #[trigger] at[j]
}

/// Whether two reads of one entry found the same: nothing, or entries that agree in
/// every field.
pub open spec fn same_entry(a: Option<LogEntry>, b: Option<LogEntry>) -> bool {
    match (a, b) {
        (Some(x), Some(y)) => {
            &&& x.index == y.index
            &&& x.term == y.term
            &&& x.command@ == y.command@
        },
        (None, None) => true,
        _ => false,
    }
}

/// A filter keeps the entries that pass, in their order, and no others.
proof fn lemma_filter_positions(log: Seq<EntryView>, p: spec_fn(EntryView) -> bool) -> (at: Seq<int>)
    ensures
        increasing(at),
        at.len() == log.filter(p).len(),
        forall|k: int|
            0 <= k < at.len() ==> 0 <= #[trigger] at[k] < log.len() && log.filter(p)[k]
                == log[at[k]],
        forall|i: int| 0 <= i < log.len() ==> (p(#[trigger] log[i]) <==> at.contains(i)),
    decreases log.len(),
{
    reveal(Seq::filter);
    if log.len() == 0 {
        Seq::empty()
    } else {
        let head = log.drop_last();
        let n = log.len() - 1;
        let front = lemma_filter_positions(head, p);
        assert forall|i: int| 0 <= i < n implies (p(#[trigger] log[i]) <==> front.contains(i)) by {
            assert(head[i] == log[i]);
        }
        assert(!front.contains(n));
        if p(log[n]) {
            let at = front.push(n);
            assert forall|i: int| 0 <= i < log.len() implies (p(#[trigger] log[i])
                <==> at.contains(i)) by {
                if i == n {
                    assert(at[front.len() as int] == n);
                } else if front.contains(i) {
                    let k = choose|k: int| 0 <= k < front.len() && front[k] == i;
                    assert(at[k] == i);
                } else if at.contains(i) {
                    let k = choose|k: int| 0 <= k < at.len() && at[k] == i;
                    assert(front[k] == i);
                }
            }
            at
        } else {
            front
        }
    }
}

/// An append succeeds exactly when there is nothing to append, or when the entries
/// follow one another and start no later than just behind the end of the log. An
/// append that fails says why and changes nothing.
pub proof fn law_append_succeeds_exactly_when_it_fits(
    before: InMemoryStorage,
    after: InMemoryStorage,
    entries: &[LogEntry],
    r: Result<(), StorageError>,
)
    requires
        exists|s: &mut InMemoryStorage|
            *s == before && *final(s) == after && #[trigger] call_ensures(
                InMemoryStorage::append_log_entries,
                (s, entries),
                r,
            ),
    ensures
        ({
            let end: int = if before.log().len() == 0 {
                0
            } else {
                before.log()[before.log().len() - 1].index as int
            };
            let first: int = entries@[0].index as int;
            let in_order = forall|i: int|
                0 <= i < entries@.len() ==> (#[trigger] entries@[i]).index == first + i;
            &&& r is Ok <==> entries@.len() == 0 || (in_order && first <= end + 1)
            &&& entries@.len() > 0 && !in_order ==> r == Err::<(), StorageError>(
                StorageError::NonConsecutive,
            )
            &&& entries@.len() > 0 && in_order && first > end + 1 ==> (r matches Err(
                StorageError::Gap { log_end, first_new },
            ) && log_end == end && first_new == first)
            &&& r is Err || entries@.len() == 0 ==> after.log() == before.log()
        }),
        after.hard_state() == before.hard_state(),
{
    let new = crate::messages::entries_view(entries@);
    assert forall|i: int| 0 <= i < entries@.len() implies (#[trigger] new[i]).index
        == entries@[i].index by {}
    if entries@.len() > 0 {
        assert(new[0].index == entries@[0].index);
        if crate::log::consecutive(new) {
            assert forall|i: int| 0 <= i < entries@.len() implies (#[trigger] entries@[i]).index
                == entries@[0].index + i by {
                assert(new[i].index == new[0].index + i);
            }
        } else {
            let i = choose|i: int|
                0 <= i < new.len() && !((#[trigger] new[i]).index == new[0].index + i);
            assert(entries@[i].index != entries@[0].index + i);
        }
    }
}

/// An append that succeeds leaves the entries before the first new one as they were,
/// followed by the new ones, and nothing behind those.
pub proof fn law_append_replaces_the_tail(
    before: InMemoryStorage,
    after: InMemoryStorage,
    entries: &[LogEntry],
    r: Result<(), StorageError>,
)
    requires
        exists|s: &mut InMemoryStorage|
            *s == before && *final(s) == after && #[trigger] call_ensures(
                InMemoryStorage::append_log_entries,
                (s, entries),
                r,
            ),
        r is Ok,
        entries@.len() > 0,
        forall|i: int|
            0 <= i < before.log().len() ==> (#[trigger] before.log()[i]).index
                == before.log()[0].index + i,
    ensures
        ({
            let kept = after.log().len() - entries@.len();
            &&& 0 <= kept <= before.log().len()
            &&& forall|i: int| 0 <= i < kept ==> #[trigger] after.log()[i] == before.log()[i]
            &&& forall|i: int|
                0 <= i < before.log().len() ==> (i < kept <==> (#[trigger] before.log()[i]).index
                    < entries@[0].index)
            &&& forall|k: int|
                0 <= k < entries@.len() ==> {
                    let e = #[trigger] after.log()[kept + k];
                    &&& e.index == entries@[k].index
                    &&& e.term == entries@[k].term
                    &&& e.command == entries@[k].command@
                }
            &&& forall|i: int|
                0 <= i < after.log().len() ==> (#[trigger] after.log()[i]).index
                    == after.log()[0].index + i
        }),
{
    let log = before.log();
    let new = crate::messages::entries_view(entries@);
    let n = crate::log::split(log, new);
    assert(crate::log::consecutive(log));
    crate::log::lemma_append_split(log, new);
    crate::log::lemma_append_keeps_consecutive(log, new);
    assert(after.log() == log.take(n) + new);
    assert(new[0].index == entries@[0].index);
    assert forall|i: int| 0 <= i < log.len() implies (i < n <==> (#[trigger] log[i]).index
        < entries@[0].index) by {
        crate::log::lemma_first_at_least_bounds(log, new[0].index);
        assert(log[log.len() - 1].index == log[0].index + (log.len() - 1));
        if n > 0 {
            assert(log[n - 1].index == log[0].index + (n - 1));
        }
        assert(log[i].index == log[0].index + i);
        if n < log.len() {
            assert(log[n].index == log[0].index + n);
        }
    }
    assert forall|k: int| 0 <= k < entries@.len() implies {
        let e = #[trigger] after.log()[n + k];
        &&& e.index == entries@[k].index
        &&& e.term == entries@[k].term
        &&& e.command == entries@[k].command@
    } by {
        assert(after.log()[n + k] == new[k]);
        assert(new[k] == entries@[k]@);
    }
}

/// Reading one entry finds the first entry of the log with that index, and nothing
/// where there is none. Nothing is ever found at the index 0.
pub proof fn law_read_finds_the_index(
    storage: InMemoryStorage,
    index: u64,
    r: Result<Option<LogEntry>, StorageError>,
)
    requires
        call_ensures(InMemoryStorage::read_log_entry, (&storage, index), r),
    ensures
        r is Ok,
        r matches Ok(None) ==> index == 0 || forall|i: int|
            0 <= i < storage.log().len() ==> (#[trigger] storage.log()[i]).index != index,
        r matches Ok(Some(entry)) ==> index != 0 && entry.index == index && exists|i: int|
            {
                &&& 0 <= i < storage.log().len()
                &&& (#[trigger] storage.log()[i]).index == index
                &&& storage.log()[i].term == entry.term
                &&& storage.log()[i].command == entry.command@
                &&& forall|j: int| 0 <= j < i ==> (#[trigger] storage.log()[j]).index != index
            },
{
    let log = storage.log();
    if index != 0 {
        if exists|i: int| 0 <= i < log.len() && (#[trigger] log[i]).index == index {
            let i = choose|i: int| 0 <= i < log.len() && (#[trigger] log[i]).index == index;
            lemma_first_with_index(log, index, i);
            let first = choose|p: int|
                {
                    &&& 0 <= p <= i
                    &&& (#[trigger] log[p]).index == index
                    &&& forall|j: int| 0 <= j < p ==> (#[trigger] log[j]).index != index
                };
            crate::log::lemma_find_at(log, index, first);
            assert(log[first].index == index);
        } else {
            crate::log::lemma_find_none(log, index);
        }
    }
}

/// Where an index occurs, it occurs for a first time.
proof fn lemma_first_with_index(log: Seq<EntryView>, index: u64, i: int)
    requires
        0 <= i < log.len(),
        log[i].index == index,
    ensures
        exists|p: int|
            {
                &&& 0 <= p <= i
                &&& (#[trigger] log[p]).index == index
                &&& forall|j: int| 0 <= j < p ==> (#[trigger] log[j]).index != index
            },
    decreases i,
{
    if exists|j: int| 0 <= j < i && (#[trigger] log[j]).index == index {
        let j = choose|j: int| 0 <= j < i && (#[trigger] log[j]).index == index;
        lemma_first_with_index(log, index, j);
    } else {
        assert(log[i].index == index);
    }
}

/// Reading a range gives exactly the entries of the log whose index is at least the
/// start and below the end, in the order of the log.
pub proof fn law_range_read_is_exact(
    storage: InMemoryStorage,
    start: u64,
    end: u64,
    r: Result<Vec<LogEntry>, StorageError>,
)
    requires
        call_ensures(InMemoryStorage::read_log_entries, (&storage, start, end), r),
    ensures
        r is Ok,
        r matches Ok(found) ==> {
            &&& forall|k: int|
                0 <= k < found@.len() ==> start <= (#[trigger] found@[k]).index
                    && found@[k].index < end
            &&& exists|at: Seq<int>|
                {
                    &&& #[trigger] increasing(at)
                    &&& at.len() == found@.len()
                    &&& forall|k: int|
                        0 <= k < at.len() ==> {
                            let e = storage.log()[#[trigger] at[k]];
                            &&& 0 <= at[k] < storage.log().len()
                            &&& found@[k].index == e.index
                            &&& found@[k].term == e.term
                            &&& found@[k].command@ == e.command
                        }
                    &&& forall|i: int|
                        0 <= i < storage.log().len() ==> (start <= (
                        #[trigger] storage.log()[i]).index && storage.log()[i].index < end
                            <==> at.contains(i))
                }
        },
{
    law_any_storage_reads_ranges_exactly(storage, start, end, r);
}

/// Deleting a prefix keeps exactly the entries whose index is at least the given
/// one, in their order. An index of 0 or 1 deletes nothing.
pub proof fn law_prefix_truncation_is_exact(
    before: InMemoryStorage,
    after: InMemoryStorage,
    end: u64,
    r: Result<(), StorageError>,
)
    requires
        exists|s: &mut InMemoryStorage|
            *s == before && *final(s) == after && #[trigger] call_ensures(
                InMemoryStorage::truncate_log_prefix,
                (s, end),
                r,
            ),
    ensures
        r is Ok,
        after.hard_state() == before.hard_state(),
        end <= 1 ==> after.log() == before.log(),
        end > 1 ==> exists|at: Seq<int>|
            {
                &&& #[trigger] increasing(at)
                &&& at.len() == after.log().len()
                &&& forall|k: int|
                    0 <= k < at.len() ==> 0 <= #[trigger] at[k] < before.log().len()
                        && after.log()[k] == before.log()[at[k]]
                &&& forall|i: int|
                    0 <= i < before.log().len() ==> ((#[trigger] before.log()[i]).index >= end
                        <==> at.contains(i))
            },
{
    let p = crate::log::at_least(end);
    let at = lemma_filter_positions(before.log(), p);
    assert(increasing(at));
    if end > 1 {
        assert(after.log() == before.log().filter(p));
    }
}

/// Deleting a suffix keeps the entries up to the first one whose index is not below
/// the given one.
pub proof fn law_suffix_truncation_is_exact(
    before: InMemoryStorage,
    after: InMemoryStorage,
    start: u64,
    r: Result<(), StorageError>,
)
    requires
        exists|s: &mut InMemoryStorage|
            *s == before && *final(s) == after && #[trigger] call_ensures(
                InMemoryStorage::truncate_log_suffix,
                (s, start),
                r,
            ),
    ensures
        r is Ok,
        after.hard_state() == before.hard_state(),
        after.log().len() <= before.log().len(),
        forall|i: int|
            0 <= i < after.log().len() ==> #[trigger] after.log()[i] == before.log()[i]
                && before.log()[i].index < start,
        after.log().len() < before.log().len() ==> before.log()[after.log().len() as int].index
            >= start,
{
    crate::log::lemma_first_at_least_bounds(before.log(), start);
}

/// The index and the term of the last entry are those of the entry that the log ends
/// with, or 0 where there is none, and the length of the log is the number of its
/// entries.
pub proof fn law_log_end_is_the_last_entry(
    storage: InMemoryStorage,
    index: Result<u64, StorageError>,
    term: Result<u64, StorageError>,
    len: usize,
)
    requires
        call_ensures(InMemoryStorage::last_log_index, (&storage,), index),
        call_ensures(InMemoryStorage::last_log_term, (&storage,), term),
        call_ensures(InMemoryStorage::log_len, (&storage,), len),
    ensures
        index is Ok,
        term is Ok,
        len == storage.log().len(),
        len == 0 ==> index->Ok_0 == 0 && term->Ok_0 == 0,
        len > 0 ==> index->Ok_0 == storage.log()[len - 1].index && term->Ok_0
            == storage.log()[len - 1].term,
{
}

/// A saved hard state is read back field by field, and saving leaves the log alone.
pub proof fn law_saved_hard_state_is_read(
    before: InMemoryStorage,
    after: InMemoryStorage,
    state: HardState,
    saved: Result<(), StorageError>,
    read: Result<HardState, StorageError>,
)
    requires
        exists|s: &mut InMemoryStorage|
            *s == before && *final(s) == after && #[trigger] call_ensures(
                InMemoryStorage::save_hard_state,
                (s, &state),
                saved,
            ),
        call_ensures(InMemoryStorage::read_hard_state, (&after,), read),
    ensures
        saved is Ok,
        after.log() == before.log(),
        read matches Ok(found) && found.term == state.term && found.voted_for == state.voted_for
            && found.commit_index == state.commit_index,
{
}

/// A new storage holds no entry and the hard state of a node that has seen nothing.
pub proof fn law_new_storage_is_empty(
    storage: InMemoryStorage,
    state: Result<HardState, StorageError>,
    index: u64,
    entry: Result<Option<LogEntry>, StorageError>,
    start: u64,
    end: u64,
    range: Result<Vec<LogEntry>, StorageError>,
    last_index: Result<u64, StorageError>,
    last_term: Result<u64, StorageError>,
)
    requires
        call_ensures(InMemoryStorage::new, (), storage) || call_ensures(
            InMemoryStorage::default,
            (),
            storage,
        ),
        call_ensures(InMemoryStorage::read_hard_state, (&storage,), state),
        call_ensures(InMemoryStorage::read_log_entry, (&storage, index), entry),
        call_ensures(InMemoryStorage::read_log_entries, (&storage, start, end), range),
        call_ensures(InMemoryStorage::last_log_index, (&storage,), last_index),
        call_ensures(InMemoryStorage::last_log_term, (&storage,), last_term),
    ensures
        storage.log().len() == 0,
        state matches Ok(found) && found.term == 0 && found.voted_for == 0 && found.commit_index
            == 0,
        entry == Ok::<Option<LogEntry>, StorageError>(None),
        range matches Ok(found) && found@.len() == 0,
        last_index == Ok::<u64, StorageError>(0),
        last_term == Ok::<u64, StorageError>(0),
{
    law_read_finds_the_index(storage, index, entry);
    law_range_read_is_exact(storage, start, end, range);
    let p = crate::log::in_range(start, end);
    let at = lemma_filter_positions(storage.log(), p);
    if at.len() > 0 {
        assert(0 <= at[0] < storage.log().len());
    }
    if let Ok(found) = range {
        assert(crate::messages::entries_view(found@).len() == storage.log().filter(p).len());
    }
}

/// An entry that was appended is read back field by field.
pub proof fn law_appended_entry_is_read(
    before: InMemoryStorage,
    after: InMemoryStorage,
    entries: &[LogEntry],
    r: Result<(), StorageError>,
    k: int,
    read: Result<Option<LogEntry>, StorageError>,
)
    requires
        exists|s: &mut InMemoryStorage|
            *s == before && *final(s) == after && #[trigger] call_ensures(
                InMemoryStorage::append_log_entries,
                (s, entries),
                r,
            ),
        r is Ok,
        forall|i: int|
            0 <= i < before.log().len() ==> (#[trigger] before.log()[i]).index
                == before.log()[0].index + i,
        0 <= k < entries@.len(),
        entries@[k].index != 0,
        call_ensures(InMemoryStorage::read_log_entry, (&after, entries@[k].index), read),
    ensures
        read matches Ok(found) && same_entry(found, Some(entries@[k])),
{
    law_append_replaces_the_tail(before, after, entries, r);
    law_read_finds_the_index(after, entries@[k].index, read);
    let kept = after.log().len() - entries@.len();
    let log = after.log();
    assert(log[kept + k].index == entries@[k].index);
    assert(log[kept + k].index == log[0].index + (kept + k));
    if let Ok(Some(entry)) = read {
        let i = choose|i: int|
            {
                &&& 0 <= i < log.len()
                &&& (#[trigger] log[i]).index == entries@[k].index
                &&& log[i].term == entry.term
                &&& log[i].command == entry.command@
                &&& forall|j: int| 0 <= j < i ==> (#[trigger] log[j]).index != entries@[k].index
            };
        assert(log[i].index == log[0].index + i);
        assert(i == kept + k);
    }
}

/// An append changes nothing that is read before its first entry, leaves nothing to
/// be read behind its last one, and makes that one the end of the log.
pub proof fn law_append_touches_only_its_own_indices(
    before: InMemoryStorage,
    after: InMemoryStorage,
    entries: &[LogEntry],
    r: Result<(), StorageError>,
    index: u64,
    earlier: Result<Option<LogEntry>, StorageError>,
    later: Result<Option<LogEntry>, StorageError>,
    last_index: Result<u64, StorageError>,
    last_term: Result<u64, StorageError>,
)
    requires
        exists|s: &mut InMemoryStorage|
            *s == before && *final(s) == after && #[trigger] call_ensures(
                InMemoryStorage::append_log_entries,
                (s, entries),
                r,
            ),
        r is Ok,
        entries@.len() > 0,
        forall|i: int|
            0 <= i < before.log().len() ==> (#[trigger] before.log()[i]).index
                == before.log()[0].index + i,
        call_ensures(InMemoryStorage::read_log_entry, (&before, index), earlier),
        call_ensures(InMemoryStorage::read_log_entry, (&after, index), later),
        call_ensures(InMemoryStorage::last_log_index, (&after,), last_index),
        call_ensures(InMemoryStorage::last_log_term, (&after,), last_term),
    ensures
        index < entries@[0].index ==> same_entry(earlier->Ok_0, later->Ok_0),
        index > entries@[entries@.len() - 1].index ==> later->Ok_0 is None,
        last_index == Ok::<u64, StorageError>(entries@[entries@.len() - 1].index),
        last_term == Ok::<u64, StorageError>(entries@[entries@.len() - 1].term),
{
    law_append_replaces_the_tail(before, after, entries, r);
    law_append_succeeds_exactly_when_it_fits(before, after, entries, r);
    law_read_finds_the_index(before, index, earlier);
    law_read_finds_the_index(after, index, later);
    let a = before.log();
    let b = after.log();
    let n = entries@.len() as int;
    let kept = b.len() - n;
    assert(b[kept + (n - 1)].index == entries@[n - 1].index);
    assert(b[kept + (n - 1)] == b[b.len() - 1]);
    assert(entries@[n - 1].index == entries@[0].index + (n - 1));
    assert(b[kept + 0].index == entries@[0].index);
    if index < entries@[0].index {
        assert forall|i: int| 0 <= i < a.len() && (#[trigger] a[i]).index == index implies i < kept
            && b[i] == a[i] by {}
        assert forall|i: int| 0 <= i < b.len() && (#[trigger] b[i]).index == index implies i < kept
            && b[i] == a[i] by {
            assert(b[i].index == b[0].index + i);
            assert(b[kept + 0].index == b[0].index + (kept + 0));
        }
        if let Ok(Some(_)) = earlier {
            let i = choose|i: int| 0 <= i < a.len() && (#[trigger] a[i]).index == index;
            assert(b[i].index == index);
        }
        if let Ok(Some(_)) = later {
            let i = choose|i: int| 0 <= i < b.len() && (#[trigger] b[i]).index == index;
            assert(a[i].index == index);
        }
        if let (Ok(Some(x)), Ok(Some(y))) = (earlier, later) {
            lemma_same_position(a, b, index, x, y);
        }
    }
    if index > entries@[n - 1].index {
        if let Ok(Some(_)) = later {
            let i = choose|i: int| 0 <= i < b.len() && (#[trigger] b[i]).index == index;
            assert(b[i].index == b[0].index + i);
            assert(b[b.len() - 1].index == b[0].index + (b.len() - 1));
        }
    }
}

/// Where two logs agree on an index, they agree on what is found there.
proof fn lemma_same_position(
    a: Seq<EntryView>,
    b: Seq<EntryView>,
    index: u64,
    x: LogEntry,
    y: LogEntry,
)
    requires
        x.index == index,
        y.index == index,
        exists|i: int|
            {
                &&& 0 <= i < a.len()
                &&& (#[trigger] a[i]).index == index
                &&& a[i].term == x.term
                &&& a[i].command == x.command@
                &&& forall|j: int| 0 <= j < i ==> (#[trigger] a[j]).index != index
            },
        exists|i: int|
            {
                &&& 0 <= i < b.len()
                &&& (#[trigger] b[i]).index == index
                &&& b[i].term == y.term
                &&& b[i].command == y.command@
                &&& forall|j: int| 0 <= j < i ==> (#[trigger] b[j]).index != index
            },
        forall|i: int| 0 <= i < a.len() && (#[trigger] a[i]).index == index ==> b.contains(a[i]),
        forall|i: int, j: int|
            0 <= i < b.len() && 0 <= j < b.len() && (#[trigger] b[i]).index == index && (
            #[trigger] b[j]).index == index ==> b[i] == b[j],
    ensures
        same_entry(Some(x), Some(y)),
{
    let i = choose|i: int|
        {
            &&& 0 <= i < a.len()
            &&& (#[trigger] a[i]).index == index
            &&& a[i].term == x.term
            &&& a[i].command == x.command@
            &&& forall|j: int| 0 <= j < i ==> (#[trigger] a[j]).index != index
        };
    let j = choose|i: int|
        {
            &&& 0 <= i < b.len()
            &&& (#[trigger] b[i]).index == index
            &&& b[i].term == y.term
            &&& b[i].command == y.command@
            &&& forall|j: int| 0 <= j < i ==> (#[trigger] b[j]).index != index
        };
    assert(b.contains(a[i]));
    let p = choose|p: int| 0 <= p < b.len() && b[p] == a[i];
    assert(b[p].index == index);
    assert(b[p] == b[j]);
}

/// After a prefix was deleted, nothing is found before the given index, and
/// everything from it on is read as before. An index of 0 or 1 changes no read.
pub proof fn law_reads_after_prefix_truncation(
    before: InMemoryStorage,
    after: InMemoryStorage,
    end: u64,
    r: Result<(), StorageError>,
    index: u64,
    earlier: Result<Option<LogEntry>, StorageError>,
    later: Result<Option<LogEntry>, StorageError>,
)
    requires
        exists|s: &mut InMemoryStorage|
            *s == before && *final(s) == after && #[trigger] call_ensures(
                InMemoryStorage::truncate_log_prefix,
                (s, end),
                r,
            ),
        forall|i: int|
            0 <= i < before.log().len() ==> (#[trigger] before.log()[i]).index
                == before.log()[0].index + i,
        call_ensures(InMemoryStorage::read_log_entry, (&before, index), earlier),
        call_ensures(InMemoryStorage::read_log_entry, (&after, index), later),
    ensures
        end > 1 && index < end ==> later->Ok_0 is None,
        end <= 1 || index >= end ==> same_entry(earlier->Ok_0, later->Ok_0),
{
    law_prefix_truncation_is_exact(before, after, end, r);
    law_read_finds_the_index(before, index, earlier);
    law_read_finds_the_index(after, index, later);
    let a = before.log();
    let b = after.log();
    if end <= 1 {
        if let (Ok(Some(x)), Ok(Some(y))) = (earlier, later) {
            assert forall|i: int| 0 <= i < a.len() && (#[trigger] a[i]).index
                == index implies b.contains(a[i]) by {
                assert(b[i] == a[i]);
            }
            lemma_same_position(a, b, index, x, y);
        }
    } else {
        let at = choose|at: Seq<int>|
            {
                &&& #[trigger] increasing(at)
                &&& at.len() == b.len()
                &&& forall|k: int|
                    0 <= k < at.len() ==> 0 <= #[trigger] at[k] < a.len() && b[k] == a[at[k]]
                &&& forall|i: int|
                    0 <= i < a.len() ==> ((#[trigger] a[i]).index >= end <==> at.contains(i))
            };
        assert forall|i: int| 0 <= i < b.len() implies a.contains(#[trigger] b[i]) && b[i].index
            >= end by {
            assert(0 <= at[i] < a.len() && b[i] == a[at[i]]);
            assert(at.contains(at[i]));
            assert(a[at[i]].index >= end);
        }
        assert forall|i: int| 0 <= i < a.len() && (#[trigger] a[i]).index >= end implies b.contains(
            a[i],
        ) by {
            let k = choose|k: int| 0 <= k < at.len() && at[k] == i;
            assert(b[k] == a[i]);
        }
        assert forall|i: int, j: int|
            0 <= i < b.len() && 0 <= j < b.len() && (#[trigger] b[i]).index == index && (
            #[trigger] b[j]).index == index implies b[i] == b[j] by {
            assert(b[i] == a[at[i]] && b[j] == a[at[j]]);
            assert(a[at[i]].index == a[0].index + at[i]);
            assert(a[at[j]].index == a[0].index + at[j]);
        }
        if index >= end {
            if let Ok(Some(_)) = earlier {
                let i = choose|i: int| 0 <= i < a.len() && (#[trigger] a[i]).index == index;
                let k = choose|k: int| 0 <= k < b.len() && b[k] == a[i];
                assert(b.contains(a[i]));
                assert(b[k].index == index);
            }
            if let Ok(Some(_)) = later {
                let i = choose|i: int| 0 <= i < b.len() && (#[trigger] b[i]).index == index;
                assert(a.contains(b[i]));
                let k = choose|k: int| 0 <= k < a.len() && a[k] == b[i];
                assert(a[k].index == index);
            }
            if let (Ok(Some(x)), Ok(Some(y))) = (earlier, later) {
                lemma_same_position(a, b, index, x, y);
            }
        }
    }
}

/// After a suffix was deleted, nothing is found from the given index on, and
/// everything before it is read as before.
pub proof fn law_reads_after_suffix_truncation(
    before: InMemoryStorage,
    after: InMemoryStorage,
    start: u64,
    r: Result<(), StorageError>,
    index: u64,
    earlier: Result<Option<LogEntry>, StorageError>,
    later: Result<Option<LogEntry>, StorageError>,
)
    requires
        exists|s: &mut InMemoryStorage|
            *s == before && *final(s) == after && #[trigger] call_ensures(
                InMemoryStorage::truncate_log_suffix,
                (s, start),
                r,
            ),
        forall|i: int|
            0 <= i < before.log().len() ==> (#[trigger] before.log()[i]).index
                == before.log()[0].index + i,
        call_ensures(InMemoryStorage::read_log_entry, (&before, index), earlier),
        call_ensures(InMemoryStorage::read_log_entry, (&after, index), later),
    ensures
        index >= start ==> later->Ok_0 is None,
        index < start ==> same_entry(earlier->Ok_0, later->Ok_0),
{
    law_suffix_truncation_is_exact(before, after, start, r);
    law_read_finds_the_index(before, index, earlier);
    law_read_finds_the_index(after, index, later);
    let a = before.log();
    let b = after.log();
    if index < start {
        assert forall|i: int| 0 <= i < a.len() && (#[trigger] a[i]).index == index implies i
            < b.len() && b[i] == a[i] by {
            if i >= b.len() {
                assert(a[i].index == a[0].index + i);
                assert(a[b.len() as int].index == a[0].index + b.len());
            }
        }
        if let Ok(Some(_)) = earlier {
            let i = choose|i: int| 0 <= i < a.len() && (#[trigger] a[i]).index == index;
            assert(b[i].index == index);
        }
        if let Ok(Some(_)) = later {
            let i = choose|i: int| 0 <= i < b.len() && (#[trigger] b[i]).index == index;
            assert(a[i].index == index);
        }
        if let (Ok(Some(x)), Ok(Some(y))) = (earlier, later) {
            assert forall|i: int| 0 <= i < a.len() && (#[trigger] a[i]).index
                == index implies b.contains(a[i]) by {
                assert(b[i] == a[i]);
            }
            assert forall|i: int, j: int|
                0 <= i < b.len() && 0 <= j < b.len() && (#[trigger] b[i]).index == index && (
                #[trigger] b[j]).index == index implies b[i] == b[j] by {
                assert(a[i].index == a[0].index + i);
                assert(a[j].index == a[0].index + j);
            }
            lemma_same_position(a, b, index, x, y);
        }
    }
}

/// Any storage gives back the hard state that was saved, and saving leaves its log
/// alone; one that never fails does so without an error.
pub proof fn law_any_storage_keeps_what_was_saved<S: Storage>(
    before: S,
    after: S,
    state: HardState,
    saved: Result<(), StorageError>,
    read: Result<HardState, StorageError>,
)
    requires
        exists|s: &mut S|
            *s == before && *final(s) == after && #[trigger] call_ensures(
                S::save_hard_state,
                (s, &state),
                saved,
            ),
        call_ensures(S::read_hard_state, (&after,), read),
    ensures
        saved is Ok ==> after.log() == before.log() && after.reliable() == before.reliable(),
        saved is Ok && read is Ok ==> read->Ok_0 == state,
        before.reliable() ==> saved is Ok && read is Ok,
{
}

/// Any storage reports the end of its log as the index and the term of its last
/// entry, or as 0 where there is none; one that never fails does so without an error.
pub proof fn law_any_storage_reports_its_last_entry<S: Storage>(
    storage: S,
    index: Result<u64, StorageError>,
    term: Result<u64, StorageError>,
)
    requires
        call_ensures(S::last_log_index, (&storage,), index),
        call_ensures(S::last_log_term, (&storage,), term),
    ensures
        storage.reliable() ==> index is Ok && term is Ok,
        index matches Ok(i) ==> i == if storage.log().len() == 0 {
            0
        } else {
            storage.log()[storage.log().len() - 1].index
        },
        term matches Ok(t) ==> t == if storage.log().len() == 0 {
            0
        } else {
            storage.log()[storage.log().len() - 1].term
        },
{
}

/// Any storage reads a range exactly: every entry with an index of at least the start
/// and below the end, in order, and no other.
pub proof fn law_any_storage_reads_ranges_exactly<S: Storage>(
    storage: S,
    start: u64,
    end: u64,
    r: Result<Vec<LogEntry>, StorageError>,
)
    requires
        call_ensures(S::read_log_entries, (&storage, start, end), r),
    ensures
        storage.reliable() ==> r is Ok,
        r matches Ok(found) ==> {
            &&& forall|k: int|
                0 <= k < found@.len() ==> start <= (#[trigger] found@[k]).index
                    && found@[k].index < end
            &&& exists|at: Seq<int>|
                {
                    &&& #[trigger] increasing(at)
                    &&& at.len() == found@.len()
                    &&& forall|k: int|
                        0 <= k < at.len() ==> {
                            let e = storage.log()[#[trigger] at[k]];
                            &&& 0 <= at[k] < storage.log().len()
                            &&& found@[k].index == e.index
                            &&& found@[k].term == e.term
                            &&& found@[k].command@ == e.command
                        }
                    &&& forall|i: int|
                        0 <= i < storage.log().len() ==> (start <= (
                        #[trigger] storage.log()[i]).index && storage.log()[i].index < end
                            <==> at.contains(i))
                }
        },
{
    let log = storage.log();
    let p = crate::log::in_range(start, end);
    let at = lemma_filter_positions(log, p);
    if let Ok(found) = r {
        let part = crate::messages::entries_view(found@);
        assert(part == log.filter(p));
        assert forall|k: int| 0 <= k < at.len() implies {
            let e = log[#[trigger] at[k]];
            &&& 0 <= at[k] < log.len()
            &&& found@[k].index == e.index
            &&& found@[k].term == e.term
            &&& found@[k].command@ == e.command
        } by {
            assert(part[k] == found@[k]@);
        }
        assert forall|k: int| 0 <= k < found@.len() implies start <= (#[trigger] found@[k]).index
            && found@[k].index < end by {
            assert(at.contains(at[k]));
            assert(p(log[at[k]]));
        }
        assert(increasing(at));
    }
}

/// A clone of an entry agrees with it in every field, and so does its view.
pub proof fn law_cloned_entry_is_the_same(entry: LogEntry, copy: LogEntry)
    requires
        call_ensures(LogEntry::clone, (&entry,), copy),
    ensures
        same_entry(Some(entry), Some(copy)),
        entry@.index == entry.index,
        entry@.term == entry.term,
        entry@.command == entry.command@,
{
}

/// The initial hard state has every field at 0.
pub proof fn law_default_hard_state_is_zero(state: HardState)
    requires
        call_ensures(HardState::default, (), state),
    ensures
        state.term == 0,
        state.voted_for == 0,
        state.commit_index == 0,
{
}

/// A storage in memory never fails to save or to read, and reads the hard state that
/// it holds.
pub proof fn law_memory_is_reliable(storage: InMemoryStorage, r: Result<HardState, StorageError>)
    requires
        call_ensures(InMemoryStorage::read_hard_state, (&storage,), r),
    ensures
        storage.reliable(),
        r == Ok::<HardState, StorageError>(storage.hard_state()),
{
}

/// What is done to the log changes nothing about the hard state that is read.
pub proof fn law_log_operations_keep_the_hard_state(
    before: InMemoryStorage,
    after: InMemoryStorage,
    entries: &[LogEntry],
    index: u64,
    r: Result<(), StorageError>,
    earlier: Result<HardState, StorageError>,
    later: Result<HardState, StorageError>,
)
    requires
        exists|s: &mut InMemoryStorage|
            {
                &&& *s == before
                &&& *final(s) == after
                &&& {
                    ||| #[trigger] call_ensures(
                        InMemoryStorage::append_log_entries,
                        (s, entries),
                        r,
                    )
                    ||| call_ensures(InMemoryStorage::truncate_log_prefix, (s, index), r)
                    ||| call_ensures(InMemoryStorage::truncate_log_suffix, (s, index), r)
                }
            },
        call_ensures(InMemoryStorage::read_hard_state, (&before,), earlier),
        call_ensures(InMemoryStorage::read_hard_state, (&after,), later),
    ensures
        later == earlier,
{
}

/// A log without a hole has none after a truncation either.
pub proof fn law_truncations_leave_no_hole(
    before: InMemoryStorage,
    after: InMemoryStorage,
    index: u64,
    r: Result<(), StorageError>,
)
    requires
        exists|s: &mut InMemoryStorage|
            {
                &&& *s == before
                &&& *final(s) == after
                &&& {
                    ||| #[trigger] call_ensures(
                        InMemoryStorage::truncate_log_prefix,
                        (s, index),
                        r,
                    )
                    ||| call_ensures(InMemoryStorage::truncate_log_suffix, (s, index), r)
                }
            },
        forall|i: int|
            0 <= i < before.log().len() ==> (#[trigger] before.log()[i]).index
                == before.log()[0].index + i,
    ensures
        forall|i: int|
            0 <= i < after.log().len() ==> (#[trigger] after.log()[i]).index
                == after.log()[0].index + i,
{
    assert(before.well_formed());
    assert(after.well_formed());
}

} // verus!
