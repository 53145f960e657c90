//! What a log is and what the operations on it mean.
//!
//! A log is a sequence of entries. It is addressed by the index that each entry
//! carries, not by the position in the sequence: the two part when a prefix of
//! the log is deleted.

use crate::messages::EntryView;
use crate::storage::StorageError;
use vstd::prelude::*;

verus! {

/// The index of the last entry of `log`, or 0 when there is none.
pub open spec fn last_index(log: Seq<EntryView>) -> u64 {
    if log.len() == 0 {
        0
    } else {
        log.last().index
    }
}

/// The term of the last entry of `log`, or 0 when there is none.
pub open spec fn last_term(log: Seq<EntryView>) -> u64 {
    if log.len() == 0 {
        0
    } else {
        log.last().term
    }
}

/// Whether the indices of `log` follow one another without a hole.
pub open spec fn consecutive(log: Seq<EntryView>) -> bool {
    forall|i: int| 0 <= i < log.len() ==> (#[trigger] log[i]).index == log[0].index + i
}

/// Whether an entry lies in the index range from `start` up to, but not
/// including, `end`.
pub open spec fn in_range(start: u64, end: u64) -> spec_fn(EntryView) -> bool {
    |e: EntryView| start <= e.index < end
}

/// Whether an entry has at least the index `index`.
pub open spec fn at_least(index: u64) -> spec_fn(EntryView) -> bool {
    |e: EntryView| e.index >= index
}

/// Whether an entry has an index below `index`.
pub open spec fn below(index: u64) -> spec_fn(EntryView) -> bool {
    |e: EntryView| e.index < index
}

/// Whether no entry of `log` has the index 0.
pub open spec fn one_based(log: Seq<EntryView>) -> bool {
    forall|i: int| 0 <= i < log.len() ==> (#[trigger] log[i]).index >= 1
}

/// The position of the first entry of `log` whose index is at least `index`, or
/// the length of `log` when there is none.
pub open spec fn first_at_least(log: Seq<EntryView>, index: u64) -> int
    decreases log.len(),
{
    if log.len() == 0 {
        0
    } else if log[0].index >= index {
        0
    } else {
        1 + first_at_least(log.drop_first(), index)
    }
}

/// The log after the entries `new` were appended to `log`, or the reason why they
/// do not fit.
///
/// Entries that overlap the log replace everything from their first index on.
pub open spec fn appended(log: Seq<EntryView>, new: Seq<EntryView>) -> Result<
    Seq<EntryView>,
    StorageError,
> {
    if new.len() == 0 {
        Ok(log)
    } else if !consecutive(new) {
        Err(StorageError::NonConsecutive)
    } else if new[0].index > last_index(log) + 1 {
        Err(
            StorageError::Gap {
                log_end: last_index(log),
                first_new: new[0].index,
            },
        )
    } else if new[0].index <= last_index(log) {
        Ok(log.take(first_at_least(log, new[0].index)) + new)
    } else {
        Ok(log + new)
    }
}

/// The log after the entries before `end` were deleted. The first index of a log
/// is 1, so an `end` of 0 or 1 deletes nothing.
pub open spec fn without_prefix(log: Seq<EntryView>, end: u64) -> Seq<EntryView> {
    if end <= 1 {
        log
    } else {
        log.filter(at_least(end))
    }
}

/// The log after the entries from the index `start` on were deleted.
pub open spec fn without_suffix(log: Seq<EntryView>, start: u64) -> Seq<EntryView> {
    log.take(first_at_least(log, start))
}

/// The first entry of `log` with the given index.
pub open spec fn find(log: Seq<EntryView>, index: u64) -> Option<EntryView>
    decreases log.len(),
{
    if log.len() == 0 {
        None
    } else if log[0].index == index {
        Some(log[0])
    } else {
        find(log.drop_first(), index)
    }
}

/// What a reader finds at `index`. Indices start at 1, so there is never anything
/// at 0.
pub open spec fn lookup(log: Seq<EntryView>, index: u64) -> Option<EntryView> {
    if index == 0 {
        None
    } else {
        find(log, index)
    }
}

/// `first_at_least` is the only position that separates lower indices from the
/// first one that is not lower.
pub(crate) proof fn lemma_first_at_least(log: Seq<EntryView>, index: u64, p: int)
    requires
        0 <= p <= log.len(),
        forall|j: int| 0 <= j < p ==> (#[trigger] log[j]).index < index,
        p < log.len() ==> log[p].index >= index,
    ensures
        first_at_least(log, index) == p,
    decreases log.len(),
{
    if p > 0 {
        let rest = log.drop_first();
        assert forall|j: int| 0 <= j < p - 1 implies (#[trigger] rest[j]).index < index by {
            assert(rest[j] == log[j + 1]);
        }
        assert(log[0].index < index);
        lemma_first_at_least(rest, index, p - 1);
    }
}

/// `first_at_least` lies within the log, behind lower indices only.
pub(crate) proof fn lemma_first_at_least_bounds(log: Seq<EntryView>, index: u64)
    ensures
        0 <= first_at_least(log, index) <= log.len(),
        forall|j: int|
            0 <= j < first_at_least(log, index) ==> (#[trigger] log[j]).index < index,
        first_at_least(log, index) < log.len() ==> log[first_at_least(log, index)].index >= index,
    decreases log.len(),
{
    if log.len() > 0 && log[0].index < index {
        let rest = log.drop_first();
        lemma_first_at_least_bounds(rest, index);
        assert forall|j: int| 0 <= j < first_at_least(log, index) implies (
        #[trigger] log[j]).index < index by {
            if j > 0 {
                assert(rest[j - 1] == log[j]);
            }
        }
    }
}

/// `find` stops at the first entry with the index.
pub(crate) proof fn lemma_find_at(log: Seq<EntryView>, index: u64, p: int)
    requires
        0 <= p < log.len(),
        log[p].index == index,
        forall|j: int| 0 <= j < p ==> (#[trigger] log[j]).index != index,
    ensures
        find(log, index) == Some(log[p]),
    decreases log.len(),
{
    if p > 0 {
        let rest = log.drop_first();
        assert forall|j: int| 0 <= j < p - 1 implies (#[trigger] rest[j]).index != index by {
            assert(rest[j] == log[j + 1]);
        }
        assert(log[0].index != index);
        lemma_find_at(rest, index, p - 1);
    }
}

/// `find` finds nothing when no entry has the index.
pub(crate) proof fn lemma_find_none(log: Seq<EntryView>, index: u64)
    requires
        forall|j: int| 0 <= j < log.len() ==> (#[trigger] log[j]).index != index,
    ensures
        find(log, index) is None,
    decreases log.len(),
{
    if log.len() > 0 {
        let rest = log.drop_first();
        assert forall|j: int| 0 <= j < rest.len() implies (#[trigger] rest[j]).index != index by {
            assert(rest[j] == log[j + 1]);
        }
        lemma_find_none(rest, index);
    }
}

/// A filter that every entry passes changes nothing.
pub(crate) proof fn lemma_filter_all(log: Seq<EntryView>, p: spec_fn(EntryView) -> bool)
    requires
        forall|i: int| 0 <= i < log.len() ==> p(#[trigger] log[i]),
    ensures
        log.filter(p) == log,
    decreases log.len(),
{
    reveal(Seq::filter);
    if log.len() > 0 {
        lemma_filter_all(log.drop_last(), p);
        assert(log.drop_last().push(log.last()) =~= log);
    } else {
        assert(log.filter(p) =~= log);
    }
}

/// A filter that no entry passes leaves nothing.
pub(crate) proof fn lemma_filter_none(log: Seq<EntryView>, p: spec_fn(EntryView) -> bool)
    requires
        forall|i: int| 0 <= i < log.len() ==> !p(#[trigger] log[i]),
    ensures
        log.filter(p) == Seq::<EntryView>::empty(),
    decreases log.len(),
{
    reveal(Seq::filter);
    if log.len() > 0 {
        lemma_filter_none(log.drop_last(), p);
    }
}

/// A filter that exactly the first `n` entries pass keeps exactly those.
pub(crate) proof fn lemma_filter_take(log: Seq<EntryView>, p: spec_fn(EntryView) -> bool, n: int)
    requires
        0 <= n <= log.len(),
        forall|i: int| 0 <= i < n ==> p(#[trigger] log[i]),
        forall|i: int| n <= i < log.len() ==> !p(#[trigger] log[i]),
    ensures
        log.filter(p) == log.take(n),
{
    assert(log =~= log.take(n) + log.skip(n));
    Seq::filter_distributes_over_add(log.take(n), log.skip(n), p);
    lemma_filter_all(log.take(n), p);
    lemma_filter_none(log.skip(n), p);
    assert(log.take(n) + Seq::<EntryView>::empty() =~= log.take(n));
}

/// Filtering one more entry adds it exactly if it passes.
pub(crate) proof fn lemma_filter_step(log: Seq<EntryView>, p: spec_fn(EntryView) -> bool, i: int)
    requires
        0 <= i < log.len(),
    ensures
        log.take(i + 1).filter(p) == if p(log[i]) {
            log.take(i).filter(p).push(log[i])
        } else {
            log.take(i).filter(p)
        },
{
    reveal(Seq::filter);
    assert(log.take(i + 1).drop_last() =~= log.take(i));
}

/// In a log without a hole, the entries that a deleted suffix leaves are those
/// with lower indices.
pub(crate) proof fn lemma_suffix_is_filter(log: Seq<EntryView>, start: u64)
    requires
        consecutive(log),
    ensures
        without_suffix(log, start) == log.filter(below(start)),
{
    let n = first_at_least(log, start);
    let p = below(start);
    lemma_first_at_least_bounds(log, start);
    assert forall|i: int| n <= i < log.len() implies !p(#[trigger] log[i]) by {
        assert(log[i].index == log[0].index + i);
        assert(log[n].index == log[0].index + n);
    }
    lemma_filter_take(log, p, n);
}

/// In a log without a hole, a deleted prefix leaves the rest of the log.
pub(crate) proof fn lemma_prefix_is_skip(log: Seq<EntryView>, end: u64)
    requires
        consecutive(log),
    ensures
        log.filter(at_least(end)) == log.skip(first_at_least(log, end)),
{
    let n = first_at_least(log, end);
    let p = at_least(end);
    lemma_first_at_least_bounds(log, end);
    assert forall|i: int| n <= i < log.len() implies p(#[trigger] log[i]) by {
        assert(log[i].index == log[0].index + i);
        assert(log[n].index == log[0].index + n);
    }
    assert(log =~= log.take(n) + log.skip(n));
    Seq::filter_distributes_over_add(log.take(n), log.skip(n), p);
    lemma_filter_none(log.take(n), p);
    lemma_filter_all(log.skip(n), p);
    assert(Seq::<EntryView>::empty() + log.skip(n) =~= log.skip(n));
}

/// A log without a hole has none after its prefix was deleted.
pub(crate) proof fn lemma_prefix_keeps_consecutive(log: Seq<EntryView>, end: u64)
    requires
        consecutive(log),
    ensures
        consecutive(without_prefix(log, end)),
{
    if end > 1 {
        let n = first_at_least(log, end);
        lemma_first_at_least_bounds(log, end);
        lemma_prefix_is_skip(log, end);
        let rest = log.skip(n);
        assert forall|i: int| 0 <= i < rest.len() implies (#[trigger] rest[i]).index
            == rest[0].index + i by {
            assert(rest[i] == log[n + i]);
            assert(rest[0] == log[n]);
        }
    }
}

/// A log without a hole has none after entries were appended.
pub(crate) proof fn lemma_append_keeps_consecutive(log: Seq<EntryView>, new: Seq<EntryView>)
    requires
        consecutive(log),
    ensures
        appended(log, new) matches Ok(result) ==> consecutive(result),
{
    if let Ok(result) = appended(log, new) {
        if new.len() > 0 {
            let n = split(log, new);
            lemma_append_split(log, new);
            assert forall|i: int| 0 <= i < result.len() implies (#[trigger] result[i]).index
                == result[0].index + i by {
                if i < n {
                    assert(result[i] == log[i]);
                    assert(result[0] == log[0]);
                } else {
                    assert(result[i] == new[i - n]);
                    if n > 0 {
                        assert(result[0] == log[0]);
                        assert(log[n - 1].index == log[0].index + n - 1);
                    }
                }
            }
        }
    }
}

/// How many entries of `log` survive when `new` is appended.
pub open spec fn split(log: Seq<EntryView>, new: Seq<EntryView>) -> int {
    if new.len() > 0 && new[0].index <= last_index(log) {
        first_at_least(log, new[0].index)
    } else {
        log.len() as int
    }
}

/// In a log without a hole, the entries that survive an append end just before
/// the first new one.
pub(crate) proof fn lemma_append_split(log: Seq<EntryView>, new: Seq<EntryView>)
    requires
        consecutive(log),
        new.len() > 0,
        appended(log, new) is Ok,
    ensures
        0 <= split(log, new) <= log.len(),
        appended(log, new)->Ok_0 == log.take(split(log, new)) + new,
        split(log, new) > 0 ==> log[split(log, new) - 1].index + 1 == new[0].index,
        consecutive(new),
{
    let n = split(log, new);
    lemma_first_at_least_bounds(log, new[0].index);
    if new[0].index <= last_index(log) {
        if n > 0 && n < log.len() {
            assert(log[n].index == log[0].index + n);
            assert(log[n - 1].index == log[0].index + n - 1);
        }
    } else {
        assert(log.take(n) =~= log);
    }
}

/// In a log without a hole, the position of an entry follows from its index.
pub(crate) proof fn lemma_find_consecutive(log: Seq<EntryView>, index: u64)
    requires
        consecutive(log),
    ensures
        find(log, index) == if log.len() > 0 && log[0].index <= index < log[0].index + log.len() {
            Some(log[index - log[0].index])
        } else {
            None
        },
{
    if log.len() > 0 && log[0].index <= index < log[0].index + log.len() {
        lemma_find_at(log, index, index - log[0].index);
    } else {
        lemma_find_none(log, index);
    }
}

/// Appended entries are read back as they were written, and the log ends with
/// the last of them. What lay before them is read as before, and nothing lies
/// behind them.
pub proof fn law_read_after_append(log: Seq<EntryView>, new: Seq<EntryView>)
    requires
        consecutive(log),
        new.len() > 0,
        appended(log, new) is Ok,
    ensures
        ({
            let result = appended(log, new)->Ok_0;
            &&& forall|i: int|
                0 <= i < new.len() && new[i].index != 0 ==> lookup(
                    result,
                    (#[trigger] new[i]).index,
                ) == Some(new[i])
            &&& forall|index: u64|
                index < new[0].index ==> #[trigger] lookup(result, index) == lookup(log, index)
            &&& forall|index: u64|
                index > new.last().index ==> #[trigger] lookup(result, index) is None
            &&& last_index(result) == new.last().index
            &&& last_term(result) == new.last().term
        }),
{
    let result = appended(log, new)->Ok_0;
    let n = split(log, new);
    lemma_append_split(log, new);
    lemma_append_keeps_consecutive(log, new);
    assert(result.last() == new.last());
    assert(n > 0 ==> result[0] == log[0]);
    assert(n == 0 ==> result[0] == new[0]);
    assert(result[n] == new[0]);
    assert(result[n].index == result[0].index + n);
    assert(result[result.len() - 1].index == result[0].index + result.len() - 1);
    assert forall|i: int| 0 <= i < new.len() && new[i].index != 0 implies lookup(
        result,
        (#[trigger] new[i]).index,
    ) == Some(new[i]) by {
        assert(result[n + i] == new[i]);
        assert(result[n + i].index == result[0].index + (n + i));
        lemma_find_consecutive(result, new[i].index);
    }
    assert forall|index: u64| index < new[0].index implies #[trigger] lookup(result, index)
        == lookup(log, index) by {
        lemma_find_consecutive(result, index);
        lemma_find_consecutive(log, index);
        if n > 0 {
            assert(log[n - 1].index == log[0].index + n - 1);
            if log[0].index <= index {
                assert(result[index - log[0].index] == log[index - log[0].index]);
            }
        } else if log.len() > 0 {
            lemma_first_at_least_bounds(log, new[0].index);
            assert(log[0].index >= new[0].index);
        }
    }
    assert forall|index: u64| index > new.last().index implies #[trigger] lookup(result, index) is None by {
        lemma_find_consecutive(result, index);
    }
}

/// Reading the index range of appended entries gives exactly those entries.
pub proof fn law_range_read_after_append(log: Seq<EntryView>, new: Seq<EntryView>)
    requires
        consecutive(log),
        new.len() > 0,
        appended(log, new) is Ok,
        new.last().index < u64::MAX,
    ensures
        appended(log, new)->Ok_0.filter(
            in_range(new[0].index, (new.last().index + 1) as u64),
        ) == new,
{
    let result = appended(log, new)->Ok_0;
    let n = split(log, new);
    let p = in_range(new[0].index, (new.last().index + 1) as u64);
    lemma_append_split(log, new);
    let kept = log.take(n);
    assert forall|i: int| 0 <= i < kept.len() implies !p(#[trigger] kept[i]) by {
        assert(log[n - 1].index == log[0].index + n - 1);
        assert(kept[i] == log[i]);
    }
    assert forall|i: int| 0 <= i < new.len() implies p(#[trigger] new[i]) by {
        assert(new[new.len() - 1].index == new[0].index + new.len() - 1);
    }
    Seq::filter_distributes_over_add(kept, new, p);
    lemma_filter_none(kept, p);
    lemma_filter_all(new, p);
    assert(Seq::<EntryView>::empty() + new =~= new);
}

/// Appending the same entries again changes nothing.
pub proof fn law_append_is_idempotent(log: Seq<EntryView>, new: Seq<EntryView>)
    requires
        consecutive(log),
        appended(log, new) is Ok,
    ensures
        appended(appended(log, new)->Ok_0, new) == appended(log, new),
{
    if new.len() > 0 {
        let result = appended(log, new)->Ok_0;
        let n = split(log, new);
        lemma_append_split(log, new);
        lemma_append_keeps_consecutive(log, new);
        assert(result.last() == new.last());
        assert(new.last().index == new[0].index + new.len() - 1);
        assert forall|j: int| 0 <= j < n implies (#[trigger] result[j]).index < new[0].index by {
            assert(result[j] == log[j]);
            assert(log[n - 1].index == log[0].index + n - 1);
        }
        assert(result[n] == new[0]);
        lemma_first_at_least(result, new[0].index, n);
        assert(result.take(n) + new =~= result);
    }
}

/// A deleted suffix is gone, and the entries before it are read as before.
pub proof fn law_suffix_is_gone(log: Seq<EntryView>, start: u64, index: u64)
    requires
        consecutive(log),
    ensures
        lookup(without_suffix(log, start), index) == if index < start {
            lookup(log, index)
        } else {
            None
        },
{
    let n = first_at_least(log, start);
    let rest = without_suffix(log, start);
    lemma_first_at_least_bounds(log, start);
    assert(consecutive(rest));
    lemma_find_consecutive(rest, index);
    lemma_find_consecutive(log, index);
    if log.len() > 0 {
        if n > 0 {
            assert(log[n - 1].index == log[0].index + n - 1);
            assert(rest[0] == log[0]);
        }
        if n < log.len() {
            assert(log[n].index == log[0].index + n);
        }
    }
}

/// A deleted prefix is gone, and the entries behind it are read as before.
pub proof fn law_prefix_is_gone(log: Seq<EntryView>, end: u64, index: u64)
    requires
        consecutive(log),
    ensures
        lookup(without_prefix(log, end), index) == if end <= 1 || index >= end {
            lookup(log, index)
        } else {
            None
        },
{
    if end > 1 {
        let n = first_at_least(log, end);
        let rest = without_prefix(log, end);
        lemma_first_at_least_bounds(log, end);
        lemma_prefix_is_skip(log, end);
        lemma_prefix_keeps_consecutive(log, end);
        lemma_find_consecutive(rest, index);
        lemma_find_consecutive(log, index);
        if log.len() > 0 {
            if n > 0 {
                assert(log[n - 1].index == log[0].index + n - 1);
            }
            if n < log.len() {
                assert(log[n].index == log[0].index + n);
                assert(rest[0] == log[n]);
            }
        }
    }
}

/// Deleting a prefix and deleting a suffix give the same log in either order.
pub proof fn law_truncations_commute(log: Seq<EntryView>, end: u64, start: u64)
    requires
        consecutive(log),
    ensures
        without_suffix(without_prefix(log, end), start) == without_prefix(
            without_suffix(log, start),
            end,
        ),
{
    if end > 1 {
        let a = first_at_least(log, end);
        let b = first_at_least(log, start);
        let tail = without_prefix(log, end);
        let head = without_suffix(log, start);
        lemma_first_at_least_bounds(log, end);
        lemma_first_at_least_bounds(log, start);
        lemma_prefix_is_skip(log, end);
        assert(consecutive(head));
        lemma_prefix_is_skip(head, end);
        let left = if a <= b {
            b - a
        } else {
            0
        };
        assert forall|j: int| 0 <= j < left implies (#[trigger] tail[j]).index < start by {
            assert(tail[j] == log[a + j]);
        }
        if left < tail.len() {
            assert(tail[left] == log[a + left]);
            assert(log[a + left].index == log[0].index + (a + left));
            assert(log[b].index == log[0].index + b);
        }
        lemma_first_at_least(tail, start, left);
        let skipped = if a <= b {
            a
        } else {
            b
        };
        if skipped < head.len() {
            assert(head[skipped] == log[a]);
        }
        lemma_first_at_least(head, end, skipped);
        assert(tail.take(left) =~= head.skip(skipped));
    }
}

/// Indices start at 1, so reading from 0 on gives what reading from 1 on gives. A log
/// with an entry at 0 is left out: reading from 0 gives that entry too.
pub proof fn law_reading_starts_at_one(log: Seq<EntryView>, end: u64)
    requires
        one_based(log),
    ensures
        log.filter(in_range(0, end)) == log.filter(in_range(1, end)),
    decreases log.len(),
{
    reveal(Seq::filter);
    if log.len() > 0 {
        let head = log.drop_last();
        assert forall|i: int| 0 <= i < head.len() implies (#[trigger] head[i]).index >= 1 by {
            assert(head[i] == log[i]);
        }
        law_reading_starts_at_one(head, end);
        assert(log[log.len() - 1].index >= 1);
    }
}

} // verus!
