//! Laws that hold across the operations of an event history.
use vstd::prelude::*;

use crate::event_history::{
    changes, entry_key, first_stop_from, is_stop, last_stop_below, lemma_first_stop_from,
    lemma_last_inactive_below, lemma_last_stop_below, realigned, EventStatus, HistoryView,
    StatusChange,
};
use crate::types::EventItem;

verus! {

/// A realigned cursor lies within the entries whenever there are any.
proof fn lemma_realigned_in_range<T: EventItem>(
    s: Seq<EventStatus<T>>,
    c: int,
    k: <T::ID as View>::V,
)
    requires
        0 <= c < s.len(),
    ensures
        0 <= realigned(s, c, k) < s.len(),
{
    lemma_last_stop_below(s, Some(k), c);
    lemma_first_stop_from(s, Some(k), c + 1);
    lemma_last_inactive_below(s, s.len() as int);
}

/// Every operation keeps the cursor within the entries whenever there are
/// any, and the entries within the capacity.
pub proof fn lemma_operations_keep_history_well_formed<T: EventItem>(
    h: HistoryView<T>,
    item: T,
    k: <T::ID as View>::V,
    change: StatusChange,
)
    requires
        h.wf(),
    ensures
        h.after_add(item).wf(),
        h.after_forward().wf(),
        h.after_backward().wf(),
        h.after_change(k, change).wf(),
{
    lemma_first_stop_from(h.entries, h.cursor_key(), h.cursor + 1);
    lemma_last_stop_below(h.entries, h.cursor_key(), h.cursor);
    if h.entries.len() > 0 {
        lemma_realigned_in_range(h.changed_entries(k, change), h.cursor, k);
    }
}

/// Adding never lets the entries exceed the capacity, and an add that
/// records into a full history evicts exactly the head entry: what is kept
/// before the new entry starts at the old second entry, and with the cursor
/// at the tail the length stays at the capacity.
pub proof fn lemma_add_evicts_one_head_entry<T: EventItem>(h: HistoryView<T>, item: T)
    requires
        h.wf(),
        h.entries.len() == h.capacity,
        h.add_records(item),
    ensures
        ({
            let after = h.after_add(item);
            let n = after.entries.len() as int;
            &&& n <= h.capacity
            &&& after.entries.subrange(0, n - 1) == h.entries.subrange(1, n)
            &&& after.entries[n - 1] == EventStatus::Active(item)
            &&& h.cursor == h.entries.len() - 1 ==> after.entries == h.entries.drop_first().push(
                EventStatus::Active(item),
            )
        }),
{
    let after = h.after_add(item);
    let n = after.entries.len() as int;
    assert(after.entries.subrange(0, n - 1) =~= h.entries.subrange(1, n));
    if h.cursor == h.entries.len() - 1 {
        assert(after.entries =~= h.entries.drop_first().push(EventStatus::Active(item)));
    }
}

/// Adding the same item twice in a row, when it is not an expected echo,
/// changes nothing the second time.
pub proof fn lemma_repeated_add_is_suppressed<T: EventItem>(h: HistoryView<T>, item: T)
    requires
        h.wf(),
        !h.ignored.contains(item.spec_id()),
    ensures
        !h.after_add(item).add_records(item),
        h.after_add(item).after_add(item) == h.after_add(item),
{
}

/// After forward navigation lands on an item, the next add of its identifier
/// is swallowed without touching the entries or the cursor, and it is then no
/// longer expected, so a later add is treated as a fresh event.
pub proof fn lemma_forward_echo_is_swallowed_once<T: EventItem>(h: HistoryView<T>, item: T)
    requires
        h.wf(),
        h.forward_target() matches Some(j) && 0 <= j < h.entries.len() && h.entries[j]
            == EventStatus::Active(item),
    ensures
        ({
            let landed = h.after_forward();
            let echoed = landed.after_add(item);
            &&& !landed.add_records(item)
            &&& echoed.entries == landed.entries
            &&& echoed.cursor == landed.cursor
            &&& !echoed.ignored.contains(item.spec_id())
        }),
{
}

/// After backward navigation lands on an item, the next add of its
/// identifier is swallowed without touching the entries or the cursor, and
/// it is then no longer expected, so a later add is treated as a fresh event.
pub proof fn lemma_backward_echo_is_swallowed_once<T: EventItem>(h: HistoryView<T>, item: T)
    requires
        h.wf(),
        h.backward_target() matches Some(j) && 0 <= j < h.entries.len() && h.entries[j]
            == EventStatus::Active(item),
    ensures
        ({
            let landed = h.after_backward();
            let echoed = landed.after_add(item);
            &&& !landed.add_records(item)
            &&& echoed.entries == landed.entries
            &&& echoed.cursor == landed.cursor
            &&& !echoed.ignored.contains(item.spec_id())
        }),
{
}

/// Stepping backward and then forward returns the cursor to where it was:
/// when neither step can move, or when the cursor is on an active entry, the
/// backward step moves, and no active entry lies strictly between the two
/// positions.
pub proof fn lemma_backward_then_forward_restores_cursor<T: EventItem>(h: HistoryView<T>)
    requires
        h.wf(),
        ({
            ||| h.backward_target() is None && h.forward_target() is None
            ||| {
                &&& 0 <= h.cursor < h.entries.len()
                &&& h.entries[h.cursor] is Active
                &&& h.backward_target() matches Some(p) && forall|m: int|
                    p < m < h.cursor ==> !(#[trigger] h.entries[m] is Active)
            }
        }),
    ensures
        h.after_backward().after_forward().cursor == h.cursor,
{
    if h.backward_target() is Some {
        let s = h.entries;
        let c = h.cursor;
        lemma_last_stop_below(s, h.cursor_key(), c);
        let p = h.backward_target().unwrap();
        let back = h.after_backward();
        assert(back.entries == s);
        assert(back.cursor == p);
        let kp = back.cursor_key();
        assert(kp == entry_key(s[p]));
        assert(is_stop(s[c], kp));
        lemma_first_stop_from(s, kp, p + 1);
        let f = first_stop_from(s, kp, p + 1);
        if f != Some(c) {
            match f {
                Some(j) => {
                    if j < c {
                        assert(s[j] is Active);
                    } else {
                        assert(!is_stop(s[c], kp));
                    }
                },
                None => {
                    assert(!is_stop(s[c], kp));
                },
            }
        }
    }
}

/// Entries of an identifier that a removal turned into tombstones stay
/// tombstones when the identifier is activated afterwards.
pub proof fn lemma_removed_entries_stay_deleted<T: EventItem>(
    h: HistoryView<T>,
    k: <T::ID as View>::V,
)
    requires
        h.wf(),
    ensures
        ({
            let after = h.after_change(k, StatusChange::Remove).after_change(
                k,
                StatusChange::Activate,
            );
            forall|i: int|
                0 <= i < h.entries.len() && entry_key(#[trigger] h.entries[i]) == Some(k)
                    ==> after.entries[i] is Deleted
        }),
{
}

/// Activation turns no active entry into anything else, so entries of an
/// identifier recorded after its removal stay active when it is activated.
pub proof fn lemma_activate_keeps_active_entries<T: EventItem>(
    h: HistoryView<T>,
    k: <T::ID as View>::V,
)
    requires
        h.wf(),
    ensures
        forall|i: int|
            0 <= i < h.entries.len() && #[trigger] h.entries[i] is Active ==> h.after_change(
                k,
                StatusChange::Activate,
            ).entries[i] == h.entries[i],
{
}

/// When a deactivation alters the entry under the cursor, the cursor moves to
/// the nearest earlier active entry if there is one; else to the nearest
/// later active entry; else to the most recent inactive entry; else to the
/// start.
pub proof fn lemma_deactivate_realigns_cursor<T: EventItem>(
    h: HistoryView<T>,
    k: <T::ID as View>::V,
)
    requires
        h.wf(),
        h.changes_cursor(k, StatusChange::Deactivate),
    ensures
        ({
            let after = h.after_change(k, StatusChange::Deactivate);
            let s = after.entries;
            let c = h.cursor;
            let j = after.cursor;
            &&& s.len() == h.entries.len()
            &&& (exists|m: int| 0 <= m < c && #[trigger] s[m] is Active) ==> {
                &&& 0 <= j < c
                &&& s[j] is Active
                &&& forall|m: int| j < m < c ==> !(#[trigger] s[m] is Active)
            }
            &&& (forall|m: int| 0 <= m < c ==> !(#[trigger] s[m] is Active)) && (exists|m: int|
                c < m < s.len() && #[trigger] s[m] is Active) ==> {
                &&& c < j < s.len()
                &&& s[j] is Active
                &&& forall|m: int| c < m < j ==> !(#[trigger] s[m] is Active)
            }
            &&& (forall|m: int| 0 <= m < s.len() ==> !(#[trigger] s[m] is Active)) && (exists|
                m: int,
            | 0 <= m < s.len() && #[trigger] s[m] is Inactive) ==> {
                &&& 0 <= j < s.len()
                &&& s[j] is Inactive
                &&& forall|m: int| j < m < s.len() ==> !(#[trigger] s[m] is Inactive)
            }
            &&& (forall|m: int| 0 <= m < s.len() ==> !(#[trigger] s[m] is Active)) && (forall|
                m: int,
            | 0 <= m < s.len() ==> !(#[trigger] s[m] is Inactive)) ==> j == 0
        }),
{
    let s = h.changed_entries(k, StatusChange::Deactivate);
    let c = h.cursor;
    // After the deactivation no active entry carries `k`, so every active
    // entry is a stop when leaving `k`.
    assert forall|m: int| 0 <= m < s.len() implies (#[trigger] s[m] is Active) == is_stop(
        s[m],
        Some(k),
    ) by {
        if s[m] is Active {
            assert(!changes(h.entries[m], k, StatusChange::Deactivate));
        }
    }
    lemma_last_stop_below(s, Some(k), c);
    lemma_first_stop_from(s, Some(k), c + 1);
    lemma_last_inactive_below(s, s.len() as int);
    assert(!(s[c] is Active));
}

} // verus!
