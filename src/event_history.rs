use std::collections::VecDeque;

use vstd::prelude::*;

use crate::types::EventItem;

verus! {

/// Reachability status of one slot of the history.
#[derive(Debug)]
pub enum EventStatus<T> {
    Active(T),
    Inactive(T),
    Deleted,
}

impl<T> EventStatus<T> {
    /// The item of an active or inactive entry.
    pub open spec fn item(self) -> Option<T> {
        match self {
            EventStatus::Active(t) => Some(t),
            EventStatus::Inactive(t) => Some(t),
            EventStatus::Deleted => None,
        }
    }

    /// The item of an active or inactive entry; none for a tombstone.
    pub fn get_event(&self) -> (r: Option<&T>)
        ensures
            match r {
                Some(t) => self.item() == Some(*t),
                None => self.item() is None,
            },
    {
        match self {
            EventStatus::Active(t) => Some(t),
            EventStatus::Inactive(t) => Some(t),
            EventStatus::Deleted => None,
        }
    }
}

/// The identifier of the item in an entry; none for a tombstone.
pub open spec fn entry_key<T: EventItem>(e: EventStatus<T>) -> Option<<T::ID as View>::V> {
    match e {
        EventStatus::Active(t) => Some(t.spec_id()),
        EventStatus::Inactive(t) => Some(t.spec_id()),
        EventStatus::Deleted => None,
    }
}

/// Whether navigation leaving an item keyed `from` may stop on `e`: an active
/// entry whose identifier differs from `from` (any active entry when `from` is none).
pub open spec fn is_stop<T: EventItem>(e: EventStatus<T>, from: Option<<T::ID as View>::V>) -> bool {
    match e {
        EventStatus::Active(t) => from != Some(t.spec_id()),
        _ => false,
    }
}

/// The index of the first stop at or after `i`.
pub open spec fn first_stop_from<T: EventItem>(
    s: Seq<EventStatus<T>>,
    from: Option<<T::ID as View>::V>,
    i: int,
) -> Option<int>
    decreases s.len() - i,
{
    if 0 <= i < s.len() {
        if is_stop(s[i], from) {
            Some(i)
        } else {
            first_stop_from(s, from, i + 1)
        }
    } else {
        None
    }
}

/// The index of the last stop strictly below `i`.
pub open spec fn last_stop_below<T: EventItem>(
    s: Seq<EventStatus<T>>,
    from: Option<<T::ID as View>::V>,
    i: int,
) -> Option<int>
    decreases i,
{
    if 0 < i <= s.len() {
        if is_stop(s[i - 1], from) {
            Some(i - 1)
        } else {
            last_stop_below(s, from, i - 1)
        }
    } else {
        None
    }
}

/// The forward scan stops on the first stop at or after `i`, and only there.
pub proof fn lemma_first_stop_from<T: EventItem>(
    s: Seq<EventStatus<T>>,
    from: Option<<T::ID as View>::V>,
    i: int,
)
    requires
        0 <= i,
    ensures
        match first_stop_from(s, from, i) {
            Some(j) => {
                &&& i <= j < s.len()
                &&& is_stop(s[j], from)
                &&& forall|m: int| i <= m < j ==> !is_stop(#[trigger] s[m], from)
            },
            None => forall|m: int| i <= m < s.len() ==> !is_stop(#[trigger] s[m], from),
        },
    decreases s.len() - i,
{
    if 0 <= i < s.len() && !is_stop(s[i], from) {
        lemma_first_stop_from(s, from, i + 1);
    }
}

/// The backward scan stops on the last stop below `i`, and only there.
pub proof fn lemma_last_stop_below<T: EventItem>(
    s: Seq<EventStatus<T>>,
    from: Option<<T::ID as View>::V>,
    i: int,
)
    requires
        i <= s.len(),
    ensures
        match last_stop_below(s, from, i) {
            Some(j) => {
                &&& 0 <= j < i
                &&& is_stop(s[j], from)
                &&& forall|m: int| j < m < i ==> !is_stop(#[trigger] s[m], from)
            },
            None => forall|m: int| 0 <= m < i ==> !is_stop(#[trigger] s[m], from),
        },
    decreases i,
{
    if 0 < i && !is_stop(s[i - 1], from) {
        lemma_last_stop_below(s, from, i - 1);
    }
}

/// The index of the last inactive entry strictly below `i`.
pub open spec fn last_inactive_below<T>(s: Seq<EventStatus<T>>, i: int) -> Option<int>
    decreases i,
{
    if 0 < i <= s.len() {
        if s[i - 1] is Inactive {
            Some(i - 1)
        } else {
            last_inactive_below(s, i - 1)
        }
    } else {
        None
    }
}

pub proof fn lemma_last_inactive_below<T>(s: Seq<EventStatus<T>>, i: int)
    requires
        i <= s.len(),
    ensures
        match last_inactive_below(s, i) {
            Some(j) => {
                &&& 0 <= j < i
                &&& s[j] is Inactive
                &&& forall|m: int| j < m < i ==> !(#[trigger] s[m] is Inactive)
            },
            None => forall|m: int| 0 <= m < i ==> !(#[trigger] s[m] is Inactive),
        },
    decreases i,
{
    if 0 < i && !(s[i - 1] is Inactive) {
        lemma_last_inactive_below(s, i - 1);
    }
}

/// A change of status that the history applies to every entry of one identifier.
#[derive(Clone, Copy, Debug, PartialEq, Eq, Structural)]
pub enum StatusChange {
    /// Active or inactive entries become tombstones.
    Remove,
    /// Active entries become inactive.
    Deactivate,
    /// Inactive entries become active.
    Activate,
}

/// Whether `change` for identifier `k` alters entry `e`.
pub open spec fn changes<T: EventItem>(
    e: EventStatus<T>,
    k: <T::ID as View>::V,
    change: StatusChange,
) -> bool {
    &&& entry_key(e) == Some(k)
    &&& match change {
        StatusChange::Remove => true,
        StatusChange::Deactivate => e is Active,
        StatusChange::Activate => e is Inactive,
    }
}

/// Entry `e` after `change` for identifier `k`.
pub open spec fn changed_entry<T: EventItem>(
    e: EventStatus<T>,
    k: <T::ID as View>::V,
    change: StatusChange,
) -> EventStatus<T> {
    if changes(e, k, change) {
        match change {
            StatusChange::Remove => EventStatus::Deleted,
            StatusChange::Deactivate => EventStatus::Inactive(e.item().unwrap()),
            StatusChange::Activate => EventStatus::Active(e.item().unwrap()),
        }
    } else {
        e
    }
}

/// Where the cursor goes when the entry under it at `c` left identifier `k`
/// behind: the nearest earlier active entry of another identifier, else the
/// nearest later one, else the most recent inactive entry, else the start.
pub open spec fn realigned<T: EventItem>(
    s: Seq<EventStatus<T>>,
    c: int,
    k: <T::ID as View>::V,
) -> int {
    match last_stop_below(s, Some(k), c) {
        Some(j) => j,
        None => match first_stop_from(s, Some(k), c + 1) {
            Some(j) => j,
            None => match last_inactive_below(s, s.len() as int) {
                Some(j) => j,
                None => 0,
            },
        },
    }
}

/// The identifiers held in a sequence, as a set of their views.
pub open spec fn id_set<I: View>(v: Seq<I>) -> Set<I::V> {
    Set::new(|k: I::V| exists|i: int| 0 <= i < v.len() && v[i]@ == k)
}

proof fn lemma_id_set_push<I: View>(v: Seq<I>, x: I)
    ensures
        id_set(v.push(x)) == id_set(v).insert(x@),
{
    let w = v.push(x);
    assert forall|k: I::V| id_set(w).contains(k) <==> id_set(v).insert(x@).contains(k) by {
        assert(w[v.len() as int] == x);
        if id_set(v).contains(k) {
            let i = choose|i: int| 0 <= i < v.len() && v[i]@ == k;
            assert(w[i] == v[i]);
        }
        if id_set(w).contains(k) {
            let i = choose|i: int| 0 <= i < w.len() && w[i]@ == k;
            if i < v.len() {
                assert(w[i] == v[i]);
            }
        }
    }
    assert(id_set(w) =~= id_set(v).insert(x@));
}

spec fn opt_key<I: View>(o: Option<&I>) -> Option<I::V> {
    match o {
        Some(i) => Some(i@),
        None => None,
    }
}

/// The value of a run of decimal digits.
pub open spec fn decimal_value(s: Seq<char>) -> int
    decreases s.len(),
{
    if s.len() == 0 {
        0
    } else {
        decimal_value(s.drop_last()) * 10 + (s.last() as int - '0' as int)
    }
}

/// A nonempty run of decimal digits.
pub open spec fn is_digits(s: Seq<char>) -> bool {
    s.len() > 0 && forall|i: int| 0 <= i < s.len() ==> '0' <= #[trigger] s[i] <= '9'
}

/// The unsigned integer that text spells: an optional `+` and then decimal
/// digits, whose value fits in a `usize`.
pub open spec fn parsed_usize(s: Seq<char>) -> Option<usize> {
    let digits = if s.len() > 0 && s[0] == '+' {
        s.drop_first()
    } else {
        s
    };
    if is_digits(digits) && decimal_value(digits) <= usize::MAX {
        Some(decimal_value(digits) as usize)
    } else {
        None
    }
}

/// Relies on `usize::from_str`: it accepts an optional `+` followed by decimal
/// digits only, and fails when the value overflows.
#[verifier::external_body]
fn parse_usize(s: &str) -> (r: Option<usize>)
    ensures
        r == parsed_usize(s@),
{
    s.parse::<usize>().ok()
}

/// The capacity of a history: a positive number of entries.
#[derive(Clone, Copy, Debug, PartialEq, Eq, Structural)]
pub struct HistorySize {
    size: usize,
}

impl HistorySize {
    #[verifier::type_invariant]
    spec fn positive(self) -> bool {
        self.size > 0
    }

    pub closed spec fn spec_get(self) -> usize {
        self.size
    }

    #[verifier::when_used_as_spec(spec_get)]
    #[must_use]
    pub fn get(self) -> (r: usize)
        ensures
            r == self.spec_get(),
            r > 0,
    {
        proof {
            use_type_invariant(&self);
        }
        self.size
    }
}

impl TryFrom<usize> for HistorySize {
    type Error = String;

    fn try_from(value: usize) -> (r: Result<Self, Self::Error>)
        ensures
            match r {
                Ok(size) => value > 0 && size.spec_get() == value,
                Err(_) => value == 0,
            },
    {
        if value == 0 {
            Err("history size must be greater than zero".to_owned())
        } else {
            Ok(HistorySize { size: value })
        }
    }
}

impl vstd::std_specs::convert::TryFromSpecImpl<usize> for HistorySize {
    open spec fn obeys_try_from_spec() -> bool {
        false
    }

    open spec fn try_from_spec(v: usize) -> Result<Self, String> {
        arbitrary()
    }
}

impl Default for HistorySize {
    fn default() -> (r: Self)
        ensures
            r.spec_get() == 1000,
    {
        HistorySize { size: 1000 }
    }
}

impl std::str::FromStr for HistorySize {
    type Err = String;

    fn from_str(s: &str) -> (r: Result<Self, Self::Err>)
        ensures
            match r {
                Ok(size) => parsed_usize(s@) == Some(size.spec_get()) && size.spec_get() > 0,
                Err(_) => !(parsed_usize(s@) matches Some(v) && v > 0),
            },
    {
        match parse_usize(s) {
            Some(value) => {
                if value == 0 {
                    Err("history-size must be a positive integer".to_owned())
                } else {
                    Ok(HistorySize { size: value })
                }
            },
            None => Err("history-size must be a positive integer".to_owned()),
        }
    }
}

/// The mathematical state of a history.
pub struct HistoryView<T: EventItem> {
    pub entries: Seq<EventStatus<T>>,
    pub cursor: int,
    pub capacity: int,
    pub ignored: Set<<T::ID as View>::V>,
}

impl<T: EventItem> HistoryView<T> {
    /// The cursor lies within the entries whenever there are any, and the
    /// entries never exceed the capacity.
    pub open spec fn wf(self) -> bool {
        &&& self.capacity > 0
        &&& self.entries.len() <= self.capacity
        &&& (self.entries.len() > 0 ==> 0 <= self.cursor < self.entries.len())
        &&& (self.entries.len() == 0 ==> self.cursor == 0)
    }

    /// The identifier at the cursor, if the entry there is active.
    pub open spec fn cursor_key(self) -> Option<<T::ID as View>::V> {
        if 0 <= self.cursor < self.entries.len() && self.entries[self.cursor] is Active {
            entry_key(self.entries[self.cursor])
        } else {
            None
        }
    }

    pub open spec fn forward_target(self) -> Option<int> {
        first_stop_from(self.entries, self.cursor_key(), self.cursor + 1)
    }

    pub open spec fn backward_target(self) -> Option<int> {
        last_stop_below(self.entries, self.cursor_key(), self.cursor)
    }

    /// The state after navigation lands on `target`: the cursor moves there
    /// and the identifier found there is expected back once.
    pub open spec fn landed(self, target: Option<int>) -> Self {
        match target {
            Some(j) => HistoryView {
                cursor: j,
                ignored: self.ignored.insert(entry_key(self.entries[j]).unwrap()),
                ..self
            },
            None => self,
        }
    }

    pub open spec fn after_forward(self) -> Self {
        self.landed(self.forward_target())
    }

    pub open spec fn after_backward(self) -> Self {
        self.landed(self.backward_target())
    }

    /// Whether adding `item` records a new entry: it is neither an expected
    /// echo nor the identifier of the active entry at the cursor.
    pub open spec fn add_records(self, item: T) -> bool {
        !self.ignored.contains(item.spec_id()) && self.cursor_key() != Some(item.spec_id())
    }

    /// The state after recording `item`: the head entry is evicted when the
    /// history is full, every entry after the cursor is dropped, and `item`
    /// is appended as an active entry under the cursor.
    pub open spec fn recorded(self, item: T) -> Self {
        let full = self.entries.len() >= self.capacity;
        let shifted = if full {
            self.entries.drop_first()
        } else {
            self.entries
        };
        let cursor = if full && self.cursor > 0 {
            self.cursor - 1
        } else {
            self.cursor
        };
        let kept = if shifted.len() == 0 {
            shifted
        } else {
            shifted.subrange(0, cursor + 1)
        };
        HistoryView { entries: kept.push(EventStatus::Active(item)), cursor: kept.len() as int, ..self }
    }

    /// The entries after `change` for identifier `k`.
    pub open spec fn changed_entries(self, k: <T::ID as View>::V, change: StatusChange) -> Seq<
        EventStatus<T>,
    > {
        self.entries.map_values(|e: EventStatus<T>| changed_entry(e, k, change))
    }

    /// Whether `change` for identifier `k` alters the entry under the cursor.
    pub open spec fn changes_cursor(self, k: <T::ID as View>::V, change: StatusChange) -> bool {
        0 <= self.cursor < self.entries.len() && changes(self.entries[self.cursor], k, change)
    }

    /// The state after `change` for identifier `k`; the cursor is realigned
    /// when a removal or deactivation alters its own entry.
    pub open spec fn after_change(self, k: <T::ID as View>::V, change: StatusChange) -> Self {
        let entries = self.changed_entries(k, change);
        let cursor = if change != StatusChange::Activate && self.changes_cursor(k, change) {
            realigned(entries, self.cursor, k)
        } else {
            self.cursor
        };
        HistoryView { entries, cursor, ..self }
    }

    pub open spec fn after_add(self, item: T) -> Self {
        if self.ignored.contains(item.spec_id()) {
            HistoryView { ignored: self.ignored.remove(item.spec_id()), ..self }
        } else if self.cursor_key() == Some(item.spec_id()) {
            self
        } else {
            self.recorded(item)
        }
    }
}

/// A bounded history of events with a navigation cursor.
#[derive(Debug)]
pub struct EventHistory<T: EventItem> {
    max_size: HistorySize,
    cursor: usize,
    events: VecDeque<EventStatus<T>>,
    ignored_events: Vec<T::ID>,
}

impl<T: EventItem> View for EventHistory<T> {
    type V = HistoryView<T>;

    closed spec fn view(&self) -> HistoryView<T> {
        HistoryView {
            entries: self.events@,
            cursor: self.cursor as int,
            capacity: self.max_size.spec_get() as int,
            ignored: id_set(self.ignored_events@),
        }
    }
}

impl<T: EventItem> EventHistory<T> {
    #[must_use]
    /// An empty history holding at most `max_size` entries.
    pub fn new(max_size: HistorySize) -> (r: Self)
        ensures
            r@.wf(),
            r@.entries.len() == 0,
            r@.cursor == 0,
            r@.capacity == max_size.spec_get(),
            r@.ignored.is_empty(),
    {
        proof {
            use_type_invariant(&max_size);
        }
        let r = EventHistory {
            max_size,
            cursor: 0,
            events: VecDeque::new(),
            ignored_events: Vec::new(),
        };
        assert(id_set(r.ignored_events@) =~= Set::empty());
        r
    }

    fn next_active_idx(&self, current: usize, current_id: Option<&T::ID>) -> (r: Option<usize>)
        requires
            current < usize::MAX,
        ensures
            match r {
                Some(j) => first_stop_from(self.events@, opt_key(current_id), current + 1)
                    == Some(j as int),
                None => first_stop_from(self.events@, opt_key(current_id), current + 1) is None,
            },
    {
        let ghost s = self.events@;
        let ghost k = opt_key(current_id);
        let n = self.events.len();
        let mut idx: usize = current + 1;
        while idx < n
            invariant
                s == self.events@,
                n == s.len(),
                k == opt_key(current_id),
                first_stop_from(s, k, idx as int) == first_stop_from(s, k, current + 1),
            decreases n - idx,
        {
            if let EventStatus::Active(event) = &self.events[idx] {
                match current_id {
                    Some(id) => {
                        if !T::same_id(id, event.get_id()) {
                            return Some(idx);
                        }
                    },
                    None => {
                        return Some(idx);
                    },
                }
            }
            idx += 1;
        }
        None
    }

    fn prev_active_idx(&self, current: usize, current_id: Option<&T::ID>) -> (r: Option<usize>)
        requires
            current <= self.events@.len(),
        ensures
            match r {
                Some(j) => last_stop_below(self.events@, opt_key(current_id), current as int)
                    == Some(j as int),
                None => last_stop_below(self.events@, opt_key(current_id), current as int) is None,
            },
    {
        let ghost s = self.events@;
        let ghost k = opt_key(current_id);
        let mut idx: usize = current;
        while idx > 0
            invariant
                s == self.events@,
                idx <= current <= s.len(),
                k == opt_key(current_id),
                last_stop_below(s, k, idx as int) == last_stop_below(s, k, current as int),
            decreases idx,
        {
            idx -= 1;
            if let EventStatus::Active(event) = &self.events[idx] {
                match current_id {
                    Some(id) => {
                        if !T::same_id(id, event.get_id()) {
                            return Some(idx);
                        }
                    },
                    None => {
                        return Some(idx);
                    },
                }
            }
        }
        None
    }

    fn ignores(&self, id: &T::ID) -> (r: bool)
        ensures
            r == self@.ignored.contains(id@),
    {
        let mut i: usize = 0;
        while i < self.ignored_events.len()
            invariant
                forall|j: int| 0 <= j < i ==> self.ignored_events@[j]@ != id@,
            decreases self.ignored_events.len() - i,
        {
            if T::same_id(&self.ignored_events[i], id) {
                return true;
            }
            i += 1;
        }
        false
    }

    fn insert_ignored(&mut self, id: T::ID)
        ensures
            final(self)@ == (HistoryView { ignored: old(self)@.ignored.insert(id@), ..old(self)@ }),
    {
        let ghost old_ids = self.ignored_events@;
        if !self.ignores(&id) {
            proof {
                lemma_id_set_push(old_ids, id);
            }
            self.ignored_events.push(id);
        } else {
            assert(old(self)@.ignored.insert(id@) =~= old(self)@.ignored);
        }
    }

    fn remove_ignored(&mut self, id: &T::ID)
        ensures
            final(self)@ == (HistoryView { ignored: old(self)@.ignored.remove(id@), ..old(self)@ }),
    {
        let ghost old_ids = self.ignored_events@;
        let mut kept: Vec<T::ID> = Vec::new();
        let mut i: usize = 0;
        while i < self.ignored_events.len()
            invariant
                self.ignored_events@ == old_ids,
                i <= old_ids.len(),
                id_set(kept@) == id_set(old_ids.subrange(0, i as int)).remove(id@),
            decreases old_ids.len() - i,
        {
            let ghost before = kept@;
            proof {
                assert(old_ids.subrange(0, i + 1) == old_ids.subrange(0, i as int).push(old_ids[i as int]));
                lemma_id_set_push(old_ids.subrange(0, i as int), old_ids[i as int]);
            }
            if !T::same_id(&self.ignored_events[i], id) {
                let c = T::clone_id(&self.ignored_events[i]);
                proof {
                    lemma_id_set_push(before, c);
                }
                kept.push(c);
                assert(id_set(kept@) =~= id_set(old_ids.subrange(0, i + 1)).remove(id@));
            } else {
                assert(id_set(kept@) =~= id_set(old_ids.subrange(0, i + 1)).remove(id@));
            }
            i += 1;
        }
        assert(old_ids.subrange(0, old_ids.len() as int) == old_ids);
        self.ignored_events = kept;
    }

    fn current_id(&self) -> (r: Option<&T::ID>)
        requires
            self@.wf(),
        ensures
            opt_key(r) == self@.cursor_key(),
    {
        if self.cursor < self.events.len() {
            match &self.events[self.cursor] {
                EventStatus::Active(t) => Some(t.get_id()),
                _ => None,
            }
        } else {
            None
        }
    }

    fn land(&mut self, target: usize) -> (r: &T)
        requires
            old(self)@.wf(),
            target < old(self)@.entries.len(),
            old(self)@.entries[target as int] is Active,
        ensures
            final(self)@ == old(self)@.landed(Some(target as int)),
            old(self)@.entries[target as int] == EventStatus::Active(*r),
    {
        self.cursor = target;
        let id = T::clone_id(self.events[target].get_event().unwrap().get_id());
        self.insert_ignored(id);
        self.events[target].get_event().unwrap()
    }

    /// Moves the cursor to the nearest later active entry of another
    /// identifier than the active one under the cursor, and expects one echo
    /// of the item found there; nothing moves when there is none.
    pub fn forward(&mut self) -> (r: Option<&T>)
        requires
            old(self)@.wf(),
        ensures
            final(self)@ == old(self)@.after_forward(),
            final(self)@.wf(),
            match r {
                Some(t) => old(self)@.forward_target() matches Some(j) && 0 <= j < old(
                    self,
                )@.entries.len() && old(self)@.entries[j] == EventStatus::Active(*t),
                None => old(self)@.forward_target() is None,
            },
    {
        proof {
            lemma_first_stop_from(self@.entries, self@.cursor_key(), self@.cursor + 1);
        }
        let target = match self.next_active_idx(self.cursor, self.current_id()) {
            Some(j) => j,
            None => return None,
        };
        Some(self.land(target))
    }

    /// Moves the cursor to the nearest earlier active entry of another
    /// identifier than the active one under the cursor, and expects one echo
    /// of the item found there; nothing moves when there is none.
    pub fn backward(&mut self) -> (r: Option<&T>)
        requires
            old(self)@.wf(),
        ensures
            final(self)@ == old(self)@.after_backward(),
            final(self)@.wf(),
            match r {
                Some(t) => old(self)@.backward_target() matches Some(j) && 0 <= j < old(
                    self,
                )@.entries.len() && old(self)@.entries[j] == EventStatus::Active(*t),
                None => old(self)@.backward_target() is None,
            },
    {
        proof {
            lemma_last_stop_below(self@.entries, self@.cursor_key(), self@.cursor);
        }
        let target = match self.prev_active_idx(self.cursor, self.current_id()) {
            Some(j) => j,
            None => return None,
        };
        Some(self.land(target))
    }

    /// Records a newly focused item: an expected echo is swallowed once, a
    /// repeat of the active item under the cursor is ignored, and otherwise
    /// the item is appended (evicting the head when full and dropping every
    /// entry after the cursor) and the cursor moves onto it.
    pub fn add(&mut self, item: T) -> (r: Option<&T>)
        requires
            old(self)@.wf(),
        ensures
            final(self)@ == old(self)@.after_add(item),
            final(self)@.wf(),
            match r {
                Some(t) => old(self)@.add_records(item) && *t == item,
                None => !old(self)@.add_records(item),
            },
    {
        if self.ignores(item.get_id()) {
            self.remove_ignored(item.get_id());
            return None;
        }
        let is_duplicate_item = match self.current_id() {
            Some(current) => T::same_id(current, item.get_id()),
            None => false,
        };
        if is_duplicate_item {
            return None;
        }
        let ghost h = self@;
        let active_item = EventStatus::Active(item);
        if self.events.len() == 0 {
            self.events.push_back(active_item);
            self.cursor = 0;
            assert(self@.entries =~= h.recorded(item).entries);
            return self.events[0].get_event();
        }
        let buffer_full = self.events.len() >= self.max_size.get();
        if buffer_full {
            self.events.pop_front();
            if self.cursor > 0 {
                self.cursor -= 1;
            }
        }
        if self.events.len() > 0 && self.cursor + 1 != self.events.len() {
            self.events.truncate(self.cursor + 1);
        }
        self.events.push_back(active_item);
        self.cursor = self.events.len() - 1;
        assert(self@.entries =~= h.recorded(item).entries);
        self.events[self.cursor].get_event()
    }

    fn apply_change(e: EventStatus<T>, id: &T::ID, change: StatusChange) -> (r: (
        EventStatus<T>,
        bool,
    ))
        ensures
            r.0 == changed_entry(e, id@, change),
            r.1 == changes(e, id@, change),
    {
        match e {
            EventStatus::Active(t) => {
                if T::same_id(t.get_id(), id) {
                    match change {
                        StatusChange::Remove => (EventStatus::Deleted, true),
                        StatusChange::Deactivate => (EventStatus::Inactive(t), true),
                        StatusChange::Activate => (EventStatus::Active(t), false),
                    }
                } else {
                    (EventStatus::Active(t), false)
                }
            },
            EventStatus::Inactive(t) => {
                if T::same_id(t.get_id(), id) {
                    match change {
                        StatusChange::Remove => (EventStatus::Deleted, true),
                        StatusChange::Deactivate => (EventStatus::Inactive(t), false),
                        StatusChange::Activate => (EventStatus::Active(t), true),
                    }
                } else {
                    (EventStatus::Inactive(t), false)
                }
            },
            EventStatus::Deleted => (EventStatus::Deleted, false),
        }
    }

    /// Applies `change` to every entry of `id`; tells whether the entry under
    /// the cursor was altered.
    fn update_matching_events(&mut self, id: &T::ID, change: StatusChange) -> (r: bool)
        requires
            old(self)@.wf(),
        ensures
            final(self)@ == (HistoryView {
                entries: old(self)@.changed_entries(id@, change),
                ..old(self)@
            }),
            r == old(self)@.changes_cursor(id@, change),
    {
        let ghost s = self.events@;
        let ghost k = id@;
        let ghost h = self@;
        let n = self.events.len();
        let mut updated: VecDeque<EventStatus<T>> = VecDeque::new();
        let mut changed_at_cursor = false;
        let mut idx: usize = 0;
        while idx < n
            invariant
                n == s.len(),
                k == id@,
                idx <= n,
                self.events@ == s.subrange(idx as int, n as int),
                updated@.len() == idx,
                forall|j: int| 0 <= j < idx ==> updated@[j] == changed_entry(s[j], k, change),
                changed_at_cursor == (self.cursor < idx && changes(s[self.cursor as int], k, change)),
                h.entries == s,
                h.cursor == self.cursor,
                h.capacity == self.max_size.spec_get(),
                h.ignored == id_set(self.ignored_events@),
            decreases n - idx,
        {
            let ghost before = self.events@;
            let event = self.events.pop_front().unwrap();
            assert(self.events@ =~= s.subrange(idx + 1, n as int));
            let (new_status, changed) = Self::apply_change(event, id, change);
            if idx == self.cursor && changed {
                changed_at_cursor = true;
            }
            updated.push_back(new_status);
            idx += 1;
        }
        self.events = updated;
        assert(self.events@ =~= s.map_values(|e: EventStatus<T>| changed_entry(e, k, change)));
        changed_at_cursor
    }

    fn last_inactive_idx(&self) -> (r: Option<usize>)
        ensures
            match r {
                Some(j) => last_inactive_below(self.events@, self.events@.len() as int) == Some(
                    j as int,
                ),
                None => last_inactive_below(self.events@, self.events@.len() as int) is None,
            },
    {
        let ghost s = self.events@;
        let n = self.events.len();
        let mut idx: usize = n;
        while idx > 0
            invariant
                s == self.events@,
                n == s.len(),
                idx <= n,
                last_inactive_below(s, idx as int) == last_inactive_below(s, n as int),
            decreases idx,
        {
            idx -= 1;
            if let EventStatus::Inactive(_) = &self.events[idx] {
                return Some(idx);
            }
        }
        None
    }

    /// Moves the cursor off an entry that just left identifier `id` behind.
    fn realign_cursor(&mut self, id: &T::ID)
        requires
            old(self)@.wf(),
        ensures
            final(self)@ == (HistoryView {
                cursor: realigned(old(self)@.entries, old(self)@.cursor, id@),
                ..old(self)@
            }),
            final(self)@.wf(),
    {
        proof {
            lemma_last_stop_below(self@.entries, Some(id@), self@.cursor);
            lemma_first_stop_from(self@.entries, Some(id@), self@.cursor + 1);
            lemma_last_inactive_below(self@.entries, self@.entries.len() as int);
        }
        if let Some(prev_active_idx) = self.prev_active_idx(self.cursor, Some(id)) {
            self.cursor = prev_active_idx;
            return;
        }
        if let Some(next_active_idx) = self.next_active_idx(self.cursor, Some(id)) {
            self.cursor = next_active_idx;
            return;
        }
        if let Some(last_inactive_idx) = self.last_inactive_idx() {
            self.cursor = last_inactive_idx;
            return;
        }
        self.cursor = 0;
    }

    /// Turns every entry of `id` into a tombstone.
    pub fn remove(&mut self, id: &T::ID)
        requires
            old(self)@.wf(),
        ensures
            final(self)@ == old(self)@.after_change(id@, StatusChange::Remove),
            final(self)@.wf(),
    {
        if self.update_matching_events(id, StatusChange::Remove) {
            self.realign_cursor(id);
        }
    }

    /// Makes every active entry of `id` inactive.
    pub fn deactivate(&mut self, id: &T::ID)
        requires
            old(self)@.wf(),
        ensures
            final(self)@ == old(self)@.after_change(id@, StatusChange::Deactivate),
            final(self)@.wf(),
    {
        if self.update_matching_events(id, StatusChange::Deactivate) {
            self.realign_cursor(id);
        }
    }

    /// Makes every inactive entry of `id` active; tombstones stay.
    pub fn activate(&mut self, id: &T::ID)
        requires
            old(self)@.wf(),
        ensures
            final(self)@ == old(self)@.after_change(id@, StatusChange::Activate),
            final(self)@.wf(),
    {
        self.update_matching_events(id, StatusChange::Activate);
    }

    /// A history seeded with the item focused at startup.
    pub fn bootstrap(init: T, max_size: HistorySize) -> (r: Self)
        ensures
            r@.wf(),
            r@.entries == seq![EventStatus::Active(init)],
            r@.cursor == 0,
            r@.capacity == max_size.spec_get(),
            r@.ignored.is_empty(),
    {
        let mut event_history = Self::new(max_size);
        event_history.add(init);
        assert(event_history@.entries =~= seq![EventStatus::Active(init)]);
        event_history
    }

    /// The item under the cursor; its identifier is expected back once.
    pub fn current_event(&mut self) -> (r: &T)
        requires
            old(self)@.wf(),
            old(self)@.cursor < old(self)@.entries.len(),
            !(old(self)@.entries[old(self)@.cursor] is Deleted),
        ensures
            old(self)@.entries[old(self)@.cursor].item() == Some(*r),
            final(self)@ == (HistoryView {
                ignored: old(self)@.ignored.insert(r.spec_id()),
                ..old(self)@
            }),
            final(self)@.wf(),
    {
        let id = T::clone_id(self.events[self.cursor].get_event().unwrap().get_id());
        self.insert_ignored(id);
        self.events[self.cursor].get_event().unwrap()
    }

    /// Builds a history holding `entries` with the cursor at `cursor`; none
    /// when they exceed `max_size` or the cursor lies outside them.
    pub fn from_entries(max_size: HistorySize, entries: Vec<EventStatus<T>>, cursor: usize) -> (r:
        Option<Self>)
        ensures
            r is Some <==> (entries@.len() <= max_size.spec_get() && (if entries@.len() == 0 {
                cursor == 0
            } else {
                cursor < entries@.len()
            })),
            r matches Some(h) ==> {
                &&& h@.wf()
                &&& h@.entries == entries@
                &&& h@.cursor == cursor
                &&& h@.capacity == max_size.spec_get()
                &&& h@.ignored.is_empty()
            },
    {
        proof {
            use_type_invariant(&max_size);
        }
        if entries.len() > max_size.get() {
            return None;
        }
        if (entries.len() == 0 && cursor != 0) || (entries.len() > 0 && cursor >= entries.len()) {
            return None;
        }
        let ghost all = entries@;
        let mut rest = entries;
        let mut events: VecDeque<EventStatus<T>> = VecDeque::new();
        while rest.len() > 0
            invariant
                rest@ + events@ == all,
            decreases rest.len(),
        {
            let e = rest.pop().unwrap();
            events.push_front(e);
            assert(rest@ + events@ =~= all);
        }
        assert(events@ =~= all);
        let r = EventHistory { max_size, cursor, events, ignored_events: Vec::new() };
        assert(id_set(r.ignored_events@) =~= Set::empty());
        Some(r)
    }

    /// The number of entries.
    pub fn len(&self) -> (r: usize)
        ensures
            r == self@.entries.len(),
    {
        self.events.len()
    }

    /// Whether there are no entries.
    pub fn is_empty(&self) -> (r: bool)
        ensures
            r == (self@.entries.len() == 0),
    {
        self.events.len() == 0
    }

    /// The position of the cursor.
    pub fn cursor(&self) -> (r: usize)
        ensures
            r == self@.cursor,
    {
        self.cursor
    }

    /// The capacity.
    pub fn max_size(&self) -> (r: HistorySize)
        ensures
            r.spec_get() == self@.capacity,
    {
        self.max_size
    }

    /// The entry at `idx`, if there is one.
    pub fn entry(&self, idx: usize) -> (r: Option<&EventStatus<T>>)
        ensures
            match r {
                Some(e) => idx < self@.entries.len() && *e == self@.entries[idx as int],
                None => idx >= self@.entries.len(),
            },
    {
        if idx < self.events.len() {
            Some(&self.events[idx])
        } else {
            None
        }
    }

    /// Moves the cursor to `idx` when that is a position of an entry; tells
    /// whether it moved.
    pub fn set_cursor(&mut self, idx: usize) -> (r: bool)
        requires
            old(self)@.wf(),
        ensures
            r == (idx < old(self)@.entries.len()),
            final(self)@ == (if r {
                HistoryView { cursor: idx as int, ..old(self)@ }
            } else {
                old(self)@
            }),
            final(self)@.wf(),
    {
        if idx < self.events.len() {
            self.cursor = idx;
            true
        } else {
            false
        }
    }

    /// Whether the next add of `id` is expected as an echo and will be swallowed.
    pub fn is_ignored(&self, id: &T::ID) -> (r: bool)
        ensures
            r == self@.ignored.contains(id@),
    {
        self.ignores(id)
    }

    /// Expects one echo of `id`: the next add of it is swallowed.
    pub fn ignore(&mut self, id: T::ID)
        requires
            old(self)@.wf(),
        ensures
            final(self)@ == (HistoryView { ignored: old(self)@.ignored.insert(id@), ..old(self)@ }),
            final(self)@.wf(),
    {
        self.insert_ignored(id);
    }

    /// Forgets every expected echo.
    pub fn clear_ignored(&mut self)
        requires
            old(self)@.wf(),
        ensures
            final(self)@ == (HistoryView { ignored: Set::empty(), ..old(self)@ }),
            final(self)@.wf(),
    {
        self.ignored_events = Vec::new();
        assert(id_set(self.ignored_events@) =~= Set::empty());
    }
}

} // verus!
