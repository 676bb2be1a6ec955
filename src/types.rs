use std::cmp::Ordering;

use vstd::laws_cmp::{obeys_cmp, obeys_cmp_ord, obeys_cmp_partial_ord};
use vstd::laws_eq::obeys_eq_spec_properties;
use vstd::prelude::*;
use vstd::std_specs::cmp::{OrdSpec, PartialEqSpec, PartialOrdSpec};
use vstd::std_specs::iter::IteratorSpec;

verus! {

/// Relies on `slice::sort`: it keeps the elements and puts them in ascending
/// order; it may panic when the order is not total.
#[verifier::external_body]
fn sort_ascending<T: Ord>(v: &mut Vec<T>)
    requires
        obeys_cmp::<T>(),
    ensures
        final(v)@.to_multiset() == old(v)@.to_multiset(),
        forall|i: int, j: int|
            #![trigger final(v)@[i], final(v)@[j]]
            0 <= i < j < final(v)@.len() ==> final(v)@[i].cmp_spec(&final(v)@[j])
                != Ordering::Greater,
{
    v.sort();
}

/// Under a lawful order, a value not above the next and not equal to it is below it.
proof fn lemma_below_unless_equal<T: Ord>(x: T, y: T)
    requires
        obeys_cmp::<T>(),
        x.cmp_spec(&y) != Ordering::Greater,
        !y.eq_spec(&x),
    ensures
        x.cmp_spec(&y) == Ordering::Less,
{
    reveal(obeys_cmp_partial_ord);
    reveal(obeys_cmp_ord);
    reveal(obeys_eq_spec_properties);
    assert(y.eq_spec(&x) <==> x.eq_spec(&y));
    assert(x.eq_spec(&y) <==> x.partial_cmp_spec(&y) == Some(Ordering::Equal));
    assert(x.partial_cmp_spec(&y) == Some(x.cmp_spec(&y)));
}

/// Sorting keeps which values are present.
proof fn lemma_same_values<T>(a: Seq<T>, b: Seq<T>)
    requires
        a.to_multiset() == b.to_multiset(),
    ensures
        forall|x: T| a.contains(x) <==> b.contains(x),
{
    assert forall|x: T| a.contains(x) <==> b.contains(x) by {
        vstd::seq_lib::to_multiset_contains(a, x);
        vstd::seq_lib::to_multiset_contains(b, x);
    }
}

/// Whether `x` is among `values` or equal to one of them.
pub open spec fn represented<T: PartialEq>(values: Seq<T>, x: T) -> bool {
    values.contains(x) || exists|m: int| 0 <= m < values.len() && x.eq_spec(&#[trigger] values[m])
}

proof fn lemma_represented_after_push<T: PartialEq>(values: Seq<T>, x: T, y: T)
    requires
        represented(values, y),
    ensures
        represented(values.push(x), y),
{
    let w = values.push(x);
    if values.contains(y) {
        let m = choose|m: int| 0 <= m < values.len() && values[m] == y;
        assert(w[m] == values[m]);
    } else {
        let m = choose|m: int| 0 <= m < values.len() && y.eq_spec(&values[m]);
        assert(w[m] == values[m]);
    }
}

/// Distinct values in ascending order.
#[derive(Clone, Debug)]
pub struct SortedDistinctVec<T>(Vec<T>);

impl<T> View for SortedDistinctVec<T> {
    type V = Seq<T>;

    closed spec fn view(&self) -> Seq<T> {
        self.0@
    }
}

impl<T: Ord> SortedDistinctVec<T> {
    /// Sorts `input` and keeps one value of each run of equal values.
    #[must_use]
    pub fn new(input: Vec<T>) -> (r: Self)
        requires
            obeys_cmp::<T>(),
        ensures
            forall|i: int|
                0 <= i < r@.len() - 1 ==> (#[trigger] r@[i]).cmp_spec(&r@[i + 1]) == Ordering::Less,
            forall|i: int| 0 <= i < r@.len() ==> input@.contains(#[trigger] r@[i]),
            forall|x: T| #[trigger] input@.contains(x) ==> represented(r@, x),
    {
        let ghost unsorted = input@;
        let mut rest = input;
        sort_ascending(&mut rest);
        let ghost sorted = rest@;
        let total = rest.len();
        proof {
            lemma_same_values(unsorted, sorted);
        }
        let mut out: Vec<T> = Vec::new();
        let ghost mut last_idx: int = 0;
        let mut i: usize = 0;
        while rest.len() > 0
            invariant
                obeys_cmp::<T>(),
                i + rest@.len() == sorted.len(),
                rest@ == sorted.subrange(i as int, sorted.len() as int),
                forall|a: int, b: int|
                    #![trigger sorted[a], sorted[b]]
                    0 <= a < b < sorted.len() ==> sorted[a].cmp_spec(&sorted[b])
                        != Ordering::Greater,
                forall|x: T| unsorted.contains(x) <==> sorted.contains(x),
                out@.len() > 0 ==> 0 <= last_idx < i && out@.last() == sorted[last_idx],
                out@.len() == 0 ==> i == 0,
                forall|a: int|
                    0 <= a < out@.len() - 1 ==> (#[trigger] out@[a]).cmp_spec(&out@[a + 1])
                        == Ordering::Less,
                forall|a: int| 0 <= a < out@.len() ==> sorted.contains(#[trigger] out@[a]),
                forall|j: int| 0 <= j < i ==> represented(out@, #[trigger] sorted[j]),
                sorted.len() == total,
            decreases rest.len(),
        {
            let x = rest.remove(0);
            assert(x == sorted[i as int]);
            assert(rest@ =~= sorted.subrange(i + 1, sorted.len() as int));
            let keep = out.len() == 0 || !(x == out[out.len() - 1]);
            let ghost before = out@;
            if keep {
                proof {
                    if before.len() > 0 {
                        let l = before.last();
                        assert(l.cmp_spec(&x) != Ordering::Greater);
                        lemma_below_unless_equal(l, x);
                    }
                }
                out.push(x);
                proof {
                    last_idx = i as int;
                    assert forall|j: int| 0 <= j < i + 1 implies represented(
                        out@,
                        #[trigger] sorted[j],
                    ) by {
                        if j == i {
                            assert(out@[out@.len() - 1] == sorted[j]);
                        } else {
                            lemma_represented_after_push(before, x, sorted[j]);
                        }
                    }
                }
            } else {
                proof {
                    assert forall|j: int| 0 <= j < i + 1 implies represented(
                        out@,
                        #[trigger] sorted[j],
                    ) by {
                        if j == i {
                            assert(sorted[j].eq_spec(&out@[out@.len() - 1]));
                        }
                    }
                }
            }
            i += 1;
        }
        assert forall|x: T| #[trigger] unsorted.contains(x) implies represented(out@, x) by {
            let j = choose|j: int| 0 <= j < sorted.len() && sorted[j] == x;
        }
        SortedDistinctVec(out)
    }
}

impl<T> SortedDistinctVec<T> {
    #[must_use]
    pub fn get(&self) -> (r: &[T])
        ensures
            r@ == self@,
    {
        self.0.as_slice()
    }

    pub fn iter(&self) -> (r: std::slice::Iter<'_, T>)
        ensures
            IteratorSpec::remaining(&r) == self@.map_values(|t: T| &t),
    {
        self.0.iter()
    }
}

impl<T> IntoIterator for SortedDistinctVec<T> {
    type Item = T;

    type IntoIter = std::vec::IntoIter<T>;

    fn into_iter(self) -> Self::IntoIter {
        self.0.into_iter()
    }
}

impl<'a, T> IntoIterator for &'a SortedDistinctVec<T> {
    type Item = &'a T;

    type IntoIter = std::slice::Iter<'a, T>;

    fn into_iter(self) -> Self::IntoIter {
        self.iter()
    }
}

/// An item that the history can track, identified by a stable identifier.
pub trait EventItem: Sized {
    type ID: View;

    /// The identifier of this item, as a mathematical value.
    spec fn spec_id(&self) -> <Self::ID as View>::V;

    fn get_id(&self) -> (r: &Self::ID)
        ensures
            r@ == self.spec_id(),
    ;

    /// Compares two identifiers.
    fn same_id(a: &Self::ID, b: &Self::ID) -> (r: bool)
        ensures
            r == (a@ == b@),
    ;

    /// Copies an identifier.
    fn clone_id(a: &Self::ID) -> (r: Self::ID)
        ensures
            r@ == a@,
    ;
}

/// A plain integer is its own identifier.
impl EventItem for i32 {
    type ID = i32;

    open spec fn spec_id(&self) -> i32 {
        *self
    }

    fn get_id(&self) -> (r: &i32) {
        self
    }

    fn same_id(a: &i32, b: &i32) -> (r: bool) {
        *a == *b
    }

    fn clone_id(a: &i32) -> (r: i32) {
        *a
    }
}

#[verifier::external_type_specification]
#[verifier::external_body]
pub struct ExNaiveDateTime(chrono::NaiveDateTime);

/// A window gaining focus: its address, the monitor it is on, and when.
pub struct WindowEvent {
    pub address: String,
    pub monitor: Option<String>,
    pub time: chrono::NaiveDateTime,
}

/// A window is identified by its address.
impl EventItem for WindowEvent {
    type ID = String;

    open spec fn spec_id(&self) -> Seq<char> {
        self.address@
    }

    fn get_id(&self) -> (r: &String) {
        &self.address
    }

    fn same_id(a: &String, b: &String) -> (r: bool) {
        *a == *b
    }

    fn clone_id(a: &String) -> (r: String) {
        a.clone()
    }
}

} // verus!
