//! A verified merge sort for the identifiers and names the engine orders.
use crate::text::is_text_before;
use crate::text::lemma_text_before_total;
use crate::text::lemma_text_before_transitive;
use crate::text::text_before;
use vstd::prelude::*;

verus! {

/// A type with a total preorder that executable code can decide.
pub trait SortKey: Sized {
    spec fn leq(self, other: Self) -> bool;

    proof fn lemma_total(a: Self, b: Self)
        ensures
            a.leq(b) || b.leq(a),
    ;

    proof fn lemma_transitive(a: Self, b: Self, c: Self)
        requires
            a.leq(b),
            b.leq(c),
        ensures
            a.leq(c),
    ;

    fn is_leq(&self, other: &Self) -> (r: bool)
        ensures
            r == self.leq(*other),
    ;
}

impl SortKey for u64 {
    open spec fn leq(self, other: Self) -> bool {
        self <= other
    }

    proof fn lemma_total(a: Self, b: Self) {
    }

    proof fn lemma_transitive(a: Self, b: Self, c: Self) {
    }

    fn is_leq(&self, other: &Self) -> (r: bool) {
        *self <= *other
    }
}

impl SortKey for usize {
    open spec fn leq(self, other: Self) -> bool {
        self <= other
    }

    proof fn lemma_total(a: Self, b: Self) {
    }

    proof fn lemma_transitive(a: Self, b: Self, c: Self) {
    }

    fn is_leq(&self, other: &Self) -> (r: bool) {
        *self <= *other
    }
}

impl SortKey for i64 {
    open spec fn leq(self, other: Self) -> bool {
        self <= other
    }

    proof fn lemma_total(a: Self, b: Self) {
    }

    proof fn lemma_transitive(a: Self, b: Self, c: Self) {
    }

    fn is_leq(&self, other: &Self) -> (r: bool) {
        *self <= *other
    }
}

impl SortKey for u128 {
    open spec fn leq(self, other: Self) -> bool {
        self <= other
    }

    proof fn lemma_total(a: Self, b: Self) {
    }

    proof fn lemma_transitive(a: Self, b: Self, c: Self) {
    }

    fn is_leq(&self, other: &Self) -> (r: bool) {
        *self <= *other
    }
}

/// Pairs are ordered by their first component alone.
impl SortKey for (u64, u64) {
    open spec fn leq(self, other: Self) -> bool {
        self.0 <= other.0
    }

    proof fn lemma_total(a: Self, b: Self) {
    }

    proof fn lemma_transitive(a: Self, b: Self, c: Self) {
    }

    fn is_leq(&self, other: &Self) -> (r: bool) {
        self.0 <= other.0
    }
}

impl SortKey for String {
    open spec fn leq(self, other: Self) -> bool {
        !text_before(other@, self@)
    }

    proof fn lemma_total(a: Self, b: Self) {
        lemma_text_before_total(a@, b@);
    }

    proof fn lemma_transitive(a: Self, b: Self, c: Self) {
        lemma_text_before_total(a@, b@);
        lemma_text_before_total(b@, c@);
        if text_before(c@, a@) {
            if a@ == b@ {
            } else {
                lemma_text_before_transitive(c@, a@, b@);
            }
        }
    }

    fn is_leq(&self, other: &Self) -> (r: bool) {
        !is_text_before(other.as_str(), self.as_str())
    }
}

/// Every element is at most each later one.
pub open spec fn is_sorted<T: SortKey>(s: Seq<T>) -> bool {
    forall|i: int, j: int| 0 <= i < j < s.len() ==> (#[trigger] s[i]).leq(#[trigger] s[j])
}

proof fn lemma_multiset_contains<T>(a: Seq<T>, b: Seq<T>)
    requires
        a.to_multiset() == b.to_multiset(),
    ensures
        forall|x: T| a.contains(x) <==> b.contains(x),
{
    a.to_multiset_ensures();
    b.to_multiset_ensures();
    assert forall|x: T| a.contains(x) <==> b.contains(x) by {
        assert(a.contains(x) <==> a.to_multiset().count(x) > 0);
        assert(b.contains(x) <==> b.to_multiset().count(x) > 0);
    }
}

/// Same elements, each as often: what reordering a sequence keeps.
pub open spec fn is_permutation<T>(a: Seq<T>, b: Seq<T>) -> bool {
    a.to_multiset() == b.to_multiset()
}

/// A reordering has the same length and the same members.
pub proof fn lemma_permutation<T>(a: Seq<T>, b: Seq<T>)
    requires
        is_permutation(a, b),
    ensures
        a.len() == b.len(),
        forall|x: T| a.contains(x) <==> b.contains(x),
        a.no_duplicates() ==> b.no_duplicates(),
{
    broadcast use vstd::seq_lib::group_to_multiset_ensures;

    lemma_multiset_contains(a, b);
    assert(a.to_multiset().len() == a.len());
    assert(b.to_multiset().len() == b.len());
    if a.no_duplicates() {
        a.lemma_multiset_has_no_duplicates();
        b.lemma_multiset_has_no_duplicates_conv();
    }
}

fn merge<T: SortKey>(left: Vec<T>, right: Vec<T>) -> (out: Vec<T>)
    requires
        is_sorted(left@),
        is_sorted(right@),
        left@.len() + right@.len() <= usize::MAX,
    ensures
        is_sorted(out@),
        is_permutation(out@, left@ + right@),
{
    broadcast use vstd::seq_lib::group_to_multiset_ensures;

    let ghost l0 = left@;
    let ghost r0 = right@;
    let mut left = left;
    let mut right = right;
    let mut reversed: Vec<T> = Vec::new();
    // Largest element first: both inputs shrink from their ends.
    while left.len() > 0 || right.len() > 0
        invariant
            is_sorted(left@),
            is_sorted(right@),
            forall|i: int, j: int|
                0 <= i < j < reversed@.len() ==> (#[trigger] reversed@[j]).leq(
                    #[trigger] reversed@[i],
                ),
            forall|i: int, j: int|
                0 <= i < left@.len() && 0 <= j < reversed@.len() ==> (#[trigger] left@[i]).leq(
                    #[trigger] reversed@[j],
                ),
            forall|i: int, j: int|
                0 <= i < right@.len() && 0 <= j < reversed@.len() ==> (#[trigger] right@[i]).leq(
                    #[trigger] reversed@[j],
                ),
            reversed@.to_multiset().add(left@.to_multiset()).add(right@.to_multiset())
                =~= l0.to_multiset().add(r0.to_multiset()),
        decreases left@.len() + right@.len(),
    {
        broadcast use vstd::seq_lib::group_to_multiset_ensures;

        let ghost l1 = left@;
        let ghost r1 = right@;
        let ghost v1 = reversed@;
        let take_left: bool = if left.len() == 0 {
            false
        } else if right.len() == 0 {
            true
        } else {
            right[right.len() - 1].is_leq(&left[left.len() - 1])
        };
        if take_left {
            let item: T = left.pop().unwrap();
            proof {
                assert(l1 =~= left@.push(item));
                assert forall|i: int| 0 <= i < right@.len() implies (#[trigger] right@[i]).leq(
                    item,
                ) by {
                    let top = right@[right@.len() - 1];
                    if i < right@.len() - 1 {
                        T::lemma_transitive(right@[i], top, item);
                    }
                }
            }
            reversed.push(item);
            assert(reversed@ =~= v1.push(item));
        } else {
            let item: T = right.pop().unwrap();
            proof {
                assert(r1 =~= right@.push(item));
                if l1.len() > 0 {
                    T::lemma_total(l1[l1.len() - 1], item);
                }
                assert forall|i: int| 0 <= i < left@.len() implies (#[trigger] left@[i]).leq(
                    item,
                ) by {
                    let top = left@[left@.len() - 1];
                    if i < left@.len() - 1 {
                        T::lemma_transitive(left@[i], top, item);
                    }
                }
            }
            reversed.push(item);
            assert(reversed@ =~= v1.push(item));
        }
    }
    assert(left@ =~= Seq::<T>::empty());
    assert(right@ =~= Seq::<T>::empty());
    let ghost all = reversed@;
    let mut out: Vec<T> = Vec::new();
    while reversed.len() > 0
        invariant
            reversed@.len() + out@.len() == all.len(),
            reversed@ =~= all.subrange(0, reversed@.len() as int),
            forall|i: int, j: int|
                0 <= i < j < all.len() ==> (#[trigger] all[j]).leq(#[trigger] all[i]),
            forall|i: int|
                0 <= i < out@.len() ==> #[trigger] out@[i] == all[all.len() - 1 - i],
            reversed@.to_multiset().add(out@.to_multiset()) =~= all.to_multiset(),
        decreases reversed@.len(),
    {
        broadcast use vstd::seq_lib::group_to_multiset_ensures;

        let ghost v1 = reversed@;
        let item: T = reversed.pop().unwrap();
        assert(v1 =~= reversed@.push(item));
        out.push(item);
    }
    proof {
        assert(reversed@ =~= Seq::<T>::empty());
        vstd::seq_lib::lemma_multiset_commutative(l0, r0);
        assert forall|i: int, j: int| 0 <= i < j < out@.len() implies (#[trigger] out@[i]).leq(
            #[trigger] out@[j],
        ) by {
            assert(out@[i] == all[all.len() - 1 - i]);
            assert(out@[j] == all[all.len() - 1 - j]);
        }
        assert(out@.to_multiset() =~= l0.to_multiset().add(r0.to_multiset()));
    }
    out
}

/// Sorts ascending.
pub fn sorted<T: SortKey>(items: Vec<T>) -> (out: Vec<T>)
    ensures
        is_sorted(out@),
        is_permutation(out@, items@),
    decreases items@.len(),
{
    let ghost all = items@;
    let mut items = items;
    let n: usize = items.len();
    if n < 2 {
        return items;
    }
    let right: Vec<T> = items.split_off(n / 2);
    proof {
        assert(items@ + right@ =~= all);
        vstd::seq_lib::lemma_multiset_commutative(items@, right@);
    }
    let ghost l = items@;
    let ghost r = right@;
    let left: Vec<T> = sorted(items);
    let right: Vec<T> = sorted(right);
    proof {
        vstd::seq_lib::lemma_multiset_commutative(left@, right@);
        lemma_permutation(left@, l);
        lemma_permutation(right@, r);
    }
    merge(left, right)
}

/// Strictly ascending names: sorted, and none twice.
pub open spec fn strictly_ascending_names(s: Seq<String>) -> bool {
    forall|i: int, j: int| 0 <= i < j < s.len() ==> text_before(#[trigger] s[i]@, #[trigger] s[j]@)
}

pub open spec fn names_of(s: Seq<String>) -> Set<Seq<char>> {
    Set::new(|n: Seq<char>| exists|i: int| 0 <= i < s.len() && #[trigger] s[i]@ == n)
}

/// One more name enlarges the set by that name.
pub proof fn lemma_names_push(s: Seq<String>, name: String)
    ensures
        names_of(s.push(name)) == names_of(s).insert(name@),
{
    let longer = s.push(name);
    assert forall|n: Seq<char>|
        names_of(longer).contains(n) <==> names_of(s).insert(name@).contains(n) by {
        if names_of(longer).contains(n) {
            let i = choose|i: int| 0 <= i < longer.len() && #[trigger] longer[i]@ == n;
            if i < s.len() {
                assert(s[i]@ == n);
            }
        }
        if names_of(s).contains(n) {
            let i = choose|i: int| 0 <= i < s.len() && #[trigger] s[i]@ == n;
            assert(longer[i]@ == n);
        }
        assert(longer[s.len() as int]@ == name@);
    }
    assert(names_of(longer) =~= names_of(s).insert(name@));
}

/// A reordering names the same things.
pub proof fn lemma_names_permutation(a: Seq<String>, b: Seq<String>)
    requires
        is_permutation(a, b),
    ensures
        names_of(a) == names_of(b),
{
    lemma_permutation(a, b);
    assert forall|n: Seq<char>| names_of(a).contains(n) <==> names_of(b).contains(n) by {
        if names_of(a).contains(n) {
            let i = choose|i: int| 0 <= i < a.len() && #[trigger] a[i]@ == n;
            assert(a.contains(a[i]));
            let k = choose|k: int| 0 <= k < b.len() && b[k] == a[i];
            assert(b[k]@ == n);
        }
        if names_of(b).contains(n) {
            let i = choose|i: int| 0 <= i < b.len() && #[trigger] b[i]@ == n;
            assert(b.contains(b[i]));
            let k = choose|k: int| 0 <= k < a.len() && a[k] == b[i];
            assert(a[k]@ == n);
        }
    }
    assert(names_of(a) =~= names_of(b));
}

/// Sorts names and drops repetitions.
pub fn sorted_unique_names(names: Vec<String>) -> (out: Vec<String>)
    ensures
        strictly_ascending_names(out@),
        names_of(out@) == names_of(names@),
{
    let ghost all = names@;
    let ordered: Vec<String> = sorted(names);
    let mut out: Vec<String> = Vec::new();
    let mut i: usize = 0;
    assert(names_of(out@) =~= names_of(ordered@.take(0)));
    while i < ordered.len()
        invariant
            0 <= i <= ordered@.len(),
            is_sorted(ordered@),
            strictly_ascending_names(out@),
            i == 0 ==> out@.len() == 0,
            i > 0 ==> out@.len() > 0 && out@[out@.len() - 1]@ == ordered@[i - 1]@,
            names_of(out@) == names_of(ordered@.take(i as int)),
        decreases ordered@.len() - i,
    {
        let repeated: bool = out.len() > 0 && crate::text::same_text(
            out[out.len() - 1].as_str(),
            ordered[i].as_str(),
        );
        proof {
            lemma_names_push(ordered@.take(i as int), ordered@[i as int]);
            assert(ordered@.take(i + 1) =~= ordered@.take(i as int).push(ordered@[i as int]));
        }
        if repeated {
            assert(names_of(out@).contains(out@[out@.len() - 1]@));
            assert(names_of(out@).insert(ordered@[i as int]@) =~= names_of(out@));
        } else {
            let ghost before = out@;
            let item: String = ordered[i].clone();
            proof {
                lemma_names_push(before, item);
                assert forall|a: int| 0 <= a < before.len() implies text_before(
                    #[trigger] before[a]@,
                    item@,
                ) by {
                    let top = before[before.len() - 1];
                    assert(top@ == ordered@[i - 1]@);
                    assert(ordered@[i - 1].leq(ordered@[i as int]));
                    lemma_text_before_total(top@, item@);
                    if a < before.len() - 1 {
                        lemma_text_before_transitive(before[a]@, top@, item@);
                    }
                }
            }
            out.push(item);
        }
        i = i + 1;
    }
    proof {
        assert(ordered@.take(i as int) =~= ordered@);
        lemma_names_permutation(ordered@, all);
    }
    out
}

/// Strictly ascending identities: sorted, and none twice.
pub open spec fn ascending_ids(s: Seq<i64>) -> bool {
    forall|i: int, j: int| 0 <= i < j < s.len() ==> #[trigger] s[i] < #[trigger] s[j]
}

/// Sorts identities and drops repetitions.
pub fn sorted_unique_ids(ids: Vec<i64>) -> (out: Vec<i64>)
    ensures
        ascending_ids(out@),
        forall|x: i64| out@.contains(x) <==> ids@.contains(x),
{
    let ghost all = ids@;
    let ordered: Vec<i64> = sorted(ids);
    let mut out: Vec<i64> = Vec::new();
    let mut i: usize = 0;
    while i < ordered.len()
        invariant
            0 <= i <= ordered@.len(),
            is_sorted(ordered@),
            ascending_ids(out@),
            i > 0 ==> out@.len() > 0 && out@[out@.len() - 1] == ordered@[i - 1],
            i == 0 ==> out@.len() == 0,
            forall|k: int| 0 <= k < i ==> out@.contains(#[trigger] ordered@[k]),
            forall|k: int| 0 <= k < out@.len() ==> ordered@.contains(#[trigger] out@[k]),
        decreases ordered@.len() - i,
    {
        let repeated: bool = out.len() > 0 && out[out.len() - 1] == ordered[i];
        if !repeated {
            let ghost before = out@;
            out.push(ordered[i]);
            proof {
                if i > 0 {
                    assert(ordered@[i - 1].leq(ordered@[i as int]));
                }
                assert(ordered@.contains(ordered@[i as int]));
                assert(out@[before.len() as int] == ordered@[i as int]);
                assert forall|k: int| 0 <= k < i + 1 implies out@.contains(
                    #[trigger] ordered@[k],
                ) by {
                    if k < i {
                        assert(before.contains(ordered@[k]));
                        let m = choose|m: int| 0 <= m < before.len() && before[m] == ordered@[k];
                        assert(out@[m] == ordered@[k]);
                    }
                }
            }
        }
        i = i + 1;
    }
    proof {
        lemma_permutation(ordered@, all);
        assert forall|x: i64| out@.contains(x) <==> all.contains(x) by {
            if out@.contains(x) {
                let k = choose|k: int| 0 <= k < out@.len() && out@[k] == x;
                assert(ordered@.contains(out@[k]));
            }
            if all.contains(x) {
                assert(ordered@.contains(x));
                let k = choose|k: int| 0 <= k < ordered@.len() && ordered@[k] == x;
                assert(out@.contains(ordered@[k]));
            }
        }
    }
    out
}

/// A key and where it came from.
#[derive(Debug)]
struct Placed<T> {
    key: T,
    at: usize,
}

impl<T: SortKey> SortKey for Placed<T> {
    closed spec fn leq(self, other: Self) -> bool {
        self.key.leq(other.key)
    }

    proof fn lemma_total(a: Self, b: Self) {
        T::lemma_total(a.key, b.key);
    }

    proof fn lemma_transitive(a: Self, b: Self, c: Self) {
        T::lemma_transitive(a.key, b.key, c.key);
    }

    fn is_leq(&self, other: &Self) -> (r: bool) {
        self.key.is_leq(&other.key)
    }
}

pub open spec fn lists(order: Seq<usize>, i: int) -> bool {
    exists|a: int| 0 <= a < order.len() && #[trigger] order[a] == i
}

/// Every position once, keys ascending.
pub open spec fn is_order<T: SortKey>(keys: Seq<T>, order: Seq<usize>) -> bool {
    &&& order.len() == keys.len()
    &&& forall|a: int| 0 <= a < order.len() ==> (#[trigger] order[a]) < keys.len()
    &&& forall|a: int, b: int|
        0 <= a < b < order.len() ==> #[trigger] order[a] != #[trigger] order[b]
            && keys[order[a] as int].leq(keys[order[b] as int])
    &&& forall|i: int| 0 <= i < keys.len() ==> #[trigger] lists(order, i)
}

/// Positions of the keys, in the order of the keys.
pub fn order_of<T: SortKey>(keys: Vec<T>) -> (order: Vec<usize>)
    ensures
        is_order(keys@, order@),
{
    let ghost all = keys@;
    let mut keys: Vec<T> = keys;
    let mut placed: Vec<Placed<T>> = Vec::new();
    while keys.len() > 0
        invariant
            keys@ == all.take(keys@.len() as int),
            keys@.len() <= all.len(),
            placed@.len() + keys@.len() == all.len(),
            forall|k: int|
                0 <= k < placed@.len() ==> (#[trigger] placed@[k]).at == all.len() - 1 - k
                    && placed@[k].key == all[all.len() - 1 - k],
        decreases keys@.len(),
    {
        let key: T = keys.pop().unwrap();
        let at: usize = keys.len();
        placed.push(Placed { key, at });
        assert(keys@ =~= all.take(keys@.len() as int));
    }
    let ghost raw = placed@;
    let ordered: Vec<Placed<T>> = sorted(placed);
    proof {
        lemma_permutation(ordered@, raw);
        assert(raw.no_duplicates()) by {
            assert forall|a: int, b: int| 0 <= a < b < raw.len() implies raw[a] != raw[b] by {
                assert(raw[a].at != raw[b].at);
            }
        }
        lemma_permutation(raw, ordered@);
    }
    let mut order: Vec<usize> = Vec::new();
    let mut k: usize = 0;
    while k < ordered.len()
        invariant
            0 <= k <= ordered@.len(),
            order@.len() == k,
            forall|m: int| 0 <= m < k ==> #[trigger] order@[m] == ordered@[m].at,
        decreases ordered@.len() - k,
    {
        order.push(ordered[k].at);
        k = k + 1;
    }
    proof {
        assert forall|a: int| 0 <= a < order@.len() implies (#[trigger] order@[a]) < all.len()
            && ordered@[a].key == all[order@[a] as int] by {
            assert(ordered@.contains(ordered@[a]));
            assert(raw.contains(ordered@[a]));
            let m = choose|m: int| 0 <= m < raw.len() && raw[m] == ordered@[a];
            assert(raw[m].at == all.len() - 1 - m);
        }
        assert forall|a: int, b: int| 0 <= a < b < order@.len() implies #[trigger] order@[a]
            != #[trigger] order@[b] && all[order@[a] as int].leq(all[order@[b] as int]) by {
            assert(ordered@[a].leq(ordered@[b]));
            assert(ordered@[a] != ordered@[b]);
        }
        assert forall|i: int| 0 <= i < all.len() implies #[trigger] lists(order@, i) by {
            let m = all.len() - 1 - i;
            assert(raw.contains(raw[m]));
            assert(ordered@.contains(raw[m]));
            let a = choose|a: int| 0 <= a < ordered@.len() && ordered@[a] == raw[m];
            assert(order@[a] == i);
        }
    }
    order
}

} // verus!
