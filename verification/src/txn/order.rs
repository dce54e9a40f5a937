//! Tables in the order of their names.
use crate::sort::lemma_permutation;
use crate::sort::sorted;
use crate::sort::SortKey;
use crate::text::is_text_before;
use crate::text::lemma_text_before_total;
use crate::text::lemma_text_before_transitive;
use crate::text::text_before;
use vstd::prelude::*;

verus! {

/// A name and where it came from.
#[derive(Debug)]
struct NamedPosition {
    name: String,
    at: usize,
}

impl SortKey for NamedPosition {
    closed spec fn leq(self, other: Self) -> bool {
        !text_before(other.name@, self.name@)
    }

    proof fn lemma_total(a: Self, b: Self) {
        lemma_text_before_total(a.name@, b.name@);
    }

    proof fn lemma_transitive(a: Self, b: Self, c: Self) {
        lemma_text_before_total(a.name@, b.name@);
        lemma_text_before_total(b.name@, c.name@);
        lemma_text_before_total(a.name@, c.name@);
        if text_before(c.name@, a.name@) {
            if a.name@ == b.name@ {
            } else {
                lemma_text_before_transitive(c.name@, a.name@, b.name@);
            }
        }
    }

    fn is_leq(&self, other: &Self) -> (r: bool) {
        !is_text_before(other.name.as_str(), self.name.as_str())
    }
}

/// No name occurs twice.
pub open spec fn all_distinct(names: Seq<Seq<char>>) -> bool {
    forall|i: int, j: int|
        0 <= i < j < names.len() ==> #[trigger] names[i] != #[trigger] names[j]
}

/// Every position once, names strictly ascending.
pub open spec fn is_name_order(names: Seq<Seq<char>>, order: Seq<usize>) -> bool {
    &&& forall|a: int| 0 <= a < order.len() ==> (#[trigger] order[a]) < names.len()
    &&& forall|a: int, b: int|
        0 <= a < b < order.len() ==> text_before(
            names[#[trigger] order[a] as int],
            names[#[trigger] order[b] as int],
        )
    &&& forall|i: int|
        0 <= i < names.len() ==> #[trigger] lists_position(order, i)
}

pub open spec fn lists_position(order: Seq<usize>, i: int) -> bool {
    exists|a: int| 0 <= a < order.len() && #[trigger] order[a] == i
}

pub open spec fn string_views(names: Seq<String>) -> Seq<Seq<char>> {
    names.map_values(|n: String| n@)
}

/// Positions in the order of their names.
pub fn order_by_name(names: &Vec<String>) -> (order: Vec<usize>)
    requires
        all_distinct(string_views(names@)),
    ensures
        is_name_order(string_views(names@), order@),
        order@.len() == names@.len(),
{
    let ghost all = string_views(names@);
    let mut tagged: Vec<NamedPosition> = Vec::new();
    let mut i: usize = 0;
    while i < names.len()
        invariant
            0 <= i <= names@.len(),
            tagged@.len() == i,
            forall|k: int|
                0 <= k < i ==> (#[trigger] tagged@[k]).at == k && tagged@[k].name@ == names@[k]@,
        decreases names@.len() - i,
    {
        tagged.push(NamedPosition { name: names[i].clone(), at: i });
        i = i + 1;
    }
    let ghost raw = tagged@;
    let ordered: Vec<NamedPosition> = sorted(tagged);
    proof {
        lemma_permutation(ordered@, raw);
        assert(raw.no_duplicates()) by {
            assert forall|a: int, b: int| 0 <= a < b < raw.len() implies raw[a] != raw[b] by {
                assert(raw[a].at != raw[b].at);
            }
        }
        lemma_permutation(raw, ordered@);
        assert(ordered@.no_duplicates());
    }
    let mut order: Vec<usize> = Vec::new();
    let mut k: usize = 0;
    while k < ordered.len()
        invariant
            0 <= k <= ordered@.len(),
            order@.len() == k,
            forall|m: int| 0 <= m < k ==> #[trigger] order@[m] == ordered@[m].at,
        decreases ordered@.len() - k,
    {
        order.push(ordered[k].at);
        k = k + 1;
    }
    proof {
        assert forall|a: int| 0 <= a < order@.len() implies (#[trigger] order@[a]) < all.len()
            && ordered@[a].name@ == all[order@[a] as int] by {
            assert(ordered@.contains(ordered@[a]));
            let m = choose|m: int| 0 <= m < raw.len() && raw[m] == ordered@[a];
            assert(raw[m].at == m);
        }
        assert forall|a: int, b: int| 0 <= a < b < order@.len() implies text_before(
            all[#[trigger] order@[a] as int],
            all[#[trigger] order@[b] as int],
        ) by {
            assert(ordered@[a].leq(ordered@[b]));
            assert(order@[a] < all.len() && ordered@[a].name@ == all[order@[a] as int]);
            assert(order@[b] < all.len() && ordered@[b].name@ == all[order@[b] as int]);
            lemma_text_before_total(ordered@[a].name@, ordered@[b].name@);
            if ordered@[a].name@ == ordered@[b].name@ {
                let m = choose|m: int| 0 <= m < raw.len() && raw[m] == ordered@[a];
                let n = choose|n: int| 0 <= n < raw.len() && raw[n] == ordered@[b];
                assert(ordered@.contains(ordered@[a]));
                assert(ordered@.contains(ordered@[b]));
                assert(raw[m].at == m && raw[n].at == n);
                assert(ordered@[a] != ordered@[b]);
                assert(m != n);
                assert(all[m] == all[n]);
            }
        }
        assert forall|i: int| 0 <= i < all.len() implies #[trigger] lists_position(order@, i) by {
            assert(raw.contains(raw[i]));
            let a = choose|a: int| 0 <= a < ordered@.len() && ordered@[a] == raw[i];
            assert(raw[i].at == i);
            assert(order@[a] == i);
        }
    }
    order
}

} // verus!
