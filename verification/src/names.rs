//! Maps keyed by name.
//!
//! `ahash` supplies the index from names to positions; the entries themselves
//! stand in a list, so that they can be walked in a known order.
use ahash::AHashMap;
use ahash::RandomState;
use vstd::prelude::*;

verus! {

/// The hasher state of `ahash` collections.
#[verifier::external_type_specification]
#[verifier::external_body]
pub struct ExRandomState(RandomState);

/// The hash map of `ahash`.
#[verifier::external_type_specification]
#[verifier::external_body]
#[verifier::reject_recursive_types(K)]
#[verifier::reject_recursive_types(V)]
#[verifier::reject_recursive_types(S)]
pub struct ExAHashMap<K, V, S>(AHashMap<K, V, S>);

/// What an index of names holds.
pub uninterp spec fn name_positions(index: AHashMap<String, usize>) -> Map<Seq<char>, usize>;

/// `AHashMap::new`: an empty map.
#[verifier::external_body]
pub(crate) fn name_index() -> (index: AHashMap<String, usize>)
    ensures
        name_positions(index).dom() == Set::<Seq<char>>::empty(),
{
    AHashMap::new()
}

/// `AHashMap::get`: the value of the key, where it is bound.
#[verifier::external_body]
pub(crate) fn name_index_get(index: &AHashMap<String, usize>, name: &str) -> (at: Option<usize>)
    ensures
        match at {
            Some(i) => name_positions(*index).dom().contains(name@) && name_positions(
                *index,
            )[name@] == i,
            None => !name_positions(*index).dom().contains(name@),
        },
{
    index.get(name).copied()
}

/// `AHashMap::insert`: binds the key, replacing an earlier binding.
#[verifier::external_body]
pub(crate) fn name_index_insert(index: &mut AHashMap<String, usize>, name: String, at: usize)
    ensures
        name_positions(*final(index)) == name_positions(*old(index)).insert(name@, at),
{
    index.insert(name, at);
}

/// `AHashMap::remove`: unbinds the key.
#[verifier::external_body]
pub(crate) fn name_index_remove(index: &mut AHashMap<String, usize>, name: &str)
    ensures
        name_positions(*final(index)) == name_positions(*old(index)).remove(name@),
{
    index.remove(name);
}

/// An association of names with values. No name occurs twice.
#[derive(Debug)]
pub struct NameMap<T> {
    entries: Vec<(String, T)>,
    index: AHashMap<String, usize>,
}

/// No name occurs twice.
pub open spec fn distinct_names<T>(entries: Seq<(String, T)>) -> bool {
    forall|i: int, j: int|
        0 <= i < j < entries.len() ==> (#[trigger] entries[i]).0@ != (#[trigger] entries[j]).0@
}

pub open spec fn named_at<T>(entries: Seq<(String, T)>, name: Seq<char>, i: int) -> bool {
    0 <= i < entries.len() && entries[i].0@ == name
}

/// The association that a list of entries denotes.
pub open spec fn association<T>(entries: Seq<(String, T)>) -> Map<Seq<char>, T> {
    Map::new(
        |name: Seq<char>| exists|i: int| named_at(entries, name, i),
        |name: Seq<char>| entries[choose|i: int| named_at(entries, name, i)].1,
    )
}

/// Each entry is one binding of the association.
pub proof fn lemma_entry<T>(entries: Seq<(String, T)>, i: int)
    requires
        distinct_names(entries),
        0 <= i < entries.len(),
    ensures
        association(entries).dom().contains(entries[i].0@),
        association(entries)[entries[i].0@] == entries[i].1,
{
    let name = entries[i].0@;
    assert(named_at(entries, name, i));
    let k = choose|k: int| named_at(entries, name, k);
    assert(named_at(entries, name, k));
    if k < i {
        assert(entries[k].0@ != entries[i].0@);
    }
    if i < k {
        assert(entries[i].0@ != entries[k].0@);
    }
}

/// A map that holds the entries and nothing else is their association.
proof fn lemma_association<T>(entries: Seq<(String, T)>, map: Map<Seq<char>, T>)
    requires
        distinct_names(entries),
        forall|i: int|
            0 <= i < entries.len() ==> map.dom().contains((#[trigger] entries[i]).0@)
                && map[entries[i].0@] == entries[i].1,
        forall|name: Seq<char>|
            map.dom().contains(name) ==> exists|i: int| #[trigger] named_at(entries, name, i),
    ensures
        association(entries) == map,
{
    let a = association(entries);
    assert forall|name: Seq<char>| a.dom().contains(name) <==> map.dom().contains(name) by {
        if a.dom().contains(name) {
            let i = choose|i: int| named_at(entries, name, i);
            assert(map.dom().contains(entries[i].0@));
        }
    }
    assert forall|name: Seq<char>| a.dom().contains(name) implies a[name] == map[name] by {
        let i = choose|i: int| named_at(entries, name, i);
        lemma_entry(entries, i);
        assert(map[entries[i].0@] == entries[i].1);
    }
    assert(a =~= map);
}

/// As many names are bound as there are entries.
pub proof fn lemma_entry_count<T>(entries: Seq<(String, T)>)
    requires
        distinct_names(entries),
    ensures
        association(entries).dom().finite(),
        association(entries).dom().len() == entries.len(),
    decreases entries.len(),
{
    let dom = association(entries).dom();
    if entries.len() == 0 {
        assert forall|name: Seq<char>| !dom.contains(name) by {
            if dom.contains(name) {
                let i = choose|i: int| named_at(entries, name, i);
                assert(named_at(entries, name, i));
            }
        }
        assert(dom =~= Set::<Seq<char>>::empty());
    } else {
        let shorter = entries.drop_last();
        let last = entries.last().0@;
        assert forall|i: int, j: int| 0 <= i < j < shorter.len() implies (
        #[trigger] shorter[i]).0@ != (#[trigger] shorter[j]).0@ by {
            assert(entries[i].0@ != entries[j].0@);
        }
        lemma_entry_count(shorter);
        let rest = association(shorter).dom();
        assert forall|name: Seq<char>| dom.contains(name) <==> rest.insert(last).contains(name) by {
            if dom.contains(name) {
                let i = choose|i: int| named_at(entries, name, i);
                if i < shorter.len() {
                    assert(named_at(shorter, name, i));
                }
            }
            if rest.contains(name) {
                let i = choose|i: int| named_at(shorter, name, i);
                assert(named_at(entries, name, i));
            }
            assert(named_at(entries, last, entries.len() - 1));
        }
        assert(dom =~= rest.insert(last));
        if rest.contains(last) {
            let i = choose|i: int| named_at(shorter, last, i);
            assert(entries[i].0@ != entries[entries.len() - 1].0@);
        }
    }
}

impl<T> View for NameMap<T> {
    type V = Map<Seq<char>, T>;

    closed spec fn view(&self) -> Map<Seq<char>, T> {
        association(self.entries@)
    }
}

/// An index that leads each name to its entry, and knows no other name.
pub open spec fn leads_to<T>(positions: Map<Seq<char>, usize>, entries: Seq<(String, T)>) -> bool {
    &&& forall|i: int|
        0 <= i < entries.len() ==> positions.dom().contains((#[trigger] entries[i]).0@)
            && positions[entries[i].0@] == i
    &&& forall|name: Seq<char>| #[trigger]
        positions.dom().contains(name) ==> named_at(entries, name, positions[name] as int)
}

impl<T> NameMap<T> {
    /// The entries in their order.
    pub closed spec fn listed(self) -> Seq<(String, T)> {
        self.entries@
    }

    pub closed spec fn is_indexed(self) -> bool {
        leads_to(name_positions(self.index), self.entries@)
    }

    /// No name occurs twice, and the index agrees with the entries.
    pub open spec fn wf(self) -> bool {
        &&& distinct_names(self.listed())
        &&& self@ == association(self.listed())
        &&& self.is_indexed()
    }

    pub fn new() -> (r: Self)
        ensures
            r.wf(),
            r@ == Map::<Seq<char>, T>::empty(),
            r.listed() == Seq::<(String, T)>::empty(),
    {
        let r = NameMap { entries: Vec::new(), index: name_index() };
        assert(r@ =~= Map::<Seq<char>, T>::empty()) by {
            assert forall|name: Seq<char>| !r@.dom().contains(name) by {
                if r@.dom().contains(name) {
                    let i = choose|i: int| named_at(r.entries@, name, i);
                    assert(named_at(r.entries@, name, i));
                }
            }
        }
        r
    }

    /// How many names are bound.
    pub fn len(&self) -> (n: usize)
        ensures
            n == self.listed().len(),
            self.wf() ==> n == self@.dom().len(),
    {
        proof {
            if self.wf() {
                lemma_entry_count(self.entries@);
            }
        }
        self.entries.len()
    }

    /// The name of one entry.
    pub fn name_at(&self, i: usize) -> (name: &String)
        requires
            i < self.listed().len(),
        ensures
            *name == self.listed()[i as int].0,
    {
        &self.entries[i].0
    }

    /// The value of one entry.
    pub fn value_at(&self, i: usize) -> (value: &T)
        requires
            i < self.listed().len(),
        ensures
            *value == self.listed()[i as int].1,
    {
        &self.entries[i].1
    }

    fn position(&self, name: &str) -> (r: Option<usize>)
        requires
            self.wf(),
        ensures
            match r {
                Some(i) => named_at(self.listed(), name@, i as int),
                None => !self@.dom().contains(name@),
            },
    {
        let r: Option<usize> = name_index_get(&self.index, name);
        proof {
            if r is None && self@.dom().contains(name@) {
                let i = choose|i: int| named_at(self.entries@, name@, i);
                assert(self.entries@[i].0@ == name@);
            }
        }
        r
    }

    pub fn contains_key(&self, name: &str) -> (r: bool)
        requires
            self.wf(),
        ensures
            r == self@.dom().contains(name@),
    {
        match self.position(name) {
            Some(i) => {
                proof {
                    lemma_entry(self.entries@, i as int);
                }
                true
            },
            None => false,
        }
    }

    pub fn get(&self, name: &str) -> (r: Option<&T>)
        requires
            self.wf(),
        ensures
            match r {
                Some(value) => self@.dom().contains(name@) && self@[name@] == *value,
                None => !self@.dom().contains(name@),
            },
    {
        match self.position(name) {
            Some(i) => {
                proof {
                    lemma_entry(self.entries@, i as int);
                }
                Some(&self.entries[i].1)
            },
            None => None,
        }
    }

    /// Binds a name and hands back what it was bound to.
    pub fn insert(&mut self, name: String, value: T) -> (replaced: Option<T>)
        requires
            old(self).wf(),
        ensures
            final(self).wf(),
            final(self)@ == old(self)@.insert(name@, value),
            replaced == if old(self)@.dom().contains(name@) {
                Some(old(self)@[name@])
            } else {
                None
            },
    {
        let ghost before = self.entries@;
        let ghost after = association(before).insert(name@, value);
        let ghost key = name;
        match self.position(name.as_str()) {
            Some(i) => {
                self.entries.push((name, value));
                let (_, earlier): (String, T) = self.entries.swap_remove(i);
                proof {
                    lemma_entry(before, i as int);
                    let now = self.entries@;
                    assert(now =~= before.update(i as int, (key, value)));
                    assert forall|a: int, b: int| 0 <= a < b < now.len() implies (
                    #[trigger] now[a]).0@ != (#[trigger] now[b]).0@ by {
                        assert(before[a].0@ != before[b].0@);
                    }
                    assert forall|a: int| 0 <= a < now.len() implies after.dom().contains(
                        (#[trigger] now[a]).0@,
                    ) && after[now[a].0@] == now[a].1 by {
                        lemma_entry(before, a);
                        if a < i {
                            assert(before[a].0@ != before[i as int].0@);
                        }
                        if a > i {
                            assert(before[i as int].0@ != before[a].0@);
                        }
                    }
                    assert forall|n: Seq<char>| after.dom().contains(n) implies exists|a: int|
                        #[trigger] named_at(now, n, a) by {
                        if n == key@ {
                            assert(named_at(now, n, i as int));
                        } else {
                            let a = choose|a: int| named_at(before, n, a);
                            assert(named_at(now, n, a));
                        }
                    }
                    lemma_association(now, after);
                    let positions = name_positions(self.index);
                    assert forall|a: int| 0 <= a < now.len() implies positions.dom().contains(
                        (#[trigger] now[a]).0@,
                    ) && positions[now[a].0@] == a by {
                        assert(now[a].0@ == before[a].0@);
                    }
                    assert forall|n: Seq<char>| #[trigger]
                        positions.dom().contains(n) implies named_at(
                        now,
                        n,
                        positions[n] as int,
                    ) by {
                        assert(named_at(before, n, positions[n] as int));
                    }
                }
                Some(earlier)
            },
            None => {
                let at: usize = self.entries.len();
                name_index_insert(&mut self.index, name.clone(), at);
                self.entries.push((name, value));
                proof {
                    let now = self.entries@;
                    assert forall|a: int, b: int| 0 <= a < b < now.len() implies (
                    #[trigger] now[a]).0@ != (#[trigger] now[b]).0@ by {
                        if b == before.len() {
                            assert(named_at(before, now[a].0@, a));
                        }
                    }
                    assert forall|a: int| 0 <= a < now.len() implies after.dom().contains(
                        (#[trigger] now[a]).0@,
                    ) && after[now[a].0@] == now[a].1 by {
                        if a < before.len() {
                            lemma_entry(before, a);
                        }
                    }
                    assert forall|n: Seq<char>| after.dom().contains(n) implies exists|a: int|
                        #[trigger] named_at(now, n, a) by {
                        if n == key@ {
                            assert(named_at(now, n, before.len() as int));
                        } else {
                            let a = choose|a: int| named_at(before, n, a);
                            assert(named_at(now, n, a));
                        }
                    }
                    lemma_association(now, after);
                    let positions = name_positions(self.index);
                    assert forall|a: int| 0 <= a < now.len() implies positions.dom().contains(
                        (#[trigger] now[a]).0@,
                    ) && positions[now[a].0@] == a by {
                        if a < before.len() {
                            assert(now[a] == before[a]);
                            assert(before[a].0@ != key@) by {
                                assert(named_at(before, before[a].0@, a));
                            }
                        }
                    }
                    assert forall|n: Seq<char>| #[trigger]
                        positions.dom().contains(n) implies named_at(
                        now,
                        n,
                        positions[n] as int,
                    ) by {
                        if n != key@ {
                            assert(named_at(before, n, positions[n] as int));
                        }
                    }
                }
                None
            },
        }
    }

    /// Unbinds a name and hands back what it was bound to.
    pub fn remove(&mut self, name: &str) -> (removed: Option<T>)
        requires
            old(self).wf(),
        ensures
            final(self).wf(),
            final(self)@ == old(self)@.remove(name@),
            removed == if old(self)@.dom().contains(name@) {
                Some(old(self)@[name@])
            } else {
                None
            },
    {
        let ghost before = self.entries@;
        let ghost after = association(before).remove(name@);
        match self.position(name) {
            Some(i) => {
                let ghost earlier_positions = name_positions(self.index);
                name_index_remove(&mut self.index, name);
                let (_, earlier): (String, T) = self.entries.swap_remove(i);
                let ghost now = self.entries@;
                let ghost last = before.len() - 1;
                if i < self.entries.len() {
                    let moved: String = self.entries[i].0.clone();
                    name_index_insert(&mut self.index, moved, i);
                }
                proof {
                    lemma_entry(before, i as int);
                    // Where an entry of the new list stood before.
                    let origin = |a: int| if a == i { last } else { a };
                    assert forall|a: int| 0 <= a < now.len() implies #[trigger] now[a]
                        == before[origin(a)] && origin(a) != i by {}
                    assert forall|a: int, b: int| 0 <= a < b < now.len() implies (
                    #[trigger] now[a]).0@ != (#[trigger] now[b]).0@ by {
                        let x = origin(a);
                        let y = origin(b);
                        if x < y {
                            assert(before[x].0@ != before[y].0@);
                        } else {
                            assert(before[y].0@ != before[x].0@);
                        }
                    }
                    assert forall|a: int| 0 <= a < now.len() implies (#[trigger] now[a]).0@
                        != name@ by {
                        let x = origin(a);
                        if x < i {
                            assert(before[x].0@ != before[i as int].0@);
                        } else {
                            assert(before[i as int].0@ != before[x].0@);
                        }
                    }
                    assert forall|a: int| 0 <= a < now.len() implies after.dom().contains(
                        (#[trigger] now[a]).0@,
                    ) && after[now[a].0@] == now[a].1 by {
                        lemma_entry(before, origin(a));
                    }
                    assert forall|n: Seq<char>| after.dom().contains(n) implies exists|a: int|
                        #[trigger] named_at(now, n, a) by {
                        let x = choose|x: int| named_at(before, n, x);
                        let a = if x == last {
                            i as int
                        } else {
                            x
                        };
                        assert(now[a] == before[origin(a)]);
                        assert(named_at(now, n, a));
                    }
                    lemma_association(now, after);
                    let positions = name_positions(self.index);
                    assert forall|a: int| 0 <= a < now.len() implies positions.dom().contains(
                        (#[trigger] now[a]).0@,
                    ) && positions[now[a].0@] == a by {
                        let x = origin(a);
                        assert(earlier_positions[before[x].0@] == x);
                        if a != i && i < now.len() {
                            assert(now[a].0@ != now[i as int].0@);
                        }
                    }
                    assert forall|n: Seq<char>| #[trigger]
                        positions.dom().contains(n) implies named_at(
                        now,
                        n,
                        positions[n] as int,
                    ) by {
                        if i < now.len() && n == now[i as int].0@ {
                        } else {
                            assert(named_at(before, n, earlier_positions[n] as int));
                            let x = earlier_positions[n] as int;
                            assert(x != i);
                            if x == last {
                                assert(now[i as int] == before[last]);
                            }
                            assert(now[x] == before[origin(x)]);
                        }
                    }
                }
                Some(earlier)
            },
            None => {
                assert(self@.remove(name@) =~= self@);
                None
            },
        }
    }
}

} // verus!
