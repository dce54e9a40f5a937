//! Short lists of names.
//!
//! `smallvec` supplies the list: the first few names need no allocation of
//! their own.
use crate::text::same_text;
use smallvec::SmallVec;
use vstd::prelude::*;
use vstd::string::StringExecFns;

verus! {

/// The list of `smallvec`, of names.
#[verifier::external_body]
#[derive(Debug)]
pub struct NameList {
    names: SmallVec<[String; 4]>,
}

/// What a list holds, in its order.
pub uninterp spec fn listed_names(list: NameList) -> Seq<Seq<char>>;

/// `SmallVec::new`: an empty list.
#[verifier::external_body]
fn name_list() -> (list: NameList)
    ensures
        listed_names(list) == Seq::<Seq<char>>::empty(),
{
    NameList { names: SmallVec::new() }
}

/// `SmallVec::push`: adds a name behind the others.
#[verifier::external_body]
fn name_list_push(list: &mut NameList, name: String)
    ensures
        listed_names(*final(list)) == listed_names(*old(list)).push(name@),
{
    list.names.push(name);
}

/// `SmallVec::len`.
#[verifier::external_body]
fn name_list_len(list: &NameList) -> (n: usize)
    ensures
        n == listed_names(*list).len(),
{
    list.names.len()
}

/// Indexing of a `SmallVec`, which is that of a slice. An index past the end
/// panics.
#[verifier::external_body]
fn name_list_at(list: &NameList, i: usize) -> (name: &str)
    requires
        i < listed_names(*list).len(),
    ensures
        name@ == listed_names(*list)[i as int],
{
    list.names[i].as_str()
}

impl View for NameList {
    type V = Seq<Seq<char>>;

    open spec fn view(&self) -> Seq<Seq<char>> {
        listed_names(*self)
    }
}

impl NameList {
    pub fn new() -> (r: Self)
        ensures
            r@ == Seq::<Seq<char>>::empty(),
    {
        name_list()
    }

    /// How many names are listed.
    pub fn len(&self) -> (n: usize)
        ensures
            n == self@.len(),
    {
        name_list_len(self)
    }

    /// One of the names.
    pub fn name_at(&self, i: usize) -> (name: &str)
        requires
            i < self@.len(),
        ensures
            name@ == self@[i as int],
    {
        name_list_at(self, i)
    }

    /// Whether a name is listed.
    pub fn contains(&self, name: &str) -> (r: bool)
        ensures
            r == self@.contains(name@),
    {
        let mut i: usize = 0;
        while i < self.len()
            invariant
                0 <= i <= self@.len(),
                forall|k: int| 0 <= k < i ==> #[trigger] self@[k] != name@,
            decreases self@.len() - i,
        {
            if same_text(self.name_at(i), name) {
                assert(self@[i as int] == name@);
                return true;
            }
            i = i + 1;
        }
        false
    }

    /// Adds a name unless it is listed.
    pub fn add_once(&mut self, name: &str)
        ensures
            final(self)@ == if old(self)@.contains(name@) {
                old(self)@
            } else {
                old(self)@.push(name@)
            },
    {
        if !self.contains(name) {
            name_list_push(self, String::from_str(name));
        }
    }
}

} // verus!
