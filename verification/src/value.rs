//! Stored values as constraint checks read them.
use vstd::prelude::*;

verus! {

/// One value of a row. Equal values carry equal keys; what else a value is
/// does not matter to a constraint.
#[derive(Debug)]
pub struct Datum {
    pub key: u64,
    pub is_null: bool,
    /// The value as messages show it.
    pub text: String,
    /// The number, where the value is an integer.
    pub integer: Option<i64>,
}

/// A row, by column position.
pub type Row = Vec<Datum>;

/// The value of a column that is there and not null.
pub open spec fn present(row: Seq<Datum>, column: int) -> bool {
    0 <= column < row.len() && !row[column].is_null
}

/// Whether two rows agree on a column.
pub open spec fn same_value(a: Seq<Datum>, b: Seq<Datum>, column: int) -> bool {
    if 0 <= column < a.len() && 0 <= column < b.len() {
        a[column].key == b[column].key && a[column].is_null == b[column].is_null
    } else {
        !(0 <= column < a.len()) && !(0 <= column < b.len())
    }
}

/// Whether two rows agree on a column.
pub fn is_same_value(a: &Row, b: &Row, column: usize) -> (r: bool)
    ensures
        r == same_value(a@, b@, column as int),
{
    if column < a.len() && column < b.len() {
        a[column].key == b[column].key && a[column].is_null == b[column].is_null
    } else {
        column >= a.len() && column >= b.len()
    }
}

pub fn holds_key(keys: &Vec<u64>, key: u64) -> (r: bool)
    ensures
        r == keys@.contains(key),
{
    let mut i: usize = 0;
    while i < keys.len()
        invariant
            0 <= i <= keys@.len(),
            forall|k: int| 0 <= k < i ==> keys@[k] != key,
        decreases keys@.len() - i,
    {
        if keys[i] == key {
            assert(keys@[i as int] == key);
            return true;
        }
        i = i + 1;
    }
    false
}

} // verus!
