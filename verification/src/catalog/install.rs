//! Installing a recovered catalog as the runtime's only authority.
use crate::error::earlier;
use crate::error::first_refusal;
use crate::error::refusal;
use crate::error::Error;
use crate::error::ErrorView;
use crate::sort::is_permutation;
use crate::sort::is_sorted;
use crate::sort::sorted;
use crate::text::eq_ignore_ascii_case;
use crate::text::same_ignoring_ascii_case;
use crate::text::same_text;
use vstd::prelude::*;
use vstd::string::StringExecFns;

verus! {

/// What the catalog holds under a table's identity.
#[derive(Debug)]
pub struct CatalogEntry {
    pub is_table: bool,
    pub name: String,
}

/// A bound table on its way into the runtime.
#[derive(Debug)]
pub struct RecoveredTable {
    pub name: String,
    pub name_lower: String,
    /// Outcome of the schema's own checks.
    pub schema_check: Result<(), Error>,
    /// Identity, or the text of the fault in it.
    pub table_id: Result<u128, String>,
    pub entry: Option<CatalogEntry>,
    /// Outcome of building the store's indexes.
    pub index_build: Result<(), Error>,
}

pub open spec fn runtime_message(table: Seq<char>, text: Seq<char>) -> ErrorView {
    ErrorView::Internal("runtime table '"@ + table + "' "@ + text)
}

fn runtime_error(table: &str, text: &str) -> (e: Error)
    ensures
        e@ == runtime_message(table@, text@),
{
    Error::Internal {
        message: String::from_str("runtime table '").concat(table).concat("' ").concat(text),
    }
}

pub open spec fn repeats_name(tables: Seq<RecoveredTable>, i: int) -> bool {
    exists|k: int| 0 <= k < i && (#[trigger] tables[k]).name_lower@ == tables[i].name_lower@
}

/// Why a table is refused.
pub open spec fn recovered_refusal(tables: Seq<RecoveredTable>, i: int) -> Option<ErrorView> {
    let t = tables[i];
    if refusal(t.schema_check) is Some {
        refusal(t.schema_check)
    } else {
        match t.table_id {
            Err(text) => Some(
                runtime_message(t.name@, "has invalid catalog identity: "@ + text@),
            ),
            Ok(_) => match t.entry {
                None => Some(runtime_message(t.name@, "is absent from recovered catalog"@)),
                Some(entry) => if !entry.is_table || !same_ignoring_ascii_case(
                    entry.name@,
                    t.name@,
                ) {
                    Some(runtime_message(t.name@, "differs from recovered catalog"@))
                } else if refusal(t.index_build) is Some {
                    refusal(t.index_build)
                } else if repeats_name(tables, i) {
                    Some(ErrorView::Internal("recovered catalog binds duplicate runtime tables"@))
                } else {
                    None
                },
            },
        }
    }
}

pub open spec fn repeats_view(views: Seq<String>, i: int) -> bool {
    exists|k: int| 0 <= k < i && (#[trigger] views[k])@ == views[i]@
}

pub open spec fn view_refusal(views: Seq<String>, i: int) -> Option<ErrorView> {
    if repeats_view(views, i) {
        Some(ErrorView::Internal("recovered catalog binds duplicate runtime views"@))
    } else {
        None
    }
}

pub open spec fn recovered_ids(tables: Seq<RecoveredTable>) -> Seq<u128> {
    tables.map_values(|t: RecoveredTable| t.table_id->Ok_0)
}

fn table_repeats(tables: &Vec<RecoveredTable>, i: usize) -> (r: bool)
    requires
        i < tables@.len(),
    ensures
        r == repeats_name(tables@, i as int),
{
    let mut k: usize = 0;
    while k < i
        invariant
            0 <= k <= i < tables@.len(),
            forall|m: int|
                0 <= m < k ==> (#[trigger] tables@[m]).name_lower@ != tables@[i as int].name_lower@,
        decreases i - k,
    {
        if same_text(tables[k].name_lower.as_str(), tables[i].name_lower.as_str()) {
            assert(tables@[k as int].name_lower@ == tables@[i as int].name_lower@);
            return true;
        }
        k = k + 1;
    }
    false
}

fn view_repeats(views: &Vec<String>, i: usize) -> (r: bool)
    requires
        i < views@.len(),
    ensures
        r == repeats_view(views@, i as int),
{
    let mut k: usize = 0;
    while k < i
        invariant
            0 <= k <= i < views@.len(),
            forall|m: int| 0 <= m < k ==> (#[trigger] views@[m])@ != views@[i as int]@,
        decreases i - k,
    {
        if same_text(views[k].as_str(), views[i].as_str()) {
            assert(views@[k as int]@ == views@[i as int]@);
            return true;
        }
        k = k + 1;
    }
    false
}

fn check_table(tables: &Vec<RecoveredTable>, i: usize) -> (r: Result<u128, Error>)
    requires
        i < tables@.len(),
    ensures
        refusal(r) == recovered_refusal(tables@, i as int),
        r matches Ok(id) ==> tables@[i as int].table_id == Ok::<u128, String>(id),
{
    let table: &RecoveredTable = &tables[i];
    match &table.schema_check {
        Err(e) => {
            return Err(e.duplicate());
        },
        Ok(()) => {},
    }
    let id: u128 = match &table.table_id {
        Ok(id) => *id,
        Err(text) => {
            return Err(
                runtime_error(
                    table.name.as_str(),
                    String::from_str("has invalid catalog identity: ").concat(
                        text.as_str(),
                    ).as_str(),
                ),
            );
        },
    };
    match &table.entry {
        None => {
            return Err(runtime_error(table.name.as_str(), "is absent from recovered catalog"));
        },
        Some(entry) => {
            if !entry.is_table || !eq_ignore_ascii_case(
                entry.name.as_str(),
                table.name.as_str(),
            ) {
                return Err(runtime_error(table.name.as_str(), "differs from recovered catalog"));
            }
        },
    }
    match &table.index_build {
        Err(e) => {
            return Err(e.duplicate());
        },
        Ok(()) => {},
    }
    if table_repeats(tables, i) {
        return Err(Error::internal("recovered catalog binds duplicate runtime tables"));
    }
    Ok(id)
}

/// Judges all bound tables and views; nothing is installed before all pass.
/// Hands out the identities of the tables in order.
pub fn install_recovered_catalog(tables: &Vec<RecoveredTable>, views: &Vec<String>) -> (r: Result<
    Vec<u128>,
    Error,
>)
    ensures
        refusal(r) == earlier(
            first_refusal(0, tables@.len() as int, |i: int| recovered_refusal(tables@, i)),
            first_refusal(0, views@.len() as int, |i: int| view_refusal(views@, i)),
        ),
        r matches Ok(ids) ==> is_sorted(ids@) && is_permutation(ids@, recovered_ids(tables@)),
{
    let ghost n = tables@.len() as int;
    let ghost check = |i: int| recovered_refusal(tables@, i);
    let mut ids: Vec<u128> = Vec::new();
    let mut i: usize = 0;
    while i < tables.len()
        invariant
            0 <= i <= tables@.len(),
            n == tables@.len(),
            check == (|i: int| recovered_refusal(tables@, i)),
            first_refusal(0, n, check) == first_refusal(i as int, n, check),
            ids@ == recovered_ids(tables@).take(i as int),
        decreases tables@.len() - i,
    {
        let checked: Result<u128, Error> = check_table(tables, i);
        assert(check(i as int) == refusal(checked));
        match checked {
            Err(e) => {
                return Err(e);
            },
            Ok(id) => {
                ids.push(id);
            },
        }
        i = i + 1;
        assert(ids@ =~= recovered_ids(tables@).take(i as int));
    }
    assert(ids@ =~= recovered_ids(tables@));
    let ghost m = views@.len() as int;
    let ghost view_check = |i: int| view_refusal(views@, i);
    let mut v: usize = 0;
    while v < views.len()
        invariant
            0 <= v <= views@.len(),
            m == views@.len(),
            n == tables@.len(),
            check == (|i: int| recovered_refusal(tables@, i)),
            first_refusal(0, n, check) is None,
            view_check == (|i: int| view_refusal(views@, i)),
            first_refusal(0, m, view_check) == first_refusal(v as int, m, view_check),
        decreases views@.len() - v,
    {
        if view_repeats(views, v) {
            assert(view_check(v as int) is Some);
            return Err(Error::internal("recovered catalog binds duplicate runtime views"));
        }
        assert(view_check(v as int) is None);
        v = v + 1;
    }
    Ok(sorted(ids))
}

} // verus!
