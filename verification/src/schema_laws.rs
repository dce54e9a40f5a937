//! What renaming, dropping and judging do to a schema.
use crate::error::first_refusal;
use crate::error::lemma_no_refusal;
use crate::schema::column_check;
use crate::schema::derived_pk_name;
use crate::schema::judged;
use crate::schema::key_positions;
use crate::schema::primary_key_positions;
use crate::schema::retargeted_schema;
use crate::schema::stripped_schema;
use crate::schema::ColumnView;
use crate::schema::ConstraintView;
use crate::schema::DataType;
use crate::schema::ForeignKeyView;
use crate::schema::SchemaVerdicts;
use crate::schema::SchemaView;
use crate::text::same_ignoring_ascii_case;
use vstd::prelude::*;

verus! {

/// A constraint refers to this table, in whatever case.
pub open spec fn refers_in_any_case(constraint: ConstraintView, table: Seq<char>) -> bool {
    constraint.kind is ForeignKey && same_ignoring_ascii_case(
        constraint.kind->ForeignKey_referenced_table,
        table,
    )
}

/// Where a table gets another name, what referred to it refers to the new name,
/// in whatever case the old one was written; what referred elsewhere, and all
/// the rest of the schema, is unchanged.
pub proof fn law_references_follow_a_rename(
    schema: SchemaView,
    old_name: Seq<char>,
    new_name: Seq<char>,
    k: int,
    c: int,
)
    ensures
        ({
            let after = retargeted_schema(schema, old_name, new_name);
            &&& after.table_name == schema.table_name
            &&& after.table_name_lower == schema.table_name_lower
            &&& after.catalog_id == schema.catalog_id
            &&& after.columns == schema.columns
            &&& after.table_checks == schema.table_checks
            &&& after.next_constraint_id == schema.next_constraint_id
            &&& after.next_check_ordinal == schema.next_check_ordinal
            &&& after.foreign_keys.len() == schema.foreign_keys.len()
            &&& after.constraints.len() == schema.constraints.len()
            &&& 0 <= k < schema.foreign_keys.len() ==> {
                let was = schema.foreign_keys[k];
                let now = after.foreign_keys[k];
                &&& now.column_index == was.column_index
                &&& now.column_name == was.column_name
                &&& now.referenced_column == was.referenced_column
                &&& now.on_delete == was.on_delete
                &&& now.on_update == was.on_update
                &&& same_ignoring_ascii_case(was.referenced_table, old_name)
                    ==> now.referenced_table == new_name
                &&& !same_ignoring_ascii_case(was.referenced_table, old_name)
                    ==> now.referenced_table == was.referenced_table
            }
            &&& 0 <= c < schema.constraints.len() ==> {
                let was = schema.constraints[c];
                let now = after.constraints[c];
                &&& now.id == was.id
                &&& now.name == was.name
                &&& !refers_in_any_case(was, old_name) ==> now == was
                &&& refers_in_any_case(was, old_name) ==> {
                    &&& now.kind is ForeignKey
                    &&& now.kind->ForeignKey_referenced_table == new_name
                    &&& now.kind->ForeignKey_columns == was.kind->ForeignKey_columns
                    &&& now.kind->ForeignKey_referenced_columns
                        == was.kind->ForeignKey_referenced_columns
                    &&& now.kind->ForeignKey_on_delete == was.kind->ForeignKey_on_delete
                    &&& now.kind->ForeignKey_on_update == was.kind->ForeignKey_on_update
                }
            }
        }),
{
}

/// A constraint refers to exactly this table.
pub open spec fn refers_to(constraint: ConstraintView, table: Seq<char>) -> bool {
    constraint.kind is ForeignKey && constraint.kind->ForeignKey_referenced_table == table
}

proof fn lemma_members<A>(s: Seq<A>, keep: spec_fn(A) -> bool, x: A)
    ensures
        s.filter(keep).contains(x) <==> s.contains(x) && keep(x),
{
    broadcast use vstd::seq_lib::group_filter_ensures;

    let kept = s.filter(keep);
    if kept.contains(x) {
        s.lemma_filter_contains_rev(keep, x);
        let k = choose|k: int| 0 <= k < kept.len() && kept[k] == x;
        assert(keep(kept[k]));
    }
    if s.contains(x) && keep(x) {
        let k = choose|k: int| 0 <= k < s.len() && s[k] == x;
        s.lemma_filter_contains(keep, k);
    }
}

/// Where a parent goes, its children lose the foreign keys to it and the
/// constraints that name them, and nothing else.
pub proof fn law_children_lose_their_keys_to_a_parent(
    schema: SchemaView,
    parent: Seq<char>,
    fk: ForeignKeyView,
    c: ConstraintView,
)
    ensures
        ({
            let after = stripped_schema(schema, parent);
            &&& after.foreign_keys.contains(fk) <==> schema.foreign_keys.contains(fk)
                && fk.referenced_table != parent
            &&& schema.foreign_keys.contains(fk) && fk.referenced_table == parent ==> (
            after.constraints.contains(c) <==> schema.constraints.contains(c) && !refers_to(
                c,
                parent,
            ))
            &&& after.table_name == schema.table_name
            &&& after.table_name_lower == schema.table_name_lower
            &&& after.catalog_id == schema.catalog_id
            &&& after.columns == schema.columns
            &&& after.table_checks == schema.table_checks
            &&& (forall|k: int|
                0 <= k < schema.foreign_keys.len() ==> (
                #[trigger] schema.foreign_keys[k]).referenced_table != parent) ==> after == schema
        }),
{
    let after = stripped_schema(schema, parent);
    let keep = |fk: ForeignKeyView| fk.referenced_table != parent;
    let keep_constraint = |c: ConstraintView| !crate::schema::constrains_to(c, parent);
    lemma_members(schema.foreign_keys, keep, fk);
    lemma_members(schema.constraints, keep_constraint, c);
    if schema.foreign_keys.contains(fk) {
        let k = choose|k: int| 0 <= k < schema.foreign_keys.len() && schema.foreign_keys[k] == fk;
        assert(schema.foreign_keys[k].referenced_table == fk.referenced_table);
    }
}

proof fn lemma_key_positions(columns: Seq<ColumnView>, n: int)
    requires
        0 <= n <= columns.len(),
    ensures
        forall|p: int| #[trigger]
            key_positions(columns, n).contains(p) <==> 0 <= p < n && columns[p].primary_key,
        forall|a: int, b: int|
            0 <= a < b < key_positions(columns, n).len() ==> #[trigger] key_positions(
                columns,
                n,
            )[a] < #[trigger] key_positions(columns, n)[b],
    decreases n,
{
    if n > 0 {
        lemma_key_positions(columns, n - 1);
        let before = key_positions(columns, n - 1);
        let after = key_positions(columns, n);
        if columns[n - 1].primary_key {
            assert(after == before.push(n - 1));
            assert forall|p: int| #[trigger] after.contains(p) <==> 0 <= p < n
                && columns[p].primary_key by {
                if before.contains(p) {
                    let k = choose|k: int| 0 <= k < before.len() && before[k] == p;
                    assert(after[k] == p);
                }
                if p == n - 1 {
                    assert(after[before.len() as int] == p);
                }
                if after.contains(p) {
                    let k = choose|k: int| 0 <= k < after.len() && after[k] == p;
                    if k < before.len() {
                        assert(before[k] == p);
                    }
                }
            }
            assert forall|a: int, b: int| 0 <= a < b < after.len() implies #[trigger] after[a]
                < #[trigger] after[b] by {
                if b == before.len() {
                    assert(before.contains(before[a]));
                } else {
                    assert(before[a] < before[b]);
                }
            }
        }
    }
}

/// The positions of a primary key are those of the columns marked so, in the
/// order of the columns; its private index is named after the table and the
/// first of them.
pub proof fn law_key_positions_are_the_marked_columns(schema: SchemaView, p: int)
    ensures
        primary_key_positions(schema).contains(p) <==> 0 <= p < schema.columns.len()
            && schema.columns[p].primary_key,
        derived_pk_name(schema) is Some <==> exists|k: int|
            0 <= k < schema.columns.len() && (#[trigger] schema.columns[k]).primary_key,
        0 <= p < schema.columns.len() && schema.columns[p].primary_key && (forall|k: int|
            0 <= k < p ==> !(#[trigger] schema.columns[k]).primary_key) ==> derived_pk_name(schema)
            == Some("__pk_"@ + schema.table_name_lower + "_"@ + schema.columns[p].name),
{
    let n = schema.columns.len() as int;
    lemma_key_positions(schema.columns, n);
    let keys = primary_key_positions(schema);
    if keys.len() > 0 {
        assert(keys.contains(keys[0]));
        assert(schema.columns[keys[0]].primary_key);
    }
    if exists|k: int| 0 <= k < n && (#[trigger] schema.columns[k]).primary_key {
        let k = choose|k: int| 0 <= k < n && (#[trigger] schema.columns[k]).primary_key;
        assert(keys.contains(k));
    }
    if 0 <= p < n && schema.columns[p].primary_key && (forall|k: int|
        0 <= k < p ==> !(#[trigger] schema.columns[k]).primary_key) {
        assert(keys.contains(p));
        let a = choose|a: int| 0 <= a < keys.len() && keys[a] == p;
        if a > 0 {
            assert(keys[0] < keys[a]);
            assert(!schema.columns[keys[0]].primary_key);
        }
    }
}

/// A schema that is accepted has a name, at most one column of a primary key,
/// and columns with names of their own; only integers and identities count up
/// by themselves. What the outside validators refused is not accepted.
pub proof fn law_accepted_schema_is_sound(
    schema: SchemaView,
    verdicts: SchemaVerdicts,
    i: int,
    j: int,
)
    requires
        judged(schema, verdicts) is None,
    ensures
        verdicts.structure is Ok,
        verdicts.foreign_keys is Ok,
        verdicts.persistence is Ok,
        schema.table_name.len() > 0,
        0 <= i < j < schema.columns.len() ==> {
            &&& !(schema.columns[i].primary_key && schema.columns[j].primary_key)
            &&& schema.columns[i].name_lower != schema.columns[j].name_lower
        },
        0 <= i < schema.columns.len() ==> {
            &&& schema.columns[i].name.len() > 0
            &&& schema.columns[i].auto_increment ==> schema.columns[i].data_type
                == DataType::Integer || schema.columns[i].data_type == DataType::Uuid
        },
{
    let n = schema.columns.len() as int;
    let check = column_check(schema.columns);
    assert(first_refusal(0, n, check) is None);
    lemma_no_refusal(0, n, check);
    lemma_key_positions(schema.columns, n);
    let keys = primary_key_positions(schema);
    if 0 <= i < n {
        assert(check(i) is None);
    }
    if 0 <= i < j < n {
        assert(check(j) is None);
        if schema.columns[i].primary_key && schema.columns[j].primary_key {
            assert(keys.contains(i) && keys.contains(j));
            let a = choose|a: int| 0 <= a < keys.len() && keys[a] == i;
            let b = choose|b: int| 0 <= b < keys.len() && keys[b] == j;
        }
    }
}

} // verus!
