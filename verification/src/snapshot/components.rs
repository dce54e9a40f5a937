//! Root components of a database and what may stand for them.
use super::state::is_storable;
use super::state::PhysicalRestorePhase;
use super::state::PhysicalRestoreState;
use crate::error::first_refusal;
use crate::error::refusal;
use crate::error::Error;
use crate::error::ErrorView;
use crate::text::same_text;
use crate::text::starts_with;
use vstd::prelude::*;
use vstd::string::StringExecFns;

verus! {

/// How many components a database root has.
pub const COMPONENT_COUNT: usize = 8;

/// Name of a component by its position.
pub open spec fn component_text(i: int) -> Seq<char> {
    if i == 0 {
        "CONTROL.0"@
    } else if i == 1 {
        "CONTROL.1"@
    } else if i == 2 {
        "wal"@
    } else if i == 3 {
        "catalog"@
    } else if i == 4 {
        "manifests"@
    } else if i == 5 {
        "artifacts"@
    } else if i == 6 {
        "staging"@
    } else {
        "quarantine"@
    }
}

/// Name of a component.
pub fn component_name(i: usize) -> (name: &'static str)
    requires
        i < COMPONENT_COUNT,
    ensures
        name@ == component_text(i as int),
{
    if i == 0 {
        "CONTROL.0"
    } else if i == 1 {
        "CONTROL.1"
    } else if i == 2 {
        "wal"
    } else if i == 3 {
        "catalog"
    } else if i == 4 {
        "manifests"
    } else if i == 5 {
        "artifacts"
    } else if i == 6 {
        "staging"
    } else {
        "quarantine"
    }
}

/// No two components share a name.
proof fn lemma_components_distinct(i: int, j: int)
    requires
        0 <= i < j < 8,
    ensures
        component_text(i) != component_text(j),
{
    reveal_strlit("CONTROL.0");
    reveal_strlit("CONTROL.1");
    reveal_strlit("wal");
    reveal_strlit("catalog");
    reveal_strlit("manifests");
    reveal_strlit("artifacts");
    reveal_strlit("staging");
    reveal_strlit("quarantine");
    let a = component_text(i);
    let b = component_text(j);
    if a.len() == b.len() {
        if i == 0 {
            assert("CONTROL.0"@[8] == '0' && "CONTROL.1"@[8] == '1');
            assert("CONTROL.0"@[0] == 'C' && "manifests"@[0] == 'm' && "artifacts"@[0] == 'a');
        } else if i == 1 {
            assert("CONTROL.1"@[0] == 'C' && "manifests"@[0] == 'm' && "artifacts"@[0] == 'a');
        } else if i == 3 {
            assert("catalog"@[0] == 'c' && "staging"@[0] == 's');
        } else if i == 4 {
            assert("manifests"@[0] == 'm' && "artifacts"@[0] == 'a');
        }
    }
}

pub open spec fn is_component(name: Seq<char>, i: int) -> bool {
    0 <= i < COMPONENT_COUNT && component_text(i) == name
}

/// Position of a component.
pub fn component_index(name: &str) -> (r: Option<usize>)
    ensures
        match r {
            Some(i) => is_component(name@, i as int),
            None => forall|i: int| !#[trigger] is_component(name@, i),
        },
{
    let mut i: usize = 0;
    while i < COMPONENT_COUNT
        invariant
            0 <= i <= COMPONENT_COUNT,
            forall|k: int| k < i ==> !#[trigger] is_component(name@, k),
        decreases COMPONENT_COUNT - i,
    {
        if same_text(name, component_name(i)) {
            return Some(i);
        }
        i = i + 1;
    }
    None
}

/// Whether a mask has the bit of a component.
pub open spec fn has_bit(mask: u16, i: u16) -> bool {
    (mask >> i) & 1u16 == 1u16
}

proof fn lemma_set_bit(mask: u16, i: u16, j: u16)
    by (bit_vector)
    requires
        i < 8,
        j < 8,
    ensures
        has_bit(mask | (1u16 << i), j) == (i == j || has_bit(mask, j)),
        mask < 256 ==> (mask | (1u16 << i)) < 256,
{
}

proof fn lemma_no_bits(j: u16)
    by (bit_vector)
    requires
        j < 8,
    ensures
        !has_bit(0u16, j),
{
}

proof fn lemma_control_bits(mask: u16)
    by (bit_vector)
    ensures
        (mask % 4 == 0) == (!has_bit(mask, 0) && !has_bit(mask, 1)),
{
}

proof fn lemma_test_bit(mask: u16, i: u16)
    by (bit_vector)
    requires
        i < 8,
    ensures
        (mask & (1u16 << i) != 0) == has_bit(mask, i),
{
}

/// The bit of a component.
pub fn component_bit(name: &str) -> (r: u16)
    requires
        exists|i: int| #[trigger] is_component(name@, i),
    ensures
        exists|i: int| #[trigger] is_component(name@, i) && r == 1u16 << (i as u16),
{
    match component_index(name) {
        Some(i) => {
            assert(is_component(name@, i as int));
            1u16 << (i as u16)
        },
        None => 0,
    }
}

/// What stands at a path.
#[derive(Debug)]
pub enum PathStatus {
    Absent,
    /// Could not be inspected; the text of the fault.
    Fault { text: String },
    Symlink,
    File,
    Directory,
    Other,
}

/// What a component may be: a file for a control slot, else a directory.
pub open spec fn component_refusal(name: Seq<char>, status: PathStatus) -> Option<ErrorView> {
    match status {
        PathStatus::Fault { text } => Some(
            ErrorView::Internal(
                "failed to inspect physical restore component '"@ + name + "': "@ + text@,
            ),
        ),
        PathStatus::Symlink => Some(
            ErrorView::Internal("physical restore component '"@ + name + "' is a symlink"@),
        ),
        _ => if is_right_kind(name, status) {
            None
        } else {
            Some(
                ErrorView::Internal(
                    "physical restore component '"@ + name + "' has the wrong filesystem type"@,
                ),
            )
        },
    }
}

pub open spec fn is_right_kind(name: Seq<char>, status: PathStatus) -> bool {
    if name_is_control(name) {
        status is File
    } else {
        status is Directory
    }
}

pub open spec fn name_is_control(name: Seq<char>) -> bool {
    "CONTROL."@.is_prefix_of(name)
}

/// Checks what stands for a component. One that vanished since it was listed
/// comes as a fault of its inspection.
pub fn validate_restore_component(name: &str, status: &PathStatus) -> (r: Result<(), Error>)
    ensures
        refusal(r) == component_refusal(name@, *status),
{
    let control: bool = starts_with(name, "CONTROL.");
    let valid: bool = match status {
        PathStatus::Fault { text } => {
            return Err(
                Error::Internal {
                    message: String::from_str(
                        "failed to inspect physical restore component '",
                    ).concat(name).concat("': ").concat(text.as_str()),
                },
            );
        },
        PathStatus::Symlink => {
            return Err(
                Error::Internal {
                    message: String::from_str("physical restore component '").concat(name).concat(
                        "' is a symlink",
                    ),
                },
            );
        },
        PathStatus::File => control,
        PathStatus::Directory => !control,
        PathStatus::Absent => false,
        PathStatus::Other => false,
    };
    if !valid {
        return Err(
            Error::Internal {
                message: String::from_str("physical restore component '").concat(name).concat(
                    "' has the wrong filesystem type",
                ),
            },
        );
    }
    Ok(())
}

/// Checks that a path is a directory of its own.
pub fn require_restore_directory(role: &str, path: &str, status: &PathStatus) -> (r: Result<
    (),
    Error,
>)
    ensures
        refusal(r) == match status {
            PathStatus::Fault { text } => Some(
                ErrorView::Internal(
                    "failed to inspect "@ + role@ + " '"@ + path@ + "': "@ + text@,
                ),
            ),
            PathStatus::Directory => None,
            _ => Some(
                ErrorView::Internal(role@ + " '"@ + path@ + "' is not a real directory"@),
            ),
        },
{
    match status {
        PathStatus::Fault { text } => Err(
            Error::Internal {
                message: String::from_str("failed to inspect ").concat(role).concat(" '").concat(
                    path,
                ).concat("': ").concat(text.as_str()),
            },
        ),
        PathStatus::Directory => Ok(()),
        _ => Err(
            Error::Internal {
                message: String::from_str(role).concat(" '").concat(path).concat(
                    "' is not a real directory",
                ),
            },
        ),
    }
}

/// Checks that nothing stands at a path yet.
pub fn require_absent_restore_path(path: &str, status: &PathStatus) -> (r: Result<(), Error>)
    ensures
        refusal(r) == match status {
            PathStatus::Absent => None,
            PathStatus::Fault { text } => Some(
                ErrorView::Internal(
                    "failed to inspect restore path '"@ + path@ + "': "@ + text@,
                ),
            ),
            _ => Some(ErrorView::Internal("restore path '"@ + path@ + "' already exists"@)),
        },
{
    match status {
        PathStatus::Absent => Ok(()),
        PathStatus::Fault { text } => Err(
            Error::Internal {
                message: String::from_str("failed to inspect restore path '").concat(path).concat(
                    "': ",
                ).concat(text.as_str()),
            },
        ),
        _ => Err(
            Error::Internal {
                message: String::from_str("restore path '").concat(path).concat("' already exists"),
            },
        ),
    }
}

/// How a leftover is removed.
#[derive(Debug, Clone, Copy, PartialEq, Eq, Structural)]
pub enum Removal {
    Nothing,
    Tree,
    File,
}

/// Decides how to remove a leftover: a link is removed, not followed.
pub fn remove_restore_path_if_present(path: &str, status: &PathStatus) -> (r: Result<Removal, Error>)
    ensures
        refusal(r) == (if let PathStatus::Fault { text } = status {
            Some(
                ErrorView::Internal(
                    "failed to inspect restore artifact '"@ + path@ + "': "@ + text@,
                ),
            )
        } else {
            None
        }),
        r matches Ok(removal) ==> removal == match status {
            PathStatus::Absent => Removal::Nothing,
            PathStatus::Directory => Removal::Tree,
            _ => Removal::File,
        },
{
    match status {
        PathStatus::Absent => Ok(Removal::Nothing),
        PathStatus::Fault { text } => Err(
            Error::Internal {
                message: String::from_str("failed to inspect restore artifact '").concat(
                    path,
                ).concat("': ").concat(text.as_str()),
            },
        ),
        PathStatus::Directory => Ok(Removal::Tree),
        _ => Ok(Removal::File),
    }
}

/// Why a live component stands in the way.
pub open spec fn live_refusal(i: int, status: PathStatus) -> Option<ErrorView> {
    match status {
        PathStatus::Absent => None,
        PathStatus::Fault { text } => Some(
            ErrorView::Internal(
                "failed to inspect live component '"@ + component_text(i) + "': "@ + text@,
            ),
        ),
        _ => component_refusal(component_text(i), status),
    }
}

pub open spec fn live_mask_refusal(statuses: Seq<PathStatus>) -> Option<ErrorView> {
    match first_refusal(0, 8, |i: int| live_refusal(i, statuses[i])) {
        Some(e) => Some(e),
        None => if statuses[0] is Absent && statuses[1] is Absent {
            Some(ErrorView::Internal("live physical generation has no CONTROL slot"@))
        } else {
            None
        },
    }
}

/// Which components the live database has. It must have a control slot.
pub fn existing_component_mask(statuses: &Vec<PathStatus>) -> (r: Result<u16, Error>)
    requires
        statuses@.len() == COMPONENT_COUNT,
    ensures
        refusal(r) == live_mask_refusal(statuses@),
        r matches Ok(mask) ==> mask < 256 && mask % 4 != 0 && forall|i: u16|
            i < 8 ==> has_bit(mask, i) == !(#[trigger] statuses@[i as int] is Absent),
{
    let ghost check = |i: int| live_refusal(i, statuses@[i]);
    let mut mask: u16 = 0;
    let mut i: usize = 0;
    proof {
        assert forall|j: u16| j < 8 implies !has_bit(mask, j) by {
            lemma_no_bits(j);
        }
    }
    while i < COMPONENT_COUNT
        invariant
            0 <= i <= COMPONENT_COUNT,
            statuses@.len() == COMPONENT_COUNT,
            check == (|i: int| live_refusal(i, statuses@[i])),
            first_refusal(0, 8, check) == first_refusal(i as int, 8, check),
            mask < 256,
            forall|j: u16|
                j < 8 ==> #[trigger] has_bit(mask, j) == (j < i && !(statuses@[j as int] is Absent)),
        decreases COMPONENT_COUNT - i,
    {
        let name: &'static str = component_name(i);
        match &statuses[i] {
            PathStatus::Absent => {
                assert(check(i as int) is None);
            },
            PathStatus::Fault { text } => {
                assert(check(i as int) is Some);
                return Err(
                    Error::Internal {
                        message: String::from_str("failed to inspect live component '").concat(
                            name,
                        ).concat("': ").concat(text.as_str()),
                    },
                );
            },
            _ => {
                let checked: Result<(), Error> = validate_restore_component(name, &statuses[i]);
                assert(check(i as int) == refusal(checked));
                match checked {
                    Err(e) => {
                        return Err(e);
                    },
                    Ok(()) => {},
                }
                let ghost before = mask;
                let bit: u16 = i as u16;
                mask = mask | (1u16 << bit);
                proof {
                    lemma_set_bit(before, bit, bit);
                    assert forall|j: u16| j < 8 implies #[trigger] has_bit(mask, j) == (j < i + 1
                        && !(statuses@[j as int] is Absent)) by {
                        lemma_set_bit(before, bit, j);
                        assert(has_bit(before, j) == (j < i && !(statuses@[j as int] is Absent)));
                    }
                }
            },
        }
        i = i + 1;
    }
    proof {
        lemma_control_bits(mask);
        assert(has_bit(mask, 0) == !(statuses@[0] is Absent));
        assert(has_bit(mask, 1) == !(statuses@[1] is Absent));
    }
    if mask % 4 == 0 {
        return Err(Error::internal("live physical generation has no CONTROL slot"));
    }
    assert forall|i: u16| i < 8 implies has_bit(mask, i) == !(
    #[trigger] statuses@[i as int] is Absent) by {
        assert(has_bit(mask, i) == (i < 8 && !(statuses@[i as int] is Absent)));
    }
    Ok(mask)
}

/// An entry of the staging root.
#[derive(Debug)]
pub enum StagedEntry {
    /// Could not be read; the text of the fault.
    Unreadable { text: String },
    NotUtf8,
    Named { name: String, status: PathStatus },
}

/// Why an entry of the staging root is refused.
pub open spec fn staged_refusal(entries: Seq<StagedEntry>, k: int) -> Option<ErrorView> {
    if k >= COMPONENT_COUNT {
        Some(ErrorView::Internal("physical restore staging contains too many root components"@))
    } else {
        match entries[k] {
            StagedEntry::Unreadable { text } => Some(
                ErrorView::Internal("failed to read physical restore component: "@ + text@),
            ),
            StagedEntry::NotUtf8 => Some(
                ErrorView::Internal("physical restore staging contains a non-UTF-8 component"@),
            ),
            StagedEntry::Named { name, status } => if forall|i: int|
                !#[trigger] is_component(name@, i) {
                Some(
                    ErrorView::Internal(
                        "physical restore staging contains unknown component '"@ + name@ + "'"@,
                    ),
                )
            } else {
                component_refusal(name@, status)
            },
        }
    }
}

/// Whether a component was staged.
pub open spec fn is_staged(entries: Seq<StagedEntry>, i: int) -> bool {
    exists|k: int|
        0 <= k < entries.len() && (#[trigger] entries[k] matches StagedEntry::Named {
            name,
            status: _,
        } && name@ == component_text(i))
}

/// Components without which nothing can be restored: the first control slot,
/// the log, the catalog and the manifests.
pub open spec fn all_required(entries: Seq<StagedEntry>) -> bool {
    is_staged(entries, 0) && is_staged(entries, 2) && is_staged(entries, 3) && is_staged(entries, 4)
}

pub open spec fn staging_refusal(entries: Seq<StagedEntry>) -> Option<ErrorView> {
    match first_refusal(0, entries.len() as int, |k: int| staged_refusal(entries, k)) {
        Some(e) => Some(e),
        None => if all_required(entries) {
            None
        } else {
            Some(
                ErrorView::Internal(
                    "physical restore staging is missing a required root component"@,
                ),
            )
        },
    }
}

/// Checks that a staged generation is complete and holds nothing else.
pub fn validate_restore_staging(entries: &Vec<StagedEntry>) -> (r: Result<(), Error>)
    ensures
        refusal(r) == staging_refusal(entries@),
{
    let ghost n = entries@.len() as int;
    let ghost check = |k: int| staged_refusal(entries@, k);
    let mut present: u16 = 0;
    let mut k: usize = 0;
    proof {
        assert forall|j: u16| j < 8 implies !has_bit(present, j) by {
            lemma_no_bits(j);
        }
    }
    while k < entries.len()
        invariant
            0 <= k <= entries@.len(),
            n == entries@.len(),
            check == (|k: int| staged_refusal(entries@, k)),
            first_refusal(0, n, check) == first_refusal(k as int, n, check),
            forall|j: u16|
                j < 8 ==> #[trigger] has_bit(present, j) == is_staged(
                    entries@.take(k as int),
                    j as int,
                ),
        decreases entries@.len() - k,
    {
        if k >= COMPONENT_COUNT {
            assert(check(k as int) is Some);
            return Err(
                Error::internal("physical restore staging contains too many root components"),
            );
        }
        match &entries[k] {
            StagedEntry::Unreadable { text } => {
                assert(check(k as int) is Some);
                return Err(
                    Error::Internal {
                        message: String::from_str(
                            "failed to read physical restore component: ",
                        ).concat(text.as_str()),
                    },
                );
            },
            StagedEntry::NotUtf8 => {
                assert(check(k as int) is Some);
                return Err(
                    Error::internal("physical restore staging contains a non-UTF-8 component"),
                );
            },
            StagedEntry::Named { name, status } => {
                let index: usize = match component_index(name.as_str()) {
                    Some(index) => index,
                    None => {
                        assert(check(k as int) is Some);
                        return Err(
                            Error::Internal {
                                message: String::from_str(
                                    "physical restore staging contains unknown component '",
                                ).concat(name.as_str()).concat("'"),
                            },
                        );
                    },
                };
                assert(is_component(name@, index as int));
                let checked: Result<(), Error> = validate_restore_component(
                    name.as_str(),
                    status,
                );
                assert(check(k as int) == refusal(checked));
                match checked {
                    Err(e) => {
                        return Err(e);
                    },
                    Ok(()) => {},
                }
                let ghost before = present;
                let bit: u16 = index as u16;
                present = present | (1u16 << bit);
                proof {
                    let old_entries = entries@.take(k as int);
                    let new_entries = entries@.take(k + 1);
                    assert forall|j: u16| j < 8 implies #[trigger] has_bit(present, j)
                        == is_staged(new_entries, j as int) by {
                        lemma_set_bit(before, bit, j);
                        assert(has_bit(before, j) == is_staged(old_entries, j as int));
                        if is_staged(old_entries, j as int) {
                            let m = choose|m: int|
                                0 <= m < old_entries.len() && (
                                #[trigger] old_entries[m] matches StagedEntry::Named {
                                    name,
                                    status: _,
                                } && name@ == component_text(j as int));
                            assert(new_entries[m] == old_entries[m]);
                        }
                        if j == bit {
                            assert(new_entries[k as int] == entries@[k as int]);
                        }
                        if is_staged(new_entries, j as int) && !is_staged(
                            old_entries,
                            j as int,
                        ) {
                            let m = choose|m: int|
                                0 <= m < new_entries.len() && (
                                #[trigger] new_entries[m] matches StagedEntry::Named {
                                    name,
                                    status: _,
                                } && name@ == component_text(j as int));
                            if m < k {
                                assert(old_entries[m] == new_entries[m]);
                            }
                            if j < bit {
                                lemma_components_distinct(j as int, bit as int);
                            }
                            if bit < j {
                                lemma_components_distinct(bit as int, j as int);
                            }
                        }
                    }
                }
            },
        }
        k = k + 1;
    }
    proof {
        assert(entries@.take(k as int) =~= entries@);
        assert(has_bit(present, 0) == is_staged(entries@, 0));
        assert(has_bit(present, 2) == is_staged(entries@, 2));
        assert(has_bit(present, 3) == is_staged(entries@, 3));
        assert(has_bit(present, 4) == is_staged(entries@, 4));
        lemma_test_bit(present, 0);
        lemma_test_bit(present, 2);
        lemma_test_bit(present, 3);
        lemma_test_bit(present, 4);
    }
    let complete: bool = present & (1u16 << 0u16) != 0 && present & (1u16 << 2u16) != 0 && present
        & (1u16 << 3u16) != 0 && present & (1u16 << 4u16) != 0;
    if !complete {
        return Err(
            Error::internal("physical restore staging is missing a required root component"),
        );
    }
    Ok(())
}

/// Positions below `n` of the components in a mask.
pub open spec fn masked(mask: u16, n: int) -> Seq<usize>
    decreases n,
{
    if n <= 0 {
        Seq::empty()
    } else if has_bit(mask, (n - 1) as u16) {
        masked(mask, n - 1).push((n - 1) as usize)
    } else {
        masked(mask, n - 1)
    }
}

/// The components that a restoration moves aside.
pub fn components_to_move(mask: u16) -> (r: Vec<usize>)
    ensures
        r@ == masked(mask, 8),
{
    let mut out: Vec<usize> = Vec::new();
    let mut i: usize = 0;
    while i < COMPONENT_COUNT
        invariant
            0 <= i <= COMPONENT_COUNT,
            out@ == masked(mask, i as int),
        decreases COMPONENT_COUNT - i,
    {
        let bit: u16 = i as u16;
        proof {
            lemma_test_bit(mask, bit);
        }
        if mask & (1u16 << bit) != 0 {
            out.push(i);
        }
        i = i + 1;
    }
    out
}

/// What rolling back does with one component.
#[derive(Debug, Clone, Copy, PartialEq, Eq, Structural)]
pub enum ComponentRollback {
    /// The previous one takes its place again.
    PutBack,
    /// It did not exist before.
    Remove,
    /// It was not moved yet.
    Keep,
}

pub open spec fn rollback_of(
    state: PhysicalRestoreState,
    i: int,
    preserved: bool,
) -> Result<ComponentRollback, ErrorView> {
    if preserved {
        Ok(ComponentRollback::PutBack)
    } else if has_bit(state.old_components, i as u16) {
        if state.phase != PhysicalRestorePhase::Prepared {
            Err(
                ErrorView::Internal(
                    "restore rollback is missing previous component '"@ + component_text(i) + "'"@,
                ),
            )
        } else {
            Ok(ComponentRollback::Keep)
        }
    } else {
        Ok(ComponentRollback::Remove)
    }
}

/// Decides on one component; `preserved` tells whether the backup has it.
pub fn reconcile_component(state: PhysicalRestoreState, i: usize, preserved: bool) -> (r: Result<
    ComponentRollback,
    Error,
>)
    requires
        i < COMPONENT_COUNT,
    ensures
        match r {
            Ok(step) => rollback_of(state, i as int, preserved) == Ok::<
                ComponentRollback,
                ErrorView,
            >(step),
            Err(e) => rollback_of(state, i as int, preserved) == Err::<
                ComponentRollback,
                ErrorView,
            >(e@),
        },
{
    let bit: u16 = i as u16;
    proof {
        lemma_test_bit(state.old_components, bit);
    }
    let had_old: bool = state.old_components & (1u16 << bit) != 0;
    if preserved {
        Ok(ComponentRollback::PutBack)
    } else if had_old && state.phase != PhysicalRestorePhase::Prepared {
        Err(
            Error::Internal {
                message: String::from_str("restore rollback is missing previous component '").concat(
                    component_name(i),
                ).concat("'"),
            },
        )
    } else if !had_old {
        Ok(ComponentRollback::Remove)
    } else {
        Ok(ComponentRollback::Keep)
    }
}

/// A rollback that goes through leaves exactly the previous components: one
/// that existed is put back or still in place, one that did not is gone.
pub proof fn law_rollback_restores_previous_components(
    state: PhysicalRestoreState,
    i: int,
    preserved: bool,
)
    requires
        0 <= i < 8,
        rollback_of(state, i, preserved) is Ok,
        preserved ==> has_bit(state.old_components, i as u16),
    ensures
        has_bit(state.old_components, i as u16) <==> rollback_of(state, i, preserved)->Ok_0
            != ComponentRollback::Remove,
        preserved ==> rollback_of(state, i, preserved)->Ok_0 == ComponentRollback::PutBack,
        rollback_of(state, i, preserved)->Ok_0 == ComponentRollback::Keep ==> state.phase
            == PhysicalRestorePhase::Prepared,
{
}

/// The mask of a live database can be stored as it is.
pub proof fn law_live_mask_is_storable(phase: PhysicalRestorePhase, mask: u16)
    requires
        mask < 256,
        mask % 4 != 0,
    ensures
        is_storable(PhysicalRestoreState { phase, old_components: mask }),
{
}

} // verus!
