//! The last steps before a transaction's catalog changes can be committed:
//! rows are checked, indexes are built and set aside.
//!
//! Index builders may change shared indexes only while they are authorized to,
//! and that authorization ends with the build, however it ends.
use crate::ddl::request::PendingIndexDefinition;
use crate::error::Error;
use crate::error::ErrorView;
use crate::text::signed_decimal;
use crate::text::signed_decimal_digits;
use vstd::prelude::*;
use vstd::string::StringExecFns;

verus! {

/// What a preparation waits for.
#[derive(Debug, Clone, Copy, PartialEq, Eq, Structural)]
pub enum BuildPhase {
    /// The rows of a table under its final schema.
    CheckRows,
    /// The authorization of the tables that get indexes.
    Authorize,
    Build,
    /// A built index, set aside until the commit.
    Detach,
    /// The end of the authorization.
    Revoke,
    Done,
}

/// What a preparation wants done next; indexes and tables by their position.
#[derive(Debug, Clone, Copy, PartialEq, Eq, Structural)]
pub enum BuildAction {
    CheckRows { table: usize },
    Authorize,
    Build { definition: usize },
    Detach { definition: usize },
    Revoke,
    Finish,
}

/// What setting an index aside came to.
#[derive(Debug)]
pub enum Detached {
    /// The definition made no index of its own.
    Redundant,
    /// The index could not be taken off its table.
    Stuck(Error),
    /// The transaction no longer knows the table.
    TableLost,
    Staged(Result<(), Error>),
}

/// What came of an action.
#[derive(Debug)]
pub enum BuildEvent {
    RowsChecked(Result<(), Error>),
    Authorized,
    Built(Result<(), Error>),
    Detached(Detached),
    Revoked,
}

/// A preparation in progress.
#[derive(Debug)]
pub struct BuildRun {
    txn_id: i64,
    tables: usize,
    definitions: usize,
    phase: BuildPhase,
    at: usize,
    error: Option<Error>,
}

#[verifier::ext_equal]
pub struct BuildView {
    pub txn_id: i64,
    /// Tables whose rows are checked.
    pub tables: usize,
    pub definitions: usize,
    pub phase: BuildPhase,
    /// Position among tables or definitions.
    pub at: usize,
    pub error: Option<ErrorView>,
}

impl View for BuildRun {
    type V = BuildView;

    closed spec fn view(&self) -> BuildView {
        BuildView {
            txn_id: self.txn_id,
            tables: self.tables,
            definitions: self.definitions,
            phase: self.phase,
            at: self.at,
            error: match self.error {
                None => None,
                Some(e) => Some(e@),
            },
        }
    }
}

pub open spec fn build_at(run: BuildView, phase: BuildPhase, at: int) -> BuildView {
    BuildView { phase, at: at as usize, ..run }
}

/// Checking rows from a table on, or what follows.
pub open spec fn rows_from(run: BuildView, at: int) -> BuildView {
    if at < run.tables {
        build_at(run, BuildPhase::CheckRows, at)
    } else {
        build_at(run, BuildPhase::Authorize, 0)
    }
}

/// Building from a definition on, or what follows.
pub open spec fn builds_from(run: BuildView, at: int) -> BuildView {
    if at < run.definitions {
        build_at(run, BuildPhase::Build, at)
    } else {
        detaches_from(run, 0)
    }
}

/// Detaching from a definition on, or what follows.
pub open spec fn detaches_from(run: BuildView, at: int) -> BuildView {
    if at < run.definitions {
        build_at(run, BuildPhase::Detach, at)
    } else {
        build_at(run, BuildPhase::Revoke, 0)
    }
}

/// A build that failed still gives its authorization back.
pub open spec fn build_failed(run: BuildView, error: ErrorView) -> BuildView {
    BuildView { phase: BuildPhase::Revoke, at: 0, error: Some(error), ..run }
}

pub open spec fn lost_table(txn_id: i64, definition: PendingIndexDefinition) -> ErrorView {
    ErrorView::Internal(
        "transaction "@ + signed_decimal_digits(txn_id as int) + " lost table '"@
            + definition.table_name@ + "' while detaching index '"@ + definition.index_name@
            + "'"@,
    )
}

/// What follows an event. One that the run does not wait for changes nothing.
pub open spec fn build_next(
    run: BuildView,
    definitions: Seq<PendingIndexDefinition>,
    event: BuildEvent,
) -> BuildView {
    match (run.phase, event) {
        (BuildPhase::CheckRows, BuildEvent::RowsChecked(r)) => match r {
            Err(e) => BuildView { phase: BuildPhase::Done, error: Some(e@), ..run },
            Ok(_) => rows_from(run, run.at + 1),
        },
        (BuildPhase::Authorize, BuildEvent::Authorized) => builds_from(run, 0),
        (BuildPhase::Build, BuildEvent::Built(r)) => match r {
            Err(e) => build_failed(run, e@),
            Ok(_) => builds_from(run, run.at + 1),
        },
        (BuildPhase::Detach, BuildEvent::Detached(detached)) => match detached {
            Detached::Redundant => detaches_from(run, run.at + 1),
            Detached::Stuck(e) => build_failed(run, e@),
            Detached::TableLost => build_failed(
                run,
                lost_table(run.txn_id, definitions[run.at as int]),
            ),
            Detached::Staged(Err(e)) => build_failed(run, e@),
            Detached::Staged(Ok(_)) => detaches_from(run, run.at + 1),
        },
        (BuildPhase::Revoke, BuildEvent::Revoked) => build_at(run, BuildPhase::Done, 0),
        _ => run,
    }
}

/// What a preparation asks for.
pub open spec fn build_action(run: BuildView) -> BuildAction {
    match run.phase {
        BuildPhase::CheckRows => BuildAction::CheckRows { table: run.at },
        BuildPhase::Authorize => BuildAction::Authorize,
        BuildPhase::Build => BuildAction::Build { definition: run.at },
        BuildPhase::Detach => BuildAction::Detach { definition: run.at },
        BuildPhase::Revoke => BuildAction::Revoke,
        BuildPhase::Done => BuildAction::Finish,
    }
}

/// Positions stay within what there is.
pub open spec fn build_wf(run: BuildView) -> bool {
    match run.phase {
        BuildPhase::CheckRows => run.at < run.tables && run.error is None,
        BuildPhase::Build | BuildPhase::Detach => run.at < run.definitions && run.error is None,
        BuildPhase::Authorize => run.error is None,
        BuildPhase::Revoke | BuildPhase::Done => true,
    }
}

impl BuildRun {
    /// Starts a preparation over a number of tables to check and of indexes to
    /// build.
    pub fn new(txn_id: i64, tables: usize, definitions: usize) -> (r: Self)
        ensures
            r@ == rows_from(
                BuildView {
                    txn_id,
                    tables,
                    definitions,
                    phase: BuildPhase::CheckRows,
                    at: 0,
                    error: None,
                },
                0,
            ),
            build_wf(r@),
    {
        BuildRun {
            txn_id,
            tables,
            definitions,
            phase: if tables > 0 {
                BuildPhase::CheckRows
            } else {
                BuildPhase::Authorize
            },
            at: 0,
            error: None,
        }
    }

    pub fn action(&self) -> (r: BuildAction)
        ensures
            r == build_action(self@),
    {
        match self.phase {
            BuildPhase::CheckRows => BuildAction::CheckRows { table: self.at },
            BuildPhase::Authorize => BuildAction::Authorize,
            BuildPhase::Build => BuildAction::Build { definition: self.at },
            BuildPhase::Detach => BuildAction::Detach { definition: self.at },
            BuildPhase::Revoke => BuildAction::Revoke,
            BuildPhase::Done => BuildAction::Finish,
        }
    }

    fn fail(&mut self, error: Error)
        ensures
            final(self)@ == build_failed(old(self)@, error@),
    {
        self.phase = BuildPhase::Revoke;
        self.at = 0;
        self.error = Some(error);
    }

    fn detach_next(&mut self)
        requires
            old(self)@.at < old(self)@.definitions,
        ensures
            final(self)@ == detaches_from(old(self)@, old(self)@.at + 1),
    {
        if self.at + 1 < self.definitions {
            self.at = self.at + 1;
            self.phase = BuildPhase::Detach;
        } else {
            self.at = 0;
            self.phase = BuildPhase::Revoke;
        }
    }

    /// Takes in what came of the last action and says what is next.
    pub fn advance(&mut self, definitions: &Vec<PendingIndexDefinition>, event: BuildEvent) -> (r:
        BuildAction)
        requires
            build_wf(old(self)@),
            definitions@.len() == old(self)@.definitions,
        ensures
            build_wf(final(self)@),
            final(self)@ == build_next(old(self)@, definitions@, event),
            r == build_action(final(self)@),
    {
        match (self.phase, event) {
            (BuildPhase::CheckRows, BuildEvent::RowsChecked(r)) => match r {
                Err(e) => {
                    self.phase = BuildPhase::Done;
                    self.error = Some(e);
                },
                Ok(_) => {
                    if self.at + 1 < self.tables {
                        self.at = self.at + 1;
                    } else {
                        self.at = 0;
                        self.phase = BuildPhase::Authorize;
                    }
                },
            },
            (BuildPhase::Authorize, BuildEvent::Authorized) => {
                self.at = 0;
                self.phase = if self.definitions > 0 {
                    BuildPhase::Build
                } else {
                    BuildPhase::Revoke
                };
            },
            (BuildPhase::Build, BuildEvent::Built(r)) => match r {
                Err(e) => self.fail(e),
                Ok(_) => {
                    if self.at + 1 < self.definitions {
                        self.at = self.at + 1;
                    } else {
                        self.at = 0;
                        self.phase = BuildPhase::Detach;
                    }
                },
            },
            (BuildPhase::Detach, BuildEvent::Detached(detached)) => match detached {
                Detached::Redundant => self.detach_next(),
                Detached::Stuck(e) => self.fail(e),
                Detached::TableLost => {
                    let definition: &PendingIndexDefinition = &definitions[self.at];
                    let message: String = String::from_str("transaction ").concat(
                        signed_decimal(self.txn_id).as_str(),
                    ).concat(" lost table '").concat(definition.table_name.as_str()).concat(
                        "' while detaching index '",
                    ).concat(definition.index_name.as_str()).concat("'");
                    self.fail(Error::Internal { message });
                },
                Detached::Staged(r) => match r {
                    Err(e) => self.fail(e),
                    Ok(_) => self.detach_next(),
                },
            },
            (BuildPhase::Revoke, BuildEvent::Revoked) => {
                self.at = 0;
                self.phase = BuildPhase::Done;
            },
            _ => {},
        }
        self.action()
    }

    /// Why the changes cannot be committed, where they cannot.
    pub fn outcome(self) -> (r: Option<Error>)
        ensures
            match r {
                None => self@.error is None,
                Some(e) => self@.error == Some(e@),
            },
    {
        self.error
    }
}

/// Index builders are authorized.
pub open spec fn is_authorized(phase: BuildPhase) -> bool {
    phase == BuildPhase::Build || phase == BuildPhase::Detach || phase == BuildPhase::Revoke
}

/// An authorization is always given back: no event leads from it to the end
/// but the one that revokes it.
pub proof fn law_authorization_is_given_back(
    run: BuildView,
    definitions: Seq<PendingIndexDefinition>,
    event: BuildEvent,
)
    requires
        build_wf(run),
        is_authorized(run.phase),
        !is_authorized(build_next(run, definitions, event).phase),
    ensures
        run.phase == BuildPhase::Revoke,
        event is Revoked,
        build_next(run, definitions, event).error == run.error,
{
}

/// Changes that may be committed had all their rows checked, and all their
/// indexes built and set aside.
pub proof fn law_commit_waits_for_every_index(
    run: BuildView,
    definitions: Seq<PendingIndexDefinition>,
    event: BuildEvent,
)
    requires
        build_wf(run),
        run.phase != build_next(run, definitions, event).phase,
        build_next(run, definitions, event).error is None,
    ensures
        build_next(run, definitions, event).phase == BuildPhase::Done ==> run.phase
            == BuildPhase::Revoke,
        build_next(run, definitions, event).phase == BuildPhase::Revoke ==> run.definitions == 0
            || run.phase == BuildPhase::Detach && run.at + 1 == run.definitions,
        build_next(run, definitions, event).phase == BuildPhase::Detach ==> run.phase
            == BuildPhase::Build && run.at + 1 == run.definitions,
        build_next(run, definitions, event).phase == BuildPhase::Authorize ==> run.phase
            == BuildPhase::CheckRows && run.at + 1 == run.tables,
{
}

} // verus!
