//! Taking a physical snapshot, step by step.
//!
//! A snapshot pins one generation together with the log behind it, copies
//! both and commits a manifest. Commits are held off only while the pins are
//! taken. Whoever takes a snapshot performs the action that the run asks for
//! and reports what came of it.
use super::members::persistence_refusal;
use super::members::snapshot_format_error;
use super::members::IncompleteSnapshot;
use crate::engine::worker::lock_checkpoint_mutex_cancellable;
use crate::engine::worker::LockStep;
use crate::engine::worker::LockTry;
use crate::error::Error;
use crate::error::ErrorView;
use vstd::prelude::*;
use vstd::string::StringExecFns;

verus! {

/// What a snapshot waits for.
#[derive(Debug, Clone, Copy, PartialEq, Eq, Structural)]
pub enum SnapshotPhase {
    CreateRoot,
    /// The one slot for compaction.
    ClaimSlot,
    ShareDdl,
    LockCheckpoint,
    /// The exclusive commit fence.
    HoldCommits,
    Pin,
    /// The log generations to copy.
    FreezeLog,
    CreateDirectory,
    CopyLog,
    BuildManifest,
    CopyMembers,
    Commit,
    /// Older snapshots, behind all fences.
    Retain,
    Done,
}

/// What a snapshot wants done next.
#[derive(Debug)]
pub enum SnapshotAction {
    CreateRoot,
    ClaimSlot,
    ShareDdl,
    LockCheckpoint,
    HoldCommits,
    Pin,
    FreezeLog,
    /// Let commits go on and make the directory.
    CreateDirectory,
    CopyLog { index: usize },
    BuildManifest,
    CopyMember { index: usize },
    Commit,
    /// Release every fence and retire older snapshots.
    Retain,
    /// Release what is held.
    Finish,
}

/// Why a manifest could not be committed.
#[derive(Debug)]
pub struct CommitFault {
    pub text: String,
    /// The manifest is there all the same.
    pub manifest_exists: bool,
}

/// A manifest that was built.
#[derive(Debug)]
pub struct BuiltManifest {
    /// How many members there are besides the log.
    pub members: usize,
    /// The database's identity, as it is printed.
    pub database_id: String,
    pub physical_format_major: u16,
    pub physical_format_minor: u16,
}

/// What a snapshot is known by.
#[derive(Debug)]
pub struct PhysicalSnapshotIdentity {
    pub snapshot_id: String,
    pub database_id: String,
    pub physical_format_major: u16,
    pub physical_format_minor: u16,
}

#[verifier::ext_equal]
pub struct IdentityView {
    pub snapshot_id: Seq<char>,
    pub database_id: Seq<char>,
    pub physical_format_major: u16,
    pub physical_format_minor: u16,
}

impl View for PhysicalSnapshotIdentity {
    type V = IdentityView;

    open spec fn view(&self) -> IdentityView {
        IdentityView {
            snapshot_id: self.snapshot_id@,
            database_id: self.database_id@,
            physical_format_major: self.physical_format_major,
            physical_format_minor: self.physical_format_minor,
        }
    }
}

/// What came of an action.
#[derive(Debug)]
pub enum SnapshotEvent {
    /// The caller gave up.
    Cancelled,
    RootMade { path: String, outcome: Result<(), String> },
    Tried { taken: bool },
    LockTried(LockTry),
    /// Absent without a publisher of generations.
    Pinned(Option<Result<(), String>>),
    /// How many log generations there are to copy.
    Frozen(Result<usize, Error>),
    /// `snapshot_id` is the new snapshot's identity, as it is printed.
    DirectoryMade { snapshot_id: String, path: String, outcome: Result<(), String> },
    Copied(Result<(), Error>),
    Built(Result<BuiltManifest, Error>),
    Committed(Result<(), CommitFault>),
    /// Retiring older snapshots may fail: the new one stands all the same.
    Retained,
}

/// A snapshot in progress.
#[derive(Debug)]
pub struct SnapshotRun {
    phase: SnapshotPhase,
    slot_tried: bool,
    commits_held: bool,
    log_members: usize,
    members: usize,
    /// Copied so far, of the log or of the members.
    copied: usize,
    snapshot_id: String,
    directory: Option<IncompleteSnapshot>,
    identity: Option<PhysicalSnapshotIdentity>,
    end: Option<Result<(), Error>>,
}

/// The directory of a snapshot.
#[verifier::ext_equal]
pub struct DirectoryView {
    pub path: Seq<char>,
    pub incomplete: bool,
}

#[verifier::ext_equal]
pub struct SnapshotView {
    pub phase: SnapshotPhase,
    /// The compaction slot was busy before.
    pub slot_tried: bool,
    pub commits_held: bool,
    pub log_members: usize,
    pub members: usize,
    pub copied: usize,
    /// The identity that the directory was made for.
    pub snapshot_id: Seq<char>,
    pub directory: Option<DirectoryView>,
    /// What the snapshot is known by, once its manifest was built.
    pub identity: Option<IdentityView>,
    pub end: Option<Result<(), ErrorView>>,
}

impl View for SnapshotRun {
    type V = SnapshotView;

    closed spec fn view(&self) -> SnapshotView {
        SnapshotView {
            phase: self.phase,
            slot_tried: self.slot_tried,
            commits_held: self.commits_held,
            log_members: self.log_members,
            members: self.members,
            copied: self.copied,
            snapshot_id: self.snapshot_id@,
            identity: match self.identity {
                None => None,
                Some(identity) => Some(identity@),
            },
            directory: match self.directory {
                None => None,
                Some(d) => Some(DirectoryView { path: d.path@, incomplete: d.armed }),
            },
            end: match self.end {
                None => None,
                Some(Ok(_)) => Some(Ok(())),
                Some(Err(e)) => Some(Err(e@)),
            },
        }
    }
}

pub open spec fn started_snapshot() -> SnapshotView {
    SnapshotView {
        phase: SnapshotPhase::CreateRoot,
        slot_tried: false,
        commits_held: false,
        log_members: 0,
        members: 0,
        copied: 0,
        snapshot_id: Seq::empty(),
        directory: None,
        identity: None,
        end: None,
    }
}

/// Whether the caller is asked before the action whether it gave up.
pub open spec fn asks_caller(run: SnapshotView) -> bool {
    match run.phase {
        SnapshotPhase::ClaimSlot => run.slot_tried,
        SnapshotPhase::ShareDdl
        | SnapshotPhase::LockCheckpoint
        | SnapshotPhase::HoldCommits
        | SnapshotPhase::CopyLog
        | SnapshotPhase::CopyMembers => true,
        _ => false,
    }
}

pub open spec fn snapshot_failed(run: SnapshotView, error: ErrorView) -> SnapshotView {
    SnapshotView {
        phase: SnapshotPhase::Done,
        commits_held: false,
        end: Some(Err(error)),
        ..run
    }
}

pub open spec fn snapshot_at(run: SnapshotView, phase: SnapshotPhase) -> SnapshotView {
    SnapshotView { phase, ..run }
}

/// Copying the log, or what follows it.
pub open spec fn log_copied(run: SnapshotView, copied: int) -> SnapshotView {
    if copied < run.log_members {
        SnapshotView { phase: SnapshotPhase::CopyLog, copied: copied as usize, ..run }
    } else {
        SnapshotView { phase: SnapshotPhase::BuildManifest, copied: copied as usize, ..run }
    }
}

/// Copying members, or what follows them.
pub open spec fn members_copied(run: SnapshotView, copied: int) -> SnapshotView {
    if copied < run.members {
        SnapshotView { phase: SnapshotPhase::CopyMembers, copied: copied as usize, ..run }
    } else {
        SnapshotView { phase: SnapshotPhase::Commit, copied: copied as usize, ..run }
    }
}

/// The directory is complete, or is left as it is.
pub open spec fn directory_kept(run: SnapshotView) -> SnapshotView {
    SnapshotView {
        directory: match run.directory {
            None => None,
            Some(d) => Some(DirectoryView { incomplete: false, ..d }),
        },
        ..run
    }
}

pub open spec fn format_refusal(text: Seq<char>) -> ErrorView {
    ErrorView::Internal("physical snapshot failed: "@ + text)
}

/// What follows an event. One that the run does not wait for changes nothing.
pub open spec fn snapshot_next(run: SnapshotView, event: SnapshotEvent) -> SnapshotView {
    match (run.phase, event) {
        (_, SnapshotEvent::Cancelled) => if asks_caller(run) {
            snapshot_failed(run, ErrorView::QueryCancelled)
        } else {
            run
        },
        (SnapshotPhase::CreateRoot, SnapshotEvent::RootMade { path, outcome }) => match outcome {
            Err(text) => snapshot_failed(
                run,
                ErrorView::Internal(
                    "failed to create physical snapshot root '"@ + path@ + "': "@ + text@,
                ),
            ),
            Ok(_) => snapshot_at(run, SnapshotPhase::ClaimSlot),
        },
        (SnapshotPhase::ClaimSlot, SnapshotEvent::Tried { taken }) => if taken {
            snapshot_at(run, SnapshotPhase::ShareDdl)
        } else {
            SnapshotView { slot_tried: true, ..run }
        },
        (SnapshotPhase::ShareDdl, SnapshotEvent::Tried { taken }) => if taken {
            snapshot_at(run, SnapshotPhase::LockCheckpoint)
        } else {
            run
        },
        (SnapshotPhase::LockCheckpoint, SnapshotEvent::LockTried(tried)) => match tried {
            LockTry::Taken => snapshot_at(run, SnapshotPhase::HoldCommits),
            LockTry::Busy => run,
            LockTry::Poisoned { text } => snapshot_failed(
                run,
                ErrorView::Internal("checkpoint mutex is poisoned: "@ + text@),
            ),
        },
        (SnapshotPhase::HoldCommits, SnapshotEvent::Tried { taken }) => if taken {
            SnapshotView { phase: SnapshotPhase::Pin, commits_held: true, ..run }
        } else {
            run
        },
        (SnapshotPhase::Pin, SnapshotEvent::Pinned(pinned)) => match pinned {
            None => snapshot_failed(
                run,
                ErrorView::Internal(
                    "physical generation publisher is unavailable during snapshot"@,
                ),
            ),
            Some(Err(text)) => snapshot_failed(run, format_refusal(text@)),
            Some(Ok(_)) => snapshot_at(run, SnapshotPhase::FreezeLog),
        },
        (SnapshotPhase::FreezeLog, SnapshotEvent::Frozen(r)) => match r {
            Err(e) => snapshot_failed(run, e@),
            Ok(log_members) => SnapshotView {
                phase: SnapshotPhase::CreateDirectory,
                commits_held: false,
                log_members,
                ..run
            },
        },
        (
            SnapshotPhase::CreateDirectory,
            SnapshotEvent::DirectoryMade { snapshot_id, path, outcome },
        ) => match outcome {
            Err(text) => snapshot_failed(
                run,
                ErrorView::Internal(
                    "failed to create physical snapshot directory '"@ + path@ + "': "@ + text@,
                ),
            ),
            Ok(_) => log_copied(
                SnapshotView {
                    snapshot_id: snapshot_id@,
                    directory: Some(DirectoryView { path: path@, incomplete: true }),
                    ..run
                },
                0,
            ),
        },
        (SnapshotPhase::CopyLog, SnapshotEvent::Copied(r)) => match r {
            Err(e) => snapshot_failed(run, e@),
            Ok(_) => log_copied(run, run.copied + 1),
        },
        (SnapshotPhase::BuildManifest, SnapshotEvent::Built(r)) => match r {
            Err(e) => snapshot_failed(run, e@),
            Ok(built) => members_copied(
                SnapshotView {
                    members: built.members,
                    identity: Some(
                        IdentityView {
                            snapshot_id: run.snapshot_id,
                            database_id: built.database_id@,
                            physical_format_major: built.physical_format_major,
                            physical_format_minor: built.physical_format_minor,
                        },
                    ),
                    ..run
                },
                0,
            ),
        },
        (SnapshotPhase::CopyMembers, SnapshotEvent::Copied(r)) => match r {
            Err(e) => snapshot_failed(run, e@),
            Ok(_) => members_copied(run, run.copied + 1),
        },
        (SnapshotPhase::Commit, SnapshotEvent::Committed(r)) => match r {
            Err(fault) => snapshot_failed(
                if fault.manifest_exists {
                    directory_kept(run)
                } else {
                    run
                },
                format_refusal(fault.text@),
            ),
            Ok(_) => snapshot_at(directory_kept(run), SnapshotPhase::Retain),
        },
        (SnapshotPhase::Retain, SnapshotEvent::Retained) => SnapshotView {
            phase: SnapshotPhase::Done,
            end: Some(Ok(())),
            ..run
        },
        _ => run,
    }
}

/// What a snapshot asks for.
pub open spec fn snapshot_action(run: SnapshotView) -> SnapshotAction {
    match run.phase {
        SnapshotPhase::CreateRoot => SnapshotAction::CreateRoot,
        SnapshotPhase::ClaimSlot => SnapshotAction::ClaimSlot,
        SnapshotPhase::ShareDdl => SnapshotAction::ShareDdl,
        SnapshotPhase::LockCheckpoint => SnapshotAction::LockCheckpoint,
        SnapshotPhase::HoldCommits => SnapshotAction::HoldCommits,
        SnapshotPhase::Pin => SnapshotAction::Pin,
        SnapshotPhase::FreezeLog => SnapshotAction::FreezeLog,
        SnapshotPhase::CreateDirectory => SnapshotAction::CreateDirectory,
        SnapshotPhase::CopyLog => SnapshotAction::CopyLog { index: run.copied },
        SnapshotPhase::BuildManifest => SnapshotAction::BuildManifest,
        SnapshotPhase::CopyMembers => SnapshotAction::CopyMember { index: run.copied },
        SnapshotPhase::Commit => SnapshotAction::Commit,
        SnapshotPhase::Retain => SnapshotAction::Retain,
        SnapshotPhase::Done => SnapshotAction::Finish,
    }
}

/// The snapshot is known by the identity that its directory was made for.
pub open spec fn is_identified(run: SnapshotView) -> bool {
    run.identity matches Some(identity) && identity.snapshot_id == run.snapshot_id
}

/// Counters, directory and identity agree with the phase.
pub open spec fn snapshot_wf(run: SnapshotView) -> bool {
    &&& run.end is Some <==> run.phase == SnapshotPhase::Done
    &&& run.commits_held <==> run.phase == SnapshotPhase::Pin || run.phase
        == SnapshotPhase::FreezeLog
    &&& match run.phase {
        SnapshotPhase::CopyLog => run.copied < run.log_members && run.directory is Some
            && run.directory->0.incomplete,
        SnapshotPhase::BuildManifest => run.copied == run.log_members && run.directory is Some
            && run.directory->0.incomplete,
        SnapshotPhase::CopyMembers => run.copied < run.members && run.directory is Some
            && run.directory->0.incomplete && is_identified(run),
        SnapshotPhase::Commit => run.copied == run.members && run.directory is Some
            && run.directory->0.incomplete && is_identified(run),
        SnapshotPhase::Retain => run.copied == run.members && run.directory is Some
            && !run.directory->0.incomplete && is_identified(run),
        SnapshotPhase::Done => run.end == Some(Ok::<(), ErrorView>(())) ==> run.directory is Some
            && !run.directory->0.incomplete && is_identified(run),
        _ => run.directory is None,
    }
}

/// Starts a snapshot where one can be taken.
pub fn create_physical_snapshot_cancellable(open: bool, in_memory: bool, enabled: bool) -> (r:
    Result<SnapshotRun, Error>)
    ensures
        match r {
            Ok(run) => run@ == started_snapshot() && persistence_refusal(
                open,
                in_memory,
                enabled,
                "SNAPSHOT requires a persistent database"@,
                "SNAPSHOT requires an enabled persistent database"@,
            ) is None,
            Err(e) => persistence_refusal(
                open,
                in_memory,
                enabled,
                "SNAPSHOT requires a persistent database"@,
                "SNAPSHOT requires an enabled persistent database"@,
            ) == Some(e@),
        },
{
    if !open {
        return Err(Error::EngineNotOpen);
    }
    if in_memory {
        return Err(Error::invalid_argument("SNAPSHOT requires a persistent database"));
    }
    if !enabled {
        return Err(Error::invalid_argument("SNAPSHOT requires an enabled persistent database"));
    }
    Ok(
        SnapshotRun {
            phase: SnapshotPhase::CreateRoot,
            slot_tried: false,
            commits_held: false,
            log_members: 0,
            members: 0,
            copied: 0,
            snapshot_id: String::new(),
            directory: None,
            identity: None,
            end: None,
        },
    )
}

impl SnapshotRun {
    pub fn action(&self) -> (r: SnapshotAction)
        ensures
            r == snapshot_action(self@),
    {
        match self.phase {
            SnapshotPhase::CreateRoot => SnapshotAction::CreateRoot,
            SnapshotPhase::ClaimSlot => SnapshotAction::ClaimSlot,
            SnapshotPhase::ShareDdl => SnapshotAction::ShareDdl,
            SnapshotPhase::LockCheckpoint => SnapshotAction::LockCheckpoint,
            SnapshotPhase::HoldCommits => SnapshotAction::HoldCommits,
            SnapshotPhase::Pin => SnapshotAction::Pin,
            SnapshotPhase::FreezeLog => SnapshotAction::FreezeLog,
            SnapshotPhase::CreateDirectory => SnapshotAction::CreateDirectory,
            SnapshotPhase::CopyLog => SnapshotAction::CopyLog { index: self.copied },
            SnapshotPhase::BuildManifest => SnapshotAction::BuildManifest,
            SnapshotPhase::CopyMembers => SnapshotAction::CopyMember { index: self.copied },
            SnapshotPhase::Commit => SnapshotAction::Commit,
            SnapshotPhase::Retain => SnapshotAction::Retain,
            SnapshotPhase::Done => SnapshotAction::Finish,
        }
    }

    /// Whether to ask the caller before the next action.
    pub fn asks_caller(&self) -> (r: bool)
        ensures
            r == asks_caller(self@),
    {
        match self.phase {
            SnapshotPhase::ClaimSlot => self.slot_tried,
            SnapshotPhase::ShareDdl
            | SnapshotPhase::LockCheckpoint
            | SnapshotPhase::HoldCommits
            | SnapshotPhase::CopyLog
            | SnapshotPhase::CopyMembers => true,
            _ => false,
        }
    }

    fn fail(&mut self, error: Error)
        ensures
            final(self)@ == snapshot_failed(old(self)@, error@),
    {
        self.phase = SnapshotPhase::Done;
        self.commits_held = false;
        self.end = Some(Err(error));
    }

    fn fail_text(&mut self, before: &str, path: &str, text: &str)
        ensures
            final(self)@ == snapshot_failed(
                old(self)@,
                ErrorView::Internal(before@ + path@ + "': "@ + text@),
            ),
    {
        self.fail(
            Error::Internal {
                message: String::from_str(before).concat(path).concat("': ").concat(text),
            },
        );
    }

    fn keep_directory(&mut self)
        ensures
            final(self)@ == directory_kept(old(self)@),
    {
        match &mut self.directory {
            None => {},
            Some(directory) => {
                directory.disarm();
            },
        }
    }

    /// Takes in what came of the last action and says what is next.
    pub fn advance(&mut self, event: SnapshotEvent) -> (r: SnapshotAction)
        requires
            snapshot_wf(old(self)@),
        ensures
            snapshot_wf(final(self)@),
            final(self)@ == snapshot_next(old(self)@, event),
            r == snapshot_action(final(self)@),
    {
        match (self.phase, event) {
            (_, SnapshotEvent::Cancelled) => {
                if self.asks_caller() {
                    self.fail(Error::QueryCancelled);
                }
            },
            (SnapshotPhase::CreateRoot, SnapshotEvent::RootMade { path, outcome }) => {
                match outcome {
                    Err(text) => self.fail_text(
                        "failed to create physical snapshot root '",
                        path.as_str(),
                        text.as_str(),
                    ),
                    Ok(_) => {
                        self.phase = SnapshotPhase::ClaimSlot;
                    },
                }
            },
            (SnapshotPhase::ClaimSlot, SnapshotEvent::Tried { taken }) => {
                if taken {
                    self.phase = SnapshotPhase::ShareDdl;
                } else {
                    self.slot_tried = true;
                }
            },
            (SnapshotPhase::ShareDdl, SnapshotEvent::Tried { taken }) => {
                if taken {
                    self.phase = SnapshotPhase::LockCheckpoint;
                }
            },
            (SnapshotPhase::LockCheckpoint, SnapshotEvent::LockTried(tried)) => {
                match lock_checkpoint_mutex_cancellable(false, &tried) {
                    Ok(LockStep::Proceed) => {
                        self.phase = SnapshotPhase::HoldCommits;
                    },
                    Ok(LockStep::Wait) => {},
                    Err(e) => self.fail(e),
                }
            },
            (SnapshotPhase::HoldCommits, SnapshotEvent::Tried { taken }) => {
                if taken {
                    self.phase = SnapshotPhase::Pin;
                    self.commits_held = true;
                }
            },
            (SnapshotPhase::Pin, SnapshotEvent::Pinned(pinned)) => match pinned {
                None => self.fail(
                    Error::internal(
                        "physical generation publisher is unavailable during snapshot",
                    ),
                ),
                Some(Err(text)) => self.fail(snapshot_format_error(text.as_str())),
                Some(Ok(_)) => {
                    self.phase = SnapshotPhase::FreezeLog;
                },
            },
            (SnapshotPhase::FreezeLog, SnapshotEvent::Frozen(r)) => match r {
                Err(e) => self.fail(e),
                Ok(log_members) => {
                    self.phase = SnapshotPhase::CreateDirectory;
                    self.commits_held = false;
                    self.log_members = log_members;
                },
            },
            (
                SnapshotPhase::CreateDirectory,
                SnapshotEvent::DirectoryMade { snapshot_id, path, outcome },
            ) => {
                match outcome {
                    Err(text) => self.fail_text(
                        "failed to create physical snapshot directory '",
                        path.as_str(),
                        text.as_str(),
                    ),
                    Ok(_) => {
                        self.snapshot_id = snapshot_id;
                        self.directory = Some(IncompleteSnapshot::new(path));
                        self.copied = 0;
                        self.phase = if self.log_members > 0 {
                            SnapshotPhase::CopyLog
                        } else {
                            SnapshotPhase::BuildManifest
                        };
                    },
                }
            },
            (SnapshotPhase::CopyLog, SnapshotEvent::Copied(r)) => match r {
                Err(e) => self.fail(e),
                Ok(_) => {
                    self.copied = self.copied + 1;
                    if self.copied == self.log_members {
                        self.phase = SnapshotPhase::BuildManifest;
                    }
                },
            },
            (SnapshotPhase::BuildManifest, SnapshotEvent::Built(r)) => match r {
                Err(e) => self.fail(e),
                Ok(built) => {
                    self.members = built.members;
                    self.identity = Some(
                        PhysicalSnapshotIdentity {
                            snapshot_id: self.snapshot_id.clone(),
                            database_id: built.database_id,
                            physical_format_major: built.physical_format_major,
                            physical_format_minor: built.physical_format_minor,
                        },
                    );
                    self.copied = 0;
                    self.phase = if built.members > 0 {
                        SnapshotPhase::CopyMembers
                    } else {
                        SnapshotPhase::Commit
                    };
                },
            },
            (SnapshotPhase::CopyMembers, SnapshotEvent::Copied(r)) => match r {
                Err(e) => self.fail(e),
                Ok(_) => {
                    self.copied = self.copied + 1;
                    if self.copied == self.members {
                        self.phase = SnapshotPhase::Commit;
                    }
                },
            },
            (SnapshotPhase::Commit, SnapshotEvent::Committed(r)) => match r {
                Err(fault) => {
                    if fault.manifest_exists {
                        self.keep_directory();
                    }
                    self.fail(snapshot_format_error(fault.text.as_str()));
                },
                Ok(_) => {
                    self.keep_directory();
                    self.phase = SnapshotPhase::Retain;
                },
            },
            (SnapshotPhase::Retain, SnapshotEvent::Retained) => {
                self.phase = SnapshotPhase::Done;
                self.end = Some(Ok(()));
            },
            _ => {},
        }
        self.action()
    }

    /// What the snapshot is known by or why it failed, once it is done, and
    /// the directory to remove where it stayed incomplete.
    pub fn outcome(self) -> (r: (
        Option<Result<PhysicalSnapshotIdentity, Error>>,
        Option<String>,
    ))
        requires
            snapshot_wf(self@),
        ensures
            match r.0 {
                None => self@.end is None,
                Some(Ok(identity)) => self@.end == Some(Ok::<(), ErrorView>(()))
                    && self@.identity == Some(identity@),
                Some(Err(e)) => self@.end == Some(Err::<(), ErrorView>(e@)),
            },
            match r.1 {
                Some(path) => self@.directory == Some(
                    DirectoryView { path: path@, incomplete: true },
                ),
                None => self@.directory is None || !self@.directory->0.incomplete,
            },
    {
        let remove: Option<String> = match self.directory {
            None => None,
            Some(directory) => directory.finish(),
        };
        let end: Option<Result<PhysicalSnapshotIdentity, Error>> = match self.end {
            None => None,
            Some(Err(e)) => Some(Err(e)),
            Some(Ok(())) => match self.identity {
                Some(identity) => Some(Ok(identity)),
                None => None,
            },
        };
        (end, remove)
    }
}

/// A run that starts is sound.
pub proof fn law_snapshot_starts_sound()
    ensures
        snapshot_wf(started_snapshot()),
{
}

/// Nothing is copied while commits are held off.
pub proof fn law_commits_go_on_while_copying(run: SnapshotView)
    requires
        snapshot_wf(run),
        run.phase == SnapshotPhase::CopyLog || run.phase == SnapshotPhase::CopyMembers,
    ensures
        !run.commits_held,
{
}

/// A manifest is committed only over members that were all copied, and under
/// the identity that the directory was made for.
pub proof fn law_committed_snapshot_is_complete(run: SnapshotView, event: SnapshotEvent)
    requires
        snapshot_wf(run),
        snapshot_next(run, event).end == Some(Ok::<(), ErrorView>(())),
        run.end is None,
    ensures
        run.phase == SnapshotPhase::Retain,
        run.copied == run.members,
        is_identified(snapshot_next(run, event)),
{
}

/// A snapshot that fails leaves no directory behind, unless its manifest was
/// committed all the same.
pub proof fn law_failed_snapshot_is_removed(run: SnapshotView, event: SnapshotEvent)
    requires
        snapshot_wf(run),
        run.end is None,
        run.directory is Some,
        snapshot_next(run, event).end matches Some(Err(_)),
    ensures
        snapshot_next(run, event).directory == run.directory && run.directory->0.incomplete || (
        event matches SnapshotEvent::Committed(Err(fault)) && fault.manifest_exists),
{
}

/// Wherever the caller is asked, giving up ends the snapshot and frees what it
/// holds.
pub proof fn law_snapshot_can_be_given_up(run: SnapshotView)
    requires
        snapshot_wf(run),
        asks_caller(run),
    ensures
        snapshot_next(run, SnapshotEvent::Cancelled).end == Some(
            Err::<(), ErrorView>(ErrorView::QueryCancelled),
        ),
        !snapshot_next(run, SnapshotEvent::Cancelled).commits_held,
        snapshot_next(run, SnapshotEvent::Cancelled).directory == run.directory,
{
}

} // verus!
