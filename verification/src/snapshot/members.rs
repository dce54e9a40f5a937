//! The files of a snapshot: where they come from and how they are copied.
use crate::checksum::sha256;
use crate::checksum::Sha256Stream;
use crate::error::refusal;
use crate::error::Error;
use crate::error::ErrorView;
use crate::num::spec_min;
use crate::text::decimal;
use crate::text::decimal_digits;
use vstd::prelude::*;
use vstd::string::StringExecFns;

verus! {

/// What a member of a snapshot is.
#[derive(Debug, Clone, Copy, PartialEq, Eq, Structural)]
pub enum SnapshotMemberKind {
    DatabaseManifest,
    Catalog,
    TableManifest,
    Data,
    Index,
    Wal,
}

/// A member and the file it is copied from.
#[derive(Debug)]
pub struct MemberSource {
    pub kind: SnapshotMemberKind,
    pub id: u128,
    pub path: String,
}

/// A member's identity.
pub open spec fn has_identity(source: MemberSource, kind: SnapshotMemberKind, id: u128) -> bool {
    source.kind == kind && source.id == id
}

pub open spec fn lists_member(
    sources: Seq<MemberSource>,
    kind: SnapshotMemberKind,
    id: u128,
) -> bool {
    exists|i: int| 0 <= i < sources.len() && has_identity(#[trigger] sources[i], kind, id)
}

/// No identity occurs twice.
pub open spec fn distinct_members(sources: Seq<MemberSource>) -> bool {
    forall|i: int, j: int|
        0 <= i < j < sources.len() ==> !has_identity(
            #[trigger] sources[i],
            (#[trigger] sources[j]).kind,
            sources[j].id,
        )
}

fn find_member(sources: &Vec<MemberSource>, kind: SnapshotMemberKind, id: u128) -> (r: Option<usize>)
    ensures
        match r {
            Some(i) => i < sources@.len() && has_identity(sources@[i as int], kind, id),
            None => !lists_member(sources@, kind, id),
        },
{
    let mut i: usize = 0;
    while i < sources.len()
        invariant
            0 <= i <= sources@.len(),
            forall|k: int| 0 <= k < i ==> !has_identity(#[trigger] sources@[k], kind, id),
        decreases sources@.len() - i,
    {
        if sources[i].kind == kind && sources[i].id == id {
            return Some(i);
        }
        i = i + 1;
    }
    None
}

/// Adds a member; a generation has each only once.
pub fn insert_source(sources: &mut Vec<MemberSource>, source: MemberSource) -> (r: Result<(), Error>)
    requires
        distinct_members(old(sources)@),
    ensures
        refusal(r) == (if lists_member(old(sources)@, source.kind, source.id) {
            Some(ErrorView::Internal("physical snapshot generation repeats a member identity"@))
        } else {
            None
        }),
        r is Ok ==> final(sources)@ == old(sources)@.push(source) && distinct_members(
            final(sources)@,
        ),
        r is Err ==> final(sources)@ == old(sources)@,
{
    match find_member(sources, source.kind, source.id) {
        Some(i) => {
            assert(has_identity(sources@[i as int], source.kind, source.id));
            Err(Error::internal("physical snapshot generation repeats a member identity"))
        },
        None => {
            sources.push(source);
            Ok(())
        },
    }
}

pub open spec fn sources_refusal(all: Seq<MemberSource>, expected: nat) -> Option<ErrorView> {
    if !distinct_members(all) {
        Some(ErrorView::Internal("physical snapshot generation repeats a member identity"@))
    } else if all.len() != expected {
        Some(
            ErrorView::Internal(
                "physical snapshot source count "@ + decimal_digits(all.len())
                    + " differs from manifest count "@ + decimal_digits(expected),
            ),
        )
    } else {
        None
    }
}

/// A file that a generation names by an identity.
#[derive(Debug)]
pub struct NamedFile {
    pub id: u128,
    pub path: String,
}

/// An artifact of a generation.
#[derive(Debug)]
pub struct ArtifactFile {
    pub is_index: bool,
    pub file: NamedFile,
}

/// What a generation consists of, but for its log.
#[derive(Debug)]
pub struct GenerationFiles {
    pub database_manifest: NamedFile,
    pub catalog: NamedFile,
    pub tables: Vec<NamedFile>,
    pub artifacts: Vec<ArtifactFile>,
}

pub open spec fn source_of(kind: SnapshotMemberKind, file: NamedFile) -> MemberSource {
    MemberSource { kind, id: file.id, path: file.path }
}

pub open spec fn table_source() -> spec_fn(NamedFile) -> MemberSource {
    |file: NamedFile| source_of(SnapshotMemberKind::TableManifest, file)
}

pub open spec fn artifact_source() -> spec_fn(ArtifactFile) -> MemberSource {
    |artifact: ArtifactFile|
        source_of(
            if artifact.is_index {
                SnapshotMemberKind::Index
            } else {
                SnapshotMemberKind::Data
            },
            artifact.file,
        )
}

/// The members of a generation with their files: its manifest, its catalog,
/// the manifests of its tables and its artifacts.
pub open spec fn generation_sources(g: GenerationFiles) -> Seq<MemberSource> {
    seq![
        source_of(SnapshotMemberKind::DatabaseManifest, g.database_manifest),
        source_of(SnapshotMemberKind::Catalog, g.catalog),
    ] + g.tables@.map_values(table_source()) + g.artifacts@.map_values(artifact_source())
}

fn collect_sources(g: GenerationFiles) -> (all: Vec<MemberSource>)
    ensures
        all@ == generation_sources(g),
{
    let ghost front = seq![
        source_of(SnapshotMemberKind::DatabaseManifest, g.database_manifest),
        source_of(SnapshotMemberKind::Catalog, g.catalog),
    ];
    let ghost listed = g.tables@.map_values(table_source());
    let ghost held = g.artifacts@.map_values(artifact_source());
    let mut all: Vec<MemberSource> = Vec::new();
    all.push(
        MemberSource {
            kind: SnapshotMemberKind::DatabaseManifest,
            id: g.database_manifest.id,
            path: g.database_manifest.path,
        },
    );
    all.push(
        MemberSource { kind: SnapshotMemberKind::Catalog, id: g.catalog.id, path: g.catalog.path },
    );
    assert(all@ =~= front);
    let mut tables: Vec<NamedFile> = g.tables;
    assert(front + tables@.map_values(table_source()) =~= front + listed);
    while tables.len() > 0
        invariant
            all@ + tables@.map_values(table_source()) == front + listed,
        decreases tables@.len(),
    {
        let ghost before = all@;
        let ghost waiting = tables@;
        let file: NamedFile = tables.remove(0);
        all.push(
            MemberSource { kind: SnapshotMemberKind::TableManifest, id: file.id, path: file.path },
        );
        assert(all@ + tables@.map_values(table_source()) =~= before + waiting.map_values(
            table_source(),
        ));
    }
    assert(all@ =~= front + listed);
    let mut artifacts: Vec<ArtifactFile> = g.artifacts;
    while artifacts.len() > 0
        invariant
            all@ + artifacts@.map_values(artifact_source()) == front + listed + held,
        decreases artifacts@.len(),
    {
        let ghost before = all@;
        let ghost waiting = artifacts@;
        let artifact: ArtifactFile = artifacts.remove(0);
        let kind: SnapshotMemberKind = if artifact.is_index {
            SnapshotMemberKind::Index
        } else {
            SnapshotMemberKind::Data
        };
        all.push(MemberSource { kind, id: artifact.file.id, path: artifact.file.path });
        assert(all@ + artifacts@.map_values(artifact_source()) =~= before + waiting.map_values(
            artifact_source(),
        ));
    }
    assert(all@ =~= front + listed + held);
    all
}

/// Members below `n` that are not of the log.
pub open spec fn counted_members(members: Seq<SnapshotMemberKind>, n: int) -> nat
    decreases n,
{
    if n <= 0 {
        0
    } else if members[n - 1] == SnapshotMemberKind::Wal {
        counted_members(members, n - 1)
    } else {
        counted_members(members, n - 1) + 1
    }
}

/// How many members a snapshot's manifest lists, but for those of the log.
pub fn expected_sources(members: &Vec<SnapshotMemberKind>) -> (r: usize)
    ensures
        r == counted_members(members@, members@.len() as int),
{
    let mut count: usize = 0;
    let mut i: usize = 0;
    while i < members.len()
        invariant
            0 <= i <= members@.len(),
            count == counted_members(members@, i as int),
            count <= i,
        decreases members@.len() - i,
    {
        if members[i] != SnapshotMemberKind::Wal {
            count = count + 1;
        }
        i = i + 1;
    }
    count
}

/// The files of a generation, one for each member but the log's. `members`
/// are those that the snapshot's manifest lists.
pub fn physical_member_sources(
    generation: GenerationFiles,
    members: &Vec<SnapshotMemberKind>,
) -> (r: Result<Vec<MemberSource>, Error>)
    ensures
        refusal(r) == sources_refusal(
            generation_sources(generation),
            counted_members(members@, members@.len() as int),
        ),
        r matches Ok(sources) ==> {
            &&& sources@ == generation_sources(generation)
            &&& distinct_members(sources@)
            &&& forall|i: int|
                0 <= i < sources@.len() ==> (#[trigger] sources@[i]).kind != SnapshotMemberKind::Wal
        },
{
    let all: Vec<MemberSource> = collect_sources(generation);
    let expected: usize = expected_sources(members);
    check_sources(all, expected)
}

/// Refuses members that repeat or are not as many as expected.
fn check_sources(all: Vec<MemberSource>, expected: usize) -> (r: Result<Vec<MemberSource>, Error>)
    ensures
        refusal(r) == sources_refusal(all@, expected as nat),
        r matches Ok(sources) ==> sources@ == all@ && distinct_members(sources@),
{
    let ghost whole = all@;
    let mut rest: Vec<MemberSource> = all;
    let mut sources: Vec<MemberSource> = Vec::new();
    while rest.len() > 0
        invariant
            whole == all@,
            sources@ + rest@ == whole,
            distinct_members(sources@),
        decreases rest@.len(),
    {
        let ghost before = sources@;
        let source: MemberSource = rest.remove(0);
        let ghost seen = source;
        match insert_source(&mut sources, source) {
            Err(e) => {
                proof {
                    let i = choose|i: int|
                        0 <= i < before.len() && has_identity(
                            #[trigger] before[i],
                            seen.kind,
                            seen.id,
                        );
                    assert(whole[i] == before[i]);
                    assert(whole[before.len() as int] == seen);
                    assert(!distinct_members(whole));
                }
                return Err(e);
            },
            Ok(()) => {},
        }
        assert(sources@ + rest@ =~= whole);
    }
    assert(sources@ =~= whole);
    if sources.len() != expected {
        return Err(
            Error::Internal {
                message: String::from_str("physical snapshot source count ").concat(
                    decimal(sources.len() as u64).as_str(),
                ).concat(" differs from manifest count ").concat(
                    decimal(expected as u64).as_str(),
                ),
            },
        );
    }
    Ok(sources)
}

/// The file of a member.
pub fn member_source<'a>(
    sources: &'a Vec<MemberSource>,
    kind: SnapshotMemberKind,
    id: u128,
) -> (r: Result<&'a String, Error>)
    ensures
        refusal(r) == (if lists_member(sources@, kind, id) {
            None
        } else {
            Some(ErrorView::Internal("snapshot member has no physical source"@))
        }),
        r matches Ok(path) ==> exists|i: int|
            0 <= i < sources@.len() && has_identity(#[trigger] sources@[i], kind, id)
                && sources@[i].path == *path,
{
    match find_member(sources, kind, id) {
        Some(i) => {
            assert(has_identity(sources@[i as int], kind, id));
            Ok(&sources[i].path)
        },
        None => Err(Error::internal("snapshot member has no physical source")),
    }
}

/// Bytes that are copied at once.
pub const COPY_BUFFER_BYTES: usize = 65536;

/// A member being copied.
#[derive(Debug)]
pub struct SnapshotCopy {
    source: String,
    expected: u64,
    remaining: u64,
    /// Hasher of the bytes so far, where their digest is wanted.
    content: Option<Sha256Stream>,
}

impl SnapshotCopy {
    pub closed spec fn name(self) -> Seq<char> {
        self.source@
    }

    pub closed spec fn left(self) -> u64 {
        self.remaining
    }

    pub closed spec fn kept(self) -> Option<Seq<u8>> {
        match self.content {
            Some(bytes) => Some(bytes@),
            None => None,
        }
    }

    /// Starts on a file, which must be as long as its member says.
    pub fn new(source: &str, actual_bytes: u64, expected_bytes: u64, wants_digest: bool) -> (
        r: Result<Self, Error>)
        ensures
            refusal(r) == (if actual_bytes == expected_bytes {
                None
            } else {
                Some(
                    ErrorView::Internal(
                        "snapshot source '"@ + source@ + "' is "@ + decimal_digits(
                            actual_bytes as nat,
                        ) + " bytes; expected "@ + decimal_digits(expected_bytes as nat),
                    ),
                )
            }),
            r matches Ok(c) ==> c.name() == source@ && c.left() == expected_bytes && c.kept() == (
            if wants_digest {
                Some(Seq::<u8>::empty())
            } else {
                None
            }),
    {
        if actual_bytes != expected_bytes {
            return Err(
                Error::Internal {
                    message: String::from_str("snapshot source '").concat(source).concat(
                        "' is ",
                    ).concat(decimal(actual_bytes).as_str()).concat(" bytes; expected ").concat(
                        decimal(expected_bytes).as_str(),
                    ),
                },
            );
        }
        let content: Option<Sha256Stream> = if wants_digest {
            Some(Sha256Stream::new())
        } else {
            None
        };
        let c = SnapshotCopy {
            source: String::from_str(source),
            expected: expected_bytes,
            remaining: expected_bytes,
            content,
        };
        proof {
            if wants_digest {
                assert(c.kept()->Some_0 =~= Seq::<u8>::empty());
            }
        }
        Ok(c)
    }

    /// How many bytes to copy next; none when all are copied.
    pub fn next_length(&self) -> (r: Option<usize>)
        ensures
            r == (if self.left() == 0 {
                None
            } else {
                Some(spec_min(self.left() as int, COPY_BUFFER_BYTES as int) as usize)
            }),
    {
        if self.remaining == 0 {
            None
        } else if self.remaining < COPY_BUFFER_BYTES as u64 {
            Some(self.remaining as usize)
        } else {
            Some(COPY_BUFFER_BYTES)
        }
    }

    /// Notes the bytes that were copied. They need not be kept: at most one
    /// buffer of them is at hand at a time.
    pub fn copied(&mut self, bytes: &Vec<u8>)
        requires
            bytes@.len() <= old(self).left(),
        ensures
            final(self).name() == old(self).name(),
            final(self).left() == old(self).left() - bytes@.len(),
            final(self).kept() == match old(self).kept() {
                Some(before) => Some(before + bytes@),
                None => None,
            },
    {
        let n: usize = bytes.len();
        self.remaining = self.remaining - n as u64;
        match self.content.take() {
            Some(held) => {
                let mut held: Sha256Stream = held;
                held.update(bytes);
                self.content = Some(held);
            },
            None => {},
        }
    }

    /// Ends the copy. A source that has bytes behind the last one grew.
    pub fn finish(self, trailing: usize) -> (r: Result<Option<Vec<u8>>, Error>)
        requires
            self.left() == 0,
        ensures
            refusal(r) == (if trailing == 0 {
                None
            } else {
                Some(
                    ErrorView::Internal(
                        "snapshot source '"@ + self.name() + "' grew while being copied"@,
                    ),
                )
            }),
            r matches Ok(digest) ==> match (digest, self.kept()) {
                (Some(d), Some(content)) => d@ == sha256(content),
                (None, None) => true,
                _ => false,
            },
    {
        if trailing != 0 {
            return Err(
                Error::Internal {
                    message: String::from_str("snapshot source '").concat(
                        self.source.as_str(),
                    ).concat("' grew while being copied"),
                },
            );
        }
        match self.content {
            Some(content) => Ok(Some(content.finish())),
            None => Ok(None),
        }
    }
}

/// Copying moves on with every step, by no more than one buffer.
pub proof fn law_copy_steps_are_bounded(left: u64)
    requires
        left > 0,
    ensures
        0 < spec_min(left as int, COPY_BUFFER_BYTES as int) <= COPY_BUFFER_BYTES,
        left - spec_min(left as int, COPY_BUFFER_BYTES as int) < left,
{
}

/// Stops a snapshot that is no longer wanted.
pub fn check_snapshot_cancelled(cancelled: bool) -> (r: Result<(), Error>)
    ensures
        refusal(r) == (if cancelled {
            Some(ErrorView::QueryCancelled)
        } else {
            None
        }),
{
    if cancelled {
        Err(Error::QueryCancelled)
    } else {
        Ok(())
    }
}

/// Nanoseconds since the epoch, held to what 64 bits can say.
pub fn snapshot_unix_nanos(since_epoch_nanos: u128) -> (r: u64)
    ensures
        r == if since_epoch_nanos > u64::MAX {
            u64::MAX as int
        } else {
            since_epoch_nanos as int
        },
{
    crate::publication::control::unix_time_nanos(since_epoch_nanos)
}

/// A fault of the format layer.
pub fn snapshot_format_error(text: &str) -> (e: Error)
    ensures
        e@ == ErrorView::Internal("physical snapshot failed: "@ + text@),
{
    Error::Internal { message: String::from_str("physical snapshot failed: ").concat(text) }
}

/// A snapshot directory that goes away unless its manifest is committed.
#[derive(Debug)]
pub struct IncompleteSnapshot {
    pub path: String,
    pub armed: bool,
}

impl IncompleteSnapshot {
    pub fn new(path: String) -> (r: Self)
        ensures
            r.path@ == path@,
            r.armed,
    {
        IncompleteSnapshot { path, armed: true }
    }

    pub fn disarm(&mut self)
        ensures
            *final(self) == (IncompleteSnapshot { armed: false, ..*old(self) }),
    {
        self.armed = false;
    }

    /// What has to be removed when the owner is done.
    pub fn finish(self) -> (remove: Option<String>)
        ensures
            match remove {
                Some(path) => self.armed && path@ == self.path@,
                None => !self.armed,
            },
    {
        if self.armed {
            Some(self.path)
        } else {
            None
        }
    }
}

/// Why no snapshot can be taken or restored.
pub open spec fn persistence_refusal(
    open: bool,
    in_memory: bool,
    enabled: bool,
    no_files: Seq<char>,
    disabled: Seq<char>,
) -> Option<ErrorView> {
    if !open {
        Some(ErrorView::EngineNotOpen)
    } else if in_memory {
        Some(ErrorView::InvalidArgument(no_files))
    } else if !enabled {
        Some(ErrorView::InvalidArgument(disabled))
    } else {
        None
    }
}

} // verus!
