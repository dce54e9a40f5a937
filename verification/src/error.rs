//! Errors that the engine's decisions report.
use vstd::prelude::*;
use vstd::string::StringExecFns;

verus! {

/// Everything a verified operation can refuse with.
#[derive(Debug)]
pub enum Error {
    Internal { message: String },
    InvalidArgument(String),
    NotSupported(String),
    EngineNotOpen,
    QueryCancelled,
    LockAcquisitionFailed(String),
    TableNotFound(String),
    TableAlreadyExists(String),
    ViewAlreadyExists(String),
    ColumnNotFound(String),
    DuplicateColumn,
    IndexNotFound(String),
    IndexAlreadyExists(String),
    PrimaryKeyConstraint { row_id: i64 },
    UniqueConstraint { index: String, column: String, value: String, row_id: i64 },
    ForeignKeyViolation {
        table: String,
        column: String,
        referenced_table: String,
        referenced_column: String,
        detail: String,
    },
    WalDurabilityUncertain { detail: String },
    CompactionBackpressure {
        table: String,
        segments: u64,
        physical_bytes: u64,
        hard_segments: u64,
        hard_bytes: u64,
    },
}

/// Mathematical content of an [`Error`].
pub enum ErrorView {
    Internal(Seq<char>),
    InvalidArgument(Seq<char>),
    NotSupported(Seq<char>),
    EngineNotOpen,
    QueryCancelled,
    LockAcquisitionFailed(Seq<char>),
    TableNotFound(Seq<char>),
    TableAlreadyExists(Seq<char>),
    ViewAlreadyExists(Seq<char>),
    ColumnNotFound(Seq<char>),
    DuplicateColumn,
    IndexNotFound(Seq<char>),
    IndexAlreadyExists(Seq<char>),
    PrimaryKeyConstraint(int),
    UniqueConstraint(Seq<char>, Seq<char>, Seq<char>, int),
    ForeignKeyViolation(Seq<char>, Seq<char>, Seq<char>, Seq<char>, Seq<char>),
    WalDurabilityUncertain(Seq<char>),
    CompactionBackpressure(Seq<char>, int, int, int, int),
}

impl View for Error {
    type V = ErrorView;

    open spec fn view(&self) -> ErrorView {
        match self {
            Error::Internal { message } => ErrorView::Internal(message@),
            Error::InvalidArgument(m) => ErrorView::InvalidArgument(m@),
            Error::NotSupported(m) => ErrorView::NotSupported(m@),
            Error::EngineNotOpen => ErrorView::EngineNotOpen,
            Error::QueryCancelled => ErrorView::QueryCancelled,
            Error::LockAcquisitionFailed(m) => ErrorView::LockAcquisitionFailed(m@),
            Error::TableNotFound(m) => ErrorView::TableNotFound(m@),
            Error::TableAlreadyExists(m) => ErrorView::TableAlreadyExists(m@),
            Error::ViewAlreadyExists(m) => ErrorView::ViewAlreadyExists(m@),
            Error::ColumnNotFound(m) => ErrorView::ColumnNotFound(m@),
            Error::DuplicateColumn => ErrorView::DuplicateColumn,
            Error::IndexNotFound(m) => ErrorView::IndexNotFound(m@),
            Error::IndexAlreadyExists(m) => ErrorView::IndexAlreadyExists(m@),
            Error::PrimaryKeyConstraint { row_id } => ErrorView::PrimaryKeyConstraint(
                *row_id as int,
            ),
            Error::UniqueConstraint { index, column, value, row_id } => ErrorView::UniqueConstraint(
                index@,
                column@,
                value@,
                *row_id as int,
            ),
            Error::ForeignKeyViolation {
                table,
                column,
                referenced_table,
                referenced_column,
                detail,
            } => ErrorView::ForeignKeyViolation(
                table@,
                column@,
                referenced_table@,
                referenced_column@,
                detail@,
            ),
            Error::WalDurabilityUncertain { detail } => ErrorView::WalDurabilityUncertain(detail@),
            Error::CompactionBackpressure {
                table,
                segments,
                physical_bytes,
                hard_segments,
                hard_bytes,
            } => ErrorView::CompactionBackpressure(
                table@,
                *segments as int,
                *physical_bytes as int,
                *hard_segments as int,
                *hard_bytes as int,
            ),
        }
    }
}

/// The outcome of a unit operation, with the error taken by its content.
pub open spec fn refusal<T>(r: Result<T, Error>) -> Option<ErrorView> {
    match r {
        Ok(_) => None,
        Err(e) => Some(e@),
    }
}

/// An outcome taken by its content.
pub open spec fn outcome<T: View>(r: Result<T, Error>) -> Result<T::V, ErrorView> {
    match r {
        Ok(value) => Ok(value@),
        Err(e) => Err(e@),
    }
}

/// The first refusal of checks `i`, `i + 1`, .. below `n`.
pub open spec fn first_refusal(
    i: int,
    n: int,
    check: spec_fn(int) -> Option<ErrorView>,
) -> Option<ErrorView>
    decreases n - i,
{
    if i >= n {
        None
    } else if check(i) is Some {
        check(i)
    } else {
        first_refusal(i + 1, n, check)
    }
}

/// No refusal at all means that no check refused.
pub proof fn lemma_no_refusal(i: int, n: int, check: spec_fn(int) -> Option<ErrorView>)
    requires
        first_refusal(i, n, check) is None,
    ensures
        forall|k: int| i <= k < n ==> (#[trigger] check(k)) is None,
    decreases n - i,
{
    if i < n {
        lemma_no_refusal(i + 1, n, check);
    }
}

/// Whether checks below `n`, made in their order, can end so: all pass, or one
/// refuses behind others that pass. `may` says what a check can come to.
pub open spec fn may_end(
    n: int,
    may: spec_fn(int, Option<ErrorView>) -> bool,
    r: Option<ErrorView>,
) -> bool {
    match r {
        None => forall|k: int| 0 <= k < n ==> #[trigger] may(k, None),
        Some(_) => exists|i: int|
            0 <= i < n && #[trigger] may(i, r) && forall|k: int|
                0 <= k < i ==> #[trigger] may(k, None),
    }
}

/// Whether two checks made in this order can end so.
pub open spec fn ends_in_turn(
    first: spec_fn(Option<ErrorView>) -> bool,
    second: spec_fn(Option<ErrorView>) -> bool,
    r: Option<ErrorView>,
) -> bool {
    (r is Some && first(r)) || (first(None) && second(r))
}

/// Checks that can each come to one thing alone have one end.
pub proof fn lemma_one_end(
    n: int,
    may: spec_fn(int, Option<ErrorView>) -> bool,
    a: Option<ErrorView>,
    b: Option<ErrorView>,
)
    requires
        forall|k: int, x: Option<ErrorView>, y: Option<ErrorView>|
            0 <= k < n && #[trigger] may(k, x) && #[trigger] may(k, y) ==> x == y,
        may_end(n, may, a),
        may_end(n, may, b),
    ensures
        a == b,
{
    if a is Some && b is Some {
        let i = choose|i: int|
            0 <= i < n && #[trigger] may(i, a) && forall|k: int|
                0 <= k < i ==> #[trigger] may(k, None);
        let j = choose|j: int|
            0 <= j < n && #[trigger] may(j, b) && forall|k: int|
                0 <= k < j ==> #[trigger] may(k, None);
        if i < j {
            assert(may(i, None));
        } else if j < i {
            assert(may(j, None));
        }
    } else if a is Some {
        let i = choose|i: int|
            0 <= i < n && #[trigger] may(i, a) && forall|k: int|
                0 <= k < i ==> #[trigger] may(k, None);
        assert(may(i, None));
    } else if b is Some {
        let j = choose|j: int|
            0 <= j < n && #[trigger] may(j, b) && forall|k: int|
                0 <= k < j ==> #[trigger] may(k, None);
        assert(may(j, None));
    }
}

/// The first refusal of two checks made in this order.
pub open spec fn earlier(a: Option<ErrorView>, b: Option<ErrorView>) -> Option<ErrorView> {
    if a is Some {
        a
    } else {
        b
    }
}

impl Error {
    pub fn internal(message: &str) -> (e: Error)
        ensures
            e@ == ErrorView::Internal(message@),
    {
        Error::Internal { message: String::from_str(message) }
    }

    pub fn invalid_argument(message: &str) -> (e: Error)
        ensures
            e@ == ErrorView::InvalidArgument(message@),
    {
        Error::InvalidArgument(String::from_str(message))
    }

    /// An equal error of its own.
    pub fn duplicate(&self) -> (e: Error)
        ensures
            e@ == self@,
    {
        match self {
            Error::Internal { message } => Error::Internal { message: message.clone() },
            Error::InvalidArgument(m) => Error::InvalidArgument(m.clone()),
            Error::NotSupported(m) => Error::NotSupported(m.clone()),
            Error::EngineNotOpen => Error::EngineNotOpen,
            Error::QueryCancelled => Error::QueryCancelled,
            Error::LockAcquisitionFailed(m) => Error::LockAcquisitionFailed(m.clone()),
            Error::TableNotFound(m) => Error::TableNotFound(m.clone()),
            Error::TableAlreadyExists(m) => Error::TableAlreadyExists(m.clone()),
            Error::ViewAlreadyExists(m) => Error::ViewAlreadyExists(m.clone()),
            Error::ColumnNotFound(m) => Error::ColumnNotFound(m.clone()),
            Error::DuplicateColumn => Error::DuplicateColumn,
            Error::IndexNotFound(m) => Error::IndexNotFound(m.clone()),
            Error::IndexAlreadyExists(m) => Error::IndexAlreadyExists(m.clone()),
            Error::PrimaryKeyConstraint { row_id } => Error::PrimaryKeyConstraint {
                row_id: *row_id,
            },
            Error::UniqueConstraint { index, column, value, row_id } => Error::UniqueConstraint {
                index: index.clone(),
                column: column.clone(),
                value: value.clone(),
                row_id: *row_id,
            },
            Error::ForeignKeyViolation {
                table,
                column,
                referenced_table,
                referenced_column,
                detail,
            } => Error::ForeignKeyViolation {
                table: table.clone(),
                column: column.clone(),
                referenced_table: referenced_table.clone(),
                referenced_column: referenced_column.clone(),
                detail: detail.clone(),
            },
            Error::WalDurabilityUncertain { detail } => Error::WalDurabilityUncertain {
                detail: detail.clone(),
            },
            Error::CompactionBackpressure {
                table,
                segments,
                physical_bytes,
                hard_segments,
                hard_bytes,
            } => Error::CompactionBackpressure {
                table: table.clone(),
                segments: *segments,
                physical_bytes: *physical_bytes,
                hard_segments: *hard_segments,
                hard_bytes: *hard_bytes,
            },
        }
    }
}

} // verus!
