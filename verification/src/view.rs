//! View definitions and their binary form.
use crate::bytes::from_le16;
use crate::bytes::from_le32;
use crate::bytes::le16;
use crate::bytes::le16_bytes;
use crate::bytes::le32;
use crate::bytes::le32_bytes;
use crate::bytes::lemma_le16_read;
use crate::bytes::lemma_le32_read;
use crate::bytes::read_le16;
use crate::bytes::read_le32;
use crate::error::first_refusal;
use crate::error::lemma_no_refusal;
use crate::error::outcome;
use crate::error::refusal;
use crate::error::Error;
use crate::error::ErrorView;
use crate::model::duplicate_all;
use crate::model::same_all;
use crate::model::views;
use crate::model::Model;
use crate::sort::names_of;
use crate::sort::sorted_unique_names;
use crate::sort::strictly_ascending_names;
use crate::text::decimal;
use crate::text::decimal_digits;
use crate::text::is_blank;
use crate::text::is_blank_text;
use crate::text::is_text_before;
use crate::text::lemma_text_before_total;
use crate::text::lemma_text_before_transitive;
use crate::text::lowercase_text;
use crate::text::same_text;
use crate::text::text_before;
use crate::text::text_from_utf8;
use crate::text::to_lowercase;
use crate::text::utf8_error_text;
use vstd::prelude::*;
use vstd::slice::slice_subrange;
use vstd::slice::slice_to_vec;
use vstd::string::StringExecFns;
use vstd::utf8::decode_utf8;
use vstd::utf8::encode_utf8;
use vstd::utf8::valid_utf8;

verus! {

/// What a view was bound to. Only binding makes one, so a query and its
/// dependencies that differ from it are known to be stale.
#[derive(Debug)]
pub struct BoundQuery {
    query: String,
    dependencies: Vec<String>,
}

impl BoundQuery {
    /// Query that the dependencies were bound from.
    pub closed spec fn text(self) -> Seq<char> {
        self.query@
    }

    /// Dependencies as the binding gave them.
    pub closed spec fn names(self) -> Seq<Seq<char>> {
        views(self.dependencies@)
    }
}

/// A stored query with the names it depends on.
#[derive(Debug)]
pub struct ViewDefinition {
    /// Name under which the view is found.
    pub name: String,
    /// Name as it was written.
    pub original_name: String,
    pub query: String,
    /// Normalized names of the tables and views the query reads.
    pub dependencies: Vec<String>,
    pub bound: BoundQuery,
}

/// Content of a view definition.
#[verifier::ext_equal]
pub struct ViewContent {
    pub name: Seq<char>,
    pub original_name: Seq<char>,
    pub query: Seq<char>,
    pub dependencies: Seq<Seq<char>>,
    pub bound_query: Seq<char>,
    pub bound_dependencies: Seq<Seq<char>>,
}

impl View for ViewDefinition {
    type V = ViewContent;

    open spec fn view(&self) -> ViewContent {
        ViewContent {
            name: self.name@,
            original_name: self.original_name@,
            query: self.query@,
            dependencies: views(self.dependencies@),
            bound_query: self.bound.text(),
            bound_dependencies: self.bound.names(),
        }
    }
}

impl Model for ViewDefinition {
    fn same(&self, other: &Self) -> (r: bool) {
        self.name.same(&other.name) && self.original_name.same(&other.original_name)
            && self.query.same(&other.query) && same_all(&self.dependencies, &other.dependencies)
            && self.bound.query.same(&other.bound.query) && same_all(
            &self.bound.dependencies,
            &other.bound.dependencies,
        )
    }

    fn duplicate(&self) -> (r: Self) {
        ViewDefinition {
            name: self.name.clone(),
            original_name: self.original_name.clone(),
            query: self.query.clone(),
            dependencies: duplicate_all(&self.dependencies),
            bound: BoundQuery {
                query: self.bound.query.clone(),
                dependencies: duplicate_all(&self.bound.dependencies),
            },
        }
    }
}

/// Names in strictly ascending order.
pub open spec fn ascending(names: Seq<Seq<char>>) -> bool {
    forall|i: int, j: int|
        0 <= i < j < names.len() ==> text_before(#[trigger] names[i], #[trigger] names[j])
}

pub open spec fn name_refusal(names: Seq<Seq<char>>, i: int) -> Option<ErrorView> {
    if names[i].len() == 0 || names[i] != lowercase_text(names[i]) {
        Some(
            ErrorView::InvalidArgument(
                "view dependency '"@ + names[i] + "' is not a normalized non-empty name"@,
            ),
        )
    } else {
        None
    }
}

pub open spec fn name_check(names: Seq<Seq<char>>) -> spec_fn(int) -> Option<ErrorView> {
    |i: int| name_refusal(names, i)
}

/// Why a list of names is no dependency list.
pub open spec fn dependency_refusal(names: Seq<Seq<char>>) -> Option<ErrorView> {
    let unnamed = first_refusal(0, names.len() as int, name_check(names));
    if unnamed is Some {
        unnamed
    } else if !ascending(names) {
        Some(ErrorView::InvalidArgument("view dependencies must be sorted and unique"@))
    } else {
        None
    }
}

/// Dependencies are normalized names, sorted, and none occurs twice.
pub fn validate_bound_view_dependencies(dependencies: &Vec<String>) -> (r: Result<(), Error>)
    ensures
        refusal(r) == dependency_refusal(views(dependencies@)),
{
    let ghost names = views(dependencies@);
    let mut i: usize = 0;
    while i < dependencies.len()
        invariant
            0 <= i <= dependencies@.len() == names.len(),
            names == views(dependencies@),
            first_refusal(0, names.len() as int, name_check(names)) == first_refusal(
                i as int,
                names.len() as int,
                name_check(names),
            ),
        decreases dependencies@.len() - i,
    {
        let dependency: &String = &dependencies[i];
        assert(names[i as int] == dependency@);
        assert(name_check(names)(i as int) == name_refusal(names, i as int));
        let lower: String = to_lowercase(dependency.as_str());
        if dependency.as_str().is_empty() || !same_text(dependency.as_str(), lower.as_str()) {
            return Err(
                Error::InvalidArgument(
                    String::from_str("view dependency '").concat(dependency.as_str()).concat(
                        "' is not a normalized non-empty name",
                    ),
                ),
            );
        }
        i = i + 1;
    }
    let mut k: usize = 1;
    while k < dependencies.len()
        invariant
            1 <= k,
            names == views(dependencies@),
            dependencies@.len() == names.len(),
            first_refusal(0, names.len() as int, name_check(names)) is None,
            k <= names.len() || names.len() == 0,
            forall|a: int, b: int|
                0 <= a < b < k && b < names.len() ==> text_before(
                    #[trigger] names[a],
                    #[trigger] names[b],
                ),
        decreases dependencies@.len() - k,
    {
        assert(names[k - 1] == dependencies@[k - 1]@);
        assert(names[k as int] == dependencies@[k as int]@);
        if !is_text_before(dependencies[k - 1].as_str(), dependencies[k].as_str()) {
            assert(!ascending(names)) by {
                assert(!text_before(names[k - 1], names[k as int]));
            }
            return Err(Error::invalid_argument("view dependencies must be sorted and unique"));
        }
        proof {
            assert forall|a: int, b: int| 0 <= a < b < k + 1 && b < names.len() implies text_before(
                #[trigger] names[a],
                #[trigger] names[b],
            ) by {
                if b == k && a < k - 1 {
                    lemma_text_before_transitive(names[a], names[k - 1], names[b]);
                }
            }
        }
        k = k + 1;
    }
    Ok(())
}

/// What a query and its dependencies are bound to.
pub open spec fn bound_view(
    name: Seq<char>,
    query: Seq<char>,
    dependencies: Seq<Seq<char>>,
) -> Result<ViewContent, ErrorView> {
    if is_blank(query) {
        Err(ErrorView::InvalidArgument("view query must not be empty"@))
    } else {
        match dependency_refusal(dependencies) {
            Some(e) => Err(e),
            None => Ok(
                ViewContent {
                    name: lowercase_text(name),
                    original_name: name,
                    query,
                    dependencies,
                    bound_query: query,
                    bound_dependencies: dependencies,
                },
            ),
        }
    }
}

/// Longest length that a field of two bytes can carry.
pub const MAX_SHORT_LENGTH: usize = 65_535;

/// Longest length that a field of four bytes can carry.
pub const MAX_LONG_LENGTH: u64 = 4_294_967_295;

pub open spec fn length_error(field: Seq<char>, length: nat, limit: nat) -> ErrorView {
    ErrorView::InvalidArgument(
        field + " length "@ + decimal_digits(length) + " exceeds "@ + decimal_digits(limit),
    )
}

pub open spec fn short_refusal(field: Seq<char>, length: nat) -> Option<ErrorView> {
    if length > MAX_SHORT_LENGTH {
        Some(length_error(field, length, MAX_SHORT_LENGTH as nat))
    } else {
        None
    }
}

pub open spec fn long_refusal(field: Seq<char>, length: nat) -> Option<ErrorView> {
    if length > MAX_LONG_LENGTH {
        Some(length_error(field, length, MAX_LONG_LENGTH as nat))
    } else {
        None
    }
}

fn length_refused(field: &str, length: u64, limit: u64) -> (e: Error)
    ensures
        e@ == length_error(field@, length as nat, limit as nat),
{
    Error::InvalidArgument(
        String::from_str(field).concat(" length ").concat(decimal(length).as_str()).concat(
            " exceeds ",
        ).concat(decimal(limit).as_str()),
    )
}

/// A length as a two-byte field.
pub fn checked_u16_len(field: &str, length: usize) -> (r: Result<u16, Error>)
    ensures
        refusal(r) == short_refusal(field@, length as nat),
        r matches Ok(n) ==> n == length,
{
    if length > MAX_SHORT_LENGTH {
        return Err(length_refused(field, length as u64, MAX_SHORT_LENGTH as u64));
    }
    Ok(length as u16)
}

/// A length as a four-byte field.
pub fn checked_u32_len(field: &str, length: usize) -> (r: Result<u32, Error>)
    ensures
        refusal(r) == long_refusal(field@, length as nat),
        r matches Ok(n) ==> n == length,
{
    if length as u64 > MAX_LONG_LENGTH {
        return Err(length_refused(field, length as u64, MAX_LONG_LENGTH));
    }
    Ok(length as u32)
}

pub open spec fn marker_v1() -> Seq<u8> {
    seq![82u8, 86u8, 87u8, 49u8]
}

pub open spec fn marker_v2() -> Seq<u8> {
    seq![82u8, 86u8, 87u8, 50u8]
}

/// A text behind its two-byte length.
pub open spec fn short_field(text: Seq<char>) -> Seq<u8> {
    le16(encode_utf8(text).len() as u16) + encode_utf8(text)
}

/// Texts one behind the other, each behind its length.
pub open spec fn short_fields(texts: Seq<Seq<char>>) -> Seq<u8>
    decreases texts.len(),
{
    if texts.len() == 0 {
        Seq::empty()
    } else {
        short_fields(texts.drop_last()) + short_field(texts.last())
    }
}

/// The binary form of a view definition.
pub open spec fn encoded_view(v: ViewContent) -> Seq<u8> {
    marker_v2() + short_field(v.original_name) + le32(
        encode_utf8(v.query).len() as u32,
    ) + encode_utf8(v.query) + le16(v.dependencies.len() as u16) + short_fields(
        v.dependencies,
    )
}

pub open spec fn dependency_length_check(
    names: Seq<Seq<char>>,
) -> spec_fn(int) -> Option<ErrorView> {
    |i: int| short_refusal("view dependency"@, encode_utf8(names[i]).len())
}

/// Why a view definition has no binary form.
pub open spec fn encoding_refusal(v: ViewContent) -> Option<ErrorView> {
    let unbound = dependency_refusal(v.dependencies);
    let name = short_refusal("view name"@, encode_utf8(v.original_name).len());
    let query = long_refusal("view query"@, encode_utf8(v.query).len());
    let count = short_refusal("view dependency count"@, v.dependencies.len());
    if unbound is Some {
        unbound
    } else if v.query != v.bound_query || v.dependencies != v.bound_dependencies {
        Some(
            ErrorView::InvalidArgument(
                "view '"@ + v.original_name + "' carries a stale dependency graph"@,
            ),
        )
    } else if name is Some {
        name
    } else if query is Some {
        query
    } else if count is Some {
        count
    } else {
        first_refusal(0, v.dependencies.len() as int, dependency_length_check(v.dependencies))
    }
}

/// What the front of a binary form says, and where the rest begins.
pub struct ViewHeader {
    pub lists_dependencies: bool,
    pub name: Seq<char>,
    pub query: Seq<char>,
    pub end: int,
}

pub open spec fn short_at(bytes: Seq<u8>, at: int) -> int {
    from_le16(bytes.subrange(at, at + 2)) as int
}

pub open spec fn long_at(bytes: Seq<u8>, at: int) -> int {
    from_le32(bytes.subrange(at, at + 4)) as int
}

pub open spec fn query_part(
    bytes: Seq<u8>,
    lists_dependencies: bool,
    name: Seq<char>,
    at: int,
) -> Result<ViewHeader, ErrorView> {
    if at + 4 > bytes.len() {
        Err(ErrorView::Internal("invalid view: missing query length"@))
    } else if at + 4 + long_at(bytes, at) > bytes.len() {
        Err(ErrorView::Internal("invalid view: missing query"@))
    } else {
        let end = at + 4 + long_at(bytes, at);
        let query = bytes.subrange(at + 4, end);
        if !valid_utf8(query) {
            Err(ErrorView::Internal("invalid view query: "@ + utf8_error_text(query)))
        } else {
            Ok(ViewHeader { lists_dependencies, name, query: decode_utf8(query), end })
        }
    }
}

/// Reads marker, name and query.
pub open spec fn view_header(bytes: Seq<u8>) -> Result<ViewHeader, ErrorView> {
    if !marker_v1().is_prefix_of(bytes) && !marker_v2().is_prefix_of(bytes) {
        Err(
            ErrorView::Internal(
                "unsupported unversioned view definition; expected RVW1/RVW2 marker"@,
            ),
        )
    } else if 6 > bytes.len() {
        Err(ErrorView::Internal("invalid view: missing name length"@))
    } else if 6 + short_at(bytes, 4) > bytes.len() {
        Err(ErrorView::Internal("invalid view: missing name"@))
    } else {
        let end = 6 + short_at(bytes, 4);
        let name = bytes.subrange(6, end);
        if !valid_utf8(name) {
            Err(ErrorView::Internal("invalid view name: "@ + utf8_error_text(name)))
        } else {
            query_part(bytes, !marker_v1().is_prefix_of(bytes), decode_utf8(name), end)
        }
    }
}

/// Reads dependencies one behind the other; gives them in lower case, with
/// the position behind the last.
pub open spec fn listed_dependencies(
    bytes: Seq<u8>,
    at: int,
    count: int,
) -> Result<(Seq<Seq<char>>, int), ErrorView>
    decreases count,
{
    if count <= 0 {
        Ok((Seq::empty(), at))
    } else if at + 2 > bytes.len() {
        Err(ErrorView::Internal("invalid view: missing dependency length"@))
    } else if at + 2 + short_at(bytes, at) > bytes.len() {
        Err(ErrorView::Internal("invalid view: missing dependency"@))
    } else {
        let end = at + 2 + short_at(bytes, at);
        let field = bytes.subrange(at + 2, end);
        if !valid_utf8(field) {
            Err(ErrorView::Internal("invalid view dependency: "@ + utf8_error_text(field)))
        } else {
            match listed_dependencies(bytes, end, count - 1) {
                Ok((rest, last)) => Ok((seq![lowercase_text(decode_utf8(field))] + rest, last)),
                Err(e) => Err(e),
            }
        }
    }
}

/// The names of a list as a set.
pub open spec fn name_set(names: Seq<Seq<char>>) -> Set<Seq<char>> {
    Set::new(|n: Seq<char>| names.contains(n))
}

/// Where the dependencies end, once they agree with what the query is bound
/// to.
pub open spec fn dependency_end(
    bytes: Seq<u8>,
    header: ViewHeader,
    bound: Seq<Seq<char>>,
) -> Result<int, ErrorView> {
    if !header.lists_dependencies {
        Ok(header.end)
    } else if header.end + 2 > bytes.len() {
        Err(ErrorView::Internal("invalid view: missing dependency count"@))
    } else {
        match listed_dependencies(bytes, header.end + 2, short_at(bytes, header.end)) {
            Err(e) => Err(e),
            Ok((listed, end)) => if name_set(listed) != name_set(bound) {
                Err(
                    ErrorView::Internal(
                        "invalid view definition: dependency graph does not match query"@,
                    ),
                )
            } else {
                Ok(end)
            },
        }
    }
}

/// The view definition that a binary form denotes, given what its query is
/// bound to.
pub open spec fn decoded_view(
    bytes: Seq<u8>,
    header: ViewHeader,
    bound: Result<Seq<Seq<char>>, ErrorView>,
) -> Result<ViewContent, ErrorView> {
    match bound {
        Err(e) => Err(e),
        Ok(names) => match dependency_refusal(names) {
            Some(e) => Err(e),
            None => match dependency_end(bytes, header, names) {
                Err(e) => Err(e),
                Ok(end) => if end != bytes.len() {
                    Err(ErrorView::Internal("invalid view definition: trailing bytes"@))
                } else {
                    bound_view(header.name, header.query, names)
                },
            },
        },
    }
}

fn bytes_between(data: &[u8], from: usize, to: usize) -> (out: Vec<u8>)
    requires
        from <= to <= data@.len(),
    ensures
        out@ == data@.subrange(from as int, to as int),
{
    slice_to_vec(slice_subrange(data, from, to))
}

fn has_marker(data: &[u8], last: u8) -> (r: bool)
    ensures
        r == seq![82u8, 86u8, 87u8, last].is_prefix_of(data@),
{
    let r: bool = data.len() >= 4 && data[0] == 82 && data[1] == 86 && data[2] == 87 && data[3]
        == last;
    proof {
        let marker = seq![82u8, 86u8, 87u8, last];
        if r {
            assert(marker =~= data@.subrange(0, 4));
        } else if marker.is_prefix_of(data@) {
            assert(data@.subrange(0, 4) == marker);
            assert(data@.subrange(0, 4)[0] == data@[0]);
            assert(data@.subrange(0, 4)[1] == data@[1]);
            assert(data@.subrange(0, 4)[2] == data@[2]);
            assert(data@.subrange(0, 4)[3] == data@[3]);
            assert(marker[0] == 82 && marker[1] == 86 && marker[2] == 87 && marker[3] == last);
        }
    }
    r
}

/// Marker, name and query read from a binary form.
#[derive(Debug)]
pub struct ViewFront {
    pub lists_dependencies: bool,
    pub name: String,
    pub query: String,
    pub end: usize,
}

impl View for ViewFront {
    type V = ViewHeader;

    open spec fn view(&self) -> ViewHeader {
        ViewHeader {
            lists_dependencies: self.lists_dependencies,
            name: self.name@,
            query: self.query@,
            end: self.end as int,
        }
    }
}

/// Reads marker, name and query.
pub fn read_view_front(data: &[u8]) -> (r: Result<ViewFront, Error>)
    ensures
        outcome(r) == view_header(data@),
        r matches Ok(front) ==> front.end <= data@.len(),
{
    let old_form: bool = has_marker(data, 49);
    let new_form: bool = has_marker(data, 50);
    if !old_form && !new_form {
        return Err(
            Error::internal("unsupported unversioned view definition; expected RVW1/RVW2 marker"),
        );
    }
    let total: usize = data.len();
    if 6 > total {
        return Err(Error::internal("invalid view: missing name length"));
    }
    let name_length: usize = read_le16(slice_subrange(data, 4, 6)) as usize;
    if name_length > total - 6 {
        return Err(Error::internal("invalid view: missing name"));
    }
    let name_end: usize = 6 + name_length;
    let name: String = match text_from_utf8(bytes_between(data, 6, name_end)) {
        Ok(name) => name,
        Err(error) => {
            return Err(
                Error::Internal {
                    message: String::from_str("invalid view name: ").concat(error.as_str()),
                },
            );
        },
    };
    if 4 > total - name_end {
        return Err(Error::internal("invalid view: missing query length"));
    }
    let query_length: u32 = read_le32(slice_subrange(data, name_end, name_end + 4));
    if query_length as u64 > (total - name_end - 4) as u64 {
        return Err(Error::internal("invalid view: missing query"));
    }
    let end: usize = name_end + 4 + query_length as usize;
    let query: String = match text_from_utf8(bytes_between(data, name_end + 4, end)) {
        Ok(query) => query,
        Err(error) => {
            return Err(
                Error::Internal {
                    message: String::from_str("invalid view query: ").concat(error.as_str()),
                },
            );
        },
    };
    Ok(ViewFront { lists_dependencies: !old_form, name, query, end })
}

fn read_dependencies(data: &[u8], start: usize, count: usize) -> (r: Result<
    (Vec<String>, usize),
    Error,
>)
    requires
        start <= data@.len(),
    ensures
        match r {
            Ok((names, end)) => listed_dependencies(data@, start as int, count as int) == Ok::<
                (Seq<Seq<char>>, int),
                ErrorView,
            >((views(names@), end as int)) && end <= data@.len(),
            Err(e) => listed_dependencies(data@, start as int, count as int) == Err::<
                (Seq<Seq<char>>, int),
                ErrorView,
            >(e@),
        },
{
    let ghost all = listed_dependencies(data@, start as int, count as int);
    let mut names: Vec<String> = Vec::new();
    let mut at: usize = start;
    let mut left: usize = count;
    assert(views(names@) =~= Seq::<Seq<char>>::empty());
    proof {
        match all {
            Ok((rest, last)) => {
                assert(Seq::<Seq<char>>::empty() + rest =~= rest);
            },
            Err(e) => {},
        }
    }
    while left > 0
        invariant
            start <= at <= data@.len(),
            left <= count,
            all == (match listed_dependencies(data@, at as int, left as int) {
                Ok((rest, last)) => Ok((views(names@) + rest, last)),
                Err(e) => Err(e),
            }),
            all == listed_dependencies(data@, start as int, count as int),
        decreases left,
    {
        let total: usize = data.len();
        if 2 > total - at {
            return Err(Error::internal("invalid view: missing dependency length"));
        }
        let length: usize = read_le16(slice_subrange(data, at, at + 2)) as usize;
        if length > total - at - 2 {
            return Err(Error::internal("invalid view: missing dependency"));
        }
        let end: usize = at + 2 + length;
        let text: String = match text_from_utf8(bytes_between(data, at + 2, end)) {
            Ok(text) => text,
            Err(error) => {
                return Err(
                    Error::Internal {
                        message: String::from_str("invalid view dependency: ").concat(
                            error.as_str(),
                        ),
                    },
                );
            },
        };
        let lower: String = to_lowercase(text.as_str());
        let ghost before = views(names@);
        proof {
            match listed_dependencies(data@, end as int, left - 1) {
                Ok((rest, last)) => {
                    assert(before + (seq![lower@] + rest) =~= before.push(lower@) + rest);
                },
                Err(e) => {},
            }
        }
        names.push(lower);
        assert(views(names@) =~= before.push(lower@));
        at = end;
        left = left - 1;
    }
    assert(views(names@) + Seq::<Seq<char>>::empty() =~= views(names@));
    Ok((names, at))
}

/// Two strictly ascending lists of the same names are the same list.
pub proof fn lemma_ascending_unique(a: Seq<Seq<char>>, b: Seq<Seq<char>>)
    requires
        ascending(a),
        ascending(b),
        name_set(a) == name_set(b),
    ensures
        a == b,
    decreases a.len(),
{
    if a.len() == 0 {
        if b.len() > 0 {
            assert(b.contains(b[0]));
            assert(name_set(b).contains(b[0]));
            assert(name_set(a).contains(b[0]));
        }
        assert(a =~= b);
    } else {
        assert(a.contains(a[0]));
        assert(name_set(a).contains(a[0]));
        assert(name_set(b).contains(a[0]));
        assert(b.contains(a[0]));
        assert(b.contains(b[0]));
        assert(name_set(b).contains(b[0]));
        assert(name_set(a).contains(b[0]));
        let i = choose|i: int| 0 <= i < a.len() && a[i] == b[0];
        let j = choose|j: int| 0 <= j < b.len() && b[j] == a[0];
        if i > 0 && j > 0 {
            assert(text_before(a[0], a[i]));
            assert(text_before(b[0], b[j]));
            lemma_text_before_total(a[0], b[0]);
        }
        assert(a[0] == b[0]);
        let c = a.drop_first();
        let d = b.drop_first();
        assert forall|p: int, q: int| 0 <= p < q < c.len() implies text_before(
            #[trigger] c[p],
            #[trigger] c[q],
        ) by {
            assert(text_before(a[p + 1], a[q + 1]));
        }
        assert forall|p: int, q: int| 0 <= p < q < d.len() implies text_before(
            #[trigger] d[p],
            #[trigger] d[q],
        ) by {
            assert(text_before(b[p + 1], b[q + 1]));
        }
        assert forall|n: Seq<char>| name_set(c).contains(n) <==> name_set(d).contains(n) by {
            lemma_tail_names(a, b, n);
            lemma_tail_names(b, a, n);
        }
        assert(name_set(c) =~= name_set(d));
        lemma_ascending_unique(c, d);
        assert(a =~= seq![a[0]] + c);
        assert(b =~= seq![b[0]] + d);
    }
}

proof fn lemma_tail_names(a: Seq<Seq<char>>, b: Seq<Seq<char>>, n: Seq<char>)
    requires
        ascending(a),
        ascending(b),
        name_set(a) == name_set(b),
        a.len() > 0,
        b.len() > 0,
        a[0] == b[0],
    ensures
        a.drop_first().contains(n) ==> b.drop_first().contains(n),
{
    let c = a.drop_first();
    let d = b.drop_first();
    if c.contains(n) {
        let i = choose|i: int| 0 <= i < c.len() && c[i] == n;
        assert(a[i + 1] == n);
        assert(a.contains(n));
        assert(name_set(a).contains(n));
        assert(name_set(b).contains(n));
        let j = choose|j: int| 0 <= j < b.len() && b[j] == n;
        if j == 0 {
            assert(text_before(a[0], a[i + 1]));
            lemma_text_before_total(n, n);
        }
        assert(d[j - 1] == n);
    }
}

/// Names of strings and of their contents agree.
proof fn lemma_name_set(names: Seq<String>)
    ensures
        name_set(views(names)) == names_of(names),
{
    assert forall|n: Seq<char>| name_set(views(names)).contains(n) <==> names_of(names).contains(
        n,
    ) by {
        if views(names).contains(n) {
            let i = choose|i: int| 0 <= i < views(names).len() && views(names)[i] == n;
            assert(names[i]@ == n);
        }
        if names_of(names).contains(n) {
            let i = choose|i: int| 0 <= i < names.len() && #[trigger] names[i]@ == n;
            assert(views(names)[i] == n);
        }
    }
    assert(name_set(views(names)) =~= names_of(names));
}

proof fn lemma_same_names(listed: Seq<String>, ordered: Seq<String>, bound: Seq<String>)
    requires
        strictly_ascending_names(ordered),
        names_of(ordered) == names_of(listed),
        ascending(views(bound)),
    ensures
        (views(ordered) == views(bound)) == (name_set(views(listed)) == name_set(views(bound))),
{
    lemma_name_set(listed);
    lemma_name_set(ordered);
    assert forall|p: int, q: int| 0 <= p < q < views(ordered).len() implies text_before(
        #[trigger] views(ordered)[p],
        #[trigger] views(ordered)[q],
    ) by {
        assert(text_before(ordered[p]@, ordered[q]@));
    }
    if name_set(views(ordered)) == name_set(views(bound)) {
        lemma_ascending_unique(views(ordered), views(bound));
    }
}

impl ViewDefinition {
    /// A definition from a query and the names it is bound to.
    pub fn from_bound_query(name: &str, query: String, dependencies: Vec<String>) -> (r: Result<
        Self,
        Error,
    >)
        ensures
            outcome(r) == bound_view(name@, query@, views(dependencies@)),
    {
        if is_blank_text(query.as_str()) {
            return Err(Error::invalid_argument("view query must not be empty"));
        }
        match validate_bound_view_dependencies(&dependencies) {
            Ok(_) => {},
            Err(error) => {
                return Err(error);
            },
        }
        Ok(
            ViewDefinition {
                name: to_lowercase(name),
                original_name: String::from_str(name),
                bound: BoundQuery {
                    query: query.clone(),
                    dependencies: duplicate_all(&dependencies),
                },
                query,
                dependencies,
            },
        )
    }

    /// The binary form.
    pub fn serialize(&self) -> (r: Result<Vec<u8>, Error>)
        ensures
            refusal(r) == encoding_refusal(self@),
            r matches Ok(bytes) ==> bytes@ == encoded_view(self@),
    {
        match validate_bound_view_dependencies(&self.dependencies) {
            Ok(_) => {},
            Err(error) => {
                return Err(error);
            },
        }
        if !self.query.same(&self.bound.query) || !same_all(
            &self.dependencies,
            &self.bound.dependencies,
        ) {
            return Err(
                Error::InvalidArgument(
                    String::from_str("view '").concat(self.original_name.as_str()).concat(
                        "' carries a stale dependency graph",
                    ),
                ),
            );
        }
        let ghost v = self@;
        let ghost count = v.dependencies.len() as int;
        let mut out: Vec<u8> = Vec::new();
        out.push(82);
        out.push(86);
        out.push(87);
        out.push(50);
        assert(out@ =~= marker_v2());
        let mut name: Vec<u8> = self.original_name.as_str().as_bytes_vec();
        match checked_u16_len("view name", name.len()) {
            Ok(length) => {
                let mut field: Vec<u8> = le16_bytes(length);
                out.append(&mut field);
            },
            Err(error) => {
                return Err(error);
            },
        }
        out.append(&mut name);
        assert(out@ =~= marker_v2() + short_field(v.original_name));
        let mut query: Vec<u8> = self.query.as_str().as_bytes_vec();
        match checked_u32_len("view query", query.len()) {
            Ok(length) => {
                let mut field: Vec<u8> = le32_bytes(length);
                out.append(&mut field);
            },
            Err(error) => {
                return Err(error);
            },
        }
        out.append(&mut query);
        match checked_u16_len("view dependency count", self.dependencies.len()) {
            Ok(length) => {
                let mut field: Vec<u8> = le16_bytes(length);
                out.append(&mut field);
            },
            Err(error) => {
                return Err(error);
            },
        }
        let ghost front = out@;
        assert(front =~= marker_v2() + short_field(v.original_name) + le32(
            encode_utf8(v.query).len() as u32,
        ) + encode_utf8(v.query) + le16(v.dependencies.len() as u16));
        let mut i: usize = 0;
        assert(front + short_fields(v.dependencies.take(0)) =~= front);
        while i < self.dependencies.len()
            invariant
                0 <= i <= self.dependencies@.len() == count,
                v == self@,
                count == v.dependencies.len(),
                v.dependencies == views(self.dependencies@),
                out@ == front + short_fields(v.dependencies.take(i as int)),
                encoding_refusal(v) == first_refusal(
                    i as int,
                    count,
                    dependency_length_check(v.dependencies),
                ),
            decreases self.dependencies@.len() - i,
        {
            assert(v.dependencies[i as int] == self.dependencies@[i as int]@);
            let mut text: Vec<u8> = self.dependencies[i].as_str().as_bytes_vec();
            assert(dependency_length_check(v.dependencies)(i as int) == short_refusal(
                "view dependency"@,
                text@.len(),
            ));
            match checked_u16_len("view dependency", text.len()) {
                Ok(length) => {
                    let mut field: Vec<u8> = le16_bytes(length);
                    out.append(&mut field);
                },
                Err(error) => {
                    return Err(error);
                },
            }
            out.append(&mut text);
            proof {
                let longer = v.dependencies.take(i + 1);
                assert(longer.drop_last() =~= v.dependencies.take(i as int));
                assert(out@ =~= front + short_fields(longer));
            }
            i = i + 1;
        }
        assert(v.dependencies.take(count) =~= v.dependencies);
        Ok(out)
    }

    /// The definition whose front was read, given what its query is bound
    /// to.
    pub fn finish_view(data: &[u8], front: ViewFront, bound: Result<Vec<String>, Error>) -> (r:
        Result<Self, Error>)
        requires
            front.end <= data@.len(),
        ensures
            outcome(r) == decoded_view(
                data@,
                front@,
                match bound {
                    Ok(names) => Ok(views(names@)),
                    Err(e) => Err(e@),
                },
            ),
    {
        let names: Vec<String> = match bound {
            Ok(names) => names,
            Err(error) => {
                return Err(error);
            },
        };
        match validate_bound_view_dependencies(&names) {
            Ok(_) => {},
            Err(error) => {
                return Err(error);
            },
        }
        let end: usize = if front.lists_dependencies {
            if 2 > data.len() - front.end {
                return Err(Error::internal("invalid view: missing dependency count"));
            }
            let count: usize = read_le16(
                slice_subrange(data, front.end, front.end + 2),
            ) as usize;
            match read_dependencies(data, front.end + 2, count) {
                Ok((listed, end)) => {
                    let ghost raw = listed@;
                    let ordered: Vec<String> = sorted_unique_names(listed);
                    proof {
                        lemma_same_names(raw, ordered@, names@);
                    }
                    if !same_all(&ordered, &names) {
                        return Err(
                            Error::internal(
                                "invalid view definition: dependency graph does not match query",
                            ),
                        );
                    }
                    end
                },
                Err(error) => {
                    return Err(error);
                },
            }
        } else {
            front.end
        };
        if end != data.len() {
            return Err(Error::internal("invalid view definition: trailing bytes"));
        }
        ViewDefinition::from_bound_query(front.name.as_str(), front.query, names)
    }

    /// Reads a binary form. The query is bound anew, and a form that lists
    /// dependencies has to agree with that.
    pub fn deserialize<F: Fn(&str) -> Result<Vec<String>, Error>>(
        data: &[u8],
        dependency_binder: F,
    ) -> (r: Result<Self, Error>)
        requires
            forall|query: &str| call_requires(dependency_binder, (query,)),
        ensures
            match view_header(data@) {
                Err(e) => outcome(r) == Err::<ViewContent, ErrorView>(e),
                Ok(header) => exists|query: &str, bound: Result<Vec<String>, Error>|
                    {
                        &&& query@ == header.query
                        &&& #[trigger] call_ensures(dependency_binder, (query,), bound)
                        &&& outcome(r) == decoded_view(
                            data@,
                            header,
                            match bound {
                                Ok(names) => Ok(views(names@)),
                                Err(e) => Err(e@),
                            },
                        )
                    },
            },
    {
        match read_view_front(data) {
            Ok(front) => {
                let bound: Result<Vec<String>, Error> = dependency_binder(front.query.as_str());
                ViewDefinition::finish_view(data, front, bound)
            },
            Err(error) => Err(error),
        }
    }
}

proof fn lemma_fields_from_front(texts: Seq<Seq<char>>)
    requires
        texts.len() > 0,
    ensures
        short_fields(texts) == short_field(texts[0]) + short_fields(texts.drop_first()),
    decreases texts.len(),
{
    if texts.len() == 1 {
        assert(texts.drop_last() =~= Seq::<Seq<char>>::empty());
        assert(texts.drop_first() =~= Seq::<Seq<char>>::empty());
        assert(short_fields(texts.drop_last()) =~= Seq::<u8>::empty());
        assert(short_fields(texts.drop_first()) =~= Seq::<u8>::empty());
        assert(short_fields(texts) =~= short_field(texts[0]) + short_fields(texts.drop_first()));
    } else {
        let shorter = texts.drop_last();
        lemma_fields_from_front(shorter);
        assert(shorter[0] == texts[0]);
        assert(shorter.drop_first() =~= texts.drop_first().drop_last());
        assert(texts.drop_first().last() == texts.last());
        assert(short_fields(texts) =~= short_field(texts[0]) + short_fields(texts.drop_first()));
    }
}

/// Listing reads back dependencies that were written one behind the other.
proof fn lemma_listed(bytes: Seq<u8>, at: int, texts: Seq<Seq<char>>)
    requires
        0 <= at <= bytes.len(),
        bytes.skip(at) == short_fields(texts),
        forall|i: int|
            0 <= i < texts.len() ==> encode_utf8(#[trigger] texts[i]).len() <= MAX_SHORT_LENGTH
                && lowercase_text(texts[i]) == texts[i],
    ensures
        listed_dependencies(bytes, at, texts.len() as int) == Ok::<
            (Seq<Seq<char>>, int),
            ErrorView,
        >((texts, bytes.len() as int)),
    decreases texts.len(),
{
    if texts.len() == 0 {
        assert(bytes.skip(at).len() == 0);
        assert(texts =~= Seq::<Seq<char>>::empty());
    } else {
        lemma_fields_from_front(texts);
        let text = texts[0];
        let raw = encode_utf8(text);
        lemma_le16_read(raw.len() as u16);
        let rest = texts.drop_first();
        let end: int = at + 2 + raw.len() as int;
        let tail = bytes.skip(at);
        let length = le16(raw.len() as u16);
        assert(tail == length + raw + short_fields(rest));
        assert(length.len() == 2);
        assert(bytes.len() == at + tail.len());
        assert(bytes.subrange(at, at + 2) =~= tail.subrange(0, 2));
        assert(tail.subrange(0, 2) =~= length);
        assert(short_at(bytes, at) == raw.len());
        assert(bytes.subrange(at + 2, end) =~= tail.subrange(2, 2 + raw.len() as int));
        assert(tail.subrange(2, 2 + raw.len() as int) =~= raw);
        vstd::utf8::encode_utf8_valid_utf8(text);
        vstd::utf8::encode_utf8_decode_utf8(text);
        assert(bytes.skip(end) =~= tail.skip(2 + raw.len() as int));
        assert(tail.skip(2 + raw.len() as int) =~= short_fields(rest));
        assert forall|i: int| 0 <= i < rest.len() implies encode_utf8(#[trigger] rest[i]).len()
            <= MAX_SHORT_LENGTH && lowercase_text(rest[i]) == rest[i] by {
            assert(rest[i] == texts[i + 1]);
        }
        lemma_listed(bytes, end, rest);
        assert(seq![text] + rest =~= texts);
    }
}

/// The parts of a binary form stand where their lengths put them.
proof fn lemma_pieces(
    bytes: Seq<u8>,
    name_length: Seq<u8>,
    name: Seq<u8>,
    query_length: Seq<u8>,
    query: Seq<u8>,
    count: Seq<u8>,
    deps: Seq<u8>,
)
    requires
        name_length.len() == 2,
        query_length.len() == 4,
        count.len() == 2,
        bytes == marker_v2() + name_length + name + query_length + query + count + deps,
    ensures
        marker_v2().is_prefix_of(bytes),
        !marker_v1().is_prefix_of(bytes),
        bytes.len() == 12 + name.len() + query.len() + deps.len(),
        ({
            let name_end: int = 6 + name.len() as int;
            let end: int = name_end + 4 + query.len() as int;
            &&& bytes.subrange(4, 6) == name_length
            &&& bytes.subrange(6, name_end) == name
            &&& bytes.subrange(name_end, name_end + 4) == query_length
            &&& bytes.subrange(name_end + 4, end) == query
            &&& bytes.subrange(end, end + 2) == count
            &&& bytes.skip(end + 2) == deps
        }),
{
    let name_end: int = 6 + name.len() as int;
    let end: int = name_end + 4 + query.len() as int;
    assert(bytes.subrange(0, 4) =~= marker_v2());
    assert(bytes[3] == 50);
    if marker_v1().is_prefix_of(bytes) {
        assert(bytes.subrange(0, 4)[3] == marker_v1()[3]);
    }
    assert(bytes.subrange(4, 6) =~= name_length);
    assert(bytes.subrange(6, name_end) =~= name);
    assert(bytes.subrange(name_end, name_end + 4) =~= query_length);
    assert(bytes.subrange(name_end + 4, end) =~= query);
    assert(bytes.subrange(end, end + 2) =~= count);
    assert(bytes.skip(end + 2) =~= deps);
}

/// Reading the binary form of a definition gives that definition back, as
/// long as its query is still bound to the same names.
pub proof fn law_view_round_trip(v: ViewContent)
    requires
        encoding_refusal(v) is None,
        bound_view(v.original_name, v.query, v.dependencies) == Ok::<ViewContent, ErrorView>(v),
    ensures
        view_header(encoded_view(v)) is Ok,
        view_header(encoded_view(v))->Ok_0.query == v.query,
        decoded_view(encoded_view(v), view_header(encoded_view(v))->Ok_0, Ok(v.dependencies))
            == Ok::<ViewContent, ErrorView>(v),
{
    let bytes = encoded_view(v);
    let name = encode_utf8(v.original_name);
    let query = encode_utf8(v.query);
    let name_length = le16(name.len() as u16);
    let query_length = le32(query.len() as u32);
    let count = le16(v.dependencies.len() as u16);
    let deps = short_fields(v.dependencies);
    let name_end: int = 6 + name.len() as int;
    let end: int = name_end + 4 + query.len() as int;
    lemma_le16_read(name.len() as u16);
    lemma_le32_read(query.len() as u32);
    lemma_le16_read(v.dependencies.len() as u16);
    assert(bytes =~= marker_v2() + name_length + name + query_length + query + count + deps);
    lemma_pieces(bytes, name_length, name, query_length, query, count, deps);
    vstd::utf8::encode_utf8_valid_utf8(v.original_name);
    vstd::utf8::encode_utf8_decode_utf8(v.original_name);
    vstd::utf8::encode_utf8_valid_utf8(v.query);
    vstd::utf8::encode_utf8_decode_utf8(v.query);
    lemma_no_refusal(0, v.dependencies.len() as int, name_check(v.dependencies));
    lemma_no_refusal(0, v.dependencies.len() as int, dependency_length_check(v.dependencies));
    assert forall|i: int| 0 <= i < v.dependencies.len() implies encode_utf8(
        #[trigger] v.dependencies[i],
    ).len() <= MAX_SHORT_LENGTH && lowercase_text(v.dependencies[i]) == v.dependencies[i] by {
        assert(name_check(v.dependencies)(i) is None);
        assert(dependency_length_check(v.dependencies)(i) is None);
    }
    lemma_listed(bytes, end + 2, v.dependencies);
}

} // verus!
