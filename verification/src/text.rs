//! Names, identifiers and the small amount of text work the engine does.
use std::borrow::Cow;
use crate::model::views;
use vstd::prelude::*;
use vstd::string::StringExecFns;
use vstd::utf8::decode_utf8;
use vstd::utf8::is_ascii_chars;
use vstd::utf8::valid_utf8;

verus! {

/// `String::push`: appends one character.
pub assume_specification[ String::push ](s: &mut String, c: char)
    ensures
        final(s)@ == old(s)@.push(c),
;

/// Unicode lowercase equivalent of a text, as `str::to_lowercase` computes it.
pub uninterp spec fn std_lowercase(text: Seq<char>) -> Seq<char>;

pub open spec fn is_ascii_upper(c: char) -> bool {
    'A' <= c <= 'Z'
}

/// ASCII case folding of one character, as a code point.
pub open spec fn ascii_folded(c: char) -> int {
    if is_ascii_upper(c) {
        c as int + 32
    } else {
        c as int
    }
}

/// Equality up to ASCII letter case.
pub open spec fn same_ignoring_ascii_case(a: Seq<char>, b: Seq<char>) -> bool {
    &&& a.len() == b.len()
    &&& forall|i: int| 0 <= i < a.len() ==> ascii_folded(#[trigger] a[i]) == ascii_folded(b[i])
}

/// Whether one text is another with its ASCII capitals made small.
pub open spec fn is_ascii_lowered(text: Seq<char>, lower: Seq<char>) -> bool {
    &&& lower.len() == text.len()
    &&& forall|i: int|
        0 <= i < text.len() ==> (#[trigger] lower[i]) as int == ascii_folded(text[i])
}

/// Whether a text is ASCII without capitals.
pub open spec fn is_small_ascii(text: Seq<char>) -> bool {
    is_ascii_chars(text) && forall|i: int|
        0 <= i < text.len() ==> !is_ascii_upper(#[trigger] text[i])
}

/// Lowercase form of a text. ASCII without capitals is in it already.
pub open spec fn lowercase_text(text: Seq<char>) -> Seq<char> {
    if is_small_ascii(text) {
        text
    } else {
        std_lowercase(text)
    }
}

/// `str::to_lowercase`. The result is named rather than spelled out; for pure
/// ASCII text it is stated in full, because there each capital letter becomes
/// the small letter 32 code points above it and nothing else changes.
#[verifier::external_body]
fn std_to_lowercase(text: &str) -> (lower: String)
    ensures
        lower@ == std_lowercase(text@),
        text.is_ascii() ==> is_ascii_lowered(text@, lower@),
{
    text.to_lowercase()
}

/// Lowercase form of a text.
pub(crate) fn to_lowercase(text: &str) -> (lower: String)
    ensures
        lower@ == lowercase_text(text@),
        text.is_ascii() ==> is_ascii_lowered(text@, lower@),
{
    let lower: String = std_to_lowercase(text);
    proof {
        if is_small_ascii(text@) {
            assert(lower@ =~= text@);
        }
    }
    lower
}

/// Text of the error that decoding malformed UTF-8 reports.
pub uninterp spec fn utf8_error_text(bytes: Seq<u8>) -> Seq<char>;

/// `String::from_utf8`: succeeds exactly on well-formed UTF-8 and then yields
/// the encoded characters; otherwise the displayed error is returned.
#[verifier::external_body]
pub(crate) fn text_from_utf8(bytes: Vec<u8>) -> (text: Result<String, String>)
    ensures
        text is Ok <==> valid_utf8(bytes@),
        text matches Ok(t) ==> t@ == decode_utf8(bytes@),
        text matches Err(e) ==> e@ == utf8_error_text(bytes@),
{
    String::from_utf8(bytes).map_err(|error| error.to_string())
}

/// The characters of a text.
pub fn chars_of(text: &str) -> (out: Vec<char>)
    ensures
        out@ == text@,
{
    let mut out: Vec<char> = Vec::new();
    for c in it: text.chars()
        invariant
            out@ == text@.take(it.index() as int),
            it.seq() == text@,
    {
        out.push(c);
        assert(text@.take(it.index() + 1) =~= text@.take(it.index() as int).push(c));
    }
    assert(text@.take(text@.len() as int) =~= text@);
    out
}

/// Whether a text begins with another.
pub fn starts_with(text: &str, prefix: &str) -> (r: bool)
    ensures
        r == prefix@.is_prefix_of(text@),
{
    let text_chars: Vec<char> = chars_of(text);
    let prefix_chars: Vec<char> = chars_of(prefix);
    matches_at(&text_chars, &prefix_chars, 0)
}

/// Whether a text ends with another.
pub fn ends_with(text: &str, suffix: &str) -> (r: bool)
    ensures
        r == suffix@.is_suffix_of(text@),
{
    let text_chars: Vec<char> = chars_of(text);
    let suffix_chars: Vec<char> = chars_of(suffix);
    if text_chars.len() < suffix_chars.len() {
        return false;
    }
    matches_at(&text_chars, &suffix_chars, text_chars.len() - suffix_chars.len())
}

/// The pattern occurs in the text at this position.
pub open spec fn occurs_at(text: Seq<char>, pattern: Seq<char>, at: int) -> bool {
    &&& 0 <= at
    &&& at + pattern.len() <= text.len()
    &&& text.subrange(at, at + pattern.len()) == pattern
}

fn matches_at(text: &Vec<char>, pattern: &Vec<char>, at: usize) -> (r: bool)
    ensures
        r == occurs_at(text@, pattern@, at as int),
        at == 0 ==> r == pattern@.is_prefix_of(text@),
{
    if at > text.len() || text.len() - at < pattern.len() {
        return false;
    }
    let mut i: usize = 0;
    while i < pattern.len()
        invariant
            at + pattern@.len() <= text@.len() <= usize::MAX,
            0 <= i <= pattern@.len(),
            forall|j: int| 0 <= j < i ==> text@[at + j] == pattern@[j],
        decreases pattern@.len() - i,
    {
        if text[at + i] != pattern[i] {
            assert(text@.subrange(at as int, at + pattern@.len())[i as int] != pattern@[i as int]);
            assert(text@[at + i] != pattern@[i as int]);
            return false;
        }
        i = i + 1;
    }
    assert(text@.subrange(at as int, at + pattern@.len()) =~= pattern@);
    assert(at == 0 ==> pattern@.is_prefix_of(text@));
    true
}

/// Position of the first occurrence of a pattern.
pub fn find_pattern(text: &Vec<char>, pattern: &Vec<char>) -> (r: Option<usize>)
    ensures
        match r {
            Some(at) => occurs_at(text@, pattern@, at as int) && forall|k: int|
                k < at ==> !#[trigger] occurs_at(text@, pattern@, k),
            None => forall|k: int| !#[trigger] occurs_at(text@, pattern@, k),
        },
{
    let mut at: usize = 0;
    while at < text.len()
        invariant
            0 <= at <= text@.len(),
            forall|k: int| k < at ==> !#[trigger] occurs_at(text@, pattern@, k),
        decreases text@.len() - at,
    {
        if matches_at(text, pattern, at) {
            return Some(at);
        }
        at = at + 1;
    }
    if matches_at(text, pattern, at) {
        Some(at)
    } else {
        None
    }
}

/// A text from its characters.
pub fn text_of(chars: &Vec<char>, from: usize, to: usize) -> (r: String)
    requires
        from <= to <= chars@.len(),
    ensures
        r@ == chars@.subrange(from as int, to as int),
{
    let mut out: String = String::new();
    let mut i: usize = from;
    while i < to
        invariant
            from <= i <= to <= chars@.len(),
            out@ == chars@.subrange(from as int, i as int),
        decreases to - i,
    {
        out.push(chars[i]);
        i = i + 1;
        assert(chars@.subrange(from as int, i as int) =~= chars@.subrange(
            from as int,
            i - 1,
        ).push(chars@[i - 1]));
    }
    out
}

/// Whether a text is ASCII without capitals.
fn has_small_ascii(s: &str) -> (r: bool)
    ensures
        r == is_small_ascii(s@),
{
    if !s.is_ascii() {
        return false;
    }
    for c in it: s.chars()
        invariant
            is_ascii_chars(s@),
            it.seq() == s@,
            forall|j: int| 0 <= j < it.index() ==> !is_ascii_upper(#[trigger] s@[j]),
    {
        if 'A' <= c && c <= 'Z' {
            assert(is_ascii_upper(s@[it.index() as int]));
            return false;
        }
    }
    true
}

/// Lowercase form of a name; a name that is in it already is given back.
pub fn to_lowercase_cow(s: &str) -> (r: Cow<'_, str>)
    ensures
        r@ == lowercase_text(s@),
        r is Borrowed <==> lowercase_text(s@) == s@,
        s.is_ascii() ==> is_ascii_lowered(s@, r@),
{
    if has_small_ascii(s) {
        return Cow::Borrowed(s);
    }
    let lower: String = to_lowercase(s);
    if same_text(lower.as_str(), s) {
        Cow::Borrowed(s)
    } else {
        Cow::Owned(lower)
    }
}

fn folded(c: char) -> (r: u32)
    ensures
        r == ascii_folded(c),
{
    if 'A' <= c && c <= 'Z' {
        c as u32 + 32
    } else {
        c as u32
    }
}

/// Compares two names up to ASCII letter case.
pub fn eq_ignore_ascii_case(a: &str, b: &str) -> (r: bool)
    ensures
        r == same_ignoring_ascii_case(a@, b@),
{
    let n: usize = a.unicode_len();
    if n != b.unicode_len() {
        return false;
    }
    let mut i: usize = 0;
    while i < n
        invariant
            n == a@.len(),
            n == b@.len(),
            0 <= i <= n,
            forall|j: int| 0 <= j < i ==> ascii_folded(#[trigger] a@[j]) == ascii_folded(b@[j]),
        decreases n - i,
    {
        if folded(a.get_char(i)) != folded(b.get_char(i)) {
            assert(ascii_folded(a@[i as int]) != ascii_folded(b@[i as int]));
            return false;
        }
        i = i + 1;
    }
    true
}

/// Exact comparison of two texts.
pub fn same_text(a: &str, b: &str) -> (r: bool)
    ensures
        r == (a@ == b@),
{
    let left: Vec<char> = chars_of(a);
    let right: Vec<char> = chars_of(b);
    if left.len() != right.len() {
        return false;
    }
    let r: bool = matches_at(&left, &right, 0);
    assert(left@.subrange(0, right@.len() as int) =~= left@);
    r
}

/// `a` comes strictly before `b` in code-point order.
pub open spec fn text_before(a: Seq<char>, b: Seq<char>) -> bool
    decreases a.len(),
{
    if b.len() == 0 {
        false
    } else if a.len() == 0 {
        true
    } else if a[0] != b[0] {
        a[0] < b[0]
    } else {
        text_before(a.drop_first(), b.drop_first())
    }
}

pub proof fn lemma_text_before_total(a: Seq<char>, b: Seq<char>)
    ensures
        text_before(a, b) || text_before(b, a) || a == b,
        !(text_before(a, b) && text_before(b, a)),
        !text_before(a, a),
    decreases a.len(),
{
    if a.len() > 0 {
        lemma_text_before_total(a.drop_first(), a.drop_first());
    }
    if a.len() > 0 && b.len() > 0 && a[0] == b[0] {
        lemma_text_before_total(a.drop_first(), b.drop_first());
        if a.drop_first() == b.drop_first() {
            assert(a =~= seq![a[0]] + a.drop_first());
            assert(b =~= seq![b[0]] + b.drop_first());
        }
    } else if a.len() == 0 && b.len() == 0 {
        assert(a =~= b);
    }
}

pub proof fn lemma_text_before_transitive(a: Seq<char>, b: Seq<char>, c: Seq<char>)
    requires
        text_before(a, b),
        text_before(b, c),
    ensures
        text_before(a, c),
    decreases a.len(),
{
    if a.len() > 0 && b.len() > 0 && c.len() > 0 && a[0] == b[0] && b[0] == c[0] {
        lemma_text_before_transitive(a.drop_first(), b.drop_first(), c.drop_first());
    }
}

proof fn lemma_text_before_at(a: Seq<char>, b: Seq<char>, k: int)
    requires
        0 <= k <= a.len(),
        0 <= k <= b.len(),
        forall|j: int| 0 <= j < k ==> a[j] == b[j],
    ensures
        text_before(a, b) == text_before(a.skip(k), b.skip(k)),
    decreases k,
{
    if k == 0 {
        assert(a.skip(0) =~= a);
        assert(b.skip(0) =~= b);
    } else {
        lemma_text_before_at(a.drop_first(), b.drop_first(), k - 1);
        assert(a.drop_first().skip(k - 1) =~= a.skip(k));
        assert(b.drop_first().skip(k - 1) =~= b.skip(k));
    }
}

/// Code-point order on texts, which is also the order of their UTF-8 bytes.
pub fn is_text_before(a: &str, b: &str) -> (r: bool)
    ensures
        r == text_before(a@, b@),
{
    let n: usize = a.unicode_len();
    let m: usize = b.unicode_len();
    let mut i: usize = 0;
    while i < n && i < m
        invariant
            n == a@.len(),
            m == b@.len(),
            0 <= i <= n,
            i <= m,
            forall|j: int| 0 <= j < i ==> a@[j] == b@[j],
        decreases n - i,
    {
        let x: char = a.get_char(i);
        let y: char = b.get_char(i);
        if x != y {
            proof {
                lemma_text_before_at(a@, b@, i as int);
                assert(a@.skip(i as int)[0] == x);
                assert(b@.skip(i as int)[0] == y);
            }
            return x < y;
        }
        i = i + 1;
    }
    proof {
        lemma_text_before_at(a@, b@, i as int);
    }
    n == i && i < m
}

/// Decimal digits of a number, most significant first.
pub open spec fn decimal_digits(n: nat) -> Seq<char>
    decreases n,
{
    if n < 10 {
        seq![(48 + n) as char]
    } else {
        decimal_digits(n / 10).push((48 + n % 10) as char)
    }
}

fn digit_char(d: u64) -> (c: char)
    requires
        d < 16,
    ensures
        c == hex_digit(d as nat),
        d < 10 ==> c == (48 + d) as char,
{
    match d {
        0 => '0',
        1 => '1',
        2 => '2',
        3 => '3',
        4 => '4',
        5 => '5',
        6 => '6',
        7 => '7',
        8 => '8',
        9 => '9',
        10 => 'a',
        11 => 'b',
        12 => 'c',
        13 => 'd',
        14 => 'e',
        _ => 'f',
    }
}

/// Decimal rendering of an unsigned number.
pub fn decimal(n: u64) -> (text: String)
    ensures
        text@ == decimal_digits(n as nat),
    decreases n,
{
    if n < 10 {
        let mut text: String = String::new();
        text.push(digit_char(n));
        assert(text@ =~= seq![(48 + n) as char]);
        text
    } else {
        let mut text: String = decimal(n / 10);
        text.push(digit_char(n % 10));
        text
    }
}

/// Decimal rendering of a signed number, with a leading minus where negative.
pub open spec fn signed_decimal_digits(n: int) -> Seq<char> {
    if n < 0 {
        "-"@ + decimal_digits((-n) as nat)
    } else {
        decimal_digits(n as nat)
    }
}

pub fn signed_decimal(n: i64) -> (text: String)
    ensures
        text@ == signed_decimal_digits(n as int),
{
    if n >= 0 {
        decimal(n as u64)
    } else if n == i64::MIN {
        let magnitude: u64 = 0x8000_0000_0000_0000u64;
        String::from_str("-").concat(decimal(magnitude).as_str())
    } else {
        String::from_str("-").concat(decimal((-n) as u64).as_str())
    }
}

pub open spec fn hex_digit(d: nat) -> char {
    if d < 10 {
        (48 + d) as char
    } else {
        (87 + d) as char
    }
}

/// The `width` low hexadecimal digits of a number, zero padded.
pub open spec fn hex_digits(n: nat, width: nat) -> Seq<char>
    decreases width,
{
    if width == 0 {
        Seq::empty()
    } else {
        hex_digits(n / 16, (width - 1) as nat).push(hex_digit(n % 16))
    }
}

fn hex(n: u64, width: u32) -> (text: String)
    ensures
        text@ == hex_digits(n as nat, width as nat),
    decreases width,
{
    if width == 0 {
        let text: String = String::new();
        assert(text@ =~= Seq::<char>::empty());
        text
    } else {
        let mut text: String = hex(n / 16, width - 1);
        text.push(digit_char(n % 16));
        text
    }
}

/// A directory with the slash that parts it from what is in it. The empty one
/// needs none, and one that ends in a slash has it already.
pub open spec fn directory_prefix(directory: Seq<char>) -> Seq<char> {
    if directory.len() == 0 || directory.last() == '/' {
        directory
    } else {
        directory.push('/')
    }
}

/// Relative file path that a segment of a table has by convention.
pub open spec fn conventional_segment_path(table_name: Seq<char>, segment_id: u64) -> Seq<char> {
    directory_prefix(table_name) + "segment_"@ + hex_digits(segment_id as nat, 16) + ".data"@
}

/// Relative path of a segment file below the volume directory.
pub fn conventional_segment_file_path(table_name: &str, segment_id: u64) -> (path: String)
    ensures
        path@ == conventional_segment_path(table_name@, segment_id),
{
    let n: usize = table_name.unicode_len();
    let mut prefix: String = String::from_str(table_name);
    if n > 0 && table_name.get_char(n - 1) != '/' {
        prefix.push('/');
    }
    prefix.concat("segment_").concat(hex(segment_id, 16).as_str()).concat(".data")
}

/// The first `limit` characters of a text.
pub open spec fn clipped(text: Seq<char>, limit: nat) -> Seq<char> {
    if text.len() <= limit {
        text
    } else {
        text.subrange(0, limit as int)
    }
}

pub fn clip(text: &str, limit: usize) -> (r: String)
    ensures
        r@ == clipped(text@, limit as nat),
{
    let n: usize = text.unicode_len();
    if n <= limit {
        String::from_str(text)
    } else {
        String::from_str(text.substring_char(0, limit))
    }
}

/// Characters with the Unicode `White_Space` property.
pub open spec fn is_white_space(c: char) -> bool {
    let n = c as int;
    ||| 9 <= n <= 13
    ||| n == 0x20
    ||| n == 0x85
    ||| n == 0xa0
    ||| n == 0x1680
    ||| 0x2000 <= n <= 0x200a
    ||| n == 0x2028
    ||| n == 0x2029
    ||| n == 0x202f
    ||| n == 0x205f
    ||| n == 0x3000
}

/// Nothing remains of the text once surrounding white space is trimmed.
pub open spec fn is_blank(text: Seq<char>) -> bool {
    forall|i: int| 0 <= i < text.len() ==> is_white_space(#[trigger] text[i])
}

fn code_point(c: char) -> (n: u32)
    ensures
        n == c as int,
{
    c as u32
}

/// Decides the Unicode `White_Space` property.
pub fn is_white(c: char) -> (r: bool)
    ensures
        r == is_white_space(c),
{
    let c: u32 = code_point(c);
    (9 <= c && c <= 13) || c == 0x20 || c == 0x85 || c == 0xa0 || c == 0x1680 || (0x2000 <= c && c
        <= 0x200a) || c == 0x2028 || c == 0x2029 || c == 0x202f || c == 0x205f || c == 0x3000
}

pub fn is_blank_text(text: &str) -> (r: bool)
    ensures
        r == is_blank(text@),
{
    let chars: Vec<char> = chars_of(text);
    let n: usize = chars.len();
    let mut i: usize = 0;
    while i < n
        invariant
            n == text@.len(),
            chars@ == text@,
            0 <= i <= n,
            forall|j: int| 0 <= j < i ==> is_white_space(#[trigger] text@[j]),
        decreases n - i,
    {
        if !is_white(chars[i]) {
            assert(!is_white_space(text@[i as int]));
            return false;
        }
        i = i + 1;
    }
    true
}

/// Texts one behind the other, with a separator between them.
pub open spec fn joined(texts: Seq<Seq<char>>, separator: Seq<char>) -> Seq<char>
    decreases texts.len(),
{
    if texts.len() == 0 {
        Seq::empty()
    } else if texts.len() == 1 {
        texts[0]
    } else {
        joined(texts.drop_last(), separator) + separator + texts.last()
    }
}

/// Texts one behind the other, with a separator between them.
pub fn join(texts: &Vec<String>, separator: &str) -> (r: String)
    ensures
        r@ == joined(views(texts@), separator@),
{
    let ghost all = views(texts@);
    if texts.len() == 0 {
        let out: String = String::new();
        assert(out@ =~= joined(all, separator@));
        return out;
    }
    let mut out: String = texts[0].clone();
    let mut i: usize = 1;
    assert(all.take(1).len() == 1 && all.take(1)[0] == texts@[0]@);
    while i < texts.len()
        invariant
            1 <= i <= texts@.len(),
            all == views(texts@),
            out@ == joined(all.take(i as int), separator@),
        decreases texts@.len() - i,
    {
        out = out.concat(separator).concat(texts[i].as_str());
        proof {
            let longer = all.take(i + 1);
            assert(longer.drop_last() =~= all.take(i as int));
            assert(longer.last() == texts@[i as int]@);
        }
        i = i + 1;
    }
    assert(all.take(i as int) =~= all);
    out
}

} // verus!
