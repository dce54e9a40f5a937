//! Column defaults that were stored as expression text only.
use crate::schema::DataType;
use crate::text::chars_of;
use crate::text::eq_ignore_ascii_case;
use crate::text::is_white;
use crate::text::is_white_space;
use crate::text::same_ignoring_ascii_case;
use crate::text::text_of;
use vstd::prelude::*;

verus! {

/// A default that is a plain literal. A text and a number go with the type of
/// their column, into which they have yet to be converted: a default written
/// as a quoted text need not belong to a text column.
#[derive(Debug)]
pub enum DefaultLiteral {
    Null { data_type: DataType },
    Boolean(bool),
    Text { text: String, data_type: DataType },
    Integer { value: i64, data_type: DataType },
}

pub enum LiteralView {
    Null { data_type: DataType },
    Boolean(bool),
    Text { text: Seq<char>, data_type: DataType },
    Integer { value: int, data_type: DataType },
}

impl View for DefaultLiteral {
    type V = LiteralView;

    open spec fn view(&self) -> LiteralView {
        match self {
            DefaultLiteral::Null { data_type } => LiteralView::Null { data_type: *data_type },
            DefaultLiteral::Boolean(b) => LiteralView::Boolean(*b),
            DefaultLiteral::Text { text, data_type } => LiteralView::Text {
                text: text@,
                data_type: *data_type,
            },
            DefaultLiteral::Integer { value, data_type } => LiteralView::Integer {
                value: *value as int,
                data_type: *data_type,
            },
        }
    }
}

/// Text from its first to its last character that is not white space.
pub open spec fn is_trimmed(text: Seq<char>, from: int, to: int) -> bool {
    &&& 0 <= from <= to <= text.len()
    &&& forall|i: int| 0 <= i < from ==> is_white_space(#[trigger] text[i])
    &&& forall|i: int| to <= i < text.len() ==> is_white_space(#[trigger] text[i])
    &&& from < to ==> !is_white_space(text[from]) && !is_white_space(text[to - 1])
}

/// The text without surrounding white space.
pub open spec fn trimmed(text: Seq<char>) -> Seq<char> {
    let bounds = choose|bounds: (int, int)| #[trigger] is_trimmed(text, bounds.0, bounds.1);
    text.subrange(bounds.0, bounds.1)
}

proof fn lemma_trimmed(text: Seq<char>, from: int, to: int)
    requires
        is_trimmed(text, from, to),
    ensures
        trimmed(text) == text.subrange(from, to),
{
    let bounds = choose|bounds: (int, int)| #[trigger] is_trimmed(text, bounds.0, bounds.1);
    assert(is_trimmed(text, (from, to).0, (from, to).1));
    assert(is_trimmed(text, bounds.0, bounds.1));
    if from < to {
        assert(!is_white_space(text[from]) && !is_white_space(text[to - 1]));
        assert(bounds.0 < bounds.1);
    } else if bounds.0 < bounds.1 {
        assert(!is_white_space(text[bounds.0]));
    } else {
        assert(text.subrange(from, to) =~= text.subrange(bounds.0, bounds.1));
    }
}

/// Positions between which the trimmed text stands.
fn trim_bounds(text: &Vec<char>) -> (r: (usize, usize))
    ensures
        r.0 <= r.1 <= text@.len(),
        trimmed(text@) == text@.subrange(r.0 as int, r.1 as int),
{
    let mut from: usize = 0;
    while from < text.len() && is_white(text[from])
        invariant
            0 <= from <= text@.len(),
            forall|i: int| 0 <= i < from ==> is_white_space(#[trigger] text@[i]),
        decreases text@.len() - from,
    {
        from = from + 1;
    }
    let mut to: usize = text.len();
    while from < to && is_white(text[to - 1])
        invariant
            0 <= from <= to <= text@.len(),
            forall|i: int| 0 <= i < from ==> is_white_space(#[trigger] text@[i]),
            from < text@.len() ==> !is_white_space(text@[from as int]),
            forall|i: int| to <= i < text@.len() ==> is_white_space(#[trigger] text@[i]),
        decreases to,
    {
        to = to - 1;
    }
    proof {
        lemma_trimmed(text@, from as int, to as int);
    }
    (from, to)
}

/// Whether the quotes of a text stand in pairs, so that none of them ends it.
pub open spec fn quotes_are_doubled(text: Seq<char>) -> bool
    decreases text.len(),
{
    if text.len() == 0 {
        true
    } else if text[0] != '\'' {
        quotes_are_doubled(text.skip(1))
    } else {
        text.len() >= 2 && text[1] == '\'' && quotes_are_doubled(text.skip(2))
    }
}

fn has_doubled_quotes(text: &Vec<char>, from: usize, to: usize) -> (r: bool)
    requires
        from <= to <= text@.len(),
    ensures
        r == quotes_are_doubled(text@.subrange(from as int, to as int)),
{
    let ghost whole = text@.subrange(from as int, to as int);
    let mut i: usize = from;
    while i < to
        invariant
            from <= i <= to <= text@.len(),
            whole == text@.subrange(from as int, to as int),
            quotes_are_doubled(whole) == quotes_are_doubled(
                text@.subrange(i as int, to as int),
            ),
        decreases to - i,
    {
        let ghost rest = text@.subrange(i as int, to as int);
        if text[i] != '\'' {
            assert(rest.skip(1) =~= text@.subrange(i + 1, to as int));
            i = i + 1;
        } else if to - i >= 2 && text[i + 1] == '\'' {
            assert(rest.skip(2) =~= text@.subrange(i + 2, to as int));
            i = i + 2;
        } else {
            return false;
        }
    }
    true
}

/// Text with each doubled quote made single, from the left.
pub open spec fn unescaped(text: Seq<char>) -> Seq<char>
    decreases text.len(),
{
    if text.len() == 0 {
        Seq::empty()
    } else if text.len() >= 2 && text[0] == '\'' && text[1] == '\'' {
        seq!['\''] + unescaped(text.skip(2))
    } else {
        seq![text[0]] + unescaped(text.skip(1))
    }
}

fn unescape(text: &Vec<char>, from: usize, to: usize) -> (r: String)
    requires
        from <= to <= text@.len(),
    ensures
        r@ == unescaped(text@.subrange(from as int, to as int)),
{
    let ghost whole = text@.subrange(from as int, to as int);
    let mut out: Vec<char> = Vec::new();
    let mut i: usize = from;
    while i < to
        invariant
            from <= i <= to <= text@.len(),
            whole == text@.subrange(from as int, to as int),
            unescaped(whole) == out@ + unescaped(text@.subrange(i as int, to as int)),
        decreases to - i,
    {
        let ghost rest = text@.subrange(i as int, to as int);
        let ghost before = out@;
        out.push(text[i]);
        if to - i >= 2 && text[i] == '\'' && text[i + 1] == '\'' {
            assert(rest.skip(2) =~= text@.subrange(i + 2, to as int));
            i = i + 2;
        } else {
            assert(rest.skip(1) =~= text@.subrange(i + 1, to as int));
            i = i + 1;
        }
        assert(before + (seq![rest[0]] + unescaped(text@.subrange(i as int, to as int)))
            =~= out@ + unescaped(text@.subrange(i as int, to as int)));
    }
    assert(text@.subrange(to as int, to as int).len() == 0);
    assert(out@ + Seq::<char>::empty() =~= out@);
    let n: usize = out.len();
    assert(out@.subrange(0, n as int) =~= out@);
    text_of(&out, 0, n)
}

pub open spec fn is_digit(c: char) -> bool {
    '0' <= c <= '9'
}

/// Value of a digit sequence.
pub open spec fn digits_value(digits: Seq<char>) -> nat
    decreases digits.len(),
{
    if digits.len() == 0 {
        0
    } else {
        digits_value(digits.drop_last()) * 10 + ((digits.last() as int) - ('0' as int)) as nat
    }
}

pub open spec fn all_digits(text: Seq<char>) -> bool {
    text.len() > 0 && forall|i: int| 0 <= i < text.len() ==> is_digit(#[trigger] text[i])
}

/// The number that a text denotes: an optional sign and decimal digits, in
/// the range of a signed 64-bit integer.
pub open spec fn integer_value(text: Seq<char>) -> Option<int> {
    let signed = text.len() > 0 && (text[0] == '-' || text[0] == '+');
    let digits = if signed {
        text.skip(1)
    } else {
        text
    };
    let magnitude = digits_value(digits) as int;
    let value = if signed && text[0] == '-' {
        -magnitude
    } else {
        magnitude
    };
    if all_digits(digits) && i64::MIN <= value <= i64::MAX {
        Some(value)
    } else {
        None
    }
}

fn digit_of(c: char) -> (r: Option<i128>)
    ensures
        r is Some <==> is_digit(c),
        r matches Some(d) ==> d == (c as int) - ('0' as int),
{
    match c {
        '0' => Some(0),
        '1' => Some(1),
        '2' => Some(2),
        '3' => Some(3),
        '4' => Some(4),
        '5' => Some(5),
        '6' => Some(6),
        '7' => Some(7),
        '8' => Some(8),
        '9' => Some(9),
        _ => None,
    }
}

/// Above every magnitude that fits.
const MAGNITUDE_LIMIT: i128 = 0x1_0000_0000_0000_0000;

fn parse_integer(text: &Vec<char>, from: usize, to: usize) -> (r: Option<i64>)
    requires
        from <= to <= text@.len(),
    ensures
        r is Some <==> integer_value(text@.subrange(from as int, to as int)) is Some,
        r matches Some(n) ==> integer_value(text@.subrange(from as int, to as int)) == Some(
            n as int,
        ),
{
    let ghost whole = text@.subrange(from as int, to as int);
    let signed: bool = from < to && (text[from] == '-' || text[from] == '+');
    let negative: bool = from < to && text[from] == '-';
    let start: usize = if signed {
        from + 1
    } else {
        from
    };
    let ghost digits = text@.subrange(start as int, to as int);
    assert(digits =~= if signed {
        whole.skip(1)
    } else {
        whole
    });
    if start == to {
        return None;
    }
    let mut magnitude: i128 = 0;
    let mut i: usize = start;
    while i < to
        invariant
            from <= start <= i <= to <= text@.len(),
            whole == text@.subrange(from as int, to as int),
            digits == text@.subrange(start as int, to as int),
            signed == (whole.len() > 0 && (whole[0] == '-' || whole[0] == '+')),
            digits == (if signed {
                whole.skip(1)
            } else {
                whole
            }),
            forall|k: int| 0 <= k < i - start ==> is_digit(#[trigger] digits[k]),
            0 <= magnitude <= MAGNITUDE_LIMIT,
            magnitude == if digits_value(digits.take(i - start)) < MAGNITUDE_LIMIT {
                digits_value(digits.take(i - start)) as int
            } else {
                MAGNITUDE_LIMIT as int
            },
        decreases to - i,
    {
        assert(digits.take(i - start + 1).drop_last() =~= digits.take(i - start));
        assert(digits[i - start] == text@[i as int]);
        match digit_of(text[i]) {
            Some(d) => {
                let next: i128 = magnitude * 10 + d;
                magnitude = if next < MAGNITUDE_LIMIT {
                    next
                } else {
                    MAGNITUDE_LIMIT
                };
            },
            None => {
                assert(!is_digit(digits[i - start]));
                return None;
            },
        }
        i = i + 1;
    }
    assert(digits.take(to - start) =~= digits);
    let value: i128 = if negative {
        -magnitude
    } else {
        magnitude
    };
    if -0x8000_0000_0000_0000 <= value && value <= 0x7fff_ffff_ffff_ffff {
        Some(value as i64)
    } else {
        None
    }
}

/// The literal that a trimmed expression is. Between the outer quotes of a
/// text every quote is doubled; otherwise the text ends before the expression
/// does, and the expression is more than a literal.
pub open spec fn literal_value(text: Seq<char>, data_type: DataType) -> Option<LiteralView> {
    if same_ignoring_ascii_case(text, "null"@) {
        Some(LiteralView::Null { data_type })
    } else if same_ignoring_ascii_case(text, "true"@) {
        Some(LiteralView::Boolean(true))
    } else if same_ignoring_ascii_case(text, "false"@) {
        Some(LiteralView::Boolean(false))
    } else if text.len() >= 2 && text[0] == '\'' && text[text.len() - 1] == '\'' {
        if quotes_are_doubled(text.subrange(1, text.len() - 1)) {
            Some(
                LiteralView::Text {
                    text: unescaped(text.subrange(1, text.len() - 1)),
                    data_type,
                },
            )
        } else {
            None
        }
    } else {
        match integer_value(text) {
            Some(value) => Some(LiteralView::Integer { value, data_type }),
            None => None,
        }
    }
}

/// Reads a default expression that is `NULL`, a truth value, a quoted text or
/// an integer. Anything else, calls among them, is left to the caller.
pub fn try_parse_default_literal(expr: &str, data_type: DataType) -> (r: Option<DefaultLiteral>)
    ensures
        match r {
            Some(literal) => literal_value(trimmed(expr@), data_type) == Some(literal@),
            None => literal_value(trimmed(expr@), data_type) is None,
        },
{
    let chars: Vec<char> = chars_of(expr);
    let (from, to) = trim_bounds(&chars);
    let ghost text = trimmed(expr@);
    let plain: String = text_of(&chars, from, to);
    if eq_ignore_ascii_case(plain.as_str(), "null") {
        return Some(DefaultLiteral::Null { data_type });
    }
    if eq_ignore_ascii_case(plain.as_str(), "true") {
        return Some(DefaultLiteral::Boolean(true));
    }
    if eq_ignore_ascii_case(plain.as_str(), "false") {
        return Some(DefaultLiteral::Boolean(false));
    }
    if to - from >= 2 && chars[from] == '\'' && chars[to - 1] == '\'' {
        assert(text.subrange(1, text.len() - 1) =~= chars@.subrange(from + 1, to - 1));
        if !has_doubled_quotes(&chars, from + 1, to - 1) {
            return None;
        }
        return Some(
            DefaultLiteral::Text { text: unescape(&chars, from + 1, to - 1), data_type },
        );
    }
    match parse_integer(&chars, from, to) {
        Some(value) => Some(DefaultLiteral::Integer { value, data_type }),
        None => None,
    }
}

/// A column's default.
#[derive(Debug)]
pub struct ColumnDefault {
    pub data_type: DataType,
    pub expr: Option<String>,
    pub value: Option<DefaultLiteral>,
}

pub open spec fn optional_literal(literal: Option<DefaultLiteral>) -> Option<LiteralView> {
    match literal {
        Some(l) => Some(l@),
        None => None,
    }
}

/// The value that a column has after its default was read.
pub open spec fn read_default(column: ColumnDefault) -> Option<LiteralView> {
    match (column.value, column.expr) {
        (None, Some(expr)) => literal_value(trimmed(expr@), column.data_type),
        (value, _) => optional_literal(value),
    }
}

/// Fills in the values that were not stored. Rows older than such a column
/// take its default, which would otherwise be missing.
pub fn populate_schema_defaults(columns: &mut Vec<ColumnDefault>)
    ensures
        final(columns)@.len() == old(columns)@.len(),
        forall|i: int|
            0 <= i < old(columns)@.len() ==> (#[trigger] final(columns)@[i]).expr == old(
                columns,
            )@[i].expr && final(columns)@[i].data_type == old(columns)@[i].data_type
                && optional_literal(final(columns)@[i].value) == read_default(
                old(columns)@[i],
            ),
{
    let mut i: usize = 0;
    while i < columns.len()
        invariant
            0 <= i <= columns@.len(),
            columns@.len() == old(columns)@.len(),
            forall|k: int|
                0 <= k < i ==> (#[trigger] columns@[k]).expr == old(columns)@[k].expr
                    && columns@[k].data_type == old(columns)@[k].data_type && optional_literal(columns@[k].value) == read_default(old(columns)@[k]),
            forall|k: int| i <= k < columns@.len() ==> #[trigger] columns@[k] == old(columns)@[k],
        decreases columns@.len() - i,
    {
        let column: ColumnDefault = columns.remove(i);
        let ghost held = column;
        let next: ColumnDefault = match column.value {
            Some(value) => ColumnDefault {
                data_type: column.data_type,
                expr: column.expr,
                value: Some(value),
            },
            None => {
                let value: Option<DefaultLiteral> = match &column.expr {
                    Some(expr) => try_parse_default_literal(expr.as_str(), column.data_type),
                    None => None,
                };
                ColumnDefault { data_type: column.data_type, expr: column.expr, value }
            },
        };
        assert(held == old(columns)@[i as int]);
        columns.insert(i, next);
        i = i + 1;
    }
}

} // verus!
