//! The calculator row's expression grammar.
//!
//! A query such as `(10 + 2) * 3` is read by a recursive-descent parser over
//! the query's bytes: sums of terms, terms of unary factors, unary signs, and
//! primaries that are numbers or parenthesised expressions. Numbers may use
//! `,` and `_` as digit separators and hold at most one decimal point. The
//! parser builds the expression tree and counts its binary operators; the
//! arithmetic itself is done by the caller on the tree.
use vstd::prelude::*;
use crate::text::{chars_of, string_from, char_from_ascii, trim, trim_chars};

verus! {

/// The binary operators of the grammar.
#[derive(Debug, Clone, Copy, PartialEq, Eq, Structural)]
pub enum BinaryOperator {
    Add,
    Subtract,
    Multiply,
    Divide,
    Remainder,
}

/// A parsed expression. A number is the span `start..end` of the query's
/// bytes that spelled it; its digits are read with `literal_text`.
#[derive(Debug, PartialEq, Eq)]
pub enum Expression {
    Number { start: usize, end: usize },
    Negate(Box<Expression>),
    Binary(BinaryOperator, Box<Expression>, Box<Expression>),
}

/// The number of binary operators in an expression tree.
pub open spec fn count_operators(e: Expression) -> nat
    decreases e,
{
    match e {
        Expression::Number { .. } => 0,
        Expression::Negate(inner) => count_operators(*inner),
        Expression::Binary(_, lhs, rhs) => count_operators(*lhs) + count_operators(*rhs) + 1,
    }
}

/// `u8::is_ascii_whitespace`: space, tab, line feed, form feed, carriage return.
pub open spec fn is_ascii_ws(b: u8) -> bool {
    b == 0x20 || b == 0x09 || b == 0x0a || b == 0x0c || b == 0x0d
}

pub open spec fn is_digit_byte(b: u8) -> bool {
    0x30 <= b <= 0x39
}

/// The bytes that may appear in a number: digits, the point and separators.
pub open spec fn is_number_byte(b: u8) -> bool {
    is_digit_byte(b) || b == 0x2e || b == 0x2c || b == 0x5f
}

/// The first position at or after `i` that is not ASCII white space.
pub open spec fn skip_ws(b: Seq<u8>, i: int) -> int
    decreases b.len() - i,
{
    if 0 <= i < b.len() && is_ascii_ws(b[i]) {
        skip_ws(b, i + 1)
    } else {
        i
    }
}

/// Where a number that starts at `j` ends; `seen_point` tells whether a
/// decimal point was already taken (a second one ends the number).
pub open spec fn number_end(b: Seq<u8>, j: int, seen_point: bool) -> int
    decreases b.len() - j,
{
    if 0 <= j < b.len() && (is_digit_byte(b[j]) || (b[j] == 0x2e && !seen_point) || b[j] == 0x2c
        || b[j] == 0x5f) {
        number_end(b, j + 1, seen_point || b[j] == 0x2e)
    } else {
        j
    }
}

/// Some byte in `start..end` is a digit.
pub open spec fn has_digit(b: Seq<u8>, start: int, end: int) -> bool {
    exists|k: int| start <= k < end && is_digit_byte(#[trigger] b[k])
}

/// Every number of `e` spans bytes of `b` that may appear in a number.
pub open spec fn spans_within(e: Expression, b: Seq<u8>) -> bool
    decreases e,
{
    match e {
        Expression::Number { start, end } => start <= end <= b.len() && forall|k: int|
            start <= k < end ==> is_number_byte(#[trigger] b[k]),
        Expression::Negate(inner) => spans_within(*inner, b),
        Expression::Binary(_, lhs, rhs) => spans_within(*lhs, b) && spans_within(*rhs, b),
    }
}

pub proof fn lemma_skip_ws_bounds(b: Seq<u8>, i: int)
    requires
        0 <= i <= b.len(),
    ensures
        i <= skip_ws(b, i) <= b.len(),
        skip_ws(b, i) < b.len() ==> !is_ascii_ws(b[skip_ws(b, i)]),
    decreases b.len() - i,
{
    if i < b.len() && is_ascii_ws(b[i]) {
        lemma_skip_ws_bounds(b, i + 1);
    }
}

pub proof fn lemma_number_end_bounds(b: Seq<u8>, j: int, seen_point: bool)
    requires
        0 <= j <= b.len(),
    ensures
        j <= number_end(b, j, seen_point) <= b.len(),
        forall|k: int| j <= k < number_end(b, j, seen_point) ==> is_number_byte(#[trigger] b[k]),
    decreases b.len() - j,
{
    if j < b.len() && (is_digit_byte(b[j]) || (b[j] == 0x2e && !seen_point) || b[j] == 0x2c
        || b[j] == 0x5f) {
        lemma_number_end_bounds(b, j + 1, seen_point || b[j] == 0x2e);
    }
}

/// A number starting at `i`, if it holds a digit.
pub open spec fn number_at(b: Seq<u8>, i: int) -> Option<(Expression, int)> {
    let end = number_end(b, i, false);
    if 0 <= i <= end <= b.len() && has_digit(b, i, end) {
        Some((Expression::Number { start: i as usize, end: end as usize }, end))
    } else {
        None
    }
}

/// `expression := term (('+' | '-') term)*`, read from position `i`.
pub open spec fn expression_at(b: Seq<u8>, i: int) -> Option<(Expression, int)>
    decreases b.len() - i, 5int,
{
    if !(0 <= i <= b.len()) {
        None
    } else {
        match term_at(b, i) {
            None => None,
            Some((lhs, j)) => if j <= i || j > b.len() {
                None
            } else {
                expression_tail(b, lhs, j)
            },
        }
    }
}

/// The `(('+' | '-') term)*` repetition after the sum `acc`, read from `j`.
pub open spec fn expression_tail(b: Seq<u8>, acc: Expression, j: int) -> Option<(Expression, int)>
    decreases b.len() - j, 0int,
{
    if !(0 <= j <= b.len()) {
        None
    } else {
        let k = skip_ws(b, j);
        proof {
            lemma_skip_ws_bounds(b, j);
        }
        if k < b.len() && (b[k] == 0x2b || b[k] == 0x2d) {
            let op = if b[k] == 0x2b {
                BinaryOperator::Add
            } else {
                BinaryOperator::Subtract
            };
            match term_at(b, k + 1) {
                None => None,
                Some((rhs, m)) => if m <= k + 1 || m > b.len() {
                    None
                } else {
                    expression_tail(b, Expression::Binary(op, Box::new(acc), Box::new(rhs)), m)
                },
            }
        } else {
            Some((acc, k))
        }
    }
}

/// `term := unary (('*' | '/' | '%') unary)*`, read from position `i`.
pub open spec fn term_at(b: Seq<u8>, i: int) -> Option<(Expression, int)>
    decreases b.len() - i, 4int,
{
    if !(0 <= i <= b.len()) {
        None
    } else {
        match unary_at(b, i) {
            None => None,
            Some((lhs, j)) => if j <= i || j > b.len() {
                None
            } else {
                term_tail(b, lhs, j)
            },
        }
    }
}

/// The `(('*' | '/' | '%') unary)*` repetition after the product `acc`.
pub open spec fn term_tail(b: Seq<u8>, acc: Expression, j: int) -> Option<(Expression, int)>
    decreases b.len() - j, 0int,
{
    if !(0 <= j <= b.len()) {
        None
    } else {
        let k = skip_ws(b, j);
        proof {
            lemma_skip_ws_bounds(b, j);
        }
        if k < b.len() && (b[k] == 0x2a || b[k] == 0x2f || b[k] == 0x25) {
            let op = if b[k] == 0x2a {
                BinaryOperator::Multiply
            } else if b[k] == 0x2f {
                BinaryOperator::Divide
            } else {
                BinaryOperator::Remainder
            };
            match unary_at(b, k + 1) {
                None => None,
                Some((rhs, m)) => if m <= k + 1 || m > b.len() {
                    None
                } else {
                    term_tail(b, Expression::Binary(op, Box::new(acc), Box::new(rhs)), m)
                },
            }
        } else {
            Some((acc, k))
        }
    }
}

/// `unary := ('+' | '-')* primary`, with white space allowed between signs;
/// an odd number of minus signs negates the primary.
pub open spec fn unary_at(b: Seq<u8>, i: int) -> Option<(Expression, int)>
    decreases b.len() - i, 3int,
{
    if !(0 <= i <= b.len()) {
        None
    } else {
        proof {
            lemma_skip_ws_bounds(b, i);
        }
        signs_at(b, skip_ws(b, i), false)
    }
}

/// The sign prefix of a unary factor, read from `k`; `negated` tells the
/// parity of the minus signs seen so far.
pub open spec fn signs_at(b: Seq<u8>, k: int, negated: bool) -> Option<(Expression, int)>
    decreases b.len() - k, 2int,
{
    if !(0 <= k <= b.len()) {
        None
    } else if k < b.len() && (b[k] == 0x2b || b[k] == 0x2d) {
        proof {
            lemma_skip_ws_bounds(b, k + 1);
        }
        signs_at(b, skip_ws(b, k + 1), if b[k] == 0x2d { !negated } else { negated })
    } else {
        match primary_at(b, k) {
            None => None,
            Some((e, m)) => Some(
                (if negated {
                    Expression::Negate(Box::new(e))
                } else {
                    e
                }, m),
            ),
        }
    }
}

/// `primary := '(' expression ')' | number`, read from position `i`.
pub open spec fn primary_at(b: Seq<u8>, i: int) -> Option<(Expression, int)>
    decreases b.len() - i, 1int,
{
    if !(0 <= i <= b.len()) {
        None
    } else {
        let k = skip_ws(b, i);
        proof {
            lemma_skip_ws_bounds(b, i);
        }
        if k >= b.len() {
            None
        } else if b[k] == 0x28 {
            match expression_at(b, k + 1) {
                None => None,
                Some((e, j)) => if j < k + 1 || j > b.len() {
                    None
                } else {
                    let m = skip_ws(b, j);
                    if m < b.len() && b[m] == 0x29 {
                        Some((e, m + 1))
                    } else {
                        None
                    }
                },
            }
        } else if is_digit_byte(b[k]) || b[k] == 0x2e {
            number_at(b, k)
        } else {
            None
        }
    }
}

proof fn lemma_number_end_digits(b: Seq<u8>, j: int, e: int, seen_point: bool)
    requires
        0 <= j <= e <= b.len(),
        forall|k: int| j <= k < e ==> is_digit_byte(#[trigger] b[k]),
        e == b.len() || !is_number_byte(b[e]),
    ensures
        number_end(b, j, seen_point) == e,
    decreases e - j,
{
    if j < e {
        lemma_number_end_digits(b, j + 1, e, seen_point || b[j] == 0x2e);
    }
}

/// The number made of the digit run `i..e` of `b`, read from `i`.
proof fn lemma_digit_run_unary(b: Seq<u8>, i: int, e: int)
    requires
        0 <= i < e <= b.len() <= usize::MAX,
        forall|k: int| i <= k < e ==> is_digit_byte(#[trigger] b[k]),
        e == b.len() || !is_number_byte(b[e]),
    ensures
        unary_at(b, i) == Some((Expression::Number { start: i as usize, end: e as usize }, e)),
{
    assert(is_digit_byte(b[i]));
    assert(skip_ws(b, i) == i);
    lemma_number_end_digits(b, i, e, false);
    assert(has_digit(b, i, e));
    assert(number_at(b, i) == Some((Expression::Number { start: i as usize, end: e as usize }, e)));
    assert(primary_at(b, i) == number_at(b, i));
    assert(signs_at(b, i, false) == primary_at(b, i));
}

/// The operator an operator byte names: `+` adds, `-` subtracts, `*`
/// multiplies, `/` divides and `%` takes the remainder.
pub open spec fn operator_named_by(c: u8) -> BinaryOperator {
    if c == '+' as u8 {
        BinaryOperator::Add
    } else if c == '-' as u8 {
        BinaryOperator::Subtract
    } else if c == '*' as u8 {
        BinaryOperator::Multiply
    } else if c == '/' as u8 {
        BinaryOperator::Divide
    } else {
        BinaryOperator::Remainder
    }
}

/// The bytes that name a binary operator.
pub open spec fn is_operator_byte(c: u8) -> bool {
    c == '+' as u8 || c == '-' as u8 || c == '*' as u8 || c == '/' as u8 || c == '%' as u8
}

/// A binary operator written between two runs of digits is read as the
/// operator its byte names: `+` adds, `-` subtracts, `*` multiplies, `/`
/// divides and `%` takes the remainder, with the digits before it as the
/// left operand and those after it as the right one.
pub proof fn lemma_operator_byte_names_node(b: Seq<u8>, x: int)
    requires
        0 < x < b.len() - 1,
        b.len() <= usize::MAX,
        forall|k: int| 0 <= k < b.len() && k != x ==> is_digit_byte(#[trigger] b[k]),
        is_operator_byte(b[x]),
    ensures
        parse_all(b) == Some(
            Expression::Binary(
                operator_named_by(b[x]),
                Box::new(Expression::Number { start: 0, end: x as usize }),
                Box::new(Expression::Number { start: (x + 1) as usize, end: b.len() as usize }),
            ),
        ),
{
    let n = b.len() as int;
    let lhs = Expression::Number { start: 0, end: x as usize };
    let rhs = Expression::Number { start: (x + 1) as usize, end: n as usize };
    let op = operator_named_by(b[x]);
    let node = Expression::Binary(op, Box::new(lhs), Box::new(rhs));
    lemma_digit_run_unary(b, 0, x);
    lemma_digit_run_unary(b, x + 1, n);
    assert(skip_ws(b, x) == x);
    assert(skip_ws(b, n) == n);
    assert(term_tail(b, rhs, n) == Some((rhs, n)));
    assert(term_at(b, x + 1) == Some((rhs, n)));
    assert(term_tail(b, node, n) == Some((node, n)));
    assert(expression_tail(b, node, n) == Some((node, n)));
    if b[x] == 0x2b || b[x] == 0x2d {
        assert(term_tail(b, lhs, x) == Some((lhs, x)));
        assert(term_at(b, 0) == Some((lhs, x)));
        assert(expression_tail(b, lhs, x) == expression_tail(b, node, n));
    } else {
        assert(term_tail(b, lhs, x) == term_tail(b, node, n));
        assert(term_at(b, 0) == Some((node, n)));
    }
    assert(expression_at(b, 0) == Some((node, n)));
}

/// Two operators between three runs of digits: `*`, `/` and `%` bind more
/// tightly than `+` and `-`, and operators of the same strength group from
/// the left. Each node carries the operator its byte names.
pub proof fn lemma_operator_precedence(b: Seq<u8>, x: int, y: int)
    requires
        0 < x,
        x + 1 < y,
        y < b.len() - 1,
        b.len() <= usize::MAX,
        forall|k: int| 0 <= k < b.len() && k != x && k != y ==> is_digit_byte(#[trigger] b[k]),
        is_operator_byte(b[x]),
        is_operator_byte(b[y]),
    ensures
        parse_all(b) == Some(
            if (b[x] == '+' as u8 || b[x] == '-' as u8) && !(b[y] == '+' as u8 || b[y] == '-' as u8) {
                Expression::Binary(
                    operator_named_by(b[x]),
                    Box::new(Expression::Number { start: 0, end: x as usize }),
                    Box::new(
                        Expression::Binary(
                            operator_named_by(b[y]),
                            Box::new(Expression::Number { start: (x + 1) as usize, end: y as usize }),
                            Box::new(
                                Expression::Number { start: (y + 1) as usize, end: b.len() as usize },
                            ),
                        ),
                    ),
                )
            } else {
                Expression::Binary(
                    operator_named_by(b[y]),
                    Box::new(
                        Expression::Binary(
                            operator_named_by(b[x]),
                            Box::new(Expression::Number { start: 0, end: x as usize }),
                            Box::new(Expression::Number { start: (x + 1) as usize, end: y as usize }),
                        ),
                    ),
                    Box::new(Expression::Number { start: (y + 1) as usize, end: b.len() as usize }),
                )
            },
        ),
{
    let n = b.len() as int;
    let ea = Expression::Number { start: 0, end: x as usize };
    let eb = Expression::Number { start: (x + 1) as usize, end: y as usize };
    let ec = Expression::Number { start: (y + 1) as usize, end: n as usize };
    let o1 = operator_named_by(b[x]);
    let o2 = operator_named_by(b[y]);
    let add1 = b[x] == 0x2b || b[x] == 0x2d;
    let add2 = b[y] == 0x2b || b[y] == 0x2d;
    lemma_digit_run_unary(b, 0, x);
    lemma_digit_run_unary(b, x + 1, y);
    lemma_digit_run_unary(b, y + 1, n);
    assert(skip_ws(b, x) == x);
    assert(skip_ws(b, y) == y);
    assert(skip_ws(b, n) == n);
    // the last run ends every term and sum
    let bc = Expression::Binary(o2, Box::new(eb), Box::new(ec));
    let ab = Expression::Binary(o1, Box::new(ea), Box::new(eb));
    let ab_c = Expression::Binary(o2, Box::new(ab), Box::new(ec));
    let a_bc = Expression::Binary(o1, Box::new(ea), Box::new(bc));
    assert(term_tail(b, ec, n) == Some((ec, n)));
    assert(term_at(b, y + 1) == Some((ec, n)));
    assert(term_tail(b, ab_c, n) == Some((ab_c, n)));
    assert(term_tail(b, bc, n) == Some((bc, n)));
    assert(expression_tail(b, ab_c, n) == Some((ab_c, n)));
    assert(expression_tail(b, a_bc, n) == Some((a_bc, n)));
    if add1 {
        assert(term_tail(b, ea, x) == Some((ea, x)));
        assert(term_at(b, 0) == Some((ea, x)));
        if add2 {
            assert(term_tail(b, eb, y) == Some((eb, y)));
            assert(term_at(b, x + 1) == Some((eb, y)));
            assert(expression_tail(b, ab, y) == expression_tail(b, ab_c, n));
            assert(expression_tail(b, ea, x) == expression_tail(b, ab, y));
        } else {
            assert(term_tail(b, eb, y) == term_tail(b, bc, n));
            assert(term_at(b, x + 1) == Some((bc, n)));
            assert(expression_tail(b, ea, x) == expression_tail(b, a_bc, n));
        }
    } else {
        assert(term_tail(b, ea, x) == term_tail(b, ab, y));
        if add2 {
            assert(term_tail(b, ab, y) == Some((ab, y)));
            assert(term_at(b, 0) == Some((ab, y)));
            assert(expression_tail(b, ab, y) == expression_tail(b, ab_c, n));
        } else {
            assert(term_tail(b, ab, y) == term_tail(b, ab_c, n));
            assert(term_at(b, 0) == Some((ab_c, n)));
        }
    }
}

/// A run of digits after a minus sign is read as its negation, after a plus
/// sign as itself, and inside parentheses as itself.
pub proof fn lemma_signs_and_parentheses(b: Seq<u8>)
    requires
        2 <= b.len() <= usize::MAX,
    ensures
        b[0] == '-' as u8 && (forall|k: int| 1 <= k < b.len() ==> is_digit_byte(#[trigger] b[k]))
            ==> parse_all(b) == Some(
            Expression::Negate(Box::new(Expression::Number { start: 1, end: b.len() as usize })),
        ),
        b[0] == '+' as u8 && (forall|k: int| 1 <= k < b.len() ==> is_digit_byte(#[trigger] b[k]))
            ==> parse_all(b) == Some(Expression::Number { start: 1, end: b.len() as usize }),
        b.len() >= 3 && b[0] == '(' as u8 && b[b.len() - 1] == ')' as u8 && (forall|k: int|
            1 <= k < b.len() - 1 ==> is_digit_byte(#[trigger] b[k])) ==> parse_all(b) == Some(
            Expression::Number { start: 1, end: (b.len() - 1) as usize },
        ),
{
    let n = b.len() as int;
    if (b[0] == 0x2d || b[0] == 0x2b) && (forall|k: int| 1 <= k < n ==> is_digit_byte(#[trigger] b[k])) {
        let e = Expression::Number { start: 1, end: n as usize };
        lemma_digit_run_unary(b, 1, n);
        assert(skip_ws(b, 1) == 1);
        assert(skip_ws(b, 0) == 0);
        assert(signs_at(b, 1, false) == unary_at(b, 1));
        assert(signs_at(b, 1, true) == Some((Expression::Negate(Box::new(e)), n))) by {
            assert(is_digit_byte(b[1]));
            assert(primary_at(b, 1) == Some((e, n)));
        }
        let r = if b[0] == 0x2d {
            Expression::Negate(Box::new(e))
        } else {
            e
        };
        assert(unary_at(b, 0) == Some((r, n)));
        assert(skip_ws(b, n) == n);
        assert(term_tail(b, r, n) == Some((r, n)));
        assert(term_at(b, 0) == Some((r, n)));
        assert(expression_tail(b, r, n) == Some((r, n)));
        assert(expression_at(b, 0) == Some((r, n)));
    }
    if n >= 3 && b[0] == 0x28 && b[n - 1] == 0x29 && (forall|k: int|
        1 <= k < n - 1 ==> is_digit_byte(#[trigger] b[k])) {
        let e = Expression::Number { start: 1, end: (n - 1) as usize };
        lemma_digit_run_unary(b, 1, n - 1);
        assert(skip_ws(b, n - 1) == n - 1);
        assert(skip_ws(b, n) == n);
        assert(term_tail(b, e, n - 1) == Some((e, n - 1)));
        assert(term_at(b, 1) == Some((e, n - 1)));
        assert(expression_tail(b, e, n - 1) == Some((e, n - 1)));
        assert(expression_at(b, 1) == Some((e, n - 1)));
        assert(skip_ws(b, 0) == 0);
        assert(primary_at(b, 0) == Some((e, n)));
        assert(signs_at(b, 0, false) == Some((e, n)));
        assert(unary_at(b, 0) == Some((e, n)));
        assert(term_tail(b, e, n) == Some((e, n)));
        assert(term_at(b, 0) == Some((e, n)));
        assert(expression_tail(b, e, n) == Some((e, n)));
        assert(expression_at(b, 0) == Some((e, n)));
    }
}

/// The whole of `b` read as one expression, surrounded by optional white space.
pub open spec fn parse_all(b: Seq<u8>) -> Option<Expression> {
    match expression_at(b, 0) {
        Some((e, j)) => if skip_ws(b, j) == b.len() {
            Some(e)
        } else {
            None
        },
        None => None,
    }
}

/// The expression a query asks the calculator for: the trimmed query must
/// be non-empty, read completely as an expression, and use at least one
/// binary operator (a plain number is not a calculation).
pub open spec fn calculation_tree(query: Seq<char>) -> Option<Expression> {
    let t = trim(query);
    if t.len() == 0 {
        None
    } else {
        match parse_all(vstd::utf8::encode_utf8(t)) {
            Some(e) => if count_operators(e) > 0 {
                Some(e)
            } else {
                None
            },
            None => None,
        }
    }
}

/// A recursive-descent reader over the bytes of an expression.
pub struct ExpressionParser<'a> {
    bytes: &'a [u8],
    cursor: usize,
    binary_operator_count: usize,
}

impl<'a> ExpressionParser<'a> {
    /// The parser's state is consistent: the cursor lies in the input and
    /// there are no more operators than bytes read.
    pub closed spec fn wf(&self) -> bool {
        self.binary_operator_count <= self.cursor <= self.bytes@.len()
    }

    pub closed spec fn input(&self) -> Seq<u8> {
        self.bytes@
    }

    pub closed spec fn position(&self) -> int {
        self.cursor as int
    }

    pub closed spec fn operators_read(&self) -> int {
        self.binary_operator_count as int
    }

    /// A parser at the start of `input`.
    pub fn new(input: &'a str) -> (p: Self)
        ensures
            p.wf(),
            p.input() == vstd::utf8::encode_utf8(input@),
            p.position() == 0,
            p.operators_read() == 0,
    {
        Self { bytes: input.as_bytes(), cursor: 0, binary_operator_count: 0 }
    }

    /// Reads the whole input as one expression; `Some` with the tree and its
    /// number of binary operators exactly when `parse_all` accepts it.
    pub fn parse(self) -> (r: Option<(Expression, usize)>)
        requires
            self.wf(),
            self.position() == 0,
            self.operators_read() == 0,
        ensures
            match parse_all(self.input()) {
                Some(e) => r matches Some((t, n)) && t == e && n == count_operators(e)
                    && spans_within(e, self.input()),
                None => r is None,
            },
    {
        let mut parser = self;
        let value = match parser.parse_expression() {
            Some(v) => v,
            None => return None,
        };
        parser.skip_whitespace();
        if parser.cursor != parser.bytes.len() {
            return None;
        }
        Some((value, parser.binary_operator_count))
    }

    /// `skip_whitespace`: moves the cursor past ASCII white space.
    pub fn skip_whitespace(&mut self)
        requires
            old(self).wf(),
        ensures
            final(self).wf(),
            final(self).input() == old(self).input(),
            final(self).operators_read() == old(self).operators_read(),
            final(self).position() == skip_ws(old(self).input(), old(self).position()),
    {
        proof {
            lemma_skip_ws_bounds(self.bytes@, self.cursor as int);
        }
        while self.cursor < self.bytes.len() && is_ascii_whitespace(self.bytes[self.cursor])
            invariant
                self.wf(),
                self.input() == old(self).input(),
                self.operators_read() == old(self).operators_read(),
                old(self).position() <= self.position(),
                skip_ws(self.input(), self.position()) == skip_ws(
                    old(self).input(),
                    old(self).position(),
                ),
            decreases self.bytes@.len() - self.cursor,
        {
            self.cursor = self.cursor + 1;
        }
    }

    /// The byte under the cursor, if any.
    pub fn peek_byte(&self) -> (r: Option<u8>)
        ensures
            r == (if 0 <= self.position() < self.input().len() {
                Some(self.input()[self.position()])
            } else {
                None
            }),
    {
        if self.cursor < self.bytes.len() {
            Some(self.bytes[self.cursor])
        } else {
            None
        }
    }

    /// Takes the byte under the cursor, if any, and moves past it.
    pub fn consume_byte(&mut self) -> (r: Option<u8>)
        requires
            old(self).wf(),
        ensures
            final(self).wf(),
            final(self).input() == old(self).input(),
            final(self).operators_read() == old(self).operators_read(),
            r == (if old(self).position() < old(self).input().len() {
                Some(old(self).input()[old(self).position()])
            } else {
                None
            }),
            r is Some ==> final(self).position() == old(self).position() + 1,
            r is None ==> final(self).position() == old(self).position(),
    {
        if self.cursor < self.bytes.len() {
            let value = self.bytes[self.cursor];
            self.cursor = self.cursor + 1;
            Some(value)
        } else {
            None
        }
    }

    fn parse_expression(&mut self) -> (r: Option<Expression>)
        requires
            old(self).wf(),
        ensures
            final(self).wf(),
            final(self).input() == old(self).input(),
            match expression_at(old(self).input(), old(self).position()) {
                Some((e, j)) => r == Some(e) && final(self).position() == j && j
                    > old(self).position() && final(self).operators_read()
                    == old(self).operators_read() + count_operators(e) && spans_within(
                    e,
                    old(self).input(),
                ),
                None => r is None,
            },
        decreases old(self).input().len() - old(self).position(), 5int,
    {
        let ghost b = self.input();
        let ghost start = self.position();
        let ghost count0 = self.operators_read();
        let mut value = match self.parse_term() {
            Some(v) => v,
            None => return None,
        };
        loop
            invariant
                self.wf(),
                self.input() == b,
                start < self.position(),
                0 <= start <= b.len(),
                b == old(self).input(),
                start == old(self).position(),
                expression_at(b, start) == expression_tail(b, value, self.position()),
                self.operators_read() == count0 + count_operators(value),
                count0 == old(self).operators_read(),
                spans_within(value, b),
            decreases b.len() - self.position(),
        {
            let ghost before = self.position();
            self.skip_whitespace();
            proof {
                lemma_skip_ws_bounds(b, before);
            }
            let next = self.peek_byte();
            let is_sum = match next {
                Some(c) => c == 0x2b || c == 0x2d,
                None => false,
            };
            if !is_sum {
                return Some(value);
            }
            let operator = match self.consume_byte() {
                Some(c) => c,
                None => return None,
            };
            self.binary_operator_count = self.binary_operator_count + 1;
            let rhs = match self.parse_term() {
                Some(v) => v,
                None => return None,
            };
            value = if operator == 0x2b {
                Expression::Binary(BinaryOperator::Add, Box::new(value), Box::new(rhs))
            } else {
                Expression::Binary(BinaryOperator::Subtract, Box::new(value), Box::new(rhs))
            };
        }
    }

    fn parse_term(&mut self) -> (r: Option<Expression>)
        requires
            old(self).wf(),
        ensures
            final(self).wf(),
            final(self).input() == old(self).input(),
            match term_at(old(self).input(), old(self).position()) {
                Some((e, j)) => r == Some(e) && final(self).position() == j && j
                    > old(self).position() && final(self).operators_read()
                    == old(self).operators_read() + count_operators(e) && spans_within(
                    e,
                    old(self).input(),
                ),
                None => r is None,
            },
        decreases old(self).input().len() - old(self).position(), 4int,
    {
        let ghost b = self.input();
        let ghost start = self.position();
        let ghost count0 = self.operators_read();
        let mut value = match self.parse_unary() {
            Some(v) => v,
            None => return None,
        };
        loop
            invariant
                self.wf(),
                self.input() == b,
                start < self.position(),
                0 <= start <= b.len(),
                b == old(self).input(),
                start == old(self).position(),
                term_at(b, start) == term_tail(b, value, self.position()),
                self.operators_read() == count0 + count_operators(value),
                count0 == old(self).operators_read(),
                spans_within(value, b),
            decreases b.len() - self.position(),
        {
            let ghost before = self.position();
            self.skip_whitespace();
            proof {
                lemma_skip_ws_bounds(b, before);
            }
            let next = self.peek_byte();
            let is_product = match next {
                Some(c) => c == 0x2a || c == 0x2f || c == 0x25,
                None => false,
            };
            if !is_product {
                return Some(value);
            }
            let operator = match self.consume_byte() {
                Some(c) => c,
                None => return None,
            };
            self.binary_operator_count = self.binary_operator_count + 1;
            let rhs = match self.parse_unary() {
                Some(v) => v,
                None => return None,
            };
            value = if operator == 0x2a {
                Expression::Binary(BinaryOperator::Multiply, Box::new(value), Box::new(rhs))
            } else if operator == 0x2f {
                Expression::Binary(BinaryOperator::Divide, Box::new(value), Box::new(rhs))
            } else {
                Expression::Binary(BinaryOperator::Remainder, Box::new(value), Box::new(rhs))
            };
        }
    }

    fn parse_unary(&mut self) -> (r: Option<Expression>)
        requires
            old(self).wf(),
        ensures
            final(self).wf(),
            final(self).input() == old(self).input(),
            match unary_at(old(self).input(), old(self).position()) {
                Some((e, j)) => r == Some(e) && final(self).position() == j && j
                    > old(self).position() && final(self).operators_read()
                    == old(self).operators_read() + count_operators(e) && spans_within(
                    e,
                    old(self).input(),
                ),
                None => r is None,
            },
        decreases old(self).input().len() - old(self).position(), 3int,
    {
        let ghost b = self.input();
        let ghost start = self.position();
        self.skip_whitespace();
        proof {
            lemma_skip_ws_bounds(b, start);
        }
        let mut negated = false;
        while is_sign(self.peek_byte())
            invariant
                self.wf(),
                self.input() == b,
                self.operators_read() == old(self).operators_read(),
                start <= self.position() <= b.len(),
                0 <= start <= b.len(),
                b == old(self).input(),
                start == old(self).position(),
                unary_at(b, start) == signs_at(b, self.position(), negated),
            decreases b.len() - self.position(),
        {
            let ghost at = self.position();
            let c = match self.consume_byte() {
                Some(c) => c,
                None => return None,
            };
            if c == 0x2d {
                negated = !negated;
            }
            self.skip_whitespace();
            proof {
                lemma_skip_ws_bounds(b, at + 1);
            }
        }
        let value = match self.parse_primary() {
            Some(v) => v,
            None => return None,
        };
        if negated {
            Some(Expression::Negate(Box::new(value)))
        } else {
            Some(value)
        }
    }

    fn parse_primary(&mut self) -> (r: Option<Expression>)
        requires
            old(self).wf(),
        ensures
            final(self).wf(),
            final(self).input() == old(self).input(),
            match primary_at(old(self).input(), old(self).position()) {
                Some((e, j)) => r == Some(e) && final(self).position() == j && j
                    > old(self).position() && final(self).operators_read()
                    == old(self).operators_read() + count_operators(e) && spans_within(
                    e,
                    old(self).input(),
                ),
                None => r is None,
            },
        decreases old(self).input().len() - old(self).position(), 1int,
    {
        let ghost b = self.input();
        let ghost start = self.position();
        self.skip_whitespace();
        proof {
            lemma_skip_ws_bounds(b, start);
        }
        let first = match self.peek_byte() {
            Some(c) => c,
            None => return None,
        };
        if first == 0x28 {
            self.consume_byte();
            let value = match self.parse_expression() {
                Some(v) => v,
                None => return None,
            };
            let ghost after = self.position();
            self.skip_whitespace();
            proof {
                lemma_skip_ws_bounds(b, after);
            }
            let close = match self.consume_byte() {
                Some(c) => c,
                None => return None,
            };
            if close != 0x29 {
                return None;
            }
            Some(value)
        } else if (0x30 <= first && first <= 0x39) || first == 0x2e {
            self.parse_number()
        } else {
            None
        }
    }

    fn parse_number(&mut self) -> (r: Option<Expression>)
        requires
            old(self).wf(),
        ensures
            final(self).wf(),
            final(self).input() == old(self).input(),
            final(self).operators_read() == old(self).operators_read(),
            match number_at(old(self).input(), old(self).position()) {
                Some((e, j)) => r == Some(e) && final(self).position() == j && j
                    > old(self).position() && spans_within(e, old(self).input()),
                None => r is None,
            },
    {
        let ghost b = self.input();
        let start = self.cursor;
        proof {
            lemma_number_end_bounds(b, start as int, false);
        }
        let mut has_digit_seen = false;
        let mut has_decimal = false;
        while self.cursor < self.bytes.len() && continues_number(
            self.bytes[self.cursor],
            has_decimal,
        )
            invariant
                self.wf(),
                self.input() == b,
                self.operators_read() == old(self).operators_read(),
                start <= self.cursor <= b.len(),
                start == old(self).position(),
                number_end(b, start as int, false) == number_end(
                    b,
                    self.position(),
                    has_decimal,
                ),
                has_digit_seen == has_digit(b, start as int, self.position()),
            decreases b.len() - self.cursor,
        {
            let next = self.bytes[self.cursor];
            if 0x30 <= next && next <= 0x39 {
                has_digit_seen = true;
            } else if next == 0x2e {
                has_decimal = true;
            }
            self.cursor = self.cursor + 1;
            assert(has_digit_seen == has_digit(b, start as int, self.position())) by {
                if is_digit_byte(next) {
                    assert(is_digit_byte(b[self.position() - 1]));
                }
            }
        }
        if !has_digit_seen {
            return None;
        }
        Some(Expression::Number { start, end: self.cursor })
    }
}

fn is_sign(next: Option<u8>) -> (r: bool)
    ensures
        r == (next matches Some(c) && (c == 0x2b || c == 0x2d)),
{
    match next {
        Some(c) => c == 0x2b || c == 0x2d,
        None => false,
    }
}

fn continues_number(b: u8, seen_point: bool) -> (r: bool)
    ensures
        r == (is_digit_byte(b) || (b == 0x2e && !seen_point) || b == 0x2c || b == 0x5f),
{
    (0x30 <= b && b <= 0x39) || (b == 0x2e && !seen_point) || b == 0x2c || b == 0x5f
}

/// `u8::is_ascii_whitespace`.
pub fn is_ascii_whitespace(b: u8) -> (r: bool)
    ensures
        r == is_ascii_ws(b),
{
    b == 0x20 || b == 0x09 || b == 0x0a || b == 0x0c || b == 0x0d
}

/// The digits of the number spanning `start..end` of `bytes`, with the `,`
/// and `_` separators left out.
pub open spec fn literal_chars(bytes: Seq<u8>, start: int, end: int) -> Seq<char> {
    bytes.subrange(start, end).filter(|b: u8| b != 0x2c && b != 0x5f).map_values(
        |b: u8| b as char,
    )
}

/// The text of a number of a parsed tree, ready for a numeric reader.
pub fn literal_text(bytes: &[u8], start: usize, end: usize) -> (r: String)
    requires
        start <= end <= bytes@.len(),
        forall|k: int| start <= k < end ==> is_number_byte(#[trigger] bytes@[k]),
    ensures
        r@ == literal_chars(bytes@, start as int, end as int),
{
    let mut out: Vec<char> = Vec::new();
    let mut i: usize = start;
    let ghost pred = |b: u8| b != 0x2c && b != 0x5f;
    while i < end
        invariant
            start <= i <= end <= bytes@.len(),
            forall|k: int| start <= k < end ==> is_number_byte(#[trigger] bytes@[k]),
            out@ == literal_chars(bytes@, start as int, i as int),
        decreases end - i,
    {
        let c = bytes[i];
        let ghost before = bytes@.subrange(start as int, i as int);
        assert(bytes@.subrange(start as int, i + 1) =~= before.push(c));
        reveal_with_fuel(Seq::filter, 1);
        assert(before.push(c).drop_last() =~= before);
        assert(is_number_byte(bytes@[i as int]));
        if c != 0x2c && c != 0x5f {
            out.push(char_from_ascii(c));
            assert(out@ =~= literal_chars(bytes@, start as int, i + 1));
        } else {
            assert(out@ =~= literal_chars(bytes@, start as int, i + 1));
        }
        i = i + 1;
    }
    string_from(out.as_slice())
}

/// What the calculator row evaluates: the trimmed query, its expression tree
/// and the number of binary operators in it.
pub struct CalculationInput {
    pub expression: String,
    pub tree: Expression,
    pub binary_operator_count: usize,
}

/// The expression a query asks the calculator for, if it is one: `Some`
/// exactly when `calculation_tree` accepts the query.
pub fn calculation_input(query: &str) -> (r: Option<CalculationInput>)
    ensures
        match calculation_tree(query@) {
            Some(e) => r matches Some(c) && c.tree == e && c.expression@ == trim(query@)
                && c.binary_operator_count == count_operators(e) && spans_within(
                e,
                vstd::utf8::encode_utf8(c.expression@),
            ),
            None => r is None,
        },
{
    let chars = chars_of(query);
    let trimmed = trim_chars(chars.as_slice());
    if trimmed.len() == 0 {
        return None;
    }
    let expression = string_from(trimmed.as_slice());
    let parsed = {
        let parser = ExpressionParser::new(expression.as_str());
        parser.parse()
    };
    match parsed {
        Some((tree, count)) => {
            if count == 0 {
                None
            } else {
                Some(CalculationInput { expression, tree, binary_operator_count: count })
            }
        },
        None => None,
    }
}

} // verus!
