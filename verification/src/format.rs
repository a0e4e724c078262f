//! Thousands grouping of integer text and the decimal rendering of integers.
use vstd::prelude::*;
use crate::text::{chars_of, string_from, char_from_ascii};

verus! {

/// Inserts a comma before every group of three characters counted from the
/// right: `"1234567"` becomes `"1,234,567"`.
pub open spec fn group_digits(d: Seq<char>) -> Seq<char>
    decreases d.len(),
{
    if d.len() <= 3 {
        d
    } else {
        group_digits(d.subrange(0, d.len() - 3)).push(',') + d.subrange(d.len() - 3, d.len() as int)
    }
}

/// A signed integer's text with its digits grouped: one leading `-` is kept
/// in front and the rest is grouped.
pub open spec fn group_signed(s: Seq<char>) -> Seq<char> {
    if s.len() > 0 && s[0] == '-' {
        seq!['-'] + group_digits(s.drop_first())
    } else {
        group_digits(s)
    }
}

/// `s` with every comma removed.
pub open spec fn without_commas(s: Seq<char>) -> Seq<char> {
    s.filter(|c: char| c != ',')
}

/// The decimal digit character for `d < 10`.
pub open spec fn digit_char(d: nat) -> char {
    (('0' as u32) + d) as char
}

/// The decimal digits of `n`, most significant first; empty for zero.
pub open spec fn digits_of(n: nat) -> Seq<char>
    decreases n,
{
    if n == 0 {
        Seq::empty()
    } else {
        digits_of(n / 10).push(digit_char(n % 10))
    }
}

/// The decimal text of an integer as `Display` prints it: `0`, `42`, `-7`.
pub open spec fn decimal_text(v: int) -> Seq<char> {
    if v == 0 {
        seq!['0']
    } else if v < 0 {
        seq!['-'] + digits_of((-v) as nat)
    } else {
        digits_of(v as nat)
    }
}

/// Grouping only inserts commas: removing them gives back what grouping
/// started from, less its own commas.
pub proof fn lemma_group_digits_keeps_characters(d: Seq<char>)
    ensures
        without_commas(group_digits(d)) == without_commas(d),
    decreases d.len(),
{
    if d.len() > 3 {
        let head = d.subrange(0, d.len() - 3);
        let tail = d.subrange(d.len() - 3, d.len() as int);
        lemma_group_digits_keeps_characters(head);
        let pred = |c: char| c != ',';
        Seq::filter_distributes_over_add(group_digits(head).push(','), tail, pred);
        Seq::filter_distributes_over_add(group_digits(head), seq![','], pred);
        assert(group_digits(head).push(',') =~= group_digits(head) + seq![',']);
        reveal_with_fuel(Seq::filter, 2);
        assert(seq![','].filter(pred) =~= Seq::<char>::empty());
        Seq::filter_distributes_over_add(head, tail, pred);
        assert(d =~= head + tail);
    }
}

/// Grouping `n > 0` characters adds one comma per full group of three that
/// follows the leading group.
pub proof fn lemma_group_digits_length(d: Seq<char>)
    ensures
        d.len() > 0 ==> group_digits(d).len() == d.len() + (d.len() - 1) / 3,
    decreases d.len(),
{
    if d.len() > 3 {
        lemma_group_digits_length(d.subrange(0, d.len() - 3));
    }
}

/// The length of the leading group when `n > 0` characters are grouped by
/// three from the right: 1, 2 or 3.
pub open spec fn lead_group_len(n: int) -> int {
    n - 3 * ((n - 1) / 3)
}

/// Grouping `n > 0` characters without commas puts commas exactly after a
/// leading group of `lead_group_len(n)` characters and after each following
/// group of three: the groups are k, 3, ..., 3 long, with no comma in front
/// or at the end.
pub proof fn lemma_group_digits_groups(d: Seq<char>)
    requires
        d.len() > 0,
        forall|i: int| 0 <= i < d.len() ==> d[i] != ',',
    ensures
        1 <= lead_group_len(d.len() as int) <= 3,
        group_digits(d).len() == lead_group_len(d.len() as int) + 4 * ((d.len() - 1) / 3),
        forall|i: int| 0 <= i < group_digits(d).len() ==> (#[trigger] group_digits(d)[i] == ',' <==> (i
            >= lead_group_len(d.len() as int) && (i - lead_group_len(d.len() as int)) % 4 == 0)),
    decreases d.len(),
{
    let n = d.len() as int;
    let k = lead_group_len(n);
    let g = group_digits(d);
    if n > 3 {
        let head = d.subrange(0, n - 3);
        let tail = d.subrange(n - 3, n);
        lemma_group_digits_groups(head);
        let gh = group_digits(head);
        let m = (n - 1) / 3;
        assert((n - 4) / 3 == m - 1);
        assert(lead_group_len(n - 3) == k);
        assert(g == gh.push(',') + tail);
        assert forall|i: int| 0 <= i < g.len() implies (#[trigger] g[i] == ',' <==> (i >= k && (i - k)
            % 4 == 0)) by {
            if i < gh.len() {
                assert(g[i] == gh[i]);
            } else if i == gh.len() {
                assert(g[i] == ',');
                assert(i - k == 4 * (m - 1));
            } else {
                let j = i - gh.len();
                assert(g[i] == tail[j - 1]);
                assert(tail[j - 1] == d[n - 3 + j - 1]);
                assert(i - k == 4 * (m - 1) + j);
                assert((4 * (m - 1) + j) % 4 == j) by (nonlinear_arith)
                    requires
                        1 <= j <= 3,
                        m >= 1,
                ;
            }
        }
    }
}

proof fn lemma_without_commas_keeps(d: Seq<char>)
    requires
        forall|i: int| 0 <= i < d.len() ==> d[i] != ',',
    ensures
        without_commas(d) == d,
    decreases d.len(),
{
    reveal_with_fuel(Seq::filter, 1);
    if d.len() > 0 {
        lemma_without_commas_keeps(d.drop_last());
        assert(d.drop_last().push(d.last()) =~= d);
    } else {
        assert(d.filter(|c: char| c != ',') =~= d);
    }
}

/// A signed integer's text, an optional `-` and at least one digit, keeps
/// its sign in front, groups its digits (see `lemma_group_digits_groups`),
/// and gives back the text when the commas are removed.
pub proof fn lemma_group_signed_shape(negative: bool, d: Seq<char>)
    requires
        d.len() > 0,
        forall|i: int| 0 <= i < d.len() ==> '0' <= #[trigger] d[i] <= '9',
    ensures
        group_signed((if negative { seq!['-'] } else { Seq::empty() }) + d) == (if negative {
            seq!['-']
        } else {
            Seq::empty()
        }) + group_digits(d),
        without_commas(group_signed((if negative { seq!['-'] } else { Seq::empty() }) + d)) == (if negative {
            seq!['-']
        } else {
            Seq::empty()
        }) + d,
{
    let sign: Seq<char> = if negative { seq!['-'] } else { Seq::empty() };
    let s = sign + d;
    assert(forall|i: int| 0 <= i < d.len() ==> d[i] != ',');
    lemma_group_digits_keeps_characters(d);
    lemma_without_commas_keeps(d);
    let pred = |c: char| c != ',';
    if negative {
        assert(s[0] == '-');
        assert(s.drop_first() =~= d);
        Seq::filter_distributes_over_add(seq!['-'], group_digits(d), pred);
        reveal_with_fuel(Seq::filter, 2);
        assert(seq!['-'].filter(pred) =~= seq!['-']);
    } else {
        assert(s =~= d);
        assert(Seq::<char>::empty() + group_digits(d) =~= group_digits(d));
        assert(Seq::<char>::empty() + d =~= d);
    }
}

/// The text of a signed integer with grouped digits.
pub fn group_signed_integer_str(value: &str) -> (r: String)
    ensures
        r@ == group_signed(value@),
{
    let chars = chars_of(value);
    let mut out: Vec<char> = Vec::new();
    let start: usize = if chars.len() > 0 && chars[0] == '-' {
        out.push('-');
        1
    } else {
        0
    };
    let n = chars.len() - start;
    if n > 0 {
        let first = n - 3 * ((n - 1) / 3);
        let mut i: usize = 0;
        while i < first
            invariant
                start <= chars.len(),
                n == chars.len() - start,
                0 < first <= 3,
                first <= n,
                i <= first,
                out@ == (if start == 1 { seq!['-'] } else { Seq::<char>::empty() }) + chars@.subrange(
                    start as int,
                    start + i,
                ),
            decreases first - i,
        {
            out.push(chars[start + i]);
            i = i + 1;
            assert(out@ =~= (if start == 1 { seq!['-'] } else { Seq::<char>::empty() })
                + chars@.subrange(start as int, start + i));
        }
        let ghost digits = chars@.subrange(start as int, chars.len() as int);
        assert(digits.subrange(0, first as int) =~= chars@.subrange(start as int, start + first));
        assert(group_digits(digits.subrange(0, first as int)) == digits.subrange(0, first as int));
        while i < n
            invariant
                start <= chars.len(),
                n == chars.len() - start,
                digits == chars@.subrange(start as int, chars.len() as int),
                0 < first <= i <= n,
                (i - first) % 3 == 0,
                (n - first) % 3 == 0,
                out@ == (if start == 1 { seq!['-'] } else { Seq::<char>::empty() }) + group_digits(
                    digits.subrange(0, i as int),
                ),
            decreases n - i,
        {
            let ghost before = out@;
            out.push(',');
            out.push(chars[start + i]);
            out.push(chars[start + i + 1]);
            out.push(chars[start + i + 2]);
            let ghost x = digits.subrange(0, i + 3);
            assert(x.subrange(0, x.len() - 3) =~= digits.subrange(0, i as int));
            assert(x.subrange(x.len() - 3, x.len() as int) =~= seq![
                chars@[start + i],
                chars@[start + i + 1],
                chars@[start + i + 2],
            ]);
            i = i + 3;
            assert(out@ =~= (if start == 1 { seq!['-'] } else { Seq::<char>::empty() })
                + group_digits(digits.subrange(0, i as int)));
        }
        assert(digits.subrange(0, n as int) =~= digits);
        if start == 1 {
            assert(chars@.drop_first() =~= digits);
        } else {
            assert(chars@ =~= digits);
        }
    } else {
        if start == 1 {
            assert(chars@.drop_first() =~= Seq::<char>::empty());
        } else {
            assert(chars@ =~= Seq::<char>::empty());
        }
        assert(out@ =~= group_signed(chars@));
    }
    string_from(out.as_slice())
}

/// The decimal text of `value` (`i128::to_string`).
pub fn decimal_string(value: i128) -> (r: String)
    ensures
        r@ == decimal_text(value as int),
{
    if value == 0 {
        let mut s = String::new();
        s.push('0');
        assert(s@ =~= seq!['0']);
        return s;
    }
    let magnitude: u128 = if value < 0 {
        let v1: i128 = -(value + 1);
        (v1 as u128) + 1
    } else {
        value as u128
    };
    assert(magnitude as int == if value < 0 { -(value as int) } else { value as int });
    let mut m: u128 = magnitude;
    let mut out: Vec<char> = Vec::new();
    while m > 0
        invariant
            digits_of(magnitude as nat) == digits_of(m as nat) + out@,
        decreases m,
    {
        let d = (m % 10) as u8;
        let c = char_from_ascii(48 + d);
        assert(c == digit_char((m % 10) as nat));
        out.insert(0, c);
        let ghost old_m = m;
        m = m / 10;
        assert(digits_of(old_m as nat) == digits_of(m as nat).push(c));
        assert(digits_of(m as nat) + out@ =~= digits_of(m as nat).push(c) + out@.drop_first());
    }
    assert(digits_of(0) + out@ =~= out@);
    let mut result: Vec<char> = Vec::new();
    if value < 0 {
        result.push('-');
    }
    let mut i: usize = 0;
    while i < out.len()
        invariant
            i <= out.len(),
            result@ == (if value < 0 { seq!['-'] } else { Seq::<char>::empty() }) + out@.subrange(
                0,
                i as int,
            ),
        decreases out.len() - i,
    {
        result.push(out[i]);
        i = i + 1;
        assert(result@ =~= (if value < 0 { seq!['-'] } else { Seq::<char>::empty() })
            + out@.subrange(0, i as int));
    }
    assert(out@.subrange(0, out.len() as int) =~= out@);
    string_from(result.as_slice())
}

/// An `i128` rendered in decimal with grouped digits (`group_i128`).
pub fn group_i128(value: i128) -> (r: String)
    ensures
        r@ == group_signed(decimal_text(value as int)),
{
    let text = decimal_string(value);
    group_signed_integer_str(text.as_str())
}

} // verus!
