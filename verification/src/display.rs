//! Text shown in the calculator row: shortening long values in the middle,
//! grouping the digits of a result, and reading a result out digit by digit.
use vstd::prelude::*;
use crate::text::{chars_of, string_from, owned};
use crate::format::{group_i128, group_signed, decimal_text, without_commas};
use crate::words::join2;

verus! {

/// A value cut to `max_chars` characters by replacing its middle with
/// `...`; at most three characters allowed gives just `...`.
pub open spec fn truncated_middle(value: Seq<char>, max_chars: int) -> Seq<char> {
    if max_chars <= 3 {
        seq!['.', '.', '.']
    } else if value.len() <= max_chars {
        value
    } else {
        let visible = max_chars - 3;
        let left = visible / 2;
        let right = visible - left;
        value.take(left) + seq!['.', '.', '.'] + value.skip(value.len() - right)
    }
}

/// Shortens a value for display; see `truncated_middle`.
pub fn truncate_middle_with_ellipsis(value: &str, max_chars: usize) -> (r: String)
    ensures
        r@ == truncated_middle(value@, max_chars as int),
        max_chars > 3 ==> r@.len() <= max_chars,
{
    if max_chars <= 3 {
        let mut s = String::new();
        s.push('.');
        s.push('.');
        s.push('.');
        assert(s@ =~= seq!['.', '.', '.']);
        return s;
    }
    let chars = chars_of(value);
    let n = chars.len();
    if n <= max_chars {
        return string_from(chars.as_slice());
    }
    let visible = max_chars - 3;
    let left = visible / 2;
    let right = visible - left;
    let mut out: Vec<char> = Vec::new();
    let mut i: usize = 0;
    while i < left
        invariant
            left < n,
            n == chars.len(),
            i <= left,
            out@ == chars@.take(i as int),
        decreases left - i,
    {
        out.push(chars[i]);
        i = i + 1;
        assert(out@ =~= chars@.take(i as int));
    }
    out.push('.');
    out.push('.');
    out.push('.');
    let ghost head = out@;
    assert(head =~= chars@.take(left as int) + seq!['.', '.', '.']);
    let mut k: usize = n - right;
    while k < n
        invariant
            n == chars.len(),
            right <= n,
            n - right <= k <= n,
            out@ == head + chars@.subrange(n - right, k as int),
        decreases n - k,
    {
        out.push(chars[k]);
        k = k + 1;
        assert(out@ =~= head + chars@.subrange(n - right, k as int));
    }
    assert(chars@.subrange(n - right, n as int) =~= chars@.skip(n - right));
    string_from(out.as_slice())
}

/// The value of a string of decimal digits.
pub open spec fn digits_value(d: Seq<char>) -> int
    decreases d.len(),
{
    if d.len() == 0 {
        0
    } else {
        digits_value(d.drop_last()) * 10 + (d.last() as int - '0' as int)
    }
}

pub open spec fn all_digits(d: Seq<char>) -> bool {
    forall|i: int| 0 <= i < d.len() ==> '0' <= #[trigger] d[i] <= '9'
}

/// `str::parse::<i128>`: an optional `+` or `-`, then at least one decimal
/// digit and nothing else, with a value that fits an `i128`.
pub open spec fn parse_i128(s: Seq<char>) -> Option<int> {
    let negative = s.len() > 0 && s[0] == '-';
    let digits = if s.len() > 0 && (s[0] == '-' || s[0] == '+') {
        s.drop_first()
    } else {
        s
    };
    let v = if negative { -digits_value(digits) } else { digits_value(digits) };
    if digits.len() > 0 && all_digits(digits) && i128::MIN <= v <= i128::MAX {
        Some(v)
    } else {
        None
    }
}

proof fn lemma_digits_value_grows(d: Seq<char>, more: Seq<char>)
    requires
        all_digits(d + more),
    ensures
        digits_value(d + more) >= digits_value(d),
        digits_value(d) >= 0,
    decreases more.len(),
{
    if more.len() > 0 {
        assert((d + more).drop_last() =~= d + more.drop_last());
        assert(all_digits(d + more.drop_last())) by {
            assert forall|i: int| 0 <= i < (d + more.drop_last()).len() implies '0' <= #[trigger] (d
                + more.drop_last())[i] <= '9' by {
                assert((d + more.drop_last())[i] == (d + more)[i]);
            }
        }
        lemma_digits_value_grows(d, more.drop_last());
        assert('0' <= (d + more).last() <= '9');
    } else {
        assert(d + more =~= d);
        lemma_digits_nonnegative(d);
    }
}

proof fn lemma_digits_nonnegative(d: Seq<char>)
    requires
        all_digits(d),
    ensures
        digits_value(d) >= 0,
    decreases d.len(),
{
    if d.len() > 0 {
        assert(all_digits(d.drop_last())) by {
            assert forall|i: int| 0 <= i < d.drop_last().len() implies '0' <= #[trigger] d.drop_last()[i] <= '9' by {
                assert(d.drop_last()[i] == d[i]);
            }
        }
        lemma_digits_nonnegative(d.drop_last());
    }
}

/// Reads a decimal integer; see `parse_i128`.
pub fn parse_i128_chars(s: &[char]) -> (r: Option<i128>)
    ensures
        match parse_i128(s@) {
            Some(v) => r == Some(v as i128),
            None => r is None,
        },
{
    if s.len() == 0 {
        return None;
    }
    let negative = s[0] == '-';
    let start: usize = if s[0] == '-' || s[0] == '+' {
        1
    } else {
        0
    };
    let ghost digits = s@.subrange(start as int, s.len() as int);
    assert(digits =~= if s@[0] == '-' || s@[0] == '+' { s@.drop_first() } else { s@ });
    if start == s.len() {
        return None;
    }
    let limit: u128 = 0x8000_0000_0000_0000_0000_0000_0000_0000;
    let mut magnitude: u128 = 0;
    let mut i: usize = start;
    while i < s.len()
        invariant
            start <= i <= s.len(),
            digits == s@.subrange(start as int, s.len() as int),
            digits == (if s@.len() > 0 && (s@[0] == '-' || s@[0] == '+') {
                s@.drop_first()
            } else {
                s@
            }),
            negative == (s@.len() > 0 && s@[0] == '-'),
            start == s.len() - digits.len(),
            digits.len() > 0,
            limit == 0x8000_0000_0000_0000_0000_0000_0000_0000u128,
            magnitude <= limit,
            magnitude as int == digits_value(s@.subrange(start as int, i as int)),
            all_digits(s@.subrange(start as int, i as int)),
        decreases s.len() - i,
    {
        let c = s[i];
        if !('0' <= c && c <= '9') {
            assert(digits[i - start] == c);
            return None;
        }
        let d = (c as u32 - '0' as u32) as u128;
        assert(d <= 9);
        let ghost prefix = s@.subrange(start as int, i + 1);
        assert(prefix.drop_last() =~= s@.subrange(start as int, i as int));
        assert(all_digits(prefix)) by {
            assert forall|q: int| 0 <= q < prefix.len() implies '0' <= #[trigger] prefix[q] <= '9' by {
                if q < prefix.len() - 1 {
                    assert(prefix[q] == s@.subrange(start as int, i as int)[q]);
                }
            }
        }
        if magnitude > (limit - d) / 10 {
            proof {
                assert(digits_value(prefix) > limit);
                if all_digits(digits) {
                    assert(prefix + s@.subrange(i + 1, s.len() as int) =~= digits);
                    lemma_digits_value_grows(prefix, s@.subrange(i + 1, s.len() as int));
                }
            }
            return None;
        }
        magnitude = magnitude * 10 + d;
        i = i + 1;
    }
    assert(s@.subrange(start as int, i as int) =~= digits);
    if negative {
        let v: i128 = if magnitude == limit {
            i128::MIN
        } else {
            -(magnitude as i128)
        };
        Some(v)
    } else {
        if magnitude == limit {
            return None;
        }
        Some(magnitude as i128)
    }
}

/// The first position of `c` in `s`.
pub open spec fn first_position(s: Seq<char>, c: char) -> Option<int>
    decreases s.len(),
{
    if s.len() == 0 {
        None
    } else {
        match first_position(s.drop_last(), c) {
            Some(i) => Some(i),
            None => if s.last() == c {
                Some(s.len() - 1)
            } else {
                None
            },
        }
    }
}

/// How a result value is shown: with its commas removed, an integer is
/// shown with grouped digits; otherwise, when the part before the first `.`
/// is an integer, that part is grouped and the rest kept; anything else is
/// shown as given.
pub open spec fn display_value(value: Seq<char>) -> Seq<char> {
    let cleaned = without_commas(value);
    match parse_i128(cleaned) {
        Some(i) => group_signed(decimal_text(i)),
        None => match first_position(cleaned, '.') {
            Some(p) => match parse_i128(cleaned.take(p)) {
                Some(i) => group_signed(decimal_text(i)) + seq!['.'] + cleaned.skip(p + 1),
                None => value,
            },
            None => value,
        },
    }
}

/// `normalize_result_display_value`: see `display_value`.
pub fn normalize_result_display_value(value: &str) -> (r: String)
    ensures
        r@ == display_value(value@),
{
    let chars = chars_of(value);
    let mut cleaned: Vec<char> = Vec::new();
    let mut i: usize = 0;
    while i < chars.len()
        invariant
            i <= chars.len(),
            cleaned@ == without_commas(chars@.subrange(0, i as int)),
        decreases chars.len() - i,
    {
        let c = chars[i];
        let ghost before = chars@.subrange(0, i as int);
        assert(chars@.subrange(0, i + 1) =~= before.push(c));
        reveal_with_fuel(Seq::filter, 1);
        assert(before.push(c).drop_last() =~= before);
        if c != ',' {
            cleaned.push(c);
            assert(cleaned@ =~= without_commas(chars@.subrange(0, i + 1)));
        } else {
            assert(cleaned@ =~= without_commas(chars@.subrange(0, i + 1)));
        }
        i = i + 1;
    }
    assert(chars@.subrange(0, chars.len() as int) =~= chars@);
    match parse_i128_chars(cleaned.as_slice()) {
        Some(v) => return group_i128(v),
        None => {},
    }
    let mut p: usize = 0;
    while p < cleaned.len() && cleaned[p] != '.'
        invariant
            p <= cleaned.len(),
            forall|q: int| 0 <= q < p ==> cleaned@[q] != '.',
        decreases cleaned.len() - p,
    {
        p = p + 1;
    }
    proof {
        lemma_first_position(cleaned@, '.', p as int);
    }
    if p == cleaned.len() {
        return owned(value);
    }
    let head = slice_prefix(cleaned.as_slice(), p);
    match parse_i128_chars(head.as_slice()) {
        Some(v) => {
            let mut out = group_i128(v);
            out.push('.');
            let mut k: usize = p + 1;
            let ghost base = out@;
            while k < cleaned.len()
                invariant
                    p + 1 <= k <= cleaned.len(),
                    out@ == base + cleaned@.subrange(p + 1, k as int),
                decreases cleaned.len() - k,
            {
                out.push(cleaned[k]);
                k = k + 1;
                assert(out@ =~= base + cleaned@.subrange(p + 1, k as int));
            }
            assert(cleaned@.subrange(p + 1, cleaned.len() as int) =~= cleaned@.skip(p + 1));
            out
        },
        None => owned(value),
    }
}

proof fn lemma_first_position(s: Seq<char>, c: char, p: int)
    requires
        0 <= p <= s.len(),
        forall|q: int| 0 <= q < p ==> s[q] != c,
        p < s.len() ==> s[p] == c,
    ensures
        p == s.len() ==> first_position(s, c) is None,
        p < s.len() ==> first_position(s, c) == Some(p),
    decreases s.len(),
{
    if s.len() > 0 {
        if p == s.len() {
            lemma_first_position(s.drop_last(), c, p - 1);
        } else if p < s.len() - 1 {
            lemma_first_position(s.drop_last(), c, p);
        } else {
            lemma_first_position(s.drop_last(), c, p);
        }
    }
}

fn slice_prefix(s: &[char], n: usize) -> (r: Vec<char>)
    requires
        n <= s.len(),
    ensures
        r@ == s@.take(n as int),
{
    let mut r: Vec<char> = Vec::new();
    let mut i: usize = 0;
    while i < n
        invariant
            n <= s.len(),
            i <= n,
            r@ == s@.take(i as int),
        decreases n - i,
    {
        r.push(s[i]);
        i = i + 1;
        assert(r@ =~= s@.take(i as int));
    }
    r
}

/// The word a character of a value is read as, if any.
pub open spec fn spoken_word(c: char) -> Seq<char> {
    if c == '0' {
        "Zero"@
    } else if c == '1' {
        "One"@
    } else if c == '2' {
        "Two"@
    } else if c == '3' {
        "Three"@
    } else if c == '4' {
        "Four"@
    } else if c == '5' {
        "Five"@
    } else if c == '6' {
        "Six"@
    } else if c == '7' {
        "Seven"@
    } else if c == '8' {
        "Eight"@
    } else if c == '9' {
        "Nine"@
    } else if c == '-' {
        "Negative"@
    } else if c == '.' {
        "Point"@
    } else {
        Seq::empty()
    }
}

/// Whether a character is read out at all.
pub open spec fn is_spoken(c: char) -> bool {
    ('0' <= c <= '9') || c == '-' || c == '.'
}

/// The words of the characters of `s` that are read out, joined by spaces.
pub open spec fn spoken_words(s: Seq<char>) -> Seq<char>
    decreases s.len(),
{
    if s.len() == 0 {
        Seq::empty()
    } else if is_spoken(s.last()) {
        join2(spoken_words(s.drop_last()), spoken_word(s.last()))
    } else {
        spoken_words(s.drop_last())
    }
}

/// Some character of `s` is read out.
pub open spec fn has_spoken(s: Seq<char>) -> bool {
    exists|i: int| 0 <= i < s.len() && is_spoken(#[trigger] s[i])
}

/// A value read out digit by digit: digits by name, `-` as `Negative`, `.`
/// as `Point`, other characters skipped; `Result` when nothing is read.
pub open spec fn number_text(s: Seq<char>) -> Seq<char> {
    if has_spoken(s) {
        spoken_words(s)
    } else {
        "Result"@
    }
}

fn spoken_word_of(c: char) -> (w: &'static str)
    requires
        is_spoken(c),
    ensures
        w@ == spoken_word(c),
{
    if c == '0' {
        "Zero"
    } else if c == '1' {
        "One"
    } else if c == '2' {
        "Two"
    } else if c == '3' {
        "Three"
    } else if c == '4' {
        "Four"
    } else if c == '5' {
        "Five"
    } else if c == '6' {
        "Six"
    } else if c == '7' {
        "Seven"
    } else if c == '8' {
        "Eight"
    } else if c == '9' {
        "Nine"
    } else if c == '-' {
        "Negative"
    } else {
        "Point"
    }
}

proof fn lemma_spoken_word_nonempty(c: char)
    requires
        is_spoken(c),
    ensures
        spoken_word(c).len() > 0,
{
    reveal_strlit("Zero");
    reveal_strlit("One");
    reveal_strlit("Two");
    reveal_strlit("Three");
    reveal_strlit("Four");
    reveal_strlit("Five");
    reveal_strlit("Six");
    reveal_strlit("Seven");
    reveal_strlit("Eight");
    reveal_strlit("Nine");
    reveal_strlit("Negative");
    reveal_strlit("Point");
}

proof fn lemma_spoken_words_nonempty(s: Seq<char>)
    requires
        has_spoken(s),
    ensures
        spoken_words(s).len() > 0,
    decreases s.len(),
{
    let i = choose|i: int| 0 <= i < s.len() && is_spoken(#[trigger] s[i]);
    if is_spoken(s.last()) {
        lemma_spoken_word_nonempty(s.last());
    } else {
        assert(i < s.len() - 1);
        assert(s.drop_last()[i] == s[i]);
        lemma_spoken_words_nonempty(s.drop_last());
    }
}

/// A decimal digit `d` is read as its English name (0 `Zero`, 1 `One`, 2
/// `Two`, ... 9 `Nine`): alone it is read as that name, and after text that
/// is already read out it adds a space and that name at the end.
pub proof fn lemma_digits_read_by_name(s: Seq<char>, c: char)
    requires
        '0' <= c <= '9',
    ensures
        number_text(seq![c]) == seq![
            "Zero"@,
            "One"@,
            "Two"@,
            "Three"@,
            "Four"@,
            "Five"@,
            "Six"@,
            "Seven"@,
            "Eight"@,
            "Nine"@,
        ][c as int - '0' as int],
        has_spoken(s) ==> number_text(s.push(c)) == number_text(s) + seq![' '] + seq![
            "Zero"@,
            "One"@,
            "Two"@,
            "Three"@,
            "Four"@,
            "Five"@,
            "Six"@,
            "Seven"@,
            "Eight"@,
            "Nine"@,
        ][c as int - '0' as int],
{
    let names = seq![
        "Zero"@,
        "One"@,
        "Two"@,
        "Three"@,
        "Four"@,
        "Five"@,
        "Six"@,
        "Seven"@,
        "Eight"@,
        "Nine"@,
    ];
    let d = c as int - '0' as int;
    assert(spoken_word(c) == names[d]);
    lemma_spoken_word_nonempty(c);
    let one = seq![c];
    assert(has_spoken(one)) by {
        assert(is_spoken(one[0]));
    }
    assert(one.drop_last() =~= Seq::<char>::empty());
    assert(spoken_words(one) == join2(spoken_words(Seq::<char>::empty()), spoken_word(c)));
    if has_spoken(s) {
        let t = s.push(c);
        assert(has_spoken(t)) by {
            assert(is_spoken(t[s.len() as int]));
        }
        assert(t.drop_last() =~= s);
        lemma_spoken_words_nonempty(s);
    }
}

/// A minus sign is read as `Negative` and a decimal point as `Point`; any
/// character that is neither a digit, a minus sign nor a point is skipped;
/// a value with nothing to read is read as `Result`.
pub proof fn lemma_signs_read_and_others_skipped(s: Seq<char>, c: char)
    ensures
        number_text(seq!['-']) == seq!['N', 'e', 'g', 'a', 't', 'i', 'v', 'e'],
        number_text(seq!['.']) == seq!['P', 'o', 'i', 'n', 't'],
        has_spoken(s) && (c == '-' || c == '.') ==> number_text(s.push(c)) == number_text(s)
            + seq![' '] + number_text(seq![c]),
        !('0' <= c <= '9' || c == '-' || c == '.') ==> number_text(s.push(c)) == number_text(s),
        !has_spoken(s) ==> number_text(s) == seq!['R', 'e', 's', 'u', 'l', 't'],
{
    reveal_strlit("Negative");
    reveal_strlit("Point");
    reveal_strlit("Result");
    assert("Negative"@ =~= seq!['N', 'e', 'g', 'a', 't', 'i', 'v', 'e']);
    assert("Point"@ =~= seq!['P', 'o', 'i', 'n', 't']);
    assert("Result"@ =~= seq!['R', 'e', 's', 'u', 'l', 't']);
    let minus = seq!['-'];
    let point = seq!['.'];
    assert(has_spoken(minus)) by {
        assert(is_spoken(minus[0]));
    }
    assert(has_spoken(point)) by {
        assert(is_spoken(point[0]));
    }
    assert(minus.drop_last() =~= Seq::<char>::empty());
    assert(point.drop_last() =~= Seq::<char>::empty());
    assert(minus.last() == '-' && point.last() == '.');
    assert(is_spoken(minus.last()) && is_spoken(point.last()));
    assert(spoken_words(minus.drop_last()) == Seq::<char>::empty());
    assert(spoken_words(point.drop_last()) == Seq::<char>::empty());
    assert(spoken_words(minus) == join2(Seq::<char>::empty(), spoken_word('-')));
    assert(spoken_words(point) == join2(Seq::<char>::empty(), spoken_word('.')));
    let t = s.push(c);
    assert(t.drop_last() =~= s);
    if c == '-' || c == '.' {
        let one = seq![c];
        assert(one.drop_last() =~= Seq::<char>::empty());
        assert(has_spoken(one)) by {
            assert(is_spoken(one[0]));
        }
        assert(has_spoken(t)) by {
            assert(is_spoken(t[s.len() as int]));
        }
        lemma_spoken_word_nonempty(c);
        if has_spoken(s) {
            lemma_spoken_words_nonempty(s);
        }
    }
    if !('0' <= c <= '9' || c == '-' || c == '.') {
        assert(has_spoken(t) == has_spoken(s)) by {
            if has_spoken(t) {
                let i = choose|i: int| 0 <= i < t.len() && is_spoken(#[trigger] t[i]);
                assert(i < s.len());
                assert(s[i] == t[i]);
            }
            if has_spoken(s) {
                let i = choose|i: int| 0 <= i < s.len() && is_spoken(#[trigger] s[i]);
                assert(t[i] == s[i]);
            }
        }
    }
}

/// `number_text_for_value`: see `number_text`.
pub fn number_text_for_value(value: &str) -> (r: String)
    ensures
        r@ == number_text(value@),
{
    let chars = chars_of(value);
    let mut out: Vec<char> = Vec::new();
    let mut any = false;
    let mut i: usize = 0;
    while i < chars.len()
        invariant
            i <= chars.len(),
            out@ == spoken_words(chars@.subrange(0, i as int)),
            any == has_spoken(chars@.subrange(0, i as int)),
            any == (out@.len() > 0),
        decreases chars.len() - i,
    {
        let c = chars[i];
        let ghost before = chars@.subrange(0, i as int);
        let ghost now = chars@.subrange(0, i + 1);
        assert(now.drop_last() =~= before);
        assert(now.last() == c);
        if ('0' <= c && c <= '9') || c == '-' || c == '.' {
            let word = spoken_word_of(c);
            proof {
                lemma_spoken_word_nonempty(c);
            }
            if out.len() > 0 {
                out.push(' ');
            }
            let wc = chars_of(word);
            let mut k: usize = 0;
            let ghost base = out@;
            while k < wc.len()
                invariant
                    k <= wc.len(),
                    out@ == base + wc@.subrange(0, k as int),
                decreases wc.len() - k,
            {
                out.push(wc[k]);
                k = k + 1;
                assert(out@ =~= base + wc@.subrange(0, k as int));
            }
            assert(wc@.subrange(0, wc.len() as int) =~= wc@);
            any = true;
            assert(out@ =~= spoken_words(now));
            assert(has_spoken(now)) by {
                assert(is_spoken(now[i as int]));
            }
        } else {
            assert(has_spoken(now) == has_spoken(before)) by {
                if has_spoken(now) {
                    let w = choose|w: int| 0 <= w < now.len() && is_spoken(#[trigger] now[w]);
                    assert(w < i);
                    assert(before[w] == now[w]);
                }
                if has_spoken(before) {
                    let w = choose|w: int| 0 <= w < before.len() && is_spoken(#[trigger] before[w]);
                    assert(now[w] == before[w]);
                }
            }
        }
        i = i + 1;
    }
    assert(chars@.subrange(0, chars.len() as int) =~= chars@);
    if !any {
        return owned("Result");
    }
    string_from(out.as_slice())
}

} // verus!
