//! English wording of whole numbers, as the calculator row speaks a result.
use vstd::prelude::*;
use crate::text::{chars_of, string_from};

verus! {

/// Joins two phrases with one space; an empty phrase contributes nothing.
pub open spec fn join2(a: Seq<char>, b: Seq<char>) -> Seq<char> {
    if a.len() == 0 {
        b
    } else if b.len() == 0 {
        a
    } else {
        a + seq![' '] + b
    }
}

/// The word for `n < 20`; empty for zero.
pub open spec fn below_twenty(n: nat) -> Seq<char> {
    if n == 1 {
        "One"@
    } else if n == 2 {
        "Two"@
    } else if n == 3 {
        "Three"@
    } else if n == 4 {
        "Four"@
    } else if n == 5 {
        "Five"@
    } else if n == 6 {
        "Six"@
    } else if n == 7 {
        "Seven"@
    } else if n == 8 {
        "Eight"@
    } else if n == 9 {
        "Nine"@
    } else if n == 10 {
        "Ten"@
    } else if n == 11 {
        "Eleven"@
    } else if n == 12 {
        "Twelve"@
    } else if n == 13 {
        "Thirteen"@
    } else if n == 14 {
        "Fourteen"@
    } else if n == 15 {
        "Fifteen"@
    } else if n == 16 {
        "Sixteen"@
    } else if n == 17 {
        "Seventeen"@
    } else if n == 18 {
        "Eighteen"@
    } else if n == 19 {
        "Nineteen"@
    } else {
        Seq::empty()
    }
}

/// The word for the multiple of ten `10 * t`, for `2 <= t <= 9`; empty otherwise.
pub open spec fn tens_word(t: nat) -> Seq<char> {
    if t == 2 {
        "Twenty"@
    } else if t == 3 {
        "Thirty"@
    } else if t == 4 {
        "Forty"@
    } else if t == 5 {
        "Fifty"@
    } else if t == 6 {
        "Sixty"@
    } else if t == 7 {
        "Seventy"@
    } else if t == 8 {
        "Eighty"@
    } else if t == 9 {
        "Ninety"@
    } else {
        Seq::empty()
    }
}

/// The wording of the part of a chunk below one hundred.
pub open spec fn below_hundred_words(r: nat) -> Seq<char> {
    if r == 0 {
        Seq::empty()
    } else if r < 20 {
        below_twenty(r)
    } else if r % 10 == 0 {
        tens_word(r / 10)
    } else {
        tens_word(r / 10) + seq![' '] + below_twenty(r % 10)
    }
}

/// The wording of a chunk: `"<n> Hundred"` for the hundreds, then the rest.
pub open spec fn chunk_words(v: nat) -> Seq<char> {
    let h = v / 100;
    let hundreds = if h > 0 {
        below_twenty(h) + " Hundred"@
    } else {
        Seq::empty()
    };
    join2(hundreds, below_hundred_words(v % 100))
}

/// The scale word appended to the chunk of thousands number `k`.
pub open spec fn scale_suffix(k: nat) -> Seq<char> {
    if k == 1 {
        " Thousand"@
    } else if k == 2 {
        " Million"@
    } else if k == 3 {
        " Billion"@
    } else {
        Seq::empty()
    }
}

/// The wording of `m`, whose lowest chunk of three digits has scale `k`;
/// zero chunks are left out.
pub open spec fn scale_words(m: nat, k: nat) -> Seq<char>
    decreases m,
{
    if m == 0 {
        Seq::empty()
    } else {
        let c = m % 1000;
        let hi = scale_words(m / 1000, k + 1);
        if c == 0 {
            hi
        } else {
            join2(hi, chunk_words(c) + scale_suffix(k))
        }
    }
}

/// The largest magnitude the calculator still spells out.
pub const MAX_WORDS_INTEGER: i64 = 999_999_999_999;

/// The spoken form of an integer result, if its magnitude is small enough.
pub open spec fn integer_words_spec(n: int) -> Option<Seq<char>> {
    if n > MAX_WORDS_INTEGER || n < -MAX_WORDS_INTEGER {
        None
    } else if n == 0 {
        Some("Zero"@)
    } else if n < 0 {
        Some("Negative "@ + scale_words((-n) as nat, 0))
    } else {
        Some(scale_words(n as nat, 0))
    }
}

/// A two-digit number `10 * t + u` (`2 <= t <= 9`) is spoken as the English
/// name of the multiple `10 * t` (Twenty, Thirty, ... Ninety), followed by
/// a space and the name of the digit `u` unless `u` is zero.
pub proof fn lemma_two_digit_words(n: int)
    requires
        20 <= n <= 99,
    ensures
        integer_words_spec(n) == Some(
            seq![
            "Twenty"@,
            "Thirty"@,
            "Forty"@,
            "Fifty"@,
            "Sixty"@,
            "Seventy"@,
            "Eighty"@,
            "Ninety"@,
        ][n / 10 - 2] + if n % 10 == 0 {
                Seq::<char>::empty()
            } else {
                seq![' '] + seq![
                "One"@,
                "Two"@,
                "Three"@,
                "Four"@,
                "Five"@,
                "Six"@,
                "Seven"@,
                "Eight"@,
                "Nine"@,
            ][n % 10 - 1]
            },
        ),
{
    let m = n as nat;
    assert(m % 1000 == m && m / 1000 == 0 && m / 100 == 0 && m % 100 == m);
    assert(scale_words(0, 1) == Seq::<char>::empty());
    assert(scale_suffix(0) =~= Seq::<char>::empty());
    assert(chunk_words(m) == below_hundred_words(m));
    assert(scale_words(m, 0) == join2(Seq::<char>::empty(), chunk_words(m) + scale_suffix(0)));
    assert(chunk_words(m) + scale_suffix(0) =~= chunk_words(m));
    lemma_tens_plain(m / 10);
    if m % 10 != 0 {
        lemma_below_twenty_plain(m % 10);
    }
}

/// The numbers one to nineteen are spoken by their English names.
pub proof fn lemma_names_below_twenty(n: int)
    requires
        1 <= n <= 19,
    ensures
        integer_words_spec(n) == Some(
            seq![
                "One"@,
                "Two"@,
                "Three"@,
                "Four"@,
                "Five"@,
                "Six"@,
                "Seven"@,
                "Eight"@,
                "Nine"@,
                "Ten"@,
                "Eleven"@,
                "Twelve"@,
                "Thirteen"@,
                "Fourteen"@,
                "Fifteen"@,
                "Sixteen"@,
                "Seventeen"@,
                "Eighteen"@,
                "Nineteen"@,
            ][n - 1],
        ),
{
    lemma_small_scale(n as nat, 0);
    lemma_below_twenty_plain(n as nat);
    assert(chunk_words(n as nat) == below_twenty(n as nat));
}

proof fn lemma_small_scale(m: nat, k: nat)
    requires
        m < 1000,
    ensures
        scale_words(m, k) == (if m == 0 {
            Seq::<char>::empty()
        } else {
            chunk_words(m) + scale_suffix(k)
        }),
        0 < m ==> chunk_words(m).len() > 0,
{
    assert(m % 1000 == m && m / 1000 == 0);
    assert(scale_words(0, k + 1) == Seq::<char>::empty());
    if m > 0 {
        lemma_chunk_words_shape(m);
    }
}

/// One step of `scale_words`: the chunks above the lowest three digits,
/// then the lowest chunk with its scale word unless it is zero.
proof fn lemma_scale_step(m: nat, k: nat)
    ensures
        m > 0 ==> scale_words(m, k) == join2(
            scale_words(m / 1000, k + 1),
            if m % 1000 == 0 {
                Seq::<char>::empty()
            } else {
                chunk_words(m % 1000) + scale_suffix(k)
            },
        ),
{
}

/// A positive number within range is spoken as its chunks.
proof fn lemma_words_positive(n: nat)
    requires
        0 < n <= MAX_WORDS_INTEGER,
    ensures
        integer_words_spec(n as int) == Some(scale_words(n, 0)),
{
}

/// A number below one thousand is spoken as its one chunk.
proof fn lemma_words_small(m: nat)
    requires
        0 < m < 1000,
    ensures
        integer_words_spec(m as int) == Some(chunk_words(m)),
        scale_words(m, 0) == chunk_words(m),
        chunk_words(m).len() > 0,
{
    lemma_small_scale(m, 0);
    assert(chunk_words(m) + scale_suffix(0) =~= chunk_words(m));
    lemma_words_positive(m);
}

/// The chunk of `100 * h + r` is the hundreds digit's word and `Hundred`,
/// then the rest.
proof fn lemma_chunk_hundreds(h: nat, r: nat)
    requires
        1 <= h <= 9,
        r <= 99,
    ensures
        chunk_words(100 * h + r) == join2(below_twenty(h) + " Hundred"@, below_hundred_words(r)),
{
    let n = 100 * h + r;
    assert(n / 100 == h && n % 100 == r) by (nonlinear_arith)
        requires
            n == 100 * h + r,
            r <= 99,
    ;
}

/// A number from one hundred to nine hundred and ninety-nine is spoken as
/// the name of its hundreds digit and `Hundred`, then a space and the words
/// of the rest unless the rest is zero.
pub proof fn lemma_hundreds_words(h: int, r: int)
    requires
        1 <= h <= 9,
        0 <= r <= 99,
    ensures
        integer_words_spec(100 * h + r) == Some(
            seq![
                "One"@,
                "Two"@,
                "Three"@,
                "Four"@,
                "Five"@,
                "Six"@,
                "Seven"@,
                "Eight"@,
                "Nine"@,
            ][h - 1] + seq![' ', 'H', 'u', 'n', 'd', 'r', 'e', 'd'] + if r == 0 {
                Seq::<char>::empty()
            } else {
                seq![' '] + integer_words_spec(r)->0
            },
        ),
{
    let n = (100 * h + r) as nat;
    let head = below_twenty(h as nat) + " Hundred"@;
    let rest = below_hundred_words(r as nat);
    lemma_words_small(n);
    lemma_chunk_hundreds(h as nat, r as nat);
    assert(head == seq![
        "One"@,
        "Two"@,
        "Three"@,
        "Four"@,
        "Five"@,
        "Six"@,
        "Seven"@,
        "Eight"@,
        "Nine"@,
    ][h - 1] + seq![' ', 'H', 'u', 'n', 'd', 'r', 'e', 'd']) by {
        reveal_strlit(" Hundred");
        assert(" Hundred"@ =~= seq![' ', 'H', 'u', 'n', 'd', 'r', 'e', 'd']);
    }
    if r > 0 {
        lemma_words_small(r as nat);
        assert(chunk_words(r as nat) == rest);
        assert(join2(head, rest) =~= head + (seq![' '] + rest));
    } else {
        assert(rest == Seq::<char>::empty());
        assert(join2(head, rest) =~= head + Seq::<char>::empty());
    }
}

/// A number `1000 * a + r` with `1 <= a <= 999` and `r < 1000` is spoken as
/// the words of `a` and `Thousand`, then a space and the words of `r` unless
/// `r` is zero.
pub proof fn lemma_thousands_words(a: int, r: int)
    requires
        1 <= a <= 999,
        0 <= r <= 999,
    ensures
        integer_words_spec(1000 * a + r) == Some(
            integer_words_spec(a)->0 + seq![' ', 'T', 'h', 'o', 'u', 's', 'a', 'n', 'd'] + if r
                == 0 {
                Seq::<char>::empty()
            } else {
                seq![' '] + integer_words_spec(r)->0
            },
        ),
{
    let n = (1000 * a + r) as nat;
    assert(n / 1000 == a && n % 1000 == r && n <= MAX_WORDS_INTEGER) by (nonlinear_arith)
        requires
            n == 1000 * a + r,
            1 <= a <= 999,
            0 <= r <= 999,
    ;
    let hi = chunk_words(a as nat) + " Thousand"@;
    let lo = if r == 0 {
        Seq::<char>::empty()
    } else {
        chunk_words(r as nat) + scale_suffix(0)
    };
    lemma_words_positive(n);
    lemma_words_small(a as nat);
    assert(scale_words(n, 0) == join2(scale_words(a as nat, 1), lo)) by {
        lemma_scale_step(n, 0);
    }
    assert(scale_words(a as nat, 1) == hi) by {
        lemma_small_scale(a as nat, 1);
    }
    assert(hi == chunk_words(a as nat) + seq![' ', 'T', 'h', 'o', 'u', 's', 'a', 'n', 'd']) by {
        reveal_strlit(" Thousand");
        assert(" Thousand"@ =~= seq![' ', 'T', 'h', 'o', 'u', 's', 'a', 'n', 'd']);
    }
    if r > 0 {
        lemma_words_small(r as nat);
        assert(lo =~= chunk_words(r as nat));
        assert(join2(hi, lo) =~= hi + (seq![' '] + chunk_words(r as nat)));
    } else {
        assert(join2(hi, lo) =~= hi + Seq::<char>::empty());
    }
}

/// `scale_words` splits into the chunks above the lowest three digits and
/// the lowest chunk, each with its own scale.
proof fn lemma_scale_split(n: nat, k: nat)
    requires
        n > 0,
    ensures
        scale_words(n, k) == join2(scale_words(n / 1000, k + 1), scale_words(n % 1000, k)),
{
    lemma_small_scale(n % 1000, k);
    lemma_scale_step(n, k);
}

/// A chunk below one thousand at scale `k` is its plain wording followed by
/// the scale word; its plain wording is not empty.
proof fn lemma_scale_shift(a: nat, k: nat)
    requires
        0 < a < 1000,
    ensures
        scale_words(a, k) == scale_words(a, 0) + scale_suffix(k),
        scale_words(a, 0).len() > 0,
{
    lemma_small_scale(a, k);
    lemma_small_scale(a, 0);
    assert(chunk_words(a) + scale_suffix(0) =~= chunk_words(a));
}

/// A number `1_000_000 * a + r` with `1 <= a <= 999` and `r < 1_000_000` is
/// spoken as the words of `a` and `Million`, then a space and the words of
/// `r` unless `r` is zero.
pub proof fn lemma_millions_words(a: int, r: int)
    requires
        1 <= a <= 999,
        0 <= r <= 999_999,
    ensures
        integer_words_spec(1_000_000 * a + r) == Some(
            integer_words_spec(a)->0 + seq![' ', 'M', 'i', 'l', 'l', 'i', 'o', 'n'] + if r == 0 {
                Seq::<char>::empty()
            } else {
                seq![' '] + integer_words_spec(r)->0
            },
        ),
{
    let n = (1_000_000 * a + r) as nat;
    let an = a as nat;
    let rn = r as nat;
    let r1 = rn / 1000;
    let r0 = rn % 1000;
    let q = 1000 * an + r1;
    lemma_thousand_split(1000 * an, rn);
    lemma_thousand_split(an, r1);
    assert(r1 <= 999 && n <= MAX_WORDS_INTEGER);
    assert(n == 1000 * (1000 * an) + rn);
    assert(n / 1000 == q && n % 1000 == r0);
    assert(q / 1000 == an && q % 1000 == r1);
    let m = scale_words(an, 2);
    let low = join2(scale_words(r1, 1), scale_words(r0, 0));
    lemma_words_positive(n);
    lemma_words_positive(an);
    lemma_two_chunks(n, q, an, r1, r0);
    lemma_scale_shift(an, 2);
    assert(scale_suffix(2) == seq![' ', 'M', 'i', 'l', 'l', 'i', 'o', 'n']) by {
        reveal_strlit(" Million");
    }
    if r > 0 {
        lemma_words_positive(rn);
        lemma_low_chunks(rn, r1, 0, r1, r0);
        assert(scale_words(0, 2) == Seq::<char>::empty());
        assert(join2(Seq::<char>::empty(), scale_words(r1, 1)) == scale_words(r1, 1));
        assert(join2(m, low) =~= m + (seq![' '] + low));
    } else {
        assert(r1 == 0 && r0 == 0);
        assert(scale_words(0, 1) == Seq::<char>::empty());
        assert(scale_words(0, 0) == Seq::<char>::empty());
        assert(low == Seq::<char>::empty());
        assert(join2(m, low) =~= m + Seq::<char>::empty());
    }
}

proof fn lemma_two_chunks(n: nat, q: nat, an: nat, r1: nat, r0: nat)
    requires
        0 < an < 1000,
        n / 1000 == q,
        n % 1000 == r0,
        q / 1000 == an,
        q % 1000 == r1,
    ensures
        scale_words(n, 0) == join2(
            scale_words(an, 2),
            join2(scale_words(r1, 1), scale_words(r0, 0)),
        ),
{
    assert(q > 0 && n > 0) by (nonlinear_arith)
        requires
            q / 1000 == an,
            n / 1000 == q,
            an > 0,
    ;
    lemma_scale_split(n, 0);
    lemma_scale_split(q, 1);
    lemma_join2_assoc(scale_words(an, 2), scale_words(r1, 1), scale_words(r0, 0));
}

proof fn lemma_thousand_split(x: nat, y: nat)
    ensures
        (1000 * x + y) / 1000 == x + y / 1000,
        (1000 * x + y) % 1000 == y % 1000,
{
    assert((1000 * x + y) / 1000 == x + y / 1000 && (1000 * x + y) % 1000 == y % 1000)
        by (nonlinear_arith);
}

/// A number `1_000_000_000 * a + r` with `1 <= a <= 999` and
/// `r < 1_000_000_000` is spoken as the words of `a` and `Billion`, then a
/// space and the words of `r` unless `r` is zero.
pub proof fn lemma_billions_words(a: int, r: int)
    requires
        1 <= a <= 999,
        0 <= r <= 999_999_999,
    ensures
        integer_words_spec(1_000_000_000 * a + r) == Some(
            integer_words_spec(a)->0 + seq![' ', 'B', 'i', 'l', 'l', 'i', 'o', 'n'] + if r == 0 {
                Seq::<char>::empty()
            } else {
                seq![' '] + integer_words_spec(r)->0
            },
        ),
{
    let n = (1_000_000_000 * a + r) as nat;
    let an = a as nat;
    let rn = r as nat;
    let rr = rn / 1000;
    let r2 = rr / 1000;
    let r1 = rr % 1000;
    let r0 = rn % 1000;
    let q1 = 1_000_000 * an + rr;
    let q2 = 1000 * an + r2;
    lemma_thousand_split(1_000_000 * an, rn);
    lemma_thousand_split(1000 * an, rr);
    lemma_thousand_split(an, r2);
    assert(rr <= 999_999 && r2 <= 999 && n <= MAX_WORDS_INTEGER);
    assert(n == 1000 * (1_000_000 * an) + rn);
    assert(q1 == 1000 * (1000 * an) + rr);
    assert(n / 1000 == q1 && n % 1000 == r0);
    assert(q1 / 1000 == q2 && q1 % 1000 == r1);
    assert(q2 / 1000 == an && q2 % 1000 == r2);
    let b = scale_words(an, 3);
    let low = join2(join2(scale_words(r2, 2), scale_words(r1, 1)), scale_words(r0, 0));
    lemma_words_positive(n);
    lemma_words_positive(an);
    lemma_three_chunks(n, q1, q2, an, r2, r1, r0);
    lemma_scale_shift(an, 3);
    assert(scale_suffix(3) == seq![' ', 'B', 'i', 'l', 'l', 'i', 'o', 'n']) by {
        reveal_strlit(" Billion");
    }
    if r > 0 {
        lemma_words_positive(rn);
        lemma_low_chunks(rn, rr, r2, r1, r0);
        assert(join2(b, low) =~= b + (seq![' '] + low));
    } else {
        assert(rr == 0 && r2 == 0 && r1 == 0 && r0 == 0);
        assert(scale_words(0, 2) == Seq::<char>::empty());
        assert(scale_words(0, 1) == Seq::<char>::empty());
        assert(scale_words(0, 0) == Seq::<char>::empty());
        assert(low == Seq::<char>::empty());
        assert(join2(b, low) =~= b + Seq::<char>::empty());
    }
}

proof fn lemma_three_chunks(n: nat, q1: nat, q2: nat, an: nat, r2: nat, r1: nat, r0: nat)
    requires
        0 < an < 1000,
        n / 1000 == q1,
        n % 1000 == r0,
        q1 / 1000 == q2,
        q1 % 1000 == r1,
        q2 / 1000 == an,
        q2 % 1000 == r2,
    ensures
        scale_words(n, 0) == join2(
            scale_words(an, 3),
            join2(join2(scale_words(r2, 2), scale_words(r1, 1)), scale_words(r0, 0)),
        ),
{
    assert(q2 > 0 && q1 > 0 && n > 0) by (nonlinear_arith)
        requires
            q2 / 1000 == an,
            q1 / 1000 == q2,
            n / 1000 == q1,
            an > 0,
    ;
    lemma_scale_split(n, 0);
    lemma_scale_split(q1, 1);
    lemma_scale_split(q2, 2);
    let b = scale_words(an, 3);
    let t2 = scale_words(r2, 2);
    let t1 = scale_words(r1, 1);
    let t0 = scale_words(r0, 0);
    lemma_join2_assoc(b, t2, t1);
    lemma_join2_assoc(b, join2(t2, t1), t0);
}

proof fn lemma_low_chunks(rn: nat, rr: nat, r2: nat, r1: nat, r0: nat)
    requires
        rn > 0,
        rn / 1000 == rr,
        rn % 1000 == r0,
        rr / 1000 == r2,
        rr % 1000 == r1,
        r2 < 1000,
    ensures
        scale_words(rn, 0) == join2(join2(scale_words(r2, 2), scale_words(r1, 1)), scale_words(r0, 0)),
        scale_words(rn, 0).len() > 0,
{
    lemma_scale_split(rn, 0);
    if rr > 0 {
        lemma_scale_split(rr, 1);
    } else {
        assert(r2 == 0 && r1 == 0);
        assert(scale_words(0, 1) == Seq::<char>::empty());
        assert(scale_words(0, 2) == Seq::<char>::empty());
    }
    if r0 > 0 {
        lemma_scale_shift(r0, 0);
    } else if r1 > 0 {
        lemma_scale_shift(r1, 1);
    } else {
        assert(rr > 0) by (nonlinear_arith)
            requires
                rn / 1000 == rr,
                rn % 1000 == r0,
                r0 == 0,
                rn > 0,
        ;
        assert(r2 > 0) by (nonlinear_arith)
            requires
                rr / 1000 == r2,
                rr % 1000 == r1,
                r1 == 0,
                rr > 0,
        ;
        lemma_scale_shift(r2, 2);
    }
}

/// Zero is spoken as `Zero`, a negative number as `Negative` and the words
/// of its magnitude, and a number beyond `MAX_WORDS_INTEGER` in magnitude
/// is not spoken.
pub proof fn lemma_zero_sign_and_range(n: int)
    ensures
        integer_words_spec(0) == Some(seq!['Z', 'e', 'r', 'o']),
        1 <= n <= MAX_WORDS_INTEGER ==> integer_words_spec(-n) == Some(
            seq!['N', 'e', 'g', 'a', 't', 'i', 'v', 'e', ' '] + integer_words_spec(n)->0,
        ),
        n > MAX_WORDS_INTEGER || n < -MAX_WORDS_INTEGER ==> integer_words_spec(n) is None,
{
    reveal_strlit("Zero");
    reveal_strlit("Negative ");
    assert("Zero"@ =~= seq!['Z', 'e', 'r', 'o']);
    assert("Negative "@ =~= seq!['N', 'e', 'g', 'a', 't', 'i', 'v', 'e', ' ']);
}

pub proof fn lemma_join2_assoc(a: Seq<char>, b: Seq<char>, c: Seq<char>)
    ensures
        join2(join2(a, b), c) == join2(a, join2(b, c)),
{
    if a.len() > 0 && b.len() > 0 && c.len() > 0 {
        assert(a + seq![' '] + b + seq![' '] + c =~= a + seq![' '] + (b + seq![' '] + c));
    }
}

/// A single word: not empty, with no white space and no capital `H`.
pub open spec fn plain_word(w: Seq<char>) -> bool {
    w.len() > 0 && forall|i: int|
        0 <= i < w.len() ==> !crate::text::is_white_space(#[trigger] w[i]) && w[i] != 'H'
}

/// Words separated by single spaces: not empty, no white space in front or
/// at the end, and never two spaces in a row.
pub open spec fn single_spaced(s: Seq<char>) -> bool {
    &&& s.len() > 0
    &&& !crate::text::is_white_space(s[0])
    &&& !crate::text::is_white_space(s.last())
    &&& forall|i: int| 0 <= i < s.len() - 1 ==> !(#[trigger] s[i] == ' ' && s[i + 1] == ' ')
}

/// Text with no white space at either end is its own trim.
proof fn lemma_unpadded_trim(s: Seq<char>)
    requires
        single_spaced(s),
    ensures
        crate::text::trim(s) == s,
{
    assert(crate::text::trim_start(s) == s);
    assert(crate::text::trim_end(s) == s);
}

proof fn lemma_below_twenty_plain(n: nat)
    requires
        1 <= n <= 19,
    ensures
        plain_word(below_twenty(n)),
{
    reveal_strlit("One");
    reveal_strlit("Two");
    reveal_strlit("Three");
    reveal_strlit("Four");
    reveal_strlit("Five");
    reveal_strlit("Six");
    reveal_strlit("Seven");
    reveal_strlit("Eight");
    reveal_strlit("Nine");
    reveal_strlit("Ten");
    reveal_strlit("Eleven");
    reveal_strlit("Twelve");
    reveal_strlit("Thirteen");
    reveal_strlit("Fourteen");
    reveal_strlit("Fifteen");
    reveal_strlit("Sixteen");
    reveal_strlit("Seventeen");
    reveal_strlit("Eighteen");
    reveal_strlit("Nineteen");
}

proof fn lemma_tens_plain(t: nat)
    requires
        2 <= t <= 9,
    ensures
        plain_word(tens_word(t)),
{
    reveal_strlit("Twenty");
    reveal_strlit("Thirty");
    reveal_strlit("Forty");
    reveal_strlit("Fifty");
    reveal_strlit("Sixty");
    reveal_strlit("Seventy");
    reveal_strlit("Eighty");
    reveal_strlit("Ninety");
}

proof fn lemma_spaced_join(a: Seq<char>, b: Seq<char>)
    requires
        single_spaced(a),
        single_spaced(b),
    ensures
        single_spaced(a + seq![' '] + b),
        (a + seq![' '] + b).len() == a.len() + 1 + b.len(),
{
    let s = a + seq![' '] + b;
    assert forall|i: int| 0 <= i < s.len() - 1 implies !(#[trigger] s[i] == ' ' && s[i + 1] == ' ') by {
        if i < a.len() - 1 {
            assert(s[i] == a[i] && s[i + 1] == a[i + 1]);
        } else if i == a.len() - 1 {
            assert(s[i] == a.last());
        } else if i == a.len() {
            assert(s[i + 1] == b[0]);
        } else {
            assert(s[i] == b[i - a.len() - 1] && s[i + 1] == b[i - a.len()]);
        }
    }
}

proof fn lemma_below_hundred_plain(r: nat)
    requires
        1 <= r <= 99,
    ensures
        single_spaced(below_hundred_words(r)),
        forall|i: int| 0 <= i < below_hundred_words(r).len() ==> #[trigger] below_hundred_words(r)[i] != 'H',
{
    if r < 20 {
        lemma_below_twenty_plain(r);
    } else if r % 10 == 0 {
        lemma_tens_plain(r / 10);
    } else {
        lemma_tens_plain(r / 10);
        lemma_below_twenty_plain(r % 10);
        let a = tens_word(r / 10);
        let b = below_twenty(r % 10);
        lemma_spaced_join(a, b);
        let s = a + seq![' '] + b;
        assert forall|i: int| 0 <= i < s.len() implies #[trigger] s[i] != 'H' by {
            if i < a.len() {
                assert(s[i] == a[i]);
            } else if i > a.len() {
                assert(s[i] == b[i - a.len() - 1]);
            }
        }
    }
}

/// The wording of a chunk from 1 to 999 is words separated by single
/// spaces, and so its own trim; it names "Hundred" exactly when the chunk is at least 100; a
/// chunk with both hundreds and a rest reads as its hundreds, a space, and
/// its rest; and the chunk 0 has no words.
pub proof fn lemma_chunk_words_shape(v: nat)
    requires
        1 <= v <= 999,
    ensures
        single_spaced(chunk_words(v)),
        crate::text::trim(chunk_words(v)) == chunk_words(v),
        crate::text::contains_seq(chunk_words(v), "Hundred"@) <==> v >= 100,
        v >= 100 && v % 100 != 0 ==> chunk_words(v) == chunk_words((v - v % 100) as nat) + seq![' ']
            + chunk_words(v % 100),
        chunk_words(0) == Seq::<char>::empty(),
{
    reveal_strlit(" Hundred");
    reveal_strlit("Hundred");
    let hw: Seq<char> = "Hundred"@;
    assert(" Hundred"@ =~= seq![' '] + hw);
    assert(single_spaced(hw));
    let h = v / 100;
    let r = v % 100;
    let b = below_hundred_words(r);
    let c = chunk_words(v);
    if h > 0 {
        lemma_below_twenty_plain(h);
        let w = below_twenty(h);
        let at: int = (w.len() + 1) as int;
        assert(single_spaced(w));
        lemma_spaced_join(w, hw);
        let head = w + " Hundred"@;
        assert(head =~= w + seq![' '] + hw);
        assert(crate::text::occurs_at(head, hw, at)) by {
            assert(head.subrange(at, at + hw.len()) =~= hw);
        }
        assert((v - r) as nat / 100 == h && (v - r) as nat % 100 == 0) by (nonlinear_arith)
            requires
                h == v / 100,
                r == v % 100,
        ;
        assert(chunk_words((v - r) as nat) == head);
        if r > 0 {
            lemma_below_hundred_plain(r);
            lemma_spaced_join(head, b);
            assert(c == head + seq![' '] + b);
            assert(chunk_words(r) == b);
            assert(crate::text::occurs_at(c, hw, at)) by {
                assert(c.subrange(at, at + hw.len()) =~= hw);
            }
        } else {
            assert(c == head);
        }
    } else {
        assert(r == v);
        lemma_below_hundred_plain(r);
        assert(c == b);
        if crate::text::contains_seq(c, hw) {
            let i = choose|i: int| crate::text::occurs_at(c, hw, i);
            assert(c.subrange(i, i + hw.len())[0] == hw[0]);
            assert(c[i] == 'H');
        }
    }
    lemma_unpadded_trim(c);
}

fn below_twenty_word(n: u16) -> (w: &'static str)
    ensures
        w@ == below_twenty(n as nat),
{
    match n {
        1 => "One",
        2 => "Two",
        3 => "Three",
        4 => "Four",
        5 => "Five",
        6 => "Six",
        7 => "Seven",
        8 => "Eight",
        9 => "Nine",
        10 => "Ten",
        11 => "Eleven",
        12 => "Twelve",
        13 => "Thirteen",
        14 => "Fourteen",
        15 => "Fifteen",
        16 => "Sixteen",
        17 => "Seventeen",
        18 => "Eighteen",
        19 => "Nineteen",
        _ => {
            proof {
                reveal_strlit("");
            }
            ""
        },
    }
}

fn tens_word_of(t: u16) -> (w: &'static str)
    ensures
        w@ == tens_word(t as nat),
{
    match t {
        2 => "Twenty",
        3 => "Thirty",
        4 => "Forty",
        5 => "Fifty",
        6 => "Sixty",
        7 => "Seventy",
        8 => "Eighty",
        9 => "Ninety",
        _ => {
            proof {
                reveal_strlit("");
            }
            ""
        },
    }
}

fn join2_chars(a: Vec<char>, b: Vec<char>) -> (r: Vec<char>)
    ensures
        r@ == join2(a@, b@),
{
    if a.len() == 0 {
        b
    } else if b.len() == 0 {
        a
    } else {
        let mut r = a;
        r.push(' ');
        let mut i: usize = 0;
        let ghost base = r@;
        while i < b.len()
            invariant
                i <= b.len(),
                r@ == base + b@.subrange(0, i as int),
            decreases b.len() - i,
        {
            r.push(b[i]);
            i = i + 1;
            assert(r@ =~= base + b@.subrange(0, i as int));
        }
        assert(b@.subrange(0, b.len() as int) =~= b@);
        r
    }
}

fn concat_chars(a: Vec<char>, b: &str) -> (r: Vec<char>)
    ensures
        r@ == a@ + b@,
{
    let bs = chars_of(b);
    let mut r = a;
    let ghost base = r@;
    let mut i: usize = 0;
    while i < bs.len()
        invariant
            i <= bs.len(),
            r@ == base + bs@.subrange(0, i as int),
        decreases bs.len() - i,
    {
        r.push(bs[i]);
        i = i + 1;
        assert(r@ =~= base + bs@.subrange(0, i as int));
    }
    assert(bs@.subrange(0, bs.len() as int) =~= bs@);
    r
}

/// The wording of a chunk of thousands.
pub fn chunk_to_words(value: u16) -> (r: String)
    requires
        value < 2000,
    ensures
        r@ == chunk_words(value as nat),
{
    let hundreds = value / 100;
    let remainder = value % 100;
    let mut head: Vec<char> = Vec::new();
    if hundreds > 0 {
        head = concat_chars(head, below_twenty_word(hundreds));
        head = concat_chars(head, " Hundred");
        assert(head@ =~= below_twenty(hundreds as nat) + " Hundred"@);
    } else {
        assert(head@ =~= Seq::<char>::empty());
    }
    let mut rest: Vec<char> = Vec::new();
    if remainder > 0 {
        if remainder < 20 {
            rest = concat_chars(rest, below_twenty_word(remainder));
        } else {
            let tens = remainder / 10;
            let ones = remainder % 10;
            rest = concat_chars(rest, tens_word_of(tens));
            if ones != 0 {
                rest.push(' ');
                rest = concat_chars(rest, below_twenty_word(ones));
            }
        }
    }
    assert(rest@ =~= below_hundred_words(remainder as nat));
    let r = join2_chars(head, rest);
    string_from(r.as_slice())
}

/// The spoken form of an integer (`integer_words` once the value is known to
/// be whole): `None` beyond `MAX_WORDS_INTEGER` in magnitude.
pub fn integer_words(integer: i64) -> (r: Option<String>)
    ensures
        match r {
            Some(s) => integer_words_spec(integer as int) == Some(s@),
            None => integer_words_spec(integer as int) is None,
        },
{
    if integer > MAX_WORDS_INTEGER || integer < -MAX_WORDS_INTEGER {
        return None;
    }
    if integer == 0 {
        return Some(crate::text::owned("Zero"));
    }
    let magnitude: u64 = if integer < 0 {
        (-integer) as u64
    } else {
        integer as u64
    };
    let mut remaining: u64 = magnitude;
    let mut scale: u64 = 0;
    let mut acc: Vec<char> = Vec::new();
    while remaining > 0
        invariant
            remaining <= magnitude,
            magnitude <= MAX_WORDS_INTEGER,
            scale <= 4,
            scale >= 1 ==> remaining <= 999_999_999,
            scale >= 2 ==> remaining <= 999_999,
            scale >= 3 ==> remaining <= 999,
            scale >= 4 ==> remaining == 0,
            scale_words(magnitude as nat, 0) == join2(
                scale_words(remaining as nat, scale as nat),
                acc@,
            ),
        decreases remaining,
    {
        let chunk = (remaining % 1000) as u16;
        let ghost hi = scale_words((remaining / 1000) as nat, (scale + 1) as nat);
        if chunk > 0 {
            let words = chunk_to_words(chunk);
            let mut piece = chars_of(words.as_str());
            if scale == 1 {
                piece = concat_chars(piece, " Thousand");
            } else if scale == 2 {
                piece = concat_chars(piece, " Million");
            } else if scale == 3 {
                piece = concat_chars(piece, " Billion");
            } else {
                assert(piece@ =~= piece@ + scale_suffix(scale as nat));
            }
            proof {
                lemma_join2_assoc(hi, piece@, acc@);
            }
            acc = join2_chars(piece, acc);
        }
        remaining = remaining / 1000;
        scale = scale + 1;
    }
    assert(join2(Seq::<char>::empty(), acc@) == acc@);
    let sentence = if integer < 0 {
        let v = concat_chars(chars_of("Negative "), string_from(acc.as_slice()).as_str());
        v
    } else {
        acc
    };
    Some(string_from(sentence.as_slice()))
}

} // verus!
