//! Character-level helpers on strings: conversion between `str` and
//! character vectors, decimal rendering, trimming and character replacement.

use vstd::prelude::*;

verus! {

/// Appends one character to a `String` (`String::push`).
/// Claims that the view of the string grows by exactly that character.
#[verifier::external_body]
fn push_char(s: &mut String, c: char)
    ensures
        final(s)@ == old(s)@.push(c),
{
    s.push(c);
}

/// The characters of `s`, in order.
pub fn chars_of(s: &str) -> (v: Vec<char>)
    ensures
        v@ == s@,
{
    let mut v: Vec<char> = Vec::new();
    for c in it: s.chars()
        invariant
            v@ == it.seq().take(it.index() as int),
    {
        v.push(c);
    }
    v
}


/// The string whose characters are `v`.
pub fn string_from_chars(v: &Vec<char>) -> (s: String)
    ensures
        s@ == v@,
{
    let mut s = String::new();
    let n = v.len();
    for i in 0..n
        invariant
            n == v@.len(),
            s@ == v@.take(i as int),
    {
        push_char(&mut s, v[i]);
        assert(v@.take(i + 1) =~= v@.take(i as int).push(v@[i as int]));
    }
    assert(v@.take(n as int) =~= v@);
    s
}

/// The ASCII digit character for a value below ten.
pub open spec fn digit_char(d: nat) -> char {
    (d + 48) as char
}

/// Decimal notation of a natural number, without sign or leading zeros.
pub open spec fn decimal(n: nat) -> Seq<char>
    decreases n,
{
    if n < 10 {
        seq![digit_char(n)]
    } else {
        decimal(n / 10).push(digit_char(n % 10))
    }
}

/// The decimal rendering of `n`, as `n.to_string()` gives it.
pub fn decimal_string(n: u64) -> (s: String)
    ensures
        s@ == decimal(n as nat),
    decreases n,
{
    let d: u8 = (n % 10) as u8;
    let c: char = (d + 48u8) as char;
    assert(c == digit_char((n % 10) as nat));
    if n < 10 {
        let mut s = String::new();
        push_char(&mut s, c);
        assert(s@ =~= seq![c]);
        s
    } else {
        let mut s = decimal_string(n / 10);
        push_char(&mut s, c);
        s
    }
}


/// Unicode `White_Space`, the set that `char::is_whitespace` and `str::trim`
/// go by.
pub open spec fn is_white_space(c: char) -> bool {
    ||| ('\u{9}' <= c && c <= '\u{d}')
    ||| c == ' '
    ||| c == '\u{85}'
    ||| c == '\u{a0}'
    ||| c == '\u{1680}'
    ||| ('\u{2000}' <= c && c <= '\u{200a}')
    ||| c == '\u{2028}'
    ||| c == '\u{2029}'
    ||| c == '\u{202f}'
    ||| c == '\u{205f}'
    ||| c == '\u{3000}'
}

/// Whether `c` is Unicode white space.
pub fn white_space(c: char) -> (b: bool)
    ensures
        b == is_white_space(c),
{
    ('\u{9}' <= c && c <= '\u{d}') || c == ' ' || c == '\u{85}' || c == '\u{a0}' || c
        == '\u{1680}' || ('\u{2000}' <= c && c <= '\u{200a}') || c == '\u{2028}' || c
        == '\u{2029}' || c == '\u{202f}' || c == '\u{205f}' || c == '\u{3000}'
}

/// Number of white-space characters at the start of `s`.
pub open spec fn leading_space(s: Seq<char>) -> nat
    decreases s.len(),
{
    if s.len() > 0 && is_white_space(s[0]) {
        1 + leading_space(s.drop_first())
    } else {
        0
    }
}

/// Number of white-space characters at the end of `s`.
pub open spec fn trailing_space(s: Seq<char>) -> nat
    decreases s.len(),
{
    if s.len() > 0 && is_white_space(s.last()) {
        1 + trailing_space(s.drop_last())
    } else {
        0
    }
}

/// `s` without its leading and trailing white space (`str::trim`).
pub open spec fn trimmed(s: Seq<char>) -> Seq<char> {
    let rest = s.skip(leading_space(s) as int);
    rest.take(rest.len() - trailing_space(rest))
}

proof fn lemma_leading_space(s: Seq<char>, i: int)
    requires
        0 <= i <= s.len(),
        forall|j: int| 0 <= j < i ==> is_white_space(#[trigger] s[j]),
        i == s.len() || !is_white_space(s[i]),
    ensures
        leading_space(s) == i,
    decreases i,
{
    if i > 0 {
        lemma_leading_space(s.drop_first(), i - 1);
    }
}

proof fn lemma_trailing_space(s: Seq<char>, k: int)
    requires
        0 <= k <= s.len(),
        forall|j: int| s.len() - k <= j < s.len() ==> is_white_space(#[trigger] s[j]),
        k == s.len() || !is_white_space(s[s.len() - k - 1]),
    ensures
        trailing_space(s) == k,
    decreases k,
{
    if k > 0 {
        let t = s.drop_last();
        assert forall|j: int| t.len() - (k - 1) <= j < t.len() implies is_white_space(
            #[trigger] t[j],
        ) by {
            assert(t[j] == s[j]);
        }
        lemma_trailing_space(t, k - 1);
    }
}

/// The characters of `s` without leading and trailing white space.
pub fn trim_chars(s: &Vec<char>) -> (r: Vec<char>)
    ensures
        r@ == trimmed(s@),
{
    let n = s.len();
    let mut a: usize = 0;
    while a < n && white_space(s[a])
        invariant
            a <= n == s@.len(),
            forall|j: int| 0 <= j < a ==> is_white_space(#[trigger] s@[j]),
        decreases n - a,
    {
        a += 1;
    }
    proof {
        lemma_leading_space(s@, a as int);
    }
    let ghost rest = s@.skip(a as int);
    let mut k: usize = 0;
    while k < n - a && white_space(s[n - 1 - k])
        invariant
            a <= n == s@.len(),
            rest == s@.skip(a as int),
            k <= n - a,
            forall|j: int| rest.len() - k <= j < rest.len() ==> is_white_space(#[trigger] rest[j]),
        decreases n - a - k,
    {
        assert(rest[rest.len() - k - 1] == s@[n - 1 - k]);
        k += 1;
    }
    proof {
        if k < n - a {
            assert(rest[rest.len() - k - 1] == s@[n - 1 - k]);
        }
        lemma_trailing_space(rest, k as int);
    }
    let mut r: Vec<char> = Vec::new();
    let mut i: usize = a;
    while i < n - k
        invariant
            a <= n == s@.len(),
            k <= n - a,
            a <= i <= n - k,
            r@ == s@.subrange(a as int, i as int),
        decreases n - k - i,
    {
        r.push(s[i]);
        assert(r@ =~= s@.subrange(a as int, i + 1));
        i += 1;
    }
    assert(r@ =~= trimmed(s@));
    r
}

/// `s` with every occurrence of `from` replaced by the characters `to`.
pub open spec fn replaced(s: Seq<char>, from: char, to: Seq<char>) -> Seq<char>
    decreases s.len(),
{
    if s.len() == 0 {
        s
    } else {
        replaced(s.drop_last(), from, to) + if s.last() == from {
            to
        } else {
            seq![s.last()]
        }
    }
}

/// The characters of `s` with every `from` replaced by the characters of `to`
/// (`str::replace` with a character pattern).
pub fn replace_char(s: &Vec<char>, from: char, to: &Vec<char>) -> (r: Vec<char>)
    ensures
        r@ == replaced(s@, from, to@),
{
    let mut r: Vec<char> = Vec::new();
    let n = s.len();
    for i in 0..n
        invariant
            n == s@.len(),
            r@ == replaced(s@.take(i as int), from, to@),
    {
        let ghost before = r@;
        let c = s[i];
        if c == from {
            let m = to.len();
            for j in 0..m
                invariant
                    m == to@.len(),
                    r@ == before + to@.take(j as int),
            {
                r.push(to[j]);
                assert(r@ =~= before + to@.take(j + 1));
            }
            assert(to@.take(m as int) =~= to@);
        } else {
            r.push(c);
        }
        assert(s@.take(i + 1).drop_last() =~= s@.take(i as int));
        assert(r@ =~= replaced(s@.take(i + 1), from, to@));
    }
    assert(s@.take(n as int) =~= s@);
    r
}

/// An ASCII decimal digit, the only digits that `str::parse` accepts.
pub open spec fn is_ascii_digit(c: char) -> bool {
    '0' <= c && c <= '9'
}

/// The value of a string of ASCII digits read in base ten.
pub open spec fn digits_value(d: Seq<char>) -> int
    decreases d.len(),
{
    if d.len() == 0 {
        0
    } else {
        digits_value(d.drop_last()) * 10 + (d.last() as int - 48)
    }
}


/// Replacing in a concatenation is replacing in each part.
pub proof fn lemma_replaced_concat(a: Seq<char>, b: Seq<char>, from: char, to: Seq<char>)
    ensures
        replaced(a + b, from, to) == replaced(a, from, to) + replaced(b, from, to),
    decreases b.len(),
{
    if b.len() == 0 {
        assert(a + b =~= a);
        assert(replaced(b, from, to) =~= Seq::<char>::empty());
    } else {
        assert((a + b).drop_last() =~= a + b.drop_last());
        assert((a + b).last() == b.last());
        lemma_replaced_concat(a, b.drop_last(), from, to);
    }
}

/// A text without `from` is left as it is.
pub proof fn lemma_replaced_absent(s: Seq<char>, from: char, to: Seq<char>)
    requires
        forall|i: int| 0 <= i < s.len() ==> #[trigger] s[i] != from,
    ensures
        replaced(s, from, to) == s,
    decreases s.len(),
{
    if s.len() > 0 {
        let p = s.drop_last();
        assert forall|i: int| 0 <= i < p.len() implies #[trigger] p[i] != from by {
            assert(p[i] == s[i]);
        }
        lemma_replaced_absent(p, from, to);
        assert(s.last() != from);
        assert(p.push(s.last()) =~= s);
        assert(p + seq![s.last()] =~= s);
    }
}

/// After replacing `from` by a text without it, `from` no longer occurs.
pub proof fn lemma_replaced_removes(s: Seq<char>, from: char, to: Seq<char>)
    requires
        forall|i: int| 0 <= i < to.len() ==> #[trigger] to[i] != from,
    ensures
        forall|i: int|
            0 <= i < replaced(s, from, to).len() ==> #[trigger] replaced(s, from, to)[i] != from,
    decreases s.len(),
{
    if s.len() > 0 {
        lemma_replaced_removes(s.drop_last(), from, to);
        let head = replaced(s.drop_last(), from, to);
        let piece = if s.last() == from {
            to
        } else {
            seq![s.last()]
        };
        assert forall|i: int| 0 <= i < replaced(s, from, to).len() implies #[trigger] replaced(
            s,
            from,
            to,
        )[i] != from by {
            if i < head.len() {
                assert(replaced(s, from, to)[i] == head[i]);
            } else {
                assert(replaced(s, from, to)[i] == piece[i - head.len()]);
            }
        }
    }
}

proof fn lemma_leading_space_facts(s: Seq<char>)
    ensures
        leading_space(s) <= s.len(),
        forall|j: int| 0 <= j < leading_space(s) ==> is_white_space(#[trigger] s[j]),
        leading_space(s) < s.len() ==> !is_white_space(s[leading_space(s) as int]),
    decreases s.len(),
{
    if s.len() > 0 && is_white_space(s[0]) {
        let t = s.drop_first();
        lemma_leading_space_facts(t);
        assert forall|j: int| 0 <= j < leading_space(s) implies is_white_space(#[trigger] s[j]) by {
            if j > 0 {
                assert(s[j] == t[j - 1]);
            }
        }
        if leading_space(s) < s.len() {
            assert(s[leading_space(s) as int] == t[leading_space(t) as int]);
        }
    }
}

proof fn lemma_trailing_space_facts(s: Seq<char>)
    ensures
        trailing_space(s) <= s.len(),
        trailing_space(s) < s.len() ==> !is_white_space(s[s.len() - trailing_space(s) - 1]),
    decreases s.len(),
{
    if s.len() > 0 && is_white_space(s.last()) {
        let t = s.drop_last();
        lemma_trailing_space_facts(t);
        if trailing_space(s) < s.len() {
            assert(s[s.len() - trailing_space(s) - 1] == t[t.len() - trailing_space(t) - 1]);
        }
    }
}

/// A trimmed text is part of the text, and starts and ends with no white
/// space.
pub proof fn lemma_trimmed(s: Seq<char>)
    ensures
        exists|a: int|
            0 <= a && a + trimmed(s).len() <= s.len() && trimmed(s) == #[trigger] s.subrange(
                a,
                a + trimmed(s).len(),
            ),
        trimmed(s).len() > 0 ==> !is_white_space(trimmed(s)[0]),
        trimmed(s).len() > 0 ==> !is_white_space(trimmed(s).last()),
{
    lemma_leading_space_facts(s);
    let a = leading_space(s) as int;
    let rest = s.skip(a);
    lemma_trailing_space_facts(rest);
    let t = trimmed(s);
    assert(t =~= s.subrange(a, a + t.len()));
    if t.len() > 0 {
        assert(t[0] == s[a]);
        assert(t.last() == rest[rest.len() - trailing_space(rest) - 1]);
    }
}

/// A text that has no white space at either end is its own trimming, also
/// when one space is added at its end.
pub proof fn lemma_trimmed_with_space(t: Seq<char>)
    requires
        t.len() > 0,
        !is_white_space(t[0]),
        !is_white_space(t.last()),
    ensures
        trimmed(t + seq![' ']) == t,
{
    let s = t + seq![' '];
    assert(s[0] == t[0]);
    assert(leading_space(s) == 0);
    assert(s.skip(0) =~= s);
    assert(s.drop_last() =~= t);
    assert(trailing_space(t) == 0);
    assert(trailing_space(s) == 1);
    assert(s.take(s.len() - 1) =~= t);
}

/// A number's decimal notation is a non-empty string of ASCII digits whose
/// value is the number.
pub proof fn lemma_decimal(n: nat)
    ensures
        decimal(n).len() > 0,
        forall|i: int| 0 <= i < decimal(n).len() ==> is_ascii_digit(#[trigger] decimal(n)[i]),
        digits_value(decimal(n)) == n,
    decreases n,
{
    if n >= 10 {
        lemma_decimal(n / 10);
        let d = decimal(n);
        assert(d.drop_last() =~= decimal(n / 10));
        assert(digit_char(n % 10) as int == n % 10 + 48);
        assert(d.last() == digit_char(n % 10));
        assert(digits_value(d) == digits_value(decimal(n / 10)) * 10 + (n % 10));
        assert forall|i: int| 0 <= i < d.len() implies is_ascii_digit(#[trigger] d[i]) by {
            if i < d.len() - 1 {
                assert(d[i] == decimal(n / 10)[i]);
            }
        }
    } else {
        assert(decimal(n).drop_last() =~= Seq::<char>::empty());
        assert(digit_char(n) as int == n + 48);
        assert(decimal(n).last() == digit_char(n));
        assert(digits_value(Seq::<char>::empty()) == 0);
    }
}

/// Numbers from 1000 to 9999 have four decimal digits.
pub proof fn lemma_decimal_four_digits(n: nat)
    requires
        1000 <= n <= 9999,
    ensures
        decimal(n).len() == 4,
{
    assert(decimal(n / 1000).len() == 1);
    assert(decimal(n / 100).len() == 2);
    assert(decimal(n / 10).len() == 3);
}


/// Trimming a text with no white space at its ends, followed by any run of
/// white space, gives back the text.
pub proof fn lemma_trimmed_with_trailing_space(t: Seq<char>, gap: Seq<char>)
    requires
        t.len() > 0,
        !is_white_space(t[0]),
        !is_white_space(t.last()),
        forall|i: int| 0 <= i < gap.len() ==> is_white_space(#[trigger] gap[i]),
    ensures
        trimmed(t + gap) == t,
{
    let s = t + gap;
    assert(s[0] == t[0]);
    assert(leading_space(s) == 0);
    assert(s.skip(0) =~= s);
    let k = gap.len() as int;
    assert forall|j: int| s.len() - k <= j < s.len() implies is_white_space(#[trigger] s[j]) by {
        assert(s[j] == gap[j - t.len()]);
    }
    assert(s[s.len() - k - 1] == t.last());
    lemma_trailing_space(s, k);
    assert(s.take(s.len() - k) =~= t);
}

/// A text with no white space at its ends is its own trimming.
pub proof fn lemma_trimmed_unchanged(t: Seq<char>)
    requires
        t.len() > 0,
        !is_white_space(t[0]),
        !is_white_space(t.last()),
    ensures
        trimmed(t) == t,
{
    lemma_trimmed_with_trailing_space(t, Seq::empty());
    assert(t + Seq::<char>::empty() =~= t);
}

} // verus!
