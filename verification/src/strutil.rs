//! Character-level string helpers shared by the parsing and
//! path-building code: conversion between `String` and `Vec<char>`,
//! decimal rendering and parsing, and common character classes.
use vstd::prelude::*;
use vstd::string::*;

verus! {

/// The characters of a string slice, in order.
pub fn chars_of(s: &str) -> (r: Vec<char>)
    ensures
        r@ == s@,
{
    let n = s.unicode_len();
    let mut r: Vec<char> = Vec::new();
    for i in 0..n
        invariant
            n == s@.len(),
            r@ == s@.take(i as int),
    {
        r.push(s.get_char(i));
        assert(r@ =~= s@.take(i + 1));
    }
    assert(s@.take(n as int) =~= s@);
    r
}

/// Builds a `String` from characters. Relies on `String`'s
/// `FromIterator<char>`: collecting chars yields the string of exactly
/// those chars, in order.
#[verifier::external_body]
pub(crate) fn string_of(chars: &Vec<char>) -> (r: String)
    ensures
        r@ == chars@,
{
    chars.iter().collect()
}

/// Appends every character of `src` to `dst`.
pub fn push_chars(dst: &mut Vec<char>, src: &Vec<char>)
    ensures
        final(dst)@ == old(dst)@ + src@,
{
    let n = src.len();
    for i in 0..n
        invariant
            n == src@.len(),
            dst@ == old(dst)@ + src@.take(i as int),
    {
        dst.push(src[i]);
        assert(dst@ =~= old(dst)@ + src@.take(i + 1));
    }
    assert(old(dst)@ + src@.take(n as int) =~= old(dst)@ + src@);
}

/// An ASCII decimal digit.
pub open spec fn is_digit(c: char) -> bool {
    '0' <= c && c <= '9'
}

/// The numeric value of a decimal digit.
pub open spec fn digit_val(c: char) -> int {
    c as int - '0' as int
}

/// The value of a run of decimal digits, most significant first.
pub open spec fn digits_val(s: Seq<char>) -> int
    decreases s.len(),
{
    if s.len() == 0 {
        0
    } else {
        digits_val(s.drop_last()) * 10 + digit_val(s.last())
    }
}

/// All characters of `s` are decimal digits.
pub open spec fn all_digits(s: Seq<char>) -> bool {
    forall|i: int| 0 <= i < s.len() ==> is_digit(#[trigger] s[i])
}

/// The decimal rendering of a non-negative integer, without sign or
/// leading zeros (except for zero itself).
pub open spec fn dec_of(n: int) -> Seq<char>
    decreases n,
{
    if n < 10 {
        seq![dec_digit(n % 10)]
    } else {
        dec_of(n / 10) + seq![dec_digit(n % 10)]
    }
}

/// The digit character for a value in 0..10.
pub open spec fn dec_digit(d: int) -> char {
    seq!['0', '1', '2', '3', '4', '5', '6', '7', '8', '9'][d]
}

/// The digit character for a small value.
pub fn digit_char(d: u64) -> (c: char)
    requires
        d < 10,
    ensures
        c == dec_digit(d as int),
{
    match d {
        0 => '0',
        1 => '1',
        2 => '2',
        3 => '3',
        4 => '4',
        5 => '5',
        6 => '6',
        7 => '7',
        8 => '8',
        _ => '9',
    }
}

/// Appends the decimal rendering of `v` to `out`.
pub fn push_dec(v: u64, out: &mut Vec<char>)
    ensures
        final(out)@ == old(out)@ + dec_of(v as int),
    decreases v,
{
    if v < 10 {
        out.push(digit_char(v));
        assert(final(out)@ =~= old(out)@ + dec_of(v as int));
    } else {
        push_dec(v / 10, out);
        out.push(digit_char(v % 10));
        assert(final(out)@ =~= old(out)@ + dec_of(v as int));
    }
}

/// The decimal rendering of `v` as a string.
pub fn dec_string(v: u64) -> (r: String)
    ensures
        r@ == dec_of(v as int),
{
    let mut out: Vec<char> = Vec::new();
    push_dec(v, &mut out);
    string_of(&out)
}

/// A decimal literal with any leading `+` sign removed.
pub open spec fn sign_stripped(s: Seq<char>) -> Seq<char> {
    if s.len() > 0 && s[0] == '+' {
        s.skip(1)
    } else {
        s
    }
}

/// Whether `s` is a well-formed unsigned decimal literal as `u32`
/// parsing accepts it: an optional leading `+`, then one or more
/// digits, with a value that fits in 32 bits.
pub open spec fn parses_as_u32(s: Seq<char>) -> bool {
    sign_stripped(s).len() > 0 && all_digits(sign_stripped(s)) && digits_val(sign_stripped(s))
        <= u32::MAX
}

/// The value of such a literal.
pub open spec fn u32_val(s: Seq<char>) -> int {
    digits_val(sign_stripped(s))
}

/// Parses an unsigned 32-bit decimal literal, as `str::parse::<u32>`
/// does: an optional `+` sign, then digits; overflow is a failure.
pub fn parse_u32(s: &Vec<char>) -> (r: Option<u32>)
    ensures
        r is Some <==> parses_as_u32(s@),
        r is Some ==> r->0 as int == u32_val(s@),
{
    let ghost orig = s@;
    let mut i: usize = 0;
    if s.len() > 0 && s[0] == '+' {
        i = 1;
    }
    let ghost body = sign_stripped(orig);
    proof {
        assert(orig.skip(0) =~= orig);
    }
    let start = i;
    if i == s.len() {
        return None;
    }
    let mut acc: u64 = 0;
    while i < s.len()
        invariant
            start <= i <= s@.len(),
            start == (if orig.len() > 0 && orig[0] == '+' {
                1int
            } else {
                0int
            }),
            body == orig.skip(start as int),
            body == sign_stripped(orig),
            s@ == orig,
            start < orig.len(),
            all_digits(body.take(i - start)),
            acc == digits_val(body.take(i - start)),
            acc <= u32::MAX,
        decreases s@.len() - i,
    {
        let c = s[i];
        if !('0' <= c && c <= '9') {
            assert(!is_digit(body[i - start]));
            return None;
        }
        let d: u64 = (c as u64) - ('0' as u64);
        acc = acc * 10 + d;
        assert(body.take(i - start + 1).drop_last() =~= body.take(i - start));
        assert(body.take(i - start + 1).last() == body[i - start]);
        proof {
            assert(body[i - start] == c);
            assert forall|j: int| 0 <= j < i - start + 1 implies is_digit(
                #[trigger] body.take(i - start + 1)[j],
            ) by {
                if j < i - start {
                    assert(is_digit(body.take((i - start) as int)[j]));
                }
            }
        }
        proof {
            assert(digit_val(c) == d as int);
            assert(digits_val(body.take(i - start + 1)) == digits_val(body.take(i - start)) * 10
                + digit_val(body[i - start]));
        }
        i = i + 1;
        assert(acc as int == digits_val(body.take(i - start)));
        if acc > u32::MAX as u64 {
            proof {
                lemma_digits_val_grow(body, i - start, u32::MAX as int);
            }
            return None;
        }
    }
    assert(body.take(i - start) =~= body);
    Some(acc as u32)
}

/// If a prefix of a digit run already exceeds a bound, so does every
/// extension of it that is all digits.
pub proof fn lemma_digits_val_grow(s: Seq<char>, i: int, bound: int)
    requires
        0 <= i <= s.len(),
        0 <= bound,
        all_digits(s.take(i)),
        digits_val(s.take(i)) > bound,
    ensures
        all_digits(s) ==> digits_val(s) > bound,
    decreases s.len() - i,
{
    if i < s.len() {
        if all_digits(s) {
            assert(s.take(i + 1).drop_last() =~= s.take(i));
            assert(s.take(i + 1).last() == s[i]);
            assert(digit_val(s[i]) >= 0);
            lemma_digits_val_grow(s, i + 1, bound);
        }
    } else {
        assert(s.take(i) =~= s);
    }
}

/// An ASCII word character: a letter, a digit, or an underscore.
pub open spec fn is_word_char(c: char) -> bool {
    is_digit(c) || ('a' <= c && c <= 'z') || ('A' <= c && c <= 'Z') || c == '_'
}

/// Executable test for a word character.
pub fn word_char(c: char) -> (r: bool)
    ensures
        r == is_word_char(c),
{
    ('0' <= c && c <= '9') || ('a' <= c && c <= 'z') || ('A' <= c && c <= 'Z') || c == '_'
}

/// Joins two path fragments with a forward slash.
pub fn path_join(base: &str, child: &str) -> (r: String)
    ensures
        r@ == base@ + seq!['/'] + child@,
{
    let mut s = base.to_owned();
    s.append("/");
    s.append(child);
    proof {
        reveal_strlit("/");
        assert(s@ =~= base@ + seq!['/'] + child@);
    }
    s
}

/// Index of the first character of `s` that occurs in `seps`, or -1.
pub open spec fn first_sep_idx(s: Seq<char>, seps: Seq<char>) -> int
    decreases s.len(),
{
    if s.len() == 0 {
        -1
    } else if seps.contains(s[0]) {
        0
    } else {
        let r = first_sep_idx(s.drop_first(), seps);
        if r < 0 {
            -1
        } else {
            r + 1
        }
    }
}

/// The first separator index is in range and is indeed the first.
pub proof fn lemma_first_sep_idx(s: Seq<char>, seps: Seq<char>)
    ensures
        first_sep_idx(s, seps) >= 0 ==> first_sep_idx(s, seps) < s.len() && seps.contains(
            s[first_sep_idx(s, seps)],
        ),
        first_sep_idx(s, seps) >= 0 ==> forall|j: int|
            0 <= j < first_sep_idx(s, seps) ==> !seps.contains(#[trigger] s[j]),
        first_sep_idx(s, seps) < 0 ==> forall|j: int|
            0 <= j < s.len() ==> !seps.contains(#[trigger] s[j]),
    decreases s.len(),
{
    if s.len() > 0 && !seps.contains(s[0]) {
        let t = s.drop_first();
        lemma_first_sep_idx(t, seps);
        let r = first_sep_idx(t, seps);
        if r >= 0 {
            assert forall|j: int| 0 <= j < first_sep_idx(s, seps) implies !seps.contains(
                #[trigger] s[j],
            ) by {
                if j > 0 {
                    assert(t[j - 1] == s[j]);
                    assert(!seps.contains(t[j - 1]));
                }
            }
        } else {
            assert forall|j: int| 0 <= j < s.len() implies !seps.contains(#[trigger] s[j]) by {
                if j > 0 {
                    assert(t[j - 1] == s[j]);
                    assert(!seps.contains(t[j - 1]));
                }
            }
        }
    }
}

/// The pieces of `s` between separators, in order. Every separator
/// splits, so consecutive separators yield empty pieces, and the
/// result always has one more piece than there are separators.
pub open spec fn spec_split(s: Seq<char>, seps: Seq<char>) -> Seq<Seq<char>>
    decreases s.len(),
    via spec_split_decreases
{
    let i = first_sep_idx(s, seps);
    if i < 0 {
        seq![s]
    } else {
        seq![s.take(i)] + spec_split(s.skip(i + 1), seps)
    }
}

#[via_fn]
proof fn spec_split_decreases(s: Seq<char>, seps: Seq<char>) {
    lemma_first_sep_idx(s, seps);
}

/// A split never yields an empty list of pieces.
pub proof fn lemma_split_nonempty(s: Seq<char>, seps: Seq<char>)
    ensures
        spec_split(s, seps).len() >= 1,
    decreases s.len(),
{
    let i = first_sep_idx(s, seps);
    if i >= 0 {
        lemma_first_sep_idx(s, seps);
        lemma_split_nonempty(s.skip(i + 1), seps);
    }
}

/// How a split unfolds when one character is put in front.
proof fn lemma_split_cons(s: Seq<char>, seps: Seq<char>)
    requires
        s.len() > 0,
    ensures
        seps.contains(s[0]) ==> spec_split(s, seps) == seq![Seq::<char>::empty()] + spec_split(
            s.drop_first(),
            seps,
        ),
        !seps.contains(s[0]) ==> spec_split(s.drop_first(), seps).len() >= 1 && spec_split(s, seps)
            == seq![seq![s[0]] + spec_split(s.drop_first(), seps)[0]] + spec_split(
            s.drop_first(),
            seps,
        ).drop_first(),
{
    let t = s.drop_first();
    lemma_split_nonempty(t, seps);
    lemma_first_sep_idx(t, seps);
    lemma_first_sep_idx(s, seps);
    if seps.contains(s[0]) {
        assert(first_sep_idx(s, seps) == 0);
        assert(s.take(0) =~= Seq::<char>::empty());
        assert(s.skip(1) =~= t);
        assert(spec_split(s, seps) =~= seq![Seq::<char>::empty()] + spec_split(t, seps));
    } else {
        let j = first_sep_idx(t, seps);
        if j < 0 {
            assert(first_sep_idx(s, seps) < 0);
            assert(seq![s[0]] + t =~= s);
            assert(spec_split(s, seps) =~= seq![seq![s[0]] + spec_split(t, seps)[0]] + spec_split(
                t,
                seps,
            ).drop_first());
        } else {
            assert(first_sep_idx(s, seps) == j + 1);
            assert(s.take(j + 1) =~= seq![s[0]] + t.take(j));
            assert(s.skip(j + 2) =~= t.skip(j + 1));
            assert(spec_split(s, seps) =~= seq![seq![s[0]] + spec_split(t, seps)[0]] + spec_split(
                t,
                seps,
            ).drop_first());
        }
    }
}

/// Whether `c` occurs in `seps`.
pub fn char_in(seps: &Vec<char>, c: char) -> (r: bool)
    ensures
        r == seps@.contains(c),
{
    let n = seps.len();
    for k in 0..n
        invariant
            n == seps@.len(),
            forall|m: int| 0 <= m < k ==> seps@[m] != c,
    {
        if seps[k] == c {
            return true;
        }
    }
    false
}

/// Splits `s` at every occurrence of any character of `seps`.
pub fn split_on(s: &Vec<char>, seps: &Vec<char>) -> (r: Vec<Vec<char>>)
    ensures
        r.deep_view() == spec_split(s@, seps@),
{
    let mut r: Vec<Vec<char>> = Vec::new();
    let mut cur: Vec<char> = Vec::new();
    let n = s.len();
    proof {
        assert(s@.skip(0) =~= s@);
        lemma_split_nonempty(s@, seps@);
    }
    for i in 0..n
        invariant
            n == s@.len(),
            spec_split(s@.skip(i as int), seps@).len() >= 1,
            spec_split(s@, seps@) =~~= r.deep_view() + seq![
                cur@ + spec_split(s@.skip(i as int), seps@)[0],
            ] + spec_split(s@.skip(i as int), seps@).drop_first(),
    {
        let ghost u = s@.skip(i as int);
        let ghost rest = spec_split(s@.skip(i + 1), seps@);
        proof {
            assert(u.len() > 0);
            assert(u.drop_first() =~= s@.skip(i + 1));
            lemma_split_cons(u, seps@);
            lemma_split_nonempty(s@.skip(i + 1), seps@);
        }
        let c = s[i];
        assert(u[0] == c);
        if char_in(seps, c) {
            proof {
                assert(spec_split(u, seps@) == seq![Seq::<char>::empty()] + rest);
            }
            r.push(cur);
            cur = Vec::new();
            proof {
                assert(spec_split(s@, seps@) =~~= r.deep_view() + seq![cur@ + rest[0]]
                    + rest.drop_first());
            }
        } else {
            proof {
                assert(spec_split(u, seps@) == seq![seq![c] + rest[0]] + rest.drop_first());
            }
            cur.push(c);
            proof {
                assert(spec_split(s@, seps@) =~~= r.deep_view() + seq![cur@ + rest[0]]
                    + rest.drop_first());
            }
        }
    }
    proof {
        assert(s@.skip(n as int) =~= Seq::<char>::empty());
        assert(spec_split(Seq::<char>::empty(), seps@) =~~= seq![Seq::<char>::empty()]);
    }
    r.push(cur);
    proof {
        assert(r.deep_view() =~~= spec_split(s@, seps@));
    }
    r
}

/// Whether two string slices hold the same characters.
pub fn str_eq(a: &str, b: &str) -> (r: bool)
    ensures
        r == (a@ == b@),
{
    let av = chars_of(a);
    let bv = chars_of(b);
    if av.len() != bv.len() {
        return false;
    }
    let n = av.len();
    for i in 0..n
        invariant
            n == av@.len() == bv@.len(),
            av@ == a@,
            bv@ == b@,
            forall|j: int| 0 <= j < i ==> av@[j] == bv@[j],
    {
        if av[i] != bv[i] {
            return false;
        }
    }
    proof {
        assert(a@ =~= b@);
    }
    true
}

/// Whether `s` starts with the characters of `prefix`.
pub fn starts_with(s: &str, prefix: &str) -> (r: bool)
    ensures
        r == (prefix@.len() <= s@.len() && s@.take(prefix@.len() as int) == prefix@),
{
    let sv = chars_of(s);
    let pv = chars_of(prefix);
    if pv.len() > sv.len() {
        return false;
    }
    let n = pv.len();
    for i in 0..n
        invariant
            n == pv@.len(),
            pv@.len() <= sv@.len(),
            sv@ == s@,
            pv@ == prefix@,
            forall|j: int| 0 <= j < i ==> sv@[j] == pv@[j],
    {
        if sv[i] != pv[i] {
            return false;
        }
    }
    proof {
        assert(s@.take(prefix@.len() as int) =~= prefix@);
    }
    true
}

} // verus!
