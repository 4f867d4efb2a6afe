//! Verified helpers over `&str` views: equality, substring search, token
//! membership, character search, and decimal conversion for `u64`.

use vstd::prelude::*;
use vstd::string::StrSliceExecFns;
use vstd::string::StringExecFns;

verus! {

/// `needle` occurs in `hay` starting at position `i`.
pub open spec fn matches_at(hay: Seq<char>, needle: Seq<char>, i: int) -> bool {
    0 <= i && i + needle.len() <= hay.len() && hay.subrange(i, i + needle.len() as int) == needle
}

/// `needle` occurs somewhere in `hay`.
pub open spec fn contains_seq(hay: Seq<char>, needle: Seq<char>) -> bool {
    exists|i: int| matches_at(hay, needle, i)
}

/// `s` begins with `prefix`.
pub open spec fn starts_with_seq(s: Seq<char>, prefix: Seq<char>) -> bool {
    matches_at(s, prefix, 0)
}

/// `s` ends with `suffix`.
pub open spec fn ends_with_seq(s: Seq<char>, suffix: Seq<char>) -> bool {
    matches_at(s, suffix, s.len() - suffix.len())
}

pub fn match_at(hay: &str, needle: &str, i: usize) -> (r: bool)
    ensures
        r == matches_at(hay@, needle@, i as int),
{
    let hlen = hay.unicode_len();
    let nlen = needle.unicode_len();
    if i > hlen || nlen > hlen - i {
        return false;
    }
    let mut j: usize = 0;
    while j < nlen
        invariant
            hlen == hay@.len(),
            nlen == needle@.len(),
            i + nlen <= hlen,
            j <= nlen,
            forall|k: int| 0 <= k < j ==> hay@[i + k] == needle@[k],
        decreases nlen - j,
    {
        if hay.get_char(i + j) != needle.get_char(j) {
            proof {
                assert(!matches_at(hay@, needle@, i as int)) by {
                    if matches_at(hay@, needle@, i as int) {
                        assert(hay@.subrange(i as int, i + needle@.len() as int)[j as int]
                            == hay@[i + j]);
                    }
                }
            }
            return false;
        }
        j += 1;
    }
    proof {
        assert(hay@.subrange(i as int, i + needle@.len() as int) =~= needle@);
    }
    true
}

pub fn str_eq(a: &str, b: &str) -> (r: bool)
    ensures
        r == (a@ == b@),
{
    let alen = a.unicode_len();
    let blen = b.unicode_len();
    if alen != blen {
        return false;
    }
    let r = match_at(a, b, 0);
    proof {
        if r {
            assert(a@.subrange(0, a@.len() as int) =~= a@);
        } else {
            assert(a@.subrange(0, b@.len() as int) =~= a@);
        }
    }
    r
}

pub fn str_contains(hay: &str, needle: &str) -> (r: bool)
    ensures
        r == contains_seq(hay@, needle@),
{
    let hlen = hay.unicode_len();
    let nlen = needle.unicode_len();
    if nlen > hlen {
        return false;
    }
    if nlen == 0 {
        proof {
            assert(hay@.subrange(0, 0) =~= needle@);
            assert(matches_at(hay@, needle@, 0));
        }
        return true;
    }
    let mut i: usize = 0;
    while i <= hlen - nlen
        invariant
            hlen == hay@.len(),
            nlen == needle@.len(),
            0 < nlen <= hlen,
            i <= hlen - nlen + 1,
            forall|k: int| 0 <= k < i ==> !matches_at(hay@, needle@, k),
        decreases hlen - nlen + 1 - i,
    {
        if match_at(hay, needle, i) {
            return true;
        }
        i += 1;
    }
    false
}

pub fn str_starts_with(s: &str, prefix: &str) -> (r: bool)
    ensures
        r == starts_with_seq(s@, prefix@),
{
    match_at(s, prefix, 0)
}

pub fn str_ends_with(s: &str, suffix: &str) -> (r: bool)
    ensures
        r == ends_with_seq(s@, suffix@),
{
    let slen = s.unicode_len();
    let flen = suffix.unicode_len();
    if flen > slen {
        return false;
    }
    match_at(s, suffix, slen - flen)
}

/// Index of the first occurrence of `c` in `s` at position `from` or later.
pub open spec fn first_at(s: Seq<char>, c: char, from: int) -> Option<int>
    decreases s.len() - from,
{
    if from < 0 || from >= s.len() {
        None
    } else if s[from] == c {
        Some(from)
    } else {
        first_at(s, c, from + 1)
    }
}

pub fn find_from(s: &str, c: char, from: usize) -> (r: Option<usize>)
    ensures
        match r {
            Some(i) => first_at(s@, c, from as int) == Some(i as int),
            None => first_at(s@, c, from as int) is None,
        },
    decreases s@.len() - from,
{
    let len = s.unicode_len();
    if from >= len {
        return None;
    }
    if s.get_char(from) == c {
        return Some(from);
    }
    find_from(s, c, from + 1)
}

/// What `first_at` returns: the first hit in `[from, s.len())`, or nothing.
pub proof fn lemma_first_at(s: Seq<char>, c: char, from: int)
    requires
        0 <= from,
    ensures
        match first_at(s, c, from) {
            Some(i) => from <= i < s.len() && s[i] == c && (forall|k: int|
                from <= k < i ==> s[k] != c),
            None => forall|k: int| from <= k < s.len() ==> s[k] != c,
        },
    decreases s.len() - from,
{
    if from >= s.len() {
    } else if s[from] == c {
    } else {
        lemma_first_at(s, c, from + 1);
    }
}

/// Index of the first occurrence of `c` within the window `[from, to)`.
pub open spec fn first_in(s: Seq<char>, c: char, from: int, to: int) -> Option<int> {
    match first_at(s, c, from) {
        Some(i) => if i < to {
            Some(i)
        } else {
            None
        },
        None => None,
    }
}

pub fn find_in(s: &str, c: char, from: usize, to: usize) -> (r: Option<usize>)
    requires
        to <= s@.len(),
    ensures
        match r {
            Some(i) => first_in(s@, c, from as int, to as int) == Some(i as int) && from <= i < to,
            None => first_in(s@, c, from as int, to as int) is None,
        },
{
    proof {
        lemma_first_at(s@, c, from as int);
    }
    match find_from(s, c, from) {
        Some(i) => if i < to {
            Some(i)
        } else {
            None
        },
        None => None,
    }
}

/// HTML attribute values are token lists separated by whitespace.
pub open spec fn is_space(c: char) -> bool {
    c == ' ' || c == '\t' || c == '\n' || c == '\r' || c == '\u{c}'
}

fn space_char(c: char) -> (r: bool)
    ensures
        r == is_space(c),
{
    c == ' ' || c == '\t' || c == '\n' || c == '\r' || c == '\u{c}'
}

/// Index of the first whitespace character in `s` at position `from` or
/// later.
pub open spec fn first_space_at(s: Seq<char>, from: int) -> Option<int>
    decreases s.len() - from,
{
    if from < 0 || from >= s.len() {
        None
    } else if is_space(s[from]) {
        Some(from)
    } else {
        first_space_at(s, from + 1)
    }
}

pub fn find_space_from(s: &str, from: usize) -> (r: Option<usize>)
    ensures
        match r {
            Some(i) => first_space_at(s@, from as int) == Some(i as int),
            None => first_space_at(s@, from as int) is None,
        },
    decreases s@.len() - from,
{
    let len = s.unicode_len();
    if from >= len {
        return None;
    }
    if space_char(s.get_char(from)) {
        return Some(from);
    }
    find_space_from(s, from + 1)
}

/// What `first_space_at` returns: the first hit in `[from, s.len())`, or
/// nothing.
pub proof fn lemma_first_space_at(s: Seq<char>, from: int)
    requires
        0 <= from,
    ensures
        match first_space_at(s, from) {
            Some(i) => from <= i < s.len() && is_space(s[i]) && (forall|k: int|
                from <= k < i ==> !is_space(s[k])),
            None => forall|k: int| from <= k < s.len() ==> !is_space(s[k]),
        },
    decreases s.len() - from,
{
    if from >= s.len() {
    } else if is_space(s[from]) {
    } else {
        lemma_first_space_at(s, from + 1);
    }
}

/// Index of the first whitespace character within the window `[from, to)`.
pub open spec fn first_space_in(s: Seq<char>, from: int, to: int) -> Option<int> {
    match first_space_at(s, from) {
        Some(i) => if i < to {
            Some(i)
        } else {
            None
        },
        None => None,
    }
}

pub fn find_space_in(s: &str, from: usize, to: usize) -> (r: Option<usize>)
    requires
        to <= s@.len(),
    ensures
        match r {
            Some(i) => first_space_in(s@, from as int, to as int) == Some(i as int) && from <= i
                < to,
            None => first_space_in(s@, from as int, to as int) is None,
        },
{
    proof {
        lemma_first_space_at(s@, from as int);
    }
    match find_space_from(s, from) {
        Some(i) => if i < to {
            Some(i)
        } else {
            None
        },
        None => None,
    }
}

/// `t` occurs at position `i` of `s` as a whole whitespace-delimited token.
pub open spec fn token_at(s: Seq<char>, t: Seq<char>, i: int) -> bool {
    &&& matches_at(s, t, i)
    &&& (i == 0 || is_space(s[i - 1]))
    &&& (i + t.len() == s.len() || is_space(s[i + t.len()]))
}

/// The whitespace-separated token list of `s` contains the token `t`.
pub open spec fn has_token(s: Seq<char>, t: Seq<char>) -> bool {
    t.len() > 0 && exists|i: int| token_at(s, t, i)
}

pub fn str_has_token(s: &str, t: &str) -> (r: bool)
    requires
        t@.len() > 0,
    ensures
        r == has_token(s@, t@),
{
    let slen = s.unicode_len();
    let tlen = t.unicode_len();
    if tlen > slen {
        return false;
    }
    let mut i: usize = 0;
    while i <= slen - tlen
        invariant
            slen == s@.len(),
            tlen == t@.len(),
            0 < tlen <= slen,
            i <= slen - tlen + 1,
            forall|k: int| 0 <= k < i ==> !token_at(s@, t@, k),
        decreases slen - tlen + 1 - i,
    {
        if match_at(s, t, i) {
            let left_ok = i == 0 || space_char(s.get_char(i - 1));
            let right_ok = i + tlen == slen || space_char(s.get_char(i + tlen));
            if left_ok && right_ok {
                proof {
                    assert(token_at(s@, t@, i as int));
                }
                return true;
            }
        }
        i += 1;
    }
    false
}

/// Value of a digit character; values of ten and more mark non-digits.
pub open spec fn digit_val(c: char) -> nat {
    if c == '0' {
        0
    } else if c == '1' {
        1
    } else if c == '2' {
        2
    } else if c == '3' {
        3
    } else if c == '4' {
        4
    } else if c == '5' {
        5
    } else if c == '6' {
        6
    } else if c == '7' {
        7
    } else if c == '8' {
        8
    } else if c == '9' {
        9
    } else {
        10
    }
}

pub open spec fn is_digit(c: char) -> bool {
    digit_val(c) < 10
}

pub open spec fn all_digits(s: Seq<char>) -> bool {
    forall|k: int| 0 <= k < s.len() ==> is_digit(#[trigger] s[k])
}

/// Numeric value of a digit string, most significant digit first.
pub open spec fn digits_val(s: Seq<char>) -> nat
    decreases s.len(),
{
    if s.len() == 0 {
        0
    } else {
        digits_val(s.drop_last()) * 10 + digit_val(s.last())
    }
}

fn digit_of(c: char) -> (r: Option<u8>)
    ensures
        r is Some ==> is_digit(c) && r->0 as nat == digit_val(c),
        r is None ==> !is_digit(c),
{
    if c == '0' {
        Some(0)
    } else if c == '1' {
        Some(1)
    } else if c == '2' {
        Some(2)
    } else if c == '3' {
        Some(3)
    } else if c == '4' {
        Some(4)
    } else if c == '5' {
        Some(5)
    } else if c == '6' {
        Some(6)
    } else if c == '7' {
        Some(7)
    } else if c == '8' {
        Some(8)
    } else if c == '9' {
        Some(9)
    } else {
        None
    }
}

proof fn lemma_digits_prefix_le(s: Seq<char>, i: int)
    requires
        0 <= i <= s.len(),
    ensures
        digits_val(s.take(i)) <= digits_val(s),
    decreases s.len() - i,
{
    if i == s.len() {
        assert(s.take(i) =~= s);
    } else {
        lemma_digits_prefix_le(s, i + 1);
        assert(s.take(i + 1).drop_last() =~= s.take(i));
        assert(digits_val(s.take(i + 1)) == digits_val(s.take(i)) * 10 + digit_val(
            s.take(i + 1).last(),
        ));
    }
}

/// Parses a string of decimal digits; `None` when the string is empty, holds
/// a non-digit, or names a value above `u64::MAX`.
pub fn parse_u64(s: &str) -> (r: Option<u64>)
    ensures
        r is Some ==> s@.len() > 0 && all_digits(s@) && r->0 as nat == digits_val(s@),
        r is None ==> s@.len() == 0 || !all_digits(s@) || digits_val(s@) > u64::MAX,
{
    let len = s.unicode_len();
    if len == 0 {
        return None;
    }
    let mut acc: u64 = 0;
    let mut i: usize = 0;
    while i < len
        invariant
            len == s@.len(),
            i <= len,
            all_digits(s@.take(i as int)),
            acc as nat == digits_val(s@.take(i as int)),
        decreases len - i,
    {
        let c = s.get_char(i);
        match digit_of(c) {
            None => {
                assert(s@.take(len as int) =~= s@);
                assert(!is_digit(s@[i as int]));
                return None;
            },
            Some(d) => {
                proof {
                    assert(s@.take(i + 1).drop_last() =~= s@.take(i as int));
                    assert(s@.take(i + 1).last() == s@[i as int]);
                }
                if acc > 1844674407370955161u64 || (acc == 1844674407370955161u64 && d > 5) {
                    proof {
                        assert(digits_val(s@.take(i + 1)) > u64::MAX);
                        lemma_digits_prefix_le(s@, i + 1);
                    }
                    return None;
                }
                acc = acc * 10 + (d as u64);
                i += 1;
            },
        }
    }
    proof {
        assert(s@.take(len as int) =~= s@);
    }
    Some(acc)
}

/// A string that may stand as a field of an output line: non-empty and free
/// of semicolons and newlines.
pub open spec fn field_ok(f: Seq<char>) -> bool {
    f.len() > 0 && forall|k: int| 0 <= k < f.len() ==> f[k] != ';' && f[k] != '\n'
}

pub fn check_field(s: &str) -> (r: bool)
    ensures
        r == field_ok(s@),
{
    let len = s.unicode_len();
    if len == 0 {
        return false;
    }
    let mut i: usize = 0;
    while i < len
        invariant
            len == s@.len(),
            i <= len,
            forall|k: int| 0 <= k < i ==> s@[k] != ';' && s@[k] != '\n',
        decreases len - i,
    {
        let c = s.get_char(i);
        if c == ';' || c == '\n' {
            return false;
        }
        i += 1;
    }
    true
}

/// The value of a plain decimal token that fits an unsigned 64-bit integer.
pub open spec fn token_u64(w: Seq<char>) -> Option<u64> {
    if w.len() > 0 && all_digits(w) && digits_val(w) <= u64::MAX {
        Some(digits_val(w) as u64)
    } else {
        None
    }
}

/// Decimal digit string of `n`, without leading zeros (`0` itself excepted).
pub open spec fn dec_digits(n: nat) -> Seq<char>
    decreases n,
{
    if n < 10 {
        seq![dec_digit_char(n)]
    } else {
        dec_digits(n / 10) + seq![dec_digit_char(n % 10)]
    }
}

pub open spec fn dec_digit_char(d: nat) -> char {
    if d == 0 {
        '0'
    } else if d == 1 {
        '1'
    } else if d == 2 {
        '2'
    } else if d == 3 {
        '3'
    } else if d == 4 {
        '4'
    } else if d == 5 {
        '5'
    } else if d == 6 {
        '6'
    } else if d == 7 {
        '7'
    } else if d == 8 {
        '8'
    } else {
        '9'
    }
}

fn append_digit(out: &mut String, d: u64)
    requires
        d < 10,
    ensures
        final(out)@ == old(out)@ + seq![dec_digit_char(d as nat)],
{
    proof {
        reveal_strlit("0");
        reveal_strlit("1");
        reveal_strlit("2");
        reveal_strlit("3");
        reveal_strlit("4");
        reveal_strlit("5");
        reveal_strlit("6");
        reveal_strlit("7");
        reveal_strlit("8");
        reveal_strlit("9");
    }
    if d == 0 {
        out.append("0");
    } else if d == 1 {
        out.append("1");
    } else if d == 2 {
        out.append("2");
    } else if d == 3 {
        out.append("3");
    } else if d == 4 {
        out.append("4");
    } else if d == 5 {
        out.append("5");
    } else if d == 6 {
        out.append("6");
    } else if d == 7 {
        out.append("7");
    } else if d == 8 {
        out.append("8");
    } else {
        out.append("9");
    }
    proof {
        assert(out@ =~= old(out)@ + seq![dec_digit_char(d as nat)]);
    }
}

/// Writes the decimal form of `n` onto the end of `out`.
pub fn append_u64(out: &mut String, n: u64)
    ensures
        final(out)@ == old(out)@ + dec_digits(n as nat),
    decreases n,
{
    if n < 10 {
        append_digit(out, n);
    } else {
        append_u64(out, n / 10);
        append_digit(out, n % 10);
        proof {
            assert(out@ =~= old(out)@ + dec_digits(n as nat));
        }
    }
}

/// Decimal string of `n`.
pub fn u64_to_string(n: u64) -> (r: String)
    ensures
        r@ == dec_digits(n as nat),
{
    let mut out = String::new();
    append_u64(&mut out, n);
    proof {
        assert(out@ =~= dec_digits(n as nat));
    }
    out
}

/// The decimal form of `n` is a non-empty digit string that reads back as `n`.
pub proof fn lemma_dec_digits_value(n: nat)
    ensures
        dec_digits(n).len() > 0,
        all_digits(dec_digits(n)),
        digits_val(dec_digits(n)) == n,
    decreases n,
{
    if n < 10 {
        assert(digit_val(dec_digit_char(n)) == n);
        assert(dec_digits(n) == seq![dec_digit_char(n)]);
        assert(dec_digits(n).last() == dec_digit_char(n));
        assert(dec_digits(n).drop_last() =~= Seq::<char>::empty());
        assert(digits_val(Seq::<char>::empty()) == 0);
        assert(digits_val(dec_digits(n)) == digits_val(dec_digits(n).drop_last()) * 10 + digit_val(
            dec_digits(n).last(),
        ));
    } else {
        lemma_dec_digits_value(n / 10);
        assert(dec_digits(n).drop_last() =~= dec_digits(n / 10));
        assert(dec_digits(n).last() == dec_digit_char(n % 10));
        assert(digit_val(dec_digit_char(n % 10)) == n % 10);
    }
}

} // verus!
