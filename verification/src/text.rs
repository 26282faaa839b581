//! Verified character and string utilities shared by the pipeline.
//!
//! The exec functions here work on `Vec<char>` so that every step of the
//! string handling is visible to the verifier; the boundary to `String`
//! is crossed by `str_to_chars` and by one trusted collector.

use vstd::prelude::*;
use vstd::string::*;

verus! {

/// The 8-character `YYYYMMDD` form of a date string that begins with a
/// `YYYY-MM-DD`-shaped prefix: the characters at offsets 0-3, 5-6 and 8-9.
pub open spec fn normalized_date_spec(s: Seq<char>) -> Seq<char>
    recommends
        s.len() >= 10,
{
    s.subrange(0, 4) + s.subrange(5, 7) + s.subrange(8, 10)
}

/// Normalizes a raw creation-date string to its `YYYYMMDD` form by taking
/// the characters at fixed offsets; a string too short to carry the
/// `YYYY-MM-DD` prefix is rejected rather than sliced out of range.
pub fn normalize_date(s: &str) -> (r: Option<String>)
    ensures
        match r {
            Some(d) => s@.len() >= 10 && d@ == normalized_date_spec(s@),
            None => s@.len() < 10,
        },
{
    let n = s.unicode_len();
    if n < 10 {
        return None;
    }
    let y = s.substring_char(0, 4);
    let m = s.substring_char(5, 7);
    let d = s.substring_char(8, 10);
    let mut out = y.to_owned();
    out.append(m);
    out.append(d);
    Some(out)
}

pub open spec fn is_digit_char(c: char) -> bool {
    48 <= c as u32 && c as u32 <= 57
}

pub open spec fn all_digits(s: Seq<char>) -> bool {
    forall|i: int| 0 <= i < s.len() ==> is_digit_char(#[trigger] s[i])
}

/// Whether every character of the string is a decimal digit.
pub fn check_all_digits(s: &Vec<char>) -> (r: bool)
    ensures
        r == all_digits(s@),
{
    let mut i: usize = 0;
    while i < s.len()
        invariant
            0 <= i <= s@.len(),
            forall|j: int| 0 <= j < i ==> is_digit_char(#[trigger] s@[j]),
        decreases s@.len() - i,
    {
        let c = s[i];
        let u = c as u32;
        if !(48 <= u && u <= 57) {
            return false;
        }
        i += 1;
    }
    true
}

/// The characters of the string, in order.
pub fn str_to_chars(s: &str) -> (r: Vec<char>)
    ensures
        r@ == s@,
{
    let n = s.unicode_len();
    let mut r: Vec<char> = Vec::new();
    let mut i: usize = 0;
    while i < n
        invariant
            0 <= i <= n,
            n == s@.len(),
            r@ == s@.subrange(0, i as int),
        decreases n - i,
    {
        r.push(s.get_char(i));
        i += 1;
        proof {
            assert(r@ =~= s@.subrange(0, i as int));
        }
    }
    proof {
        assert(r@ =~= s@);
    }
    r
}

/// Relies on `String`'s `FromIterator<char>` implementation: collecting
/// characters builds the string of exactly those characters in order.
#[verifier::external_body]
pub(crate) fn string_from_chars(v: &Vec<char>) -> (r: String)
    ensures
        r@ == v@,
{
    v.iter().collect()
}

/// The string with every occurrence of `c` removed.
pub open spec fn remove_char_spec(s: Seq<char>, c: char) -> Seq<char>
    decreases s.len(),
{
    if s.len() == 0 {
        Seq::empty()
    } else if s[0] == c {
        remove_char_spec(s.drop_first(), c)
    } else {
        seq![s[0]] + remove_char_spec(s.drop_first(), c)
    }
}

proof fn lemma_remove_char_snoc(s: Seq<char>, x: char, c: char)
    ensures
        remove_char_spec(s.push(x), c) == if x == c {
            remove_char_spec(s, c)
        } else {
            remove_char_spec(s, c).push(x)
        },
    decreases s.len(),
{
    let t = s.push(x);
    if s.len() == 0 {
        assert(t.drop_first() =~= Seq::<char>::empty());
        if x != c {
            assert(seq![t[0]] + remove_char_spec(t.drop_first(), c) =~= remove_char_spec(
                s,
                c,
            ).push(x));
        }
    } else {
        assert(t.drop_first() =~= s.drop_first().push(x));
        lemma_remove_char_snoc(s.drop_first(), x, c);
        if s[0] != c {
            if x != c {
                assert(seq![s[0]] + remove_char_spec(s.drop_first(), c).push(x)
                    =~= (seq![s[0]] + remove_char_spec(s.drop_first(), c)).push(x));
            }
        }
    }
}

/// The string with every occurrence of `c` removed.
pub fn remove_char(s: &Vec<char>, c: char) -> (r: Vec<char>)
    ensures
        r@ == remove_char_spec(s@, c),
{
    let mut r: Vec<char> = Vec::new();
    let mut i: usize = 0;
    while i < s.len()
        invariant
            0 <= i <= s@.len(),
            r@ == remove_char_spec(s@.subrange(0, i as int), c),
        decreases s@.len() - i,
    {
        let x = s[i];
        if x != c {
            r.push(x);
        }
        i += 1;
        proof {
            assert(s@.subrange(0, i as int) =~= s@.subrange(0, i - 1).push(s@[i - 1]));
            lemma_remove_char_snoc(s@.subrange(0, i - 1), s@[i - 1], c);
        }
    }
    proof {
        assert(s@.subrange(0, s@.len() as int) =~= s@);
    }
    r
}

pub open spec fn is_space_char(c: char) -> bool {
    c == ' ' || c == '\t' || c == '\n' || c == '\r' || c == '\u{c}'
}

/// The string without leading whitespace.
pub open spec fn trim_front_spec(s: Seq<char>) -> Seq<char>
    decreases s.len(),
{
    if s.len() > 0 && is_space_char(s[0]) {
        trim_front_spec(s.drop_first())
    } else {
        s
    }
}

/// The string without trailing whitespace.
pub open spec fn trim_back_spec(s: Seq<char>) -> Seq<char>
    decreases s.len(),
{
    if s.len() > 0 && is_space_char(s[s.len() - 1]) {
        trim_back_spec(s.drop_last())
    } else {
        s
    }
}

/// The string without leading and trailing whitespace.
pub open spec fn trim_spec(s: Seq<char>) -> Seq<char> {
    trim_back_spec(trim_front_spec(s))
}

proof fn lemma_trim_front_at(s: Seq<char>, i: int)
    requires
        0 <= i <= s.len(),
        forall|j: int| 0 <= j < i ==> is_space_char(#[trigger] s[j]),
        i == s.len() || !is_space_char(s[i]),
    ensures
        trim_front_spec(s) == s.subrange(i, s.len() as int),
    decreases i,
{
    if i == 0 {
        assert(s.subrange(0, s.len() as int) =~= s);
    } else {
        assert(is_space_char(s[0]));
        let t = s.drop_first();
        assert(t =~= s.subrange(1, s.len() as int));
        lemma_trim_front_at(t, i - 1);
        assert(t.subrange(i - 1, t.len() as int) =~= s.subrange(i, s.len() as int));
    }
}

proof fn lemma_trim_back_at(s: Seq<char>, j: int)
    requires
        0 <= j <= s.len(),
        forall|k: int| j <= k < s.len() ==> is_space_char(#[trigger] s[k]),
        j == 0 || !is_space_char(s[j - 1]),
    ensures
        trim_back_spec(s) == s.subrange(0, j),
    decreases s.len() - j,
{
    if j == s.len() {
        assert(s.subrange(0, s.len() as int) =~= s);
    } else {
        assert(is_space_char(s[s.len() - 1]));
        let t = s.drop_last();
        assert(t =~= s.subrange(0, s.len() - 1));
        lemma_trim_back_at(t, j);
    }
}

/// Whether the character is one of the recognized whitespace characters.
fn is_space(c: char) -> (r: bool)
    ensures
        r == is_space_char(c),
{
    c == ' ' || c == '\t' || c == '\n' || c == '\r' || c == '\u{c}'
}

/// The string without leading and trailing whitespace.
pub fn trim_chars(s: &Vec<char>) -> (r: Vec<char>)
    ensures
        r@ == trim_spec(s@),
{
    let n = s.len();
    let mut i: usize = 0;
    while i < n && is_space(s[i])
        invariant
            0 <= i <= n,
            n == s@.len(),
            forall|j: int| 0 <= j < i ==> is_space_char(#[trigger] s@[j]),
        decreases n - i,
    {
        i += 1;
    }
    let mut j: usize = n;
    while j > i && is_space(s[j - 1])
        invariant
            i <= j <= n,
            n == s@.len(),
            forall|k: int| j <= k < n ==> is_space_char(#[trigger] s@[k]),
        decreases j,
    {
        j -= 1;
    }
    proof {
        lemma_trim_front_at(s@, i as int);
        let f = s@.subrange(i as int, n as int);
        if j == i {
            lemma_trim_back_at(f, 0);
        } else {
            lemma_trim_back_at(f, j - i);
        }
        assert(f.subrange(0, j - i) =~= s@.subrange(i as int, j as int));
    }
    let mut r: Vec<char> = Vec::new();
    let mut k: usize = i;
    while k < j
        invariant
            i <= k <= j <= n,
            n == s@.len(),
            r@ == s@.subrange(i as int, k as int),
        decreases j - k,
    {
        r.push(s[k]);
        k += 1;
        proof {
            assert(r@ =~= s@.subrange(i as int, k as int));
        }
    }
    r
}

/// Whether `pat` occurs in `s` starting at position `i`.
pub open spec fn match_at(s: Seq<char>, pat: Seq<char>, i: int) -> bool {
    0 <= i && i + pat.len() <= s.len() && s.subrange(i, i + pat.len()) == pat
}

/// Whether `pat` occurs somewhere in `s`.
pub open spec fn has_sub(s: Seq<char>, pat: Seq<char>) -> bool {
    exists|i: int| match_at(s, pat, i)
}

/// Whether `pat` occurs in `s` starting at position `i` (executable form).
pub fn check_match_at(s: &Vec<char>, pat: &Vec<char>, i: usize) -> (r: bool)
    requires
        i + pat@.len() <= s@.len(),
    ensures
        r == match_at(s@, pat@, i as int),
{
    let slen = s.len();
    let mut k: usize = 0;
    while k < pat.len()
        invariant
            0 <= k <= pat@.len(),
            i + pat@.len() <= s@.len(),
            slen == s@.len(),
            forall|m: int| 0 <= m < k ==> s@[i + m] == pat@[m],
        decreases pat@.len() - k,
    {
        if s[i + k] != pat[k] {
            proof {
                assert(s@.subrange(i as int, i + pat@.len())[k as int] != pat@[k as int]);
            }
            return false;
        }
        k += 1;
    }
    proof {
        assert(s@.subrange(i as int, i + pat@.len()) =~= pat@);
    }
    true
}

/// Whether `pat` occurs somewhere in `s`.
pub fn contains_sub(s: &Vec<char>, pat: &Vec<char>) -> (r: bool)
    ensures
        r == has_sub(s@, pat@),
{
    if pat.len() == 0 {
        proof {
            assert(s@.subrange(0, 0) =~= pat@);
            assert(match_at(s@, pat@, 0));
        }
        return true;
    }
    if pat.len() > s.len() {
        proof {
            assert(forall|i: int| !match_at(s@, pat@, i));
        }
        return false;
    }
    let last = s.len() - pat.len();
    let mut i: usize = 0;
    while i <= last
        invariant
            0 <= i <= last + 1,
            last == s@.len() - pat@.len(),
            1 <= pat@.len() <= s@.len(),
            s@.len() <= usize::MAX,
            forall|m: int| 0 <= m < i ==> !match_at(s@, pat@, m),
        decreases last + 1 - i,
    {
        if check_match_at(s, pat, i) {
            return true;
        }
        i += 1;
    }
    proof {
        assert(forall|m: int| match_at(s@, pat@, m) ==> 0 <= m <= last);
    }
    false
}

/// The index of the last occurrence of `c` in `s`, or -1 when absent.
pub open spec fn last_pos(s: Seq<char>, c: char) -> int
    decreases s.len(),
{
    if s.len() == 0 {
        -1
    } else if s[s.len() - 1] == c {
        s.len() - 1
    } else {
        last_pos(s.drop_last(), c)
    }
}

pub proof fn lemma_last_pos(s: Seq<char>, c: char)
    ensures
        -1 <= last_pos(s, c) < s.len(),
        last_pos(s, c) >= 0 ==> s[last_pos(s, c)] == c && (forall|k: int|
            last_pos(s, c) < k < s.len() ==> s[k] != c),
        last_pos(s, c) == -1 ==> forall|k: int| 0 <= k < s.len() ==> s[k] != c,
    decreases s.len(),
{
    if s.len() > 0 && s[s.len() - 1] != c {
        lemma_last_pos(s.drop_last(), c);
        assert forall|k: int| 0 <= k < s.len() - 1 implies s.drop_last()[k] == s[k] by {}
    }
}

/// The index of the last occurrence of `c`, when there is one.
pub fn find_last(s: &Vec<char>, c: char) -> (r: Option<usize>)
    ensures
        match r {
            Some(i) => i < s@.len() && last_pos(s@, c) == i as int,
            None => last_pos(s@, c) == -1,
        },
{
    let mut j = s.len();
    proof {
        assert(s@.subrange(0, s@.len() as int) =~= s@);
    }
    while j > 0
        invariant
            0 <= j <= s@.len(),
            last_pos(s@, c) == last_pos(s@.subrange(0, j as int), c),
        decreases j,
    {
        if s[j - 1] == c {
            proof {
                let pre = s@.subrange(0, j as int);
                assert(pre[pre.len() - 1] == s@[j - 1]);
            }
            return Some(j - 1);
        }
        j -= 1;
        proof {
            let pre = s@.subrange(0, j + 1);
            assert(pre[pre.len() - 1] == s@[j as int]);
            assert(pre.drop_last() =~= s@.subrange(0, j as int));
        }
    }
    proof {
        assert(s@.subrange(0, 0) =~= Seq::<char>::empty());
    }
    None
}

/// The characters of `s` from `a` (inclusive) to `b` (exclusive).
pub fn subvec(s: &Vec<char>, a: usize, b: usize) -> (r: Vec<char>)
    requires
        a <= b <= s@.len(),
    ensures
        r@ == s@.subrange(a as int, b as int),
{
    let mut r: Vec<char> = Vec::new();
    let mut k: usize = a;
    while k < b
        invariant
            a <= k <= b <= s@.len(),
            r@ == s@.subrange(a as int, k as int),
        decreases b - k,
    {
        r.push(s[k]);
        k += 1;
        proof {
            assert(r@ =~= s@.subrange(a as int, k as int));
        }
    }
    r
}

/// The decimal digits of `n`, most significant first, no leading zeros.
pub open spec fn dec_spec(n: nat) -> Seq<char>
    decreases n,
{
    if n < 10 {
        seq![digit_char_spec(n)]
    } else {
        dec_spec(n / 10).push(digit_char_spec(n % 10))
    }
}

pub open spec fn digit_char_spec(d: nat) -> char
    recommends
        d < 10,
{
    if d == 0 { '0' } else if d == 1 { '1' } else if d == 2 { '2' }
    else if d == 3 { '3' } else if d == 4 { '4' } else if d == 5 { '5' }
    else if d == 6 { '6' } else if d == 7 { '7' } else if d == 8 { '8' }
    else { '9' }
}

/// The decimal form of `n` zero-padded on the left to at least three
/// digits, as the ordinal part of an asset filename carries it.
pub open spec fn pad3_spec(n: nat) -> Seq<char> {
    if n < 10 {
        seq!['0', '0'] + dec_spec(n)
    } else if n < 100 {
        seq!['0'] + dec_spec(n)
    } else {
        dec_spec(n)
    }
}

fn digit_char(d: usize) -> (c: char)
    requires
        d < 10,
    ensures
        c == digit_char_spec(d as nat),
{
    if d == 0 { '0' } else if d == 1 { '1' } else if d == 2 { '2' }
    else if d == 3 { '3' } else if d == 4 { '4' } else if d == 5 { '5' }
    else if d == 6 { '6' } else if d == 7 { '7' } else if d == 8 { '8' }
    else { '9' }
}

fn dec_digits(n: usize) -> (r: Vec<char>)
    ensures
        r@ == dec_spec(n as nat),
    decreases n,
{
    if n < 10 {
        let mut r: Vec<char> = Vec::new();
        r.push(digit_char(n));
        proof {
            assert(r@ =~= dec_spec(n as nat));
        }
        r
    } else {
        let mut r = dec_digits(n / 10);
        r.push(digit_char(n % 10));
        r
    }
}

/// The decimal form of `n`, zero-padded on the left to at least three digits.
pub fn pad3(n: usize) -> (r: Vec<char>)
    ensures
        r@ == pad3_spec(n as nat),
{
    let mut r: Vec<char> = Vec::new();
    if n < 10 {
        r.push('0');
        r.push('0');
    } else if n < 100 {
        r.push('0');
    }
    let mut d = dec_digits(n);
    r.append(&mut d);
    proof {
        assert(r@ =~= pad3_spec(n as nat));
    }
    r
}

} // verus!
