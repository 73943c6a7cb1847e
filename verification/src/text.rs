//! Character-level helpers shared by the string-building code: reading a
//! `&str` as characters, appending to a `String`, and decimal rendering.

use vstd::prelude::*;
use vstd::string::StringExecFns;

verus! {

/// The characters of `s`, in order.
pub fn chars_of(s: &str) -> (v: Vec<char>)
    ensures
        v@ == s@,
{
    let mut v: Vec<char> = Vec::new();
    for c in it: s.chars()
        invariant
            v@ == it.seq().take(it.index() as int),
            it.seq() == s@,
    {
        v.push(c);
    }
    v
}

/// Appends one character to `s`.
#[verifier::external_body]
pub(crate) fn push_char(s: &mut String, c: char)
    ensures
        final(s)@ == old(s)@.push(c),
{
    s.push(c);
}

/// Appends `t` to `s`.
pub fn push_str(s: &mut String, t: &str)
    ensures
        final(s)@ == old(s)@ + t@,
{
    s.append(t);
}

/// Appends every character of `t` to `s`.
pub fn push_chars(s: &mut String, t: &Vec<char>)
    ensures
        final(s)@ == old(s)@ + t@,
{
    let mut i: usize = 0;
    while i < t.len()
        invariant
            i <= t@.len(),
            s@ == old(s)@ + t@.take(i as int),
        decreases t@.len() - i,
    {
        push_char(s, t[i]);
        proof {
            assert(t@.take(i + 1) == t@.take(i as int).push(t@[i as int]));
        }
        i += 1;
    }
    proof {
        assert(t@.take(t@.len() as int) == t@);
    }
}

/// Appends `chars[a..b]` to `out`.
pub fn push_char_range(out: &mut String, chars: &Vec<char>, a: usize, b: usize)
    requires
        a <= b <= chars@.len(),
    ensures
        final(out)@ == old(out)@ + chars@.subrange(a as int, b as int),
{
    let mut k: usize = a;
    while k < b
        invariant
            a <= k <= b <= chars@.len(),
            out@ == old(out)@ + chars@.subrange(a as int, k as int),
        decreases b - k,
    {
        push_char(out, chars[k]);
        proof {
            assert(chars@.subrange(a as int, k + 1) =~= chars@.subrange(a as int, k as int).push(chars@[k as int]));
        }
        k += 1;
    }
}

/// The ASCII digit for `d` (which is below ten).
pub open spec fn digit_char(d: nat) -> char {
    ((48 + d) as u32) as char
}

/// Decimal rendering of `n`, most significant digit first, no leading zeros.
pub open spec fn decimal(n: nat) -> Seq<char>
    decreases n,
{
    if n < 10 {
        seq![digit_char(n)]
    } else {
        decimal(n / 10).push(digit_char(n % 10))
    }
}

/// A decimal rendering is a non-empty run of ASCII digits.
pub proof fn lemma_decimal_digits(n: nat)
    ensures
        decimal(n).len() >= 1,
        forall|i: int| 0 <= i < decimal(n).len() ==> '0' <= #[trigger] decimal(n)[i] <= '9',
    decreases n,
{
    if n >= 10 {
        lemma_decimal_digits(n / 10);
    }
}

/// Appends the decimal rendering of `n` to `s`.
pub fn push_decimal(s: &mut String, n: usize)
    ensures
        final(s)@ == old(s)@ + decimal(n as nat),
    decreases n,
{
    if n < 10 {
        push_char(s, ((48 + n) as u8) as char);
    } else {
        push_decimal(s, n / 10);
        push_char(s, ((48 + n % 10) as u8) as char);
    }
}

/// Appends the decimal rendering of a 64-bit `n` to `s`.
pub fn push_decimal_u64(s: &mut String, n: u64)
    ensures
        final(s)@ == old(s)@ + decimal(n as nat),
    decreases n,
{
    if n < 10 {
        push_char(s, ((48 + n) as u8) as char);
    } else {
        push_decimal_u64(s, n / 10);
        push_char(s, ((48 + n % 10) as u8) as char);
    }
}

/// Position of the first `\n` at or after `i`, or the length of `s`.
pub open spec fn next_newline(s: Seq<char>, i: int) -> int
    decreases s.len() - i,
{
    if i < 0 || i >= s.len() {
        s.len() as int
    } else if s[i] == '\n' {
        i
    } else {
        next_newline(s, i + 1)
    }
}

pub proof fn lemma_next_newline(s: Seq<char>, i: int)
    requires
        0 <= i <= s.len(),
    ensures
        i <= next_newline(s, i) <= s.len(),
        next_newline(s, i) < s.len() ==> s[next_newline(s, i)] == '\n',
        forall|k: int| i <= k < next_newline(s, i) ==> s[k] != '\n',
    decreases s.len() - i,
{
    if i < s.len() && s[i] != '\n' {
        lemma_next_newline(s, i + 1);
    }
}

/// The line of `s` starting at `i`, as `str::lines` yields it: up to the
/// next `\n`, less a `\r` right before that `\n`.
pub open spec fn line_at(s: Seq<char>, i: int) -> Seq<char> {
    let e = next_newline(s, i);
    let l = s.subrange(i, e);
    if e < s.len() && l.len() > 0 && l.last() == '\r' {
        l.drop_last()
    } else {
        l
    }
}

pub proof fn lemma_next_newline_at(s: Seq<char>, i: int, e: int)
    requires
        0 <= i <= e <= s.len(),
        forall|k: int| i <= k < e ==> s[k] != '\n',
        e == s.len() || s[e] == '\n',
    ensures
        next_newline(s, i) == e,
    decreases e - i,
{
    if i < e {
        lemma_next_newline_at(s, i + 1, e);
    }
}

/// The lines of `s` from position `i` on, as `str::lines` yields them.
pub open spec fn lines_from(s: Seq<char>, i: int) -> Seq<Seq<char>>
    decreases s.len() + 1 - i,
{
    if i < 0 || i >= s.len() {
        Seq::empty()
    } else {
        proof {
            lemma_next_newline(s, i);
        }
        seq![line_at(s, i)] + lines_from(s, next_newline(s, i) + 1)
    }
}

/// The lines of `s`, as `str::lines` yields them: split at each `\n`, less
/// a `\r` right before it, with no empty line after a final `\n`.
pub fn text_lines(s: &str) -> (lines: Vec<String>)
    ensures
        lines@.map_values(|l: String| l@) == lines_from(s@, 0),
{
    let chars = chars_of(s);
    let n = chars.len();
    let ghost text = s@;
    let mut lines: Vec<String> = Vec::new();
    let mut i: usize = 0;
    proof {
        assert(lines@.map_values(|l: String| l@) + lines_from(text, 0) =~= lines_from(text, 0));
    }
    while i < n
        invariant
            chars@ == text,
            n == text.len(),
            i <= n,
            lines@.map_values(|l: String| l@) + lines_from(text, i as int) == lines_from(text, 0),
        decreases n - i,
    {
        let mut e: usize = i;
        while e < n && chars[e] != '\n'
            invariant
                chars@ == text,
                n == text.len(),
                i <= e <= n,
                forall|k: int| i <= k < e ==> text[k] != '\n',
            decreases n - e,
        {
            e += 1;
        }
        let mut le: usize = e;
        if e < n && e > i && chars[e - 1] == '\r' {
            le = e - 1;
        }
        proof {
            lemma_next_newline_at(text, i as int, e as int);
            assert(line_at(text, i as int) =~= text.subrange(i as int, le as int));
        }
        let mut line = String::new();
        push_char_range(&mut line, &chars, i, le);
        let ghost before = lines@;
        lines.push(line);
        proof {
            assert(lines@.map_values(|l: String| l@) =~= before.map_values(|l: String| l@).push(line@));
            assert(lines_from(text, i as int) =~= seq![line@] + lines_from(text, e + 1));
            assert(lines@.map_values(|l: String| l@) + lines_from(text, e + 1) =~= lines_from(text, 0));
        }
        if e == n {
            i = n;
        } else {
            i = e + 1;
        }
    }
    proof {
        assert(lines@.map_values(|l: String| l@) + lines_from(text, i as int) =~= lines@.map_values(|l: String| l@));
    }
    lines
}

/// `needle` occurs in `hay` starting at position `i`.
pub open spec fn occurs_at(hay: Seq<char>, needle: Seq<char>, i: int) -> bool {
    0 <= i && i + needle.len() <= hay.len() && hay.subrange(i, i + needle.len()) == needle
}

/// `needle` occurs somewhere in `hay`.
pub open spec fn occurs_in(hay: Seq<char>, needle: Seq<char>) -> bool {
    exists|i: int| occurs_at(hay, needle, i)
}

/// Whether `needle` occurs in `hay` at position `i`.
pub fn matches_at(hay: &Vec<char>, needle: &Vec<char>, i: usize) -> (b: bool)
    ensures
        b == occurs_at(hay@, needle@, i as int),
{
    if i > hay.len() || needle.len() > hay.len() - i {
        return false;
    }
    let n = hay.len();
    let mut k: usize = 0;
    while k < needle.len()
        invariant
            n == hay@.len(),
            i + needle@.len() <= hay@.len(),
            k <= needle@.len(),
            forall|j: int| 0 <= j < k ==> hay@[i + j] == needle@[j],
        decreases needle@.len() - k,
    {
        assert(i + k < n);
        if hay[i + k] != needle[k] {
            proof {
                assert(hay@.subrange(i as int, i + needle@.len())[k as int] != needle@[k as int]);
            }
            return false;
        }
        k += 1;
    }
    proof {
        assert(hay@.subrange(i as int, i + needle@.len()) =~= needle@);
    }
    true
}

/// Whether `needle` occurs anywhere in `hay`.
pub fn contains_chars(hay: &Vec<char>, needle: &Vec<char>) -> (b: bool)
    ensures
        b == occurs_in(hay@, needle@),
{
    if needle.len() > hay.len() {
        return false;
    }
    let last = hay.len() - needle.len();
    let mut i: usize = 0;
    while i <= last
        invariant
            last == hay@.len() - needle@.len(),
            i <= last + 1,
            forall|j: int| 0 <= j < i ==> !occurs_at(hay@, needle@, j),
        decreases last + 1 - i,
    {
        if matches_at(hay, needle, i) {
            return true;
        }
        if i == last {
            return false;
        }
        i += 1;
    }
    false
}

} // verus!
