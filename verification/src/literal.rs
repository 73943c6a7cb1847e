//! Lua string-literal rendering: the quoted forms the synthesizer and the
//! bundler emit, the long-bracket form, and a model of how Lua reads an
//! escaped literal back, against which every rendering is proved exact.

use vstd::prelude::*;
use vstd::string::StringSliceAdditionalSpecFns;
use crate::text::{chars_of, contains_chars, digit_char, occurs_at, occurs_in, push_char, push_chars};

verus! {

// ----- reading a literal back -----

pub open spec fn is_digit(c: char) -> bool {
    '0' <= c && c <= '9'
}

pub open spec fn digit_value(c: char) -> nat {
    (c as u32 - '0' as u32) as nat
}

/// Value of a one-character escape `\c`: the usual C-style letters, the
/// quote characters and the backslash, and in interpolated strings the
/// backtick and the opening brace.
pub open spec fn simple_escape(c: char, interp: bool) -> Option<u32> {
    if c == 'n' {
        Some(10)
    } else if c == 'r' {
        Some(13)
    } else if c == 't' {
        Some(9)
    } else if c == 'a' {
        Some(7)
    } else if c == 'b' {
        Some(8)
    } else if c == 'f' {
        Some(12)
    } else if c == 'v' {
        Some(11)
    } else if c == '\\' {
        Some(92)
    } else if c == '"' {
        Some(34)
    } else if c == '\'' {
        Some(39)
    } else if interp && c == '`' {
        Some(96)
    } else if interp && c == '{' {
        Some(123)
    } else {
        None
    }
}

/// Number of leading decimal digits of `s`, at most three: Lua reads a
/// decimal escape greedily, up to three digits.
pub open spec fn digit_run(s: Seq<char>) -> nat {
    if s.len() > 0 && is_digit(s[0]) {
        if s.len() > 1 && is_digit(s[1]) {
            if s.len() > 2 && is_digit(s[2]) {
                3
            } else {
                2
            }
        } else {
            1
        }
    } else {
        0
    }
}

/// Value of the first `k` (one to three) decimal digits of `s`.
pub open spec fn digits_value(s: Seq<char>, k: nat) -> nat {
    if k == 1 {
        digit_value(s[0])
    } else if k == 2 {
        digit_value(s[0]) * 10 + digit_value(s[1])
    } else {
        digit_value(s[0]) * 100 + digit_value(s[1]) * 10 + digit_value(s[2])
    }
}

/// A character that cannot stand unescaped in the literal body: line
/// breaks always, the closing delimiter, and in interpolated strings the
/// backtick and the brace that opens an expression.
pub open spec fn must_escape(c: char, interp: bool) -> bool {
    c == '\n' || c == '\r' || c == '\\' || (!interp && c == '"') || (interp && (c == '`' || c == '{'))
}

/// The code units (a character's scalar value, or an escaped byte) that Lua
/// reads from the body of a literal, or `None` when the body is malformed.
/// `interp` selects the Luau interpolated-string segment rules; otherwise
/// the body is that of a double-quoted string. Hexadecimal, `\z` and `\u`
/// escapes are outside this model and read as malformed.
pub open spec fn decode_body(s: Seq<char>, interp: bool) -> Option<Seq<u32>>
    decreases s.len(),
{
    if s.len() == 0 {
        Some(Seq::<u32>::empty())
    } else if s[0] == '\\' {
        if s.len() < 2 {
            None
        } else if is_digit(s[1]) {
            let k = digit_run(s.skip(1));
            let v = digits_value(s.skip(1), k);
            if v > 255 {
                None
            } else {
                match decode_body(s.skip(1 + k as int), interp) {
                    Some(rest) => Some(seq![v as u32] + rest),
                    None => None,
                }
            }
        } else {
            match simple_escape(s[1], interp) {
                Some(u) => match decode_body(s.skip(2), interp) {
                    Some(rest) => Some(seq![u] + rest),
                    None => None,
                },
                None => None,
            }
        }
    } else if must_escape(s[0], interp) {
        None
    } else {
        match decode_body(s.skip(1), interp) {
            Some(rest) => Some(seq![s[0] as u32] + rest),
            None => None,
        }
    }
}

/// `e` spells exactly the one code unit `u` in a literal body.
pub open spec fn spells_unit(e: Seq<char>, u: u32, interp: bool) -> bool {
    ||| (e.len() == 1 && !must_escape(e[0], interp) && e[0] as u32 == u)
    ||| (e.len() == 2 && e[0] == '\\' && !is_digit(e[1]) && simple_escape(e[1], interp) == Some(u))
    ||| (e.len() == 4 && e[0] == '\\' && is_digit(e[1]) && is_digit(e[2]) && is_digit(e[3])
        && digits_value(e.skip(1), 3) == u && u <= 255)
}

proof fn lemma_decode_unit(e: Seq<char>, rest: Seq<char>, u: u32, interp: bool)
    requires
        spells_unit(e, u, interp),
    ensures
        decode_body(e + rest, interp) == match decode_body(rest, interp) {
            Some(r) => Some(seq![u] + r),
            None => None::<Seq<u32>>,
        },
{
    let s = e + rest;
    if e.len() == 1 {
        assert(s[0] == e[0]);
        assert(s.skip(1) =~= rest);
    } else if e.len() == 2 {
        assert(s[0] == e[0] && s[1] == e[1]);
        assert(s.skip(2) =~= rest);
    } else {
        assert(s[0] == e[0] && s[1] == e[1]);
        assert(s.skip(1)[0] == e[1] && s.skip(1)[1] == e[2] && s.skip(1)[2] == e[3]);
        assert(digit_run(s.skip(1)) == 3);
        assert(digits_value(s.skip(1), 3) == digits_value(e.skip(1), 3));
        assert(s.skip(4) =~= rest);
    }
}

// ----- rendering -----

/// `\ddd`, always three digits: a shorter escape followed by a literal
/// digit (`\57`) would be read as a different byte.
pub open spec fn decimal_escape(b: u8) -> Seq<char> {
    seq!['\\', digit_char((b / 100) as nat), digit_char(((b / 10) % 10) as nat), digit_char((b % 10) as nat)]
}

proof fn lemma_decimal_escape_spells(b: u8, interp: bool)
    ensures
        spells_unit(decimal_escape(b), b as u32, interp),
{
    let e = decimal_escape(b);
    let d0 = (b / 100) as nat;
    let d1 = ((b / 10) % 10) as nat;
    let d2 = (b % 10) as nat;
    assert(d0 < 10 && d1 < 10 && d2 < 10);
    assert(digit_value(digit_char(d0)) == d0);
    assert(digit_value(digit_char(d1)) == d1);
    assert(digit_value(digit_char(d2)) == d2);
    assert(e.skip(1)[0] == e[1] && e.skip(1)[1] == e[2] && e.skip(1)[2] == e[3]);
    assert(d0 * 100 + d1 * 10 + d2 == b) by (nonlinear_arith)
        requires
            d0 == (b / 100) as nat,
            d1 == ((b / 10) % 10) as nat,
            d2 == (b % 10) as nat,
    ;
}

/// Appends `\ddd` for `byte`.
pub fn push_decimal_escape(raw: &mut String, byte: u8)
    ensures
        final(raw)@ == old(raw)@ + decimal_escape(byte),
{
    push_char(raw, '\\');
    push_char(raw, (48u8 + byte / 100) as char);
    push_char(raw, (48u8 + (byte / 10) % 10) as char);
    push_char(raw, (48u8 + byte % 10) as char);
    proof {
        assert(old(raw)@ + decimal_escape(byte) =~= old(raw)@.push('\\').push(digit_char((byte / 100) as nat)).push(
            digit_char(((byte / 10) % 10) as nat),
        ).push(digit_char((byte % 10) as nat)));
    }
}

/// Concatenation of `f` over `s`, in order.
pub open spec fn render_all<A>(s: Seq<A>, f: spec_fn(A) -> Seq<char>) -> Seq<char>
    decreases s.len(),
{
    if s.len() == 0 {
        Seq::<char>::empty()
    } else {
        render_all(s.drop_last(), f) + f(s.last())
    }
}

proof fn lemma_render_all_front<A>(s: Seq<A>, f: spec_fn(A) -> Seq<char>)
    requires
        s.len() > 0,
    ensures
        render_all(s, f) == f(s[0]) + render_all(s.drop_first(), f),
    decreases s.len(),
{
    if s.len() == 1 {
        assert(s.drop_last() =~= Seq::<A>::empty());
        assert(s.drop_first() =~= Seq::<A>::empty());
    } else {
        lemma_render_all_front(s.drop_last(), f);
        assert(s.drop_last().drop_first() =~= s.drop_first().drop_last());
        assert(s.drop_first().last() == s.last());
        assert(s.drop_last()[0] == s[0]);
    }
}

proof fn lemma_render_all_step<A>(s: Seq<A>, i: int, f: spec_fn(A) -> Seq<char>)
    requires
        0 <= i < s.len(),
    ensures
        render_all(s.take(i + 1), f) == render_all(s.take(i), f) + f(s[i]),
{
    assert(s.take(i + 1).drop_last() =~= s.take(i));
}

/// Decoding a rendering whose every element spells its own code unit gives
/// back those code units.
proof fn lemma_decode_render_all<A>(s: Seq<A>, f: spec_fn(A) -> Seq<char>, unit: spec_fn(A) -> u32, interp: bool)
    requires
        forall|i: int| 0 <= i < s.len() ==> spells_unit(#[trigger] f(s[i]), unit(s[i]), interp),
    ensures
        decode_body(render_all(s, f), interp) == Some(s.map_values(unit)),
    decreases s.len(),
{
    if s.len() == 0 {
        assert(s.map_values(unit) =~= Seq::<u32>::empty());
    } else {
        lemma_render_all_front(s, f);
        let rest = s.drop_first();
        assert forall|i: int| 0 <= i < rest.len() implies spells_unit(#[trigger] f(rest[i]), unit(rest[i]), interp) by {
            assert(rest[i] == s[i + 1]);
        }
        lemma_decode_render_all(rest, f, unit, interp);
        assert(spells_unit(f(s[0]), unit(s[0]), interp));
        lemma_decode_unit(f(s[0]), render_all(rest, f), unit(s[0]), interp);
        assert(seq![unit(s[0])] + rest.map_values(unit) =~= s.map_values(unit));
    }
}

/// One byte of a bundler require string: the four specials escaped,
/// printable ASCII as itself, everything else as a decimal escape.
pub open spec fn render_require_byte(b: u8) -> Seq<char> {
    if b == 34 {
        seq!['\\', '"']
    } else if b == 92 {
        seq!['\\', '\\']
    } else if b == 10 {
        seq!['\\', 'n']
    } else if b == 13 {
        seq!['\\', 'r']
    } else if 0x20 <= b && b <= 0x7e {
        seq![b as char]
    } else {
        decimal_escape(b)
    }
}

/// One byte of a synthesized byte string: as [`render_require_byte`],
/// with tab spelled `\t`.
pub open spec fn render_byte(b: u8) -> Seq<char> {
    if b == 9 {
        seq!['\\', 't']
    } else {
        render_require_byte(b)
    }
}

/// Whether `c` is a C0 control character or DEL.
pub open spec fn is_control(c: char) -> bool {
    (c as u32) <= 0x1f || (c as u32) == 0x7f
}

/// One character of a synthesized UTF-8 string: specials and control
/// characters escaped, everything else (multibyte characters included)
/// as itself.
pub open spec fn render_char(c: char) -> Seq<char> {
    if c == '\\' {
        seq!['\\', '\\']
    } else if c == '"' {
        seq!['\\', '"']
    } else if c == '\n' {
        seq!['\\', 'n']
    } else if c == '\r' {
        seq!['\\', 'r']
    } else if c == '\t' {
        seq!['\\', 't']
    } else if is_control(c) {
        decimal_escape(c as u32 as u8)
    } else {
        seq![c]
    }
}

/// One character of an interpolated-string segment: as [`render_char`],
/// except that the backtick and the opening brace are escaped and the
/// double quote is not.
pub open spec fn render_interp_char(c: char) -> Seq<char> {
    if c == '\\' {
        seq!['\\', '\\']
    } else if c == '`' {
        seq!['\\', '`']
    } else if c == '{' {
        seq!['\\', '{']
    } else if c == '\n' {
        seq!['\\', 'n']
    } else if c == '\r' {
        seq!['\\', 'r']
    } else if c == '\t' {
        seq!['\\', 't']
    } else if is_control(c) {
        decimal_escape(c as u32 as u8)
    } else {
        seq![c]
    }
}

/// The characters of a double-quoted literal with body `body`.
pub open spec fn quoted(body: Seq<char>) -> Seq<char> {
    seq!['"'] + body + seq!['"']
}

/// Body of the [`quote_bytes`] literal for `content`.
pub open spec fn bytes_body(content: Seq<u8>) -> Seq<char> {
    render_all(content, |b: u8| render_byte(b))
}

/// Body of the [`quote_lua_string`] literal for the bytes `value`.
pub open spec fn require_body(value: Seq<u8>) -> Seq<char> {
    render_all(value, |b: u8| render_require_byte(b))
}

/// Body of the [`quote_utf8`] literal for `content`.
pub open spec fn utf8_body(content: Seq<char>) -> Seq<char> {
    render_all(content, |c: char| render_char(c))
}

/// The [`interp_text`] rendering of `text`.
pub open spec fn interp_body(text: Seq<char>) -> Seq<char> {
    render_all(text, |c: char| render_interp_char(c))
}

/// Double-quoted raw form of arbitrary bytes. Everything outside printable
/// ASCII is escaped, so the result is valid UTF-8 regardless of input.
pub fn quote_bytes(content: &[u8]) -> (raw: String)
    ensures
        raw@ == quoted(bytes_body(content@)),
{
    let mut raw = String::new();
    push_char(&mut raw, '"');
    let mut i: usize = 0;
    while i < content.len()
        invariant
            i <= content@.len(),
            raw@ == seq!['"'] + render_all(content@.take(i as int), |b: u8| render_byte(b)),
        decreases content@.len() - i,
    {
        let byte = content[i];
        if byte == 92u8 {
            push_char(&mut raw, '\\');
            push_char(&mut raw, '\\');
        } else if byte == 34u8 {
            push_char(&mut raw, '\\');
            push_char(&mut raw, '"');
        } else if byte == 10u8 {
            push_char(&mut raw, '\\');
            push_char(&mut raw, 'n');
        } else if byte == 13u8 {
            push_char(&mut raw, '\\');
            push_char(&mut raw, 'r');
        } else if byte == 9u8 {
            push_char(&mut raw, '\\');
            push_char(&mut raw, 't');
        } else if 0x20 <= byte && byte <= 0x7e {
            push_char(&mut raw, byte as char);
        } else {
            push_decimal_escape(&mut raw, byte);
        }
        proof {
            lemma_render_all_step(content@, i as int, |b: u8| render_byte(b));
            assert(raw@ =~= seq!['"'] + render_all(content@.take(i + 1), |b: u8| render_byte(b)));
        }
        i += 1;
    }
    push_char(&mut raw, '"');
    proof {
        assert(content@.take(content@.len() as int) =~= content@);
    }
    raw
}

/// A double-quoted Lua string literal that decodes to exactly `value`
/// in every supported version. Non-printable bytes use zero-padded
/// decimal escapes so a following digit can never extend them.
pub fn quote_lua_string(value: &str) -> (quoted_value: String)
    ensures
        quoted_value@ == quoted(require_body(value.spec_bytes())),
{
    let bytes = value.as_bytes();
    let mut quoted_value = String::new();
    push_char(&mut quoted_value, '"');
    let mut i: usize = 0;
    while i < bytes.len()
        invariant
            i <= bytes@.len(),
            bytes@ == value.spec_bytes(),
            quoted_value@ == seq!['"'] + render_all(bytes@.take(i as int), |b: u8| render_require_byte(b)),
        decreases bytes@.len() - i,
    {
        let byte = bytes[i];
        if byte == 34u8 {
            push_char(&mut quoted_value, '\\');
            push_char(&mut quoted_value, '"');
        } else if byte == 92u8 {
            push_char(&mut quoted_value, '\\');
            push_char(&mut quoted_value, '\\');
        } else if byte == 10u8 {
            push_char(&mut quoted_value, '\\');
            push_char(&mut quoted_value, 'n');
        } else if byte == 13u8 {
            push_char(&mut quoted_value, '\\');
            push_char(&mut quoted_value, 'r');
        } else if 0x20 <= byte && byte <= 0x7e {
            push_char(&mut quoted_value, byte as char);
        } else {
            push_decimal_escape(&mut quoted_value, byte);
        }
        proof {
            lemma_render_all_step(bytes@, i as int, |b: u8| render_require_byte(b));
            assert(quoted_value@ =~= seq!['"'] + render_all(bytes@.take(i + 1), |b: u8| render_require_byte(b)));
        }
        i += 1;
    }
    push_char(&mut quoted_value, '"');
    proof {
        assert(bytes@.take(bytes@.len() as int) =~= bytes@);
    }
    quoted_value
}

/// Double-quoted raw form of UTF-8 `content`. Multibyte characters pass
/// through intact; specials and control characters are escaped.
pub fn quote_utf8(content: &str) -> (raw: String)
    ensures
        raw@ == quoted(utf8_body(content@)),
{
    let chars = chars_of(content);
    let mut raw = String::new();
    push_char(&mut raw, '"');
    let mut i: usize = 0;
    while i < chars.len()
        invariant
            i <= chars@.len(),
            chars@ == content@,
            raw@ == seq!['"'] + render_all(chars@.take(i as int), |c: char| render_char(c)),
        decreases chars@.len() - i,
    {
        let ch = chars[i];
        if ch == '\\' {
            push_char(&mut raw, '\\');
            push_char(&mut raw, '\\');
        } else if ch == '"' {
            push_char(&mut raw, '\\');
            push_char(&mut raw, '"');
        } else if ch == '\n' {
            push_char(&mut raw, '\\');
            push_char(&mut raw, 'n');
        } else if ch == '\r' {
            push_char(&mut raw, '\\');
            push_char(&mut raw, 'r');
        } else if ch == '\t' {
            push_char(&mut raw, '\\');
            push_char(&mut raw, 't');
        } else if (ch as u32) <= 0x1f || (ch as u32) == 0x7f {
            push_decimal_escape(&mut raw, (ch as u32) as u8);
        } else {
            push_char(&mut raw, ch);
        }
        proof {
            lemma_render_all_step(chars@, i as int, |c: char| render_char(c));
            assert(raw@ =~= seq!['"'] + render_all(chars@.take(i + 1), |c: char| render_char(c)));
        }
        i += 1;
    }
    push_char(&mut raw, '"');
    proof {
        assert(chars@.take(chars@.len() as int) =~= chars@);
    }
    raw
}

/// Escaped interpolated-string segment text: the lexer stores segment text
/// as written in source (escapes intact), so synthesized text must carry
/// the same escapes.
pub fn interp_text(text: &str) -> (raw: String)
    ensures
        raw@ == interp_body(text@),
{
    let chars = chars_of(text);
    let mut raw = String::new();
    let mut i: usize = 0;
    while i < chars.len()
        invariant
            i <= chars@.len(),
            chars@ == text@,
            raw@ == render_all(chars@.take(i as int), |c: char| render_interp_char(c)),
        decreases chars@.len() - i,
    {
        let ch = chars[i];
        if ch == '\\' {
            push_char(&mut raw, '\\');
            push_char(&mut raw, '\\');
        } else if ch == '`' {
            push_char(&mut raw, '\\');
            push_char(&mut raw, '`');
        } else if ch == '{' {
            push_char(&mut raw, '\\');
            push_char(&mut raw, '{');
        } else if ch == '\n' {
            push_char(&mut raw, '\\');
            push_char(&mut raw, 'n');
        } else if ch == '\r' {
            push_char(&mut raw, '\\');
            push_char(&mut raw, 'r');
        } else if ch == '\t' {
            push_char(&mut raw, '\\');
            push_char(&mut raw, 't');
        } else if (ch as u32) <= 0x1f || (ch as u32) == 0x7f {
            push_decimal_escape(&mut raw, (ch as u32) as u8);
        } else {
            push_char(&mut raw, ch);
        }
        proof {
            lemma_render_all_step(chars@, i as int, |c: char| render_interp_char(c));
            assert(raw@ =~= render_all(chars@.take(i + 1), |c: char| render_interp_char(c)));
        }
        i += 1;
    }
    proof {
        assert(chars@.take(chars@.len() as int) =~= chars@);
    }
    raw
}

// ----- reading renderings back -----

proof fn lemma_render_require_byte_spells(b: u8)
    ensures
        spells_unit(render_require_byte(b), b as u32, false),
{
    if !(b == 34 || b == 92 || b == 10 || b == 13 || (0x20 <= b && b <= 0x7e)) {
        lemma_decimal_escape_spells(b, false);
    }
}

proof fn lemma_render_byte_spells(b: u8)
    ensures
        spells_unit(render_byte(b), b as u32, false),
{
    if b != 9 {
        lemma_render_require_byte_spells(b);
    }
}

proof fn lemma_render_char_spells(c: char)
    ensures
        spells_unit(render_char(c), c as u32, false),
{
    if !(c == '\\' || c == '"' || c == '\n' || c == '\r' || c == '\t') && is_control(c) {
        lemma_decimal_escape_spells(c as u32 as u8, false);
        assert((c as u32 as u8) as u32 == c as u32);
    }
}

proof fn lemma_render_interp_char_spells(c: char)
    ensures
        spells_unit(render_interp_char(c), c as u32, true),
{
    if !(c == '\\' || c == '`' || c == '{' || c == '\n' || c == '\r' || c == '\t') && is_control(c) {
        lemma_decimal_escape_spells(c as u32 as u8, true);
        assert((c as u32 as u8) as u32 == c as u32);
    }
}

/// Lua reads the body of a [`quote_bytes`] literal back as exactly the
/// bytes it was made from.
pub proof fn law_quote_bytes_reads_back(content: Seq<u8>)
    ensures
        decode_body(bytes_body(content), false) == Some(content.map_values(|b: u8| b as u32)),
{
    assert forall|i: int| 0 <= i < content.len() implies spells_unit(
        (|b: u8| render_byte(b))(#[trigger] content[i]),
        (|b: u8| b as u32)(content[i]),
        false,
    ) by {
        lemma_render_byte_spells(content[i]);
    }
    lemma_decode_render_all(content, |b: u8| render_byte(b), |b: u8| b as u32, false);
}

/// Lua reads the body of a [`quote_lua_string`] literal back as exactly the
/// bytes of the quoted value, in every version.
pub proof fn law_quote_lua_string_reads_back(value: Seq<u8>)
    ensures
        decode_body(require_body(value), false) == Some(value.map_values(|b: u8| b as u32)),
{
    assert forall|i: int| 0 <= i < value.len() implies spells_unit(
        (|b: u8| render_require_byte(b))(#[trigger] value[i]),
        (|b: u8| b as u32)(value[i]),
        false,
    ) by {
        lemma_render_require_byte_spells(value[i]);
    }
    lemma_decode_render_all(value, |b: u8| render_require_byte(b), |b: u8| b as u32, false);
}

/// Lua reads the body of a [`quote_utf8`] literal back as exactly the
/// characters it was made from.
pub proof fn law_quote_utf8_reads_back(content: Seq<char>)
    ensures
        decode_body(utf8_body(content), false) == Some(content.map_values(|c: char| c as u32)),
{
    assert forall|i: int| 0 <= i < content.len() implies spells_unit(
        (|c: char| render_char(c))(#[trigger] content[i]),
        (|c: char| c as u32)(content[i]),
        false,
    ) by {
        lemma_render_char_spells(content[i]);
    }
    lemma_decode_render_all(content, |c: char| render_char(c), |c: char| c as u32, false);
}

/// An [`interp_text`] segment reads back, under the interpolated-string
/// rules, as exactly the characters it was made from.
pub proof fn law_interp_text_reads_back(text: Seq<char>)
    ensures
        decode_body(interp_body(text), true) == Some(text.map_values(|c: char| c as u32)),
{
    assert forall|i: int| 0 <= i < text.len() implies spells_unit(
        (|c: char| render_interp_char(c))(#[trigger] text[i]),
        (|c: char| c as u32)(text[i]),
        true,
    ) by {
        lemma_render_interp_char_spells(text[i]);
    }
    lemma_decode_render_all(text, |c: char| render_interp_char(c), |c: char| c as u32, true);
}

pub open spec fn is_printable_ascii(c: char) -> bool {
    0x20 <= (c as u32) && (c as u32) <= 0x7e
}

proof fn lemma_render_all_printable<A>(s: Seq<A>, f: spec_fn(A) -> Seq<char>)
    requires
        forall|i: int, j: int| 0 <= i < s.len() && 0 <= j < f(s[i]).len() ==> is_printable_ascii(#[trigger] f(s[i])[j]),
    ensures
        forall|j: int| 0 <= j < render_all(s, f).len() ==> is_printable_ascii(#[trigger] render_all(s, f)[j]),
    decreases s.len(),
{
    if s.len() > 0 {
        let init = s.drop_last();
        assert forall|i: int, j: int| 0 <= i < init.len() && 0 <= j < f(init[i]).len() implies is_printable_ascii(
            #[trigger] f(init[i])[j],
        ) by {
            assert(init[i] == s[i]);
        }
        lemma_render_all_printable(init, f);
        let whole = render_all(s, f);
        let a = render_all(init, f);
        let b = f(s.last());
        assert forall|j: int| 0 <= j < whole.len() implies is_printable_ascii(#[trigger] whole[j]) by {
            if j < a.len() {
                assert(whole[j] == a[j]);
            } else {
                assert(whole[j] == b[j - a.len()]);
                assert(is_printable_ascii(f(s[s.len() - 1])[j - a.len()]));
            }
        }
    }
}

proof fn lemma_decimal_escape_printable(b: u8)
    ensures
        forall|j: int| 0 <= j < 4 ==> is_printable_ascii(#[trigger] decimal_escape(b)[j]),
{
    assert(b / 100 < 10 && (b / 10) % 10 < 10 && b % 10 < 10);
}

/// Every character of a [`quote_bytes`] body is printable ASCII, whatever
/// the bytes: the literal is valid UTF-8 regardless of input.
pub proof fn law_quote_bytes_printable(content: Seq<u8>)
    ensures
        forall|j: int|
            0 <= j < bytes_body(content).len() ==> is_printable_ascii(#[trigger] bytes_body(content)[j]),
{
    assert forall|i: int, j: int|
        0 <= i < content.len() && 0 <= j < render_byte(content[i]).len() implies is_printable_ascii(
        #[trigger] render_byte(content[i])[j],
    ) by {
        lemma_decimal_escape_printable(content[i]);
    }
    lemma_render_all_printable(content, |b: u8| render_byte(b));
}

/// Every character of a [`quote_lua_string`] body is printable ASCII.
pub proof fn law_quote_lua_string_printable(value: Seq<u8>)
    ensures
        forall|j: int|
            0 <= j < require_body(value).len() ==> is_printable_ascii(#[trigger] require_body(value)[j]),
{
    assert forall|i: int, j: int|
        0 <= i < value.len() && 0 <= j < render_require_byte(value[i]).len() implies is_printable_ascii(
        #[trigger] render_require_byte(value[i])[j],
    ) by {
        lemma_decimal_escape_printable(value[i]);
    }
    lemma_render_all_printable(value, |b: u8| render_require_byte(b));
}

// ----- long brackets -----

/// `level` equals signs.
pub open spec fn equals_run(level: nat) -> Seq<char> {
    Seq::new(level, |_i: int| '=')
}

/// The closing long bracket of level `level`: `]`, the equals signs, `]`.
pub open spec fn closer(level: nat) -> Seq<char> {
    seq![']'] + equals_run(level) + seq![']']
}

/// Whether `content` placed in a level-`level` long bracket would end it
/// early: it holds the closer, or (at level 0) a trailing `]` would merge
/// with the closer one character early.
pub open spec fn closes_early(content: Seq<char>, level: nat) -> bool {
    occurs_in(content, closer(level)) || (level == 0 && content.len() > 0 && content.last() == ']')
}

/// The long-bracket literal of level `level` around `content`. Lua drops a
/// newline directly after the opening bracket, so a leading newline of the
/// content is doubled.
pub open spec fn long_bracket(content: Seq<char>, level: nat) -> Seq<char> {
    seq!['['] + equals_run(level) + seq!['['] + (if content.len() > 0 && content[0] == '\n' {
        seq!['\n']
    } else {
        Seq::<char>::empty()
    }) + content + closer(level)
}

fn equals_chars(level: usize) -> (v: Vec<char>)
    ensures
        v@ == equals_run(level as nat),
{
    let mut v: Vec<char> = Vec::new();
    let mut i: usize = 0;
    while i < level
        invariant
            i <= level,
            v@ == equals_run(i as nat),
        decreases level - i,
    {
        v.push('=');
        proof {
            assert(v@ =~= equals_run((i + 1) as nat));
        }
        i += 1;
    }
    v
}

fn closer_chars(level: usize) -> (v: Vec<char>)
    ensures
        v@ == closer(level as nat),
{
    let mut v: Vec<char> = Vec::new();
    v.push(']');
    let mut i: usize = 0;
    while i < level
        invariant
            i <= level,
            v@ == seq![']'] + equals_run(i as nat),
        decreases level - i,
    {
        v.push('=');
        proof {
            assert(v@ =~= seq![']'] + equals_run((i + 1) as nat));
        }
        i += 1;
    }
    v.push(']');
    proof {
        assert(v@ =~= closer(level as nat));
    }
    v
}

fn closes_early_at(chars: &Vec<char>, level: usize) -> (b: bool)
    ensures
        b == closes_early(chars@, level as nat),
{
    let closer = closer_chars(level);
    if contains_chars(chars, &closer) {
        return true;
    }
    level == 0 && chars.len() > 0 && chars[chars.len() - 1] == ']'
}

/// The smallest long-bracket level at which `content` cannot close the
/// bracket early.
pub fn long_bracket_level(content: &Vec<char>) -> (level: usize)
    ensures
        !closes_early(content@, level as nat),
        forall|l: nat| l < level ==> closes_early(content@, l),
{
    let n = content.len();
    let mut level: usize = 0;
    while closes_early_at(content, level)
        invariant
            n == content@.len(),
            level <= content@.len() + 1,
            forall|l: nat| l < level ==> closes_early(content@, l),
        decreases content@.len() + 1 - level,
    {
        proof {
            if level > 0 {
                let i = choose|i: int| occurs_at(content@, closer(level as nat), i);
                assert(closer(level as nat).len() == level + 2);
                assert(level + 2 <= n);
            }
        }
        level += 1;
    }
    level
}

/// `[[...]]` long-bracket text for `content`, at the smallest `=` level
/// whose closer cannot occur early. Long brackets cannot represent `\r`
/// (Lua normalizes line endings inside them); such content belongs in a
/// quoted string.
pub fn long_string_text(content: &str) -> (text: String)
    ensures
        exists|level: nat|
            !closes_early(content@, level) && (forall|l: nat| l < level ==> closes_early(content@, l))
                && text@ == long_bracket(content@, level),
{
    let chars = chars_of(content);
    let level = long_bracket_level(&chars);
    let equals = equals_chars(level);
    let mut text = String::new();
    push_char(&mut text, '[');
    push_chars(&mut text, &equals);
    push_char(&mut text, '[');
    if chars.len() > 0 && chars[0] == '\n' {
        push_char(&mut text, '\n');
    }
    push_chars(&mut text, &chars);
    push_char(&mut text, ']');
    push_chars(&mut text, &equals);
    push_char(&mut text, ']');
    proof {
        assert(text@ =~= long_bracket(content@, level as nat));
    }
    text
}

} // verus!
