//! Identifier rules shared by every dialect the toolchain targets.

use vstd::prelude::*;
use crate::literal::is_digit;
use crate::text::chars_of;

verus! {

/// ASCII letter or underscore: a character that may start an identifier.
pub open spec fn is_ident_start(c: char) -> bool {
    ('a' <= c && c <= 'z') || ('A' <= c && c <= 'Z') || c == '_'
}

/// A character that may continue an identifier.
pub open spec fn is_ident_char(c: char) -> bool {
    is_ident_start(c) || is_digit(c)
}

/// The 21 words reserved in every supported dialect.
pub open spec fn base_keywords() -> Seq<Seq<char>> {
    seq![
        "and"@,
        "break"@,
        "do"@,
        "else"@,
        "elseif"@,
        "end"@,
        "false"@,
        "for"@,
        "function"@,
        "if"@,
        "in"@,
        "local"@,
        "nil"@,
        "not"@,
        "or"@,
        "repeat"@,
        "return"@,
        "then"@,
        "true"@,
        "until"@,
        "while"@
    ]
}

/// ASCII identifier shape: a letter or underscore, then letters, digits or
/// underscores.
pub open spec fn has_identifier_shape(name: Seq<char>) -> bool {
    &&& name.len() > 0
    &&& is_ident_start(name[0])
    &&& forall|i: int| 1 <= i < name.len() ==> #[trigger] is_ident_char(name[i])
}

pub open spec fn spec_is_valid_identifier(name: Seq<char>) -> bool {
    has_identifier_shape(name) && !base_keywords().contains(name)
}

pub open spec fn spec_is_safe_field_name(name: Seq<char>) -> bool {
    spec_is_valid_identifier(name) && name != "goto"@ && name != "global"@
}

/// Whether the characters `a` spell exactly `word`.
fn chars_eq(a: &Vec<char>, word: &str) -> (b: bool)
    ensures
        b == (a@ == word@),
{
    let w = chars_of(word);
    if a.len() != w.len() {
        return false;
    }
    let mut i: usize = 0;
    while i < a.len()
        invariant
            a@.len() == w@.len(),
            w@ == word@,
            i <= a@.len(),
            forall|j: int| 0 <= j < i ==> a@[j] == w@[j],
        decreases a@.len() - i,
    {
        if a[i] != w[i] {
            return false;
        }
        i += 1;
    }
    proof {
        assert(a@ =~= w@);
    }
    true
}

/// Whether `name` is one of the 21 always-reserved keywords.
pub fn is_base_keyword(name: &str) -> (b: bool)
    ensures
        b == base_keywords().contains(name@),
{
    let chars = chars_of(name);
    let found = chars_eq(&chars, "and")
        || chars_eq(&chars, "break")
        || chars_eq(&chars, "do")
        || chars_eq(&chars, "else")
        || chars_eq(&chars, "elseif")
        || chars_eq(&chars, "end")
        || chars_eq(&chars, "false")
        || chars_eq(&chars, "for")
        || chars_eq(&chars, "function")
        || chars_eq(&chars, "if")
        || chars_eq(&chars, "in")
        || chars_eq(&chars, "local")
        || chars_eq(&chars, "nil")
        || chars_eq(&chars, "not")
        || chars_eq(&chars, "or")
        || chars_eq(&chars, "repeat")
        || chars_eq(&chars, "return")
        || chars_eq(&chars, "then")
        || chars_eq(&chars, "true")
        || chars_eq(&chars, "until")
        || chars_eq(&chars, "while");
    proof {
        let k = base_keywords();
        if found {
            assert(exists|i: int| 0 <= i < k.len() && k[i] == name@) by {
                if chars@ == "and"@ { assert(k[0] == name@); }
                else if chars@ == "break"@ { assert(k[1] == name@); }
                else if chars@ == "do"@ { assert(k[2] == name@); }
                else if chars@ == "else"@ { assert(k[3] == name@); }
                else if chars@ == "elseif"@ { assert(k[4] == name@); }
                else if chars@ == "end"@ { assert(k[5] == name@); }
                else if chars@ == "false"@ { assert(k[6] == name@); }
                else if chars@ == "for"@ { assert(k[7] == name@); }
                else if chars@ == "function"@ { assert(k[8] == name@); }
                else if chars@ == "if"@ { assert(k[9] == name@); }
                else if chars@ == "in"@ { assert(k[10] == name@); }
                else if chars@ == "local"@ { assert(k[11] == name@); }
                else if chars@ == "nil"@ { assert(k[12] == name@); }
                else if chars@ == "not"@ { assert(k[13] == name@); }
                else if chars@ == "or"@ { assert(k[14] == name@); }
                else if chars@ == "repeat"@ { assert(k[15] == name@); }
                else if chars@ == "return"@ { assert(k[16] == name@); }
                else if chars@ == "then"@ { assert(k[17] == name@); }
                else if chars@ == "true"@ { assert(k[18] == name@); }
                else if chars@ == "until"@ { assert(k[19] == name@); }
                else { assert(k[20] == name@); }
            }
        } else {
            assert forall|i: int| 0 <= i < k.len() implies k[i] != name@ by {}
        }
    }
    found
}

/// Whether `name` lexes as an identifier in every supported dialect: ASCII
/// identifier shape and not one of the 21 always-reserved keywords. `goto`,
/// `global`, and the Luau context-sensitive words (`type`, `continue`,
/// `export`) pass; they are identifiers in at least one dialect.
pub fn is_valid_identifier(name: &str) -> (b: bool)
    ensures
        b == spec_is_valid_identifier(name@),
{
    let chars = chars_of(name);
    if chars.len() == 0 {
        return false;
    }
    let first = chars[0];
    if !(('a' <= first && first <= 'z') || ('A' <= first && first <= 'Z') || first == '_') {
        return false;
    }
    let mut i: usize = 1;
    while i < chars.len()
        invariant
            chars@ == name@,
            1 <= i <= chars@.len(),
            forall|j: int| 1 <= j < i ==> #[trigger] is_ident_char(chars@[j]),
        decreases chars@.len() - i,
    {
        let c = chars[i];
        if !(('a' <= c && c <= 'z') || ('A' <= c && c <= 'Z') || c == '_' || ('0' <= c && c <= '9')) {
            proof {
                assert(!is_ident_char(chars@[i as int]));
            }
            return false;
        }
        i += 1;
    }
    !is_base_keyword(name)
}

/// Identifier-shaped and safe as a `.name` field / `name =` key in every
/// dialect: additionally excludes the version-sensitive keywords, where the
/// bracketed form is the only spelling that works everywhere.
pub fn is_safe_field_name(name: &str) -> (b: bool)
    ensures
        b == spec_is_safe_field_name(name@),
{
    if !is_valid_identifier(name) {
        return false;
    }
    let chars = chars_of(name);
    !(chars_eq(&chars, "goto") || chars_eq(&chars, "global"))
}

} // verus!
