//! The command-line grammar of `luck`: a global `--quiet`, one subcommand,
//! and per subcommand its positional arguments and options. Long options
//! are `--name`, `--name value` or `--name=value`; short ones `-c`, `-c
//! value`, `-cvalue` or `-c=value`, and several flags may share one `-`.
//! `--` ends the options. A single-valued option given twice is an error,
//! unless a paired option overrode it in between; a repeatable one
//! collects every value. A value never starts with `-` unless it is `-`.

use vstd::prelude::*;
use crate::cli::MinifyFlags;
use crate::text::{chars_of, push_char, push_char_range, push_str};

verus! {

// ----- what went wrong -----

/// The kind of a command-line error.
#[derive(Debug, Clone, Copy, PartialEq, Eq, Structural)]
pub enum ArgErrorKind {
    /// `--help`, `-h` or `help` asked for the help text.
    HelpRequested,
    /// `--version` or `-V` asked for the version.
    VersionRequested,
    /// No subcommand was given.
    MissingSubcommand,
    /// The subcommand is not one of `luck`'s.
    UnknownSubcommand,
    /// The option is not one of the subcommand's.
    UnknownArgument,
    /// The option takes a value and none follows it.
    MissingValue,
    /// The flag was given a value.
    UnexpectedValue,
    /// The single-valued option was given twice.
    Repeated,
    /// Two options that exclude each other were both given.
    Conflict,
    /// A required positional argument is missing.
    MissingPositional,
    /// A positional argument beyond those the subcommand takes.
    ExtraPositional,
    /// The value does not parse as what the option takes.
    InvalidValue,
}

/// A command-line error and the argument it is about.
#[derive(Debug, Clone, PartialEq, Eq)]
pub struct ArgError {
    pub kind: ArgErrorKind,
    pub arg: String,
}

impl ArgError {
    pub open spec fn model(self) -> (ArgErrorKind, Seq<char>) {
        (self.kind, self.arg@)
    }
}

// ----- numbers -----

/// `c` is an ASCII digit.
pub open spec fn is_digit_char(c: char) -> bool {
    '0' <= c <= '9'
}

/// The value of the decimal digits `s`.
pub open spec fn digits_value(s: Seq<char>) -> nat
    decreases s.len(),
{
    if s.len() == 0 {
        0
    } else {
        digits_value(s.drop_last()) * 10 + ((s.last() as u32) - 48) as nat
    }
}

/// `s` is a non-empty run of digits.
pub open spec fn all_digits(s: Seq<char>) -> bool {
    s.len() > 0 && forall|i: int| 0 <= i < s.len() ==> #[trigger] is_digit_char(s[i])
}

/// `s` as `usize::from_str` reads it: an optional `+`, then digits, with a
/// value that fits.
pub open spec fn parse_usize(s: Seq<char>) -> Option<usize> {
    let digits = if s.len() > 0 && s[0] == '+' {
        s.drop_first()
    } else {
        s
    };
    if all_digits(digits) && digits_value(digits) <= usize::MAX {
        Some(digits_value(digits) as usize)
    } else {
        None
    }
}

/// `s` as a port number: an optional sign, then digits, with a value from 0
/// to 65535 (a minus sign only before a zero).
pub open spec fn parse_port(s: Seq<char>) -> Option<u16> {
    let negative = s.len() > 0 && s[0] == '-';
    let digits = if s.len() > 0 && (s[0] == '+' || s[0] == '-') {
        s.drop_first()
    } else {
        s
    };
    if all_digits(digits) && digits_value(digits) <= 65535 && (!negative || digits_value(digits) == 0) {
        Some(digits_value(digits) as u16)
    } else {
        None
    }
}

/// The value of the digits `chars[from..]`, if they are all digits and
/// the value is at most `limit`.
fn digits_at_most(chars: &Vec<char>, from: usize, limit: usize) -> (value: Option<usize>)
    requires
        from <= chars@.len(),
    ensures
        ({
            let digits = chars@.skip(from as int);
            if all_digits(digits) && digits_value(digits) <= limit {
                value == Some(digits_value(digits) as usize)
            } else {
                value.is_none()
            }
        }),
{
    let ghost digits = chars@.skip(from as int);
    if from == chars.len() {
        return None;
    }
    let mut value: usize = 0;
    let mut i: usize = from;
    while i < chars.len()
        invariant
            from <= i <= chars@.len(),
            digits == chars@.skip(from as int),
            forall|k: int| from <= k < i ==> is_digit_char(#[trigger] chars@[k]),
            value == digits_value(chars@.subrange(from as int, i as int)),
            value <= limit,
        decreases chars@.len() - i,
    {
        let c = chars[i];
        if !('0' <= c && c <= '9') {
            proof {
                assert(digits[i - from] == c);
                assert(!is_digit_char(digits[i - from]));
            }
            return None;
        }
        let d = (c as u32 - 48) as usize;
        proof {
            assert(chars@.subrange(from as int, i + 1).drop_last() =~= chars@.subrange(from as int, i as int));
        }
        if d > limit || value > (limit - d) / 10 {
            proof {
                assert(digits_value(chars@.subrange(from as int, i + 1)) == value * 10 + d);
                assert(value * 10 + d > limit) by (nonlinear_arith)
                    requires
                        d > limit || value > (limit - d) / 10,
                        d <= 9,
                        value >= 0,
                ;
                assert(digits.take(i + 1 - from) =~= chars@.subrange(from as int, i + 1));
                if all_digits(digits) {
                    lemma_digits_value_prefix(digits, (i + 1 - from) as int);
                }
            }
            return None;
        }
        proof {
            assert(value * 10 + d <= limit) by (nonlinear_arith)
                requires
                    d <= limit,
                    value <= (limit - d) / 10,
                    d <= 9,
            ;
        }
        value = value * 10 + d;
        i += 1;
    }
    proof {
        assert(chars@.subrange(from as int, i as int) =~= digits);
    }
    Some(value)
}

proof fn lemma_digits_value_prefix(s: Seq<char>, k: int)
    requires
        0 <= k <= s.len(),
        all_digits(s),
    ensures
        digits_value(s.take(k)) <= digits_value(s),
    decreases s.len() - k,
{
    if k < s.len() {
        lemma_digits_value_prefix(s, k + 1);
        assert(s.take(k + 1).drop_last() =~= s.take(k));
        assert(is_digit_char(s[k]));
    } else {
        assert(s.take(k) =~= s);
    }
}

/// The number `text` names, as `usize::from_str` reads it.
pub fn parse_usize_value(text: &str) -> (value: Option<usize>)
    ensures
        value == parse_usize(text@),
{
    let chars = chars_of(text);
    let from: usize = if chars.len() > 0 && chars[0] == '+' {
        1
    } else {
        0
    };
    proof {
        if from == 1 {
            assert(chars@.skip(1) =~= chars@.drop_first());
        } else {
            assert(chars@.skip(0) =~= chars@);
        }
    }
    digits_at_most(&chars, from, usize::MAX)
}

/// The port number `text` names.
pub fn parse_port_value(text: &str) -> (value: Option<u16>)
    ensures
        value == parse_port(text@),
{
    let chars = chars_of(text);
    let negative = chars.len() > 0 && chars[0] == '-';
    let from: usize = if chars.len() > 0 && (chars[0] == '+' || chars[0] == '-') {
        1
    } else {
        0
    };
    proof {
        if from == 1 {
            assert(chars@.skip(1) =~= chars@.drop_first());
        } else {
            assert(chars@.skip(0) =~= chars@);
        }
    }
    match digits_at_most(&chars, from, 65535) {
        Some(v) => {
            if negative && v != 0 {
                None
            } else {
                Some(v as u16)
            }
        },
        None => None,
    }
}

// ----- scanning a subcommand's arguments -----

/// One option of a subcommand: its long name, its short letter if any,
/// whether it takes a value, whether it may be given more than once, and
/// the option it overrides, whose earlier occurrences it clears.
#[derive(Debug, Clone, Copy)]
pub struct OptDef {
    pub long: &'static str,
    pub short: Option<char>,
    pub takes_value: bool,
    pub repeatable: bool,
    pub overrides: Option<usize>,
}

/// An option as plain values.
#[verifier::ext_equal]
pub struct OptView {
    pub long: Seq<char>,
    pub short: Option<char>,
    pub takes_value: bool,
    pub repeatable: bool,
    pub overrides: Option<usize>,
}

impl OptDef {
    pub open spec fn view_of(self) -> OptView {
        OptView {
            long: self.long@,
            short: self.short,
            takes_value: self.takes_value,
            repeatable: self.repeatable,
            overrides: self.overrides,
        }
    }
}

/// The views of `opts`.
pub open spec fn opt_views(opts: Seq<OptDef>) -> Seq<OptView> {
    opts.map_values(|o: OptDef| o.view_of())
}

/// Where scanning stands: each option occurrence so far as (option,
/// value), the positional arguments, whether `--quiet` was given, whether
/// `--` ended the options, and the option waiting for its value.
#[verifier::ext_equal]
pub struct ScanView {
    pub occurrences: Seq<(usize, Seq<char>)>,
    pub positionals: Seq<Seq<char>>,
    pub quiet: bool,
    pub terminated: bool,
    pub pending: Option<usize>,
}

/// Result of scanning: the state reached, or the error and its argument.
pub type ScanResult = Result<ScanView, (ArgErrorKind, Seq<char>)>;

/// Option `k` occurs among `occ`.
pub open spec fn present(occ: Seq<(usize, Seq<char>)>, k: usize) -> bool {
    exists|i: int| 0 <= i < occ.len() && (#[trigger] occ[i]).0 == k
}

/// `occ` without the occurrences of option `k`.
pub open spec fn without(occ: Seq<(usize, Seq<char>)>, k: usize) -> Seq<(usize, Seq<char>)>
    decreases occ.len(),
{
    if occ.len() == 0 {
        Seq::empty()
    } else if occ.last().0 == k {
        without(occ.drop_last(), k)
    } else {
        without(occ.drop_last(), k).push(occ.last())
    }
}

/// `occ` without the occurrences of option `k` holds none of them, and
/// keeps every occurrence of any other option.
proof fn lemma_without(occ: Seq<(usize, Seq<char>)>, k: usize, j: usize)
    ensures
        !present(without(occ, k), k),
        j != k ==> (present(without(occ, k), j) <==> present(occ, j)),
    decreases occ.len(),
{
    if occ.len() > 0 {
        let init = occ.drop_last();
        lemma_without(init, k, j);
        let rest = without(init, k);
        if occ.last().0 == k {
            if j != k && present(occ, j) {
                let i = choose|i: int| 0 <= i < occ.len() && (#[trigger] occ[i]).0 == j;
                assert(init[i] == occ[i]);
            }
        } else {
            let out = rest.push(occ.last());
            if present(out, k) {
                let i = choose|i: int| 0 <= i < out.len() && (#[trigger] out[i]).0 == k;
                assert(rest[i] == out[i]);
            }
            if j != k {
                if present(out, j) {
                    let i = choose|i: int| 0 <= i < out.len() && (#[trigger] out[i]).0 == j;
                    if i < rest.len() {
                        assert(rest[i] == out[i]);
                        let i2 = choose|i2: int| 0 <= i2 < init.len() && (#[trigger] init[i2]).0 == j;
                        assert(occ[i2] == init[i2]);
                    } else {
                        assert(occ[occ.len() - 1] == out[i]);
                    }
                }
                if present(occ, j) {
                    let i = choose|i: int| 0 <= i < occ.len() && (#[trigger] occ[i]).0 == j;
                    if i < init.len() {
                        assert(init[i] == occ[i]);
                        let i2 = choose|i2: int| 0 <= i2 < rest.len() && (#[trigger] rest[i2]).0 == j;
                        assert(out[i2] == rest[i2]);
                    } else {
                        assert(out[out.len() - 1] == occ[i]);
                    }
                }
            }
        }
    }
}

/// The option given last wins over the one it overrides: recording option
/// `k` clears every earlier occurrence of the option `p` it overrides and
/// leaves every other option as it was, so of two options that override
/// each other (such as `--fold-constants` and `--no-fold-constants`) only
/// the one given last stays set.
pub proof fn law_last_override_wins(opts: Seq<OptView>, st: ScanView, k: usize, v: Seq<char>, p: usize, other: usize)
    requires
        k < opts.len(),
        opts[k as int].overrides == Some(p),
        p != k,
        set_value(opts, st, k, v) is Ok,
    ensures
        set_value(opts, st, k, v) matches Ok(next) && {
            &&& present(next.occurrences, k)
            &&& !present(next.occurrences, p)
            &&& other != k && other != p ==> (present(next.occurrences, other) <==> present(st.occurrences, other))
        },
{
    lemma_without(st.occurrences, p, k);
    lemma_without(st.occurrences, p, other);
    let kept = without(st.occurrences, p);
    let occ = kept.push((k, v));
    assert(occ[occ.len() - 1].0 == k);
    if present(occ, p) {
        let i = choose|i: int| 0 <= i < occ.len() && (#[trigger] occ[i]).0 == p;
        assert(kept[i] == occ[i]);
    }
    if other != k && other != p {
        if present(occ, other) {
            let i = choose|i: int| 0 <= i < occ.len() && (#[trigger] occ[i]).0 == other;
            assert(kept[i] == occ[i]);
        }
        if present(kept, other) {
            let i = choose|i: int| 0 <= i < kept.len() && (#[trigger] kept[i]).0 == other;
            assert(occ[i] == kept[i]);
        }
    }
}

/// The values given to option `k`, in order.
pub open spec fn values_of(occ: Seq<(usize, Seq<char>)>, k: usize) -> Seq<Seq<char>>
    decreases occ.len(),
{
    if occ.len() == 0 {
        Seq::empty()
    } else if occ.last().0 == k {
        values_of(occ.drop_last(), k).push(occ.last().1)
    } else {
        values_of(occ.drop_last(), k)
    }
}

/// How option `o` is named in errors.
pub open spec fn display_long(o: OptView) -> Seq<char> {
    "--"@ + o.long
}

/// Records value `v` for option `k`.
pub open spec fn set_value(opts: Seq<OptView>, st: ScanView, k: usize, v: Seq<char>) -> ScanResult {
    if present(st.occurrences, k) && !opts[k as int].repeatable {
        Err((ArgErrorKind::Repeated, display_long(opts[k as int])))
    } else {
        let kept = match opts[k as int].overrides {
            Some(p) => without(st.occurrences, p),
            None => st.occurrences,
        };
        Ok(ScanView { occurrences: kept.push((k, v)), ..st })
    }
}

/// The first option named `name`.
pub open spec fn find_long(opts: Seq<OptView>, name: Seq<char>, i: int) -> Option<usize>
    decreases opts.len() - i,
{
    if i < 0 || i >= opts.len() {
        None
    } else if opts[i].long == name {
        Some(i as usize)
    } else {
        find_long(opts, name, i + 1)
    }
}

/// The first option with short letter `c`.
pub open spec fn find_short(opts: Seq<OptView>, c: char, i: int) -> Option<usize>
    decreases opts.len() - i,
{
    if i < 0 || i >= opts.len() {
        None
    } else if opts[i].short == Some(c) {
        Some(i as usize)
    } else {
        find_short(opts, c, i + 1)
    }
}

/// Position of the first `=` in `s` from `i` on.
pub open spec fn find_eq(s: Seq<char>, i: int) -> Option<int>
    decreases s.len() - i,
{
    if i < 0 || i >= s.len() {
        None
    } else if s[i] == '=' {
        Some(i)
    } else {
        find_eq(s, i + 1)
    }
}

/// The long option token `--body`: `body` is a name, or a name, `=` and
/// a value.
pub open spec fn long_option(opts: Seq<OptView>, st: ScanView, body: Seq<char>) -> ScanResult {
    let (name, value) = match find_eq(body, 0) {
        Some(e) => (body.take(e), Some(body.skip(e + 1))),
        None => (body, None),
    };
    if name == "quiet"@ {
        if value.is_some() {
            Err((ArgErrorKind::UnexpectedValue, "--quiet"@))
        } else if st.quiet {
            Err((ArgErrorKind::Repeated, "--quiet"@))
        } else {
            Ok(ScanView { quiet: true, ..st })
        }
    } else if name == "help"@ {
        Err((ArgErrorKind::HelpRequested, "--help"@))
    } else {
        match find_long(opts, name, 0) {
            None => Err((ArgErrorKind::UnknownArgument, "--"@ + body)),
            Some(k) => if !opts[k as int].takes_value {
                if value.is_some() {
                    Err((ArgErrorKind::UnexpectedValue, display_long(opts[k as int])))
                } else {
                    set_value(opts, st, k, "true"@)
                }
            } else {
                match value {
                    Some(v) => set_value(opts, st, k, v),
                    None => Ok(ScanView { pending: Some(k), ..st }),
                }
            },
        }
    }
}

/// The short options of token `t` from its letter at `j` on.
pub open spec fn short_options(opts: Seq<OptView>, st: ScanView, t: Seq<char>, j: int) -> ScanResult
    decreases t.len() - j,
{
    if j < 1 || j >= t.len() {
        Ok(st)
    } else if t[j] == 'h' {
        Err((ArgErrorKind::HelpRequested, "-h"@))
    } else {
        match find_short(opts, t[j], 0) {
            None => Err((ArgErrorKind::UnknownArgument, seq!['-', t[j]])),
            Some(k) => if !opts[k as int].takes_value {
                match set_value(opts, st, k, "true"@) {
                    Ok(next) => short_options(opts, next, t, j + 1),
                    Err(e) => Err(e),
                }
            } else {
                let rest = t.skip(j + 1);
                if rest.len() > 0 && rest[0] == '=' {
                    set_value(opts, st, k, rest.skip(1))
                } else if rest.len() > 0 {
                    set_value(opts, st, k, rest)
                } else {
                    Ok(ScanView { pending: Some(k), ..st })
                }
            },
        }
    }
}

/// `t` looks like an option: it starts with `-` and is not just `-`.
pub open spec fn looks_like_option(t: Seq<char>) -> bool {
    t.len() > 1 && t[0] == '-'
}

/// One argument token.
pub open spec fn scan_step(opts: Seq<OptView>, st: ScanView, t: Seq<char>) -> ScanResult {
    match st.pending {
        Some(k) => if looks_like_option(t) {
            Err((ArgErrorKind::MissingValue, display_long(opts[k as int])))
        } else {
            set_value(opts, ScanView { pending: None, ..st }, k, t)
        },
        None => if st.terminated {
            Ok(ScanView { positionals: st.positionals.push(t), ..st })
        } else if t == "--"@ {
            Ok(ScanView { terminated: true, ..st })
        } else if t.len() >= 2 && t[0] == '-' && t[1] == '-' {
            long_option(opts, st, t.skip(2))
        } else if looks_like_option(t) {
            short_options(opts, st, t, 1)
        } else {
            Ok(ScanView { positionals: st.positionals.push(t), ..st })
        },
    }
}

/// The arguments `toks`, one after another, ending with no value pending.
pub open spec fn scan_all(opts: Seq<OptView>, st: ScanView, toks: Seq<Seq<char>>) -> ScanResult
    decreases toks.len(),
{
    if toks.len() == 0 {
        match st.pending {
            Some(k) => Err((ArgErrorKind::MissingValue, display_long(opts[k as int]))),
            None => Ok(st),
        }
    } else {
        match scan_step(opts, st, toks[0]) {
            Ok(next) => scan_all(opts, next, toks.drop_first()),
            Err(e) => Err(e),
        }
    }
}

/// The scan as it runs.
pub struct Scan {
    pub occurrences: Vec<(usize, String)>,
    pub positionals: Vec<String>,
    pub quiet: bool,
    pub terminated: bool,
    pub pending: Option<usize>,
}

/// The occurrences `occ` as plain values.
pub open spec fn occurrence_views(occ: Seq<(usize, String)>) -> Seq<(usize, Seq<char>)> {
    occ.map_values(|o: (usize, String)| (o.0, o.1@))
}

/// The texts of `strings`.
pub open spec fn string_views(strings: Seq<String>) -> Seq<Seq<char>> {
    strings.map_values(|s: String| s@)
}

impl Scan {
    pub open spec fn view_of(self) -> ScanView {
        ScanView {
            occurrences: occurrence_views(self.occurrences@),
            positionals: string_views(self.positionals@),
            quiet: self.quiet,
            terminated: self.terminated,
            pending: self.pending,
        }
    }
}

/// `r` as plain values.
pub open spec fn scan_result_view(r: Result<Scan, ArgError>) -> ScanResult {
    match r {
        Ok(scan) => Ok(scan.view_of()),
        Err(e) => Err(e.model()),
    }
}

/// An error about `arg`.
fn arg_error(kind: ArgErrorKind, arg: String) -> (e: ArgError)
    ensures
        e.model() == (kind, arg@),
{
    ArgError { kind, arg }
}

/// `--` followed by `name`.
fn dashed(name: &str) -> (text: String)
    ensures
        text@ == "--"@ + name@,
{
    let mut text = String::new();
    push_str(&mut text, "--");
    push_str(&mut text, name);
    text
}

/// Records value `v` for option `k`.
fn record(opts: &Vec<OptDef>, scan: Scan, k: usize, v: String) -> (r: Result<Scan, ArgError>)
    requires
        k < opts@.len(),
    ensures
        scan_result_view(r) == set_value(opt_views(opts@), scan.view_of(), k, v@),
        r matches Ok(next) ==> next.pending == scan.pending,
{
    let ghost views = opt_views(opts@);
    let mut found = false;
    let mut i: usize = 0;
    while i < scan.occurrences.len() && !found
        invariant
            i <= scan.occurrences@.len(),
            found ==> present(occurrence_views(scan.occurrences@), k),
            !found ==> forall|j: int| 0 <= j < i ==> (#[trigger] scan.occurrences@[j]).0 != k,
        decreases scan.occurrences@.len() - i, if found { 0int } else { 1int },
    {
        if scan.occurrences[i].0 == k {
            found = true;
            proof {
                assert(occurrence_views(scan.occurrences@)[i as int].0 == k);
            }
        } else {
            i += 1;
        }
    }
    proof {
        if !found {
            assert forall|j: int| 0 <= j < occurrence_views(scan.occurrences@).len() implies (#[trigger] occurrence_views(
                scan.occurrences@,
            )[j]).0 != k by {
                assert(scan.occurrences@[j].0 != k);
            }
        }
    }
    if found && !opts[k].repeatable {
        return Err(arg_error(ArgErrorKind::Repeated, dashed(opts[k].long)));
    }
    let Scan { occurrences, positionals, quiet, terminated, pending } = scan;
    let ghost old_occ = occurrence_views(occurrences@);
    let mut kept: Vec<(usize, String)> = Vec::new();
    match opts[k].overrides {
        Some(p) => {
            let mut j: usize = 0;
            while j < occurrences.len()
                invariant
                    j <= occurrences@.len(),
                    old_occ == occurrence_views(occurrences@),
                    occurrence_views(kept@) == without(old_occ.take(j as int), p),
                decreases occurrences@.len() - j,
            {
                proof {
                    assert(old_occ.take(j + 1).drop_last() =~= old_occ.take(j as int));
                }
                if occurrences[j].0 != p {
                    let ghost before = kept@;
                    kept.push((occurrences[j].0, occurrences[j].1.clone()));
                    proof {
                        assert(occurrence_views(kept@) =~= occurrence_views(before).push(old_occ[j as int]));
                    }
                }
                j += 1;
            }
            proof {
                assert(old_occ.take(j as int) =~= old_occ);
            }
        },
        None => {
            kept = occurrences;
        },
    }
    let ghost kept_view = occurrence_views(kept@);
    kept.push((k, v));
    proof {
        assert(occurrence_views(kept@) =~= kept_view.push((k, v@)));
    }
    Ok(Scan { occurrences: kept, positionals, quiet, terminated, pending })
}

/// Whether the characters `a` spell `word`.
fn spells(a: &Vec<char>, word: &str) -> (b: bool)
    ensures
        b == (a@ == word@),
{
    let w = chars_of(word);
    if a.len() != w.len() {
        return false;
    }
    let mut i: usize = 0;
    while i < a.len()
        invariant
            a@.len() == w@.len(),
            w@ == word@,
            i <= a@.len(),
            forall|j: int| 0 <= j < i ==> a@[j] == w@[j],
        decreases a@.len() - i,
    {
        if a[i] != w[i] {
            return false;
        }
        i += 1;
    }
    proof {
        assert(a@ =~= w@);
    }
    true
}

/// The first option named `name`.
fn lookup_long(opts: &Vec<OptDef>, name: &Vec<char>) -> (k: Option<usize>)
    ensures
        k == find_long(opt_views(opts@), name@, 0),
{
    let ghost views = opt_views(opts@);
    let mut i: usize = 0;
    while i < opts.len()
        invariant
            views == opt_views(opts@),
            i <= opts@.len(),
            find_long(views, name@, 0) == find_long(views, name@, i as int),
        decreases opts@.len() - i,
    {
        if spells(name, opts[i].long) {
            return Some(i);
        }
        i += 1;
    }
    None
}

/// The first option with short letter `c`.
fn lookup_short(opts: &Vec<OptDef>, c: char) -> (k: Option<usize>)
    ensures
        k == find_short(opt_views(opts@), c, 0),
{
    let ghost views = opt_views(opts@);
    let mut i: usize = 0;
    while i < opts.len()
        invariant
            views == opt_views(opts@),
            i <= opts@.len(),
            find_short(views, c, 0) == find_short(views, c, i as int),
        decreases opts@.len() - i,
    {
        if opts[i].short == Some(c) {
            return Some(i);
        }
        i += 1;
    }
    None
}

/// The characters `chars[a..b]` as a `String`.
fn text_of(chars: &Vec<char>, a: usize, b: usize) -> (text: String)
    requires
        a <= b <= chars@.len(),
    ensures
        text@ == chars@.subrange(a as int, b as int),
{
    let mut text = String::new();
    push_char_range(&mut text, chars, a, b);
    proof {
        assert(text@ =~= chars@.subrange(a as int, b as int));
    }
    text
}

/// Handles the long option token `t`, which starts with `--`.
fn scan_long(opts: &Vec<OptDef>, scan: Scan, t: &Vec<char>) -> (r: Result<Scan, ArgError>)
    requires
        t@.len() >= 2,
        scan.pending.is_none(),
    ensures
        scan_result_view(r) == long_option(opt_views(opts@), scan.view_of(), t@.skip(2)),
        r matches Ok(next) ==> (next.pending matches Some(k) ==> k < opts@.len()),
{
    let ghost body = t@.skip(2);
    let ghost views = opt_views(opts@);
    let count = opts.len();
    let mut e: usize = 2;
    while e < t.len() && t[e] != '='
        invariant
            2 <= e <= t@.len(),
            body == t@.skip(2),
            find_eq(body, 0) == find_eq(body, e - 2),
        decreases t@.len() - e,
    {
        e += 1;
    }
    let has_value = e < t.len();
    let name_chars = {
        let mut v: Vec<char> = Vec::new();
        let mut i: usize = 2;
        while i < e
            invariant
                2 <= i <= e <= t@.len(),
                v@ == t@.subrange(2, i as int),
            decreases e - i,
        {
            v.push(t[i]);
            proof {
                assert(t@.subrange(2, i + 1) =~= t@.subrange(2, i as int).push(t@[i as int]));
            }
            i += 1;
        }
        v
    };
    proof {
        if has_value {
            assert(find_eq(body, 0) == Some((e - 2) as int));
            assert(name_chars@ =~= body.take(e - 2));
            assert(t@.subrange(e + 1, t@.len() as int) =~= body.skip(e - 2 + 1));
        } else {
            assert(find_eq(body, 0) == None::<int>);
            assert(name_chars@ =~= body);
        }
    }
    if spells(&name_chars, "quiet") {
        let mut arg = String::new();
        push_str(&mut arg, "--quiet");
        if has_value {
            return Err(arg_error(ArgErrorKind::UnexpectedValue, arg));
        }
        if scan.quiet {
            return Err(arg_error(ArgErrorKind::Repeated, arg));
        }
        let Scan { occurrences, positionals, quiet, terminated, pending } = scan;
        return Ok(Scan { occurrences, positionals, quiet: true, terminated, pending });
    }
    if spells(&name_chars, "help") {
        let mut arg = String::new();
        push_str(&mut arg, "--help");
        return Err(arg_error(ArgErrorKind::HelpRequested, arg));
    }
    match lookup_long(opts, &name_chars) {
        None => {
            let mut arg = String::new();
            push_str(&mut arg, "--");
            push_char_range(&mut arg, t, 2, t.len());
            proof {
                assert(arg@ =~= "--"@ + body);
            }
            Err(arg_error(ArgErrorKind::UnknownArgument, arg))
        },
        Some(k) => {
            proof {
                lemma_find_long_in_range(views, name_chars@, 0);
            }
            if !opts[k].takes_value {
                if has_value {
                    Err(arg_error(ArgErrorKind::UnexpectedValue, dashed(opts[k].long)))
                } else {
                    let mut truth = String::new();
                    push_str(&mut truth, "true");
                    record(opts, scan, k, truth)
                }
            } else if has_value {
                let v = text_of(t, e + 1, t.len());
                record(opts, scan, k, v)
            } else {
                let Scan { occurrences, positionals, quiet, terminated, pending } = scan;
                Ok(Scan { occurrences, positionals, quiet, terminated, pending: Some(k) })
            }
        },
    }
}

proof fn lemma_find_long_in_range(opts: Seq<OptView>, name: Seq<char>, i: int)
    requires
        opts.len() <= usize::MAX,
    ensures
        find_long(opts, name, i) matches Some(k) ==> 0 <= k < opts.len() && opts[k as int].long == name,
    decreases opts.len() - i,
{
    if 0 <= i < opts.len() && opts[i].long != name {
        lemma_find_long_in_range(opts, name, i + 1);
    }
}

proof fn lemma_find_short_in_range(opts: Seq<OptView>, c: char, i: int)
    requires
        opts.len() <= usize::MAX,
    ensures
        find_short(opts, c, i) matches Some(k) ==> 0 <= k < opts.len(),
    decreases opts.len() - i,
{
    if 0 <= i < opts.len() && opts[i].short != Some(c) {
        lemma_find_short_in_range(opts, c, i + 1);
    }
}

/// Handles the short options of token `t`, from its letter at `j` on.
fn scan_short(opts: &Vec<OptDef>, scan: Scan, t: &Vec<char>, j: usize) -> (r: Result<Scan, ArgError>)
    requires
        1 <= j < t@.len(),
        scan.pending.is_none(),
    ensures
        scan_result_view(r) == short_options(opt_views(opts@), scan.view_of(), t@, j as int),
        r matches Ok(next) ==> (next.pending matches Some(k) ==> k < opts@.len()),
    decreases t@.len() - j,
{
    let ghost views = opt_views(opts@);
    let n = t.len();
    let c = t[j];
    if c == 'h' {
        let mut arg = String::new();
        push_str(&mut arg, "-h");
        proof {
            reveal_strlit("-h");
            assert(arg@ =~= "-h"@);
        }
        return Err(arg_error(ArgErrorKind::HelpRequested, arg));
    }
    let count = opts.len();
    match lookup_short(opts, c) {
        None => {
            let mut arg = String::new();
            push_char(&mut arg, '-');
            push_char(&mut arg, c);
            proof {
                assert(arg@ =~= seq!['-', c]);
            }
            Err(arg_error(ArgErrorKind::UnknownArgument, arg))
        },
        Some(k) => {
            proof {
                lemma_find_short_in_range(views, c, 0);
            }
            if !opts[k].takes_value {
                let mut truth = String::new();
                push_str(&mut truth, "true");
                match record(opts, scan, k, truth) {
                    Ok(next) => {
                        if j + 1 < t.len() {
                            scan_short(opts, next, t, j + 1)
                        } else {
                            Ok(next)
                        }
                    },
                    Err(e) => Err(e),
                }
            } else {
                let ghost rest = t@.skip(j + 1);
                if j + 1 < t.len() && t[j + 1] == '=' {
                    let v = text_of(t, j + 2, t.len());
                    proof {
                        assert(v@ =~= rest.skip(1));
                    }
                    record(opts, scan, k, v)
                } else if j + 1 < t.len() {
                    let v = text_of(t, j + 1, t.len());
                    proof {
                        assert(v@ =~= rest);
                    }
                    record(opts, scan, k, v)
                } else {
                    let Scan { occurrences, positionals, quiet, terminated, pending } = scan;
                    Ok(Scan { occurrences, positionals, quiet, terminated, pending: Some(k) })
                }
            }
        },
    }
}

/// Handles one argument token.
fn scan_token(opts: &Vec<OptDef>, scan: Scan, token: &String) -> (r: Result<Scan, ArgError>)
    requires
        scan.pending matches Some(k) ==> k < opts@.len(),
    ensures
        scan_result_view(r) == scan_step(opt_views(opts@), scan.view_of(), token@),
        r matches Ok(next) ==> (next.pending matches Some(k) ==> k < opts@.len()),
{
    let t = chars_of(token.as_str());
    let looks_like_option = t.len() > 1 && t[0] == '-';
    match scan.pending {
        Some(k) => {
            if looks_like_option {
                return Err(arg_error(ArgErrorKind::MissingValue, dashed(opts[k].long)));
            }
            let Scan { occurrences, positionals, quiet, terminated, pending } = scan;
            let waiting = Scan { occurrences, positionals, quiet, terminated, pending: None };
            proof {
                assert(waiting.view_of() =~= ScanView { pending: None, ..scan.view_of() });
            }
            record(opts, waiting, k, token.clone())
        },
        None => {
            if scan.terminated {
                let Scan { occurrences, mut positionals, quiet, terminated, pending } = scan;
                let ghost before = positionals@;
                positionals.push(token.clone());
                proof {
                    assert(string_views(positionals@) =~= string_views(before).push(token@));
                }
                return Ok(Scan { occurrences, positionals, quiet, terminated, pending });
            }
            if spells(&t, "--") {
                let Scan { occurrences, positionals, quiet, terminated, pending } = scan;
                return Ok(Scan { occurrences, positionals, quiet, terminated: true, pending });
            }
            if t.len() >= 2 && t[0] == '-' && t[1] == '-' {
                return scan_long(opts, scan, &t);
            }
            if looks_like_option {
                return scan_short(opts, scan, &t, 1);
            }
            let Scan { occurrences, mut positionals, quiet, terminated, pending } = scan;
            let ghost before = positionals@;
            positionals.push(token.clone());
            proof {
                assert(string_views(positionals@) =~= string_views(before).push(token@));
            }
            Ok(Scan { occurrences, positionals, quiet, terminated, pending })
        },
    }
}

/// Scans the arguments `args[from..]`.
fn scan_arguments(opts: &Vec<OptDef>, args: &Vec<String>, from: usize, scan: Scan) -> (r: Result<Scan, ArgError>)
    requires
        from <= args@.len(),
        scan.pending.is_none(),
    ensures
        scan_result_view(r) == scan_all(opt_views(opts@), scan.view_of(), string_views(args@).skip(from as int)),
        r matches Ok(done) ==> done.pending.is_none(),
{
    let ghost views = opt_views(opts@);
    let ghost toks = string_views(args@);
    let ghost init = scan.view_of();
    let ghost goal = scan_all(views, init, toks.skip(from as int));
    let mut cur = scan;
    let mut i: usize = from;
    while i < args.len()
        invariant
            views == opt_views(opts@),
            toks == string_views(args@),
            from <= i <= args@.len(),
            cur.pending matches Some(k) ==> k < opts@.len(),
            scan_all(views, cur.view_of(), toks.skip(i as int)) == goal,
            goal == scan_all(views, init, toks.skip(from as int)),
            init == scan.view_of(),
        decreases args@.len() - i,
    {
        proof {
            assert(toks.skip(i as int)[0] == args@[i as int]@);
            assert(toks.skip(i as int).drop_first() =~= toks.skip(i + 1));
        }
        let ghost before = cur.view_of();
        match scan_token(opts, cur, &args[i]) {
            Ok(next) => {
                cur = next;
            },
            Err(e) => {
                proof {
                    assert(scan_step(views, before, toks.skip(i as int)[0]) == Err::<ScanView, (ArgErrorKind, Seq<char>)>(e.model()));
                    assert(scan_all(views, before, toks.skip(i as int)) == Err::<ScanView, (ArgErrorKind, Seq<char>)>(e.model()));
                    assert(goal == Err::<ScanView, (ArgErrorKind, Seq<char>)>(e.model()));
                    assert(scan_result_view(Err::<Scan, ArgError>(e)) == goal);
                }
                return Err(e);
            },
        }
        i += 1;
    }
    proof {
        assert(toks.skip(i as int) =~= Seq::<Seq<char>>::empty());
    }
    match cur.pending {
        Some(k) => Err(arg_error(ArgErrorKind::MissingValue, dashed(opts[k].long))),
        None => Ok(cur),
    }
}

// ----- reading the scan -----

/// The last value given to option `k`, if any.
pub open spec fn last_value(occ: Seq<(usize, Seq<char>)>, k: usize) -> Option<Seq<char>> {
    let values = values_of(occ, k);
    if values.len() == 0 {
        None
    } else {
        Some(values.last())
    }
}

/// The text of an optional string.
pub open spec fn opt_text(o: Option<String>) -> Option<Seq<char>> {
    match o {
        Some(s) => Some(s@),
        None => None,
    }
}

proof fn lemma_values_present(occ: Seq<(usize, Seq<char>)>, k: usize)
    ensures
        values_of(occ, k).len() > 0 <==> present(occ, k),
    decreases occ.len(),
{
    if occ.len() > 0 {
        lemma_values_present(occ.drop_last(), k);
        if present(occ, k) && occ.last().0 != k {
            let i = choose|i: int| 0 <= i < occ.len() && (#[trigger] occ[i]).0 == k;
            assert(occ.drop_last()[i].0 == k);
        }
        if present(occ.drop_last(), k) {
            let i = choose|i: int| 0 <= i < occ.drop_last().len() && (#[trigger] occ.drop_last()[i]).0 == k;
            assert(occ[i].0 == k);
        }
        if occ.last().0 == k {
            assert(occ[occ.len() - 1].0 == k);
        }
    }
}

/// Whether flag `k` was given.
fn get_flag(scan: &Scan, k: usize) -> (given: bool)
    ensures
        given == present(scan.view_of().occurrences, k),
{
    let mut i: usize = 0;
    while i < scan.occurrences.len()
        invariant
            i <= scan.occurrences@.len(),
            forall|j: int| 0 <= j < i ==> (#[trigger] scan.occurrences@[j]).0 != k,
        decreases scan.occurrences@.len() - i,
    {
        if scan.occurrences[i].0 == k {
            proof {
                assert(scan.view_of().occurrences[i as int].0 == k);
            }
            return true;
        }
        i += 1;
    }
    proof {
        assert forall|j: int| 0 <= j < scan.view_of().occurrences.len() implies (
        #[trigger] scan.view_of().occurrences[j]).0 != k by {
            assert(scan.occurrences@[j].0 != k);
        }
    }
    false
}

/// Every value given to option `k`, in order.
fn get_all(scan: &Scan, k: usize) -> (values: Vec<String>)
    ensures
        string_views(values@) == values_of(scan.view_of().occurrences, k),
{
    let ghost occ = scan.view_of().occurrences;
    let mut values: Vec<String> = Vec::new();
    let mut i: usize = 0;
    while i < scan.occurrences.len()
        invariant
            occ == occurrence_views(scan.occurrences@),
            i <= scan.occurrences@.len(),
            string_views(values@) == values_of(occ.take(i as int), k),
        decreases scan.occurrences@.len() - i,
    {
        proof {
            assert(occ.take(i + 1).drop_last() =~= occ.take(i as int));
        }
        if scan.occurrences[i].0 == k {
            let ghost before = values@;
            values.push(scan.occurrences[i].1.clone());
            proof {
                assert(string_views(values@) =~= string_views(before).push(occ[i as int].1));
            }
        }
        i += 1;
    }
    proof {
        assert(occ.take(i as int) =~= occ);
    }
    values
}

/// The last value given to option `k`, if any.
fn get_last(scan: &Scan, k: usize) -> (value: Option<String>)
    ensures
        opt_text(value) == last_value(scan.view_of().occurrences, k),
{
    let mut values = get_all(scan, k);
    let ghost all = values@;
    match values.pop() {
        Some(v) => {
            proof {
                assert(string_views(all).last() == v@);
            }
            Some(v)
        },
        None => None,
    }
}

// ----- the subcommands -----

/// `luck init`: scaffold a project.
#[derive(Debug, Clone, PartialEq, Eq)]
pub struct InitArgs {
    pub target: Option<String>,
}

/// `luck build`: build the project from `luck.json`.
#[derive(Debug, Clone, PartialEq, Eq)]
pub struct BuildArgs {
    pub config: Option<String>,
    pub dry_run: bool,
    pub profile: Option<String>,
    pub release: bool,
    pub dev: bool,
    pub watch: bool,
}

/// `luck bundle`: bundle a multi-file project into one file.
#[derive(Debug, Clone, PartialEq, Eq)]
pub struct BundleArgs {
    pub entry: String,
    pub target: Option<String>,
    pub output: Option<String>,
    pub search_path: Vec<String>,
    pub minify: bool,
    pub line_map: Option<String>,
    pub minify_flags: MinifyFlags,
}

/// `luck minify`: minify one source file.
#[derive(Debug, Clone, PartialEq, Eq)]
pub struct MinifyArgs {
    pub input: String,
    pub target: Option<String>,
    pub output: Option<String>,
    pub stats: bool,
    pub minify_flags: MinifyFlags,
}

/// How `luck graph` prints the graph.
#[derive(Debug, Clone, Copy, PartialEq, Eq, Structural)]
pub enum GraphFormat {
    Json,
    Dot,
}

/// `luck graph`: print the dependency graph.
#[derive(Debug, Clone, PartialEq, Eq)]
pub struct GraphArgs {
    pub entry: String,
    pub target: Option<String>,
    pub search_path: Vec<String>,
    pub format: GraphFormat,
}

/// How `luck lint` prints its findings.
#[derive(Debug, Clone, Copy, PartialEq, Eq, Structural)]
pub enum LintFormat {
    Default,
    Json,
}

/// `luck lint`: lint source files.
#[derive(Debug, Clone, PartialEq, Eq)]
pub struct LintArgs {
    pub paths: Vec<String>,
    pub config: Option<String>,
    pub allow: Vec<String>,
    pub warn: Vec<String>,
    pub deny: Vec<String>,
    pub globals: Vec<String>,
    pub fix: bool,
    pub format: LintFormat,
    pub max_warnings: Option<usize>,
    pub deny_warnings: bool,
    pub silent: bool,
    pub rules: bool,
    pub print_config: bool,
    pub stdin_filepath: Option<String>,
}

/// `luck fmt`: format source files.
#[derive(Debug, Clone, PartialEq, Eq)]
pub struct FmtArgs {
    pub paths: Vec<String>,
    pub write: bool,
    pub check: bool,
    pub list_different: bool,
    pub config: Option<String>,
    pub no_editorconfig: bool,
    pub stdin_filepath: Option<String>,
    pub range_start: Option<usize>,
    pub range_end: Option<usize>,
    pub verify: bool,
}

/// `luck check`: parse source files and report errors.
#[derive(Debug, Clone, PartialEq, Eq)]
pub struct CheckArgs {
    pub paths: Vec<String>,
    pub config: Option<String>,
}

/// `luck lsp`: run the language server.
#[derive(Debug, Clone, PartialEq, Eq)]
pub struct LspArgs {
    pub socket: Option<u16>,
}

/// A subcommand with its arguments.
#[derive(Debug, Clone, PartialEq, Eq)]
pub enum Command {
    Init(InitArgs),
    Build(BuildArgs),
    Bundle(BundleArgs),
    Minify(MinifyArgs),
    Graph(GraphArgs),
    Lint(LintArgs),
    Fmt(FmtArgs),
    Check(CheckArgs),
    Lsp(LspArgs),
}

/// A parsed command line.
#[derive(Debug, Clone, PartialEq, Eq)]
pub struct Cli {
    pub command: Command,
    pub quiet: bool,
}

// ----- option tables -----

/// An option without overrides, as plain values.
pub open spec fn opt_view(long: Seq<char>, short: Option<char>, takes_value: bool, repeatable: bool) -> OptView {
    OptView { long, short, takes_value, repeatable, overrides: None }
}

/// An option without overrides.
fn opt(long: &'static str, short: Option<char>, takes_value: bool, repeatable: bool) -> (o: OptDef)
    ensures
        o.view_of() == opt_view(long@, short, takes_value, repeatable),
{
    OptDef { long, short, takes_value, repeatable, overrides: None }
}

/// The minifier pass flags, both polarities of each pass, placed from
/// index `base` on; each polarity overrides the other.
pub open spec fn minify_flag_views(base: usize) -> Seq<OptView> {
    seq![        OptView { long: "no-remove-dead-code"@, short: None, takes_value: false, repeatable: false, overrides: Some((base + 1) as usize) },
        OptView { long: "remove-dead-code"@, short: None, takes_value: false, repeatable: false, overrides: Some((base + 0) as usize) },
        OptView { long: "no-simplify-statements"@, short: None, takes_value: false, repeatable: false, overrides: Some((base + 3) as usize) },
        OptView { long: "simplify-statements"@, short: None, takes_value: false, repeatable: false, overrides: Some((base + 2) as usize) },
        OptView { long: "no-fold-constants"@, short: None, takes_value: false, repeatable: false, overrides: Some((base + 5) as usize) },
        OptView { long: "fold-constants"@, short: None, takes_value: false, repeatable: false, overrides: Some((base + 4) as usize) },
        OptView { long: "no-inline-locals"@, short: None, takes_value: false, repeatable: false, overrides: Some((base + 7) as usize) },
        OptView { long: "inline-locals"@, short: None, takes_value: false, repeatable: false, overrides: Some((base + 6) as usize) },
        OptView { long: "no-merge-locals"@, short: None, takes_value: false, repeatable: false, overrides: Some((base + 9) as usize) },
        OptView { long: "merge-locals"@, short: None, takes_value: false, repeatable: false, overrides: Some((base + 8) as usize) },
        OptView { long: "no-simplify-indexes"@, short: None, takes_value: false, repeatable: false, overrides: Some((base + 11) as usize) },
        OptView { long: "simplify-indexes"@, short: None, takes_value: false, repeatable: false, overrides: Some((base + 10) as usize) },
        OptView { long: "no-shorten-strings"@, short: None, takes_value: false, repeatable: false, overrides: Some((base + 13) as usize) },
        OptView { long: "shorten-strings"@, short: None, takes_value: false, repeatable: false, overrides: Some((base + 12) as usize) },
        OptView { long: "no-shorten-numbers"@, short: None, takes_value: false, repeatable: false, overrides: Some((base + 15) as usize) },
        OptView { long: "shorten-numbers"@, short: None, takes_value: false, repeatable: false, overrides: Some((base + 14) as usize) },
        OptView { long: "no-simplify-parens"@, short: None, takes_value: false, repeatable: false, overrides: Some((base + 17) as usize) },
        OptView { long: "simplify-parens"@, short: None, takes_value: false, repeatable: false, overrides: Some((base + 16) as usize) },
        OptView { long: "no-rename-locals"@, short: None, takes_value: false, repeatable: false, overrides: Some((base + 19) as usize) },
        OptView { long: "rename-locals"@, short: None, takes_value: false, repeatable: false, overrides: Some((base + 18) as usize) },
        OptView { long: "no-lift-locals"@, short: None, takes_value: false, repeatable: false, overrides: Some((base + 21) as usize) },
        OptView { long: "lift-locals"@, short: None, takes_value: false, repeatable: false, overrides: Some((base + 20) as usize) },
        OptView { long: "no-rename-globals"@, short: None, takes_value: false, repeatable: false, overrides: Some((base + 23) as usize) },
        OptView { long: "rename-globals"@, short: None, takes_value: false, repeatable: false, overrides: Some((base + 22) as usize) },
    ]
}

/// The field of `flags` that the pass flag spelled `--name` stands for.
pub open spec fn pass_flag(flags: MinifyFlags, name: Seq<char>) -> bool {
    if name == "no-remove-dead-code"@ {
        flags.no_remove_dead_code
    } else if name == "remove-dead-code"@ {
        flags.remove_dead_code
    } else if name == "no-simplify-statements"@ {
        flags.no_simplify_statements
    } else if name == "simplify-statements"@ {
        flags.simplify_statements
    } else if name == "no-fold-constants"@ {
        flags.no_fold_constants
    } else if name == "fold-constants"@ {
        flags.fold_constants
    } else if name == "no-inline-locals"@ {
        flags.no_inline_locals
    } else if name == "inline-locals"@ {
        flags.inline_locals
    } else if name == "no-merge-locals"@ {
        flags.no_merge_locals
    } else if name == "merge-locals"@ {
        flags.merge_locals
    } else if name == "no-simplify-indexes"@ {
        flags.no_simplify_indexes
    } else if name == "simplify-indexes"@ {
        flags.simplify_indexes
    } else if name == "no-shorten-strings"@ {
        flags.no_shorten_strings
    } else if name == "shorten-strings"@ {
        flags.shorten_strings
    } else if name == "no-shorten-numbers"@ {
        flags.no_shorten_numbers
    } else if name == "shorten-numbers"@ {
        flags.shorten_numbers
    } else if name == "no-simplify-parens"@ {
        flags.no_simplify_parens
    } else if name == "simplify-parens"@ {
        flags.simplify_parens
    } else if name == "no-rename-locals"@ {
        flags.no_rename_locals
    } else if name == "rename-locals"@ {
        flags.rename_locals
    } else if name == "no-lift-locals"@ {
        flags.no_lift_locals
    } else if name == "lift-locals"@ {
        flags.lift_locals
    } else if name == "no-rename-globals"@ {
        flags.no_rename_globals
    } else if name == "rename-globals"@ {
        flags.rename_globals
    } else {
        false
    }
}

/// The spellings of the minifier pass flags differ from one another.
proof fn lemma_pass_spellings_distinct()
    ensures
        "no-remove-dead-code"@ != "remove-dead-code"@,
        "no-remove-dead-code"@ != "no-simplify-statements"@,
        "no-remove-dead-code"@ != "simplify-statements"@,
        "no-remove-dead-code"@ != "no-fold-constants"@,
        "no-remove-dead-code"@ != "fold-constants"@,
        "no-remove-dead-code"@ != "no-inline-locals"@,
        "no-remove-dead-code"@ != "inline-locals"@,
        "no-remove-dead-code"@ != "no-merge-locals"@,
        "no-remove-dead-code"@ != "merge-locals"@,
        "no-remove-dead-code"@ != "no-simplify-indexes"@,
        "no-remove-dead-code"@ != "simplify-indexes"@,
        "no-remove-dead-code"@ != "no-shorten-strings"@,
        "no-remove-dead-code"@ != "shorten-strings"@,
        "no-remove-dead-code"@ != "no-shorten-numbers"@,
        "no-remove-dead-code"@ != "shorten-numbers"@,
        "no-remove-dead-code"@ != "no-simplify-parens"@,
        "no-remove-dead-code"@ != "simplify-parens"@,
        "no-remove-dead-code"@ != "no-rename-locals"@,
        "no-remove-dead-code"@ != "rename-locals"@,
        "no-remove-dead-code"@ != "no-lift-locals"@,
        "no-remove-dead-code"@ != "lift-locals"@,
        "no-remove-dead-code"@ != "no-rename-globals"@,
        "no-remove-dead-code"@ != "rename-globals"@,
        "remove-dead-code"@ != "no-simplify-statements"@,
        "remove-dead-code"@ != "simplify-statements"@,
        "remove-dead-code"@ != "no-fold-constants"@,
        "remove-dead-code"@ != "fold-constants"@,
        "remove-dead-code"@ != "no-inline-locals"@,
        "remove-dead-code"@ != "inline-locals"@,
        "remove-dead-code"@ != "no-merge-locals"@,
        "remove-dead-code"@ != "merge-locals"@,
        "remove-dead-code"@ != "no-simplify-indexes"@,
        "remove-dead-code"@ != "simplify-indexes"@,
        "remove-dead-code"@ != "no-shorten-strings"@,
        "remove-dead-code"@ != "shorten-strings"@,
        "remove-dead-code"@ != "no-shorten-numbers"@,
        "remove-dead-code"@ != "shorten-numbers"@,
        "remove-dead-code"@ != "no-simplify-parens"@,
        "remove-dead-code"@ != "simplify-parens"@,
        "remove-dead-code"@ != "no-rename-locals"@,
        "remove-dead-code"@ != "rename-locals"@,
        "remove-dead-code"@ != "no-lift-locals"@,
        "remove-dead-code"@ != "lift-locals"@,
        "remove-dead-code"@ != "no-rename-globals"@,
        "remove-dead-code"@ != "rename-globals"@,
        "no-simplify-statements"@ != "simplify-statements"@,
        "no-simplify-statements"@ != "no-fold-constants"@,
        "no-simplify-statements"@ != "fold-constants"@,
        "no-simplify-statements"@ != "no-inline-locals"@,
        "no-simplify-statements"@ != "inline-locals"@,
        "no-simplify-statements"@ != "no-merge-locals"@,
        "no-simplify-statements"@ != "merge-locals"@,
        "no-simplify-statements"@ != "no-simplify-indexes"@,
        "no-simplify-statements"@ != "simplify-indexes"@,
        "no-simplify-statements"@ != "no-shorten-strings"@,
        "no-simplify-statements"@ != "shorten-strings"@,
        "no-simplify-statements"@ != "no-shorten-numbers"@,
        "no-simplify-statements"@ != "shorten-numbers"@,
        "no-simplify-statements"@ != "no-simplify-parens"@,
        "no-simplify-statements"@ != "simplify-parens"@,
        "no-simplify-statements"@ != "no-rename-locals"@,
        "no-simplify-statements"@ != "rename-locals"@,
        "no-simplify-statements"@ != "no-lift-locals"@,
        "no-simplify-statements"@ != "lift-locals"@,
        "no-simplify-statements"@ != "no-rename-globals"@,
        "no-simplify-statements"@ != "rename-globals"@,
        "simplify-statements"@ != "no-fold-constants"@,
        "simplify-statements"@ != "fold-constants"@,
        "simplify-statements"@ != "no-inline-locals"@,
        "simplify-statements"@ != "inline-locals"@,
        "simplify-statements"@ != "no-merge-locals"@,
        "simplify-statements"@ != "merge-locals"@,
        "simplify-statements"@ != "no-simplify-indexes"@,
        "simplify-statements"@ != "simplify-indexes"@,
        "simplify-statements"@ != "no-shorten-strings"@,
        "simplify-statements"@ != "shorten-strings"@,
        "simplify-statements"@ != "no-shorten-numbers"@,
        "simplify-statements"@ != "shorten-numbers"@,
        "simplify-statements"@ != "no-simplify-parens"@,
        "simplify-statements"@ != "simplify-parens"@,
        "simplify-statements"@ != "no-rename-locals"@,
        "simplify-statements"@ != "rename-locals"@,
        "simplify-statements"@ != "no-lift-locals"@,
        "simplify-statements"@ != "lift-locals"@,
        "simplify-statements"@ != "no-rename-globals"@,
        "simplify-statements"@ != "rename-globals"@,
        "no-fold-constants"@ != "fold-constants"@,
        "no-fold-constants"@ != "no-inline-locals"@,
        "no-fold-constants"@ != "inline-locals"@,
        "no-fold-constants"@ != "no-merge-locals"@,
        "no-fold-constants"@ != "merge-locals"@,
        "no-fold-constants"@ != "no-simplify-indexes"@,
        "no-fold-constants"@ != "simplify-indexes"@,
        "no-fold-constants"@ != "no-shorten-strings"@,
        "no-fold-constants"@ != "shorten-strings"@,
        "no-fold-constants"@ != "no-shorten-numbers"@,
        "no-fold-constants"@ != "shorten-numbers"@,
        "no-fold-constants"@ != "no-simplify-parens"@,
        "no-fold-constants"@ != "simplify-parens"@,
        "no-fold-constants"@ != "no-rename-locals"@,
        "no-fold-constants"@ != "rename-locals"@,
        "no-fold-constants"@ != "no-lift-locals"@,
        "no-fold-constants"@ != "lift-locals"@,
        "no-fold-constants"@ != "no-rename-globals"@,
        "no-fold-constants"@ != "rename-globals"@,
        "fold-constants"@ != "no-inline-locals"@,
        "fold-constants"@ != "inline-locals"@,
        "fold-constants"@ != "no-merge-locals"@,
        "fold-constants"@ != "merge-locals"@,
        "fold-constants"@ != "no-simplify-indexes"@,
        "fold-constants"@ != "simplify-indexes"@,
        "fold-constants"@ != "no-shorten-strings"@,
        "fold-constants"@ != "shorten-strings"@,
        "fold-constants"@ != "no-shorten-numbers"@,
        "fold-constants"@ != "shorten-numbers"@,
        "fold-constants"@ != "no-simplify-parens"@,
        "fold-constants"@ != "simplify-parens"@,
        "fold-constants"@ != "no-rename-locals"@,
        "fold-constants"@ != "rename-locals"@,
        "fold-constants"@ != "no-lift-locals"@,
        "fold-constants"@ != "lift-locals"@,
        "fold-constants"@ != "no-rename-globals"@,
        "fold-constants"@ != "rename-globals"@,
        "no-inline-locals"@ != "inline-locals"@,
        "no-inline-locals"@ != "no-merge-locals"@,
        "no-inline-locals"@ != "merge-locals"@,
        "no-inline-locals"@ != "no-simplify-indexes"@,
        "no-inline-locals"@ != "simplify-indexes"@,
        "no-inline-locals"@ != "no-shorten-strings"@,
        "no-inline-locals"@ != "shorten-strings"@,
        "no-inline-locals"@ != "no-shorten-numbers"@,
        "no-inline-locals"@ != "shorten-numbers"@,
        "no-inline-locals"@ != "no-simplify-parens"@,
        "no-inline-locals"@ != "simplify-parens"@,
        "no-inline-locals"@ != "no-rename-locals"@,
        "no-inline-locals"@ != "rename-locals"@,
        "no-inline-locals"@ != "no-lift-locals"@,
        "no-inline-locals"@ != "lift-locals"@,
        "no-inline-locals"@ != "no-rename-globals"@,
        "no-inline-locals"@ != "rename-globals"@,
        "inline-locals"@ != "no-merge-locals"@,
        "inline-locals"@ != "merge-locals"@,
        "inline-locals"@ != "no-simplify-indexes"@,
        "inline-locals"@ != "simplify-indexes"@,
        "inline-locals"@ != "no-shorten-strings"@,
        "inline-locals"@ != "shorten-strings"@,
        "inline-locals"@ != "no-shorten-numbers"@,
        "inline-locals"@ != "shorten-numbers"@,
        "inline-locals"@ != "no-simplify-parens"@,
        "inline-locals"@ != "simplify-parens"@,
        "inline-locals"@ != "no-rename-locals"@,
        "inline-locals"@ != "rename-locals"@,
        "inline-locals"@ != "no-lift-locals"@,
        "inline-locals"@ != "lift-locals"@,
        "inline-locals"@ != "no-rename-globals"@,
        "inline-locals"@ != "rename-globals"@,
        "no-merge-locals"@ != "merge-locals"@,
        "no-merge-locals"@ != "no-simplify-indexes"@,
        "no-merge-locals"@ != "simplify-indexes"@,
        "no-merge-locals"@ != "no-shorten-strings"@,
        "no-merge-locals"@ != "shorten-strings"@,
        "no-merge-locals"@ != "no-shorten-numbers"@,
        "no-merge-locals"@ != "shorten-numbers"@,
        "no-merge-locals"@ != "no-simplify-parens"@,
        "no-merge-locals"@ != "simplify-parens"@,
        "no-merge-locals"@ != "no-rename-locals"@,
        "no-merge-locals"@ != "rename-locals"@,
        "no-merge-locals"@ != "no-lift-locals"@,
        "no-merge-locals"@ != "lift-locals"@,
        "no-merge-locals"@ != "no-rename-globals"@,
        "no-merge-locals"@ != "rename-globals"@,
        "merge-locals"@ != "no-simplify-indexes"@,
        "merge-locals"@ != "simplify-indexes"@,
        "merge-locals"@ != "no-shorten-strings"@,
        "merge-locals"@ != "shorten-strings"@,
        "merge-locals"@ != "no-shorten-numbers"@,
        "merge-locals"@ != "shorten-numbers"@,
        "merge-locals"@ != "no-simplify-parens"@,
        "merge-locals"@ != "simplify-parens"@,
        "merge-locals"@ != "no-rename-locals"@,
        "merge-locals"@ != "rename-locals"@,
        "merge-locals"@ != "no-lift-locals"@,
        "merge-locals"@ != "lift-locals"@,
        "merge-locals"@ != "no-rename-globals"@,
        "merge-locals"@ != "rename-globals"@,
        "no-simplify-indexes"@ != "simplify-indexes"@,
        "no-simplify-indexes"@ != "no-shorten-strings"@,
        "no-simplify-indexes"@ != "shorten-strings"@,
        "no-simplify-indexes"@ != "no-shorten-numbers"@,
        "no-simplify-indexes"@ != "shorten-numbers"@,
        "no-simplify-indexes"@ != "no-simplify-parens"@,
        "no-simplify-indexes"@ != "simplify-parens"@,
        "no-simplify-indexes"@ != "no-rename-locals"@,
        "no-simplify-indexes"@ != "rename-locals"@,
        "no-simplify-indexes"@ != "no-lift-locals"@,
        "no-simplify-indexes"@ != "lift-locals"@,
        "no-simplify-indexes"@ != "no-rename-globals"@,
        "no-simplify-indexes"@ != "rename-globals"@,
        "simplify-indexes"@ != "no-shorten-strings"@,
        "simplify-indexes"@ != "shorten-strings"@,
        "simplify-indexes"@ != "no-shorten-numbers"@,
        "simplify-indexes"@ != "shorten-numbers"@,
        "simplify-indexes"@ != "no-simplify-parens"@,
        "simplify-indexes"@ != "simplify-parens"@,
        "simplify-indexes"@ != "no-rename-locals"@,
        "simplify-indexes"@ != "rename-locals"@,
        "simplify-indexes"@ != "no-lift-locals"@,
        "simplify-indexes"@ != "lift-locals"@,
        "simplify-indexes"@ != "no-rename-globals"@,
        "simplify-indexes"@ != "rename-globals"@,
        "no-shorten-strings"@ != "shorten-strings"@,
        "no-shorten-strings"@ != "no-shorten-numbers"@,
        "no-shorten-strings"@ != "shorten-numbers"@,
        "no-shorten-strings"@ != "no-simplify-parens"@,
        "no-shorten-strings"@ != "simplify-parens"@,
        "no-shorten-strings"@ != "no-rename-locals"@,
        "no-shorten-strings"@ != "rename-locals"@,
        "no-shorten-strings"@ != "no-lift-locals"@,
        "no-shorten-strings"@ != "lift-locals"@,
        "no-shorten-strings"@ != "no-rename-globals"@,
        "no-shorten-strings"@ != "rename-globals"@,
        "shorten-strings"@ != "no-shorten-numbers"@,
        "shorten-strings"@ != "shorten-numbers"@,
        "shorten-strings"@ != "no-simplify-parens"@,
        "shorten-strings"@ != "simplify-parens"@,
        "shorten-strings"@ != "no-rename-locals"@,
        "shorten-strings"@ != "rename-locals"@,
        "shorten-strings"@ != "no-lift-locals"@,
        "shorten-strings"@ != "lift-locals"@,
        "shorten-strings"@ != "no-rename-globals"@,
        "shorten-strings"@ != "rename-globals"@,
        "no-shorten-numbers"@ != "shorten-numbers"@,
        "no-shorten-numbers"@ != "no-simplify-parens"@,
        "no-shorten-numbers"@ != "simplify-parens"@,
        "no-shorten-numbers"@ != "no-rename-locals"@,
        "no-shorten-numbers"@ != "rename-locals"@,
        "no-shorten-numbers"@ != "no-lift-locals"@,
        "no-shorten-numbers"@ != "lift-locals"@,
        "no-shorten-numbers"@ != "no-rename-globals"@,
        "no-shorten-numbers"@ != "rename-globals"@,
        "shorten-numbers"@ != "no-simplify-parens"@,
        "shorten-numbers"@ != "simplify-parens"@,
        "shorten-numbers"@ != "no-rename-locals"@,
        "shorten-numbers"@ != "rename-locals"@,
        "shorten-numbers"@ != "no-lift-locals"@,
        "shorten-numbers"@ != "lift-locals"@,
        "shorten-numbers"@ != "no-rename-globals"@,
        "shorten-numbers"@ != "rename-globals"@,
        "no-simplify-parens"@ != "simplify-parens"@,
        "no-simplify-parens"@ != "no-rename-locals"@,
        "no-simplify-parens"@ != "rename-locals"@,
        "no-simplify-parens"@ != "no-lift-locals"@,
        "no-simplify-parens"@ != "lift-locals"@,
        "no-simplify-parens"@ != "no-rename-globals"@,
        "no-simplify-parens"@ != "rename-globals"@,
        "simplify-parens"@ != "no-rename-locals"@,
        "simplify-parens"@ != "rename-locals"@,
        "simplify-parens"@ != "no-lift-locals"@,
        "simplify-parens"@ != "lift-locals"@,
        "simplify-parens"@ != "no-rename-globals"@,
        "simplify-parens"@ != "rename-globals"@,
        "no-rename-locals"@ != "rename-locals"@,
        "no-rename-locals"@ != "no-lift-locals"@,
        "no-rename-locals"@ != "lift-locals"@,
        "no-rename-locals"@ != "no-rename-globals"@,
        "no-rename-locals"@ != "rename-globals"@,
        "rename-locals"@ != "no-lift-locals"@,
        "rename-locals"@ != "lift-locals"@,
        "rename-locals"@ != "no-rename-globals"@,
        "rename-locals"@ != "rename-globals"@,
        "no-lift-locals"@ != "lift-locals"@,
        "no-lift-locals"@ != "no-rename-globals"@,
        "no-lift-locals"@ != "rename-globals"@,
        "lift-locals"@ != "no-rename-globals"@,
        "lift-locals"@ != "rename-globals"@,
        "no-rename-globals"@ != "rename-globals"@,
{
    reveal_strlit("no-remove-dead-code");
    reveal_strlit("remove-dead-code");
    reveal_strlit("no-simplify-statements");
    reveal_strlit("simplify-statements");
    reveal_strlit("no-fold-constants");
    reveal_strlit("fold-constants");
    reveal_strlit("no-inline-locals");
    reveal_strlit("inline-locals");
    reveal_strlit("no-merge-locals");
    reveal_strlit("merge-locals");
    reveal_strlit("no-simplify-indexes");
    reveal_strlit("simplify-indexes");
    reveal_strlit("no-shorten-strings");
    reveal_strlit("shorten-strings");
    reveal_strlit("no-shorten-numbers");
    reveal_strlit("shorten-numbers");
    reveal_strlit("no-simplify-parens");
    reveal_strlit("simplify-parens");
    reveal_strlit("no-rename-locals");
    reveal_strlit("rename-locals");
    reveal_strlit("no-lift-locals");
    reveal_strlit("lift-locals");
    reveal_strlit("no-rename-globals");
    reveal_strlit("rename-globals");
    assert("no-remove-dead-code"@.len() != "remove-dead-code"@.len());
    assert("no-remove-dead-code"@.len() != "no-simplify-statements"@.len());
    assert("no-remove-dead-code"@[0] != "simplify-statements"@[0]);
    assert("no-remove-dead-code"@.len() != "no-fold-constants"@.len());
    assert("no-remove-dead-code"@.len() != "fold-constants"@.len());
    assert("no-remove-dead-code"@.len() != "no-inline-locals"@.len());
    assert("no-remove-dead-code"@.len() != "inline-locals"@.len());
    assert("no-remove-dead-code"@.len() != "no-merge-locals"@.len());
    assert("no-remove-dead-code"@.len() != "merge-locals"@.len());
    assert("no-remove-dead-code"@[3] != "no-simplify-indexes"@[3]);
    assert("no-remove-dead-code"@.len() != "simplify-indexes"@.len());
    assert("no-remove-dead-code"@.len() != "no-shorten-strings"@.len());
    assert("no-remove-dead-code"@.len() != "shorten-strings"@.len());
    assert("no-remove-dead-code"@.len() != "no-shorten-numbers"@.len());
    assert("no-remove-dead-code"@.len() != "shorten-numbers"@.len());
    assert("no-remove-dead-code"@.len() != "no-simplify-parens"@.len());
    assert("no-remove-dead-code"@.len() != "simplify-parens"@.len());
    assert("no-remove-dead-code"@.len() != "no-rename-locals"@.len());
    assert("no-remove-dead-code"@.len() != "rename-locals"@.len());
    assert("no-remove-dead-code"@.len() != "no-lift-locals"@.len());
    assert("no-remove-dead-code"@.len() != "lift-locals"@.len());
    assert("no-remove-dead-code"@.len() != "no-rename-globals"@.len());
    assert("no-remove-dead-code"@.len() != "rename-globals"@.len());
    assert("remove-dead-code"@.len() != "no-simplify-statements"@.len());
    assert("remove-dead-code"@.len() != "simplify-statements"@.len());
    assert("remove-dead-code"@.len() != "no-fold-constants"@.len());
    assert("remove-dead-code"@.len() != "fold-constants"@.len());
    assert("remove-dead-code"@[0] != "no-inline-locals"@[0]);
    assert("remove-dead-code"@.len() != "inline-locals"@.len());
    assert("remove-dead-code"@.len() != "no-merge-locals"@.len());
    assert("remove-dead-code"@.len() != "merge-locals"@.len());
    assert("remove-dead-code"@.len() != "no-simplify-indexes"@.len());
    assert("remove-dead-code"@[0] != "simplify-indexes"@[0]);
    assert("remove-dead-code"@.len() != "no-shorten-strings"@.len());
    assert("remove-dead-code"@.len() != "shorten-strings"@.len());
    assert("remove-dead-code"@.len() != "no-shorten-numbers"@.len());
    assert("remove-dead-code"@.len() != "shorten-numbers"@.len());
    assert("remove-dead-code"@.len() != "no-simplify-parens"@.len());
    assert("remove-dead-code"@.len() != "simplify-parens"@.len());
    assert("remove-dead-code"@[0] != "no-rename-locals"@[0]);
    assert("remove-dead-code"@.len() != "rename-locals"@.len());
    assert("remove-dead-code"@.len() != "no-lift-locals"@.len());
    assert("remove-dead-code"@.len() != "lift-locals"@.len());
    assert("remove-dead-code"@.len() != "no-rename-globals"@.len());
    assert("remove-dead-code"@.len() != "rename-globals"@.len());
    assert("no-simplify-statements"@.len() != "simplify-statements"@.len());
    assert("no-simplify-statements"@.len() != "no-fold-constants"@.len());
    assert("no-simplify-statements"@.len() != "fold-constants"@.len());
    assert("no-simplify-statements"@.len() != "no-inline-locals"@.len());
    assert("no-simplify-statements"@.len() != "inline-locals"@.len());
    assert("no-simplify-statements"@.len() != "no-merge-locals"@.len());
    assert("no-simplify-statements"@.len() != "merge-locals"@.len());
    assert("no-simplify-statements"@.len() != "no-simplify-indexes"@.len());
    assert("no-simplify-statements"@.len() != "simplify-indexes"@.len());
    assert("no-simplify-statements"@.len() != "no-shorten-strings"@.len());
    assert("no-simplify-statements"@.len() != "shorten-strings"@.len());
    assert("no-simplify-statements"@.len() != "no-shorten-numbers"@.len());
    assert("no-simplify-statements"@.len() != "shorten-numbers"@.len());
    assert("no-simplify-statements"@.len() != "no-simplify-parens"@.len());
    assert("no-simplify-statements"@.len() != "simplify-parens"@.len());
    assert("no-simplify-statements"@.len() != "no-rename-locals"@.len());
    assert("no-simplify-statements"@.len() != "rename-locals"@.len());
    assert("no-simplify-statements"@.len() != "no-lift-locals"@.len());
    assert("no-simplify-statements"@.len() != "lift-locals"@.len());
    assert("no-simplify-statements"@.len() != "no-rename-globals"@.len());
    assert("no-simplify-statements"@.len() != "rename-globals"@.len());
    assert("simplify-statements"@.len() != "no-fold-constants"@.len());
    assert("simplify-statements"@.len() != "fold-constants"@.len());
    assert("simplify-statements"@.len() != "no-inline-locals"@.len());
    assert("simplify-statements"@.len() != "inline-locals"@.len());
    assert("simplify-statements"@.len() != "no-merge-locals"@.len());
    assert("simplify-statements"@.len() != "merge-locals"@.len());
    assert("simplify-statements"@[0] != "no-simplify-indexes"@[0]);
    assert("simplify-statements"@.len() != "simplify-indexes"@.len());
    assert("simplify-statements"@.len() != "no-shorten-strings"@.len());
    assert("simplify-statements"@.len() != "shorten-strings"@.len());
    assert("simplify-statements"@.len() != "no-shorten-numbers"@.len());
    assert("simplify-statements"@.len() != "shorten-numbers"@.len());
    assert("simplify-statements"@.len() != "no-simplify-parens"@.len());
    assert("simplify-statements"@.len() != "simplify-parens"@.len());
    assert("simplify-statements"@.len() != "no-rename-locals"@.len());
    assert("simplify-statements"@.len() != "rename-locals"@.len());
    assert("simplify-statements"@.len() != "no-lift-locals"@.len());
    assert("simplify-statements"@.len() != "lift-locals"@.len());
    assert("simplify-statements"@.len() != "no-rename-globals"@.len());
    assert("simplify-statements"@.len() != "rename-globals"@.len());
    assert("no-fold-constants"@.len() != "fold-constants"@.len());
    assert("no-fold-constants"@.len() != "no-inline-locals"@.len());
    assert("no-fold-constants"@.len() != "inline-locals"@.len());
    assert("no-fold-constants"@.len() != "no-merge-locals"@.len());
    assert("no-fold-constants"@.len() != "merge-locals"@.len());
    assert("no-fold-constants"@.len() != "no-simplify-indexes"@.len());
    assert("no-fold-constants"@.len() != "simplify-indexes"@.len());
    assert("no-fold-constants"@.len() != "no-shorten-strings"@.len());
    assert("no-fold-constants"@.len() != "shorten-strings"@.len());
    assert("no-fold-constants"@.len() != "no-shorten-numbers"@.len());
    assert("no-fold-constants"@.len() != "shorten-numbers"@.len());
    assert("no-fold-constants"@.len() != "no-simplify-parens"@.len());
    assert("no-fold-constants"@.len() != "simplify-parens"@.len());
    assert("no-fold-constants"@.len() != "no-rename-locals"@.len());
    assert("no-fold-constants"@.len() != "rename-locals"@.len());
    assert("no-fold-constants"@.len() != "no-lift-locals"@.len());
    assert("no-fold-constants"@.len() != "lift-locals"@.len());
    assert("no-fold-constants"@[3] != "no-rename-globals"@[3]);
    assert("no-fold-constants"@.len() != "rename-globals"@.len());
    assert("fold-constants"@.len() != "no-inline-locals"@.len());
    assert("fold-constants"@.len() != "inline-locals"@.len());
    assert("fold-constants"@.len() != "no-merge-locals"@.len());
    assert("fold-constants"@.len() != "merge-locals"@.len());
    assert("fold-constants"@.len() != "no-simplify-indexes"@.len());
    assert("fold-constants"@.len() != "simplify-indexes"@.len());
    assert("fold-constants"@.len() != "no-shorten-strings"@.len());
    assert("fold-constants"@.len() != "shorten-strings"@.len());
    assert("fold-constants"@.len() != "no-shorten-numbers"@.len());
    assert("fold-constants"@.len() != "shorten-numbers"@.len());
    assert("fold-constants"@.len() != "no-simplify-parens"@.len());
    assert("fold-constants"@.len() != "simplify-parens"@.len());
    assert("fold-constants"@.len() != "no-rename-locals"@.len());
    assert("fold-constants"@.len() != "rename-locals"@.len());
    assert("fold-constants"@[0] != "no-lift-locals"@[0]);
    assert("fold-constants"@.len() != "lift-locals"@.len());
    assert("fold-constants"@.len() != "no-rename-globals"@.len());
    assert("fold-constants"@[0] != "rename-globals"@[0]);
    assert("no-inline-locals"@.len() != "inline-locals"@.len());
    assert("no-inline-locals"@.len() != "no-merge-locals"@.len());
    assert("no-inline-locals"@.len() != "merge-locals"@.len());
    assert("no-inline-locals"@.len() != "no-simplify-indexes"@.len());
    assert("no-inline-locals"@[0] != "simplify-indexes"@[0]);
    assert("no-inline-locals"@.len() != "no-shorten-strings"@.len());
    assert("no-inline-locals"@.len() != "shorten-strings"@.len());
    assert("no-inline-locals"@.len() != "no-shorten-numbers"@.len());
    assert("no-inline-locals"@.len() != "shorten-numbers"@.len());
    assert("no-inline-locals"@.len() != "no-simplify-parens"@.len());
    assert("no-inline-locals"@.len() != "simplify-parens"@.len());
    assert("no-inline-locals"@[3] != "no-rename-locals"@[3]);
    assert("no-inline-locals"@.len() != "rename-locals"@.len());
    assert("no-inline-locals"@.len() != "no-lift-locals"@.len());
    assert("no-inline-locals"@.len() != "lift-locals"@.len());
    assert("no-inline-locals"@.len() != "no-rename-globals"@.len());
    assert("no-inline-locals"@.len() != "rename-globals"@.len());
    assert("inline-locals"@.len() != "no-merge-locals"@.len());
    assert("inline-locals"@.len() != "merge-locals"@.len());
    assert("inline-locals"@.len() != "no-simplify-indexes"@.len());
    assert("inline-locals"@.len() != "simplify-indexes"@.len());
    assert("inline-locals"@.len() != "no-shorten-strings"@.len());
    assert("inline-locals"@.len() != "shorten-strings"@.len());
    assert("inline-locals"@.len() != "no-shorten-numbers"@.len());
    assert("inline-locals"@.len() != "shorten-numbers"@.len());
    assert("inline-locals"@.len() != "no-simplify-parens"@.len());
    assert("inline-locals"@.len() != "simplify-parens"@.len());
    assert("inline-locals"@.len() != "no-rename-locals"@.len());
    assert("inline-locals"@[0] != "rename-locals"@[0]);
    assert("inline-locals"@.len() != "no-lift-locals"@.len());
    assert("inline-locals"@.len() != "lift-locals"@.len());
    assert("inline-locals"@.len() != "no-rename-globals"@.len());
    assert("inline-locals"@.len() != "rename-globals"@.len());
    assert("no-merge-locals"@.len() != "merge-locals"@.len());
    assert("no-merge-locals"@.len() != "no-simplify-indexes"@.len());
    assert("no-merge-locals"@.len() != "simplify-indexes"@.len());
    assert("no-merge-locals"@.len() != "no-shorten-strings"@.len());
    assert("no-merge-locals"@[0] != "shorten-strings"@[0]);
    assert("no-merge-locals"@.len() != "no-shorten-numbers"@.len());
    assert("no-merge-locals"@[0] != "shorten-numbers"@[0]);
    assert("no-merge-locals"@.len() != "no-simplify-parens"@.len());
    assert("no-merge-locals"@[0] != "simplify-parens"@[0]);
    assert("no-merge-locals"@.len() != "no-rename-locals"@.len());
    assert("no-merge-locals"@.len() != "rename-locals"@.len());
    assert("no-merge-locals"@.len() != "no-lift-locals"@.len());
    assert("no-merge-locals"@.len() != "lift-locals"@.len());
    assert("no-merge-locals"@.len() != "no-rename-globals"@.len());
    assert("no-merge-locals"@.len() != "rename-globals"@.len());
    assert("merge-locals"@.len() != "no-simplify-indexes"@.len());
    assert("merge-locals"@.len() != "simplify-indexes"@.len());
    assert("merge-locals"@.len() != "no-shorten-strings"@.len());
    assert("merge-locals"@.len() != "shorten-strings"@.len());
    assert("merge-locals"@.len() != "no-shorten-numbers"@.len());
    assert("merge-locals"@.len() != "shorten-numbers"@.len());
    assert("merge-locals"@.len() != "no-simplify-parens"@.len());
    assert("merge-locals"@.len() != "simplify-parens"@.len());
    assert("merge-locals"@.len() != "no-rename-locals"@.len());
    assert("merge-locals"@.len() != "rename-locals"@.len());
    assert("merge-locals"@.len() != "no-lift-locals"@.len());
    assert("merge-locals"@.len() != "lift-locals"@.len());
    assert("merge-locals"@.len() != "no-rename-globals"@.len());
    assert("merge-locals"@.len() != "rename-globals"@.len());
    assert("no-simplify-indexes"@.len() != "simplify-indexes"@.len());
    assert("no-simplify-indexes"@.len() != "no-shorten-strings"@.len());
    assert("no-simplify-indexes"@.len() != "shorten-strings"@.len());
    assert("no-simplify-indexes"@.len() != "no-shorten-numbers"@.len());
    assert("no-simplify-indexes"@.len() != "shorten-numbers"@.len());
    assert("no-simplify-indexes"@.len() != "no-simplify-parens"@.len());
    assert("no-simplify-indexes"@.len() != "simplify-parens"@.len());
    assert("no-simplify-indexes"@.len() != "no-rename-locals"@.len());
    assert("no-simplify-indexes"@.len() != "rename-locals"@.len());
    assert("no-simplify-indexes"@.len() != "no-lift-locals"@.len());
    assert("no-simplify-indexes"@.len() != "lift-locals"@.len());
    assert("no-simplify-indexes"@.len() != "no-rename-globals"@.len());
    assert("no-simplify-indexes"@.len() != "rename-globals"@.len());
    assert("simplify-indexes"@.len() != "no-shorten-strings"@.len());
    assert("simplify-indexes"@.len() != "shorten-strings"@.len());
    assert("simplify-indexes"@.len() != "no-shorten-numbers"@.len());
    assert("simplify-indexes"@.len() != "shorten-numbers"@.len());
    assert("simplify-indexes"@.len() != "no-simplify-parens"@.len());
    assert("simplify-indexes"@.len() != "simplify-parens"@.len());
    assert("simplify-indexes"@[0] != "no-rename-locals"@[0]);
    assert("simplify-indexes"@.len() != "rename-locals"@.len());
    assert("simplify-indexes"@.len() != "no-lift-locals"@.len());
    assert("simplify-indexes"@.len() != "lift-locals"@.len());
    assert("simplify-indexes"@.len() != "no-rename-globals"@.len());
    assert("simplify-indexes"@.len() != "rename-globals"@.len());
    assert("no-shorten-strings"@.len() != "shorten-strings"@.len());
    assert("no-shorten-strings"@[11] != "no-shorten-numbers"@[11]);
    assert("no-shorten-strings"@.len() != "shorten-numbers"@.len());
    assert("no-shorten-strings"@[4] != "no-simplify-parens"@[4]);
    assert("no-shorten-strings"@.len() != "simplify-parens"@.len());
    assert("no-shorten-strings"@.len() != "no-rename-locals"@.len());
    assert("no-shorten-strings"@.len() != "rename-locals"@.len());
    assert("no-shorten-strings"@.len() != "no-lift-locals"@.len());
    assert("no-shorten-strings"@.len() != "lift-locals"@.len());
    assert("no-shorten-strings"@.len() != "no-rename-globals"@.len());
    assert("no-shorten-strings"@.len() != "rename-globals"@.len());
    assert("shorten-strings"@.len() != "no-shorten-numbers"@.len());
    assert("shorten-strings"@[8] != "shorten-numbers"@[8]);
    assert("shorten-strings"@.len() != "no-simplify-parens"@.len());
    assert("shorten-strings"@[1] != "simplify-parens"@[1]);
    assert("shorten-strings"@.len() != "no-rename-locals"@.len());
    assert("shorten-strings"@.len() != "rename-locals"@.len());
    assert("shorten-strings"@.len() != "no-lift-locals"@.len());
    assert("shorten-strings"@.len() != "lift-locals"@.len());
    assert("shorten-strings"@.len() != "no-rename-globals"@.len());
    assert("shorten-strings"@.len() != "rename-globals"@.len());
    assert("no-shorten-numbers"@.len() != "shorten-numbers"@.len());
    assert("no-shorten-numbers"@[4] != "no-simplify-parens"@[4]);
    assert("no-shorten-numbers"@.len() != "simplify-parens"@.len());
    assert("no-shorten-numbers"@.len() != "no-rename-locals"@.len());
    assert("no-shorten-numbers"@.len() != "rename-locals"@.len());
    assert("no-shorten-numbers"@.len() != "no-lift-locals"@.len());
    assert("no-shorten-numbers"@.len() != "lift-locals"@.len());
    assert("no-shorten-numbers"@.len() != "no-rename-globals"@.len());
    assert("no-shorten-numbers"@.len() != "rename-globals"@.len());
    assert("shorten-numbers"@.len() != "no-simplify-parens"@.len());
    assert("shorten-numbers"@[1] != "simplify-parens"@[1]);
    assert("shorten-numbers"@.len() != "no-rename-locals"@.len());
    assert("shorten-numbers"@.len() != "rename-locals"@.len());
    assert("shorten-numbers"@.len() != "no-lift-locals"@.len());
    assert("shorten-numbers"@.len() != "lift-locals"@.len());
    assert("shorten-numbers"@.len() != "no-rename-globals"@.len());
    assert("shorten-numbers"@.len() != "rename-globals"@.len());
    assert("no-simplify-parens"@.len() != "simplify-parens"@.len());
    assert("no-simplify-parens"@.len() != "no-rename-locals"@.len());
    assert("no-simplify-parens"@.len() != "rename-locals"@.len());
    assert("no-simplify-parens"@.len() != "no-lift-locals"@.len());
    assert("no-simplify-parens"@.len() != "lift-locals"@.len());
    assert("no-simplify-parens"@.len() != "no-rename-globals"@.len());
    assert("no-simplify-parens"@.len() != "rename-globals"@.len());
    assert("simplify-parens"@.len() != "no-rename-locals"@.len());
    assert("simplify-parens"@.len() != "rename-locals"@.len());
    assert("simplify-parens"@.len() != "no-lift-locals"@.len());
    assert("simplify-parens"@.len() != "lift-locals"@.len());
    assert("simplify-parens"@.len() != "no-rename-globals"@.len());
    assert("simplify-parens"@.len() != "rename-globals"@.len());
    assert("no-rename-locals"@.len() != "rename-locals"@.len());
    assert("no-rename-locals"@.len() != "no-lift-locals"@.len());
    assert("no-rename-locals"@.len() != "lift-locals"@.len());
    assert("no-rename-locals"@.len() != "no-rename-globals"@.len());
    assert("no-rename-locals"@.len() != "rename-globals"@.len());
    assert("rename-locals"@.len() != "no-lift-locals"@.len());
    assert("rename-locals"@.len() != "lift-locals"@.len());
    assert("rename-locals"@.len() != "no-rename-globals"@.len());
    assert("rename-locals"@.len() != "rename-globals"@.len());
    assert("no-lift-locals"@.len() != "lift-locals"@.len());
    assert("no-lift-locals"@.len() != "no-rename-globals"@.len());
    assert("no-lift-locals"@[0] != "rename-globals"@[0]);
    assert("lift-locals"@.len() != "no-rename-globals"@.len());
    assert("lift-locals"@.len() != "rename-globals"@.len());
    assert("no-rename-globals"@.len() != "rename-globals"@.len());
}

/// Each minifier pass flag on the command line sets exactly the field of
/// the pass and polarity it names, and no other: the option spelled
/// `--<name>` is read into the field for `<name>`, and no two options share
/// a spelling.
pub proof fn law_each_pass_flag_sets_its_own_field(occ: Seq<(usize, Seq<char>)>, base: usize)
    requires
        base + 24 <= usize::MAX,
    ensures
        forall|j: int|
            0 <= j < 24 ==> pass_flag(minify_flags_given(occ, base), (#[trigger] minify_flag_views(base)[j]).long)
                == present(occ, (base + j) as usize),
        forall|i: int, j: int|
            0 <= i < j < 24 ==> (#[trigger] minify_flag_views(base)[i]).long != (#[trigger] minify_flag_views(base)[j]).long,
{
    lemma_pass_spellings_distinct();
    let views = minify_flag_views(base);
    let flags = minify_flags_given(occ, base);
    assert forall|j: int| 0 <= j < 24 implies pass_flag(flags, (#[trigger] views[j]).long) == present(occ, (base + j) as usize) by {
        if j == 0 {
            assert(views[j].long == "no-remove-dead-code"@);
        } else if j == 1 {
            assert(views[j].long == "remove-dead-code"@);
        } else if j == 2 {
            assert(views[j].long == "no-simplify-statements"@);
        } else if j == 3 {
            assert(views[j].long == "simplify-statements"@);
        } else if j == 4 {
            assert(views[j].long == "no-fold-constants"@);
        } else if j == 5 {
            assert(views[j].long == "fold-constants"@);
        } else if j == 6 {
            assert(views[j].long == "no-inline-locals"@);
        } else if j == 7 {
            assert(views[j].long == "inline-locals"@);
        } else if j == 8 {
            assert(views[j].long == "no-merge-locals"@);
        } else if j == 9 {
            assert(views[j].long == "merge-locals"@);
        } else if j == 10 {
            assert(views[j].long == "no-simplify-indexes"@);
        } else if j == 11 {
            assert(views[j].long == "simplify-indexes"@);
        } else if j == 12 {
            assert(views[j].long == "no-shorten-strings"@);
        } else if j == 13 {
            assert(views[j].long == "shorten-strings"@);
        } else if j == 14 {
            assert(views[j].long == "no-shorten-numbers"@);
        } else if j == 15 {
            assert(views[j].long == "shorten-numbers"@);
        } else if j == 16 {
            assert(views[j].long == "no-simplify-parens"@);
        } else if j == 17 {
            assert(views[j].long == "simplify-parens"@);
        } else if j == 18 {
            assert(views[j].long == "no-rename-locals"@);
        } else if j == 19 {
            assert(views[j].long == "rename-locals"@);
        } else if j == 20 {
            assert(views[j].long == "no-lift-locals"@);
        } else if j == 21 {
            assert(views[j].long == "lift-locals"@);
        } else if j == 22 {
            assert(views[j].long == "no-rename-globals"@);
        } else if j == 23 {
            assert(views[j].long == "rename-globals"@);
        }
    }
    assert forall|i: int, j: int| 0 <= i < j < 24 implies (#[trigger] views[i]).long != (#[trigger] views[j]).long by {
        if i == 0 {
            assert(views[i].long == "no-remove-dead-code"@);
        } else if i == 1 {
            assert(views[i].long == "remove-dead-code"@);
        } else if i == 2 {
            assert(views[i].long == "no-simplify-statements"@);
        } else if i == 3 {
            assert(views[i].long == "simplify-statements"@);
        } else if i == 4 {
            assert(views[i].long == "no-fold-constants"@);
        } else if i == 5 {
            assert(views[i].long == "fold-constants"@);
        } else if i == 6 {
            assert(views[i].long == "no-inline-locals"@);
        } else if i == 7 {
            assert(views[i].long == "inline-locals"@);
        } else if i == 8 {
            assert(views[i].long == "no-merge-locals"@);
        } else if i == 9 {
            assert(views[i].long == "merge-locals"@);
        } else if i == 10 {
            assert(views[i].long == "no-simplify-indexes"@);
        } else if i == 11 {
            assert(views[i].long == "simplify-indexes"@);
        } else if i == 12 {
            assert(views[i].long == "no-shorten-strings"@);
        } else if i == 13 {
            assert(views[i].long == "shorten-strings"@);
        } else if i == 14 {
            assert(views[i].long == "no-shorten-numbers"@);
        } else if i == 15 {
            assert(views[i].long == "shorten-numbers"@);
        } else if i == 16 {
            assert(views[i].long == "no-simplify-parens"@);
        } else if i == 17 {
            assert(views[i].long == "simplify-parens"@);
        } else if i == 18 {
            assert(views[i].long == "no-rename-locals"@);
        } else if i == 19 {
            assert(views[i].long == "rename-locals"@);
        } else if i == 20 {
            assert(views[i].long == "no-lift-locals"@);
        } else if i == 21 {
            assert(views[i].long == "lift-locals"@);
        } else if i == 22 {
            assert(views[i].long == "no-rename-globals"@);
        } else if i == 23 {
            assert(views[i].long == "rename-globals"@);
        }
    }
}

/// Appends the minifier pass flags to `opts`, from index `opts.len()` on.
fn push_minify_flags(opts: &mut Vec<OptDef>)
    requires
        old(opts)@.len() + 24 <= usize::MAX,
    ensures
        opt_views(final(opts)@) == opt_views(old(opts)@) + minify_flag_views(old(opts)@.len() as usize),
{
    let base = opts.len();
    opts.push(OptDef { long: "no-remove-dead-code", short: None, takes_value: false, repeatable: false, overrides: Some(base + 1) });
    opts.push(OptDef { long: "remove-dead-code", short: None, takes_value: false, repeatable: false, overrides: Some(base + 0) });
    opts.push(OptDef { long: "no-simplify-statements", short: None, takes_value: false, repeatable: false, overrides: Some(base + 3) });
    opts.push(OptDef { long: "simplify-statements", short: None, takes_value: false, repeatable: false, overrides: Some(base + 2) });
    opts.push(OptDef { long: "no-fold-constants", short: None, takes_value: false, repeatable: false, overrides: Some(base + 5) });
    opts.push(OptDef { long: "fold-constants", short: None, takes_value: false, repeatable: false, overrides: Some(base + 4) });
    opts.push(OptDef { long: "no-inline-locals", short: None, takes_value: false, repeatable: false, overrides: Some(base + 7) });
    opts.push(OptDef { long: "inline-locals", short: None, takes_value: false, repeatable: false, overrides: Some(base + 6) });
    opts.push(OptDef { long: "no-merge-locals", short: None, takes_value: false, repeatable: false, overrides: Some(base + 9) });
    opts.push(OptDef { long: "merge-locals", short: None, takes_value: false, repeatable: false, overrides: Some(base + 8) });
    opts.push(OptDef { long: "no-simplify-indexes", short: None, takes_value: false, repeatable: false, overrides: Some(base + 11) });
    opts.push(OptDef { long: "simplify-indexes", short: None, takes_value: false, repeatable: false, overrides: Some(base + 10) });
    opts.push(OptDef { long: "no-shorten-strings", short: None, takes_value: false, repeatable: false, overrides: Some(base + 13) });
    opts.push(OptDef { long: "shorten-strings", short: None, takes_value: false, repeatable: false, overrides: Some(base + 12) });
    opts.push(OptDef { long: "no-shorten-numbers", short: None, takes_value: false, repeatable: false, overrides: Some(base + 15) });
    opts.push(OptDef { long: "shorten-numbers", short: None, takes_value: false, repeatable: false, overrides: Some(base + 14) });
    opts.push(OptDef { long: "no-simplify-parens", short: None, takes_value: false, repeatable: false, overrides: Some(base + 17) });
    opts.push(OptDef { long: "simplify-parens", short: None, takes_value: false, repeatable: false, overrides: Some(base + 16) });
    opts.push(OptDef { long: "no-rename-locals", short: None, takes_value: false, repeatable: false, overrides: Some(base + 19) });
    opts.push(OptDef { long: "rename-locals", short: None, takes_value: false, repeatable: false, overrides: Some(base + 18) });
    opts.push(OptDef { long: "no-lift-locals", short: None, takes_value: false, repeatable: false, overrides: Some(base + 21) });
    opts.push(OptDef { long: "lift-locals", short: None, takes_value: false, repeatable: false, overrides: Some(base + 20) });
    opts.push(OptDef { long: "no-rename-globals", short: None, takes_value: false, repeatable: false, overrides: Some(base + 23) });
    opts.push(OptDef { long: "rename-globals", short: None, takes_value: false, repeatable: false, overrides: Some(base + 22) });
    proof {
        assert(opt_views(opts@) =~= opt_views(old(opts)@) + minify_flag_views(base));
    }
}

/// The minifier pass flags given, read from index `base` on.
pub open spec fn minify_flags_given(occ: Seq<(usize, Seq<char>)>, base: usize) -> MinifyFlags {
    MinifyFlags {
        no_remove_dead_code: present(occ, (base + 0) as usize),
        remove_dead_code: present(occ, (base + 1) as usize),
        no_simplify_statements: present(occ, (base + 2) as usize),
        simplify_statements: present(occ, (base + 3) as usize),
        no_fold_constants: present(occ, (base + 4) as usize),
        fold_constants: present(occ, (base + 5) as usize),
        no_inline_locals: present(occ, (base + 6) as usize),
        inline_locals: present(occ, (base + 7) as usize),
        no_merge_locals: present(occ, (base + 8) as usize),
        merge_locals: present(occ, (base + 9) as usize),
        no_simplify_indexes: present(occ, (base + 10) as usize),
        simplify_indexes: present(occ, (base + 11) as usize),
        no_shorten_strings: present(occ, (base + 12) as usize),
        shorten_strings: present(occ, (base + 13) as usize),
        no_shorten_numbers: present(occ, (base + 14) as usize),
        shorten_numbers: present(occ, (base + 15) as usize),
        no_simplify_parens: present(occ, (base + 16) as usize),
        simplify_parens: present(occ, (base + 17) as usize),
        no_rename_locals: present(occ, (base + 18) as usize),
        rename_locals: present(occ, (base + 19) as usize),
        no_lift_locals: present(occ, (base + 20) as usize),
        lift_locals: present(occ, (base + 21) as usize),
        no_rename_globals: present(occ, (base + 22) as usize),
        rename_globals: present(occ, (base + 23) as usize),
    }
}

/// The minifier pass flags given, read from index `base` on.
fn read_minify_flags(scan: &Scan, base: usize) -> (flags: MinifyFlags)
    requires
        base + 24 <= usize::MAX,
    ensures
        flags == minify_flags_given(scan.view_of().occurrences, base),
{
    MinifyFlags {
        no_remove_dead_code: get_flag(scan, base + 0),
        remove_dead_code: get_flag(scan, base + 1),
        no_simplify_statements: get_flag(scan, base + 2),
        simplify_statements: get_flag(scan, base + 3),
        no_fold_constants: get_flag(scan, base + 4),
        fold_constants: get_flag(scan, base + 5),
        no_inline_locals: get_flag(scan, base + 6),
        inline_locals: get_flag(scan, base + 7),
        no_merge_locals: get_flag(scan, base + 8),
        merge_locals: get_flag(scan, base + 9),
        no_simplify_indexes: get_flag(scan, base + 10),
        simplify_indexes: get_flag(scan, base + 11),
        no_shorten_strings: get_flag(scan, base + 12),
        shorten_strings: get_flag(scan, base + 13),
        no_shorten_numbers: get_flag(scan, base + 14),
        shorten_numbers: get_flag(scan, base + 15),
        no_simplify_parens: get_flag(scan, base + 16),
        simplify_parens: get_flag(scan, base + 17),
        no_rename_locals: get_flag(scan, base + 18),
        rename_locals: get_flag(scan, base + 19),
        no_lift_locals: get_flag(scan, base + 20),
        lift_locals: get_flag(scan, base + 21),
        no_rename_globals: get_flag(scan, base + 22),
        rename_globals: get_flag(scan, base + 23),
    }
}

/// A copy of `strings`.
fn clone_all(strings: &Vec<String>) -> (copy: Vec<String>)
    ensures
        string_views(copy@) == string_views(strings@),
{
    let mut copy: Vec<String> = Vec::new();
    let mut i: usize = 0;
    while i < strings.len()
        invariant
            i <= strings@.len(),
            string_views(copy@) == string_views(strings@.take(i as int)),
        decreases strings@.len() - i,
    {
        let ghost before = copy@;
        copy.push(strings[i].clone());
        proof {
            assert(string_views(copy@) =~= string_views(before).push(strings@[i as int]@));
            assert(string_views(strings@.take(i + 1)) =~= string_views(strings@.take(i as int)).push(strings@[i as int]@));
        }
        i += 1;
    }
    proof {
        assert(strings@.take(i as int) =~= strings@);
    }
    copy
}

/// The options of `luck init`.
pub open spec fn init_table() -> Seq<OptView> {
    seq![
        opt_view("target"@, Some('t'), true, false),
    ]
}

/// The options of `luck init`.
fn init_options() -> (opts: Vec<OptDef>)
    ensures
        opt_views(opts@) == init_table(),
{
    let mut opts: Vec<OptDef> = Vec::new();
    opts.push(opt("target", Some('t'), true, false));
    proof {
        assert(opt_views(opts@) =~= init_table());
    }
    opts
}

/// Why the scanned arguments of `luck init` are refused, if they are:
/// positional arguments first, then conflicting options, then values.
pub open spec fn init_error(st: ScanView) -> Option<(ArgErrorKind, Seq<char>)> {
    let occ = st.occurrences;
    if st.positionals.len() > 0 {
        Some((ArgErrorKind::ExtraPositional, st.positionals[0]))
    } else {
        None
    }
}

/// The arguments of `luck init` read off scanned arguments `st`.
pub open spec fn init_fields(st: ScanView, a: InitArgs) -> bool {
    let occ = st.occurrences;
    &&& opt_text(a.target) == last_value(occ, 0)
}

/// The arguments of `luck init` from the scan.
fn init_args(scan: &Scan) -> (r: Result<InitArgs, ArgError>)
    ensures
        match r {
            Ok(a) => init_error(scan.view_of()) is None && init_fields(scan.view_of(), a),
            Err(e) => init_error(scan.view_of()) == Some(e.model()),
        },
{
    let ghost st = scan.view_of();
    if scan.positionals.len() > 0 {
        return Err(arg_error(ArgErrorKind::ExtraPositional, scan.positionals[0].clone()));
    }
    let a = InitArgs {
        target: get_last(scan, 0),
    };
    proof {
    }
    Ok(a)
}

/// The options of `luck build`.
pub open spec fn build_table() -> Seq<OptView> {
    seq![
        opt_view("config"@, Some('c'), true, false),
        opt_view("dry-run"@, None, false, false),
        opt_view("profile"@, Some('P'), true, false),
        opt_view("release"@, None, false, false),
        opt_view("dev"@, None, false, false),
        opt_view("watch"@, Some('w'), false, false),
    ]
}

/// The options of `luck build`.
fn build_options() -> (opts: Vec<OptDef>)
    ensures
        opt_views(opts@) == build_table(),
{
    let mut opts: Vec<OptDef> = Vec::new();
    opts.push(opt("config", Some('c'), true, false));
    opts.push(opt("dry-run", None, false, false));
    opts.push(opt("profile", Some('P'), true, false));
    opts.push(opt("release", None, false, false));
    opts.push(opt("dev", None, false, false));
    opts.push(opt("watch", Some('w'), false, false));
    proof {
        assert(opt_views(opts@) =~= build_table());
    }
    opts
}

/// Why the scanned arguments of `luck build` are refused, if they are:
/// positional arguments first, then conflicting options, then values.
pub open spec fn build_error(st: ScanView) -> Option<(ArgErrorKind, Seq<char>)> {
    let occ = st.occurrences;
    if st.positionals.len() > 0 {
        Some((ArgErrorKind::ExtraPositional, st.positionals[0]))
    } else if present(occ, 1) && present(occ, 5) {
        Some((ArgErrorKind::Conflict, "--dry-run"@))
    } else if present(occ, 3) && present(occ, 2) {
        Some((ArgErrorKind::Conflict, "--release"@))
    } else if present(occ, 4) && present(occ, 2) {
        Some((ArgErrorKind::Conflict, "--dev"@))
    } else {
        None
    }
}

/// The arguments of `luck build` read off scanned arguments `st`.
pub open spec fn build_fields(st: ScanView, a: BuildArgs) -> bool {
    let occ = st.occurrences;
    &&& opt_text(a.config) == last_value(occ, 0)
    &&& a.dry_run == present(occ, 1)
    &&& opt_text(a.profile) == last_value(occ, 2)
    &&& a.release == present(occ, 3)
    &&& a.dev == present(occ, 4)
    &&& a.watch == present(occ, 5)
}

/// The arguments of `luck build` from the scan.
fn build_args(scan: &Scan) -> (r: Result<BuildArgs, ArgError>)
    ensures
        match r {
            Ok(a) => build_error(scan.view_of()) is None && build_fields(scan.view_of(), a),
            Err(e) => build_error(scan.view_of()) == Some(e.model()),
        },
{
    let ghost st = scan.view_of();
    if scan.positionals.len() > 0 {
        return Err(arg_error(ArgErrorKind::ExtraPositional, scan.positionals[0].clone()));
    }
    if get_flag(scan, 1) && get_flag(scan, 5) {
        let mut label = String::new();
        push_str(&mut label, "--dry-run");
        return Err(arg_error(ArgErrorKind::Conflict, label));
    }
    if get_flag(scan, 3) && get_flag(scan, 2) {
        let mut label = String::new();
        push_str(&mut label, "--release");
        return Err(arg_error(ArgErrorKind::Conflict, label));
    }
    if get_flag(scan, 4) && get_flag(scan, 2) {
        let mut label = String::new();
        push_str(&mut label, "--dev");
        return Err(arg_error(ArgErrorKind::Conflict, label));
    }
    let a = BuildArgs {
        config: get_last(scan, 0),
        dry_run: get_flag(scan, 1),
        profile: get_last(scan, 2),
        release: get_flag(scan, 3),
        dev: get_flag(scan, 4),
        watch: get_flag(scan, 5),
    };
    proof {
    }
    Ok(a)
}

/// The options of `luck bundle`.
pub open spec fn bundle_table() -> Seq<OptView> {
    seq![
        opt_view("target"@, Some('t'), true, false),
        opt_view("output"@, Some('o'), true, false),
        opt_view("search-path"@, Some('s'), true, true),
        opt_view("minify"@, None, false, false),
        opt_view("line-map"@, None, true, false),
    ] + minify_flag_views(5)
}

/// The options of `luck bundle`.
fn bundle_options() -> (opts: Vec<OptDef>)
    ensures
        opt_views(opts@) == bundle_table(),
{
    let mut opts: Vec<OptDef> = Vec::new();
    opts.push(opt("target", Some('t'), true, false));
    opts.push(opt("output", Some('o'), true, false));
    opts.push(opt("search-path", Some('s'), true, true));
    opts.push(opt("minify", None, false, false));
    opts.push(opt("line-map", None, true, false));
    let ghost plain = opt_views(opts@);
    push_minify_flags(&mut opts);
    proof {
        assert(plain =~= seq![
            opt_view("target"@, Some('t'), true, false),
            opt_view("output"@, Some('o'), true, false),
            opt_view("search-path"@, Some('s'), true, true),
            opt_view("minify"@, None, false, false),
            opt_view("line-map"@, None, true, false),
        ]);
        assert(opt_views(opts@) =~= bundle_table());
    }
    opts
}

/// Why the scanned arguments of `luck bundle` are refused, if they are:
/// positional arguments first, then conflicting options, then values.
pub open spec fn bundle_error(st: ScanView) -> Option<(ArgErrorKind, Seq<char>)> {
    let occ = st.occurrences;
    if st.positionals.len() == 0 {
        Some((ArgErrorKind::MissingPositional, "<ENTRY>"@))
    } else if st.positionals.len() > 1 {
        Some((ArgErrorKind::ExtraPositional, st.positionals[1]))
    } else if present(occ, 4) && present(occ, 3) {
        Some((ArgErrorKind::Conflict, "--line-map"@))
    } else {
        None
    }
}

/// The arguments of `luck bundle` read off scanned arguments `st`.
pub open spec fn bundle_fields(st: ScanView, a: BundleArgs) -> bool {
    let occ = st.occurrences;
    &&& a.entry@ == st.positionals[0]
    &&& opt_text(a.target) == last_value(occ, 0)
    &&& opt_text(a.output) == last_value(occ, 1)
    &&& string_views(a.search_path@) == values_of(occ, 2)
    &&& a.minify == present(occ, 3)
    &&& opt_text(a.line_map) == last_value(occ, 4)
    &&& a.minify_flags == minify_flags_given(occ, 5)
}

/// The arguments of `luck bundle` from the scan.
fn bundle_args(scan: &Scan) -> (r: Result<BundleArgs, ArgError>)
    ensures
        match r {
            Ok(a) => bundle_error(scan.view_of()) is None && bundle_fields(scan.view_of(), a),
            Err(e) => bundle_error(scan.view_of()) == Some(e.model()),
        },
{
    let ghost st = scan.view_of();
    if scan.positionals.len() == 0 {
        let mut label = String::new();
        push_str(&mut label, "<ENTRY>");
        return Err(arg_error(ArgErrorKind::MissingPositional, label));
    }
    if scan.positionals.len() > 1 {
        return Err(arg_error(ArgErrorKind::ExtraPositional, scan.positionals[1].clone()));
    }
    if get_flag(scan, 4) && get_flag(scan, 3) {
        let mut label = String::new();
        push_str(&mut label, "--line-map");
        return Err(arg_error(ArgErrorKind::Conflict, label));
    }
    let a = BundleArgs {
        entry: scan.positionals[0].clone(),
        target: get_last(scan, 0),
        output: get_last(scan, 1),
        search_path: get_all(scan, 2),
        minify: get_flag(scan, 3),
        line_map: get_last(scan, 4),
        minify_flags: read_minify_flags(scan, 5),
    };
    proof {
    }
    Ok(a)
}

/// The options of `luck minify`.
pub open spec fn minify_table() -> Seq<OptView> {
    seq![
        opt_view("target"@, Some('t'), true, false),
        opt_view("output"@, Some('o'), true, false),
        opt_view("stats"@, None, false, false),
    ] + minify_flag_views(3)
}

/// The options of `luck minify`.
fn minify_options() -> (opts: Vec<OptDef>)
    ensures
        opt_views(opts@) == minify_table(),
{
    let mut opts: Vec<OptDef> = Vec::new();
    opts.push(opt("target", Some('t'), true, false));
    opts.push(opt("output", Some('o'), true, false));
    opts.push(opt("stats", None, false, false));
    let ghost plain = opt_views(opts@);
    push_minify_flags(&mut opts);
    proof {
        assert(plain =~= seq![
            opt_view("target"@, Some('t'), true, false),
            opt_view("output"@, Some('o'), true, false),
            opt_view("stats"@, None, false, false),
        ]);
        assert(opt_views(opts@) =~= minify_table());
    }
    opts
}

/// Why the scanned arguments of `luck minify` are refused, if they are:
/// positional arguments first, then conflicting options, then values.
pub open spec fn minify_error(st: ScanView) -> Option<(ArgErrorKind, Seq<char>)> {
    let occ = st.occurrences;
    if st.positionals.len() == 0 {
        Some((ArgErrorKind::MissingPositional, "<INPUT>"@))
    } else if st.positionals.len() > 1 {
        Some((ArgErrorKind::ExtraPositional, st.positionals[1]))
    } else {
        None
    }
}

/// The arguments of `luck minify` read off scanned arguments `st`.
pub open spec fn minify_fields(st: ScanView, a: MinifyArgs) -> bool {
    let occ = st.occurrences;
    &&& a.input@ == st.positionals[0]
    &&& opt_text(a.target) == last_value(occ, 0)
    &&& opt_text(a.output) == last_value(occ, 1)
    &&& a.stats == present(occ, 2)
    &&& a.minify_flags == minify_flags_given(occ, 3)
}

/// The arguments of `luck minify` from the scan.
fn minify_args(scan: &Scan) -> (r: Result<MinifyArgs, ArgError>)
    ensures
        match r {
            Ok(a) => minify_error(scan.view_of()) is None && minify_fields(scan.view_of(), a),
            Err(e) => minify_error(scan.view_of()) == Some(e.model()),
        },
{
    let ghost st = scan.view_of();
    if scan.positionals.len() == 0 {
        let mut label = String::new();
        push_str(&mut label, "<INPUT>");
        return Err(arg_error(ArgErrorKind::MissingPositional, label));
    }
    if scan.positionals.len() > 1 {
        return Err(arg_error(ArgErrorKind::ExtraPositional, scan.positionals[1].clone()));
    }
    let a = MinifyArgs {
        input: scan.positionals[0].clone(),
        target: get_last(scan, 0),
        output: get_last(scan, 1),
        stats: get_flag(scan, 2),
        minify_flags: read_minify_flags(scan, 3),
    };
    proof {
    }
    Ok(a)
}

/// The options of `luck graph`.
pub open spec fn graph_table() -> Seq<OptView> {
    seq![
        opt_view("target"@, Some('t'), true, false),
        opt_view("search-path"@, Some('s'), true, true),
        opt_view("format"@, None, true, false),
    ]
}

/// The options of `luck graph`.
fn graph_options() -> (opts: Vec<OptDef>)
    ensures
        opt_views(opts@) == graph_table(),
{
    let mut opts: Vec<OptDef> = Vec::new();
    opts.push(opt("target", Some('t'), true, false));
    opts.push(opt("search-path", Some('s'), true, true));
    opts.push(opt("format", None, true, false));
    proof {
        assert(opt_views(opts@) =~= graph_table());
    }
    opts
}

/// Why the scanned arguments of `luck graph` are refused, if they are:
/// positional arguments first, then conflicting options, then values.
pub open spec fn graph_error(st: ScanView) -> Option<(ArgErrorKind, Seq<char>)> {
    let occ = st.occurrences;
    if st.positionals.len() == 0 {
        Some((ArgErrorKind::MissingPositional, "<ENTRY>"@))
    } else if st.positionals.len() > 1 {
        Some((ArgErrorKind::ExtraPositional, st.positionals[1]))
    } else if last_value(occ, 2) is Some && !(last_value(occ, 2)->0 == "json"@ || last_value(occ, 2)->0 == "dot"@) {
        Some((ArgErrorKind::InvalidValue, last_value(occ, 2)->0))
    } else {
        None
    }
}

/// The arguments of `luck graph` read off scanned arguments `st`.
pub open spec fn graph_fields(st: ScanView, a: GraphArgs) -> bool {
    let occ = st.occurrences;
    &&& a.entry@ == st.positionals[0]
    &&& opt_text(a.target) == last_value(occ, 0)
    &&& string_views(a.search_path@) == values_of(occ, 1)
    &&& a.format == (if last_value(occ, 2) == Some("dot"@) {
        GraphFormat::Dot
    } else {
        GraphFormat::Json
    })
}

/// The arguments of `luck graph` from the scan.
fn graph_args(scan: &Scan) -> (r: Result<GraphArgs, ArgError>)
    ensures
        match r {
            Ok(a) => graph_error(scan.view_of()) is None && graph_fields(scan.view_of(), a),
            Err(e) => graph_error(scan.view_of()) == Some(e.model()),
        },
{
    let ghost st = scan.view_of();
    if scan.positionals.len() == 0 {
        let mut label = String::new();
        push_str(&mut label, "<ENTRY>");
        return Err(arg_error(ArgErrorKind::MissingPositional, label));
    }
    if scan.positionals.len() > 1 {
        return Err(arg_error(ArgErrorKind::ExtraPositional, scan.positionals[1].clone()));
    }
    let raw_format = get_last(scan, 2);
    let format = match &raw_format {
        Some(v) => {
            let chars = chars_of(v.as_str());
            if spells(&chars, "dot") {
                GraphFormat::Dot
            } else if spells(&chars, "json") {
                GraphFormat::Json
            } else {
                return Err(arg_error(ArgErrorKind::InvalidValue, v.clone()));
            }
        },
        None => GraphFormat::Json,
    };
    let a = GraphArgs {
        entry: scan.positionals[0].clone(),
        target: get_last(scan, 0),
        search_path: get_all(scan, 1),
        format,
    };
    proof {
        assert(opt_text(raw_format) == last_value(st.occurrences, 2));
    }
    Ok(a)
}

/// The options of `luck lint`.
pub open spec fn lint_table() -> Seq<OptView> {
    seq![
        opt_view("config"@, Some('c'), true, false),
        opt_view("allow"@, Some('A'), true, true),
        opt_view("warn"@, Some('W'), true, true),
        opt_view("deny"@, Some('D'), true, true),
        opt_view("global"@, None, true, true),
        opt_view("fix"@, None, false, false),
        opt_view("format"@, Some('f'), true, false),
        opt_view("max-warnings"@, None, true, false),
        opt_view("deny-warnings"@, None, false, false),
        opt_view("silent"@, None, false, false),
        opt_view("rules"@, None, false, false),
        opt_view("print-config"@, None, false, false),
        opt_view("stdin-filepath"@, None, true, false),
    ]
}

/// The options of `luck lint`.
fn lint_options() -> (opts: Vec<OptDef>)
    ensures
        opt_views(opts@) == lint_table(),
{
    let mut opts: Vec<OptDef> = Vec::new();
    opts.push(opt("config", Some('c'), true, false));
    opts.push(opt("allow", Some('A'), true, true));
    opts.push(opt("warn", Some('W'), true, true));
    opts.push(opt("deny", Some('D'), true, true));
    opts.push(opt("global", None, true, true));
    opts.push(opt("fix", None, false, false));
    opts.push(opt("format", Some('f'), true, false));
    opts.push(opt("max-warnings", None, true, false));
    opts.push(opt("deny-warnings", None, false, false));
    opts.push(opt("silent", None, false, false));
    opts.push(opt("rules", None, false, false));
    opts.push(opt("print-config", None, false, false));
    opts.push(opt("stdin-filepath", None, true, false));
    proof {
        assert(opt_views(opts@) =~= lint_table());
    }
    opts
}

/// Why the scanned arguments of `luck lint` are refused, if they are:
/// positional arguments first, then conflicting options, then values.
pub open spec fn lint_error(st: ScanView) -> Option<(ArgErrorKind, Seq<char>)> {
    let occ = st.occurrences;
    if last_value(occ, 6) is Some && !(last_value(occ, 6)->0 == "default"@ || last_value(occ, 6)->0 == "json"@) {
        Some((ArgErrorKind::InvalidValue, last_value(occ, 6)->0))
    } else if last_value(occ, 7) is Some && parse_usize(last_value(occ, 7)->0) is None {
        Some((ArgErrorKind::InvalidValue, last_value(occ, 7)->0))
    } else {
        None
    }
}

/// The arguments of `luck lint` read off scanned arguments `st`.
pub open spec fn lint_fields(st: ScanView, a: LintArgs) -> bool {
    let occ = st.occurrences;
    &&& string_views(a.paths@) == st.positionals
    &&& opt_text(a.config) == last_value(occ, 0)
    &&& string_views(a.allow@) == values_of(occ, 1)
    &&& string_views(a.warn@) == values_of(occ, 2)
    &&& string_views(a.deny@) == values_of(occ, 3)
    &&& string_views(a.globals@) == values_of(occ, 4)
    &&& a.fix == present(occ, 5)
    &&& a.format == (if last_value(occ, 6) == Some("json"@) {
        LintFormat::Json
    } else {
        LintFormat::Default
    })
    &&& a.max_warnings == (match last_value(occ, 7) {
        Some(v) => parse_usize(v),
        None => None,
    })
    &&& a.deny_warnings == present(occ, 8)
    &&& a.silent == present(occ, 9)
    &&& a.rules == present(occ, 10)
    &&& a.print_config == present(occ, 11)
    &&& opt_text(a.stdin_filepath) == last_value(occ, 12)
}

/// The arguments of `luck lint` from the scan.
fn lint_args(scan: &Scan) -> (r: Result<LintArgs, ArgError>)
    ensures
        match r {
            Ok(a) => lint_error(scan.view_of()) is None && lint_fields(scan.view_of(), a),
            Err(e) => lint_error(scan.view_of()) == Some(e.model()),
        },
{
    let ghost st = scan.view_of();
    let raw_format = get_last(scan, 6);
    let format = match &raw_format {
        Some(v) => {
            let chars = chars_of(v.as_str());
            if spells(&chars, "json") {
                LintFormat::Json
            } else if spells(&chars, "default") {
                LintFormat::Default
            } else {
                return Err(arg_error(ArgErrorKind::InvalidValue, v.clone()));
            }
        },
        None => LintFormat::Default,
    };
    let raw_max_warnings = get_last(scan, 7);
    let max_warnings = match &raw_max_warnings {
        Some(v) => match parse_usize_value(v.as_str()) {
            Some(n) => Some(n),
            None => return Err(arg_error(ArgErrorKind::InvalidValue, v.clone())),
        },
        None => None,
    };
    let a = LintArgs {
        paths: clone_all(&scan.positionals),
        config: get_last(scan, 0),
        allow: get_all(scan, 1),
        warn: get_all(scan, 2),
        deny: get_all(scan, 3),
        globals: get_all(scan, 4),
        fix: get_flag(scan, 5),
        format,
        max_warnings,
        deny_warnings: get_flag(scan, 8),
        silent: get_flag(scan, 9),
        rules: get_flag(scan, 10),
        print_config: get_flag(scan, 11),
        stdin_filepath: get_last(scan, 12),
    };
    proof {
        assert(opt_text(raw_format) == last_value(st.occurrences, 6));
        assert(opt_text(raw_max_warnings) == last_value(st.occurrences, 7));
    }
    Ok(a)
}

/// The options of `luck fmt`.
pub open spec fn fmt_table() -> Seq<OptView> {
    seq![
        opt_view("write"@, None, false, false),
        opt_view("check"@, None, false, false),
        opt_view("list-different"@, None, false, false),
        opt_view("config"@, Some('c'), true, false),
        opt_view("no-editorconfig"@, None, false, false),
        opt_view("stdin-filepath"@, None, true, false),
        opt_view("range-start"@, None, true, false),
        opt_view("range-end"@, None, true, false),
        opt_view("verify"@, None, false, false),
    ]
}

/// The options of `luck fmt`.
fn fmt_options() -> (opts: Vec<OptDef>)
    ensures
        opt_views(opts@) == fmt_table(),
{
    let mut opts: Vec<OptDef> = Vec::new();
    opts.push(opt("write", None, false, false));
    opts.push(opt("check", None, false, false));
    opts.push(opt("list-different", None, false, false));
    opts.push(opt("config", Some('c'), true, false));
    opts.push(opt("no-editorconfig", None, false, false));
    opts.push(opt("stdin-filepath", None, true, false));
    opts.push(opt("range-start", None, true, false));
    opts.push(opt("range-end", None, true, false));
    opts.push(opt("verify", None, false, false));
    proof {
        assert(opt_views(opts@) =~= fmt_table());
    }
    opts
}

/// Why the scanned arguments of `luck fmt` are refused, if they are:
/// positional arguments first, then conflicting options, then values.
pub open spec fn fmt_error(st: ScanView) -> Option<(ArgErrorKind, Seq<char>)> {
    let occ = st.occurrences;
    if present(occ, 1) && present(occ, 0) {
        Some((ArgErrorKind::Conflict, "--check"@))
    } else if present(occ, 2) && present(occ, 0) {
        Some((ArgErrorKind::Conflict, "--list-different"@))
    } else if present(occ, 2) && present(occ, 1) {
        Some((ArgErrorKind::Conflict, "--list-different"@))
    } else if present(occ, 8) && present(occ, 6) {
        Some((ArgErrorKind::Conflict, "--verify"@))
    } else if present(occ, 8) && present(occ, 7) {
        Some((ArgErrorKind::Conflict, "--verify"@))
    } else if last_value(occ, 6) is Some && parse_usize(last_value(occ, 6)->0) is None {
        Some((ArgErrorKind::InvalidValue, last_value(occ, 6)->0))
    } else if last_value(occ, 7) is Some && parse_usize(last_value(occ, 7)->0) is None {
        Some((ArgErrorKind::InvalidValue, last_value(occ, 7)->0))
    } else {
        None
    }
}

/// The arguments of `luck fmt` read off scanned arguments `st`.
pub open spec fn fmt_fields(st: ScanView, a: FmtArgs) -> bool {
    let occ = st.occurrences;
    &&& string_views(a.paths@) == st.positionals
    &&& a.write == present(occ, 0)
    &&& a.check == present(occ, 1)
    &&& a.list_different == present(occ, 2)
    &&& opt_text(a.config) == last_value(occ, 3)
    &&& a.no_editorconfig == present(occ, 4)
    &&& opt_text(a.stdin_filepath) == last_value(occ, 5)
    &&& a.range_start == (match last_value(occ, 6) {
        Some(v) => parse_usize(v),
        None => None,
    })
    &&& a.range_end == (match last_value(occ, 7) {
        Some(v) => parse_usize(v),
        None => None,
    })
    &&& a.verify == present(occ, 8)
}

/// The arguments of `luck fmt` from the scan.
fn fmt_args(scan: &Scan) -> (r: Result<FmtArgs, ArgError>)
    ensures
        match r {
            Ok(a) => fmt_error(scan.view_of()) is None && fmt_fields(scan.view_of(), a),
            Err(e) => fmt_error(scan.view_of()) == Some(e.model()),
        },
{
    let ghost st = scan.view_of();
    if get_flag(scan, 1) && get_flag(scan, 0) {
        let mut label = String::new();
        push_str(&mut label, "--check");
        return Err(arg_error(ArgErrorKind::Conflict, label));
    }
    if get_flag(scan, 2) && get_flag(scan, 0) {
        let mut label = String::new();
        push_str(&mut label, "--list-different");
        return Err(arg_error(ArgErrorKind::Conflict, label));
    }
    if get_flag(scan, 2) && get_flag(scan, 1) {
        let mut label = String::new();
        push_str(&mut label, "--list-different");
        return Err(arg_error(ArgErrorKind::Conflict, label));
    }
    if get_flag(scan, 8) && get_flag(scan, 6) {
        let mut label = String::new();
        push_str(&mut label, "--verify");
        return Err(arg_error(ArgErrorKind::Conflict, label));
    }
    if get_flag(scan, 8) && get_flag(scan, 7) {
        let mut label = String::new();
        push_str(&mut label, "--verify");
        return Err(arg_error(ArgErrorKind::Conflict, label));
    }
    let raw_range_start = get_last(scan, 6);
    let range_start = match &raw_range_start {
        Some(v) => match parse_usize_value(v.as_str()) {
            Some(n) => Some(n),
            None => return Err(arg_error(ArgErrorKind::InvalidValue, v.clone())),
        },
        None => None,
    };
    let raw_range_end = get_last(scan, 7);
    let range_end = match &raw_range_end {
        Some(v) => match parse_usize_value(v.as_str()) {
            Some(n) => Some(n),
            None => return Err(arg_error(ArgErrorKind::InvalidValue, v.clone())),
        },
        None => None,
    };
    let a = FmtArgs {
        paths: clone_all(&scan.positionals),
        write: get_flag(scan, 0),
        check: get_flag(scan, 1),
        list_different: get_flag(scan, 2),
        config: get_last(scan, 3),
        no_editorconfig: get_flag(scan, 4),
        stdin_filepath: get_last(scan, 5),
        range_start,
        range_end,
        verify: get_flag(scan, 8),
    };
    proof {
        assert(opt_text(raw_range_start) == last_value(st.occurrences, 6));
        assert(opt_text(raw_range_end) == last_value(st.occurrences, 7));
    }
    Ok(a)
}

/// The options of `luck check`.
pub open spec fn check_table() -> Seq<OptView> {
    seq![
        opt_view("config"@, Some('c'), true, false),
    ]
}

/// The options of `luck check`.
fn check_options() -> (opts: Vec<OptDef>)
    ensures
        opt_views(opts@) == check_table(),
{
    let mut opts: Vec<OptDef> = Vec::new();
    opts.push(opt("config", Some('c'), true, false));
    proof {
        assert(opt_views(opts@) =~= check_table());
    }
    opts
}

/// Why the scanned arguments of `luck check` are refused, if they are:
/// positional arguments first, then conflicting options, then values.
pub open spec fn check_error(st: ScanView) -> Option<(ArgErrorKind, Seq<char>)> {
    let occ = st.occurrences;
    {
        None
    }
}

/// The arguments of `luck check` read off scanned arguments `st`.
pub open spec fn check_fields(st: ScanView, a: CheckArgs) -> bool {
    let occ = st.occurrences;
    &&& string_views(a.paths@) == st.positionals
    &&& opt_text(a.config) == last_value(occ, 0)
}

/// The arguments of `luck check` from the scan.
fn check_args(scan: &Scan) -> (r: Result<CheckArgs, ArgError>)
    ensures
        match r {
            Ok(a) => check_error(scan.view_of()) is None && check_fields(scan.view_of(), a),
            Err(e) => check_error(scan.view_of()) == Some(e.model()),
        },
{
    let ghost st = scan.view_of();
    let a = CheckArgs {
        paths: clone_all(&scan.positionals),
        config: get_last(scan, 0),
    };
    proof {
    }
    Ok(a)
}

/// The options of `luck lsp`.
pub open spec fn lsp_table() -> Seq<OptView> {
    seq![
        opt_view("socket"@, None, true, false),
    ]
}

/// The options of `luck lsp`.
fn lsp_options() -> (opts: Vec<OptDef>)
    ensures
        opt_views(opts@) == lsp_table(),
{
    let mut opts: Vec<OptDef> = Vec::new();
    opts.push(opt("socket", None, true, false));
    proof {
        assert(opt_views(opts@) =~= lsp_table());
    }
    opts
}

/// Why the scanned arguments of `luck lsp` are refused, if they are:
/// positional arguments first, then conflicting options, then values.
pub open spec fn lsp_error(st: ScanView) -> Option<(ArgErrorKind, Seq<char>)> {
    let occ = st.occurrences;
    if st.positionals.len() > 0 {
        Some((ArgErrorKind::ExtraPositional, st.positionals[0]))
    } else if last_value(occ, 0) is Some && parse_port(last_value(occ, 0)->0) is None {
        Some((ArgErrorKind::InvalidValue, last_value(occ, 0)->0))
    } else {
        None
    }
}

/// The arguments of `luck lsp` read off scanned arguments `st`.
pub open spec fn lsp_fields(st: ScanView, a: LspArgs) -> bool {
    let occ = st.occurrences;
    &&& a.socket == (match last_value(occ, 0) {
        Some(v) => parse_port(v),
        None => None,
    })
}

/// The arguments of `luck lsp` from the scan.
fn lsp_args(scan: &Scan) -> (r: Result<LspArgs, ArgError>)
    ensures
        match r {
            Ok(a) => lsp_error(scan.view_of()) is None && lsp_fields(scan.view_of(), a),
            Err(e) => lsp_error(scan.view_of()) == Some(e.model()),
        },
{
    let ghost st = scan.view_of();
    if scan.positionals.len() > 0 {
        return Err(arg_error(ArgErrorKind::ExtraPositional, scan.positionals[0].clone()));
    }
    let raw_socket = get_last(scan, 0);
    let socket = match &raw_socket {
        Some(v) => match parse_port_value(v.as_str()) {
            Some(n) => Some(n),
            None => return Err(arg_error(ArgErrorKind::InvalidValue, v.clone())),
        },
        None => None,
    };
    let a = LspArgs {
        socket,
    };
    proof {
        assert(opt_text(raw_socket) == last_value(st.occurrences, 0));
    }
    Ok(a)
}


// ----- the whole command line -----

/// Where the subcommand stands among `toks`, from `i` on, and whether
/// `--quiet` came before it; `--help`, `--version` and anything else
/// starting with `-` before it end parsing.
pub open spec fn subcommand_start(toks: Seq<Seq<char>>, i: int, quiet: bool) -> Result<(int, bool), (ArgErrorKind, Seq<char>)>
    decreases toks.len() - i,
{
    if i < 0 || i >= toks.len() {
        Err((ArgErrorKind::MissingSubcommand, Seq::empty()))
    } else {
        let t = toks[i];
        if t == "--quiet"@ {
            if quiet {
                Err((ArgErrorKind::Repeated, "--quiet"@))
            } else {
                subcommand_start(toks, i + 1, true)
            }
        } else if t == "--help"@ || t == "-h"@ || t == "help"@ {
            Err((ArgErrorKind::HelpRequested, t))
        } else if t == "--version"@ || t == "-V"@ {
            Err((ArgErrorKind::VersionRequested, t))
        } else if looks_like_option(t) {
            Err((ArgErrorKind::UnknownArgument, t))
        } else {
            Ok((i, quiet))
        }
    }
}

/// The option table of subcommand `name`.
pub open spec fn table_of(name: Seq<char>) -> Option<Seq<OptView>> {
    if name == "init"@ {
        Some(init_table())
    } else if name == "build"@ {
        Some(build_table())
    } else if name == "bundle"@ {
        Some(bundle_table())
    } else if name == "minify"@ {
        Some(minify_table())
    } else if name == "graph"@ {
        Some(graph_table())
    } else if name == "lint"@ {
        Some(lint_table())
    } else if name == "fmt"@ {
        Some(fmt_table())
    } else if name == "check"@ {
        Some(check_table())
    } else if name == "lsp"@ {
        Some(lsp_table())
    } else {
        None
    }
}

/// The scan state before a subcommand's first argument.
pub open spec fn initial_scan(quiet: bool) -> ScanView {
    ScanView { occurrences: Seq::empty(), positionals: Seq::empty(), quiet, terminated: false, pending: None }
}

/// `r` is the error `e`.
pub open spec fn fails_with<T>(r: Result<T, ArgError>, e: (ArgErrorKind, Seq<char>)) -> bool {
    r matches Err(x) && x.model() == e
}

/// `r` is what the scanned arguments `st` of subcommand `name` give.
pub open spec fn command_result(name: Seq<char>, st: ScanView, r: Result<Cli, ArgError>) -> bool {
    if name == "init"@ {
        match init_error(st) {
            Some(e) => fails_with(r, e),
            None => r matches Ok(cli) && cli.quiet == st.quiet && (cli.command matches Command::Init(a) && init_fields(st, a)),
        }
    } else if name == "build"@ {
        match build_error(st) {
            Some(e) => fails_with(r, e),
            None => r matches Ok(cli) && cli.quiet == st.quiet && (cli.command matches Command::Build(a) && build_fields(st, a)),
        }
    } else if name == "bundle"@ {
        match bundle_error(st) {
            Some(e) => fails_with(r, e),
            None => r matches Ok(cli) && cli.quiet == st.quiet && (cli.command matches Command::Bundle(a) && bundle_fields(st, a)),
        }
    } else if name == "minify"@ {
        match minify_error(st) {
            Some(e) => fails_with(r, e),
            None => r matches Ok(cli) && cli.quiet == st.quiet && (cli.command matches Command::Minify(a) && minify_fields(st, a)),
        }
    } else if name == "graph"@ {
        match graph_error(st) {
            Some(e) => fails_with(r, e),
            None => r matches Ok(cli) && cli.quiet == st.quiet && (cli.command matches Command::Graph(a) && graph_fields(st, a)),
        }
    } else if name == "lint"@ {
        match lint_error(st) {
            Some(e) => fails_with(r, e),
            None => r matches Ok(cli) && cli.quiet == st.quiet && (cli.command matches Command::Lint(a) && lint_fields(st, a)),
        }
    } else if name == "fmt"@ {
        match fmt_error(st) {
            Some(e) => fails_with(r, e),
            None => r matches Ok(cli) && cli.quiet == st.quiet && (cli.command matches Command::Fmt(a) && fmt_fields(st, a)),
        }
    } else if name == "check"@ {
        match check_error(st) {
            Some(e) => fails_with(r, e),
            None => r matches Ok(cli) && cli.quiet == st.quiet && (cli.command matches Command::Check(a) && check_fields(st, a)),
        }
    } else if name == "lsp"@ {
        match lsp_error(st) {
            Some(e) => fails_with(r, e),
            None => r matches Ok(cli) && cli.quiet == st.quiet && (cli.command matches Command::Lsp(a) && lsp_fields(st, a)),
        }
    } else {
        false
    }
}

/// `r` is what parsing the command line `args` (the program name first)
/// gives.
pub open spec fn parses_to(args: Seq<Seq<char>>, r: Result<Cli, ArgError>) -> bool {
    let toks = if args.len() > 0 {
        args.skip(1)
    } else {
        Seq::empty()
    };
    match subcommand_start(toks, 0, false) {
        Err(e) => fails_with(r, e),
        Ok((i, quiet)) => {
            let name = toks[i];
            match table_of(name) {
                None => fails_with(r, (ArgErrorKind::UnknownSubcommand, name)),
                Some(table) => match scan_all(table, initial_scan(quiet), toks.skip(i + 1)) {
                    Err(e) => fails_with(r, e),
                    Ok(st) => command_result(name, st, r),
                },
            }
        },
    }
}

/// Parses the command line `args`, the program name first, into the
/// subcommand and its arguments.
pub fn parse_args(args: &Vec<String>) -> (r: Result<Cli, ArgError>)
    ensures
        parses_to(string_views(args@), r),
{
    let ghost all = string_views(args@);
    let ghost toks = if all.len() > 0 {
        all.skip(1)
    } else {
        Seq::empty()
    };
    let n = args.len();
    let mut i: usize = if n > 0 {
        1
    } else {
        0
    };
    let mut quiet = false;
    let ghost start = subcommand_start(toks, 0, false);
    loop
        invariant
            all == string_views(args@),
            n == args@.len(),
            toks == (if all.len() > 0 {
                all.skip(1)
            } else {
                Seq::<Seq<char>>::empty()
            }),
            n == 0 ==> i == 0,
            n > 0 ==> 1 <= i <= n,
            start == subcommand_start(toks, 0, false),
            start == subcommand_start(toks, (if n > 0 { i - 1 } else { 0 }) as int, quiet),
        ensures
            1 <= i < n,
            start == Ok::<(int, bool), (ArgErrorKind, Seq<char>)>(((i - 1) as int, quiet)),
        decreases n - i,
    {
        if i >= n {
            let mut empty = String::new();
            proof {
                assert(empty@ =~= Seq::<char>::empty());
            }
            return Err(arg_error(ArgErrorKind::MissingSubcommand, empty));
        }
        proof {
            assert(toks[i - 1] == args@[i as int]@);
        }
        let t = chars_of(args[i].as_str());
        if spells(&t, "--quiet") {
            if quiet {
                let mut arg = String::new();
                push_str(&mut arg, "--quiet");
                return Err(arg_error(ArgErrorKind::Repeated, arg));
            }
            quiet = true;
            i += 1;
        } else if spells(&t, "--help") || spells(&t, "-h") || spells(&t, "help") {
            return Err(arg_error(ArgErrorKind::HelpRequested, args[i].clone()));
        } else if spells(&t, "--version") || spells(&t, "-V") {
            return Err(arg_error(ArgErrorKind::VersionRequested, args[i].clone()));
        } else if t.len() > 1 && t[0] == '-' {
            return Err(arg_error(ArgErrorKind::UnknownArgument, args[i].clone()));
        } else {
            proof {
                assert(toks.len() == n - 1);
                assert(subcommand_start(toks, i - 1, quiet) == Ok::<(int, bool), (ArgErrorKind, Seq<char>)>(((i - 1) as int, quiet)));
            }
            break;
        }
    }
    let ghost pos = (i - 1) as int;
    proof {
        assert(toks[pos] == args@[i as int]@);
        assert(toks.skip(pos + 1) =~= all.skip(i + 1));
    }
    let name = chars_of(args[i].as_str());
    let scan = Scan { occurrences: Vec::new(), positionals: Vec::new(), quiet, terminated: false, pending: None };
    proof {
        assert(scan.view_of() =~= initial_scan(quiet));
    }
    if spells(&name, "init") {
        let opts = init_options();
        let scanned = scan_arguments(&opts, args, i + 1, scan);
        return match scanned {
            Err(e) => Err(e),
            Ok(done) => match init_args(&done) {
                Ok(a) => Ok(Cli { command: Command::Init(a), quiet: done.quiet }),
                Err(e) => Err(e),
            },
        };
    }
    if spells(&name, "build") {
        let opts = build_options();
        let scanned = scan_arguments(&opts, args, i + 1, scan);
        return match scanned {
            Err(e) => Err(e),
            Ok(done) => match build_args(&done) {
                Ok(a) => Ok(Cli { command: Command::Build(a), quiet: done.quiet }),
                Err(e) => Err(e),
            },
        };
    }
    if spells(&name, "bundle") {
        let opts = bundle_options();
        let scanned = scan_arguments(&opts, args, i + 1, scan);
        return match scanned {
            Err(e) => Err(e),
            Ok(done) => match bundle_args(&done) {
                Ok(a) => Ok(Cli { command: Command::Bundle(a), quiet: done.quiet }),
                Err(e) => Err(e),
            },
        };
    }
    if spells(&name, "minify") {
        let opts = minify_options();
        let scanned = scan_arguments(&opts, args, i + 1, scan);
        return match scanned {
            Err(e) => Err(e),
            Ok(done) => match minify_args(&done) {
                Ok(a) => Ok(Cli { command: Command::Minify(a), quiet: done.quiet }),
                Err(e) => Err(e),
            },
        };
    }
    if spells(&name, "graph") {
        let opts = graph_options();
        let scanned = scan_arguments(&opts, args, i + 1, scan);
        return match scanned {
            Err(e) => Err(e),
            Ok(done) => match graph_args(&done) {
                Ok(a) => Ok(Cli { command: Command::Graph(a), quiet: done.quiet }),
                Err(e) => Err(e),
            },
        };
    }
    if spells(&name, "lint") {
        let opts = lint_options();
        let scanned = scan_arguments(&opts, args, i + 1, scan);
        return match scanned {
            Err(e) => Err(e),
            Ok(done) => match lint_args(&done) {
                Ok(a) => Ok(Cli { command: Command::Lint(a), quiet: done.quiet }),
                Err(e) => Err(e),
            },
        };
    }
    if spells(&name, "fmt") {
        let opts = fmt_options();
        let scanned = scan_arguments(&opts, args, i + 1, scan);
        return match scanned {
            Err(e) => Err(e),
            Ok(done) => match fmt_args(&done) {
                Ok(a) => Ok(Cli { command: Command::Fmt(a), quiet: done.quiet }),
                Err(e) => Err(e),
            },
        };
    }
    if spells(&name, "check") {
        let opts = check_options();
        let scanned = scan_arguments(&opts, args, i + 1, scan);
        return match scanned {
            Err(e) => Err(e),
            Ok(done) => match check_args(&done) {
                Ok(a) => Ok(Cli { command: Command::Check(a), quiet: done.quiet }),
                Err(e) => Err(e),
            },
        };
    }
    if spells(&name, "lsp") {
        let opts = lsp_options();
        let scanned = scan_arguments(&opts, args, i + 1, scan);
        return match scanned {
            Err(e) => Err(e),
            Ok(done) => match lsp_args(&done) {
                Ok(a) => Ok(Cli { command: Command::Lsp(a), quiet: done.quiet }),
                Err(e) => Err(e),
            },
        };
    }
    Err(arg_error(ArgErrorKind::UnknownSubcommand, args[i].clone()))
}

} // verus!
