//! The decisions of the command-line front end: exit codes, option
//! folding, format ranges, transform toggles, lint policy and categories,
//! and the text the commands print.

use vstd::prelude::*;
use std::ops::Range;
use vstd::string::StringSliceAdditionalSpecFns;
use vstd::utf8::*;
use crate::graph::DependencyGraph;
use crate::module::{Dependency, ModuleInfo};
use crate::text::{chars_of, decimal, lines_from, push_char_range, push_decimal, push_str, text_lines};

verus! {

/// The operation succeeded.
pub const EXIT_SUCCESS: u8 = 0;

/// The operation ran but found problems (diagnostics, lint findings, parse
/// or build failure).
pub const EXIT_FAILURE: u8 = 1;

/// Usage or configuration error (bad arguments, missing or invalid config,
/// path not found).
pub const EXIT_USAGE: u8 = 2;

/// How much the CLI prints during builds.
#[derive(Debug, Clone, Copy, PartialEq, Eq, Structural)]
pub enum Verbosity {
    Quiet,
    Normal,
}

/// The verbosity `--quiet` selects.
pub fn verbosity(quiet: bool) -> (v: Verbosity)
    ensures
        v == (if quiet {
            Verbosity::Quiet
        } else {
            Verbosity::Normal
        }),
{
    if quiet {
        Verbosity::Quiet
    } else {
        Verbosity::Normal
    }
}

// ----- fmt: the range to format -----

/// The message for a format range whose start lies after its end.
pub open spec fn range_error(start: nat, end: nat) -> Seq<char> {
    "Error: invalid format range: start ("@ + decimal(start) + ") is greater than end ("@ + decimal(end)
        + ")"@
}

/// Resolve `--range-start`/`--range-end` into a byte range over a source of
/// `source_len` bytes: a missing start is 0, a missing end is the end of the
/// source, and an explicit end is clamped to the source length. Errors when
/// the resolved start exceeds the resolved end.
pub fn resolve_format_range(range_start: Option<usize>, range_end: Option<usize>, source_len: usize) -> (r: Result<
    Option<Range<usize>>,
    String,
>)
    ensures
        range_start.is_none() && range_end.is_none() ==> r == Ok::<Option<Range<usize>>, String>(None),
        range_start.is_some() || range_end.is_some() ==> {
            let start = match range_start {
                Some(s) => s,
                None => 0,
            };
            let wanted_end = match range_end {
                Some(e) => e,
                None => source_len,
            };
            let end = if wanted_end < source_len {
                wanted_end
            } else {
                source_len
            };
            if start > end {
                r matches Err(message) && message@ == range_error(start as nat, end as nat)
            } else {
                r == Ok::<Option<Range<usize>>, String>(Some(Range { start, end }))
            }
        },
{
    if range_start.is_none() && range_end.is_none() {
        return Ok(None);
    }
    let start = match range_start {
        Some(s) => s,
        None => 0,
    };
    let wanted_end = match range_end {
        Some(e) => e,
        None => source_len,
    };
    let end = if wanted_end < source_len {
        wanted_end
    } else {
        source_len
    };
    if start > end {
        let mut message = String::new();
        push_str(&mut message, "Error: invalid format range: start (");
        push_decimal(&mut message, start);
        push_str(&mut message, ") is greater than end (");
        push_decimal(&mut message, end);
        push_str(&mut message, ")");
        proof {
            assert(message@ =~= range_error(start as nat, end as nat));
        }
        return Err(message);
    }
    Ok(Some(start..end))
}

// ----- bundle and minify: transform toggles -----

/// Project one pass onto its configured value: an explicit flag of either
/// polarity wins, and at most one of them is set.
pub open spec fn spec_resolve(is_configured: bool, should_enable: bool, should_disable: bool) -> bool {
    (is_configured || should_enable) && !should_disable
}

/// Project one pass onto its configured value: an explicit flag of either
/// polarity wins, and at most one of them is set.
pub fn resolve(is_configured: bool, should_enable: bool, should_disable: bool) -> (on: bool)
    ensures
        on == spec_resolve(is_configured, should_enable, should_disable),
{
    (is_configured || should_enable) && !should_disable
}

/// Which minifier passes run.
#[derive(Debug, Clone, Copy, PartialEq, Eq, Structural)]
pub struct PassToggles {
    pub remove_dead_code: bool,
    pub simplify_statements: bool,
    pub fold_constants: bool,
    pub inline_locals: bool,
    pub merge_locals: bool,
    pub simplify_indexes: bool,
    pub shorten_strings: bool,
    pub shorten_numbers: bool,
    pub simplify_parens: bool,
    pub rename_locals: bool,
    pub lift_locals: bool,
    /// Rename globals defined in this file (breaks cross-chunk consumers
    /// that expect the original _G keys; off unless the script is fully
    /// self-contained).
    pub rename_globals: bool,
}

/// Command-line flags that toggle individual minifier passes. Every pass
/// carries both polarities, so a flag can override whatever `luck.json`
/// configured instead of only narrowing it; the flag given last wins.
#[derive(Debug, Clone, Copy, PartialEq, Eq, Structural)]
pub struct MinifyFlags {
    pub no_remove_dead_code: bool,
    pub remove_dead_code: bool,
    pub no_simplify_statements: bool,
    pub simplify_statements: bool,
    pub no_fold_constants: bool,
    pub fold_constants: bool,
    pub no_inline_locals: bool,
    pub inline_locals: bool,
    pub no_merge_locals: bool,
    pub merge_locals: bool,
    pub no_simplify_indexes: bool,
    pub simplify_indexes: bool,
    pub no_shorten_strings: bool,
    pub shorten_strings: bool,
    pub no_shorten_numbers: bool,
    pub shorten_numbers: bool,
    pub no_simplify_parens: bool,
    pub simplify_parens: bool,
    pub no_rename_locals: bool,
    pub rename_locals: bool,
    pub no_lift_locals: bool,
    pub lift_locals: bool,
    pub no_rename_globals: bool,
    pub rename_globals: bool,
}

impl MinifyFlags {
    /// `config` with every pass resolved against its two flags.
    pub fn apply_to(&self, config: PassToggles) -> (applied: PassToggles)
        ensures
            applied == (PassToggles {
                remove_dead_code: spec_resolve(config.remove_dead_code, self.remove_dead_code, self.no_remove_dead_code),
                simplify_statements: spec_resolve(
                    config.simplify_statements,
                    self.simplify_statements,
                    self.no_simplify_statements,
                ),
                fold_constants: spec_resolve(config.fold_constants, self.fold_constants, self.no_fold_constants),
                inline_locals: spec_resolve(config.inline_locals, self.inline_locals, self.no_inline_locals),
                merge_locals: spec_resolve(config.merge_locals, self.merge_locals, self.no_merge_locals),
                simplify_indexes: spec_resolve(config.simplify_indexes, self.simplify_indexes, self.no_simplify_indexes),
                shorten_strings: spec_resolve(config.shorten_strings, self.shorten_strings, self.no_shorten_strings),
                shorten_numbers: spec_resolve(config.shorten_numbers, self.shorten_numbers, self.no_shorten_numbers),
                simplify_parens: spec_resolve(config.simplify_parens, self.simplify_parens, self.no_simplify_parens),
                rename_locals: spec_resolve(config.rename_locals, self.rename_locals, self.no_rename_locals),
                lift_locals: spec_resolve(config.lift_locals, self.lift_locals, self.no_lift_locals),
                rename_globals: spec_resolve(config.rename_globals, self.rename_globals, self.no_rename_globals),
            }),
    {
        PassToggles {
            remove_dead_code: resolve(config.remove_dead_code, self.remove_dead_code, self.no_remove_dead_code),
            simplify_statements: resolve(config.simplify_statements, self.simplify_statements, self.no_simplify_statements),
            fold_constants: resolve(config.fold_constants, self.fold_constants, self.no_fold_constants),
            inline_locals: resolve(config.inline_locals, self.inline_locals, self.no_inline_locals),
            merge_locals: resolve(config.merge_locals, self.merge_locals, self.no_merge_locals),
            simplify_indexes: resolve(config.simplify_indexes, self.simplify_indexes, self.no_simplify_indexes),
            shorten_strings: resolve(config.shorten_strings, self.shorten_strings, self.no_shorten_strings),
            shorten_numbers: resolve(config.shorten_numbers, self.shorten_numbers, self.no_shorten_numbers),
            simplify_parens: resolve(config.simplify_parens, self.simplify_parens, self.no_simplify_parens),
            rename_locals: resolve(config.rename_locals, self.rename_locals, self.no_rename_locals),
            lift_locals: resolve(config.lift_locals, self.lift_locals, self.no_lift_locals),
            rename_globals: resolve(config.rename_globals, self.rename_globals, self.no_rename_globals),
        }
    }
}

// ----- fmt: exit policy -----

/// What formatting one file came to.
#[derive(Debug, Clone, Copy, PartialEq, Eq, Structural)]
pub enum FmtFileOutcome {
    ReadError,
    RangeError,
    ParseError,
    VerifyError,
    Unchanged,
    /// Would change (report modes).
    Changed,
    WriteError,
    Written,
}

/// What a run over many files has seen so far.
#[derive(Debug, Clone, Copy, PartialEq, Eq, Structural)]
pub struct FmtTally {
    /// A file could not be read, parsed or verified.
    pub had_failure: bool,
    /// A file would change (report modes).
    pub any_changed: bool,
}

/// The tally after one more file, and the exit code when that file ends
/// the run at once: a bad range is a usage error, a failed write a failure.
pub open spec fn spec_fmt_step(tally: FmtTally, outcome: FmtFileOutcome) -> (FmtTally, Option<u8>) {
    match outcome {
        FmtFileOutcome::ReadError | FmtFileOutcome::ParseError | FmtFileOutcome::VerifyError => (
            FmtTally { had_failure: true, any_changed: tally.any_changed },
            None,
        ),
        FmtFileOutcome::RangeError => (tally, Some(EXIT_USAGE)),
        FmtFileOutcome::WriteError => (tally, Some(EXIT_FAILURE)),
        FmtFileOutcome::Changed => (FmtTally { had_failure: tally.had_failure, any_changed: true }, None),
        FmtFileOutcome::Unchanged | FmtFileOutcome::Written => (tally, None),
    }
}

pub fn fmt_step(tally: FmtTally, outcome: FmtFileOutcome) -> (r: (FmtTally, Option<u8>))
    ensures
        r == spec_fmt_step(tally, outcome),
{
    match outcome {
        FmtFileOutcome::ReadError | FmtFileOutcome::ParseError | FmtFileOutcome::VerifyError => (
            FmtTally { had_failure: true, any_changed: tally.any_changed },
            None,
        ),
        FmtFileOutcome::RangeError => (tally, Some(EXIT_USAGE)),
        FmtFileOutcome::WriteError => (tally, Some(EXIT_FAILURE)),
        FmtFileOutcome::Changed => (FmtTally { had_failure: tally.had_failure, any_changed: true }, None),
        FmtFileOutcome::Unchanged | FmtFileOutcome::Written => (tally, None),
    }
}

/// The exit code of a run that went through every file: `--check` fails
/// when a file would change (`--list-different` only reports), and a file
/// that could not be read, parsed or verified fails every mode.
pub open spec fn spec_fmt_exit_code(tally: FmtTally, check: bool) -> u8 {
    if (check && tally.any_changed) || tally.had_failure {
        EXIT_FAILURE
    } else {
        EXIT_SUCCESS
    }
}

pub fn fmt_exit_code(tally: FmtTally, check: bool) -> (code: u8)
    ensures
        code == spec_fmt_exit_code(tally, check),
{
    if (check && tally.any_changed) || tally.had_failure {
        EXIT_FAILURE
    } else {
        EXIT_SUCCESS
    }
}

/// A document from stdin fails the run exactly when it cannot be parsed or
/// verified, or when it would change under `--check` without
/// `--list-different`; every other outcome, including a changed document
/// printed in the default mode, succeeds.
pub proof fn law_fmt_stdin_fails_only_on_error_or_check(outcome: FmtDocOutcome, check: bool, list_different: bool)
    ensures
        spec_fmt_stdin_exit_code(outcome, check, list_different) == EXIT_SUCCESS || spec_fmt_stdin_exit_code(
            outcome,
            check,
            list_different,
        ) == EXIT_FAILURE,
        (spec_fmt_stdin_exit_code(outcome, check, list_different) == EXIT_FAILURE) <==> (outcome
            == FmtDocOutcome::ParseError || outcome == FmtDocOutcome::VerifyError || (outcome
            == FmtDocOutcome::Changed && check && !list_different)),
        !check ==> (spec_fmt_stdin_exit_code(outcome, check, list_different) == EXIT_FAILURE <==> spec_fmt_stdin_exit_code(
            outcome,
            true,
            true,
        ) == EXIT_FAILURE),
{
}

/// A run over many files fails exactly when some file could not be read,
/// parsed or verified, or when some file would change under `--check`; a
/// run without `--check` never fails on changes alone.
pub proof fn law_fmt_run_fails_only_on_error_or_check(tally: FmtTally, check: bool)
    ensures
        (spec_fmt_exit_code(tally, check) == EXIT_FAILURE) <==> (tally.had_failure || (check && tally.any_changed)),
        spec_fmt_exit_code(tally, check) == EXIT_SUCCESS || spec_fmt_exit_code(tally, check) == EXIT_FAILURE,
{
}

/// What formatting the document read from stdin came to.
#[derive(Debug, Clone, Copy, PartialEq, Eq, Structural)]
pub enum FmtDocOutcome {
    ParseError,
    VerifyError,
    Unchanged,
    Changed,
}

/// The exit code for a document from stdin: unparseable or unverifiable
/// fails; a change fails only under `--check` without `--list-different`.
pub open spec fn spec_fmt_stdin_exit_code(outcome: FmtDocOutcome, check: bool, list_different: bool) -> u8 {
    match outcome {
        FmtDocOutcome::ParseError | FmtDocOutcome::VerifyError => EXIT_FAILURE,
        FmtDocOutcome::Unchanged => EXIT_SUCCESS,
        FmtDocOutcome::Changed => if !list_different && check {
            EXIT_FAILURE
        } else {
            EXIT_SUCCESS
        },
    }
}

pub fn fmt_stdin_exit_code(outcome: FmtDocOutcome, check: bool, list_different: bool) -> (code: u8)
    ensures
        code == spec_fmt_stdin_exit_code(outcome, check, list_different),
{
    match outcome {
        FmtDocOutcome::ParseError | FmtDocOutcome::VerifyError => EXIT_FAILURE,
        FmtDocOutcome::Unchanged => EXIT_SUCCESS,
        FmtDocOutcome::Changed => if list_different {
            EXIT_SUCCESS
        } else if check {
            EXIT_FAILURE
        } else {
            EXIT_SUCCESS
        },
    }
}

// ----- lint: exit policy and categories -----

/// The lint exit code: any error fails; warnings fail only under
/// `--deny-warnings` or when they exceed `--max-warnings`.
pub open spec fn spec_lint_exit_code(deny_warnings: bool, max_warnings: Option<usize>, errors: u32, warnings: u32) -> u8 {
    let exceed = match max_warnings {
        Some(max) => warnings > max,
        None => false,
    };
    if errors > 0 || (deny_warnings && warnings > 0) || exceed {
        EXIT_FAILURE
    } else {
        EXIT_SUCCESS
    }
}

/// Shared lint exit-code policy: any error fails; warnings fail only under
/// `--deny-warnings` or when they exceed `--max-warnings`.
pub fn lint_exit_code(deny_warnings: bool, max_warnings: Option<usize>, total_errors: u32, total_warnings: u32) -> (code: u8)
    ensures
        code == spec_lint_exit_code(deny_warnings, max_warnings, total_errors, total_warnings),
{
    let warnings_exceed = match max_warnings {
        Some(max) => total_warnings as usize > max,
        None => false,
    };
    if total_errors > 0 || (deny_warnings && total_warnings > 0) || warnings_exceed {
        EXIT_FAILURE
    } else {
        EXIT_SUCCESS
    }
}

/// A group of lint rules that `-A`/`-W`/`-D` can name at once.
#[derive(Debug, Clone, Copy, PartialEq, Eq, Structural)]
pub enum Category {
    Correctness,
    Suspicious,
    Style,
    Performance,
}

/// `c` with ASCII upper case letters lowered.
pub open spec fn ascii_lower(c: char) -> char {
    if 'A' <= c <= 'Z' {
        ((c as u32) + 32) as char
    } else {
        c
    }
}

/// `s` with ASCII upper case letters lowered.
pub open spec fn ascii_lowercase(s: Seq<char>) -> Seq<char> {
    s.map_values(|c: char| ascii_lower(c))
}

/// The category `name` names, in any ASCII case.
pub open spec fn spec_category_from_name(name: Seq<char>) -> Option<Category> {
    let lower = ascii_lowercase(name);
    if lower == "correctness"@ {
        Some(Category::Correctness)
    } else if lower == "suspicious"@ {
        Some(Category::Suspicious)
    } else if lower == "style"@ {
        Some(Category::Style)
    } else if lower == "performance"@ || lower == "perf"@ {
        Some(Category::Performance)
    } else {
        None
    }
}

/// `name` with ASCII upper case letters lowered, as characters.
fn lowercase_chars(name: &str) -> (lower: Vec<char>)
    ensures
        lower@ == ascii_lowercase(name@),
{
    let chars = chars_of(name);
    let mut lower: Vec<char> = Vec::new();
    let mut i: usize = 0;
    while i < chars.len()
        invariant
            chars@ == name@,
            i <= chars@.len(),
            lower@ == ascii_lowercase(chars@.take(i as int)),
        decreases chars@.len() - i,
    {
        let c = chars[i];
        let l = if 'A' <= c && c <= 'Z' {
            ((c as u8) + 32) as char
        } else {
            c
        };
        proof {
            if 'A' <= c && c <= 'Z' {
                assert((c as u8) as u32 == c as u32);
            }
            assert(ascii_lowercase(chars@.take(i + 1)) =~= ascii_lowercase(chars@.take(i as int)).push(ascii_lower(c)));
        }
        lower.push(l);
        i += 1;
    }
    proof {
        assert(chars@.take(i as int) =~= chars@);
    }
    lower
}

/// Whether the characters `a` spell `word`.
fn spells(a: &Vec<char>, word: &str) -> (b: bool)
    ensures
        b == (a@ == word@),
{
    let w = chars_of(word);
    if a.len() != w.len() {
        return false;
    }
    let mut i: usize = 0;
    while i < a.len()
        invariant
            a@.len() == w@.len(),
            w@ == word@,
            i <= a@.len(),
            forall|j: int| 0 <= j < i ==> a@[j] == w@[j],
        decreases a@.len() - i,
    {
        if a[i] != w[i] {
            return false;
        }
        i += 1;
    }
    proof {
        assert(a@ =~= w@);
    }
    true
}

/// Map an `-A`/`-W`/`-D` name to a lint category, if it names one.
pub fn category_from_name(name: &str) -> (category: Option<Category>)
    ensures
        category == spec_category_from_name(name@),
{
    let lower = lowercase_chars(name);
    if spells(&lower, "correctness") {
        Some(Category::Correctness)
    } else if spells(&lower, "suspicious") {
        Some(Category::Suspicious)
    } else if spells(&lower, "style") {
        Some(Category::Style)
    } else if spells(&lower, "performance") || spells(&lower, "perf") {
        Some(Category::Performance)
    } else {
        None
    }
}

/// The name of `category`.
pub open spec fn spec_category_label(category: Category) -> Seq<char> {
    match category {
        Category::Correctness => "correctness"@,
        Category::Suspicious => "suspicious"@,
        Category::Style => "style"@,
        Category::Performance => "performance"@,
    }
}

/// The name of `category`, which [`category_from_name`] maps back to it.
pub fn category_label(category: Category) -> (label: &'static str)
    ensures
        label@ == spec_category_label(category),
{
    match category {
        Category::Correctness => "correctness",
        Category::Suspicious => "suspicious",
        Category::Style => "style",
        Category::Performance => "performance",
    }
}

/// The name a category label maps back to is that category.
pub proof fn law_category_label_round_trip(category: Category)
    ensures
        spec_category_from_name(spec_category_label(category)) == Some(category),
{
    reveal_strlit("correctness");
    reveal_strlit("suspicious");
    reveal_strlit("style");
    reveal_strlit("performance");
    reveal_strlit("perf");
    let label = spec_category_label(category);
    assert forall|i: int| 0 <= i < label.len() implies 'a' <= #[trigger] label[i] <= 'z' by {
        match category {
            Category::Correctness => {},
            Category::Suspicious => {},
            Category::Style => {},
            Category::Performance => {},
        }
    }
    assert(ascii_lowercase(label) =~= label);
    assert("correctness"@ != "performance"@) by {
        assert("correctness"@[0] != "performance"@[0]);
    }
}

// ----- bundling: dynamic requires -----

/// How the bundler treats `require(expr)` with a non-literal argument.
#[derive(Debug, Clone, Copy, PartialEq, Eq, Structural)]
pub enum DynamicRequire {
    /// Refuse to bundle.
    Error,
    /// Warn and keep the call, routed through the loader.
    Warn,
    /// Keep the call silently.
    Allow,
}

/// How the one-shot commands treat `require(expr)`: an explicit
/// `--dynamic-require` wins over the project's setting, which defaults to
/// warning and keeping the call.
pub fn resolve_dynamic_require(configured: Option<DynamicRequire>, flag: Option<DynamicRequire>) -> (mode: DynamicRequire)
    ensures
        mode == (match flag {
            Some(f) => f,
            None => match configured {
                Some(c) => c,
                None => DynamicRequire::Warn,
            },
        }),
{
    match flag {
        Some(f) => f,
        None => match configured {
            Some(c) => c,
            None => DynamicRequire::Warn,
        },
    }
}

// ----- init -----

/// The scaffolded `luck.json` of a fresh project whose target is named
/// `target` (lower case) and is a Luau dialect when `is_luau`. The target
/// sets its own axis; the other axis keeps its default (`lua54` for `lua`,
/// `luau` for `luau`). The entry file and search paths follow the target's
/// family: `.luau` with no search paths for Luau, `.lua` otherwise.
pub open spec fn init_config_text(target: Seq<char>, is_luau: bool) -> Seq<char> {
    let lua_value = if is_luau {
        "lua54"@
    } else {
        target
    };
    let luau_value = if is_luau {
        target
    } else {
        "luau"@
    };
    let ext = if is_luau {
        "luau"@
    } else {
        "lua"@
    };
    let search_paths_line = if is_luau {
        Seq::empty()
    } else {
        "\n    \"search_paths\": [\"src/?."@ + ext + "\", \"src/?/init."@ + ext + "\"],"@
    };
    "{\n    \"lua\": \""@ + lua_value + "\",\n    \"luau\": \""@ + luau_value + "\",\n    \"entry\": \"src/main."@ + ext
        + "\",\n    \"output_dir\": \"dist\","@ + search_paths_line
        + "\n    \"minify\": false,\n    \"profiles\": {\n        \"dev\": {\n            \"minify\": false\n        },\n        \"release\": {\n            \"minify\": true\n        }\n    }\n}\n"@
}

/// Builds the scaffolded `luck.json` contents for a fresh project whose
/// target is named `target_name` (in any ASCII case, as the target prints
/// itself) and is a Luau dialect when `is_luau`.
pub fn init_config_content(target_name: &str, is_luau: bool) -> (content: String)
    ensures
        content@ == init_config_text(ascii_lowercase(target_name@), is_luau),
{
    let lower = lowercase_chars(target_name);
    let mut content = String::new();
    push_str(&mut content, "{\n    \"lua\": \"");
    if is_luau {
        push_str(&mut content, "lua54");
    } else {
        crate::text::push_chars(&mut content, &lower);
    }
    push_str(&mut content, "\",\n    \"luau\": \"");
    if is_luau {
        crate::text::push_chars(&mut content, &lower);
    } else {
        push_str(&mut content, "luau");
    }
    let ext = if is_luau {
        "luau"
    } else {
        "lua"
    };
    push_str(&mut content, "\",\n    \"entry\": \"src/main.");
    push_str(&mut content, ext);
    push_str(&mut content, "\",\n    \"output_dir\": \"dist\",");
    if !is_luau {
        push_str(&mut content, "\n    \"search_paths\": [\"src/?.");
        push_str(&mut content, ext);
        push_str(&mut content, "\", \"src/?/init.");
        push_str(&mut content, ext);
        push_str(&mut content, "\"],");
    }
    push_str(
        &mut content,
        "\n    \"minify\": false,\n    \"profiles\": {\n        \"dev\": {\n            \"minify\": false\n        },\n        \"release\": {\n            \"minify\": true\n        }\n    }\n}\n",
    );
    proof {
        let wanted = init_config_text(ascii_lowercase(target_name@), is_luau);
        assert(content@ =~= wanted);
    }
    content
}

// ----- build -----

/// The profile `--profile`, `--release` or `--dev` selects, in that order
/// of precedence.
pub fn resolved_profile<'a>(profile: Option<&'a str>, release: bool, dev: bool) -> (selected: Option<&'a str>)
    ensures
        profile.is_some() ==> selected == profile,
        profile.is_none() && release ==> (selected matches Some(p) && p@ == "release"@),
        profile.is_none() && !release && dev ==> (selected matches Some(p) && p@ == "dev"@),
        profile.is_none() && !release && !dev ==> selected.is_none(),
{
    if let Some(name) = profile {
        Some(name)
    } else if release {
        Some("release")
    } else if dev {
        Some("dev")
    } else {
        None
    }
}

/// `lines` joined with `\n` between them.
pub open spec fn joined_lines(lines: Seq<Seq<char>>) -> Seq<char>
    decreases lines.len(),
{
    if lines.len() == 0 {
        Seq::empty()
    } else if lines.len() == 1 {
        lines[0]
    } else {
        joined_lines(lines.drop_last()) + "\n"@ + lines.last()
    }
}

/// The luck banner line of a build.
pub open spec fn luck_banner(minify: bool, version: Seq<char>) -> Seq<char> {
    "-- "@ + (if minify {
        "Bundled & minified"@
    } else {
        "Bundled"@
    }) + " with luck v"@ + version + " // https://github.com/esoware/luck"@
}

/// The comment lines heading a build's output: each line of the configured
/// preamble as a Lua comment, then, when enabled, the luck banner.
pub open spec fn preamble_lines(preamble: Option<Seq<char>>, luck_preamble: bool, minify: bool, version: Seq<char>) -> Seq<
    Seq<char>,
> {
    (match preamble {
        Some(text) => lines_from(text, 0).map_values(|l: Seq<char>| "-- "@ + l),
        None => Seq::empty(),
    }) + if luck_preamble {
        seq![luck_banner(minify, version)]
    } else {
        Seq::empty()
    }
}

/// Joins `lines` with `\n` between them.
pub(crate) fn join_lines(lines: &Vec<String>) -> (text: String)
    ensures
        text@ == joined_lines(lines@.map_values(|l: String| l@)),
{
    let ghost all = lines@.map_values(|l: String| l@);
    let mut text = String::new();
    let mut i: usize = 0;
    proof {
        assert(all.take(0) =~= Seq::<Seq<char>>::empty());
    }
    while i < lines.len()
        invariant
            all == lines@.map_values(|l: String| l@),
            i <= lines@.len(),
            text@ == joined_lines(all.take(i as int)),
        decreases lines@.len() - i,
    {
        if i > 0 {
            push_str(&mut text, "\n");
        }
        push_str(&mut text, lines[i].as_str());
        proof {
            let t = all.take(i + 1);
            assert(t.drop_last() =~= all.take(i as int));
            if i == 0 {
                assert(text@ =~= t[0]);
            } else {
                assert(text@ =~= joined_lines(t.drop_last()) + "\n"@ + t.last());
            }
        }
        i += 1;
    }
    proof {
        assert(all.take(i as int) =~= all);
    }
    text
}

/// The comment block heading a build's output (see [`preamble_lines`]).
pub fn build_preamble(preamble: Option<&str>, luck_preamble: bool, minify: bool, version: &str) -> (text: String)
    ensures
        text@ == joined_lines(
            preamble_lines(
                match preamble {
                    Some(t) => Some(t@),
                    None => None,
                },
                luck_preamble,
                minify,
                version@,
            ),
        ),
{
    let mut lines: Vec<String> = Vec::new();
    let ghost mut source_lines: Seq<Seq<char>> = Seq::empty();
    if let Some(text) = preamble {
        let raw = text_lines(text);
        proof {
            source_lines = lines_from(text@, 0);
        }
        let mut i: usize = 0;
        while i < raw.len()
            invariant
                raw@.map_values(|l: String| l@) == source_lines,
                i <= raw@.len(),
                lines@.map_values(|l: String| l@) == source_lines.take(i as int).map_values(|l: Seq<char>| "-- "@ + l),
            decreases raw@.len() - i,
        {
            let mut line = String::new();
            push_str(&mut line, "-- ");
            push_str(&mut line, raw[i].as_str());
            let ghost before = lines@;
            lines.push(line);
            proof {
                assert(source_lines[i as int] == raw@[i as int]@);
                assert(source_lines.take(i + 1) =~= source_lines.take(i as int).push(source_lines[i as int]));
                assert(lines@.map_values(|l: String| l@) =~= before.map_values(|l: String| l@).push(line@));
                assert(lines@.map_values(|l: String| l@) =~= source_lines.take(i + 1).map_values(|l: Seq<char>| "-- "@ + l));
            }
            i += 1;
        }
        proof {
            assert(source_lines.take(i as int) =~= source_lines);
        }
    }
    let ghost commented = lines@.map_values(|l: String| l@);
    if luck_preamble {
        let mut banner = String::new();
        push_str(&mut banner, "-- ");
        if minify {
            push_str(&mut banner, "Bundled & minified");
        } else {
            push_str(&mut banner, "Bundled");
        }
        push_str(&mut banner, " with luck v");
        push_str(&mut banner, version);
        push_str(&mut banner, " // https://github.com/esoware/luck");
        lines.push(banner);
        proof {
            assert(banner@ =~= luck_banner(minify, version@));
            assert(lines@.map_values(|l: String| l@) =~= commented.push(banner@));
        }
    }
    proof {
        let wanted = preamble_lines(
            match preamble {
                Some(t) => Some(t@),
                None => None,
            },
            luck_preamble,
            minify,
            version@,
        );
        assert(lines@.map_values(|l: String| l@) =~= wanted);
    }
    join_lines(&lines)
}

/// Position of the first `.` from the end of `name`, if any.
pub open spec fn last_dot(name: Seq<char>) -> Option<int>
    decreases name.len(),
{
    if name.len() == 0 {
        None
    } else if name.last() == '.' {
        Some(name.len() - 1)
    } else {
        last_dot(name.drop_last())
    }
}

/// The extension of a file named `name`, as `Path::extension` reads it:
/// after the final `.`, with none for a name without a `.`, one whose only
/// `.` starts it, or `..`.
pub open spec fn extension_of(name: Seq<char>) -> Option<Seq<char>> {
    if name == seq!['.', '.'] {
        None
    } else {
        match last_dot(name) {
            Some(d) => if d == 0 {
                None
            } else {
                Some(name.skip(d + 1))
            },
            None => None,
        }
    }
}

/// Only source and config changes trigger a rebuild: a file with a `lua`,
/// `luau` or `json` extension, or one named `.luaurc` or `luck.json`.
pub open spec fn relevant_change(file_name: Option<Seq<char>>) -> bool {
    match file_name {
        Some(name) => match extension_of(name) {
            Some(ext) => ext == "lua"@ || ext == "luau"@ || ext == "json"@ || name == ".luaurc"@ || name
                == "luck.json"@,
            None => name == ".luaurc"@ || name == "luck.json"@,
        },
        None => false,
    }
}

/// Whether a change to the file named `file_name` should trigger a
/// rebuild: source and config changes do, editor temp files and `.git`
/// churn do not.
pub fn is_relevant_change(file_name: Option<&str>) -> (relevant: bool)
    ensures
        relevant == relevant_change(
            match file_name {
                Some(n) => Some(n@),
                None => None,
            },
        ),
{
    let name = match file_name {
        Some(n) => n,
        None => return false,
    };
    let chars = chars_of(name);
    let named = spells(&chars, ".luaurc") || spells(&chars, "luck.json");
    if chars.len() == 2 && chars[0] == '.' && chars[1] == '.' {
        proof {
            assert(chars@ =~= seq!['.', '.']);
        }
        return named;
    }
    let mut d: usize = chars.len();
    proof {
        assert(chars@.take(d as int) =~= chars@);
    }
    while d > 0 && chars[d - 1] != '.'
        invariant
            d <= chars@.len(),
            last_dot(chars@) == last_dot(chars@.take(d as int)),
        decreases d,
    {
        proof {
            assert(chars@.take(d as int).drop_last() =~= chars@.take(d - 1));
        }
        d -= 1;
    }
    proof {
        if chars@.len() == 2 && chars@[0] == '.' && chars@[1] == '.' {
        } else {
            assert(chars@ != seq!['.', '.']);
        }
    }
    if d <= 1 {
        proof {
            if d == 1 {
                assert(last_dot(chars@.take(1)) == Some(0int));
            } else {
                assert(chars@.take(0) =~= Seq::<char>::empty());
            }
        }
        return named;
    }
    proof {
        assert(chars@.take(d as int).last() == '.');
    }
    let mut ext: Vec<char> = Vec::new();
    let mut k: usize = d;
    while k < chars.len()
        invariant
            d <= k <= chars@.len(),
            ext@ == chars@.subrange(d as int, k as int),
        decreases chars@.len() - k,
    {
        ext.push(chars[k]);
        proof {
            assert(chars@.subrange(d as int, k + 1) =~= chars@.subrange(d as int, k as int).push(chars@[k as int]));
        }
        k += 1;
    }
    proof {
        assert(ext@ =~= chars@.skip(d as int));
    }
    spells(&ext, "lua") || spells(&ext, "luau") || spells(&ext, "json") || named
}

// ----- diagnostics -----

/// How serious a diagnostic is.
#[derive(Debug, Clone, Copy, PartialEq, Eq, Structural)]
pub enum Severity {
    Error,
    Warning,
}

/// A diagnostic as the terminal renders it: its code, severity and
/// message, and where it points.
#[derive(Debug, Clone)]
pub struct Diagnostic {
    pub code: String,
    pub severity: Severity,
    pub message: String,
    pub file_path: String,
    pub span: Range<usize>,
}

/// The one-line rendering of `diag`: `[code] severity: message (file:
/// byte start)`, then a newline.
pub open spec fn compact_text(diag: Diagnostic) -> Seq<char> {
    "["@ + diag.code@ + "] "@ + (match diag.severity {
        Severity::Error => "error"@,
        Severity::Warning => "warning"@,
    }) + ": "@ + diag.message@ + " ("@ + diag.file_path@ + ": byte "@ + decimal(diag.span.start as nat) + ")\n"@
}

/// A compact one-line diagnostic with no source snippet: the fallback for
/// files whose relevant line is too long for the pretty renderer.
pub fn compact_diagnostic(diag: &Diagnostic) -> (text: String)
    ensures
        text@ == compact_text(*diag),
{
    let mut text = String::new();
    push_str(&mut text, "[");
    push_str(&mut text, diag.code.as_str());
    push_str(&mut text, "] ");
    match diag.severity {
        Severity::Error => push_str(&mut text, "error"),
        Severity::Warning => push_str(&mut text, "warning"),
    }
    push_str(&mut text, ": ");
    push_str(&mut text, diag.message.as_str());
    push_str(&mut text, " (");
    push_str(&mut text, diag.file_path.as_str());
    push_str(&mut text, ": byte ");
    push_decimal(&mut text, diag.span.start);
    push_str(&mut text, ")\n");
    proof {
        assert(text@ =~= compact_text(*diag));
    }
    text
}


/// Longest source line the pretty diagnostic renderer is handed.
pub const MAX_RENDERABLE_LINE: usize = 10_000;

/// Start of the line holding byte `o` of `b`: just past the last `\n`
/// before `o`, or 0.
pub open spec fn line_start(b: Seq<u8>, o: int) -> int
    decreases o,
{
    if o <= 0 {
        0
    } else if b[o - 1] == 10 {
        o
    } else {
        line_start(b, o - 1)
    }
}

/// End of the line holding byte `o` of `b`: the first `\n` at or after
/// `o`, or the end of `b`.
pub open spec fn line_end(b: Seq<u8>, o: int) -> int
    decreases b.len() - o,
{
    if o < 0 || o >= b.len() {
        b.len() as int
    } else if b[o] == 10 {
        o
    } else {
        line_end(b, o + 1)
    }
}

proof fn lemma_line_bounds(b: Seq<u8>, o: int)
    requires
        0 <= o <= b.len(),
    ensures
        0 <= line_start(b, o) <= o <= line_end(b, o) <= b.len(),
    decreases b.len() - o + o,
{
    if o > 0 && b[o - 1] != 10 {
        lemma_line_bounds_start(b, o - 1);
    }
    if o < b.len() && b[o] != 10 {
        lemma_line_bounds_end(b, o + 1);
    }
}

proof fn lemma_line_bounds_start(b: Seq<u8>, o: int)
    requires
        0 <= o <= b.len(),
    ensures
        0 <= line_start(b, o) <= o,
    decreases o,
{
    if o > 0 && b[o - 1] != 10 {
        lemma_line_bounds_start(b, o - 1);
    }
}

proof fn lemma_line_bounds_end(b: Seq<u8>, o: int)
    requires
        0 <= o <= b.len(),
    ensures
        o <= line_end(b, o) <= b.len(),
    decreases b.len() - o,
{
    if o < b.len() && b[o] != 10 {
        lemma_line_bounds_end(b, o + 1);
    }
}

/// Length in bytes of the line of `source` containing `offset` (clamped to
/// the source length), or 0 when there is no source.
pub open spec fn spec_line_len_at(source: Option<Seq<u8>>, offset: usize) -> int {
    match source {
        Some(b) => {
            let o = if offset < b.len() {
                offset as int
            } else {
                b.len() as int
            };
            line_end(b, o) - line_start(b, o)
        },
        None => 0,
    }
}

/// Length in bytes of the line of `source` containing `offset`, or 0 if
/// the file is not at hand. Decides whether the pretty renderer can show
/// it.
pub fn line_len_at(source: Option<&str>, offset: usize) -> (len: usize)
    requires
        source matches Some(s) ==> is_char_boundary(
            s.spec_bytes(),
            if offset < s.spec_bytes().len() {
                offset as int
            } else {
                s.spec_bytes().len() as int
            },
        ),
    ensures
        len == spec_line_len_at(
            match source {
                Some(s) => Some(s.spec_bytes()),
                None => None,
            },
            offset,
        ),
{
    let s = match source {
        Some(s) => s,
        None => return 0,
    };
    let b = s.as_bytes();
    let o = if offset < b.len() {
        offset
    } else {
        b.len()
    };
    let mut start: usize = o;
    while start > 0 && b[start - 1] != 10u8
        invariant
            start <= o <= b@.len(),
            line_start(b@, start as int) == line_start(b@, o as int),
        decreases start,
    {
        start -= 1;
    }
    let mut end: usize = o;
    while end < b.len() && b[end] != 10u8
        invariant
            o <= end <= b@.len(),
            line_end(b@, end as int) == line_end(b@, o as int),
        decreases b@.len() - end,
    {
        end += 1;
    }
    proof {
        lemma_line_bounds(b@, o as int);
    }
    end - start
}

/// Whether the line of `source` holding `offset` is too long for the
/// pretty renderer.
pub fn is_line_too_long(source: Option<&str>, offset: usize) -> (too_long: bool)
    requires
        source matches Some(s) ==> is_char_boundary(
            s.spec_bytes(),
            if offset < s.spec_bytes().len() {
                offset as int
            } else {
                s.spec_bytes().len() as int
            },
        ),
    ensures
        too_long == (spec_line_len_at(
            match source {
                Some(s) => Some(s.spec_bytes()),
                None => None,
            },
            offset,
        ) > MAX_RENDERABLE_LINE),
{
    line_len_at(source, offset) > MAX_RENDERABLE_LINE
}

// ----- graph -----

/// The DOT edges of the requires of `deps`, out of the module at `path`.
pub open spec fn dot_edges(path: Seq<char>, deps: Seq<Dependency>) -> Seq<char>
    decreases deps.len(),
{
    if deps.len() == 0 {
        Seq::empty()
    } else {
        dot_edges(path, deps.drop_last()) + "  \""@ + path + "\" -> \""@ + deps.last().resolved_path@ + "\";\n"@
    }
}

/// The DOT edges of the first `k` modules.
pub open spec fn dot_body(modules: Seq<ModuleInfo>, k: int) -> Seq<char>
    decreases k,
{
    if k <= 0 {
        Seq::empty()
    } else {
        dot_body(modules, k - 1) + dot_edges(modules[k - 1].path@, modules[k - 1].dependencies@)
    }
}

/// The dependency graph of `modules` in Graphviz DOT: one edge per
/// require, from the requiring module's path to the path it resolves to.
pub open spec fn dot_text(modules: Seq<ModuleInfo>) -> Seq<char> {
    "digraph dependencies {\n"@ + dot_body(modules, modules.len() as int) + "}\n"@
}

/// The dependency graph in Graphviz DOT, as `luck graph --format dot`
/// prints it.
pub fn graph_dot(dep_graph: &DependencyGraph) -> (dot: String)
    ensures
        dot@ == dot_text(dep_graph.modules@),
{
    let modules = &dep_graph.modules;
    let mut dot = String::new();
    push_str(&mut dot, "digraph dependencies {\n");
    let ghost head = dot@;
    let mut m: usize = 0;
    while m < modules.len()
        invariant
            head == "digraph dependencies {\n"@,
            m <= modules@.len(),
            dot@ == head + dot_body(modules@, m as int),
        decreases modules@.len() - m,
    {
        let module = &modules[m];
        let deps = &module.dependencies;
        let ghost before = dot@;
        let mut j: usize = 0;
        proof {
            assert(deps@.take(0) =~= Seq::<Dependency>::empty());
            assert(before + dot_edges(module.path@, deps@.take(0)) =~= before);
        }
        while j < deps.len()
            invariant
                *deps == modules@[m as int].dependencies,
                module.path == modules@[m as int].path,
                j <= deps@.len(),
                dot@ == before + dot_edges(module.path@, deps@.take(j as int)),
            decreases deps@.len() - j,
        {
            push_str(&mut dot, "  \"");
            push_str(&mut dot, module.path.as_str());
            push_str(&mut dot, "\" -> \"");
            push_str(&mut dot, deps[j].resolved_path.as_str());
            push_str(&mut dot, "\";\n");
            proof {
                assert(deps@.take(j + 1).drop_last() =~= deps@.take(j as int));
                assert(dot@ =~= before + dot_edges(module.path@, deps@.take(j + 1)));
            }
            j += 1;
        }
        proof {
            assert(deps@.take(j as int) =~= deps@);
            assert(dot@ =~= head + dot_body(modules@, m + 1));
        }
        m += 1;
    }
    push_str(&mut dot, "}\n");
    proof {
        assert(dot@ =~= dot_text(modules@));
    }
    dot
}

/// One module of the graph as `luck graph --format json` lists it: its
/// path, the require strings it writes, and the paths they resolve to.
#[derive(Debug, Clone, PartialEq, Eq)]
pub struct ModuleSummary {
    pub path: String,
    pub requires: Vec<String>,
    pub resolved_deps: Vec<String>,
}

/// What `luck graph --format json` reports: the entry module's path, each
/// module, and the load order as module paths.
#[derive(Debug, Clone, PartialEq, Eq)]
pub struct GraphSummary {
    pub entry: String,
    pub modules: Vec<ModuleSummary>,
    pub order: Vec<String>,
}

/// The require strings of `deps`, in order.
pub open spec fn require_strings(deps: Seq<Dependency>) -> Seq<Seq<char>> {
    deps.map_values(|d: Dependency| d.require_string@)
}

/// The resolved paths of `deps`, in order.
pub open spec fn resolved_paths(deps: Seq<Dependency>) -> Seq<Seq<char>> {
    deps.map_values(|d: Dependency| d.resolved_path@)
}

/// `summary` lists `module`.
pub open spec fn summarizes(summary: ModuleSummary, module: ModuleInfo) -> bool {
    &&& summary.path@ == module.path@
    &&& summary.requires@.map_values(|s: String| s@) == require_strings(module.dependencies@)
    &&& summary.resolved_deps@.map_values(|s: String| s@) == resolved_paths(module.dependencies@)
}

/// The JSON report's content for a graph whose entry and load order name
/// modules of the graph (as every graph the builder makes does).
pub fn graph_summary(dep_graph: &DependencyGraph) -> (summary: GraphSummary)
    requires
        dep_graph.entry_id.0 < dep_graph.modules@.len(),
        forall|p: int| 0 <= p < dep_graph.topo_order@.len() ==> (#[trigger] dep_graph.topo_order@[p]).0 < dep_graph.modules@.len(),
    ensures
        summary.entry@ == dep_graph.modules@[dep_graph.entry_id.0 as int].path@,
        summary.modules@.len() == dep_graph.modules@.len(),
        forall|m: int| 0 <= m < dep_graph.modules@.len() ==> summarizes(#[trigger] summary.modules@[m], dep_graph.modules@[m]),
        summary.order@.len() == dep_graph.topo_order@.len(),
        forall|p: int|
            0 <= p < dep_graph.topo_order@.len() ==> (#[trigger] summary.order@[p])@
                == dep_graph.modules@[dep_graph.topo_order@[p].0 as int].path@,
{
    let modules = &dep_graph.modules;
    let mut listed: Vec<ModuleSummary> = Vec::new();
    let mut m: usize = 0;
    while m < modules.len()
        invariant
            m <= modules@.len(),
            listed@.len() == m,
            forall|k: int| 0 <= k < m ==> summarizes(#[trigger] listed@[k], modules@[k]),
        decreases modules@.len() - m,
    {
        let deps = &modules[m].dependencies;
        let mut require_list: Vec<String> = Vec::new();
        let mut resolved_deps: Vec<String> = Vec::new();
        let mut j: usize = 0;
        while j < deps.len()
            invariant
                j <= deps@.len(),
                require_list@.map_values(|s: String| s@) == require_strings(deps@.take(j as int)),
                resolved_deps@.map_values(|s: String| s@) == resolved_paths(deps@.take(j as int)),
            decreases deps@.len() - j,
        {
            let ghost before_requires = require_list@;
            let ghost before_resolved = resolved_deps@;
            require_list.push(deps[j].require_string.clone());
            resolved_deps.push(deps[j].resolved_path.clone());
            proof {
                assert(deps@.take(j + 1) =~= deps@.take(j as int).push(deps@[j as int]));
                assert(require_list@ =~= before_requires.push(deps@[j as int].require_string));
                assert(resolved_deps@ =~= before_resolved.push(deps@[j as int].resolved_path));
                assert(require_strings(deps@.take(j + 1)) =~= require_strings(deps@.take(j as int)).push(
                    deps@[j as int].require_string@,
                ));
                assert(resolved_paths(deps@.take(j + 1)) =~= resolved_paths(deps@.take(j as int)).push(
                    deps@[j as int].resolved_path@,
                ));
                assert(require_list@.map_values(|s: String| s@) =~= require_strings(deps@.take(j + 1)));
                assert(resolved_deps@.map_values(|s: String| s@) =~= resolved_paths(deps@.take(j + 1)));
            }
            j += 1;
        }
        proof {
            assert(deps@.take(j as int) =~= deps@);
        }
        listed.push(ModuleSummary { path: modules[m].path.clone(), requires: require_list, resolved_deps });
        proof {
            assert(listed@[m as int].path@ == modules@[m as int].path@);
        }
        m += 1;
    }
    let mut order: Vec<String> = Vec::new();
    let mut p: usize = 0;
    while p < dep_graph.topo_order.len()
        invariant
            forall|q: int| 0 <= q < dep_graph.topo_order@.len() ==> (#[trigger] dep_graph.topo_order@[q]).0 < dep_graph.modules@.len(),
            p <= dep_graph.topo_order@.len(),
            order@.len() == p,
            forall|q: int|
                0 <= q < p ==> (#[trigger] order@[q])@ == dep_graph.modules@[dep_graph.topo_order@[q].0 as int].path@,
        decreases dep_graph.topo_order@.len() - p,
    {
        let id = dep_graph.topo_order[p].0;
        order.push(dep_graph.modules[id].path.clone());
        p += 1;
    }
    let entry = dep_graph.modules[dep_graph.entry_id.0].path.clone();
    GraphSummary { entry, modules: listed, order }
}

} // verus!
