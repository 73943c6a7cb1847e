//! How the bundler classifies the `require` calls of a module: which calls
//! name a module by a literal, which repeat an earlier one, and what a call
//! with a computed argument is answered.

use vstd::prelude::*;
use crate::ast::{Expression, FunctionArgs, FunctionCall, Literal, Var};
use crate::cli::DynamicRequire;
use crate::synth::Span;

verus! {

/// The callee token's span when `call` is a direct, non-method call of a
/// variable named `require` (whatever that name resolves to).
pub open spec fn spec_require_callee_span(call: FunctionCall) -> Option<Span> {
    if call.method is Some {
        None
    } else {
        match call.callee {
            Expression::Var(v) => match *v {
                Var::Name(token) => if token.text@ == "require"@ {
                    Some(token.span)
                } else {
                    None
                },
                _ => None,
            },
            _ => None,
        }
    }
}

/// The string literal a `require` call passes as its one argument, in
/// either call form: `require("m")` or `require "m"`.
pub open spec fn spec_require_literal(call: FunctionCall) -> Option<Literal> {
    match call.args {
        FunctionArgs::Parenthesized { args, .. } => if args@.len() == 1 {
            match args@[0] {
                Expression::StringLiteral(l) => Some(l),
                _ => None,
            }
        } else {
            None
        },
        FunctionArgs::StringLiteral(l) => Some(l),
        _ => None,
    }
}

fn is_require_name(text: &String) -> (b: bool)
    ensures
        b == (text@ == "require"@),
{
    let chars = crate::text::chars_of(text.as_str());
    let word = crate::text::chars_of("require");
    proof {
        reveal_strlit("require");
    }
    if chars.len() != word.len() {
        return false;
    }
    let mut i: usize = 0;
    while i < chars.len()
        invariant
            chars@ == text@,
            word@ == "require"@,
            chars@.len() == word@.len(),
            i <= chars@.len(),
            forall|k: int| 0 <= k < i ==> chars@[k] == word@[k],
        decreases chars@.len() - i,
    {
        if chars[i] != word[i] {
            return false;
        }
        i += 1;
    }
    proof {
        assert(chars@ =~= word@);
    }
    true
}

pub fn require_callee_span(call: &FunctionCall) -> (s: Option<Span>)
    ensures
        s == spec_require_callee_span(*call),
{
    if call.method.is_some() {
        return None;
    }
    match &call.callee {
        Expression::Var(v) => match &**v {
            Var::Name(token) => if is_require_name(&token.text) {
                Some(token.span)
            } else {
                None
            },
            _ => None,
        },
        _ => None,
    }
}

/// The string-literal argument of a call, when it passes exactly one.
pub fn require_literal(call: &FunctionCall) -> (l: Option<&Literal>)
    ensures
        match (l, spec_require_literal(*call)) {
            (Some(a), Some(b)) => *a == b,
            (None, None) => true,
            _ => false,
        },
{
    match &call.args {
        FunctionArgs::Parenthesized { args, .. } => {
            if args.len() != 1 {
                return None;
            }
            match args.get(0) {
                Some(Expression::StringLiteral(literal)) => Some(literal),
                _ => None,
            }
        },
        FunctionArgs::StringLiteral(literal) => Some(literal),
        _ => None,
    }
}

/// Whether the `i`th of `names` repeats an earlier one.
pub open spec fn repeats_earlier(names: Seq<Seq<char>>, i: int) -> bool {
    exists|j: int| 0 <= j < i && names[j] == names[i]
}

/// For each require string in call order, whether it repeats an earlier
/// one: the calls the bundler warns about as duplicates.
pub fn repeated_requires(names: &Vec<String>) -> (marks: Vec<bool>)
    ensures
        marks@.len() == names@.len(),
        forall|i: int|
            0 <= i < names@.len() ==> #[trigger] marks@[i] == repeats_earlier(names@.map_values(|s: String| s@), i),
{
    let ghost views = names@.map_values(|s: String| s@);
    let mut marks: Vec<bool> = Vec::new();
    let mut i: usize = 0;
    while i < names.len()
        invariant
            i <= names@.len(),
            marks@.len() == i,
            views == names@.map_values(|s: String| s@),
            forall|k: int| 0 <= k < i ==> #[trigger] marks@[k] == repeats_earlier(views, k),
        decreases names@.len() - i,
    {
        let mut seen = false;
        let mut j: usize = 0;
        while j < i
            invariant
                j <= i < names@.len(),
                views == names@.map_values(|s: String| s@),
                seen == exists|m: int| 0 <= m < j && views[m] == views[i as int],
            decreases i - j,
        {
            if names[j] == names[i] {
                seen = true;
            }
            proof {
                assert(views[j as int] == names@[j as int]@);
                if seen {
                    if views[j as int] == views[i as int] {
                        assert(exists|m: int| 0 <= m < j + 1 && views[m] == views[i as int]) by {
                            assert(0 <= j < j + 1);
                        }
                    } else {
                        let m = choose|m: int| 0 <= m < j && views[m] == views[i as int];
                        assert(0 <= m < j + 1);
                    }
                }
            }
            j += 1;
        }
        marks.push(seen);
        i += 1;
    }
    marks
}

/// What the bundler answers a `require(expr)` whose argument is not a literal.
#[derive(Debug, Clone, Copy, PartialEq, Eq, Structural)]
pub enum DynamicRequireNotice {
    /// The call aborts the bundle.
    Refused,
    /// Kept; the runtime `require` resolves it (Luau).
    ResolvedAtRuntime,
    /// Kept; the bundle's loader falls back to the host `require` (Lua).
    LoaderFallback,
}

/// The notice a dynamic require is given under `mode`, and whether its
/// `require` callee is retargeted to the bundle's loader: never when the
/// call is refused, never for Luau (whose cache is keyed by resolved file),
/// otherwise always.
pub open spec fn spec_dynamic_require_action(mode: DynamicRequire, is_luau: bool) -> (Option<DynamicRequireNotice>, bool) {
    match mode {
        DynamicRequire::Error => (Some(DynamicRequireNotice::Refused), false),
        DynamicRequire::Warn => if is_luau {
            (Some(DynamicRequireNotice::ResolvedAtRuntime), false)
        } else {
            (Some(DynamicRequireNotice::LoaderFallback), true)
        },
        DynamicRequire::Allow => (None, !is_luau),
    }
}

pub fn dynamic_require_action(mode: DynamicRequire, is_luau: bool) -> (r: (Option<DynamicRequireNotice>, bool))
    ensures
        r == spec_dynamic_require_action(mode, is_luau),
{
    match mode {
        DynamicRequire::Error => (Some(DynamicRequireNotice::Refused), false),
        DynamicRequire::Warn => if is_luau {
            (Some(DynamicRequireNotice::ResolvedAtRuntime), false)
        } else {
            (Some(DynamicRequireNotice::LoaderFallback), true)
        },
        DynamicRequire::Allow => (None, !is_luau),
    }
}

} // verus!
