//! The Lua dialects a bundle can target, with the runtime behaviours of
//! `require` that the bundle loader has to reproduce.

use vstd::prelude::*;

verus! {

/// A Lua language version.
#[derive(Debug, Clone, Copy, PartialEq, Eq, Hash, Structural)]
pub enum LuaVersion {
    Lua51,
    Lua52,
    Lua53,
    Lua54,
    Lua55,
    Luau,
}

impl LuaVersion {
    /// Whether this is the Luau dialect.
    pub open spec fn spec_is_luau(self) -> bool {
        self == LuaVersion::Luau
    }

    /// Whether `require` hands a loader the file path as a second argument
    /// (Lua 5.2 onward).
    pub open spec fn spec_has_require_filepath_arg(self) -> bool {
        match self {
            LuaVersion::Lua51 | LuaVersion::Luau => false,
            _ => true,
        }
    }

    /// Whether a module whose load raised is retried by the next `require`
    /// instead of failing with "loop or previous error" (Lua 5.2 onward).
    pub open spec fn spec_has_require_error_retry(self) -> bool {
        match self {
            LuaVersion::Lua51 | LuaVersion::Luau => false,
            _ => true,
        }
    }

    /// Whether `require` returns the loader data as a second result on the
    /// first load (Lua 5.4 onward).
    pub open spec fn spec_has_require_loaderdata(self) -> bool {
        self == LuaVersion::Lua54 || self == LuaVersion::Lua55
    }

    /// Whether modules declare their exports with `export` statements (Luau).
    pub open spec fn spec_has_value_exports(self) -> bool {
        self == LuaVersion::Luau
    }

    #[verifier::when_used_as_spec(spec_is_luau)]
    pub fn is_luau(self) -> (b: bool)
        ensures
            b == self.spec_is_luau(),
    {
        matches!(self, LuaVersion::Luau)
    }

    #[verifier::when_used_as_spec(spec_has_require_filepath_arg)]
    pub fn has_require_filepath_arg(self) -> (b: bool)
        ensures
            b == self.spec_has_require_filepath_arg(),
    {
        !matches!(self, LuaVersion::Lua51 | LuaVersion::Luau)
    }

    #[verifier::when_used_as_spec(spec_has_require_error_retry)]
    pub fn has_require_error_retry(self) -> (b: bool)
        ensures
            b == self.spec_has_require_error_retry(),
    {
        !matches!(self, LuaVersion::Lua51 | LuaVersion::Luau)
    }

    #[verifier::when_used_as_spec(spec_has_require_loaderdata)]
    pub fn has_require_loaderdata(self) -> (b: bool)
        ensures
            b == self.spec_has_require_loaderdata(),
    {
        matches!(self, LuaVersion::Lua54 | LuaVersion::Lua55)
    }

    #[verifier::when_used_as_spec(spec_has_value_exports)]
    pub fn has_value_exports(self) -> (b: bool)
        ensures
            b == self.spec_has_value_exports(),
    {
        matches!(self, LuaVersion::Luau)
    }
}

} // verus!
