//! The memoizing loader emitted at the top of every multi-module bundle,
//! mirroring the target version's own `require` implementation.

use vstd::prelude::*;
use crate::text::push_str;
use crate::version::LuaVersion;

verus! {

/// The Luau loader: a private cache keyed by module slot; cycles and repeated failures raise, modules must return exactly one non-nil value, chunks receive no arguments.
pub open spec fn luau_loader(prefix: Seq<char>) -> Seq<char> {
    "local "@ + prefix + "modules={}\nlocal "@ + prefix + "loaded={}\nlocal "@ + prefix + "loading={}\nlocal function "@ + prefix + "result(...)\nif select(\"#\",...)~=1 or (...)==nil then\nerror(\"luck bundle: module must return exactly one non-nil value\",0)\nend\nreturn ...\nend\nlocal function "@ + prefix + "require(id)\nlocal value="@ + prefix + "loaded[id]\nif value~=nil then\nif value=="@ + prefix + "loading then error(\"luck bundle: require cycle hit while loading module #\"..id,2)end\nreturn value\nend\n"@ + prefix + "loaded[id]="@ + prefix + "loading\nvalue="@ + prefix + "result("@ + prefix + "modules[id]())\n"@ + prefix + "loaded[id]=value\nreturn value\nend\n"@
}

fn push_luau_loader(out: &mut String, prefix: &str)
    ensures
        final(out)@ == old(out)@ + luau_loader(prefix@),
{
    push_str(out, "local ");
    push_str(out, prefix);
    push_str(out, "modules={}\nlocal ");
    push_str(out, prefix);
    push_str(out, "loaded={}\nlocal ");
    push_str(out, prefix);
    push_str(out, "loading={}\nlocal function ");
    push_str(out, prefix);
    push_str(out, "result(...)\nif select(\"#\",...)~=1 or (...)==nil then\nerror(\"luck bundle: module must return exactly one non-nil value\",0)\nend\nreturn ...\nend\nlocal function ");
    push_str(out, prefix);
    push_str(out, "require(id)\nlocal value=");
    push_str(out, prefix);
    push_str(out, "loaded[id]\nif value~=nil then\nif value==");
    push_str(out, prefix);
    push_str(out, "loading then error(\"luck bundle: require cycle hit while loading module #\"..id,2)end\nreturn value\nend\n");
    push_str(out, prefix);
    push_str(out, "loaded[id]=");
    push_str(out, prefix);
    push_str(out, "loading\nvalue=");
    push_str(out, prefix);
    push_str(out, "result(");
    push_str(out, prefix);
    push_str(out, "modules[id]())\n");
    push_str(out, prefix);
    push_str(out, "loaded[id]=value\nreturn value\nend\n");
    proof {
        assert(final(out)@ =~= old(out)@ + luau_loader(prefix@));
    }
}

/// Head of every Lua loader: the module table, and the cache and preload tables, which are `package.loaded` and `package.preload` when the host has them.
pub open spec fn lua_loader_head(prefix: Seq<char>) -> Seq<char> {
    "local "@ + prefix + "modules={}\nlocal "@ + prefix + "loaded=type(package)==\"table\" and type(package.loaded)==\"table\" and package.loaded or {}\nlocal "@ + prefix + "preload=type(package)==\"table\" and type(package.preload)==\"table\" and package.preload or {}\n"@
}

fn push_lua_loader_head(out: &mut String, prefix: &str)
    ensures
        final(out)@ == old(out)@ + lua_loader_head(prefix@),
{
    push_str(out, "local ");
    push_str(out, prefix);
    push_str(out, "modules={}\nlocal ");
    push_str(out, prefix);
    push_str(out, "loaded=type(package)==\"table\" and type(package.loaded)==\"table\" and package.loaded or {}\nlocal ");
    push_str(out, prefix);
    push_str(out, "preload=type(package)==\"table\" and type(package.preload)==\"table\" and package.preload or {}\n");
    proof {
        assert(final(out)@ =~= old(out)@ + lua_loader_head(prefix@));
    }
}

/// The module path table that 5.2+ loaders hand to chunks.
pub open spec fn paths_table(prefix: Seq<char>) -> Seq<char> {
    "local "@ + prefix + "paths={}\n"@
}

fn push_paths_table(out: &mut String, prefix: &str)
    ensures
        final(out)@ == old(out)@ + paths_table(prefix@),
{
    push_str(out, "local ");
    push_str(out, prefix);
    push_str(out, "paths={}\n");
    proof {
        assert(final(out)@ =~= old(out)@ + paths_table(prefix@));
    }
}

/// The 5.1 `require`: a sentinel marks in-progress loads, and hitting it (a cycle, or a module whose load previously raised) fails with 5.1's "loop or previous error".
pub open spec fn require_sentinel(prefix: Seq<char>) -> Seq<char> {
    "local "@ + prefix + "loading={}\nlocal function "@ + prefix + "require(name)\nlocal value="@ + prefix + "loaded[name]\nif value then\nif value=="@ + prefix + "loading then error(\"loop or previous error loading module '\"..name..\"'\",2)end\nreturn value\nend\nlocal loader="@ + prefix + "preload[name] or "@ + prefix + "modules[name]\n"@ + prefix + "loaded[name]="@ + prefix + "loading\nvalue=loader(name)\nif value~=nil then "@ + prefix + "loaded[name]=value end\nvalue="@ + prefix + "loaded[name]\nif value=="@ + prefix + "loading then\nvalue=true\n"@ + prefix + "loaded[name]=value\nend\nreturn value\nend\n"@
}

fn push_require_sentinel(out: &mut String, prefix: &str)
    ensures
        final(out)@ == old(out)@ + require_sentinel(prefix@),
{
    push_str(out, "local ");
    push_str(out, prefix);
    push_str(out, "loading={}\nlocal function ");
    push_str(out, prefix);
    push_str(out, "require(name)\nlocal value=");
    push_str(out, prefix);
    push_str(out, "loaded[name]\nif value then\nif value==");
    push_str(out, prefix);
    push_str(out, "loading then error(\"loop or previous error loading module '\"..name..\"'\",2)end\nreturn value\nend\nlocal loader=");
    push_str(out, prefix);
    push_str(out, "preload[name] or ");
    push_str(out, prefix);
    push_str(out, "modules[name]\n");
    push_str(out, prefix);
    push_str(out, "loaded[name]=");
    push_str(out, prefix);
    push_str(out, "loading\nvalue=loader(name)\nif value~=nil then ");
    push_str(out, prefix);
    push_str(out, "loaded[name]=value end\nvalue=");
    push_str(out, prefix);
    push_str(out, "loaded[name]\nif value==");
    push_str(out, prefix);
    push_str(out, "loading then\nvalue=true\n");
    push_str(out, prefix);
    push_str(out, "loaded[name]=value\nend\nreturn value\nend\n");
    proof {
        assert(final(out)@ =~= old(out)@ + require_sentinel(prefix@));
    }
}

/// The 5.2/5.3 `require`: no sentinel; an error during load leaves the cache unset, so a later `require` retries.
pub open spec fn require_retry(prefix: Seq<char>) -> Seq<char> {
    "local function "@ + prefix + "require(name)\nlocal value="@ + prefix + "loaded[name]\nif value then return value end\nlocal preloader="@ + prefix + "preload[name]\nif preloader then\nvalue=preloader(name)\nelse\nvalue="@ + prefix + "modules[name](name,"@ + prefix + "paths[name])\nend\nif value~=nil then "@ + prefix + "loaded[name]=value end\nvalue="@ + prefix + "loaded[name]\nif value==nil then\nvalue=true\n"@ + prefix + "loaded[name]=value\nend\nreturn value\nend\n"@
}

fn push_require_retry(out: &mut String, prefix: &str)
    ensures
        final(out)@ == old(out)@ + require_retry(prefix@),
{
    push_str(out, "local function ");
    push_str(out, prefix);
    push_str(out, "require(name)\nlocal value=");
    push_str(out, prefix);
    push_str(out, "loaded[name]\nif value then return value end\nlocal preloader=");
    push_str(out, prefix);
    push_str(out, "preload[name]\nif preloader then\nvalue=preloader(name)\nelse\nvalue=");
    push_str(out, prefix);
    push_str(out, "modules[name](name,");
    push_str(out, prefix);
    push_str(out, "paths[name])\nend\nif value~=nil then ");
    push_str(out, prefix);
    push_str(out, "loaded[name]=value end\nvalue=");
    push_str(out, prefix);
    push_str(out, "loaded[name]\nif value==nil then\nvalue=true\n");
    push_str(out, prefix);
    push_str(out, "loaded[name]=value\nend\nreturn value\nend\n");
    proof {
        assert(final(out)@ =~= old(out)@ + require_retry(prefix@));
    }
}

/// The 5.4/5.5 `require`: as in 5.2, and the loader data is returned as a second result on first load only.
pub open spec fn require_loaderdata(prefix: Seq<char>) -> Seq<char> {
    "local function "@ + prefix + "require(name)\nlocal value="@ + prefix + "loaded[name]\nif value then return value end\nlocal loaderdata\nlocal loader="@ + prefix + "preload[name]\nif loader then\nloaderdata=\":preload:\"\nelse\nloader="@ + prefix + "modules[name]\nloaderdata="@ + prefix + "paths[name]\nend\nvalue=loader(name,loaderdata)\nif value~=nil then "@ + prefix + "loaded[name]=value end\nvalue="@ + prefix + "loaded[name]\nif value==nil then\nvalue=true\n"@ + prefix + "loaded[name]=value\nend\nreturn value,loaderdata\nend\n"@
}

fn push_require_loaderdata(out: &mut String, prefix: &str)
    ensures
        final(out)@ == old(out)@ + require_loaderdata(prefix@),
{
    push_str(out, "local function ");
    push_str(out, prefix);
    push_str(out, "require(name)\nlocal value=");
    push_str(out, prefix);
    push_str(out, "loaded[name]\nif value then return value end\nlocal loaderdata\nlocal loader=");
    push_str(out, prefix);
    push_str(out, "preload[name]\nif loader then\nloaderdata=\":preload:\"\nelse\nloader=");
    push_str(out, prefix);
    push_str(out, "modules[name]\nloaderdata=");
    push_str(out, prefix);
    push_str(out, "paths[name]\nend\nvalue=loader(name,loaderdata)\nif value~=nil then ");
    push_str(out, prefix);
    push_str(out, "loaded[name]=value end\nvalue=");
    push_str(out, prefix);
    push_str(out, "loaded[name]\nif value==nil then\nvalue=true\n");
    push_str(out, prefix);
    push_str(out, "loaded[name]=value\nend\nreturn value,loaderdata\nend\n");
    proof {
        assert(final(out)@ =~= old(out)@ + require_loaderdata(prefix@));
    }
}

/// The entry point `require(expr)` calls are retargeted at: bundled names first, then the host's own `require`, read at call time.
pub open spec fn dynamic_entry(prefix: Seq<char>) -> Seq<char> {
    "local function "@ + prefix + "dynamic(name)\nif "@ + prefix + "modules[name]~=nil or "@ + prefix + "preload[name]~=nil then return "@ + prefix + "require(name)end\nif type(require)==\"function\" then return require(name)end\nerror(\"luck bundle: dynamic require of '\"..tostring(name)..\"' is not in the bundle and this runtime has no require\",2)\nend\n"@
}

fn push_dynamic_entry(out: &mut String, prefix: &str)
    ensures
        final(out)@ == old(out)@ + dynamic_entry(prefix@),
{
    push_str(out, "local function ");
    push_str(out, prefix);
    push_str(out, "dynamic(name)\nif ");
    push_str(out, prefix);
    push_str(out, "modules[name]~=nil or ");
    push_str(out, prefix);
    push_str(out, "preload[name]~=nil then return ");
    push_str(out, prefix);
    push_str(out, "require(name)end\nif type(require)==\"function\" then return require(name)end\nerror(\"luck bundle: dynamic require of '\"..tostring(name)..\"' is not in the bundle and this runtime has no require\",2)\nend\n");
    proof {
        assert(final(out)@ =~= old(out)@ + dynamic_entry(prefix@));
    }
}

/// The loader text for `version`, with every generated name starting with
/// `prefix`; `has_dynamic_require` adds the dynamic entry point, which only
/// Lua targets use.
pub open spec fn loader(prefix: Seq<char>, version: LuaVersion, has_dynamic_require: bool) -> Seq<char> {
    if version.spec_is_luau() {
        luau_loader(prefix)
    } else {
        lua_loader_head(prefix) + (if version.spec_has_require_filepath_arg() {
            paths_table(prefix)
        } else {
            Seq::empty()
        }) + (if !version.spec_has_require_error_retry() {
            require_sentinel(prefix)
        } else if !version.spec_has_require_loaderdata() {
            require_retry(prefix)
        } else {
            require_loaderdata(prefix)
        }) + (if has_dynamic_require {
            dynamic_entry(prefix)
        } else {
            Seq::empty()
        })
    }
}

/// The memoizing loader emitted at the top of every multi-module bundle.
pub fn loader_text(prefix: &str, version: LuaVersion, has_dynamic_require: bool) -> (text: String)
    ensures
        text@ == loader(prefix@, version, has_dynamic_require),
{
    let mut text = String::new();
    if version.is_luau() {
        push_luau_loader(&mut text, prefix);
        proof {
            assert(text@ =~= loader(prefix@, version, has_dynamic_require));
        }
        return text;
    }
    push_lua_loader_head(&mut text, prefix);
    let ghost after_head = text@;
    if version.has_require_filepath_arg() {
        push_paths_table(&mut text, prefix);
    }
    let ghost after_paths = text@;
    if !version.has_require_error_retry() {
        push_require_sentinel(&mut text, prefix);
    } else if !version.has_require_loaderdata() {
        push_require_retry(&mut text, prefix);
    } else {
        push_require_loaderdata(&mut text, prefix);
    }
    if has_dynamic_require {
        push_dynamic_entry(&mut text, prefix);
    }
    proof {
        assert(text@ =~= loader(prefix@, version, has_dynamic_require));
    }
    text
}

} // verus!
