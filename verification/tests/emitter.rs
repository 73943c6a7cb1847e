use luck::bundle::{bundle_graph, emit, emit_with_line_map, LineMapEntry};
use luck::emitter::transform_module_body;
use luck::graph::DependencyGraph;
use luck::literal::quote_lua_string;
use luck::module::{Dependency, ExportDecl, ModuleId, ModuleInfo};
use luck::prefix::choose_prefix;
use luck::version::LuaVersion;

/// The byte range of the `nth` occurrence of `call` in `source`.
fn span_of(source: &str, call: &str, nth: usize) -> std::ops::Range<usize> {
    let mut from = 0;
    let mut found = 0;
    loop {
        let at = from + source[from..].find(call).expect("call occurs in source");
        if found == nth {
            return at..at + call.len();
        }
        found += 1;
        from = at + call.len();
    }
}

/// A require of `name`, resolved to `resolved`, at the `nth` occurrence of
/// the call text `call`.
fn dep(source: &str, call: &str, nth: usize, name: &str, resolved: &str) -> Dependency {
    Dependency {
        require_string: name.to_string(),
        resolved_path: resolved.to_string(),
        call_span: span_of(source, call, nth),
    }
}

fn module(path: &str, source: &str, dependencies: Vec<Dependency>) -> ModuleInfo {
    ModuleInfo {
        path: path.to_string(),
        source: source.to_string(),
        dependencies,
        relative_path: path.to_string(),
        dynamic_callees: vec![],
        exports: vec![],
    }
}

/// Modules in load order with the last one as entry.
fn graph(modules: Vec<ModuleInfo>) -> DependencyGraph {
    let entry_id = ModuleId(modules.len() - 1);
    DependencyGraph {
        topo_order: (0..modules.len()).map(ModuleId).collect(),
        entry_id,
        modules,
        warnings: vec![],
    }
}

#[test]
fn quote_lua_string_escapes() {
    assert_eq!(quote_lua_string("plain"), "\"plain\"");
    assert_eq!(quote_lua_string("a\"b"), "\"a\\\"b\"");
    assert_eq!(quote_lua_string("a\\b"), "\"a\\\\b\"");
    assert_eq!(quote_lua_string("a\nb"), "\"a\\nb\"");
    // Zero-padded decimal escapes can never absorb a following digit.
    assert_eq!(quote_lua_string("\u{7}5"), "\"\\0075\"");
}

#[test]
fn quote_lua_string_escapes_carriage_return_and_high_bytes() {
    assert_eq!(quote_lua_string("a\rb"), "\"a\\rb\"");
    assert_eq!(quote_lua_string("é"), "\"\\195\\169\"");
    assert_eq!(quote_lua_string(""), "\"\"");
}

#[test]
fn basic_bundle_uses_lazy_loader() {
    let main = "local utils = require(\"utils\")\nprint(utils)\n";
    let modules = vec![
        module("src/utils.lua", "local M = {}\nreturn M\n", vec![]),
        module(
            "src/main.lua",
            main,
            vec![dep(main, "require(\"utils\")", 0, "utils", "src/utils.lua")],
        ),
    ];
    let output = emit(&graph(modules), LuaVersion::Lua54);
    assert!(output.contains("__luck_modules[\"utils\"]=function(...)"), "{output}");
    assert!(output.contains("local utils = __luck_require(\"utils\")"), "{output}");
    assert!(output.contains("-- module \"utils\": src/utils.lua"), "{output}");
    assert!(
        output.contains("__luck_paths[\"utils\"]=\"src/utils.lua\""),
        "5.4 chunks receive the file path: {output}"
    );
    assert!(output.contains("local __luck_entry=function(...)"), "{output}");
    assert!(output.contains("return __luck_entry(...)"), "{output}");
}

#[test]
fn many_modules_use_table_slots_not_locals() {
    // One `local` per module would break past Lua's
    // 200-locals-per-function limit at ~199 modules.
    let mut modules = Vec::new();
    let mut entry_source = String::new();
    for i in 0..500 {
        modules.push(module(&format!("src/mod_{i}.lua"), &format!("return {i}\n"), vec![]));
        entry_source.push_str(&format!("require(\"mod_{i}\")\n"));
    }
    let mut deps = Vec::new();
    for i in 0..500 {
        deps.push(dep(
            &entry_source,
            &format!("require(\"mod_{i}\")"),
            0,
            &format!("mod_{i}"),
            &format!("src/mod_{i}.lua"),
        ));
    }
    modules.push(module("src/main.lua", &entry_source, deps));
    let output = emit(&graph(modules), LuaVersion::Lua54);
    assert!(
        output.contains("__luck_modules[\"mod_499\"]=function(...)"),
        "all modules registered"
    );
    assert!(!output.contains("local __luck_src_mod"), "no per-module locals");
}

#[test]
fn single_module_emits_verbatim() {
    let modules = vec![module("src/main.lua", "print(\"hello\")\n", vec![])];
    let output = emit(&graph(modules), LuaVersion::Lua54);
    assert_eq!(output, "print(\"hello\")\n");
}

#[test]
fn entry_cycle_registers_entry_module() {
    // The entry function registers under the require string, so a
    // module requiring the entry leaves no raw require() in the output.
    let b = "local a = require(\"a\")\nreturn { a = a }\n";
    let a = "local b = require(\"b\")\nreturn { b = b }\n";
    let modules = vec![
        module("src/b.lua", b, vec![dep(b, "require(\"a\")", 0, "a", "src/a.lua")]),
        module("src/a.lua", a, vec![dep(a, "require(\"b\")", 0, "b", "src/b.lua")]),
    ];
    let output = emit(&graph(modules), LuaVersion::Lua54);
    assert!(output.contains("__luck_modules[\"a\"]=__luck_entry"), "{output}");
    assert!(
        !output.contains("require(\"a\")") || output.contains("__luck_require(\"a\")"),
        "no raw require may survive: {output}"
    );
    assert!(output.contains("__luck_require(\"a\")"), "{output}");
}

#[test]
fn two_require_strings_for_one_file_get_separate_slots() {
    // Real Lua caches by NAME: require("foo") and require("foo.init")
    // hitting the same file are two instances executed twice.
    let source = "local a = require(\"foo\")\nlocal b = require(\"foo.init\")\nprint(a, b)\n";
    let modules = vec![
        module("src/foo/init.lua", "return {}\n", vec![]),
        module(
            "src/main.lua",
            source,
            vec![
                dep(source, "require(\"foo\")", 0, "foo", "src/foo/init.lua"),
                dep(source, "require(\"foo.init\")", 0, "foo.init", "src/foo/init.lua"),
            ],
        ),
    ];
    let output = emit(&graph(modules), LuaVersion::Lua54);
    assert!(output.contains("__luck_modules[\"foo\"]=function(...)"), "{output}");
    assert!(
        output.contains("__luck_modules[\"foo.init\"]=__luck_modules[\"foo\"]"),
        "{output}"
    );
}

#[test]
fn generated_prefix_avoids_user_identifiers() {
    let source = "local __luck_require = 1\nlocal d = require(\"dep\")\nprint(__luck_require, d)\n";
    let modules = vec![
        module("src/dep.lua", "return 1\n", vec![]),
        module(
            "src/main.lua",
            source,
            vec![dep(source, "require(\"dep\")", 0, "dep", "src/dep.lua")],
        ),
    ];
    let output = emit(&graph(modules), LuaVersion::Lua54);
    assert!(output.contains("local function __luck1_require"), "loader must rename itself: {output}");
    assert!(output.contains("local d = __luck1_require(\"dep\")"), "{output}");
    assert!(output.contains("local __luck_require = 1"), "user identifier untouched: {output}");
}

#[test]
fn prefix_skips_every_candidate_a_source_holds() {
    let modules = vec![
        module("a.lua", "__luck_ x", vec![]),
        module("b.lua", "__luck1_ __luck2_", vec![]),
    ];
    assert_eq!(choose_prefix(&modules), "__luck3_");
    let clean = vec![module("c.lua", "print(1)", vec![])];
    assert_eq!(choose_prefix(&clean), "__luck_");
}

#[test]
fn multiline_require_preserves_line_count() {
    let source = "local d = require(\n\"dep\"\n)\nprint(d)\n";
    let modules = vec![
        module("src/dep.lua", "return 1\n", vec![]),
        module(
            "src/main.lua",
            source,
            vec![dep(source, "require(\n\"dep\"\n)", 0, "dep", "src/dep.lua")],
        ),
    ];
    let (output, line_map) = emit_with_line_map(&graph(modules), LuaVersion::Lua54);
    assert!(
        output.contains("local d = __luck_require(\"dep\"\n\n)"),
        "padding keeps following lines in place: {output}"
    );
    let entry = line_map
        .iter()
        .find(|e| e.path == "src/main.lua")
        .expect("entry line map entry");
    let output_lines: Vec<&str> = output.lines().collect();
    // Source line 4 is print(d); it must land exactly 3 lines below
    // the entry body start despite the rewritten multiline call.
    assert_eq!(output_lines[entry.bundle_start_line - 1 + 3], "print(d)");
}

fn dep_bundle(version: LuaVersion) -> String {
    let main = "local d = require(\"dep\")\nprint(d)\n";
    let modules = vec![
        module("src/dep.lua", "return 1\n", vec![]),
        module(
            "src/main.lua",
            main,
            vec![dep(main, "require(\"dep\")", 0, "dep", "src/dep.lua")],
        ),
    ];
    emit(&graph(modules), version)
}

#[test]
fn lua51_loader_uses_sentinel_and_no_paths() {
    let output = dep_bundle(LuaVersion::Lua51);
    assert!(output.contains("loop or previous error loading module"), "{output}");
    assert!(
        !output.contains("__luck_paths"),
        "5.1 chunks receive only the module name: {output}"
    );
}

#[test]
fn lua52_loader_retries_after_error_and_passes_path() {
    let output = dep_bundle(LuaVersion::Lua52);
    assert!(
        !output.contains("loop or previous error"),
        "5.2+ has no sentinel; failed loads retry: {output}"
    );
    assert!(
        output.contains("(name,__luck_paths[name])"),
        "5.2+ chunks receive (name, path): {output}"
    );
    assert!(!output.contains(":preload:"), "loaderdata second result is 5.4+ only: {output}");
}

#[test]
fn lua54_loader_returns_loaderdata() {
    let output = dep_bundle(LuaVersion::Lua54);
    assert!(output.contains(":preload:"), "{output}");
    assert!(output.contains("return value,loaderdata"), "{output}");
}

#[test]
fn luau_loader_checks_single_return_and_uses_numeric_slots() {
    let main = "local m = require(\"./dep\") :: any\nprint(m)\n";
    let modules = vec![
        module("src/dep.luau", "return {}\n", vec![]),
        module(
            "src/main.luau",
            main,
            vec![dep(main, "require(\"./dep\")", 0, "./dep", "src/dep.luau")],
        ),
    ];
    let output = emit(&graph(modules), LuaVersion::Luau);
    assert!(output.contains("local m = __luck_require(1) :: any"), "{output}");
    assert!(
        output.contains("select(\"#\",...)~=1"),
        "Luau modules must return exactly one value: {output}"
    );
    assert!(!output.contains("package.loaded"), "Luau has no package table: {output}");
}

#[test]
fn shadowed_require_call_survives_unrewritten() {
    let source = "local d = require(\"dep\")\nlocal function f()\n    local require = print\n    require(\"dep\")\nend\nf()\nprint(d)\n";
    let modules = vec![
        module("src/dep.lua", "return 1\n", vec![]),
        module(
            "src/main.lua",
            source,
            vec![dep(source, "require(\"dep\")", 0, "dep", "src/dep.lua")],
        ),
    ];
    let output = emit(&graph(modules), LuaVersion::Lua54);
    assert!(output.contains("local d = __luck_require(\"dep\")"), "{output}");
    assert!(output.contains("    require(\"dep\")"), "shadowed call keeps user semantics: {output}");
}

#[test]
fn luau_value_exports_are_lowered_inside_bundle_wrappers() {
    let dependency = "\
export type Public = integer
export local value = 129312i
export const LIMIT = 0xffffffffffffffffi
@native
export function get(): integer
    return value
end
";
    let at = |text: &str| dependency.find(text).expect("text occurs");
    let exports = vec![
        ExportDecl::Type { start: at("export type") },
        ExportDecl::Local { start: at("export local"), names: vec!["value".to_string()] },
        ExportDecl::Local { start: at("export const"), names: vec!["LIMIT".to_string()] },
        ExportDecl::Function {
            start: at("@native"),
            name: "get".to_string(),
            name_start: at("get()"),
            last_attribute_end: Some(at("@native") + "@native".len()),
        },
    ];
    let mut dep_module = module("src/dep.luau", dependency, vec![]);
    dep_module.exports = exports;
    let main = "local dep = require(\"./dep\")\nprint(dep.get())\n";
    let modules = vec![
        dep_module,
        module(
            "src/main.luau",
            main,
            vec![dep(main, "require(\"./dep\")", 0, "./dep", "src/dep.luau")],
        ),
    ];
    let output = emit(&graph(modules), LuaVersion::Luau);

    assert!(!output.contains("export "), "{output}");
    assert!(output.contains("local value = 129312i"), "{output}");
    assert!(output.contains("const LIMIT = 0xffffffffffffffffi"), "{output}");
    assert!(output.contains("@native\nlocal function get()"), "{output}");
    assert!(
        output.contains("return table.freeze({value=value,LIMIT=LIMIT,get=get})"),
        "{output}"
    );
}

#[test]
fn nested_and_field_access_requires_are_rewritten() {
    let source = "\
local field = require(\"dep\").value
local function lazy()
    return require(\"dep\")
end
if true then
    local inner = require(\"dep\")
    print(inner)
end
print(field, lazy())
";
    let call = "require(\"dep\")";
    let modules = vec![
        module("src/dep.lua", "return { value = 1 }\n", vec![]),
        module(
            "src/main.lua",
            source,
            vec![
                dep(source, call, 0, "dep", "src/dep.lua"),
                dep(source, call, 1, "dep", "src/dep.lua"),
                dep(source, call, 2, "dep", "src/dep.lua"),
            ],
        ),
    ];
    let output = emit(&graph(modules), LuaVersion::Lua54);
    assert!(output.contains("local field = __luck_require(\"dep\").value"), "{output}");
    assert!(output.contains("return __luck_require(\"dep\")"), "{output}");
    assert!(output.contains("local inner = __luck_require(\"dep\")"), "{output}");
    assert!(!output.contains("= require(\"dep\")"), "no raw require may survive: {output}");
}

#[test]
fn require_inside_string_literal_untouched() {
    let source = "local d = require(\"dep\")\nlocal msg = 'use require(\"dep\") to load'\nprint(d, msg)\n";
    let modules = vec![
        module("src/dep.lua", "return 1\n", vec![]),
        module(
            "src/main.lua",
            source,
            vec![dep(source, "require(\"dep\")", 0, "dep", "src/dep.lua")],
        ),
    ];
    let output = emit(&graph(modules), LuaVersion::Lua54);
    assert!(output.contains("local d = __luck_require(\"dep\")"), "{output}");
    assert!(output.contains("require(\"dep\") to load"), "string literal corrupted: {output}");
}

#[test]
fn escaped_require_string_is_rewritten_to_decoded_name() {
    // require("a\46b") is require("a.b"); both spellings share one cache
    // entry keyed by the decoded name.
    let source = "local x = require(\"a\\46b\")\nlocal y = require(\"a.b\")\nprint(x, y)\n";
    let modules = vec![
        module("src/a/b.lua", "return {}\n", vec![]),
        module(
            "src/main.lua",
            source,
            vec![
                dep(source, "require(\"a\\46b\")", 0, "a.b", "src/a/b.lua"),
                dep(source, "require(\"a.b\")", 0, "a.b", "src/a/b.lua"),
            ],
        ),
    ];
    let output = emit(&graph(modules), LuaVersion::Lua54);
    assert_eq!(output.matches("__luck_require(\"a.b\")").count(), 2, "{output}");
    assert!(output.contains("__luck_modules[\"a.b\"]=function(...)"), "{output}");
}

fn find_line_entry<'a>(line_map: &'a [LineMapEntry], path: &str) -> &'a LineMapEntry {
    line_map
        .iter()
        .find(|entry| entry.path == path)
        .unwrap_or_else(|| panic!("no line map entry for {path}"))
}

#[test]
fn line_map_maps_module_lines_to_original_source_lines() {
    let utils_source = "local M = {}\nfunction M.foo()\n    return 42\nend\nreturn M\n";
    let entry_source =
        "local utils = require(\"utils\")\nlocal helper = require(\"helper\")\nprint(utils, helper)\n";
    // Leading comments and a blank line make source-line offsets nontrivial.
    let helper_source =
        "-- helper module\n-- second comment line\n\nlocal helper = { ready = true }\nreturn helper\n";
    let modules = vec![
        module("src/utils.lua", utils_source, vec![]),
        module("src/helper.lua", helper_source, vec![]),
        module(
            "src/main.lua",
            entry_source,
            vec![
                dep(entry_source, "require(\"utils\")", 0, "utils", "src/utils.lua"),
                dep(entry_source, "require(\"helper\")", 0, "helper", "src/helper.lua"),
            ],
        ),
    ];
    let (output, line_map) = emit_with_line_map(&graph(modules), LuaVersion::Lua54);
    let output_lines: Vec<&str> = output.lines().collect();

    let utils = find_line_entry(&line_map, "src/utils.lua");
    assert_eq!(output_lines[utils.bundle_start_line - 1], "local M = {}");
    assert_eq!(output_lines[utils.bundle_start_line - 1 + 4], "return M");
    assert_eq!(
        utils.bundle_end_line - utils.bundle_start_line + 1,
        5,
        "utils body spans all 5 source lines"
    );
    assert!(output_lines[utils.bundle_start_line - 2].contains("=function(...)"), "{output}");
    assert!(output_lines[utils.bundle_start_line - 3].starts_with("-- module "), "{output}");

    let helper = find_line_entry(&line_map, "src/helper.lua");
    assert_eq!(output_lines[helper.bundle_start_line - 1], "-- helper module");
    assert_eq!(output_lines[helper.bundle_start_line - 1 + 2], "");
    assert_eq!(
        output_lines[helper.bundle_start_line - 1 + 3],
        "local helper = { ready = true }"
    );
    assert_eq!(helper.bundle_end_line - helper.bundle_start_line + 1, 5);

    let entry = find_line_entry(&line_map, "src/main.lua");
    assert!(
        output_lines[entry.bundle_start_line - 1].contains("__luck_require"),
        "entry require rewritten: {output}"
    );
    assert!(
        output_lines[entry.bundle_start_line - 2].contains("__luck_entry=function(...)"),
        "{output}"
    );
    assert_eq!(output_lines[entry.bundle_start_line - 1 + 2], "print(utils, helper)");
    assert_eq!(entry.bundle_end_line - entry.bundle_start_line + 1, 3);

    // Ranges never overlap and are ordered utils, helper, entry.
    assert_eq!(line_map.len(), 3);
    assert!(utils.bundle_end_line < helper.bundle_start_line);
    assert!(helper.bundle_end_line < entry.bundle_start_line);
}

#[test]
fn line_map_single_module_covers_whole_source() {
    let source = "print(\"a\")\nprint(\"b\")\nprint(\"c\")\n";
    let modules = vec![module("src/main.lua", source, vec![])];
    let (output, line_map) = emit_with_line_map(&graph(modules), LuaVersion::Lua54);
    assert_eq!(output, source);
    assert_eq!(line_map.len(), 1);
    assert_eq!(
        line_map[0],
        LineMapEntry {
            bundle_start_line: 1,
            bundle_end_line: 3,
            path: "src/main.lua".to_string(),
        }
    );
}

#[test]
fn line_map_single_module_without_final_newline_counts_last_line() {
    let modules = vec![module("src/main.lua", "a\nb", vec![])];
    let (_, line_map) = emit_with_line_map(&graph(modules), LuaVersion::Lua54);
    assert_eq!(line_map[0].bundle_end_line, 2);
    let empty = vec![module("src/main.lua", "", vec![])];
    let (_, line_map) = emit_with_line_map(&graph(empty), LuaVersion::Lua54);
    assert_eq!(line_map[0].bundle_end_line, 1);
}

#[test]
fn long_bracket_require_is_rewritten() {
    let main = "local d = require [[dep]]\nprint(d)\n";
    let modules = vec![
        module("src/dep.lua", "return 1\n", vec![]),
        module("src/main.lua", main, vec![dep(main, "require [[dep]]", 0, "dep", "src/dep.lua")]),
    ];
    let output = emit(&graph(modules), LuaVersion::Lua54);
    assert!(output.contains("local d = __luck_require(\"dep\")"), "{output}");
    assert!(!output.contains("require [[dep]]"), "{output}");
}

#[test]
fn luau_hot_comments_are_hoisted_above_the_loader() {
    let main = "--!strict\n\n-- plain comment\n  --!native\r\nlocal d = require(\"./dep\")\n--!late\n";
    let modules = vec![
        module("src/dep.luau", "return {}\n", vec![]),
        module(
            "src/main.luau",
            main,
            vec![dep(main, "require(\"./dep\")", 0, "./dep", "src/dep.luau")],
        ),
    ];
    let output = emit(&graph(modules), LuaVersion::Luau);
    assert!(output.starts_with("--!strict\n--!native\ndo\n"), "{output}");
}

#[test]
fn dynamic_require_callees_are_retargeted() {
    let main = "local name = 'x'\nlocal m = require(name)\n";
    let callee = main.find("require").unwrap();
    let mut entry = module("src/main.lua", main, vec![]);
    entry.dynamic_callees = vec![callee..callee + "require".len()];
    let other = module("src/other.lua", "return 1\n", vec![]);
    let mut g = graph(vec![other, entry]);
    // The other module is required by nobody, so Lua bundles leave it out.
    g.topo_order = vec![ModuleId(0), ModuleId(1)];
    let output = emit(&g, LuaVersion::Lua54);
    assert!(output.contains("local m = __luck_dynamic(name)"), "{output}");
    assert!(output.contains("local function __luck_dynamic(name)"), "{output}");
    assert!(!output.contains("-- module "), "{output}");
}

#[test]
fn transform_rewrites_requires_and_dynamic_callees_in_start_order() {
    let source = "local a = require(x)\nlocal b = require(\"b\")\n";
    let deps = vec![dep(source, "require(\"b\")", 0, "b", "b.lua")];
    let callee = source.find("require").unwrap();
    let body = transform_module_body(
        source,
        &deps,
        &vec!["\"b\"".to_string()],
        &vec![callee..callee + 7],
        "__p_",
        LuaVersion::Lua53,
        &vec![],
    );
    assert_eq!(body, "local a = __p_dynamic(x)\nlocal b = __p_require(\"b\")\n");
}

#[test]
fn transform_skips_spans_outside_the_source() {
    let source = "print(1)\n";
    let deps = vec![Dependency {
        require_string: "x".to_string(),
        resolved_path: "x.lua".to_string(),
        call_span: 5..50,
    }];
    let body = transform_module_body(
        source,
        &deps,
        &vec!["\"x\"".to_string()],
        &vec![],
        "__p_",
        LuaVersion::Lua54,
        &vec![],
    );
    assert_eq!(body, source);
}

#[test]
fn bundle_result_lists_sources_and_keeps_the_emitted_output() {
    let main = "local utils = require(\"utils\")\nprint(utils)\n";
    let modules = vec![
        module("src/utils.lua", "local M = {}\nreturn M\n", vec![]),
        module("src/main.lua", main, vec![dep(main, "require(\"utils\")", 0, "utils", "src/utils.lua")]),
    ];
    let (output, line_map) = emit_with_line_map(&graph(modules.clone()), LuaVersion::Lua54);
    let result = bundle_graph(graph(modules), LuaVersion::Lua54);
    assert_eq!(result.output, output);
    assert_eq!(result.line_map, line_map);
    assert_eq!(result.source_files, vec!["src/utils.lua".to_string(), "src/main.lua".to_string()]);
    assert!(result.warnings.is_empty());
}
