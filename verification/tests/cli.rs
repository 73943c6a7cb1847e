use luck::cli::{fmt_exit_code, fmt_step, fmt_stdin_exit_code, FmtDocOutcome, FmtFileOutcome, FmtTally};
use luck::args::{
    parse_args, ArgErrorKind, BundleArgs, CheckArgs, Cli, Command, FmtArgs, GraphArgs, GraphFormat, LintArgs, LintFormat,
    LspArgs, MinifyArgs,
};
use luck::cli::{
    build_preamble, category_from_name, compact_diagnostic, Diagnostic, Severity, init_config_content, resolve_dynamic_require, DynamicRequire, category_label, is_line_too_long, is_relevant_change, line_len_at,
    lint_exit_code, resolve_format_range, resolved_profile, verbosity, Category, MinifyFlags, PassToggles, Verbosity,
    EXIT_FAILURE, EXIT_SUCCESS, MAX_RENDERABLE_LINE,
};

fn parse(words: &[&str]) -> Result<Cli, luck::args::ArgError> {
    let args: Vec<String> = words.iter().map(|w| w.to_string()).collect();
    parse_args(&args)
}

#[test]
fn bundle_is_top_level_command_with_target_flag() {
    let cli = parse(&["luck", "bundle", "entry.lua", "-t", "54"]).expect("bundle parses");
    match cli.command {
        Command::Bundle(BundleArgs { entry, target, .. }) => {
            assert_eq!(entry, "entry.lua");
            assert_eq!(target, Some("54".to_string()));
        },
        _ => panic!("expected Command::Bundle"),
    }
}

#[test]
fn check_is_top_level_command_with_paths_and_config() {
    let cli = parse(&["luck", "check", "src", "main.lua", "-c", "luck.json"]).expect("check parses");
    match cli.command {
        Command::Check(CheckArgs { paths, config }) => {
            assert_eq!(paths, vec!["src".to_string(), "main.lua".to_string()]);
            assert_eq!(config, Some("luck.json".to_string()));
        },
        _ => panic!("expected Command::Check"),
    }
}

#[test]
fn fmt_is_top_level_command_with_oxfmt_flags() {
    let cli = parse(&["luck", "fmt", "src", "main.lua", "--check", "-c", "luck.json"]).expect("fmt parses");
    match cli.command {
        Command::Fmt(FmtArgs { paths, check, list_different, write, config, .. }) => {
            assert_eq!(paths, vec!["src".to_string(), "main.lua".to_string()]);
            assert!(check);
            assert!(!list_different);
            assert!(!write);
            assert_eq!(config, Some("luck.json".to_string()));
        },
        _ => panic!("expected Command::Fmt"),
    }
}

#[test]
fn fmt_list_different_and_write_parse() {
    let listed = parse(&["luck", "fmt", "--list-different"]).expect("fmt --list-different parses");
    assert!(matches!(listed.command, Command::Fmt(FmtArgs { list_different: true, .. })));
    let written = parse(&["luck", "fmt", "--write"]).expect("fmt --write parses");
    assert!(matches!(written.command, Command::Fmt(FmtArgs { write: true, .. })));
    // --check and --write are mutually exclusive.
    assert!(parse(&["luck", "fmt", "--check", "--write"]).is_err());
}

#[test]
fn fmt_verify_flag_parses() {
    let fmt = parse(&["luck", "fmt", "--verify"]).expect("fmt --verify parses");
    assert!(matches!(fmt.command, Command::Fmt(FmtArgs { verify: true, .. })));
    // --verify formats whole documents, so it is mutually exclusive with
    // range formatting.
    assert!(parse(&["luck", "fmt", "--verify", "--range-start", "0"]).is_err());
    assert!(parse(&["luck", "fmt", "--verify", "--range-end", "4"]).is_err());
}

#[test]
fn fmt_stdin_filepath_parses() {
    let fmt = parse(&["luck", "fmt", "--stdin-filepath", "buf.lua"]).expect("fmt --stdin-filepath parses");
    assert!(matches!(
        fmt.command,
        Command::Fmt(FmtArgs { stdin_filepath: Some(ref path), .. }) if path == "buf.lua"
    ));
}

#[test]
fn fmt_stdin_filepath_parses_on_both_commands() {
    let fmt = parse(&["luck", "fmt", "--stdin-filepath", "buf.lua"]).expect("fmt --stdin-filepath parses");
    assert!(matches!(
        fmt.command,
        Command::Fmt(FmtArgs { stdin_filepath: Some(ref p), .. }) if p == "buf.lua"
    ));
    let lint = parse(&["luck", "lint", "--stdin-filepath", "buf.luau"]).expect("lint --stdin-filepath parses");
    assert!(matches!(
        lint.command,
        Command::Lint(LintArgs { stdin_filepath: Some(ref p), .. }) if p == "buf.luau"
    ));
}

#[test]
fn graph_accepts_target_and_format() {
    let cli = parse(&["luck", "graph", "src/main.lua", "-t", "54", "--format", "dot"]).expect("graph parses");
    match cli.command {
        Command::Graph(GraphArgs { entry, target, format, .. }) => {
            assert_eq!(entry, "src/main.lua");
            assert_eq!(target, Some("54".to_string()));
            assert!(matches!(format, GraphFormat::Dot));
        },
        _ => panic!("expected Command::Graph"),
    }
}

#[test]
fn lint_is_top_level_command_with_oxlint_flags() {
    let cli = parse(&[
        "luck",
        "lint",
        "src",
        "main.lua",
        "-D",
        "undefined_variable",
        "-A",
        "style",
        "-W",
        "shadowing",
        "--fix",
        "-c",
        "luck.json",
    ])
    .expect("lint parses");
    match cli.command {
        Command::Lint(LintArgs { paths, deny, allow, warn, fix, config, .. }) => {
            assert_eq!(paths, vec!["src".to_string(), "main.lua".to_string()]);
            assert_eq!(deny, vec!["undefined_variable".to_string()]);
            assert_eq!(allow, vec!["style".to_string()]);
            assert_eq!(warn, vec!["shadowing".to_string()]);
            assert!(fix);
            assert_eq!(config, Some("luck.json".to_string()));
        },
        _ => panic!("expected Command::Lint"),
    }
}

#[test]
fn lint_long_flag_aliases_parse() {
    let cli = parse(&[
        "luck",
        "lint",
        "--deny",
        "x",
        "--allow",
        "y",
        "--warn",
        "z",
        "--config",
        "c.json",
        "--max-warnings",
        "3",
        "--deny-warnings",
        "--silent",
        "--rules",
        "--print-config",
        "--format",
        "json",
    ])
    .expect("lint long flags parse");
    match cli.command {
        Command::Lint(LintArgs { max_warnings, deny_warnings, silent, rules, print_config, format, .. }) => {
            assert_eq!(max_warnings, Some(3));
            assert!(deny_warnings);
            assert!(silent);
            assert!(rules);
            assert!(print_config);
            assert!(matches!(format, LintFormat::Json));
        },
        _ => panic!("expected Command::Lint"),
    }
}

#[test]
fn lint_stdin_filepath_parses() {
    let lint = parse(&["luck", "lint", "--stdin-filepath", "buf.luau"]).expect("lint --stdin-filepath parses");
    assert!(matches!(
        lint.command,
        Command::Lint(LintArgs { stdin_filepath: Some(ref path), .. }) if path == "buf.luau"
    ));
}

#[test]
fn lsp_subcommand_parses() {
    let cli = parse(&["luck", "lsp"]).expect("lsp parses");
    assert!(matches!(cli.command, Command::Lsp(LspArgs { socket: None })));
    let with_socket = parse(&["luck", "lsp", "--socket", "9000"]).unwrap();
    assert!(matches!(with_socket.command, Command::Lsp(LspArgs { socket: Some(9000) })));
}

#[test]
fn minify_target_is_optional() {
    let cli = parse(&["luck", "minify", "x.luau"]).expect("minify parses without target");
    match cli.command {
        Command::Minify(MinifyArgs { input, target, .. }) => {
            assert_eq!(input, "x.luau");
            assert_eq!(target, None);
        },
        _ => panic!("expected Command::Minify"),
    }
}

#[test]
fn parse_errors_name_the_offending_argument() {
    let unknown = parse(&["luck", "frobnicate"]).unwrap_err();
    assert_eq!(unknown.kind, ArgErrorKind::UnknownSubcommand);
    assert_eq!(unknown.arg, "frobnicate");
    let missing = parse(&["luck"]).unwrap_err();
    assert_eq!(missing.kind, ArgErrorKind::MissingSubcommand);
    let flag = parse(&["luck", "lint", "--bogus"]).unwrap_err();
    assert_eq!(flag.kind, ArgErrorKind::UnknownArgument);
    let value = parse(&["luck", "lint", "--max-warnings", "many"]).unwrap_err();
    assert_eq!(value.kind, ArgErrorKind::InvalidValue);
    let port = parse(&["luck", "lsp", "--socket", "70000"]).unwrap_err();
    assert_eq!(port.kind, ArgErrorKind::InvalidValue);
    let no_value = parse(&["luck", "bundle", "entry.lua", "-t"]).unwrap_err();
    assert_eq!(no_value.kind, ArgErrorKind::MissingValue);
    let no_entry = parse(&["luck", "bundle"]).unwrap_err();
    assert_eq!(no_entry.kind, ArgErrorKind::MissingPositional);
    assert_eq!(parse(&["luck", "--help"]).unwrap_err().kind, ArgErrorKind::HelpRequested);
    assert_eq!(parse(&["luck", "--version"]).unwrap_err().kind, ArgErrorKind::VersionRequested);
}

#[test]
fn quiet_is_global_and_values_may_be_attached() {
    let cli = parse(&["luck", "--quiet", "bundle", "--target=54", "main.lua"]).expect("bundle parses");
    assert!(cli.quiet);
    assert!(matches!(
        cli.command,
        Command::Bundle(BundleArgs { ref entry, target: Some(ref t), .. }) if entry == "main.lua" && t == "54"
    ));
    assert!(parse(&["luck", "lint", "--quiet"]).expect("lint parses").quiet);
    let lint = parse(&["luck", "lint", "--", "--not-a-flag"]).expect("lint parses");
    assert!(!lint.quiet);
    assert!(matches!(
        lint.command,
        Command::Lint(LintArgs { ref paths, .. }) if paths == &vec!["--not-a-flag".to_string()]
    ));
}

#[test]
fn graph_format_defaults_to_json() {
    let cli = parse(&["luck", "graph", "main.lua"]).expect("graph parses");
    assert!(matches!(cli.command, Command::Graph(GraphArgs { format: GraphFormat::Json, .. })));
}

#[test]
fn bundle_minify_flags_last_one_wins() {
    let cli = parse(&["luck", "bundle", "main.lua", "--fold-constants", "--no-fold-constants"]).expect("parses");
    match cli.command {
        Command::Bundle(BundleArgs { minify_flags, .. }) => {
            assert!(minify_flags.no_fold_constants);
            assert!(!minify_flags.fold_constants);
        },
        _ => panic!("expected Command::Bundle"),
    }
    let cli = parse(&["luck", "minify", "x.lua", "--no-rename-globals", "--rename-globals"]).expect("parses");
    match cli.command {
        Command::Minify(MinifyArgs { minify_flags, .. }) => {
            assert!(minify_flags.rename_globals);
            assert!(!minify_flags.no_rename_globals);
        },
        _ => panic!("expected Command::Minify"),
    }
}

#[test]
fn category_name_classification() {
    assert_eq!(category_from_name("style"), Some(Category::Style));
    assert_eq!(category_from_name("perf"), Some(Category::Performance));
    assert_eq!(category_from_name("undefined_variable"), None);
}

#[test]
fn category_names_ignore_ascii_case_and_round_trip() {
    assert_eq!(category_from_name("STYLE"), Some(Category::Style));
    assert_eq!(category_from_name("Correctness"), Some(Category::Correctness));
    assert_eq!(category_from_name("suspicious"), Some(Category::Suspicious));
    assert_eq!(category_from_name("Performance"), Some(Category::Performance));
    for category in [Category::Correctness, Category::Suspicious, Category::Style, Category::Performance] {
        assert_eq!(category_from_name(category_label(category)), Some(category));
    }
}

#[test]
fn format_range_defaults_clamps_and_rejects_reversed_bounds() {
    assert_eq!(resolve_format_range(None, None, 10), Ok(None));
    assert_eq!(resolve_format_range(Some(2), None, 10), Ok(Some(2..10)));
    assert_eq!(resolve_format_range(None, Some(4), 10), Ok(Some(0..4)));
    assert_eq!(resolve_format_range(Some(3), Some(99), 10), Ok(Some(3..10)));
    assert_eq!(
        resolve_format_range(Some(8), Some(4), 10),
        Err("Error: invalid format range: start (8) is greater than end (4)".to_string())
    );
    assert_eq!(
        resolve_format_range(Some(12), None, 10),
        Err("Error: invalid format range: start (12) is greater than end (10)".to_string())
    );
}

#[test]
fn lint_exit_code_policy() {
    assert_eq!(lint_exit_code(false, None, 0, 0), EXIT_SUCCESS);
    assert_eq!(lint_exit_code(false, None, 0, 5), EXIT_SUCCESS);
    assert_eq!(lint_exit_code(false, None, 1, 0), EXIT_FAILURE);
    assert_eq!(lint_exit_code(true, None, 0, 1), EXIT_FAILURE);
    assert_eq!(lint_exit_code(true, None, 0, 0), EXIT_SUCCESS);
    assert_eq!(lint_exit_code(false, Some(3), 0, 3), EXIT_SUCCESS);
    assert_eq!(lint_exit_code(false, Some(3), 0, 4), EXIT_FAILURE);
}

#[test]
fn minify_flags_override_config_in_both_directions() {
    let config = PassToggles {
        remove_dead_code: true,
        simplify_statements: true,
        fold_constants: false,
        inline_locals: true,
        merge_locals: true,
        simplify_indexes: true,
        shorten_strings: true,
        shorten_numbers: true,
        simplify_parens: true,
        rename_locals: true,
        lift_locals: true,
        rename_globals: false,
    };
    let mut flags = MinifyFlags {
        no_remove_dead_code: false,
        remove_dead_code: false,
        no_simplify_statements: false,
        simplify_statements: false,
        no_fold_constants: false,
        fold_constants: false,
        no_inline_locals: false,
        inline_locals: false,
        no_merge_locals: false,
        merge_locals: false,
        no_simplify_indexes: false,
        simplify_indexes: false,
        no_shorten_strings: false,
        shorten_strings: false,
        no_shorten_numbers: false,
        shorten_numbers: false,
        no_simplify_parens: false,
        simplify_parens: false,
        no_rename_locals: false,
        rename_locals: false,
        no_lift_locals: false,
        lift_locals: false,
        no_rename_globals: false,
        rename_globals: false,
    };
    assert_eq!(flags.apply_to(config), config);
    flags.fold_constants = true;
    flags.no_remove_dead_code = true;
    flags.rename_globals = true;
    let applied = flags.apply_to(config);
    assert!(applied.fold_constants);
    assert!(!applied.remove_dead_code);
    assert!(applied.rename_globals);
    assert!(applied.inline_locals);
}

#[test]
fn quiet_selects_quiet_verbosity() {
    assert_eq!(verbosity(true), Verbosity::Quiet);
    assert_eq!(verbosity(false), Verbosity::Normal);
}

#[test]
fn profile_precedence() {
    assert_eq!(resolved_profile(Some("ci"), true, true), Some("ci"));
    assert_eq!(resolved_profile(None, true, true), Some("release"));
    assert_eq!(resolved_profile(None, false, true), Some("dev"));
    assert_eq!(resolved_profile(None, false, false), None);
}

#[test]
fn preamble_comments_each_line_then_the_banner() {
    assert_eq!(
        build_preamble(Some("Copyright me\nMIT"), true, false, "1.2.3"),
        "-- Copyright me\n-- MIT\n-- Bundled with luck v1.2.3 // https://github.com/esoware/luck"
    );
    assert_eq!(
        build_preamble(None, true, true, "0.1.0"),
        "-- Bundled & minified with luck v0.1.0 // https://github.com/esoware/luck"
    );
    assert_eq!(build_preamble(Some("a\r\nb\n"), false, false, "0.1.0"), "-- a\n-- b");
    assert_eq!(build_preamble(None, false, false, "0.1.0"), "");
}

#[test]
fn relevant_changes_are_sources_and_configs() {
    assert!(is_relevant_change(Some("main.lua")));
    assert!(is_relevant_change(Some("init.luau")));
    assert!(is_relevant_change(Some("luck.json")));
    assert!(is_relevant_change(Some(".luaurc")));
    assert!(is_relevant_change(Some("settings.json")));
    assert!(!is_relevant_change(Some("main.lua.swp")));
    assert!(!is_relevant_change(Some(".lua")));
    assert!(!is_relevant_change(Some("README")));
    assert!(!is_relevant_change(Some("..")));
    assert!(!is_relevant_change(None));
}

#[test]
fn long_line_uses_compact_rendering() {
    // A single 2 MB line is far too long for the pretty renderer.
    let huge = format!("local x = {}", "1+".repeat(1_000_000));
    let offset = huge.len() - 1;
    assert!(line_len_at(Some(huge.as_str()), offset) > MAX_RENDERABLE_LINE);
    assert!(is_line_too_long(Some(huge.as_str()), offset));

    let diag = Diagnostic {
        code: "E008".to_string(),
        severity: Severity::Error,
        message: "boom".to_string(),
        file_path: "big.lua".to_string(),
        span: offset..offset + 1,
    };
    let text = compact_diagnostic(&diag);
    assert!(text.contains("E008"));
    assert!(text.contains("byte"));
}

#[test]
fn compact_diagnostic_names_code_severity_place_and_offset() {
    let diag = Diagnostic {
        code: "W003".to_string(),
        severity: Severity::Warning,
        message: "circular dependency".to_string(),
        file_path: "src/a.lua".to_string(),
        span: 120..135,
    };
    assert_eq!(compact_diagnostic(&diag), "[W003] warning: circular dependency (src/a.lua: byte 120)\n");
}

#[test]
fn short_line_not_flagged() {
    assert!(!is_line_too_long(Some("local x = 1\n"), 6));
}

#[test]
fn line_length_is_measured_between_newlines() {
    let source = "ab\ncdef\n\nxyz";
    assert_eq!(line_len_at(Some(source), 0), 2);
    assert_eq!(line_len_at(Some(source), 2), 2);
    assert_eq!(line_len_at(Some(source), 3), 4);
    assert_eq!(line_len_at(Some(source), 8), 0);
    assert_eq!(line_len_at(Some(source), 9), 3);
    assert_eq!(line_len_at(Some(source), 100), 3);
    assert_eq!(line_len_at(None, 5), 0);
}

fn parsed_config(content: &str) -> serde_json::Value {
    serde_json::from_str(content).expect("generated luck.json should parse")
}

#[test]
fn init_config_default_sets_both_axes() {
    let content = init_config_content("Lua54", false);
    let config = parsed_config(&content);
    assert_eq!(config["lua"], "lua54");
    assert_eq!(config["luau"], "luau");
    assert!(content.contains("\"entry\": \"src/main.lua\""));
    assert!(content.contains("search_paths"));
}

#[test]
fn init_config_lua_dialect_sets_lua_axis_only() {
    let content = init_config_content("Lua53", false);
    let config = parsed_config(&content);
    assert_eq!(config["lua"], "lua53");
    assert_eq!(config["luau"], "luau");
    assert!(content.contains("\"entry\": \"src/main.lua\""));
}

#[test]
fn init_config_roblox_sets_luau_axis_and_luau_entry() {
    let content = init_config_content("Roblox", true);
    let config = parsed_config(&content);
    assert_eq!(config["lua"], "lua54");
    assert_eq!(config["luau"], "roblox");
    assert!(content.contains("\"entry\": \"src/main.luau\""));
    // Luau projects have no Lua-style search paths.
    assert!(!content.contains("search_paths"));
}

#[test]
fn init_config_lists_lua_search_paths_and_profiles() {
    let config = parsed_config(&init_config_content("Lua51", false));
    assert_eq!(config["search_paths"][0], "src/?.lua");
    assert_eq!(config["search_paths"][1], "src/?/init.lua");
    assert_eq!(config["output_dir"], "dist");
    assert_eq!(config["minify"], false);
    assert_eq!(config["profiles"]["release"]["minify"], true);
    assert_eq!(config["profiles"]["dev"]["minify"], false);
}

#[test]
fn resolve_dynamic_require_prefers_the_flag_over_the_config() {
    let configured = Some(DynamicRequire::Error);
    assert_eq!(resolve_dynamic_require(configured, None), DynamicRequire::Error);
    assert_eq!(resolve_dynamic_require(configured, Some(DynamicRequire::Allow)), DynamicRequire::Allow);
    // Warning and keeping the call is the default when nothing says otherwise.
    assert_eq!(resolve_dynamic_require(None, None), DynamicRequire::Warn);
}

#[test]
fn fmt_exit_codes_follow_outcomes() {
    let start = FmtTally { had_failure: false, any_changed: false };
    let (t, stop) = fmt_step(start, FmtFileOutcome::Changed);
    assert_eq!(stop, None);
    assert!(t.any_changed);
    assert_eq!(fmt_exit_code(t, true), 1);
    assert_eq!(fmt_exit_code(t, false), 0);
    let (t, _) = fmt_step(t, FmtFileOutcome::ParseError);
    assert_eq!(fmt_exit_code(t, false), 1);
    assert_eq!(fmt_step(start, FmtFileOutcome::RangeError).1, Some(2));
    assert_eq!(fmt_step(start, FmtFileOutcome::WriteError).1, Some(1));
    assert_eq!(fmt_step(start, FmtFileOutcome::Written), (start, None));
    assert_eq!(fmt_stdin_exit_code(FmtDocOutcome::Changed, true, false), 1);
    assert_eq!(fmt_stdin_exit_code(FmtDocOutcome::Changed, true, true), 0);
    assert_eq!(fmt_stdin_exit_code(FmtDocOutcome::Unchanged, true, false), 0);
    assert_eq!(fmt_stdin_exit_code(FmtDocOutcome::VerifyError, false, false), 1);
}
