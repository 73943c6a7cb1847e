use luck::corpus::{
    bundle_entry_source, bundle_module_requires, corpus_file_url, idiomatic, join_path, penlight_root, tarball_top_level,
    tarball_url, CORPUS_URL_BASE, MODULE_COUNT, PENLIGHT_SHA,
};

#[test]
fn corpus_urls_are_assembled_from_their_parts() {
    assert_eq!(corpus_file_url("a.lua"), format!("{CORPUS_URL_BASE}/a.lua"));
    assert_eq!(
        tarball_url("Roblox/roact", "abc"),
        "https://codeload.github.com/Roblox/roact/tar.gz/abc"
    );
    assert_eq!(tarball_top_level("roact", "abc"), "roact-abc");
}

#[test]
fn paths_join_with_a_single_separator() {
    assert_eq!(join_path("/cache", "x"), "/cache/x");
    assert_eq!(join_path("/cache/", "x"), "/cache/x");
    assert_eq!(join_path("", "x"), "x");
    assert_eq!(penlight_root("/c"), format!("/c/Penlight-{PENLIGHT_SHA}"));
}

#[test]
fn generated_modules_require_the_next_and_third_next() {
    assert_eq!(
        bundle_module_requires(0),
        "local dep1 = require(\"lib.mod1\")\nlocal dep3 = require(\"lib.mod3\")\n"
    );
    assert_eq!(
        bundle_module_requires(MODULE_COUNT - 2),
        format!("local dep{0} = require(\"lib.mod{0}\")\n", MODULE_COUNT - 1)
    );
    assert_eq!(bundle_module_requires(MODULE_COUNT - 1), "");
    assert_eq!(bundle_entry_source(), "local root = require(\"lib.mod0\")\nreturn root\n");
}

#[test]
fn idiomatic_fixtures_each_get_a_block() {
    assert_eq!(idiomatic(&vec!["a()", "b()"]), "do\na()\nend\n\ndo\nb()\nend\n");
    assert_eq!(idiomatic(&vec!["x"]), "do\nx\nend\n");
    assert_eq!(idiomatic(&vec![]), "");
}
