//! Module identity for the dependency graph.

use vstd::prelude::*;
use std::ops::Range;

verus! {

/// `Range::clone` copies the two bounds; nothing beyond the call being
/// admissible is claimed of it here.
pub assume_specification<Idx: Clone>[ <Range<Idx> as Clone>::clone ](range: &Range<Idx>) -> Range<Idx>;

/// Opaque identifier for a module in the dependency graph: its index in
/// the graph's module list.
#[derive(Debug, Clone, Copy, PartialEq, Eq, Hash, Structural)]
pub struct ModuleId(pub usize);

/// A resolved `require()` edge out of a module.
#[derive(Debug, Clone)]
pub struct Dependency {
    /// The literal require string as written in source (`require("foo")` -> `foo`).
    pub require_string: String,
    /// The normalized path the require resolved to; the graph's canonical module key.
    pub resolved_path: String,
    /// Byte range of the `require(...)` call expression in source, for
    /// bundler-side diagnostics (cycle reporting) and for splicing.
    pub call_span: Range<usize>,
}

/// A top-level Luau `export` declaration of a module, as the emitter needs
/// it: byte offsets into the module source and the exported value names.
#[derive(Debug, Clone)]
pub enum ExportDecl {
    /// `export type ...`, starting at `start`.
    Type { start: usize },
    /// `export local a, b = ...`, starting at `start`, binding `names`.
    Local { start: usize, names: Vec<String> },
    /// `export function name(...)`: the statement starts at `start` and the
    /// name at `name_start`; `last_attribute_end` is the end of the last
    /// attribute when the declaration carries any.
    Function { start: usize, name: String, name_start: usize, last_attribute_end: Option<usize> },
}

/// Source file metadata: path, content, and discovered dependencies.
#[derive(Debug, Clone)]
pub struct ModuleInfo {
    pub path: String,
    pub source: String,
    pub dependencies: Vec<Dependency>,
    /// Project-relative path: every path the bundle carries comes from here,
    /// so the build host's layout never leaks into shipped output.
    pub relative_path: String,
    /// Byte ranges of the `require` identifier in this module's
    /// `require(expr)` calls, which the emitter retargets at the loader's
    /// dynamic entry point. Always empty on Luau targets.
    pub dynamic_callees: Vec<Range<usize>>,
    /// The module's top-level `export` declarations, in source order.
    pub exports: Vec<ExportDecl>,
}

} // verus!
