//! Assembly of the single-file bundle: the loader preamble, one
//! registration per module, the entry chunk, and the map from bundle lines
//! back to module sources.

use vstd::prelude::*;
use vstd::string::StringSliceAdditionalSpecFns;
use vstd::utf8::*;
use crate::emitter::{body_edits, export_edit, export_names, law_rewrite_keeps_source_lines, lemma_no_line_breaks, rewrite_admissible, rewritten_body, span_in};
use crate::graph::{module_paths, DependencyGraph, GraphWarning};
use crate::literal::{quoted, render_all, render_require_byte, require_body};
use crate::loader::loader;
use crate::module::{Dependency, ModuleId, ModuleInfo};
use crate::prefix::{bundle_prefix, is_chosen_prefix, prefix_candidate, prefix_index, sources_of, total_len};
use crate::splice::{edits_disjoint, keeps_line_breaks, lemma_encode_utf8_concat, newline_count, sort_by_start};
use crate::text::{chars_of, decimal, lemma_decimal_digits, lemma_next_newline, lemma_next_newline_at, line_at, next_newline, push_char_range, push_str};
use crate::version::LuaVersion;

verus! {

/// One contiguous run of bundle lines that came from a single module.
/// Line 1 of the module's source lands on `bundle_start_line`, so a
/// runtime traceback line `L` inside the range maps back to source line
/// `L - bundle_start_line + 1`. Require rewrites preserve the newline
/// count of the call they replace, so the correspondence is 1:1.
#[derive(Debug, Clone, PartialEq, Eq)]
pub struct LineMapEntry {
    /// 1-based first bundle line of the module body (inclusive).
    pub bundle_start_line: usize,
    /// 1-based last bundle line of the module body (inclusive).
    pub bundle_end_line: usize,
    pub path: String,
}

impl LineMapEntry {
    pub open spec fn model(self) -> (int, int, Seq<char>) {
        (self.bundle_start_line as int, self.bundle_end_line as int, self.path@)
    }
}

/// The models of `entries`, in order.
pub open spec fn line_map_model(entries: Seq<LineMapEntry>) -> Seq<(int, int, Seq<char>)> {
    entries.map_values(|e: LineMapEntry| e.model())
}

/// Number of line breaks (`\n`) in `s`.
pub open spec fn line_breaks(s: Seq<char>) -> nat
    decreases s.len(),
{
    if s.len() == 0 {
        0
    } else {
        line_breaks(s.drop_last()) + if s.last() == '\n' {
            1nat
        } else {
            0nat
        }
    }
}

pub proof fn lemma_line_breaks_concat(a: Seq<char>, b: Seq<char>)
    ensures
        line_breaks(a + b) == line_breaks(a) + line_breaks(b),
        line_breaks(a) <= a.len(),
    decreases a.len() + b.len(),
{
    if b.len() == 0 {
        assert(a + b =~= a);
        if a.len() > 0 {
            lemma_line_breaks_concat(a.drop_last(), b);
        }
    } else {
        assert((a + b).drop_last() =~= a + b.drop_last());
        lemma_line_breaks_concat(a, b.drop_last());
    }
}

/// UTF-8 takes at least one byte per character.
pub proof fn lemma_encode_utf8_len(s: Seq<char>)
    ensures
        encode_utf8(s).len() >= s.len(),
    decreases s.len(),
{
    if s.len() > 0 {
        lemma_encode_utf8_len(s.drop_first());
    }
}

/// A piece of the bundle: its text, and the module whose body it is.
pub type Piece = (Seq<char>, Option<nat>);

/// The bundle text made of `pieces`.
pub open spec fn joined(pieces: Seq<Piece>) -> Seq<char>
    decreases pieces.len(),
{
    if pieces.len() == 0 {
        Seq::empty()
    } else {
        joined(pieces.drop_last()) + pieces.last().0
    }
}

/// The line map of `pieces`: for each module body, the first line it
/// starts on and the last line it ends on, with the module's path.
pub open spec fn line_entries(pieces: Seq<Piece>, paths: Seq<Seq<char>>) -> Seq<(int, int, Seq<char>)>
    decreases pieces.len(),
{
    if pieces.len() == 0 {
        Seq::empty()
    } else {
        let rest = line_entries(pieces.drop_last(), paths);
        match pieces.last().1 {
            Some(m) => rest.push(
                (
                    line_breaks(joined(pieces.drop_last())) + 1int,
                    line_breaks(joined(pieces)) as int,
                    paths[m as int],
                ),
            ),
            None => rest,
        }
    }
}

/// Number of line breaks in `t`.
fn count_line_breaks(t: &str) -> (n: usize)
    ensures
        n == line_breaks(t@),
{
    let len = t.as_bytes().len();
    proof {
        lemma_encode_utf8_len(t@);
    }
    let mut n: usize = 0;
    for c in it: t.chars()
        invariant
            it.seq() == t@,
            t@.len() <= len,
            n == line_breaks(it.seq().take(it.index() as int)),
            n <= it.index(),
    {
        proof {
            let k = it.index() as int;
            assert(it.seq().take(k + 1).drop_last() =~= it.seq().take(k));
        }
        if c == '\n' {
            n += 1;
        }
    }
    proof {
        assert(t@.take(t@.len() as int) =~= t@);
    }
    n
}

/// The bundle as it is written: its text, the line count so far, the line
/// map so far, and the pieces written, against which the first three are
/// stated.
struct BundleWriter {
    output: String,
    lines: usize,
    line_map: Vec<LineMapEntry>,
    pieces: Ghost<Seq<Piece>>,
}

impl BundleWriter {
    spec fn inv(&self, paths: Seq<Seq<char>>) -> bool {
        &&& self.output@ == joined(self.pieces@)
        &&& self.lines == line_breaks(self.output@)
        &&& line_map_model(self.line_map@) == line_entries(self.pieces@, paths)
    }

    fn new(Ghost(paths): Ghost<Seq<Seq<char>>>) -> (w: Self)
        ensures
            w.inv(paths),
            w.pieces@ == Seq::<Piece>::empty(),
    {
        let w = BundleWriter { output: String::new(), lines: 0, line_map: Vec::new(), pieces: Ghost(Seq::empty()) };
        proof {
            assert(line_map_model(w.line_map@) =~= Seq::<(int, int, Seq<char>)>::empty());
        }
        w
    }

    /// Appends `t`, updating the line count.
    fn append(&mut self, t: &str)
        requires
            old(self).lines == line_breaks(old(self).output@),
        ensures
            final(self).output@ == old(self).output@ + t@,
            final(self).lines == line_breaks(final(self).output@),
            final(self).line_map == old(self).line_map,
            final(self).pieces == old(self).pieces,
    {
        let c = count_line_breaks(t);
        push_str(&mut self.output, t);
        let total = self.output.as_str().as_bytes().len();
        proof {
            lemma_encode_utf8_len(self.output@);
            lemma_line_breaks_concat(old(self).output@, t@);
            lemma_line_breaks_concat(self.output@, Seq::empty());
        }
        self.lines = self.lines + c;
    }

    /// Writes a text piece.
    fn push_text(&mut self, t: &str, Ghost(paths): Ghost<Seq<Seq<char>>>)
        requires
            old(self).inv(paths),
        ensures
            final(self).inv(paths),
            final(self).pieces@ == old(self).pieces@.push((t@, None::<nat>)),
    {
        self.append(t);
        proof {
            let pieces = self.pieces@.push((t@, None::<nat>));
            assert(pieces.drop_last() =~= self.pieces@);
            self.pieces = Ghost(pieces);
        }
    }

    /// Writes the body of module `m`, whose path is `path`, then the `end`
    /// closing its function, and records the lines the body covers.
    fn push_body(&mut self, body: &str, m: usize, path: &String, Ghost(paths): Ghost<Seq<Seq<char>>>)
        requires
            old(self).inv(paths),
            0 <= m < paths.len(),
            paths[m as int] == path@,
        ensures
            final(self).inv(paths),
            final(self).pieces@ == old(self).pieces@.push((body@, Some(m as nat))).push(("end\n"@, None::<nat>)),
    {
        let start_lines = self.lines;
        let ghost before = self.output@;
        self.append(body);
        let end_lines = self.lines;
        let ghost after_body = self.output@;
        self.append("end\n");
        proof {
            reveal_strlit("end\n");
            lemma_line_breaks_concat(before, body@);
            lemma_line_breaks_concat(after_body, "end\n"@);
            lemma_line_breaks_concat(self.output@, Seq::empty());
            lemma_encode_utf8_len(self.output@);
        }
        let total = self.output.as_str().as_bytes().len();
        let entry = LineMapEntry { bundle_start_line: start_lines + 1, bundle_end_line: end_lines, path: path.clone() };
        let ghost old_map = self.line_map@;
        self.line_map.push(entry);
        proof {
            let p1 = self.pieces@.push((body@, Some(m as nat)));
            let p2 = p1.push(("end\n"@, None::<nat>));
            assert(p1.drop_last() =~= self.pieces@);
            assert(p2.drop_last() =~= p1);
            assert(joined(p1) == after_body);
            assert(joined(p2) == self.output@);
            assert(line_entries(p2, paths) == line_entries(p1, paths));
            assert(line_entries(p1, paths) == line_entries(self.pieces@, paths).push(entry.model()));
            assert(line_map_model(self.line_map@) =~= line_map_model(old_map).push(entry.model()));
            self.pieces = Ghost(p2);
        }
    }
}

// ----- what the bundle says -----

/// `s` quoted as a Lua string literal, the form module names take in the
/// loader's tables.
pub open spec fn lua_quote(s: Seq<char>) -> Seq<char> {
    quoted(require_body(encode_utf8(s)))
}

/// A piece of plain text.
pub open spec fn text(t: Seq<char>) -> Piece {
    (t, None)
}

/// Non-entry modules among the first `p` of the load order `topo`.
pub open spec fn nonentry_before(topo: Seq<ModuleId>, entry: ModuleId, p: int) -> nat
    decreases p,
{
    if p <= 0 {
        0
    } else {
        nonentry_before(topo, entry, p - 1) + if topo[p - 1] != entry {
            1nat
        } else {
            0nat
        }
    }
}

/// Where module `m` stands in the load order.
pub open spec fn topo_position(g: DependencyGraph, m: int) -> int {
    choose|p: int| 0 <= p < g.topo_order@.len() && g.topo_order@[p].0 == m
}

/// The module whose path is `path`.
pub open spec fn module_at(modules: Seq<ModuleInfo>, path: Seq<char>) -> int {
    choose|m: int| 0 <= m < modules.len() && modules[m].path@ == path
}

/// Some module requires the entry module.
pub open spec fn entry_required(g: DependencyGraph) -> bool {
    let modules = g.modules@;
    exists|m: int, j: int|
        0 <= m < modules.len() && 0 <= j < modules[m].dependencies@.len()
            && (#[trigger] modules[m].dependencies@[j]).resolved_path@ == modules[g.entry_id.0 as int].path@
}

/// Luau caches per resolved file, one numeric slot per module: the `k`-th
/// non-entry module of the load order has slot `k`, and the entry the
/// slot after the last of them.
pub open spec fn luau_slot(g: DependencyGraph, m: int) -> nat {
    let topo = g.topo_order@;
    if m == g.entry_id.0 {
        nonentry_before(topo, g.entry_id, topo.len() as int) + 1
    } else {
        nonentry_before(topo, g.entry_id, topo_position(g, m)) + 1
    }
}

/// The requires of `deps`, as (require string, resolved path).
pub open spec fn dep_pairs(deps: Seq<Dependency>) -> Seq<(Seq<char>, Seq<char>)> {
    deps.map_values(|d: Dependency| (d.require_string@, d.resolved_path@))
}

/// Every require of the first `p` modules of the load order, in order.
pub open spec fn requires_in_order(g: DependencyGraph, p: int) -> Seq<(Seq<char>, Seq<char>)>
    decreases p,
{
    if p <= 0 {
        Seq::empty()
    } else {
        requires_in_order(g, p - 1) + dep_pairs(g.modules@[g.topo_order@[p - 1].0 as int].dependencies@)
    }
}

/// The module names of `slots`.
pub open spec fn names_of(slots: Seq<(Seq<char>, Seq<char>)>) -> Seq<Seq<char>> {
    slots.map_values(|s: (Seq<char>, Seq<char>)| s.0)
}

/// The first require of each distinct module name in `reqs`.
pub open spec fn first_requires(reqs: Seq<(Seq<char>, Seq<char>)>) -> Seq<(Seq<char>, Seq<char>)>
    decreases reqs.len(),
{
    if reqs.len() == 0 {
        Seq::empty()
    } else {
        let rest = first_requires(reqs.drop_last());
        if names_of(rest).contains(reqs.last().0) {
            rest
        } else {
            rest.push(reqs.last())
        }
    }
}

/// Lua caches per module NAME: one slot per distinct require string, in
/// first-discovery order, each with the path it resolves to.
pub open spec fn lua_slots(g: DependencyGraph) -> Seq<(Seq<char>, Seq<char>)> {
    first_requires(requires_in_order(g, g.topo_order@.len() as int))
}

/// The module names among `slots` that load the file at `path`.
pub open spec fn names_for(slots: Seq<(Seq<char>, Seq<char>)>, path: Seq<char>) -> Seq<Seq<char>>
    decreases slots.len(),
{
    if slots.len() == 0 {
        Seq::empty()
    } else {
        let rest = names_for(slots.drop_last(), path);
        if slots.last().1 == path {
            rest.push(slots.last().0)
        } else {
            rest
        }
    }
}

/// The loader-call argument replacing require `d`: the module's slot on
/// Luau, the quoted module name on Lua.
pub open spec fn call_arg(g: DependencyGraph, version: LuaVersion, d: Dependency) -> Seq<char> {
    if version.spec_is_luau() {
        decimal(luau_slot(g, module_at(g.modules@, d.resolved_path@)))
    } else {
        lua_quote(d.require_string@)
    }
}

/// The loader-call arguments for the requires of module `m`.
pub open spec fn call_args_of(g: DependencyGraph, version: LuaVersion, m: int) -> Seq<Seq<char>> {
    g.modules@[m].dependencies@.map_values(|d: Dependency| call_arg(g, version, d))
}

/// The rewritten body of module `m`, ending in a newline unless empty.
pub open spec fn body_text(g: DependencyGraph, version: LuaVersion, prefix: Seq<char>, m: int) -> Seq<char> {
    let module = g.modules@[m];
    let bytes = rewritten_body(
        encode_utf8(module.source@),
        module.dependencies@,
        call_args_of(g, version, m),
        module.dynamic_callees@,
        prefix,
        version,
        module.exports@,
    );
    if bytes.len() > 0 && bytes.last() != 10 {
        decode_utf8(bytes).push('\n')
    } else {
        decode_utf8(bytes)
    }
}

/// Module `m`'s body, then the `end` closing its function.
pub open spec fn body_pieces(g: DependencyGraph, version: LuaVersion, prefix: Seq<char>, m: int) -> Seq<Piece> {
    seq![(body_text(g, version, prefix, m), Some(m as nat)), text("end\n"@)]
}

// ----- Luau hot comments -----

/// Unicode `White_Space`, the characters `char::is_whitespace` accepts.
pub open spec fn is_white_space(c: char) -> bool {
    ||| '\t' <= c <= '\r'
    ||| c == ' '
    ||| c == '\u{85}'
    ||| c == '\u{A0}'
    ||| c == '\u{1680}'
    ||| '\u{2000}' <= c <= '\u{200A}'
    ||| c == '\u{2028}'
    ||| c == '\u{2029}'
    ||| c == '\u{202F}'
    ||| c == '\u{205F}'
    ||| c == '\u{3000}'
}

/// `s` without its leading white space.
pub open spec fn trim_start(s: Seq<char>) -> Seq<char>
    decreases s.len(),
{
    if s.len() > 0 && is_white_space(s[0]) {
        trim_start(s.drop_first())
    } else {
        s
    }
}

/// Luau hot comments at the top of `s`, reading from position `i`: the
/// leading lines whose text, less leading white space, starts with `--!`,
/// trimmed; blank lines and other comments are passed over, and the first
/// line holding anything else ends them.
pub open spec fn hot_comments_from(s: Seq<char>, i: int) -> Seq<Seq<char>>
    decreases s.len() + 1 - i,
{
    if i < 0 || i >= s.len() {
        Seq::empty()
    } else {
        proof {
            lemma_next_newline(s, i);
        }
        let e = next_newline(s, i);
        let t = trim_start(line_at(s, i));
        if t.len() == 0 {
            hot_comments_from(s, e + 1)
        } else if t.len() >= 2 && t[0] == '-' && t[1] == '-' {
            (if t.len() >= 3 && t[2] == '!' {
                seq![t]
            } else {
                Seq::empty()
            }) + hot_comments_from(s, e + 1)
        } else {
            Seq::empty()
        }
    }
}

/// The hoisted hot comments, one line each.
pub open spec fn hot_comment_pieces(comments: Seq<Seq<char>>) -> Seq<Piece>
    decreases comments.len(),
{
    if comments.len() == 0 {
        Seq::empty()
    } else {
        hot_comment_pieces(comments.drop_last()).push(text(comments.last() + "\n"@))
    }
}

// ----- the bundle -----

/// Some module makes a dynamic `require(expr)` call.
pub open spec fn has_dynamic_require(modules: Seq<ModuleInfo>) -> bool {
    exists|m: int| 0 <= m < modules.len() && (#[trigger] modules[m]).dynamic_callees@.len() > 0
}

/// What precedes the module registrations: on Luau the entry module's
/// hot comments, which only take effect before any code; then the loader.
pub open spec fn preamble(g: DependencyGraph, version: LuaVersion, prefix: Seq<char>) -> Seq<Piece> {
    let entry = g.modules@[g.entry_id.0 as int];
    (if version.spec_is_luau() {
        hot_comment_pieces(hot_comments_from(entry.source@, 0))
    } else {
        Seq::empty()
    }) + seq![text("do\n"@), text(loader(prefix, version, has_dynamic_require(g.modules@)))]
}

/// The Luau registration of the module at load-order position `p`.
pub open spec fn luau_module_pieces(g: DependencyGraph, version: LuaVersion, prefix: Seq<char>, p: int) -> Seq<Piece> {
    let m = g.topo_order@[p].0 as int;
    if g.topo_order@[p] == g.entry_id {
        Seq::empty()
    } else {
        let slot = decimal(nonentry_before(g.topo_order@, g.entry_id, p) + 1);
        let module = g.modules@[m];
        seq![
            text("-- module #"@ + slot + ": "@ + module.relative_path@ + "\n"@),
            text(prefix + "modules["@ + slot + "]=function(...)\n"@),
        ] + body_pieces(g, version, prefix, m)
    }
}

/// The Luau registrations of the first `p` modules of the load order.
pub open spec fn luau_registrations(g: DependencyGraph, version: LuaVersion, prefix: Seq<char>, p: int) -> Seq<Piece>
    decreases p,
{
    if p <= 0 {
        Seq::empty()
    } else {
        luau_registrations(g, version, prefix, p - 1) + luau_module_pieces(g, version, prefix, p - 1)
    }
}

/// The Luau entry chunk, registered under its own slot when required.
pub open spec fn luau_entry_pieces(g: DependencyGraph, version: LuaVersion, prefix: Seq<char>) -> Seq<Piece> {
    let e = g.entry_id.0 as int;
    seq![text("local "@ + prefix + "entry=function(...)\n"@)] + body_pieces(g, version, prefix, e) + if entry_required(g) {
        seq![text(prefix + "modules["@ + decimal(luau_slot(g, e)) + "]="@ + prefix + "entry\n"@)]
    } else {
        Seq::empty()
    }
}

/// Registrations of `names[1..k]` as aliases of the function under `first`.
pub open spec fn alias_pieces(prefix: Seq<char>, names: Seq<Seq<char>>, first: Seq<char>, k: int) -> Seq<Piece>
    decreases k,
{
    if k <= 1 {
        Seq::empty()
    } else {
        alias_pieces(prefix, names, first, k - 1).push(
            text(prefix + "modules["@ + lua_quote(names[k - 1]) + "]="@ + prefix + "modules["@ + first + "]\n"@),
        )
    }
}

/// Registrations of `names[0..k]` as names of the entry chunk.
pub open spec fn entry_alias_pieces(prefix: Seq<char>, names: Seq<Seq<char>>, k: int) -> Seq<Piece>
    decreases k,
{
    if k <= 0 {
        Seq::empty()
    } else {
        entry_alias_pieces(prefix, names, k - 1).push(
            text(prefix + "modules["@ + lua_quote(names[k - 1]) + "]="@ + prefix + "entry\n"@),
        )
    }
}

/// The file path each of `names[0..k]` hands its chunk (Lua 5.2 onward).
pub open spec fn path_pieces(prefix: Seq<char>, names: Seq<Seq<char>>, relative_path: Seq<char>, k: int) -> Seq<Piece>
    decreases k,
{
    if k <= 0 {
        Seq::empty()
    } else {
        path_pieces(prefix, names, relative_path, k - 1).push(
            text(prefix + "paths["@ + lua_quote(names[k - 1]) + "]="@ + lua_quote(relative_path) + "\n"@),
        )
    }
}

/// The path registrations of `names`, on versions that pass chunks a path.
pub open spec fn registered_paths(prefix: Seq<char>, version: LuaVersion, names: Seq<Seq<char>>, relative_path: Seq<char>) -> Seq<Piece> {
    if version.spec_has_require_filepath_arg() {
        path_pieces(prefix, names, relative_path, names.len() as int)
    } else {
        Seq::empty()
    }
}

/// The Lua registration of the module at load-order position `p`: nothing
/// when no require names it.
pub open spec fn lua_module_pieces(g: DependencyGraph, version: LuaVersion, prefix: Seq<char>, p: int) -> Seq<Piece> {
    let m = g.topo_order@[p].0 as int;
    let module = g.modules@[m];
    let names = names_for(lua_slots(g), module.path@);
    if g.topo_order@[p] == g.entry_id || names.len() == 0 {
        Seq::empty()
    } else {
        let first = lua_quote(names[0]);
        seq![
            text("-- module "@ + first + ": "@ + module.relative_path@ + "\n"@),
            text(prefix + "modules["@ + first + "]=function(...)\n"@),
        ] + body_pieces(g, version, prefix, m) + alias_pieces(prefix, names, first, names.len() as int)
            + registered_paths(prefix, version, names, module.relative_path@)
    }
}

/// The Lua registrations of the first `p` modules of the load order.
pub open spec fn lua_registrations(g: DependencyGraph, version: LuaVersion, prefix: Seq<char>, p: int) -> Seq<Piece>
    decreases p,
{
    if p <= 0 {
        Seq::empty()
    } else {
        lua_registrations(g, version, prefix, p - 1) + lua_module_pieces(g, version, prefix, p - 1)
    }
}

/// The Lua entry chunk, registered under every name that requires it.
pub open spec fn lua_entry_pieces(g: DependencyGraph, version: LuaVersion, prefix: Seq<char>) -> Seq<Piece> {
    let e = g.entry_id.0 as int;
    let entry = g.modules@[e];
    let names = names_for(lua_slots(g), entry.path@);
    seq![text("local "@ + prefix + "entry=function(...)\n"@)] + body_pieces(g, version, prefix, e)
        + entry_alias_pieces(prefix, names, names.len() as int) + registered_paths(
        prefix,
        version,
        names,
        entry.relative_path@,
    )
}

/// The pieces of the multi-module bundle of `g` with identifier prefix
/// `prefix`: preamble, registrations in load order, the entry chunk, and
/// the call of the entry with the chunk's arguments.
pub open spec fn bundle_pieces(g: DependencyGraph, version: LuaVersion, prefix: Seq<char>) -> Seq<Piece> {
    let n = g.topo_order@.len() as int;
    preamble(g, version, prefix) + (if version.spec_is_luau() {
        luau_registrations(g, version, prefix, n) + luau_entry_pieces(g, version, prefix)
    } else {
        lua_registrations(g, version, prefix, n) + lua_entry_pieces(g, version, prefix)
    }) + seq![text("return "@ + prefix + "entry(...)\n"@), text("end\n"@)]
}

/// `g` is a lone entry module with no requires: its bundle is its source.
pub open spec fn is_single_module(g: DependencyGraph) -> bool {
    g.modules@.len() == 1 && g.modules@[g.entry_id.0 as int].dependencies@.len() == 0
}

/// How many lines `str::lines` yields for `s`: one per line break, plus a
/// final line without one.
pub open spec fn line_count(s: Seq<char>) -> nat {
    line_breaks(s) + if s.len() > 0 && s.last() != '\n' {
        1nat
    } else {
        0nat
    }
}

/// What bundling `g` requires: a well-formed graph whose rewrites can be
/// applied, with all sources together shorter than `usize::MAX` characters.
pub open spec fn bundle_ready(g: DependencyGraph, version: LuaVersion) -> bool {
    &&& g.well_formed()
    &&& total_len(sources_of(g.modules@)) < usize::MAX
    &&& forall|m: int|
        0 <= m < g.modules@.len() ==> rewrite_admissible(
            encode_utf8((#[trigger] g.modules@[m]).source@),
            g.modules@[m].dependencies@,
            g.modules@[m].dynamic_callees@,
            version,
            g.modules@[m].exports@,
        )
}

// ----- writing the bundle -----

/// Whether `c` is white space in Unicode's sense.
fn is_white_space_char(c: char) -> (b: bool)
    ensures
        b == is_white_space(c),
{
    ('\t' <= c && c <= '\r') || c == ' ' || c == '\u{85}' || c == '\u{A0}' || c == '\u{1680}' || ('\u{2000}' <= c
        && c <= '\u{200A}') || c == '\u{2028}' || c == '\u{2029}' || c == '\u{202F}' || c == '\u{205F}' || c
        == '\u{3000}'
}

proof fn lemma_trim_start(s: Seq<char>, a: int, k: int, b: int)
    requires
        0 <= a <= k <= b <= s.len(),
        forall|q: int| a <= q < k ==> is_white_space(s[q]),
        k == b || !is_white_space(s[k]),
    ensures
        trim_start(s.subrange(a, b)) == s.subrange(k, b),
    decreases k - a,
{
    if a < k {
        assert(s.subrange(a, b).drop_first() =~= s.subrange(a + 1, b));
        lemma_trim_start(s, a + 1, k, b);
    } else {
        if k < b {
            assert(s.subrange(a, b)[0] == s[k]);
        }
    }
}

/// Writes the hot comments of the entry module `source`, one per line.
fn hoist_hot_comments(w: &mut BundleWriter, source: &str, Ghost(paths): Ghost<Seq<Seq<char>>>)
    requires
        old(w).inv(paths),
    ensures
        final(w).inv(paths),
        final(w).pieces@ == old(w).pieces@ + hot_comment_pieces(hot_comments_from(source@, 0)),
{
    let chars = chars_of(source);
    let n = chars.len();
    let ghost s = source@;
    let ghost base = w.pieces@;
    let ghost mut done: Seq<Seq<char>> = Seq::empty();
    let mut i: usize = 0;
    let mut stop = false;
    proof {
        assert(base + hot_comment_pieces(done) =~= base);
        assert(done + hot_comments_from(s, 0) =~= hot_comments_from(s, 0));
    }
    while i < n && !stop
        invariant
            chars@ == s,
            n == s.len(),
            i <= n,
            w.inv(paths),
            w.pieces@ == base + hot_comment_pieces(done),
            hot_comments_from(s, 0) == done + hot_comments_from(s, i as int),
            stop ==> hot_comments_from(s, i as int) == Seq::<Seq<char>>::empty(),
        decreases n - i, if stop { 0int } else { 1int },
    {
        let mut e: usize = i;
        while e < n && chars[e] != '\n'
            invariant
                chars@ == s,
                n == s.len(),
                i <= e <= n,
                forall|k: int| i <= k < e ==> s[k] != '\n',
            decreases n - e,
        {
            e += 1;
        }
        let mut le: usize = e;
        if e < n && e > i && chars[e - 1] == '\r' {
            le = e - 1;
        }
        let mut k: usize = i;
        while k < le && is_white_space_char(chars[k])
            invariant
                chars@ == s,
                n == s.len(),
                i <= k <= le <= n,
                forall|q: int| i <= q < k ==> is_white_space(s[q]),
            decreases le - k,
        {
            k += 1;
        }
        proof {
            lemma_next_newline_at(s, i as int, e as int);
            assert(line_at(s, i as int) =~= s.subrange(i as int, le as int));
            lemma_trim_start(s, i as int, k as int, le as int);
        }
        let ghost t = s.subrange(k as int, le as int);
        let ghost before = done;
        if k == le {
            proof {
                assert(t.len() == 0);
            }
        } else if le - k >= 2 && chars[k] == '-' && chars[k + 1] == '-' {
            if le - k >= 3 && chars[k + 2] == '!' {
                let mut piece = String::new();
                push_char_range(&mut piece, &chars, k, le);
                push_str(&mut piece, "\n");
                w.push_text(piece.as_str(), Ghost(paths));
                proof {
                    done = done.push(t);
                    assert(done.drop_last() =~= before);
                    assert(hot_comment_pieces(done) == hot_comment_pieces(before).push(text(t + "\n"@)));
                    assert(w.pieces@ =~= base + hot_comment_pieces(done));
                    assert(hot_comments_from(s, i as int) == seq![t] + hot_comments_from(s, e + 1));
                }
            } else {
                proof {
                    assert(hot_comments_from(s, i as int) =~= Seq::<Seq<char>>::empty() + hot_comments_from(s, e + 1));
                }
            }
        } else {
            stop = true;
        }
        if !stop {
            proof {
                assert(hot_comments_from(s, 0) =~= done + hot_comments_from(s, e + 1));
            }
            if e == n {
                i = n;
                proof {
                    assert(hot_comments_from(s, e + 1) == Seq::<Seq<char>>::empty());
                }
            } else {
                i = e + 1;
            }
        }
    }
    proof {
        assert(hot_comments_from(s, i as int) == Seq::<Seq<char>>::empty());
        assert(done + hot_comments_from(s, i as int) =~= done);
    }
}

/// The index of the module whose path is `path`.
fn module_index(g: &DependencyGraph, path: &String) -> (m: usize)
    requires
        g.well_formed(),
        crate::graph::is_module_path(g.modules@, path@),
    ensures
        m < g.modules@.len(),
        g.modules@[m as int].path@ == path@,
        m == module_at(g.modules@, path@),
{
    let mut m: usize = 0;
    while m < g.modules.len()
        invariant
            g.well_formed(),
            m <= g.modules@.len(),
            forall|k: int| 0 <= k < m ==> g.modules@[k].path@ != path@,
            crate::graph::is_module_path(g.modules@, path@),
        decreases g.modules@.len() - m,
    {
        if g.modules[m].path == *path {
            proof {
                let c = module_at(g.modules@, path@);
                if c != m {
                    if c < m {
                        assert(g.modules@[c].path@ != g.modules@[m as int].path@);
                    } else {
                        assert(g.modules@[m as int].path@ != g.modules@[c].path@);
                    }
                }
            }
            return m;
        }
        m += 1;
    }
    proof {
        let c = choose|c: int| 0 <= c < g.modules@.len() && (#[trigger] g.modules@[c]).path@ == path@;
        assert(g.modules@[c].path@ != path@);
    }
    0
}

/// Whether some module requires the entry module.
fn entry_is_required(g: &DependencyGraph) -> (b: bool)
    requires
        g.well_formed(),
    ensures
        b == entry_required(*g),
{
    let entry_path = &g.modules[g.entry_id.0].path;
    let mut m: usize = 0;
    while m < g.modules.len()
        invariant
            g.well_formed(),
            *entry_path == g.modules@[g.entry_id.0 as int].path,
            m <= g.modules@.len(),
            forall|a: int, j: int|
                0 <= a < m && 0 <= j < g.modules@[a].dependencies@.len() ==> (
                #[trigger] g.modules@[a].dependencies@[j]).resolved_path@ != entry_path@,
        decreases g.modules@.len() - m,
    {
        let deps = &g.modules[m].dependencies;
        let mut j: usize = 0;
        while j < deps.len()
            invariant
                *deps == g.modules@[m as int].dependencies,
                *entry_path == g.modules@[g.entry_id.0 as int].path,
                m < g.modules@.len(),
                j <= deps@.len(),
                forall|k: int| 0 <= k < j ==> (#[trigger] deps@[k]).resolved_path@ != entry_path@,
            decreases deps@.len() - j,
        {
            if deps[j].resolved_path == *entry_path {
                proof {
                    assert(g.modules@[m as int].dependencies@[j as int].resolved_path@ == entry_path@);
                }
                return true;
            }
            j += 1;
        }
        proof {
            assert forall|a: int, k: int|
                0 <= a < m + 1 && 0 <= k < g.modules@[a].dependencies@.len() implies (
                #[trigger] g.modules@[a].dependencies@[k]).resolved_path@ != entry_path@ by {
                if a == m {
                    assert(deps@[k] == g.modules@[a].dependencies@[k]);
                }
            }
        }
        m += 1;
    }
    false
}

/// Whether some module makes a dynamic `require(expr)` call.
fn any_dynamic_require(modules: &Vec<ModuleInfo>) -> (b: bool)
    ensures
        b == has_dynamic_require(modules@),
{
    let mut m: usize = 0;
    while m < modules.len()
        invariant
            m <= modules@.len(),
            forall|k: int| 0 <= k < m ==> (#[trigger] modules@[k]).dynamic_callees@.len() == 0,
        decreases modules@.len() - m,
    {
        if modules[m].dynamic_callees.len() > 0 {
            return true;
        }
        m += 1;
    }
    false
}

proof fn lemma_nonentry_before_le(topo: Seq<ModuleId>, entry: ModuleId, p: int)
    requires
        0 <= p <= topo.len(),
    ensures
        nonentry_before(topo, entry, p) <= p,
        forall|q: int| 0 <= q < p && topo[q] == entry ==> nonentry_before(topo, entry, p) < p,
    decreases p,
{
    if p > 0 {
        lemma_nonentry_before_le(topo, entry, p - 1);
    }
}

/// Position `p` is where module `topo[p]` stands in the load order.
proof fn lemma_topo_position(g: DependencyGraph, p: int)
    requires
        g.well_formed(),
        0 <= p < g.topo_order@.len(),
    ensures
        topo_position(g, g.topo_order@[p].0 as int) == p,
{
    let m = g.topo_order@[p].0 as int;
    let c = topo_position(g, m);
    assert(0 <= c < g.topo_order@.len() && g.topo_order@[c].0 == m);
    if c < p {
        assert(g.topo_order@[c] != g.topo_order@[p]);
    } else if p < c {
        assert(g.topo_order@[p] != g.topo_order@[c]);
    }
}

/// The Luau slot of each module, by module index; the entry's is set only
/// when the entry is required.
#[verifier::spinoff_prover]
fn luau_slot_table(g: &DependencyGraph, required: bool) -> (table: Vec<usize>)
    requires
        g.well_formed(),
        required == entry_required(*g),
    ensures
        table@.len() == g.modules@.len(),
        forall|m: int|
            0 <= m < g.modules@.len() && (m != g.entry_id.0 || entry_required(*g)) ==> #[trigger] table@[m]
                == luau_slot(*g, m),
{
    let n = g.modules.len();
    let mut table: Vec<usize> = Vec::new();
    while table.len() < n
        invariant
            table@.len() <= n,
            n == g.modules@.len(),
        decreases n - table@.len(),
    {
        table.push(0);
    }
    let ghost topo = g.topo_order@;
    let entry = g.entry_id;
    let mut slot: usize = 0;
    let mut p: usize = 0;
    while p < g.topo_order.len()
        invariant
            topo == g.topo_order@,
            forall|q: int| 0 <= q < topo.len() ==> (#[trigger] topo[q]).0 < n,
            forall|a: int, b: int| 0 <= a < b < topo.len() ==> (#[trigger] topo[a]) != (#[trigger] topo[b]),
            entry == g.entry_id,
            n == g.modules@.len(),
            table@.len() == n,
            p <= topo.len(),
            slot == nonentry_before(topo, entry, p as int),
            forall|q: int| 0 <= q < p && topo[q] != entry ==> table@[(#[trigger] topo[q]).0 as int]
                == nonentry_before(topo, entry, q) + 1,
        decreases topo.len() - p,
    {
        let id = g.topo_order[p];
        proof {
            lemma_nonentry_before_le(topo, entry, p as int);
        }
        if id != entry {
            slot = slot + 1;
            table.set(id.0, slot);
            proof {
                assert forall|q: int| 0 <= q < p + 1 && topo[q] != entry implies table@[(#[trigger] topo[q]).0 as int]
                    == nonentry_before(topo, entry, q) + 1 by {
                    if q < p {
                        assert(topo[q] != topo[p as int]);
                    }
                }
            }
        }
        p += 1;
    }
    proof {
        assert(crate::graph::listed(topo, entry.0 as int));
        let pe = choose|pe: int| 0 <= pe < topo.len() && (#[trigger] topo[pe]).0 == entry.0 as int;
        assert(topo[pe] == entry);
        lemma_nonentry_before_le(topo, entry, topo.len() as int);
        assert forall|m: int| 0 <= m < n && m != entry.0 implies #[trigger] table@[m] == luau_slot(*g, m) by {
            assert(crate::graph::listed(topo, m));
            let pm = choose|pm: int| 0 <= pm < topo.len() && (#[trigger] topo[pm]).0 == m;
            lemma_topo_position(*g, pm);
            assert(topo[pm] != entry);
        }
    }
    if required {
        slot = slot + 1;
        table.set(entry.0, slot);
    }
    table
}

/// The requires that the slots `slots` (module index, require index)
/// point at.
spec fn slot_model(g: DependencyGraph, slots: Seq<(usize, usize)>) -> Seq<(Seq<char>, Seq<char>)> {
    slots.map_values(
        |s: (usize, usize)|
            (
                g.modules@[s.0 as int].dependencies@[s.1 as int].require_string@,
                g.modules@[s.0 as int].dependencies@[s.1 as int].resolved_path@,
            ),
    )
}

spec fn slots_valid(g: DependencyGraph, slots: Seq<(usize, usize)>) -> bool {
    forall|k: int|
        0 <= k < slots.len() ==> (#[trigger] slots[k]).0 < g.modules@.len() && slots[k].1
            < g.modules@[slots[k].0 as int].dependencies@.len()
}

/// Whether one of `slots` is for the module name `name`.
fn slot_named(g: &DependencyGraph, slots: &Vec<(usize, usize)>, name: &String) -> (b: bool)
    requires
        slots_valid(*g, slots@),
    ensures
        b == names_of(slot_model(*g, slots@)).contains(name@),
{
    let ghost names = names_of(slot_model(*g, slots@));
    let mut k: usize = 0;
    while k < slots.len()
        invariant
            slots_valid(*g, slots@),
            names == names_of(slot_model(*g, slots@)),
            names.len() == slots@.len(),
            k <= slots@.len(),
            forall|q: int| 0 <= q < k ==> names[q] != name@,
        decreases slots@.len() - k,
    {
        let (a, b) = slots[k];
        proof {
            assert(slots_valid(*g, slots@) ==> slots@[k as int].0 < g.modules@.len());
        }
        if g.modules[a].dependencies[b].require_string == *name {
            proof {
                assert(names[k as int] == name@);
            }
            return true;
        }
        k += 1;
    }
    false
}

/// Adds a slot for each require of module `m` whose name has none yet.
fn add_module_slots(g: &DependencyGraph, slots: &mut Vec<(usize, usize)>, m: usize, Ghost(before): Ghost<Seq<(Seq<char>, Seq<char>)>>)
    requires
        m < g.modules@.len(),
        slots_valid(*g, old(slots)@),
        slot_model(*g, old(slots)@) == first_requires(before),
    ensures
        slots_valid(*g, final(slots)@),
        slot_model(*g, final(slots)@) == first_requires(before + dep_pairs(g.modules@[m as int].dependencies@)),
{
    let deps = &g.modules[m].dependencies;
    let mut j: usize = 0;
    proof {
        assert(before + dep_pairs(deps@).take(0) =~= before);
    }
    while j < deps.len()
        invariant
            m < g.modules@.len(),
            *deps == g.modules@[m as int].dependencies,
            j <= deps@.len(),
            slots_valid(*g, slots@),
            slot_model(*g, slots@) == first_requires(before + dep_pairs(deps@).take(j as int)),
        decreases deps@.len() - j,
    {
        let seen = slot_named(g, slots, &deps[j].require_string);
        let ghost reqs = before + dep_pairs(deps@).take(j as int);
        let ghost next = before + dep_pairs(deps@).take(j + 1);
        proof {
            assert(next.drop_last() =~= reqs);
            assert(next.last() == (deps@[j as int].require_string@, deps@[j as int].resolved_path@));
        }
        if !seen {
            let ghost old_slots = slots@;
            slots.push((m, j));
            proof {
                assert(slot_model(*g, slots@) =~= slot_model(*g, old_slots).push(next.last()));
            }
        }
        j += 1;
    }
    proof {
        assert(dep_pairs(deps@).take(deps@.len() as int) =~= dep_pairs(deps@));
    }
}

/// The Lua slots of `g`: for each distinct module name, in first-discovery
/// order along the load order, the module and require that first named it.
fn lua_slot_table(g: &DependencyGraph) -> (slots: Vec<(usize, usize)>)
    requires
        g.well_formed(),
    ensures
        slots_valid(*g, slots@),
        slot_model(*g, slots@) == lua_slots(*g),
{
    let mut slots: Vec<(usize, usize)> = Vec::new();
    let mut p: usize = 0;
    proof {
        assert(slot_model(*g, slots@) =~= first_requires(requires_in_order(*g, 0)));
    }
    while p < g.topo_order.len()
        invariant
            g.well_formed(),
            p <= g.topo_order@.len(),
            slots_valid(*g, slots@),
            slot_model(*g, slots@) == first_requires(requires_in_order(*g, p as int)),
        decreases g.topo_order@.len() - p,
    {
        let m = g.topo_order[p].0;
        add_module_slots(g, &mut slots, m, Ghost(requires_in_order(*g, p as int)));
        p += 1;
    }
    slots
}

/// The module names loading the file at `path`, in slot order.
fn names_for_path(g: &DependencyGraph, slots: &Vec<(usize, usize)>, path: &String) -> (names: Vec<String>)
    requires
        slots_valid(*g, slots@),
    ensures
        names@.map_values(|n: String| n@) == names_for(slot_model(*g, slots@), path@),
{
    let ghost model = slot_model(*g, slots@);
    let mut names: Vec<String> = Vec::new();
    let mut k: usize = 0;
    proof {
        assert(names@.map_values(|n: String| n@) =~= names_for(model.take(0), path@));
    }
    while k < slots.len()
        invariant
            slots_valid(*g, slots@),
            model == slot_model(*g, slots@),
            model.len() == slots@.len(),
            k <= slots@.len(),
            names@.map_values(|n: String| n@) == names_for(model.take(k as int), path@),
        decreases slots@.len() - k,
    {
        let (a, b) = slots[k];
        proof {
            assert(model.take(k + 1).drop_last() =~= model.take(k as int));
        }
        let dep = &g.modules[a].dependencies[b];
        if dep.resolved_path == *path {
            let ghost old_names = names@;
            names.push(dep.require_string.clone());
            proof {
                assert(names@.map_values(|n: String| n@) =~= old_names.map_values(|n: String| n@).push(
                    dep.require_string@,
                ));
            }
        }
        k += 1;
    }
    proof {
        assert(model.take(slots@.len() as int) =~= model);
    }
    names
}

/// `table` holds the Luau slot of every module that can be required.
spec fn luau_table_ok(g: DependencyGraph, table: Seq<usize>) -> bool {
    &&& table.len() == g.modules@.len()
    &&& forall|m: int|
        0 <= m < g.modules@.len() && (m != g.entry_id.0 || entry_required(g)) ==> #[trigger] table[m] == luau_slot(
            g,
            m,
        )
}

/// The loader-call arguments for the requires of module `m`.
fn call_args_for(g: &DependencyGraph, version: LuaVersion, m: usize, table: &Vec<usize>) -> (args: Vec<String>)
    requires
        g.well_formed(),
        m < g.modules@.len(),
        version.spec_is_luau() ==> luau_table_ok(*g, table@),
    ensures
        args@.len() == g.modules@[m as int].dependencies@.len(),
        crate::emitter::arg_texts(args@) == call_args_of(*g, version, m as int),
{
    let deps = &g.modules[m].dependencies;
    let mut args: Vec<String> = Vec::new();
    let mut j: usize = 0;
    while j < deps.len()
        invariant
            g.well_formed(),
            m < g.modules@.len(),
            *deps == g.modules@[m as int].dependencies,
            version.spec_is_luau() ==> luau_table_ok(*g, table@),
            j <= deps@.len(),
            args@.len() == j,
            forall|k: int| 0 <= k < j ==> (#[trigger] args@[k])@ == call_arg(*g, version, deps@[k]),
        decreases deps@.len() - j,
    {
        let dep = &deps[j];
        proof {
            assert(dep == g.modules@[m as int].dependencies@[j as int]);
        }
        if version.is_luau() {
            let t = module_index(g, &dep.resolved_path);
            proof {
                if t == g.entry_id.0 {
                    assert(g.modules@[m as int].dependencies@[j as int].resolved_path@ == g.modules@[g.entry_id.0 as int].path@);
                    assert(entry_required(*g));
                }
            }
            let mut a = String::new();
            crate::text::push_decimal(&mut a, table[t]);
            proof {
                assert(a@ =~= decimal(table@[t as int] as nat));
            }
            args.push(a);
        } else {
            let a = crate::literal::quote_lua_string(dep.require_string.as_str());
            args.push(a);
        }
        j += 1;
    }
    proof {
        assert(crate::emitter::arg_texts(args@) =~= call_args_of(*g, version, m as int));
    }
    args
}

/// The rewritten body of module `m`, ending in a newline unless empty.
fn module_body(g: &DependencyGraph, version: LuaVersion, prefix: &String, m: usize, table: &Vec<usize>) -> (body: String)
    requires
        g.well_formed(),
        m < g.modules@.len(),
        version.spec_is_luau() ==> luau_table_ok(*g, table@),
        rewrite_admissible(
            encode_utf8(g.modules@[m as int].source@),
            g.modules@[m as int].dependencies@,
            g.modules@[m as int].dynamic_callees@,
            version,
            g.modules@[m as int].exports@,
        ),
    ensures
        body@ == body_text(*g, version, prefix@, m as int),
{
    let module = &g.modules[m];
    let args = call_args_for(g, version, m, table);
    let mut body = crate::emitter::transform_module_body(
        module.source.as_str(),
        &module.dependencies,
        &args,
        &module.dynamic_callees,
        prefix.as_str(),
        version,
        &module.exports,
    );
    let bytes = body.as_str().as_bytes();
    let n = bytes.len();
    let needs_newline = n > 0 && bytes[n - 1] != 10u8;
    proof {
        encode_utf8_decode_utf8(body@);
    }
    if needs_newline {
        crate::text::push_char(&mut body, '\n');
    }
    body
}

/// Registers the non-entry modules under their Luau slots, in load order.
fn write_luau_registrations(
    w: &mut BundleWriter,
    g: &DependencyGraph,
    version: LuaVersion,
    prefix: &String,
    table: &Vec<usize>,
    Ghost(paths): Ghost<Seq<Seq<char>>>,
)
    requires
        old(w).inv(paths),
        paths == module_paths(g.modules@),
        version.spec_is_luau(),
        luau_table_ok(*g, table@),
        bundle_ready(*g, version),
    ensures
        final(w).inv(paths),
        final(w).pieces@ == old(w).pieces@ + luau_registrations(*g, version, prefix@, g.topo_order@.len() as int),
{
    let ghost base = w.pieces@;
    let mut p: usize = 0;
    proof {
        assert(base + luau_registrations(*g, version, prefix@, 0) =~= base);
    }
    while p < g.topo_order.len()
        invariant
            w.inv(paths),
            paths == module_paths(g.modules@),
            version.spec_is_luau(),
            luau_table_ok(*g, table@),
            bundle_ready(*g, version),
            p <= g.topo_order@.len(),
            w.pieces@ == base + luau_registrations(*g, version, prefix@, p as int),
        decreases g.topo_order@.len() - p,
    {
        let id = g.topo_order[p];
        let ghost before = w.pieces@;
        if id != g.entry_id {
            let m = id.0;
            let module = &g.modules[m];
            proof {
                lemma_topo_position(*g, p as int);
            }
            let slot = table[m];
            let mut header = String::new();
            push_str(&mut header, "-- module #");
            crate::text::push_decimal(&mut header, slot);
            push_str(&mut header, ": ");
            push_str(&mut header, module.relative_path.as_str());
            push_str(&mut header, "\n");
            let mut opening = String::new();
            push_str(&mut opening, prefix.as_str());
            push_str(&mut opening, "modules[");
            crate::text::push_decimal(&mut opening, slot);
            push_str(&mut opening, "]=function(...)\n");
            let body = module_body(g, version, prefix, m, table);
            w.push_text(header.as_str(), Ghost(paths));
            w.push_text(opening.as_str(), Ghost(paths));
            w.push_body(body.as_str(), m, &module.path, Ghost(paths));
            proof {
                let slot_text = decimal(nonentry_before(g.topo_order@, g.entry_id, p as int) + 1);
                assert(header@ =~= "-- module #"@ + slot_text + ": "@ + module.relative_path@ + "\n"@);
                assert(opening@ =~= prefix@ + "modules["@ + slot_text + "]=function(...)\n"@);
                assert(w.pieces@ =~= before + luau_module_pieces(*g, version, prefix@, p as int));
            }
        } else {
            proof {
                assert(before + luau_module_pieces(*g, version, prefix@, p as int) =~= before);
            }
        }
        proof {
            assert(w.pieces@ =~= base + luau_registrations(*g, version, prefix@, p + 1));
        }
        p += 1;
    }
}

/// The texts of `names`.
spec fn name_texts(names: Seq<String>) -> Seq<Seq<char>> {
    names.map_values(|n: String| n@)
}

/// Registers `names[1..]` as aliases of the function under `first`.
fn write_aliases(
    w: &mut BundleWriter,
    prefix: &String,
    names: &Vec<String>,
    first: &String,
    Ghost(paths): Ghost<Seq<Seq<char>>>,
)
    requires
        old(w).inv(paths),
    ensures
        final(w).inv(paths),
        final(w).pieces@ == old(w).pieces@ + alias_pieces(prefix@, name_texts(names@), first@, names@.len() as int),
{
    let ghost base = w.pieces@;
    let ghost nm = name_texts(names@);
    let mut k: usize = 1;
    proof {
        assert(base + alias_pieces(prefix@, nm, first@, 1) =~= base);
    }
    while k < names.len()
        invariant
            w.inv(paths),
            nm == name_texts(names@),
            1 <= k,
            k <= names@.len() || k == 1,
            w.pieces@ == base + alias_pieces(prefix@, nm, first@, k as int),
        decreases names@.len() - k,
    {
        let quoted_name = crate::literal::quote_lua_string(names[k].as_str());
        let mut line = String::new();
        push_str(&mut line, prefix.as_str());
        push_str(&mut line, "modules[");
        push_str(&mut line, quoted_name.as_str());
        push_str(&mut line, "]=");
        push_str(&mut line, prefix.as_str());
        push_str(&mut line, "modules[");
        push_str(&mut line, first.as_str());
        push_str(&mut line, "]\n");
        w.push_text(line.as_str(), Ghost(paths));
        proof {
            assert(nm[k as int] == names@[k as int]@);
            assert(line@ =~= prefix@ + "modules["@ + lua_quote(nm[k as int]) + "]="@ + prefix@ + "modules["@ + first@ + "]\n"@);
            assert(w.pieces@ =~= base + alias_pieces(prefix@, nm, first@, k + 1));
        }
        k += 1;
    }
    proof {
        assert(base == old(w).pieces@);
        if names@.len() == 0 {
            assert(alias_pieces(prefix@, nm, first@, 0) =~= alias_pieces(prefix@, nm, first@, 1));
            assert(k == 1);
            assert(w.pieces@ == base + alias_pieces(prefix@, nm, first@, 0));
        } else {
            assert(k == names@.len());
            assert(w.pieces@ == base + alias_pieces(prefix@, nm, first@, names@.len() as int));
        }
    }
}

/// Registers the entry chunk under each of `names`.
fn write_entry_aliases(w: &mut BundleWriter, prefix: &String, names: &Vec<String>, Ghost(paths): Ghost<Seq<Seq<char>>>)
    requires
        old(w).inv(paths),
    ensures
        final(w).inv(paths),
        final(w).pieces@ == old(w).pieces@ + entry_alias_pieces(prefix@, name_texts(names@), names@.len() as int),
{
    let ghost base = w.pieces@;
    let ghost nm = name_texts(names@);
    let mut k: usize = 0;
    proof {
        assert(base + entry_alias_pieces(prefix@, nm, 0) =~= base);
    }
    while k < names.len()
        invariant
            w.inv(paths),
            nm == name_texts(names@),
            k <= names@.len(),
            w.pieces@ == base + entry_alias_pieces(prefix@, nm, k as int),
        decreases names@.len() - k,
    {
        let quoted_name = crate::literal::quote_lua_string(names[k].as_str());
        let mut line = String::new();
        push_str(&mut line, prefix.as_str());
        push_str(&mut line, "modules[");
        push_str(&mut line, quoted_name.as_str());
        push_str(&mut line, "]=");
        push_str(&mut line, prefix.as_str());
        push_str(&mut line, "entry\n");
        w.push_text(line.as_str(), Ghost(paths));
        proof {
            assert(nm[k as int] == names@[k as int]@);
            assert(line@ =~= prefix@ + "modules["@ + lua_quote(nm[k as int]) + "]="@ + prefix@ + "entry\n"@);
            assert(w.pieces@ =~= base + entry_alias_pieces(prefix@, nm, k + 1));
        }
        k += 1;
    }
}

/// Registers the file path that each of `names` hands its chunk, on
/// versions that pass one.
fn write_paths(
    w: &mut BundleWriter,
    prefix: &String,
    version: LuaVersion,
    names: &Vec<String>,
    relative_path: &String,
    Ghost(paths): Ghost<Seq<Seq<char>>>,
)
    requires
        old(w).inv(paths),
    ensures
        final(w).inv(paths),
        final(w).pieces@ == old(w).pieces@ + registered_paths(prefix@, version, name_texts(names@), relative_path@),
{
    let ghost base = w.pieces@;
    let ghost nm = name_texts(names@);
    if !version.has_require_filepath_arg() {
        proof {
            assert(base + registered_paths(prefix@, version, nm, relative_path@) =~= base);
        }
        return;
    }
    let quoted_path = crate::literal::quote_lua_string(relative_path.as_str());
    let mut k: usize = 0;
    proof {
        assert(base + path_pieces(prefix@, nm, relative_path@, 0) =~= base);
    }
    while k < names.len()
        invariant
            w.inv(paths),
            nm == name_texts(names@),
            quoted_path@ == lua_quote(relative_path@),
            k <= names@.len(),
            w.pieces@ == base + path_pieces(prefix@, nm, relative_path@, k as int),
        decreases names@.len() - k,
    {
        let quoted_name = crate::literal::quote_lua_string(names[k].as_str());
        let mut line = String::new();
        push_str(&mut line, prefix.as_str());
        push_str(&mut line, "paths[");
        push_str(&mut line, quoted_name.as_str());
        push_str(&mut line, "]=");
        push_str(&mut line, quoted_path.as_str());
        push_str(&mut line, "\n");
        w.push_text(line.as_str(), Ghost(paths));
        proof {
            assert(nm[k as int] == names@[k as int]@);
            assert(line@ =~= prefix@ + "paths["@ + lua_quote(nm[k as int]) + "]="@ + lua_quote(relative_path@) + "\n"@);
            assert(w.pieces@ =~= base + path_pieces(prefix@, nm, relative_path@, k + 1));
        }
        k += 1;
    }
}

/// The Lua registration of the module at load-order position `p`.
#[verifier::spinoff_prover]
fn write_lua_module(
    w: &mut BundleWriter,
    g: &DependencyGraph,
    version: LuaVersion,
    prefix: &String,
    slots: &Vec<(usize, usize)>,
    p: usize,
    Ghost(paths): Ghost<Seq<Seq<char>>>,
)
    requires
        old(w).inv(paths),
        paths == module_paths(g.modules@),
        !version.spec_is_luau(),
        slots_valid(*g, slots@),
        slot_model(*g, slots@) == lua_slots(*g),
        bundle_ready(*g, version),
        p < g.topo_order@.len(),
    ensures
        final(w).inv(paths),
        final(w).pieces@ == old(w).pieces@ + lua_module_pieces(*g, version, prefix@, p as int),
{
    let no_table: Vec<usize> = Vec::new();
    let id = g.topo_order[p];
    let m = id.0;
    let module = &g.modules[m];
    let names = names_for_path(g, slots, &module.path);
    let ghost before = w.pieces@;
    if id != g.entry_id && names.len() > 0 {
        let first = crate::literal::quote_lua_string(names[0].as_str());
        let mut header = String::new();
        push_str(&mut header, "-- module ");
        push_str(&mut header, first.as_str());
        push_str(&mut header, ": ");
        push_str(&mut header, module.relative_path.as_str());
        push_str(&mut header, "\n");
        let mut opening = String::new();
        push_str(&mut opening, prefix.as_str());
        push_str(&mut opening, "modules[");
        push_str(&mut opening, first.as_str());
        push_str(&mut opening, "]=function(...)\n");
        let body = module_body(g, version, prefix, m, &no_table);
        w.push_text(header.as_str(), Ghost(paths));
        w.push_text(opening.as_str(), Ghost(paths));
        w.push_body(body.as_str(), m, &module.path, Ghost(paths));
        let ghost after_body = w.pieces@;
        write_aliases(w, prefix, &names, &first, Ghost(paths));
        write_paths(w, prefix, version, &names, &module.relative_path, Ghost(paths));
        proof {
            let nm = name_texts(names@);
            assert(nm[0] == names@[0]@);
            let first_text = lua_quote(nm[0]);
            assert(header@ =~= "-- module "@ + first_text + ": "@ + module.relative_path@ + "\n"@);
            assert(opening@ =~= prefix@ + "modules["@ + first_text + "]=function(...)\n"@);
            assert(after_body =~= before + (seq![text(header@), text(opening@)] + body_pieces(*g, version, prefix@, m as int)));
            assert(w.pieces@ =~= before + lua_module_pieces(*g, version, prefix@, p as int));
        }
    } else {
        proof {
            assert(before + lua_module_pieces(*g, version, prefix@, p as int) =~= before);
        }
    }
}

/// Registers each non-entry module under the Lua module names that load
/// it, in load order; a module no require names is left out.
fn write_lua_registrations(
    w: &mut BundleWriter,
    g: &DependencyGraph,
    version: LuaVersion,
    prefix: &String,
    slots: &Vec<(usize, usize)>,
    Ghost(paths): Ghost<Seq<Seq<char>>>,
)
    requires
        old(w).inv(paths),
        paths == module_paths(g.modules@),
        !version.spec_is_luau(),
        slots_valid(*g, slots@),
        slot_model(*g, slots@) == lua_slots(*g),
        bundle_ready(*g, version),
    ensures
        final(w).inv(paths),
        final(w).pieces@ == old(w).pieces@ + lua_registrations(*g, version, prefix@, g.topo_order@.len() as int),
{
    let ghost base = w.pieces@;
    let mut p: usize = 0;
    proof {
        assert(base + lua_registrations(*g, version, prefix@, 0) =~= base);
    }
    while p < g.topo_order.len()
        invariant
            w.inv(paths),
            paths == module_paths(g.modules@),
            !version.spec_is_luau(),
            slots_valid(*g, slots@),
            slot_model(*g, slots@) == lua_slots(*g),
            bundle_ready(*g, version),
            p <= g.topo_order@.len(),
            w.pieces@ == base + lua_registrations(*g, version, prefix@, p as int),
        decreases g.topo_order@.len() - p,
    {
        write_lua_module(w, g, version, prefix, slots, p, Ghost(paths));
        proof {
            assert(w.pieces@ =~= base + lua_registrations(*g, version, prefix@, p + 1));
        }
        p += 1;
    }
}

/// The Luau entry chunk, registered under its slot when required.
fn write_luau_entry(
    w: &mut BundleWriter,
    g: &DependencyGraph,
    version: LuaVersion,
    prefix: &String,
    table: &Vec<usize>,
    required: bool,
    Ghost(paths): Ghost<Seq<Seq<char>>>,
)
    requires
        old(w).inv(paths),
        paths == module_paths(g.modules@),
        version.spec_is_luau(),
        luau_table_ok(*g, table@),
        required == entry_required(*g),
        bundle_ready(*g, version),
    ensures
        final(w).inv(paths),
        final(w).pieces@ == old(w).pieces@ + luau_entry_pieces(*g, version, prefix@),
{
    let ghost before = w.pieces@;
    let e = g.entry_id.0;
    let entry = &g.modules[e];
    let mut opening = String::new();
    push_str(&mut opening, "local ");
    push_str(&mut opening, prefix.as_str());
    push_str(&mut opening, "entry=function(...)\n");
    let body = module_body(g, version, prefix, e, table);
    w.push_text(opening.as_str(), Ghost(paths));
    w.push_body(body.as_str(), e, &entry.path, Ghost(paths));
    let ghost after_body = w.pieces@;
    if required {
        let mut line = String::new();
        push_str(&mut line, prefix.as_str());
        push_str(&mut line, "modules[");
        crate::text::push_decimal(&mut line, table[e]);
        push_str(&mut line, "]=");
        push_str(&mut line, prefix.as_str());
        push_str(&mut line, "entry\n");
        w.push_text(line.as_str(), Ghost(paths));
        proof {
            assert(line@ =~= prefix@ + "modules["@ + decimal(luau_slot(*g, e as int)) + "]="@ + prefix@ + "entry\n"@);
        }
    }
    proof {
        assert(opening@ =~= "local "@ + prefix@ + "entry=function(...)\n"@);
        assert(after_body =~= before + (seq![text(opening@)] + body_pieces(*g, version, prefix@, e as int)));
        assert(w.pieces@ =~= before + luau_entry_pieces(*g, version, prefix@));
    }
}

/// The Lua entry chunk, registered under every module name that loads it.
fn write_lua_entry(
    w: &mut BundleWriter,
    g: &DependencyGraph,
    version: LuaVersion,
    prefix: &String,
    slots: &Vec<(usize, usize)>,
    Ghost(paths): Ghost<Seq<Seq<char>>>,
)
    requires
        old(w).inv(paths),
        paths == module_paths(g.modules@),
        !version.spec_is_luau(),
        slots_valid(*g, slots@),
        slot_model(*g, slots@) == lua_slots(*g),
        bundle_ready(*g, version),
    ensures
        final(w).inv(paths),
        final(w).pieces@ == old(w).pieces@ + lua_entry_pieces(*g, version, prefix@),
{
    let ghost before = w.pieces@;
    let no_table: Vec<usize> = Vec::new();
    let e = g.entry_id.0;
    let entry = &g.modules[e];
    let names = names_for_path(g, slots, &entry.path);
    let mut opening = String::new();
    push_str(&mut opening, "local ");
    push_str(&mut opening, prefix.as_str());
    push_str(&mut opening, "entry=function(...)\n");
    let body = module_body(g, version, prefix, e, &no_table);
    w.push_text(opening.as_str(), Ghost(paths));
    w.push_body(body.as_str(), e, &entry.path, Ghost(paths));
    let ghost after_body = w.pieces@;
    write_entry_aliases(w, prefix, &names, Ghost(paths));
    write_paths(w, prefix, version, &names, &entry.relative_path, Ghost(paths));
    proof {
        assert(opening@ =~= "local "@ + prefix@ + "entry=function(...)\n"@);
        assert(after_body =~= before + (seq![text(opening@)] + body_pieces(*g, version, prefix@, e as int)));
        assert(w.pieces@ =~= before + lua_entry_pieces(*g, version, prefix@));
    }
}

/// How many lines `str::lines` yields for `s`.
fn line_count_of(s: &str) -> (n: usize)
    ensures
        n == line_count(s@),
{
    let breaks = count_line_breaks(s);
    let chars = chars_of(s);
    let len = s.as_bytes().len();
    if chars.len() > 0 && chars[chars.len() - 1] != '\n' {
        proof {
            lemma_encode_utf8_len(s@);
            lemma_line_breaks_concat(s@.drop_last(), Seq::empty());
            assert(s@.drop_last() + Seq::<char>::empty() =~= s@.drop_last());
        }
        breaks + 1
    } else {
        breaks
    }
}

/// Generates the bundled Lua output from a resolved dependency graph.
///
/// Modules register as functions in a table and load lazily on first
/// require, through a loader that mirrors the target version's own
/// `require`: Lua targets key the cache by module name, Luau by resolved
/// file. The entry module body is wrapped in a function invoked with the
/// chunk's varargs. Every generated identifier shares one prefix chosen to
/// appear nowhere in any module source. A lone module without requires is
/// its own bundle.
pub fn emit(dep_graph: &DependencyGraph, version: LuaVersion) -> (output: String)
    requires
        dep_graph.entry_id.0 < dep_graph.modules@.len(),
        !is_single_module(*dep_graph) ==> bundle_ready(*dep_graph, version),
    ensures
        is_single_module(*dep_graph) ==> output@ == dep_graph.modules@[dep_graph.entry_id.0 as int].source@,
        !is_single_module(*dep_graph) ==> output@ == joined(
            bundle_pieces(*dep_graph, version, bundle_prefix(sources_of(dep_graph.modules@))),
        ),
        !is_single_module(*dep_graph) ==> is_chosen_prefix(
            sources_of(dep_graph.modules@),
            prefix_index(sources_of(dep_graph.modules@)),
        ),
{
    emit_with_line_map(dep_graph, version).0
}

/// [`emit`], plus the module->bundle line map for the produced output.
#[verifier::spinoff_prover]
#[verifier::rlimit(40)]
pub fn emit_with_line_map(dep_graph: &DependencyGraph, version: LuaVersion) -> (result: (String, Vec<LineMapEntry>))
    requires
        dep_graph.entry_id.0 < dep_graph.modules@.len(),
        !is_single_module(*dep_graph) ==> bundle_ready(*dep_graph, version),
    ensures
        is_single_module(*dep_graph) ==> {
            let entry = dep_graph.modules@[dep_graph.entry_id.0 as int];
            let lines = line_count(entry.source@);
            &&& result.0@ == entry.source@
            &&& line_map_model(result.1@) == seq![(1int, if lines > 1 { lines as int } else { 1int }, entry.path@)]
        },
        !is_single_module(*dep_graph) ==> {
            let pieces = bundle_pieces(*dep_graph, version, bundle_prefix(sources_of(dep_graph.modules@)));
            &&& result.0@ == joined(pieces)
            &&& line_map_model(result.1@) == line_entries(pieces, module_paths(dep_graph.modules@))
            &&& is_chosen_prefix(sources_of(dep_graph.modules@), prefix_index(sources_of(dep_graph.modules@)))
        },
{
    let g = dep_graph;
    let e = g.entry_id.0;
    if g.modules.len() == 1 && g.modules[e].dependencies.len() == 0 {
        let entry = &g.modules[e];
        let lines = line_count_of(entry.source.as_str());
        let end = if lines > 1 { lines } else { 1 };
        let item = LineMapEntry { bundle_start_line: 1, bundle_end_line: end, path: entry.path.clone() };
        let mut line_map: Vec<LineMapEntry> = Vec::new();
        line_map.push(item);
        proof {
            assert(line_map_model(line_map@) =~= seq![item.model()]);
        }
        return (entry.source.clone(), line_map);
    }
    let ghost paths = module_paths(g.modules@);
    let prefix = crate::prefix::choose_prefix(&g.modules);
    let mut w = BundleWriter::new(Ghost(paths));
    if version.is_luau() {
        hoist_hot_comments(&mut w, g.modules[e].source.as_str(), Ghost(paths));
    }
    let has_dynamic = any_dynamic_require(&g.modules);
    let loader_text = crate::loader::loader_text(prefix.as_str(), version, has_dynamic);
    w.push_text("do\n", Ghost(paths));
    w.push_text(loader_text.as_str(), Ghost(paths));
    let ghost after_preamble = w.pieces@;
    proof {
        assert(after_preamble =~= preamble(*g, version, prefix@));
    }
    if version.is_luau() {
        let required = entry_is_required(g);
        let table = luau_slot_table(g, required);
        write_luau_registrations(&mut w, g, version, &prefix, &table, Ghost(paths));
        write_luau_entry(&mut w, g, version, &prefix, &table, required, Ghost(paths));
    } else {
        let slots = lua_slot_table(g);
        write_lua_registrations(&mut w, g, version, &prefix, &slots, Ghost(paths));
        write_lua_entry(&mut w, g, version, &prefix, &slots, Ghost(paths));
    }
    let ghost after_entry = w.pieces@;
    let mut closing = String::new();
    push_str(&mut closing, "return ");
    push_str(&mut closing, prefix.as_str());
    push_str(&mut closing, "entry(...)\n");
    w.push_text(closing.as_str(), Ghost(paths));
    w.push_text("end\n", Ghost(paths));
    proof {
        assert(closing@ =~= "return "@ + prefix@ + "entry(...)\n"@);
        assert(w.pieces@ =~= bundle_pieces(*g, version, prefix@));
    }
    (w.output, w.line_map)
}

// ----- the bundle of a built graph -----

/// What bundling a project gives: the merged source, the warnings met
/// while building its graph, the files it holds, and the module->bundle
/// line map of the output.
pub struct BundleResult {
    pub output: String,
    pub warnings: Vec<GraphWarning>,
    pub source_files: Vec<String>,
    pub line_map: Vec<LineMapEntry>,
}

/// Bundles the modules of `dep_graph` into one file (see
/// [`emit_with_line_map`]), keeping the graph's warnings and listing the
/// module paths as the bundle's source files.
pub fn bundle_graph(dep_graph: DependencyGraph, version: LuaVersion) -> (result: BundleResult)
    requires
        dep_graph.entry_id.0 < dep_graph.modules@.len(),
        !is_single_module(dep_graph) ==> bundle_ready(dep_graph, version),
    ensures
        result.warnings@ == dep_graph.warnings@,
        result.source_files@.map_values(|f: String| f@) == module_paths(dep_graph.modules@),
        is_single_module(dep_graph) ==> {
            let entry = dep_graph.modules@[dep_graph.entry_id.0 as int];
            let lines = line_count(entry.source@);
            &&& result.output@ == entry.source@
            &&& line_map_model(result.line_map@) == seq![(1int, if lines > 1 { lines as int } else { 1int }, entry.path@)]
        },
        !is_single_module(dep_graph) ==> {
            let pieces = bundle_pieces(dep_graph, version, bundle_prefix(sources_of(dep_graph.modules@)));
            &&& result.output@ == joined(pieces)
            &&& line_map_model(result.line_map@) == line_entries(pieces, module_paths(dep_graph.modules@))
        },
{
    let (output, line_map) = emit_with_line_map(&dep_graph, version);
    let mut source_files: Vec<String> = Vec::new();
    let mut m: usize = 0;
    while m < dep_graph.modules.len()
        invariant
            m <= dep_graph.modules@.len(),
            source_files@.map_values(|f: String| f@) == module_paths(dep_graph.modules@).take(m as int),
        decreases dep_graph.modules@.len() - m,
    {
        let ghost before = source_files@;
        source_files.push(dep_graph.modules[m].path.clone());
        proof {
            assert(source_files@ =~= before.push(dep_graph.modules@[m as int].path));
            assert(module_paths(dep_graph.modules@).take(m + 1) =~= module_paths(dep_graph.modules@).take(
                m as int,
            ).push(dep_graph.modules@[m as int].path@));
            assert(source_files@.map_values(|f: String| f@) =~= before.map_values(|f: String| f@).push(
                dep_graph.modules@[m as int].path@,
            ));
        }
        m += 1;
    }
    proof {
        assert(module_paths(dep_graph.modules@).take(m as int) =~= module_paths(dep_graph.modules@));
    }
    BundleResult { output, warnings: dep_graph.warnings, source_files, line_map }
}

// ----- line breaks of the bundled bodies -----

/// No character of `s` is a line break.
pub open spec fn no_newline_chars(s: Seq<char>) -> bool {
    forall|i: int| 0 <= i < s.len() ==> s[i] != '\n'
}

proof fn lemma_decimal_no_newline(n: nat)
    ensures
        no_newline_chars(decimal(n)),
{
    lemma_decimal_digits(n);
}

proof fn lemma_prefix_no_newline(k: nat)
    ensures
        no_newline_chars(prefix_candidate(k)),
{
    lemma_decimal_no_newline(k);
    let c = prefix_candidate(k);
    assert forall|i: int| 0 <= i < c.len() implies c[i] != '\n' by {
        if k > 0 {
            let stem = seq!['_', '_', 'l', 'u', 'c', 'k'];
            if i >= stem.len() && i < stem.len() + decimal(k).len() {
                assert(c[i] == decimal(k)[i - stem.len()]);
            }
        }
    }
}

proof fn lemma_render_no_newline(bytes: Seq<u8>)
    ensures
        no_newline_chars(render_all(bytes, |b: u8| render_require_byte(b))),
    decreases bytes.len(),
{
    if bytes.len() > 0 {
        lemma_render_no_newline(bytes.drop_last());
        let b = bytes.last();
        let rest = render_all(bytes.drop_last(), |b: u8| render_require_byte(b));
        let piece = render_require_byte(b);
        assert(no_newline_chars(piece)) by {
            if !(b == 34 || b == 92 || b == 10 || b == 13 || (0x20 <= b && b <= 0x7e)) {
                assert(piece[1] != '\n' && piece[2] != '\n' && piece[3] != '\n');
            }
        }
        let all = render_all(bytes, |b: u8| render_require_byte(b));
        assert(all == rest + piece);
        assert forall|i: int| 0 <= i < all.len() implies all[i] != '\n' by {
            if i < rest.len() {
                assert(all[i] == rest[i]);
            } else {
                assert(all[i] == piece[i - rest.len()]);
            }
        }
    }
}

proof fn lemma_call_args_no_newline(g: DependencyGraph, version: LuaVersion, m: int)
    requires
        0 <= m < g.modules@.len(),
    ensures
        forall|i: int|
            0 <= i < call_args_of(g, version, m).len() ==> line_breaks(#[trigger] call_args_of(g, version, m)[i]) == 0,
{
    let args = call_args_of(g, version, m);
    assert forall|i: int| 0 <= i < args.len() implies line_breaks(#[trigger] args[i]) == 0 by {
        let d = g.modules@[m].dependencies@[i];
        assert(args[i] == call_arg(g, version, d));
        if version.spec_is_luau() {
            lemma_decimal_no_newline(luau_slot(g, module_at(g.modules@, d.resolved_path@)));
        } else {
            let body = require_body(encode_utf8(d.require_string@));
            lemma_render_no_newline(encode_utf8(d.require_string@));
            let q = quoted(body);
            assert forall|j: int| 0 <= j < q.len() implies q[j] != '\n' by {
                if 0 < j < q.len() - 1 {
                    assert(q[j] == body[j - 1]);
                }
            }
        }
        lemma_no_line_breaks(args[i]);
    }
}

/// The rewritten body the bundle holds for module `m`.
pub open spec fn module_rewrite(g: DependencyGraph, version: LuaVersion, m: int) -> Seq<u8> {
    let module = g.modules@[m];
    rewritten_body(
        encode_utf8(module.source@),
        module.dependencies@,
        call_args_of(g, version, m),
        module.dynamic_callees@,
        bundle_prefix(sources_of(g.modules@)),
        version,
        module.exports@,
    )
}

/// The edits the bundle makes to module `m`'s source, in the order they
/// apply.
pub open spec fn module_edits(g: DependencyGraph, version: LuaVersion, m: int) -> Seq<(int, int, Seq<u8>)> {
    let module = g.modules@[m];
    sort_by_start(
        body_edits(
            encode_utf8(module.source@),
            module.dependencies@,
            call_args_of(g, version, m),
            module.dynamic_callees@,
            bundle_prefix(sources_of(g.modules@)),
            version,
            module.exports@,
        ),
    )
}

/// Entry `entry` of a line map covers piece `p` of the bundle: a module body
/// that starts on the line after all the text before it, spans as many line
/// breaks as the body holds, and belongs to the module the entry names.
pub open spec fn covers_body(entry: (int, int, Seq<char>), pieces: Seq<Piece>, paths: Seq<Seq<char>>, p: int) -> bool {
    match pieces[p].1 {
        Some(m) => {
            &&& entry.0 == line_breaks(joined(pieces.take(p))) + 1
            &&& entry.1 == line_breaks(joined(pieces.take(p))) + line_breaks(pieces[p].0)
            &&& entry.2 == paths[m as int]
        },
        None => false,
    }
}

/// Some piece of the bundle is a module body that `entry` covers.
pub open spec fn covers_some_body(entry: (int, int, Seq<char>), pieces: Seq<Piece>, paths: Seq<Seq<char>>) -> bool {
    exists|p: int| 0 <= p < pieces.len() && #[trigger] covers_body(entry, pieces, paths, p)
}

/// Each entry of a bundle's line map spans exactly the lines of one module
/// body and names that body's module; the entries follow one another in the
/// order of their bodies without overlapping, and none reaches past the
/// bundle's last line break.
pub proof fn law_line_map_covers_bodies(pieces: Seq<Piece>, paths: Seq<Seq<char>>)
    ensures
        forall|k: int|
            0 <= k < line_entries(pieces, paths).len() ==> #[trigger] covers_some_body(
                line_entries(pieces, paths)[k],
                pieces,
                paths,
            ),
        forall|k: int|
            0 <= k && k + 1 < line_entries(pieces, paths).len() ==> #[trigger] line_entries(pieces, paths)[k].1
                < line_entries(pieces, paths)[k + 1].0,
        forall|k: int|
            0 <= k < line_entries(pieces, paths).len() ==> #[trigger] line_entries(pieces, paths)[k].1 <= line_breaks(
                joined(pieces),
            ),
    decreases pieces.len(),
{
    if pieces.len() > 0 {
        let rest = pieces.drop_last();
        let n = pieces.len() as int;
        law_line_map_covers_bodies(rest, paths);
        lemma_line_breaks_concat(joined(rest), pieces.last().0);
        assert(pieces.take(n - 1) =~= rest);
        if let Some(m) = pieces.last().1 {
            assert(line_entries(pieces, paths) == line_entries(rest, paths).push(
                (line_breaks(joined(rest)) + 1int, line_breaks(joined(pieces)) as int, paths[m as int]),
            ));
        } else {
            assert(line_entries(pieces, paths) == line_entries(rest, paths));
        }
        assert forall|k: int| 0 <= k < line_entries(pieces, paths).len() implies #[trigger] covers_some_body(
            line_entries(pieces, paths)[k],
            pieces,
            paths,
        ) by {
            if k < line_entries(rest, paths).len() {
                assert(covers_some_body(line_entries(rest, paths)[k], rest, paths));
                let p = choose|p: int| 0 <= p < rest.len() && #[trigger] covers_body(line_entries(rest, paths)[k], rest, paths, p);
                assert(pieces.take(p) =~= rest.take(p));
                assert(pieces[p] == rest[p]);
                assert(line_entries(pieces, paths)[k] == line_entries(rest, paths)[k]);
                assert(covers_body(line_entries(pieces, paths)[k], pieces, paths, p));
            } else {
                assert(covers_body(line_entries(pieces, paths)[k], pieces, paths, n - 1));
            }
        }
    } else {
        assert(line_entries(pieces, paths).len() == 0);
    }
}

/// Bundling keeps every line of a module where it was: when module `m`'s
/// edits do not overlap, none of its dynamic `require` callees spans a
/// line break, each of its export edits keeps the line breaks it replaces,
/// and no frozen export table follows its body, the text the bundle holds
/// for `m` has exactly the line breaks of `m`'s source. So source line `k`
/// of `m` is line `k` of its body, which the line map places.
pub proof fn law_bundled_body_keeps_lines(g: DependencyGraph, version: LuaVersion, m: int)
    requires
        bundle_ready(g, version),
        0 <= m < g.modules@.len(),
        edits_disjoint(encode_utf8(g.modules@[m].source@).len() as int, module_edits(g, version, m)),
        forall|j: int|
            0 <= j < g.modules@[m].dynamic_callees@.len() && span_in(
                encode_utf8(g.modules@[m].source@).len() as int,
                #[trigger] g.modules@[m].dynamic_callees@[j],
            ) ==> newline_count(
                encode_utf8(g.modules@[m].source@).subrange(
                    g.modules@[m].dynamic_callees@[j].start as int,
                    g.modules@[m].dynamic_callees@[j].end as int,
                ),
            ) == 0,
        version.spec_has_value_exports() ==> forall|j: int|
            0 <= j < g.modules@[m].exports@.len() ==> keeps_line_breaks(
                encode_utf8(g.modules@[m].source@),
                #[trigger] export_edit(g.modules@[m].exports@[j]),
            ),
        !version.spec_has_value_exports() || export_names(g.modules@[m].exports@, g.modules@[m].exports@.len()).len()
            == 0,
    ensures
        line_breaks(decode_utf8(module_rewrite(g, version, m))) == line_breaks(g.modules@[m].source@),
{
    let module = g.modules@[m];
    let prefix = bundle_prefix(sources_of(g.modules@));
    lemma_prefix_no_newline(prefix_index(sources_of(g.modules@)));
    lemma_no_line_breaks(prefix);
    lemma_call_args_no_newline(g, version, m);
    assert(rewrite_admissible(
        encode_utf8(module.source@),
        module.dependencies@,
        module.dynamic_callees@,
        version,
        module.exports@,
    ));
    law_rewrite_keeps_source_lines(
        module.source@,
        module.dependencies@,
        call_args_of(g, version, m),
        module.dynamic_callees@,
        prefix,
        version,
        module.exports@,
    );
}

/// The only character whose UTF-8 encoding ends in the byte 10 is `\n`.
proof fn lemma_encoding_ends_in_newline(c: Seq<char>)
    requires
        c.len() > 0,
        encode_utf8(c).last() == 10u8,
    ensures
        c.last() == '\n',
{
    let init = c.drop_last();
    let x = c.last();
    assert(c =~= init + seq![x]);
    lemma_encode_utf8_concat(init, seq![x]);
    assert(encode_utf8(seq![x]) == encode_scalar(x as u32)) by {
        assert(seq![x].drop_first() =~= Seq::<char>::empty());
        assert(encode_utf8(seq![x]) == encode_scalar(seq![x][0] as u32) + encode_utf8(Seq::<char>::empty()));
        assert(encode_scalar(x as u32) + Seq::<u8>::empty() =~= encode_scalar(x as u32));
    }
    let v = x as u32;
    let e = encode_scalar(v);
    assert(encode_utf8(c).last() == e.last());
    if has_width_1_encoding(v) {
        assert(e.last() == leading_byte_width_1(v));
        assert(v == 10) by (bit_vector)
            requires
                0 <= v <= 0x7F,
                (v & 0x7F) as u8 == 10u8,
        ;
        char_u32_cast(x, v);
        assert(x == '\n');
    } else {
        assert(e.last() == last_continuation_byte(v));
        assert(0x80u8 | (v & 0x3F) as u8 != 10u8) by (bit_vector);
    }
}

/// Every module body the bundle holds ends in a newline when non-empty, so
/// the `end` that closes its registration stands on a line of its own.
/// (The rewritten bytes of a module are the UTF-8 encoding of the text
/// the rewrite produces.)
pub proof fn law_module_body_ends_in_newline(g: DependencyGraph, version: LuaVersion, prefix: Seq<char>, m: int)
    requires
        0 <= m < g.modules@.len(),
        valid_utf8(
            rewritten_body(
                encode_utf8(g.modules@[m].source@),
                g.modules@[m].dependencies@,
                call_args_of(g, version, m),
                g.modules@[m].dynamic_callees@,
                prefix,
                version,
                g.modules@[m].exports@,
            ),
        ),
    ensures
        body_text(g, version, prefix, m).len() == 0 || body_text(g, version, prefix, m).last() == '\n',
{
    let module = g.modules@[m];
    let bytes = rewritten_body(
        encode_utf8(module.source@),
        module.dependencies@,
        call_args_of(g, version, m),
        module.dynamic_callees@,
        prefix,
        version,
        module.exports@,
    );
    let c = decode_utf8(bytes);
    decode_utf8_encode_utf8(bytes);
    if bytes.len() > 0 && bytes.last() == 10 {
        if c.len() == 0 {
            assert(encode_utf8(c) =~= Seq::<u8>::empty());
        }
        lemma_encoding_ends_in_newline(c);
    } else if bytes.len() == 0 {
        assert(c =~= Seq::<char>::empty());
    }
}

} // verus!
