//! Single-file bundle emission: the per-module body rewrites, the loader
//! preamble, and the assembly of the whole bundle with its line map.

use vstd::prelude::*;
use vstd::string::StringSliceAdditionalSpecFns;
use vstd::utf8::*;
use std::ops::Range;
use crate::module::{Dependency, ExportDecl, ModuleId, ModuleInfo};
use crate::bundle::{lemma_line_breaks_concat, line_breaks};
use crate::splice::{gap_end, gap_start, keeps_untouched, law_splice_keeps_untouched_text, places_fit, shift, apply_edits, edit_on_boundaries, edits_disjoint, lemma_splice_valid, keeps_line_breaks, law_splice_keeps_line_count, lemma_newline_count_concat, lemma_sort_by_start_elements, lemma_sort_by_start_keeps, lemma_shift_step, newline_count, lemma_encode_utf8_concat, edits_model, edits_on_boundaries, lemma_sort_keeps_boundaries, sort_by_start, sort_edits_by_start, splice, Edit};
use crate::text::{push_char, push_str};
use crate::version::LuaVersion;

verus! {

// ----- module body rewriting -----

/// `n` newline characters.
pub open spec fn newlines(n: nat) -> Seq<char> {
    Seq::new(n, |_i: int| '\n')
}

/// A byte range the rewrite accepts: non-empty and inside the source.
pub open spec fn span_in(len: int, r: Range<usize>) -> bool {
    r.end <= len && r.start < r.end
}

/// The loader call that replaces a `require(...)` call: the loader's
/// `require` with argument `arg`, followed by as many newlines as the
/// replaced call spanned, so line numbers after it do not move.
pub open spec fn loader_call(prefix: Seq<char>, arg: Seq<char>, nl: nat) -> Seq<char> {
    prefix + "require("@ + arg + newlines(nl) + ")"@
}

/// Edits replacing the first `k` accepted require calls.
pub open spec fn call_edits(src: Seq<u8>, deps: Seq<Dependency>, args: Seq<Seq<char>>, prefix: Seq<char>, k: nat) -> Seq<
    (int, int, Seq<u8>),
>
    decreases k,
{
    if k == 0 {
        Seq::empty()
    } else {
        let rest = call_edits(src, deps, args, prefix, (k - 1) as nat);
        let span = deps[k - 1].call_span;
        if span_in(src.len() as int, span) {
            rest.push(
                (
                    span.start as int,
                    span.end as int,
                    encode_utf8(
                        loader_call(
                            prefix,
                            args[k - 1],
                            newline_count(src.subrange(span.start as int, span.end as int)),
                        ),
                    ),
                ),
            )
        } else {
            rest
        }
    }
}

/// Edits retargeting the first `k` accepted dynamic `require` callees at
/// the loader's dynamic entry point.
pub open spec fn dynamic_edits(src: Seq<u8>, callees: Seq<Range<usize>>, prefix: Seq<char>, k: nat) -> Seq<
    (int, int, Seq<u8>),
>
    decreases k,
{
    if k == 0 {
        Seq::empty()
    } else {
        let rest = dynamic_edits(src, callees, prefix, (k - 1) as nat);
        let span = callees[k - 1];
        if span_in(src.len() as int, span) {
            rest.push((span.start as int, span.end as int, encode_utf8(prefix + "dynamic"@)))
        } else {
            rest
        }
    }
}

/// Edits lowering one `export` declaration: the keyword is dropped from a
/// type or local export, and an exported function becomes a local one.
pub open spec fn export_edit(decl: ExportDecl) -> (int, int, Seq<u8>) {
    match decl {
        ExportDecl::Type { start } => (start as int, start + 6, Seq::<u8>::empty()),
        ExportDecl::Local { start, .. } => (start as int, start + 6, Seq::<u8>::empty()),
        ExportDecl::Function { start, name_start, last_attribute_end, .. } => match last_attribute_end {
            Some(attr_end) => (attr_end as int, name_start as int, encode_utf8("\nlocal function "@)),
            None => (start as int, start + 6, encode_utf8("local"@)),
        },
    }
}

pub open spec fn export_edits(exports: Seq<ExportDecl>, k: nat) -> Seq<(int, int, Seq<u8>)>
    decreases k,
{
    if k == 0 {
        Seq::empty()
    } else {
        export_edits(exports, (k - 1) as nat).push(export_edit(exports[k - 1]))
    }
}

/// The value names the first `k` export declarations bind, in order.
pub open spec fn export_names(exports: Seq<ExportDecl>, k: nat) -> Seq<Seq<char>>
    decreases k,
{
    if k == 0 {
        Seq::empty()
    } else {
        let rest = export_names(exports, (k - 1) as nat);
        match exports[k - 1] {
            ExportDecl::Type { .. } => rest,
            ExportDecl::Local { names, .. } => rest + names@.map_values(|n: String| n@),
            ExportDecl::Function { name, .. } => rest.push(name@),
        }
    }
}

/// `a=a,b=b,...` for the exported names.
pub open spec fn export_fields(names: Seq<Seq<char>>) -> Seq<char>
    decreases names.len(),
{
    if names.len() == 0 {
        Seq::empty()
    } else if names.len() == 1 {
        names[0] + seq!['='] + names[0]
    } else {
        export_fields(names.drop_last()) + seq![','] + names.last() + seq!['='] + names.last()
    }
}

/// The frozen table Luau implicitly returns for a module with value exports.
pub open spec fn freeze_return(names: Seq<Seq<char>>) -> Seq<char> {
    "return table.freeze({"@ + export_fields(names) + "})\n"@
}

/// All edits of a module body, before ordering.
pub open spec fn body_edits(
    src: Seq<u8>,
    deps: Seq<Dependency>,
    args: Seq<Seq<char>>,
    callees: Seq<Range<usize>>,
    prefix: Seq<char>,
    version: LuaVersion,
    exports: Seq<ExportDecl>,
) -> Seq<(int, int, Seq<u8>)> {
    call_edits(src, deps, args, prefix, deps.len()) + dynamic_edits(src, callees, prefix, callees.len()) + if version.spec_has_value_exports() {
        export_edits(exports, exports.len())
    } else {
        Seq::empty()
    }
}

/// The rewritten module body, as UTF-8 bytes: the edits applied in start
/// order, then, for a module with value exports, the frozen export table
/// on a line of its own.
pub open spec fn rewritten_body(
    src: Seq<u8>,
    deps: Seq<Dependency>,
    args: Seq<Seq<char>>,
    callees: Seq<Range<usize>>,
    prefix: Seq<char>,
    version: LuaVersion,
    exports: Seq<ExportDecl>,
) -> Seq<u8> {
    let spliced = splice(src, sort_by_start(body_edits(src, deps, args, callees, prefix, version, exports)));
    let names = if version.spec_has_value_exports() {
        export_names(exports, exports.len())
    } else {
        Seq::empty()
    };
    if names.len() == 0 {
        spliced
    } else {
        spliced + (if spliced.len() > 0 && spliced.last() == 10 {
            Seq::<u8>::empty()
        } else {
            seq![10u8]
        }) + encode_utf8(freeze_return(names))
    }
}

/// The rewrite can be applied to `src`: every accepted require call and
/// dynamic callee, and every export edit on a dialect with value exports,
/// starts and ends on a character boundary, and the `export` keyword of
/// each export fits below `usize::MAX`.
pub open spec fn rewrite_admissible(
    src: Seq<u8>,
    deps: Seq<Dependency>,
    callees: Seq<Range<usize>>,
    version: LuaVersion,
    exports: Seq<ExportDecl>,
) -> bool {
    &&& forall|j: int|
        0 <= j < deps.len() && span_in(src.len() as int, #[trigger] deps[j].call_span) ==> is_char_boundary(
            src,
            deps[j].call_span.start as int,
        ) && is_char_boundary(src, deps[j].call_span.end as int)
    &&& forall|j: int|
        0 <= j < callees.len() && span_in(src.len() as int, #[trigger] callees[j]) ==> is_char_boundary(
            src,
            callees[j].start as int,
        ) && is_char_boundary(src, callees[j].end as int)
    &&& version.spec_has_value_exports() ==> forall|j: int|
        0 <= j < exports.len() ==> {
            &&& edit_on_boundaries(src, #[trigger] export_edit(exports[j]))
            &&& match exports[j] {
                ExportDecl::Type { start } => start + 6 <= usize::MAX,
                ExportDecl::Local { start, .. } => start + 6 <= usize::MAX,
                ExportDecl::Function { start, .. } => start + 6 <= usize::MAX,
            }
        }
}

/// The texts of `args`.
pub open spec fn arg_texts(args: Seq<String>) -> Seq<Seq<char>> {
    args.map_values(|a: String| a@)
}

/// Number of newline bytes in `bytes[start..end]`.
fn count_newlines(bytes: &[u8], start: usize, end: usize) -> (n: usize)
    requires
        start <= end <= bytes@.len(),
    ensures
        n == newline_count(bytes@.subrange(start as int, end as int)),
{
    let mut n: usize = 0;
    let mut i: usize = start;
    while i < end
        invariant
            start <= i <= end <= bytes@.len(),
            n == newline_count(bytes@.subrange(start as int, i as int)),
            n <= i - start,
        decreases end - i,
    {
        proof {
            assert(bytes@.subrange(start as int, i + 1).drop_last() =~= bytes@.subrange(start as int, i as int));
        }
        if bytes[i] == 10u8 {
            n += 1;
        }
        i += 1;
    }
    n
}

/// Appends `n` newlines to `s`.
fn push_newlines(s: &mut String, n: usize)
    ensures
        final(s)@ == old(s)@ + newlines(n as nat),
{
    let mut i: usize = 0;
    while i < n
        invariant
            i <= n,
            s@ == old(s)@ + newlines(i as nat),
        decreases n - i,
    {
        push_char(s, '\n');
        proof {
            assert(old(s)@ + newlines((i + 1) as nat) =~= (old(s)@ + newlines(i as nat)).push('\n'));
        }
        i += 1;
    }
}

/// The loader call replacing a `require(...)` call that spanned `nl`
/// newlines, with argument text `arg`.
pub fn loader_call_text(prefix: &str, arg: &str, nl: usize) -> (text: String)
    ensures
        text@ == loader_call(prefix@, arg@, nl as nat),
{
    let mut text = String::new();
    push_str(&mut text, prefix);
    push_str(&mut text, "require(");
    push_str(&mut text, arg);
    push_newlines(&mut text, nl);
    push_str(&mut text, ")");
    proof {
        assert(text@ =~= loader_call(prefix@, arg@, nl as nat));
    }
    text
}

/// Appends `a=a,b=b,...` for `names`.
fn push_export_fields(out: &mut String, names: &Vec<String>)
    ensures
        final(out)@ == old(out)@ + export_fields(names@.map_values(|n: String| n@)),
{
    let ghost all = names@.map_values(|n: String| n@);
    let mut i: usize = 0;
    while i < names.len()
        invariant
            all == names@.map_values(|n: String| n@),
            i <= names@.len(),
            out@ == old(out)@ + export_fields(all.take(i as int)),
        decreases names@.len() - i,
    {
        let ghost before = out@;
        if i != 0 {
            push_char(out, ',');
        }
        push_str(out, names[i].as_str());
        push_char(out, '=');
        push_str(out, names[i].as_str());
        proof {
            let t = all.take(i + 1);
            assert(t.drop_last() =~= all.take(i as int));
            assert(t.last() == names@[i as int]@);
            if i == 0 {
                assert(all.take(0) =~= Seq::<Seq<char>>::empty());
                assert(t.len() == 1 && t[0] == names@[0]@);
                assert(export_fields(all.take(0)) =~= Seq::<char>::empty());
                assert(out@ =~= before + names@[0]@ + seq!['='] + names@[0]@);
                assert(out@ =~= old(out)@ + export_fields(t));
            } else {
                assert(out@ =~= old(out)@ + export_fields(t));
            }
        }
        i += 1;
    }
    proof {
        assert(all.take(i as int) =~= all);
    }
}

/// Replace require() calls with loader calls by splicing over the exact
/// byte ranges the dependency scan recorded, and lower Luau `export`
/// declarations. `call_args[j]` is the loader-call argument text for
/// `dependencies[j]`. Replacements carry the newline count of the call
/// they replace, keeping the line map 1:1 even for multiline requires.
pub fn transform_module_body(
    source: &str,
    dependencies: &Vec<Dependency>,
    call_args: &Vec<String>,
    dynamic_callees: &Vec<Range<usize>>,
    prefix: &str,
    version: LuaVersion,
    exports: &Vec<ExportDecl>,
) -> (body: String)
    requires
        call_args@.len() == dependencies@.len(),
        rewrite_admissible(source.spec_bytes(), dependencies@, dynamic_callees@, version, exports@),
    ensures
        encode_utf8(body@) == rewritten_body(
            source.spec_bytes(),
            dependencies@,
            arg_texts(call_args@),
            dynamic_callees@,
            prefix@,
            version,
            exports@,
        ),
{
    let bytes = source.as_bytes();
    let len = bytes.len();
    let ghost src = source.spec_bytes();
    let mut edits: Vec<Edit> = Vec::new();
    let mut j: usize = 0;
    while j < dependencies.len()
        invariant
            bytes@ == src,
            len == src.len(),
            call_args@.len() == dependencies@.len(),
            j <= dependencies@.len(),
            edits_model(edits@) == call_edits(src, dependencies@, arg_texts(call_args@), prefix@, j as nat),
            forall|i: int| 0 <= i < edits@.len() ==> edit_on_boundaries(src, #[trigger] edits_model(edits@)[i]),
            forall|i: int|
                0 <= i < dependencies@.len() && span_in(src.len() as int, #[trigger] dependencies@[i].call_span)
                    ==> is_char_boundary(src, dependencies@[i].call_span.start as int)
                    && is_char_boundary(src, dependencies@[i].call_span.end as int),
        decreases dependencies@.len() - j,
    {
        let start = dependencies[j].call_span.start;
        let end = dependencies[j].call_span.end;
        let ghost before = edits_model(edits@);
        if end <= len && start < end {
            let nl = count_newlines(bytes, start, end);
            let text = loader_call_text(prefix, call_args[j].as_str(), nl);
            edits.push(Edit { start, end, text });
            proof {
                assert(edits_model(edits@) =~= before.push(edits@.last().model()));
            }
        }
        proof {
            assert(edits_model(edits@) =~= call_edits(src, dependencies@, arg_texts(call_args@), prefix@, (j + 1) as nat));
        }
        j += 1;
    }
    let ghost calls = edits_model(edits@);
    let mut j: usize = 0;
    while j < dynamic_callees.len()
        invariant
            bytes@ == src,
            len == src.len(),
            j <= dynamic_callees@.len(),
            edits_model(edits@) == calls + dynamic_edits(src, dynamic_callees@, prefix@, j as nat),
            forall|i: int| 0 <= i < edits@.len() ==> edit_on_boundaries(src, #[trigger] edits_model(edits@)[i]),
            forall|i: int|
                0 <= i < dynamic_callees@.len() && span_in(src.len() as int, #[trigger] dynamic_callees@[i])
                    ==> is_char_boundary(src, dynamic_callees@[i].start as int)
                    && is_char_boundary(src, dynamic_callees@[i].end as int),
        decreases dynamic_callees@.len() - j,
    {
        let start = dynamic_callees[j].start;
        let end = dynamic_callees[j].end;
        let ghost before = edits_model(edits@);
        if end <= len && start < end {
            let mut text = String::new();
            push_str(&mut text, prefix);
            push_str(&mut text, "dynamic");
            edits.push(Edit { start, end, text });
            proof {
                assert(edits_model(edits@) =~= before.push(edits@.last().model()));
            }
        }
        proof {
            assert(edits_model(edits@) =~= calls + dynamic_edits(src, dynamic_callees@, prefix@, (j + 1) as nat));
        }
        j += 1;
    }
    let ghost plain = edits_model(edits@);
    let mut names: Vec<String> = Vec::new();
    if version.has_value_exports() {
        let mut j: usize = 0;
        while j < exports.len()
            invariant
                version.spec_has_value_exports(),
                j <= exports@.len(),
                edits_model(edits@) == plain + export_edits(exports@, j as nat),
                names@.map_values(|n: String| n@) == export_names(exports@, j as nat),
                forall|i: int| 0 <= i < edits@.len() ==> edit_on_boundaries(src, #[trigger] edits_model(edits@)[i]),
                forall|i: int|
                    0 <= i < exports@.len() ==> {
                        &&& edit_on_boundaries(src, #[trigger] export_edit(exports@[i]))
                        &&& match exports@[i] {
                            ExportDecl::Type { start } => start + 6 <= usize::MAX,
                            ExportDecl::Local { start, .. } => start + 6 <= usize::MAX,
                            ExportDecl::Function { start, .. } => start + 6 <= usize::MAX,
                        }
                    },
            decreases exports@.len() - j,
        {
            let ghost before = edits_model(edits@);
            let ghost before_names = names@.map_values(|n: String| n@);
            proof {
                assert(edit_on_boundaries(src, export_edit(exports@[j as int])));
            }
            match &exports[j] {
                ExportDecl::Type { start } => {
                    edits.push(Edit { start: *start, end: *start + 6, text: String::new() });
                },
                ExportDecl::Local { start, names: bound } => {
                    let mut k: usize = 0;
                    while k < bound.len()
                        invariant
                            k <= bound@.len(),
                            names@.map_values(|n: String| n@) == before_names + bound@.take(k as int).map_values(|n: String| n@),
                        decreases bound@.len() - k,
                    {
                        let ghost names_before = names@;
                        let cloned = bound[k].clone();
                        names.push(cloned);
                        proof {
                            assert(names@ =~= names_before.push(cloned));
                            assert(cloned@ == bound@[k as int]@);
                            assert(names@.map_values(|n: String| n@) =~= names_before.map_values(|n: String| n@).push(cloned@));
                            assert(bound@.take(k + 1).map_values(|n: String| n@) =~= bound@.take(k as int).map_values(|n: String| n@).push(bound@[k as int]@));
                            assert(bound@.take(k + 1) =~= bound@.take(k as int).push(bound@[k as int]));
                            assert(names@.map_values(|n: String| n@) =~= before_names + bound@.take(k + 1).map_values(|n: String| n@));
                        }
                        k += 1;
                    }
                    proof {
                        assert(bound@.take(k as int) =~= bound@);
                    }
                    edits.push(Edit { start: *start, end: *start + 6, text: String::new() });
                },
                ExportDecl::Function { start, name, name_start, last_attribute_end } => {
                    names.push(name.clone());
                    match last_attribute_end {
                        Some(attr_end) => {
                            let mut text = String::new();
                            push_str(&mut text, "\nlocal function ");
                            edits.push(Edit { start: *attr_end, end: *name_start, text });
                        },
                        None => {
                            let mut text = String::new();
                            push_str(&mut text, "local");
                            edits.push(Edit { start: *start, end: *start + 6, text });
                        },
                    }
                    proof {
                        assert(names@.map_values(|n: String| n@) =~= before_names.push(name@));
                    }
                },
            }
            proof {
                assert(edits@.last().model() == export_edit(exports@[j as int]));
                assert(edits_model(edits@) =~= before.push(export_edit(exports@[j as int])));
                assert(edits_model(edits@) =~= plain + export_edits(exports@, (j + 1) as nat));
                assert(names@.map_values(|n: String| n@) =~= export_names(exports@, (j + 1) as nat));
            }
            j += 1;
        }
    }
    let ghost all = edits_model(edits@);
    proof {
        assert(all =~= body_edits(src, dependencies@, arg_texts(call_args@), dynamic_callees@, prefix@, version, exports@));
        lemma_sort_keeps_boundaries(src, all);
    }
    let sorted = sort_edits_by_start(&edits);
    let mut body = apply_edits(source, &sorted);
    if names.len() > 0 {
        let ends_with_newline = {
            let body_bytes = body.as_str().as_bytes();
            body_bytes.len() > 0 && body_bytes[body_bytes.len() - 1] == 10u8
        };
        let ghost body0 = body@;
        let ghost spliced = encode_utf8(body@);
        if !ends_with_newline {
            push_char(&mut body, '\n');
            proof {
                lemma_encode_utf8_concat(body0, seq!['\n']);
                assert(body@ =~= body0 + seq!['\n']);
                assert(encode_utf8(seq!['\n']) =~= seq![10u8]) by {
                    assert(seq!['\n'].drop_first() =~= Seq::<char>::empty());
                    reveal_with_fuel(encode_utf8, 2);
                    assert(('\n' as u32) == 10u32);
                    assert((10u32 & 0x7Fu32) == 10u32) by (bit_vector);
                    assert(encode_scalar(10u32) =~= seq![10u8]);
                }
            }
        }
        let ghost mid = body@;
        push_str(&mut body, "return table.freeze({");
        push_export_fields(&mut body, &names);
        push_str(&mut body, "})\n");
        proof {
            let names_model = names@.map_values(|n: String| n@);
            assert(body@ =~= mid + freeze_return(names_model));
            lemma_encode_utf8_concat(mid, freeze_return(names_model));
        }
    }
    body
}

// ----- line breaks through the rewrite -----

/// The UTF-8 encoding of a character holds a newline byte exactly when
/// the character is `\n`: every byte of a multi-byte encoding has its high
/// bit set.
proof fn lemma_scalar_line_breaks(c: char)
    ensures
        newline_count(encode_scalar(c as u32)) == if c == '\n' {
            1nat
        } else {
            0nat
        },
{
    let v = c as u32;
    let e = encode_scalar(v);
    reveal_with_fuel(newline_count, 5);
    if has_width_1_encoding(v) {
        assert(((v & 0x7F) as u8 == 10u8) == (v == 10u32)) by (bit_vector)
            requires
                v <= 0x7F,
        ;
        assert(e.drop_last() =~= Seq::<u8>::empty());
    } else {
        assert((0xC0 | ((v >> 6) & 0x1F) as u8) != 10u8) by (bit_vector);
        assert((0xE0 | ((v >> 12) & 0x0F) as u8) != 10u8) by (bit_vector);
        assert((0xF0 | ((v >> 18) & 0x7) as u8) != 10u8) by (bit_vector);
        assert((0x80 | (v & 0x3F) as u8) != 10u8) by (bit_vector);
        assert((0x80 | ((v >> 6) & 0x3F) as u8) != 10u8) by (bit_vector);
        assert((0x80 | ((v >> 12) & 0x3F) as u8) != 10u8) by (bit_vector);
        assert(v != 10);
        if has_width_2_encoding(v) {
            assert(e.drop_last().drop_last() =~= Seq::<u8>::empty());
        } else if has_width_3_encoding(v) {
            assert(e.drop_last().drop_last().drop_last() =~= Seq::<u8>::empty());
        } else {
            assert(e.drop_last().drop_last().drop_last().drop_last() =~= Seq::<u8>::empty());
        }
    }
}

/// The newline bytes of the UTF-8 encoding of `s` are its line breaks.
pub proof fn lemma_encoded_line_breaks(s: Seq<char>)
    ensures
        newline_count(encode_utf8(s)) == line_breaks(s),
    decreases s.len(),
{
    if s.len() > 0 {
        lemma_encoded_line_breaks(s.drop_first());
        lemma_scalar_line_breaks(s[0]);
        lemma_newline_count_concat(encode_scalar(s[0] as u32), encode_utf8(s.drop_first()));
        assert(encode_utf8(s) == encode_scalar(s[0] as u32) + encode_utf8(s.drop_first()));
        let head = seq![s[0]];
        assert(s =~= head + s.drop_first());
        lemma_line_breaks_concat(head, s.drop_first());
        assert(head.drop_last() =~= Seq::<char>::empty());
        assert(line_breaks(head.drop_last()) == 0);
        assert(head.last() == s[0]);
        assert(line_breaks(head) == if s[0] == '\n' {
            1nat
        } else {
            0nat
        });
        assert(line_breaks(s) == line_breaks(head) + line_breaks(s.drop_first()));
    }
}

/// `n` newlines are `n` line breaks.
proof fn lemma_newlines_line_breaks(n: nat)
    ensures
        line_breaks(newlines(n)) == n,
    decreases n,
{
    if n > 0 {
        lemma_newlines_line_breaks((n - 1) as nat);
        assert(newlines(n).drop_last() =~= newlines((n - 1) as nat));
    }
}

/// A text none of whose characters is `\n` has no line break.
pub proof fn lemma_no_line_breaks(s: Seq<char>)
    requires
        forall|i: int| 0 <= i < s.len() ==> s[i] != '\n',
    ensures
        line_breaks(s) == 0,
    decreases s.len(),
{
    if s.len() > 0 {
        lemma_no_line_breaks(s.drop_last());
    }
}

/// The loader call's only line breaks are its padding.
proof fn lemma_loader_call_line_breaks(prefix: Seq<char>, arg: Seq<char>, nl: nat)
    requires
        line_breaks(prefix) == 0,
        line_breaks(arg) == 0,
    ensures
        newline_count(encode_utf8(loader_call(prefix, arg, nl))) == nl,
{
    reveal_strlit("require(");
    reveal_strlit(")");
    lemma_no_line_breaks("require("@);
    lemma_no_line_breaks(")"@);
    lemma_newlines_line_breaks(nl);
    lemma_line_breaks_concat(prefix, "require("@);
    lemma_line_breaks_concat(prefix + "require("@, arg);
    lemma_line_breaks_concat(prefix + "require("@ + arg, newlines(nl));
    lemma_line_breaks_concat(prefix + "require("@ + arg + newlines(nl), ")"@);
    lemma_encoded_line_breaks(loader_call(prefix, arg, nl));
}

proof fn lemma_call_edits_keep_line_breaks(
    src: Seq<u8>,
    deps: Seq<Dependency>,
    args: Seq<Seq<char>>,
    prefix: Seq<char>,
    k: nat,
)
    requires
        k <= deps.len() <= args.len(),
        line_breaks(prefix) == 0,
        forall|i: int| 0 <= i < args.len() ==> line_breaks(#[trigger] args[i]) == 0,
    ensures
        forall|i: int|
            0 <= i < call_edits(src, deps, args, prefix, k).len() ==> keeps_line_breaks(
                src,
                #[trigger] call_edits(src, deps, args, prefix, k)[i],
            ),
    decreases k,
{
    if k > 0 {
        lemma_call_edits_keep_line_breaks(src, deps, args, prefix, (k - 1) as nat);
        let rest = call_edits(src, deps, args, prefix, (k - 1) as nat);
        let all = call_edits(src, deps, args, prefix, k);
        let span = deps[k - 1].call_span;
        let nl = newline_count(src.subrange(span.start as int, span.end as int));
        lemma_loader_call_line_breaks(prefix, args[k - 1], nl);
        assert forall|i: int| 0 <= i < all.len() implies keeps_line_breaks(src, #[trigger] all[i]) by {
            if i < rest.len() {
                assert(all[i] == rest[i]);
            }
        }
    }
}

proof fn lemma_dynamic_edits_keep_line_breaks(src: Seq<u8>, callees: Seq<Range<usize>>, prefix: Seq<char>, k: nat)
    requires
        k <= callees.len(),
        line_breaks(prefix) == 0,
        forall|j: int|
            0 <= j < callees.len() && span_in(src.len() as int, #[trigger] callees[j]) ==> newline_count(
                src.subrange(callees[j].start as int, callees[j].end as int),
            ) == 0,
    ensures
        forall|i: int|
            0 <= i < dynamic_edits(src, callees, prefix, k).len() ==> keeps_line_breaks(
                src,
                #[trigger] dynamic_edits(src, callees, prefix, k)[i],
            ),
    decreases k,
{
    if k > 0 {
        lemma_dynamic_edits_keep_line_breaks(src, callees, prefix, (k - 1) as nat);
        let rest = dynamic_edits(src, callees, prefix, (k - 1) as nat);
        let all = dynamic_edits(src, callees, prefix, k);
        reveal_strlit("dynamic");
        lemma_no_line_breaks("dynamic"@);
        lemma_line_breaks_concat(prefix, "dynamic"@);
        lemma_encoded_line_breaks(prefix + "dynamic"@);
        assert forall|i: int| 0 <= i < all.len() implies keeps_line_breaks(src, #[trigger] all[i]) by {
            if i < rest.len() {
                assert(all[i] == rest[i]);
            }
        }
    }
}

proof fn lemma_export_edits_keep_line_breaks(src: Seq<u8>, exports: Seq<ExportDecl>, k: nat)
    requires
        k <= exports.len(),
        forall|j: int| 0 <= j < exports.len() ==> keeps_line_breaks(src, #[trigger] export_edit(exports[j])),
    ensures
        forall|i: int|
            0 <= i < export_edits(exports, k).len() ==> keeps_line_breaks(src, #[trigger] export_edits(exports, k)[i]),
    decreases k,
{
    if k > 0 {
        lemma_export_edits_keep_line_breaks(src, exports, (k - 1) as nat);
        let rest = export_edits(exports, (k - 1) as nat);
        let all = export_edits(exports, k);
        assert(keeps_line_breaks(src, export_edit(exports[k - 1])));
        assert forall|i: int| 0 <= i < all.len() implies keeps_line_breaks(src, #[trigger] all[i]) by {
            if i < rest.len() {
                assert(all[i] == rest[i]);
            }
        }
    }
}

/// Rewriting a module body keeps every source line at its number: when
/// the loader prefix and the require arguments hold no line break, no
/// dynamic `require` callee spans one, each export edit keeps the line
/// breaks it replaces, and the edits do not overlap, the spliced body has
/// exactly the line breaks of the source; so has the whole rewritten body
/// when no frozen export table follows it.
pub proof fn law_rewrite_keeps_line_count(
    src: Seq<u8>,
    deps: Seq<Dependency>,
    args: Seq<Seq<char>>,
    callees: Seq<Range<usize>>,
    prefix: Seq<char>,
    version: LuaVersion,
    exports: Seq<ExportDecl>,
)
    requires
        deps.len() == args.len(),
        line_breaks(prefix) == 0,
        forall|i: int| 0 <= i < args.len() ==> line_breaks(#[trigger] args[i]) == 0,
        forall|j: int|
            0 <= j < callees.len() && span_in(src.len() as int, #[trigger] callees[j]) ==> newline_count(
                src.subrange(callees[j].start as int, callees[j].end as int),
            ) == 0,
        version.spec_has_value_exports() ==> forall|j: int|
            0 <= j < exports.len() ==> keeps_line_breaks(src, #[trigger] export_edit(exports[j])),
        edits_disjoint(src.len() as int, sort_by_start(body_edits(src, deps, args, callees, prefix, version, exports))),
    ensures
        newline_count(splice(src, sort_by_start(body_edits(src, deps, args, callees, prefix, version, exports))))
            == newline_count(src),
        !version.spec_has_value_exports() || export_names(exports, exports.len()).len() == 0 ==> newline_count(
            rewritten_body(src, deps, args, callees, prefix, version, exports),
        ) == newline_count(src),
{
    let calls = call_edits(src, deps, args, prefix, deps.len());
    let dynamic = dynamic_edits(src, callees, prefix, callees.len());
    let lowered = if version.spec_has_value_exports() {
        export_edits(exports, exports.len())
    } else {
        Seq::empty()
    };
    lemma_call_edits_keep_line_breaks(src, deps, args, prefix, deps.len());
    lemma_dynamic_edits_keep_line_breaks(src, callees, prefix, callees.len());
    if version.spec_has_value_exports() {
        lemma_export_edits_keep_line_breaks(src, exports, exports.len());
    }
    let edits = body_edits(src, deps, args, callees, prefix, version, exports);
    assert(edits == calls + dynamic + lowered);
    assert forall|i: int| 0 <= i < edits.len() implies keeps_line_breaks(src, #[trigger] edits[i]) by {
        if i < calls.len() {
            assert(edits[i] == calls[i]);
        } else if i < calls.len() + dynamic.len() {
            assert(edits[i] == dynamic[i - calls.len()]);
        } else {
            assert(edits[i] == lowered[i - calls.len() - dynamic.len()]);
        }
    }
    let sorted = sort_by_start(edits);
    assert forall|i: int| 0 <= i < sorted.len() implies keeps_line_breaks(src, #[trigger] sorted[i]) by {
        assert(sorted.contains(sorted[i]));
        lemma_sort_by_start_elements(edits, sorted[i]);
        let j = choose|j: int| 0 <= j < edits.len() && edits[j] == sorted[i];
        assert(keeps_line_breaks(src, edits[j]));
    }
    law_splice_keeps_line_count(src, sorted);
}

/// Every edit of the rewrite falls on character boundaries and inserts
/// valid UTF-8.
proof fn lemma_body_edits_fit(
    src: Seq<u8>,
    deps: Seq<Dependency>,
    args: Seq<Seq<char>>,
    callees: Seq<Range<usize>>,
    prefix: Seq<char>,
    version: LuaVersion,
    exports: Seq<ExportDecl>,
)
    requires
        rewrite_admissible(src, deps, callees, version, exports),
        deps.len() <= args.len(),
    ensures
        forall|i: int|
            0 <= i < body_edits(src, deps, args, callees, prefix, version, exports).len() ==> edit_on_boundaries(
                src,
                #[trigger] body_edits(src, deps, args, callees, prefix, version, exports)[i],
            ) && valid_utf8(body_edits(src, deps, args, callees, prefix, version, exports)[i].2),
{
    broadcast use encode_utf8_valid_utf8;

    let calls = call_edits(src, deps, args, prefix, deps.len());
    let dynamic = dynamic_edits(src, callees, prefix, callees.len());
    let lowered = if version.spec_has_value_exports() {
        export_edits(exports, exports.len())
    } else {
        Seq::empty()
    };
    lemma_call_edits_fit(src, deps, args, prefix, deps.len());
    lemma_dynamic_edits_fit(src, callees, prefix, callees.len());
    if version.spec_has_value_exports() {
        lemma_export_edits_fit(src, exports, exports.len());
    }
    let edits = body_edits(src, deps, args, callees, prefix, version, exports);
    assert(edits == calls + dynamic + lowered);
    assert forall|i: int| 0 <= i < edits.len() implies edit_on_boundaries(src, #[trigger] edits[i]) && valid_utf8(
        edits[i].2,
    ) by {
        if i < calls.len() {
            assert(edits[i] == calls[i]);
        } else if i < calls.len() + dynamic.len() {
            assert(edits[i] == dynamic[i - calls.len()]);
        } else {
            assert(edits[i] == lowered[i - calls.len() - dynamic.len()]);
        }
    }
}

proof fn lemma_call_edits_fit(src: Seq<u8>, deps: Seq<Dependency>, args: Seq<Seq<char>>, prefix: Seq<char>, k: nat)
    requires
        k <= deps.len() <= args.len(),
        forall|j: int|
            0 <= j < deps.len() && span_in(src.len() as int, #[trigger] deps[j].call_span) ==> is_char_boundary(
                src,
                deps[j].call_span.start as int,
            ) && is_char_boundary(src, deps[j].call_span.end as int),
    ensures
        forall|i: int|
            0 <= i < call_edits(src, deps, args, prefix, k).len() ==> edit_on_boundaries(
                src,
                #[trigger] call_edits(src, deps, args, prefix, k)[i],
            ) && valid_utf8(call_edits(src, deps, args, prefix, k)[i].2),
    decreases k,
{
    broadcast use encode_utf8_valid_utf8;

    if k > 0 {
        lemma_call_edits_fit(src, deps, args, prefix, (k - 1) as nat);
        let rest = call_edits(src, deps, args, prefix, (k - 1) as nat);
        let all = call_edits(src, deps, args, prefix, k);
        assert forall|i: int| 0 <= i < all.len() implies edit_on_boundaries(src, #[trigger] all[i]) && valid_utf8(
            all[i].2,
        ) by {
            if i < rest.len() {
                assert(all[i] == rest[i]);
            }
        }
    }
}

proof fn lemma_dynamic_edits_fit(src: Seq<u8>, callees: Seq<Range<usize>>, prefix: Seq<char>, k: nat)
    requires
        k <= callees.len(),
        forall|j: int|
            0 <= j < callees.len() && span_in(src.len() as int, #[trigger] callees[j]) ==> is_char_boundary(
                src,
                callees[j].start as int,
            ) && is_char_boundary(src, callees[j].end as int),
    ensures
        forall|i: int|
            0 <= i < dynamic_edits(src, callees, prefix, k).len() ==> edit_on_boundaries(
                src,
                #[trigger] dynamic_edits(src, callees, prefix, k)[i],
            ) && valid_utf8(dynamic_edits(src, callees, prefix, k)[i].2),
    decreases k,
{
    broadcast use encode_utf8_valid_utf8;

    if k > 0 {
        lemma_dynamic_edits_fit(src, callees, prefix, (k - 1) as nat);
        let rest = dynamic_edits(src, callees, prefix, (k - 1) as nat);
        let all = dynamic_edits(src, callees, prefix, k);
        assert forall|i: int| 0 <= i < all.len() implies edit_on_boundaries(src, #[trigger] all[i]) && valid_utf8(
            all[i].2,
        ) by {
            if i < rest.len() {
                assert(all[i] == rest[i]);
            }
        }
    }
}

proof fn lemma_export_edits_fit(src: Seq<u8>, exports: Seq<ExportDecl>, k: nat)
    requires
        k <= exports.len(),
        forall|j: int| 0 <= j < exports.len() ==> edit_on_boundaries(src, #[trigger] export_edit(exports[j])),
    ensures
        forall|i: int|
            0 <= i < export_edits(exports, k).len() ==> edit_on_boundaries(src, #[trigger] export_edits(exports, k)[i])
                && valid_utf8(export_edits(exports, k)[i].2),
    decreases k,
{
    broadcast use encode_utf8_valid_utf8;

    if k > 0 {
        lemma_export_edits_fit(src, exports, (k - 1) as nat);
        let rest = export_edits(exports, (k - 1) as nat);
        let all = export_edits(exports, k);
        assert(edit_on_boundaries(src, export_edit(exports[k - 1])));
        assert(valid_utf8(Seq::<u8>::empty())) by {
            reveal_with_fuel(valid_utf8, 1);
        }
        assert forall|i: int| 0 <= i < all.len() implies edit_on_boundaries(src, #[trigger] all[i]) && valid_utf8(
            all[i].2,
        ) by {
            if i < rest.len() {
                assert(all[i] == rest[i]);
            }
        }
    }
}

/// The rewrite keeps every source line, as characters: under the
/// conditions of [`law_rewrite_keeps_line_count`], on an admissible rewrite
/// with no frozen export table, the rewritten body is valid UTF-8 whose
/// text has exactly the line breaks of `source`.
pub proof fn law_rewrite_keeps_source_lines(
    source: Seq<char>,
    deps: Seq<Dependency>,
    args: Seq<Seq<char>>,
    callees: Seq<Range<usize>>,
    prefix: Seq<char>,
    version: LuaVersion,
    exports: Seq<ExportDecl>,
)
    requires
        rewrite_admissible(encode_utf8(source), deps, callees, version, exports),
        deps.len() == args.len(),
        line_breaks(prefix) == 0,
        forall|i: int| 0 <= i < args.len() ==> line_breaks(#[trigger] args[i]) == 0,
        forall|j: int|
            0 <= j < callees.len() && span_in(encode_utf8(source).len() as int, #[trigger] callees[j]) ==> newline_count(
                encode_utf8(source).subrange(callees[j].start as int, callees[j].end as int),
            ) == 0,
        version.spec_has_value_exports() ==> forall|j: int|
            0 <= j < exports.len() ==> keeps_line_breaks(encode_utf8(source), #[trigger] export_edit(exports[j])),
        edits_disjoint(
            encode_utf8(source).len() as int,
            sort_by_start(body_edits(encode_utf8(source), deps, args, callees, prefix, version, exports)),
        ),
        !version.spec_has_value_exports() || export_names(exports, exports.len()).len() == 0,
    ensures
        valid_utf8(rewritten_body(encode_utf8(source), deps, args, callees, prefix, version, exports)),
        line_breaks(decode_utf8(rewritten_body(encode_utf8(source), deps, args, callees, prefix, version, exports)))
            == line_breaks(source),
{
    let src = encode_utf8(source);
    encode_utf8_valid_utf8(source);
    law_rewrite_keeps_line_count(src, deps, args, callees, prefix, version, exports);
    lemma_body_edits_fit(src, deps, args, callees, prefix, version, exports);
    let edits = body_edits(src, deps, args, callees, prefix, version, exports);
    let sorted = sort_by_start(edits);
    lemma_sort_keeps_boundaries(src, edits);
    assert forall|i: int|
        0 <= i < sorted.len() implies is_char_boundary(src, (#[trigger] sorted[i]).0) && is_char_boundary(src, sorted[i].1)
            && valid_utf8(sorted[i].2) by {
        assert(edit_on_boundaries(src, sorted[i]));
        assert(sorted.contains(sorted[i]));
        lemma_sort_by_start_elements(edits, sorted[i]);
        let j = choose|j: int| 0 <= j < edits.len() && edits[j] == sorted[i];
        assert(valid_utf8(edits[j].2));
    }
    lemma_splice_valid(src, sorted);
    let body = rewritten_body(src, deps, args, callees, prefix, version, exports);
    assert(body == splice(src, sorted));
    decode_utf8_encode_utf8(body);
    lemma_encoded_line_breaks(decode_utf8(body));
    lemma_encoded_line_breaks(source);
}

/// Rewriting a module body keeps the untouched source text in order: when
/// the edits do not overlap, the rewritten body holds each stretch of the
/// source between edits, and each edit's text, in source order, each moved
/// by the length change of the edits before it (a frozen export table, if
/// any, only follows them).
pub proof fn law_rewrite_keeps_untouched_text(
    src: Seq<u8>,
    deps: Seq<Dependency>,
    args: Seq<Seq<char>>,
    callees: Seq<Range<usize>>,
    prefix: Seq<char>,
    version: LuaVersion,
    exports: Seq<ExportDecl>,
)
    requires
        edits_disjoint(src.len() as int, sort_by_start(body_edits(src, deps, args, callees, prefix, version, exports))),
    ensures
        keeps_untouched(
            src,
            sort_by_start(body_edits(src, deps, args, callees, prefix, version, exports)),
            0,
            rewritten_body(src, deps, args, callees, prefix, version, exports),
        ),
{
    let edits = sort_by_start(body_edits(src, deps, args, callees, prefix, version, exports));
    let spliced = splice(src, edits);
    let body = rewritten_body(src, deps, args, callees, prefix, version, exports);
    law_splice_keeps_untouched_text(src, edits);
    crate::splice::lemma_splice_places_fit(src, edits);
    assert(body.take(spliced.len() as int) =~= spliced);
    assert forall|i: int|
        0 <= i <= edits.len() implies #[trigger] body.subrange(
        gap_start(edits, 0, i) - 0 + shift(edits, i),
        gap_end(src, edits, i) - 0 + shift(edits, i),
    ) == src.subrange(gap_start(edits, 0, i), gap_end(src, edits, i)) by {
        let a = gap_start(edits, 0, i) - 0 + shift(edits, i);
        let b = gap_end(src, edits, i) - 0 + shift(edits, i);
        assert(spliced.subrange(a, b) == src.subrange(gap_start(edits, 0, i), gap_end(src, edits, i)));
        assert(body.subrange(a, b) =~= spliced.subrange(a, b));
    }
    assert forall|i: int|
        0 <= i < edits.len() implies #[trigger] body.subrange(
        edits[i].0 - 0 + shift(edits, i),
        edits[i].0 - 0 + shift(edits, i) + edits[i].2.len(),
    ) == edits[i].2 by {
        let a = edits[i].0 - 0 + shift(edits, i);
        assert(spliced.subrange(a, a + edits[i].2.len()) == edits[i].2);
        assert(body.subrange(a, a + edits[i].2.len()) =~= spliced.subrange(a, a + edits[i].2.len()));
    }
}

proof fn lemma_export_edits_hold(exports: Seq<ExportDecl>, n: nat, k: int)
    requires
        0 <= k < n <= exports.len(),
    ensures
        export_edits(exports, n).contains(export_edit(exports[k])),
    decreases n,
{
    let prev = export_edits(exports, (n - 1) as nat);
    if k == n - 1 {
        assert(export_edits(exports, n)[prev.len() as int] == export_edit(exports[k]));
    } else {
        lemma_export_edits_hold(exports, (n - 1) as nat, k);
        let j = choose|j: int| 0 <= j < prev.len() && prev[j] == export_edit(exports[k]);
        assert(export_edits(exports, n)[j] == export_edit(exports[k]));
    }
}

/// Lowering an exported function that carries no attributes replaces its
/// `export` keyword by `local`: where the keyword stood (moved by the
/// length change of the edits before it), the rewritten body holds `local`,
/// directly followed by the source text after the keyword, so the body
/// declares `local function name`, never a global function.
pub proof fn law_export_function_becomes_local(
    src: Seq<u8>,
    deps: Seq<Dependency>,
    args: Seq<Seq<char>>,
    callees: Seq<Range<usize>>,
    prefix: Seq<char>,
    version: LuaVersion,
    exports: Seq<ExportDecl>,
    k: int,
)
    requires
        edits_disjoint(src.len() as int, sort_by_start(body_edits(src, deps, args, callees, prefix, version, exports))),
        version.spec_has_value_exports(),
        0 <= k < exports.len(),
    ensures
        exports[k] matches ExportDecl::Function { start, last_attribute_end: None, .. } ==> ({
            let sorted = sort_by_start(body_edits(src, deps, args, callees, prefix, version, exports));
            let body = rewritten_body(src, deps, args, callees, prefix, version, exports);
            exists|i: int|
                0 <= i < sorted.len() && #[trigger] sorted[i].0 == start && body.subrange(
                    start + shift(sorted, i),
                    start + shift(sorted, i) + 5,
                ) == encode_utf8("local"@) && body.subrange(
                    start + shift(sorted, i) + 5,
                    gap_end(src, sorted, i + 1) + shift(sorted, i) - 1,
                ) == src.subrange(start + 6, gap_end(src, sorted, i + 1))
        }),
{
    if let ExportDecl::Function { start, last_attribute_end: None, .. } = exports[k] {
        let edits = body_edits(src, deps, args, callees, prefix, version, exports);
        let sorted = sort_by_start(edits);
        let body = rewritten_body(src, deps, args, callees, prefix, version, exports);
        let e = export_edit(exports[k]);
        assert(e == (start as int, start + 6, encode_utf8("local"@)));
        lemma_export_edits_hold(exports, exports.len(), k);
        let pre = call_edits(src, deps, args, prefix, deps.len()) + dynamic_edits(src, callees, prefix, callees.len());
        let ex = export_edits(exports, exports.len());
        assert(edits == pre + ex);
        let j = choose|j: int| 0 <= j < ex.len() && ex[j] == e;
        assert(edits[pre.len() + j] == e);
        assert(edits.contains(e));
        lemma_sort_by_start_keeps(edits, e);
        let i = choose|i: int| 0 <= i < sorted.len() && sorted[i] == e;
        law_rewrite_keeps_untouched_text(src, deps, args, callees, prefix, version, exports);
        lemma_shift_step(sorted, i);
        assert(body.subrange(
            sorted[i].0 - 0 + shift(sorted, i),
            sorted[i].0 - 0 + shift(sorted, i) + sorted[i].2.len(),
        ) == sorted[i].2);
        assert(body.subrange(
            gap_start(sorted, 0, i + 1) - 0 + shift(sorted, i + 1),
            gap_end(src, sorted, i + 1) - 0 + shift(sorted, i + 1),
        ) == src.subrange(gap_start(sorted, 0, i + 1), gap_end(src, sorted, i + 1)));
        reveal_strlit("local");
        assert(encode_utf8("local"@).len() == 5) by {
            reveal_with_fuel(encode_utf8, 6);
            assert("local"@ =~= seq!['l', 'o', 'c', 'a', 'l']);
        }
        assert(sorted[i].0 == start);
    }
}

} // verus!
