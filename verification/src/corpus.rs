//! Where the benchmark inputs come from: the pinned mirror of single
//! files, the pinned upstream project tarballs and the paths they extract
//! to, and the generated multi-module require graph.

use vstd::prelude::*;
use crate::cli::{join_lines, joined_lines};
use crate::text::{decimal, push_decimal, push_str};

verus! {

/// The mirror of real-world single files, pinned to a commit.
pub const CORPUS_URL_BASE: &'static str = "https://raw.githubusercontent.com/esoware/luck-bench-corpus/9188b121d704c7fb2d0b2cd29e891bff0e57c384";

/// Roblox/roact v1.4.4.
pub const ROACT_SHA: &'static str = "956891b70fdc5410e44e9664719cd0a9f7e6fabd";

/// lunarmodules/Penlight 1.15.0.
pub const PENLIGHT_SHA: &'static str = "e0bc8f7fce3b6a4fdef3660066f5006bf8456b32";

/// Modules in the generated require graph.
pub const MODULE_COUNT: usize = 40;

/// `base` joined with the relative path `name`, as `Path::join` does on a
/// Unix path: a `/` between them unless `base` is empty or ends in one.
pub open spec fn joined_path(base: Seq<char>, name: Seq<char>) -> Seq<char> {
    if base.len() == 0 || base.last() == '/' {
        base + name
    } else {
        base + seq!['/'] + name
    }
}

/// `base` joined with the relative path `name`.
pub fn join_path(base: &str, name: &str) -> (path: String)
    ensures
        path@ == joined_path(base@, name@),
{
    let chars = crate::text::chars_of(base);
    let mut path = String::new();
    push_str(&mut path, base);
    if chars.len() > 0 && chars[chars.len() - 1] != '/' {
        crate::text::push_char(&mut path, '/');
    }
    push_str(&mut path, name);
    path
}

/// The URL of the mirrored corpus file `file_name`.
pub fn corpus_file_url(file_name: &str) -> (url: String)
    ensures
        url@ == CORPUS_URL_BASE@ + "/"@ + file_name@,
{
    let mut url = String::new();
    push_str(&mut url, CORPUS_URL_BASE);
    push_str(&mut url, "/");
    push_str(&mut url, file_name);
    url
}

/// The URL of the tarball of GitHub repository `owner_repo` at commit `sha`.
pub fn tarball_url(owner_repo: &str, sha: &str) -> (url: String)
    ensures
        url@ == "https://codeload.github.com/"@ + owner_repo@ + "/tar.gz/"@ + sha@,
{
    let mut url = String::new();
    push_str(&mut url, "https://codeload.github.com/");
    push_str(&mut url, owner_repo);
    push_str(&mut url, "/tar.gz/");
    push_str(&mut url, sha);
    url
}

/// The directory a GitHub tarball of `repo` at `sha` extracts to.
pub fn tarball_top_level(repo: &str, sha: &str) -> (name: String)
    ensures
        name@ == repo@ + "-"@ + sha@,
{
    let mut name = String::new();
    push_str(&mut name, repo);
    push_str(&mut name, "-");
    push_str(&mut name, sha);
    name
}

/// The Penlight extraction root under the corpus cache `cache_dir`, for
/// consumers that resolve files on disk.
pub fn penlight_root(cache_dir: &str) -> (root: String)
    ensures
        root@ == joined_path(cache_dir@, "Penlight"@ + "-"@ + PENLIGHT_SHA@),
{
    let top = tarball_top_level("Penlight", PENLIGHT_SHA);
    join_path(cache_dir, top.as_str())
}

/// The require line for module `dep` of the generated graph.
pub open spec fn require_line(dep: nat) -> Seq<char> {
    "local dep"@ + decimal(dep) + " = require(\"lib.mod"@ + decimal(dep) + "\")\n"@
}

/// The requires heading module `index` of the generated graph: modules
/// `index + 1` and `index + 3`, those of them that exist, which makes the
/// graph a chain of diamonds.
pub open spec fn module_requires(index: nat) -> Seq<char> {
    (if index + 1 < MODULE_COUNT {
        require_line(index + 1)
    } else {
        Seq::empty()
    }) + if index + 3 < MODULE_COUNT {
        require_line(index + 3)
    } else {
        Seq::empty()
    }
}

/// The requires heading module `index` of the generated graph.
pub fn bundle_module_requires(index: usize) -> (text: String)
    requires
        index < MODULE_COUNT,
    ensures
        text@ == module_requires(index as nat),
{
    let mut text = String::new();
    let offsets: [usize; 2] = [1, 3];
    let mut k: usize = 0;
    let ghost mut done: Seq<char> = Seq::empty();
    while k < 2
        invariant
            index < MODULE_COUNT,
            offsets@ == seq![1usize, 3usize],
            k <= 2,
            text@ == (if k >= 1 && index + 1 < MODULE_COUNT {
                require_line((index + 1) as nat)
            } else {
                Seq::empty()
            }) + (if k >= 2 && index + 3 < MODULE_COUNT {
                require_line((index + 3) as nat)
            } else {
                Seq::empty()
            }),
        decreases 2 - k,
    {
        let dep = index + offsets[k];
        let ghost before = text@;
        if dep < MODULE_COUNT {
            push_str(&mut text, "local dep");
            push_decimal(&mut text, dep);
            push_str(&mut text, " = require(\"lib.mod");
            push_decimal(&mut text, dep);
            push_str(&mut text, "\")\n");
            proof {
                assert(text@ =~= before + require_line(dep as nat));
            }
        }
        proof {
            if k == 0 {
                assert(Seq::<char>::empty() + Seq::<char>::empty() =~= Seq::<char>::empty());
            }
            assert(text@ =~= (if k + 1 >= 1 && index + 1 < MODULE_COUNT {
                require_line((index + 1) as nat)
            } else {
                Seq::empty()
            }) + (if k + 1 >= 2 && index + 3 < MODULE_COUNT {
                require_line((index + 3) as nat)
            } else {
                Seq::empty()
            }));
        }
        k += 1;
    }
    text
}

/// The entry module of the generated graph.
pub fn bundle_entry_source() -> (text: &'static str)
    ensures
        text@ == "local root = require(\"lib.mod0\")\nreturn root\n"@,
{
    "local root = require(\"lib.mod0\")\nreturn root\n"
}

/// A fixture wrapped in a `do ... end` block of its own.
pub open spec fn wrapped_fixture(fixture: Seq<char>) -> Seq<char> {
    "do\n"@ + fixture + "\nend\n"@
}

/// The idiomatic-code benchmark input: each fixture in a `do ... end`
/// block of its own, the blocks separated by a newline.
pub fn idiomatic(fixtures: &Vec<&str>) -> (text: String)
    ensures
        text@ == joined_lines(fixtures@.map_values(|f: &str| wrapped_fixture(f@))),
{
    let mut blocks: Vec<String> = Vec::new();
    let mut i: usize = 0;
    while i < fixtures.len()
        invariant
            i <= fixtures@.len(),
            blocks@.map_values(|b: String| b@) == fixtures@.take(i as int).map_values(|f: &str| wrapped_fixture(f@)),
        decreases fixtures@.len() - i,
    {
        let mut block = String::new();
        push_str(&mut block, "do\n");
        push_str(&mut block, fixtures[i]);
        push_str(&mut block, "\nend\n");
        let ghost before = blocks@;
        blocks.push(block);
        proof {
            assert(blocks@.map_values(|b: String| b@) =~= before.map_values(|b: String| b@).push(
                wrapped_fixture(fixtures@[i as int]@),
            ));
            assert(fixtures@.take(i + 1).map_values(|f: &str| wrapped_fixture(f@)) =~= fixtures@.take(
                i as int,
            ).map_values(|f: &str| wrapped_fixture(f@)).push(wrapped_fixture(fixtures@[i as int]@)));
        }
        i += 1;
    }
    proof {
        assert(fixtures@.take(i as int) =~= fixtures@);
    }
    join_lines(&blocks)
}

} // verus!
