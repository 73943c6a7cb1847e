//! The identifier prefix shared by every name a bundle's loader defines:
//! the first of `__luck_`, `__luck1_`, `__luck2_`, ... that occurs in no
//! module source, so user code can never capture or shadow the loader.

use vstd::prelude::*;
use vstd::set_lib::*;
use crate::module::ModuleInfo;
use crate::text::{chars_of, decimal, digit_char, lemma_decimal_digits, occurs_at, occurs_in, push_char, push_decimal, push_str};

verus! {

/// The part every candidate prefix starts with.
pub open spec fn prefix_stem() -> Seq<char> {
    seq!['_', '_', 'l', 'u', 'c', 'k']
}

/// The `k`-th prefix tried: `__luck_` first, then `__luck1_`, `__luck2_`, ...
pub open spec fn prefix_candidate(k: nat) -> Seq<char> {
    if k == 0 {
        prefix_stem().push('_')
    } else {
        prefix_stem() + decimal(k) + seq!['_']
    }
}

/// The module sources, as characters.
pub open spec fn sources_of(modules: Seq<ModuleInfo>) -> Seq<Seq<char>> {
    modules.map_values(|m: ModuleInfo| m.source@)
}

/// `needle` occurs in at least one of `sources`.
pub open spec fn in_some_source(sources: Seq<Seq<char>>, needle: Seq<char>) -> bool {
    exists|m: int| 0 <= m < sources.len() && occurs_in(#[trigger] sources[m], needle)
}

/// Candidate `k` is the chosen prefix: it occurs in no source, and every
/// earlier candidate occurs in some source.
pub open spec fn is_chosen_prefix(sources: Seq<Seq<char>>, k: nat) -> bool {
    &&& !in_some_source(sources, prefix_candidate(k))
    &&& forall|j: nat| j < k ==> in_some_source(sources, #[trigger] prefix_candidate(j))
}

/// The index of the chosen prefix.
pub open spec fn prefix_index(sources: Seq<Seq<char>>) -> nat {
    choose|k: nat| is_chosen_prefix(sources, k)
}

/// The prefix a bundle of modules with `sources` uses.
pub open spec fn bundle_prefix(sources: Seq<Seq<char>>) -> Seq<char> {
    prefix_candidate(prefix_index(sources))
}

/// At most one candidate is the chosen one.
pub proof fn lemma_chosen_prefix_unique(sources: Seq<Seq<char>>, a: nat, b: nat)
    requires
        is_chosen_prefix(sources, a),
        is_chosen_prefix(sources, b),
    ensures
        a == b,
{
    if a < b {
        assert(in_some_source(sources, prefix_candidate(a)));
    } else if b < a {
        assert(in_some_source(sources, prefix_candidate(b)));
    }
}

/// Total number of characters in `sources`.
pub open spec fn total_len(sources: Seq<Seq<char>>) -> nat
    decreases sources.len(),
{
    if sources.len() == 0 {
        0
    } else {
        total_len(sources.drop_last()) + sources.last().len()
    }
}

/// Position of character `i` of source `m` when the sources are laid end
/// to end.
spec fn flat_pos(sources: Seq<Seq<char>>, m: int, i: int) -> int {
    total_len(sources.take(m)) + i
}

proof fn lemma_total_len_take(sources: Seq<Seq<char>>, a: int, b: int)
    requires
        0 <= a <= b <= sources.len(),
    ensures
        total_len(sources.take(a)) <= total_len(sources.take(b)),
        b == a + 1 ==> total_len(sources.take(b)) == total_len(sources.take(a)) + sources[a].len(),
    decreases b - a,
{
    if a < b {
        lemma_total_len_take(sources, a, b - 1);
        assert(sources.take(b).drop_last() =~= sources.take(b - 1));
    }
}

/// Distinct characters of distinct sources land on distinct positions, all
/// below the total length.
proof fn lemma_flat_pos(sources: Seq<Seq<char>>, m1: int, i1: int, m2: int, i2: int)
    requires
        0 <= m1 < sources.len(),
        0 <= i1 < sources[m1].len(),
        0 <= m2 < sources.len(),
        0 <= i2 < sources[m2].len(),
    ensures
        0 <= flat_pos(sources, m1, i1) < total_len(sources),
        flat_pos(sources, m1, i1) == flat_pos(sources, m2, i2) ==> m1 == m2 && i1 == i2,
{
    assert(sources.take(sources.len() as int) =~= sources);
    lemma_total_len_take(sources, 0, m1);
    assert(sources.take(0) =~= Seq::<Seq<char>>::empty());
    lemma_total_len_take(sources, m1, m1 + 1);
    lemma_total_len_take(sources, m1 + 1, sources.len() as int);
    lemma_total_len_take(sources, m2, m2 + 1);
    if m1 < m2 {
        lemma_total_len_take(sources, m1 + 1, m2);
    } else if m2 < m1 {
        lemma_total_len_take(sources, m2 + 1, m1);
    }
}

proof fn lemma_decimal_injective(a: nat, b: nat)
    requires
        decimal(a) == decimal(b),
    ensures
        a == b,
    decreases a,
{
    if a < 10 && b < 10 {
        assert(decimal(a)[0] == digit_char(a));
    } else if a < 10 {
        lemma_decimal_digits(b / 10);
        assert(decimal(b).len() >= 2);
    } else if b < 10 {
        lemma_decimal_digits(a / 10);
        assert(decimal(a).len() >= 2);
    } else {
        assert(decimal(a).drop_last() =~= decimal(a / 10));
        assert(decimal(b).drop_last() =~= decimal(b / 10));
        lemma_decimal_injective(a / 10, b / 10);
        assert(decimal(a).last() == digit_char(a % 10));
        assert(decimal(b).last() == digit_char(b % 10));
        assert((digit_char(a % 10) as u32) == 48 + a % 10);
        assert((digit_char(b % 10) as u32) == 48 + b % 10);
    }
}

/// What follows the stem in candidate `k`: digits, then one `_`.
proof fn lemma_candidate_tail(k: nat)
    ensures
        prefix_candidate(k).len() >= 7,
        prefix_candidate(k).subrange(0, 6) == prefix_stem(),
        prefix_candidate(k).last() == '_',
        forall|i: int| 6 <= i < prefix_candidate(k).len() - 1 ==> '0' <= #[trigger] prefix_candidate(k)[i] <= '9',
        k == 0 <==> prefix_candidate(k).len() == 7,
{
    if k > 0 {
        lemma_decimal_digits(k);
        let c = prefix_candidate(k);
        assert forall|i: int| 6 <= i < c.len() - 1 implies '0' <= #[trigger] c[i] <= '9' by {
            assert(c[i] == decimal(k)[i - 6]);
        }
        assert(c.subrange(0, 6) =~= prefix_stem());
    } else {
        assert(prefix_candidate(k).subrange(0, 6) =~= prefix_stem());
    }
}

/// At most one candidate starts at any one position of a text.
proof fn lemma_one_candidate_per_position(s: Seq<char>, a: nat, b: nat, i: int)
    requires
        occurs_at(s, prefix_candidate(a), i),
        occurs_at(s, prefix_candidate(b), i),
    ensures
        a == b,
{
    let ca = prefix_candidate(a);
    let cb = prefix_candidate(b);
    lemma_candidate_tail(a);
    lemma_candidate_tail(b);
    assert forall|j: int| 0 <= j < ca.len() implies ca[j] == s[i + j] by {
        assert(s.subrange(i, i + ca.len())[j] == s[i + j]);
    }
    assert forall|j: int| 0 <= j < cb.len() implies cb[j] == s[i + j] by {
        assert(s.subrange(i, i + cb.len())[j] == s[i + j]);
    }
    if ca.len() < cb.len() {
        assert(cb[ca.len() - 1] == ca[ca.len() - 1]);
        assert(false);
    } else if cb.len() < ca.len() {
        assert(ca[cb.len() - 1] == cb[cb.len() - 1]);
        assert(false);
    } else {
        assert(ca =~= cb);
        if a > 0 && b > 0 {
            assert(decimal(a) =~= ca.subrange(6, ca.len() - 1));
            assert(decimal(b) =~= cb.subrange(6, cb.len() - 1));
            lemma_decimal_injective(a, b);
        }
    }
}

/// Candidate `k`, as text.
fn candidate_text(k: usize) -> (text: String)
    ensures
        text@ == prefix_candidate(k as nat),
{
    let mut text = String::new();
    push_str(&mut text, "__luck");
    proof {
        reveal_strlit("__luck");
        assert(text@ =~= prefix_stem());
    }
    if k > 0 {
        push_decimal(&mut text, k);
    }
    push_char(&mut text, '_');
    proof {
        assert(text@ =~= prefix_candidate(k as nat));
    }
    text
}

/// Whether `needle` occurs in one of `hays`.
fn occurs_in_any(hays: &Vec<Vec<char>>, needle: &Vec<char>) -> (found: bool)
    ensures
        found == exists|m: int| 0 <= m < hays@.len() && occurs_in(#[trigger] hays@[m]@, needle@),
{
    let mut m: usize = 0;
    while m < hays.len()
        invariant
            m <= hays@.len(),
            forall|j: int| 0 <= j < m ==> !occurs_in(#[trigger] hays@[j]@, needle@),
        decreases hays@.len() - m,
    {
        if crate::text::contains_chars(&hays[m], needle) {
            return true;
        }
        m += 1;
    }
    false
}

/// Identifier prefix for every generated name, guaranteed absent from
/// all module sources so user code can never collide with the loader.
pub fn choose_prefix(modules: &Vec<ModuleInfo>) -> (prefix: String)
    requires
        total_len(sources_of(modules@)) < usize::MAX,
    ensures
        is_chosen_prefix(sources_of(modules@), prefix_index(sources_of(modules@))),
        prefix@ == bundle_prefix(sources_of(modules@)),
{
    let ghost sources = sources_of(modules@);
    let ghost total = total_len(sources);
    let mut hays: Vec<Vec<char>> = Vec::new();
    let mut m: usize = 0;
    while m < modules.len()
        invariant
            sources == sources_of(modules@),
            m <= modules@.len(),
            hays@.len() == m,
            forall|j: int| 0 <= j < m ==> (#[trigger] hays@[j])@ == sources[j],
        decreases modules@.len() - m,
    {
        hays.push(chars_of(modules[m].source.as_str()));
        m += 1;
    }
    let mut counter: usize = 0;
    let ghost mut wit: Seq<(int, int)> = Seq::empty();
    let ghost mut wpos: Seq<int> = Seq::empty();
    loop
        invariant
            sources == sources_of(modules@),
            total == total_len(sources),
            total < usize::MAX,
            hays@.len() == sources.len(),
            forall|j: int| 0 <= j < hays@.len() ==> (#[trigger] hays@[j])@ == sources[j],
            counter <= total,
            wit.len() == counter,
            wpos.len() == counter,
            wpos.no_duplicates(),
            forall|j: int|
                0 <= j < counter ==> {
                    &&& 0 <= (#[trigger] wit[j]).0 < sources.len()
                    &&& occurs_at(sources[wit[j].0], prefix_candidate(j as nat), wit[j].1)
                    &&& wpos[j] == flat_pos(sources, wit[j].0, wit[j].1)
                    &&& 0 <= wpos[j] < total
                },
            forall|j: nat| j < counter ==> in_some_source(sources, #[trigger] prefix_candidate(j)),
        decreases total - counter,
    {
        let candidate = candidate_text(counter);
        let needle = chars_of(candidate.as_str());
        if !occurs_in_any(&hays, &needle) {
            proof {
                assert(!in_some_source(sources, prefix_candidate(counter as nat))) by {
                    if in_some_source(sources, prefix_candidate(counter as nat)) {
                        let mm = choose|mm: int| 0 <= mm < sources.len() && occurs_in(#[trigger] sources[mm], prefix_candidate(counter as nat));
                        assert(occurs_in(hays@[mm]@, needle@));
                    }
                }
                assert(is_chosen_prefix(sources, counter as nat));
                lemma_chosen_prefix_unique(sources, counter as nat, prefix_index(sources));
            }
            return candidate;
        }
        proof {
            let mm = choose|mm: int| 0 <= mm < hays@.len() && occurs_in(#[trigger] hays@[mm]@, needle@);
            let cand = prefix_candidate(counter as nat);
            let i = choose|i: int| occurs_at(sources[mm], cand, i);
            lemma_candidate_tail(counter as nat);
            let p = flat_pos(sources, mm, i);
            lemma_flat_pos(sources, mm, i, mm, i);
            assert forall|j: int| 0 <= j < counter implies wpos[j] != p by {
                let (m2, i2) = wit[j];
                lemma_candidate_tail(j as nat);
                lemma_flat_pos(sources, mm, i, m2, i2);
                if wpos[j] == p {
                    lemma_one_candidate_per_position(sources[mm], counter as nat, j as nat, i);
                }
            }
            let old_wpos = wpos;
            let old_wit = wit;
            wit = wit.push((mm, i));
            wpos = wpos.push(p);
            assert(wpos.no_duplicates()) by {
                assert forall|a: int, b: int| 0 <= a < wpos.len() && 0 <= b < wpos.len() && a != b implies wpos[a] != wpos[b] by {
                    if a < counter && b < counter {
                        assert(old_wpos[a] != old_wpos[b]);
                    }
                }
            }
            wpos.unique_seq_to_set();
            lemma_int_range(0, total as int);
            assert forall|x: int| wpos.to_set().contains(x) implies set_int_range(0, total as int).contains(x) by {
                assert(wpos.contains(x));
                let idx = choose|idx: int| 0 <= idx < wpos.len() && wpos[idx] == x;
                if idx < counter {
                    assert(0 <= old_wit[idx].0);
                    assert(old_wpos[idx] == x);
                } else {
                    assert(x == p);
                    assert(0 <= p < total);
                }
            }
            lemma_len_subset(wpos.to_set(), set_int_range(0, total as int));
            assert(in_some_source(sources, cand)) by {
                assert(occurs_in(sources[mm], cand));
            }
        }
        counter += 1;
    }
}

} // verus!
