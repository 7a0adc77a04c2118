//! Tiered, compiler-specific flag composition. Each strictness tier is the
//! lower tier extended with further flag blocks; the text written out is the
//! token list joined with newlines.
use vstd::prelude::*;
use crate::config::{Compiler, Strictness};
use crate::text;

verus! {

pub open spec fn loose_base_spec() -> Seq<Seq<char>> {
    seq!["-std=c2x"@, "-Iinclude"@, "-Wall"@, "-Wextra"@]
}

pub open spec fn strict_common_spec() -> Seq<Seq<char>> {
    seq![
        "-Werror"@,
        "-Wpedantic"@,
        "-Wcast-align"@,
        "-Wpointer-arith"@,
        "-Wmissing-prototypes"@,
        "-Wstrict-prototypes"@,
        "-Wsign-conversion"@,
        "-Wswitch-enum"@,
        "-Wconversion"@,
        "-Wcast-qual"@,
        "-Wshadow"@,
    ]
}

pub open spec fn strictest_common_spec() -> Seq<Seq<char>> {
    seq![
        "-Wundef"@,
        "-Wformat=2"@,
        "-Wfloat-equal"@,
        "-Wswitch-default"@,
        "-Wdouble-promotion"@,
    ]
}

pub open spec fn clang_sys_includes_spec() -> Seq<Seq<char>> {
    seq!["-isystem/opt/homebrew/include"@, "-isystem/usr/local/include"@]
}

pub open spec fn gcc_strict_extra_spec() -> Seq<Seq<char>> {
    seq!["-Wlogical-op"@, "-Wjump-misses-init"@]
}

pub open spec fn gcc_strictest_extra_spec() -> Seq<Seq<char>> {
    seq![
        "-Wstrict-overflow=2"@,
        "-Wduplicated-cond"@,
        "-Wduplicated-branches"@,
        "-Wrestrict"@,
        "-Wnull-dereference"@,
        "-Wjump-misses-init"@,
    ]
}

pub open spec fn clang_strictest_extra_spec() -> Seq<Seq<char>> {
    seq!["-Wstrict-overflow=5"@]
}

/// The include flags that replace the project include flag in the flags file
/// derived for the tests subdirectory.
pub open spec fn test_include_spec() -> Seq<Seq<char>> {
    seq!["-I../include"@, "-I."@, "-isystem"@, "./test-deps"@]
}

pub open spec fn project_include_flag() -> Seq<char> {
    "-Iinclude"@
}

// ---- tier layering ----

pub open spec fn loose_tokens(cc: Compiler) -> Seq<Seq<char>> {
    match cc {
        Compiler::Clang => loose_base_spec() + clang_sys_includes_spec(),
        Compiler::Gcc => loose_base_spec(),
    }
}

pub open spec fn strict_tokens(cc: Compiler) -> Seq<Seq<char>> {
    loose_tokens(cc) + strict_common_spec() + (match cc {
        Compiler::Clang => Seq::<Seq<char>>::empty(),
        Compiler::Gcc => gcc_strict_extra_spec(),
    })
}

pub open spec fn strictest_tokens(cc: Compiler) -> Seq<Seq<char>> {
    strict_tokens(cc) + strictest_common_spec() + (match cc {
        Compiler::Clang => clang_strictest_extra_spec(),
        Compiler::Gcc => gcc_strictest_extra_spec(),
    })
}

/// The ordered flag tokens of one tier for one compiler variant.
pub open spec fn tier_tokens(cc: Compiler, t: Strictness) -> Seq<Seq<char>> {
    match t {
        Strictness::Loose => loose_tokens(cc),
        Strictness::Strict => strict_tokens(cc),
        Strictness::Strictest => strictest_tokens(cc),
    }
}

/// The flags file text: the tier's tokens joined with newlines.
pub open spec fn flags_text_spec(cc: Compiler, t: Strictness) -> Seq<char> {
    text::join_lines_spec(tier_tokens(cc, t))
}

fn push_tok(v: &mut Vec<String>, s: &str)
    ensures
        final(v).deep_view() == old(v).deep_view().push(s@),
{
    let ghost pre = v.deep_view();
    v.push(String::from_str(s));
    proof {
        assert(v.deep_view() =~~= pre.push(s@));
    }
}

pub fn tier_token_vec(cc: Compiler, t: Strictness) -> (r: Vec<String>)
    ensures
        r.deep_view() == tier_tokens(cc, t),
{
    let mut v: Vec<String> = Vec::new();
    push_tok(&mut v, "-std=c2x");
    push_tok(&mut v, "-Iinclude");
    push_tok(&mut v, "-Wall");
    push_tok(&mut v, "-Wextra");
    if cc == Compiler::Clang {
        push_tok(&mut v, "-isystem/opt/homebrew/include");
        push_tok(&mut v, "-isystem/usr/local/include");
    }
    proof {
        assert(v.deep_view() =~~= loose_tokens(cc));
    }
    if t == Strictness::Loose {
        return v;
    }
    push_tok(&mut v, "-Werror");
    push_tok(&mut v, "-Wpedantic");
    push_tok(&mut v, "-Wcast-align");
    push_tok(&mut v, "-Wpointer-arith");
    push_tok(&mut v, "-Wmissing-prototypes");
    push_tok(&mut v, "-Wstrict-prototypes");
    push_tok(&mut v, "-Wsign-conversion");
    push_tok(&mut v, "-Wswitch-enum");
    push_tok(&mut v, "-Wconversion");
    push_tok(&mut v, "-Wcast-qual");
    push_tok(&mut v, "-Wshadow");
    if cc == Compiler::Gcc {
        push_tok(&mut v, "-Wlogical-op");
        push_tok(&mut v, "-Wjump-misses-init");
    }
    proof {
        assert(v.deep_view() =~~= strict_tokens(cc));
    }
    if t == Strictness::Strict {
        return v;
    }
    push_tok(&mut v, "-Wundef");
    push_tok(&mut v, "-Wformat=2");
    push_tok(&mut v, "-Wfloat-equal");
    push_tok(&mut v, "-Wswitch-default");
    push_tok(&mut v, "-Wdouble-promotion");
    if cc == Compiler::Gcc {
        push_tok(&mut v, "-Wstrict-overflow=2");
        push_tok(&mut v, "-Wduplicated-cond");
        push_tok(&mut v, "-Wduplicated-branches");
        push_tok(&mut v, "-Wrestrict");
        push_tok(&mut v, "-Wnull-dereference");
        push_tok(&mut v, "-Wjump-misses-init");
    } else {
        push_tok(&mut v, "-Wstrict-overflow=5");
    }
    proof {
        assert(v.deep_view() =~~= strictest_tokens(cc));
    }
    v
}

/// The flags file for the project root.
pub fn compose_flags(cc: Compiler, t: Strictness) -> (r: String)
    ensures
        r@ == flags_text_spec(cc, t),
{
    let v = tier_token_vec(cc, t);
    text::join_lines(&v)
}

// ---- flags file for the tests subdirectory ----

/// Every token equal to the project include flag is replaced wholesale by the
/// fixed test include block; every other token is kept in place.
pub open spec fn test_tokens_spec(ts: Seq<Seq<char>>) -> Seq<Seq<char>>
    decreases ts.len(),
{
    if ts.len() == 0 {
        Seq::empty()
    } else {
        (if ts[0] == project_include_flag() {
            test_include_spec()
        } else {
            seq![ts[0]]
        }) + test_tokens_spec(ts.skip(1))
    }
}

pub fn derive_test_tokens(ts: &Vec<String>) -> (r: Vec<String>)
    ensures
        r.deep_view() == test_tokens_spec(ts.deep_view()),
{
    let ghost dv = ts.deep_view();
    let mut out: Vec<String> = Vec::new();
    proof {
        assert(dv.skip(0) =~~= dv);
        assert(out.deep_view() + test_tokens_spec(dv) =~~= test_tokens_spec(dv));
    }
    let mut i: usize = 0;
    while i < ts.len()
        invariant
            i <= ts@.len(),
            dv == ts.deep_view(),
            dv.len() == ts@.len(),
            test_tokens_spec(dv) == out.deep_view() + test_tokens_spec(dv.skip(i as int)),
        decreases ts@.len() - i,
    {
        let ghost pre = out.deep_view();
        proof {
            assert(dv.skip(i as int)[0] == dv[i as int]);
            assert(dv[i as int] == ts@[i as int]@);
            assert(dv.skip(i as int).skip(1) =~~= dv.skip(i + 1));
        }
        if text::str_eq(ts[i].as_str(), "-Iinclude") {
            push_tok(&mut out, "-I../include");
            push_tok(&mut out, "-I.");
            push_tok(&mut out, "-isystem");
            push_tok(&mut out, "./test-deps");
            proof {
                assert(out.deep_view() =~~= pre + test_include_spec());
                assert(pre + (test_include_spec() + test_tokens_spec(dv.skip(i + 1))) =~~= (pre
                    + test_include_spec()) + test_tokens_spec(dv.skip(i + 1)));
            }
        } else {
            let c = ts[i].clone();
            out.push(c);
            proof {
                assert(out.deep_view() =~~= pre.push(dv[i as int]));
                assert(pre + (seq![dv[i as int]] + test_tokens_spec(dv.skip(i + 1))) =~~= pre.push(
                    dv[i as int],
                ) + test_tokens_spec(dv.skip(i + 1)));
            }
        }
        i = i + 1;
    }
    proof {
        assert(dv.skip(dv.len() as int).len() == 0);
        assert(out.deep_view() + test_tokens_spec(dv.skip(dv.len() as int)) =~~= out.deep_view());
    }
    out
}

pub open spec fn test_flags_text_spec(cc: Compiler, t: Strictness) -> Seq<char> {
    text::join_lines_spec(test_tokens_spec(tier_tokens(cc, t)))
}

/// The flags file for the tests subdirectory, derived from the same tier.
pub fn compose_test_flags(cc: Compiler, t: Strictness) -> (r: String)
    ensures
        r@ == test_flags_text_spec(cc, t),
{
    let v = tier_token_vec(cc, t);
    let w = derive_test_tokens(&v);
    text::join_lines(&w)
}

// ---- general block concatenation ----

/// Each part trimmed, empty parts dropped, and the rest joined with newlines.
pub open spec fn clean_parts_spec(ps: Seq<Seq<char>>) -> Seq<Seq<char>>
    decreases ps.len(),
{
    if ps.len() == 0 {
        Seq::empty()
    } else {
        (if text::trim_spec(ps[0]).len() > 0 {
            seq![text::trim_spec(ps[0])]
        } else {
            Seq::<Seq<char>>::empty()
        }) + clean_parts_spec(ps.skip(1))
    }
}

pub fn flags_concat(parts: &Vec<&str>) -> (r: String)
    ensures
        r@ == text::join_lines_spec(clean_parts_spec(parts.deep_view())),
{
    let ghost dv = parts.deep_view();
    let mut cleaned: Vec<String> = Vec::new();
    proof {
        assert(dv.skip(0) =~~= dv);
        assert(cleaned.deep_view() + clean_parts_spec(dv) =~~= clean_parts_spec(dv));
    }
    let mut i: usize = 0;
    while i < parts.len()
        invariant
            i <= parts@.len(),
            dv == parts.deep_view(),
            dv.len() == parts@.len(),
            clean_parts_spec(dv) == cleaned.deep_view() + clean_parts_spec(dv.skip(i as int)),
        decreases parts@.len() - i,
    {
        let ghost pre = cleaned.deep_view();
        proof {
            assert(dv.skip(i as int)[0] == dv[i as int]);
            assert(dv[i as int] == parts@[i as int]@);
            assert(dv.skip(i as int).skip(1) =~~= dv.skip(i + 1));
        }
        let t = text::trim(parts[i]);
        if t.unicode_len() > 0 {
            cleaned.push(String::from_str(t));
            proof {
                assert(cleaned.deep_view() =~~= pre.push(text::trim_spec(dv[i as int])));
                assert(pre + (seq![text::trim_spec(dv[i as int])] + clean_parts_spec(
                    dv.skip(i + 1),
                )) =~~= cleaned.deep_view() + clean_parts_spec(dv.skip(i + 1)));
            }
        } else {
            proof {
                assert(pre + (Seq::<Seq<char>>::empty() + clean_parts_spec(dv.skip(i + 1)))
                    =~~= pre + clean_parts_spec(dv.skip(i + 1)));
            }
        }
        i = i + 1;
    }
    proof {
        assert(dv.skip(dv.len() as int).len() == 0);
        assert(cleaned.deep_view() + clean_parts_spec(dv.skip(dv.len() as int))
            =~~= cleaned.deep_view());
    }
    text::join_lines(&cleaned)
}

// ---- laws ----

/// Each tier extends the one below it: the lower tier's tokens are a prefix
/// of the higher tier's, so every flag of the lower tier occurs in the higher
/// tier and inherited flags keep their relative order.
pub proof fn lemma_tier_layering(cc: Compiler)
    ensures
        tier_tokens(cc, Strictness::Loose).is_prefix_of(tier_tokens(cc, Strictness::Strict)),
        tier_tokens(cc, Strictness::Strict).is_prefix_of(tier_tokens(cc, Strictness::Strictest)),
        forall|f: Seq<char>|
            tier_tokens(cc, Strictness::Loose).contains(f) ==> tier_tokens(
                cc,
                Strictness::Strict,
            ).contains(f),
        forall|f: Seq<char>|
            tier_tokens(cc, Strictness::Strict).contains(f) ==> tier_tokens(
                cc,
                Strictness::Strictest,
            ).contains(f),
{
    let l = tier_tokens(cc, Strictness::Loose);
    let s = tier_tokens(cc, Strictness::Strict);
    let x = tier_tokens(cc, Strictness::Strictest);
    assert(s.take(l.len() as int) =~= l);
    assert(x.take(s.len() as int) =~= s);
    assert forall|f: Seq<char>| l.contains(f) implies s.contains(f) by {
        let i = choose|i: int| 0 <= i < l.len() && l[i] == f;
        assert(s[i] == f);
    }
    assert forall|f: Seq<char>| s.contains(f) implies x.contains(f) by {
        let i = choose|i: int| 0 <= i < s.len() && s[i] == f;
        assert(x[i] == f);
    }
}

/// Composing flags twice from the same compiler variant and strictness tier
/// yields byte-identical text.
pub proof fn lemma_compose_deterministic(
    cc: Compiler,
    t: Strictness,
    r1: Seq<char>,
    r2: Seq<char>,
)
    requires
        r1 == flags_text_spec(cc, t),
        r2 == flags_text_spec(cc, t),
    ensures
        r1 == r2,
{
}

/// The derived test token list never contains the project include flag; where
/// the original list contained it, the fixed test include block stands
/// contiguously at the first occurrence's position; and a list without it is
/// left unchanged.
pub proof fn lemma_test_token_replacement(ts: Seq<Seq<char>>)
    ensures
        forall|i: int|
            0 <= i < test_tokens_spec(ts).len() ==> test_tokens_spec(ts)[i]
                != project_include_flag(),
        ts.contains(project_include_flag()) ==> {
            let b = text::first_eq_line(ts, project_include_flag()) as int;
            b + 4 <= test_tokens_spec(ts).len() && test_tokens_spec(ts).subrange(b, b + 4)
                == test_include_spec()
        },
        !ts.contains(project_include_flag()) ==> test_tokens_spec(ts) == ts,
    decreases ts.len(),
{
    reveal_strlit("-Iinclude");
    reveal_strlit("-I../include");
    reveal_strlit("-I.");
    reveal_strlit("-isystem");
    reveal_strlit("./test-deps");
    let pat = project_include_flag();
    if ts.len() == 0 {
        assert(!ts.contains(pat));
        assert(test_tokens_spec(ts) =~~= ts);
    } else {
        lemma_test_token_replacement(ts.skip(1));
        let rest = test_tokens_spec(ts.skip(1));
        let head: Seq<Seq<char>> = if ts[0] == pat {
            test_include_spec()
        } else {
            seq![ts[0]]
        };
        assert(test_tokens_spec(ts) == head + rest);
        assert forall|i: int| 0 <= i < (head + rest).len() implies (head + rest)[i] != pat by {
            if i < head.len() {
                if ts[0] == pat {
                    assert(test_include_spec()[i].len() != pat.len());
                }
            } else {
                assert(rest[i - head.len()] != pat);
            }
        }
        if ts.contains(pat) {
            if ts[0] == pat {
                assert(text::first_eq_line(ts, pat) == 0);
                assert((head + rest).subrange(0, 4) =~= test_include_spec());
                assert(test_tokens_spec(ts).subrange(0, 4) == test_include_spec());
            } else {
                let j = choose|j: int| 0 <= j < ts.len() && ts[j] == pat;
                assert(ts.skip(1)[j - 1] == pat);
                assert(ts.skip(1).contains(pat));
                let k = text::first_eq_line(ts.skip(1), pat) as int;
                assert(text::first_eq_line(ts, pat) == 1 + k);
                assert(rest.subrange(k, k + 4) == test_include_spec());
                assert((head + rest).subrange(k + 1, k + 5) =~= rest.subrange(k, k + 4));
                assert(test_tokens_spec(ts).subrange(k + 1, k + 5) == test_include_spec());
            }
        }
        if !ts.contains(pat) {
            assert(ts[0] != pat);
            assert forall|j: int| 0 <= j < ts.skip(1).len() implies ts.skip(1)[j] != pat by {
                assert(ts.skip(1)[j] == ts[j + 1]);
            }
            assert(!ts.skip(1).contains(pat));
            assert(seq![ts[0]] + ts.skip(1) =~~= ts);
        }
    }
}

} // verus!
