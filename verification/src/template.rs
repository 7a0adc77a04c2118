//! Deterministic template transformation for the build-system file and the
//! README: fixed-marker substitution and removal or retention of the one
//! optional, marker-delimited block.
use vstd::prelude::*;
use crate::text;

verus! {

pub open spec fn begin_marker_spec() -> Seq<char> {
    "# TEST_SECTION_BEGIN"@
}

pub open spec fn end_marker_spec() -> Seq<char> {
    "# TEST_SECTION_END"@
}

/// The minimal block that stands in for the removed optional block: it still
/// provides a degraded sanitize target, followed by the blank line that
/// separated the block from what follows.
pub open spec fn fallback_lines_spec() -> Seq<Seq<char>> {
    seq!["sanitize:"@, "\t@$(MAKE) SANITIZE=1 MODE=debug all"@, Seq::<char>::empty()]
}

/// The phony-target list: the test target appears only when tests are
/// generated.
pub open spec fn phony_spec(gen_tests: bool) -> Seq<char> {
    if gen_tests {
        "all run release run-release test sanitize fmt lint clean"@
    } else {
        "all run release run-release sanitize fmt lint clean"@
    }
}

pub fn phony_targets(gen_tests: bool) -> (r: String)
    ensures
        r@ == phony_spec(gen_tests),
{
    if gen_tests {
        String::from_str("all run release run-release test sanitize fmt lint clean")
    } else {
        String::from_str("all run release run-release sanitize fmt lint clean")
    }
}

// ---- well-formedness of the template ----

pub open spec fn count_eq(ls: Seq<Seq<char>>, m: Seq<char>) -> int
    decreases ls.len(),
{
    if ls.len() == 0 {
        0
    } else {
        (if ls[0] == m {
            1int
        } else {
            0int
        }) + count_eq(ls.skip(1), m)
    }
}

/// A usable template: exactly one line is the begin marker, exactly one line
/// is the end marker, and the begin marker stands first.
pub open spec fn template_ok(ls: Seq<Seq<char>>) -> bool {
    count_eq(ls, begin_marker_spec()) == 1 && count_eq(ls, end_marker_spec()) == 1 && text::first_eq_line(
        ls,
        begin_marker_spec(),
    ) < text::first_eq_line(ls, end_marker_spec())
}

proof fn lemma_count_zero(ls: Seq<Seq<char>>, m: Seq<char>)
    requires
        forall|j: int| 0 <= j < ls.len() ==> ls[j] != m,
    ensures
        count_eq(ls, m) == 0,
    decreases ls.len(),
{
    if ls.len() > 0 {
        assert forall|j: int| 0 <= j < ls.skip(1).len() implies ls.skip(1)[j] != m by {
            assert(ls.skip(1)[j] == ls[j + 1]);
        }
        lemma_count_zero(ls.skip(1), m);
    }
}

proof fn lemma_count_one_unique(ls: Seq<Seq<char>>, m: Seq<char>, i: int, j: int)
    requires
        count_eq(ls, m) == 1,
        0 <= i < ls.len(),
        0 <= j < ls.len(),
        ls[i] == m,
        ls[j] == m,
    ensures
        i == j,
    decreases ls.len(),
{
    if i != j {
        lemma_count_nonneg(ls, m);
        lemma_count_two(ls, m, if i < j {
            i
        } else {
            j
        }, if i < j {
            j
        } else {
            i
        });
    }
}

proof fn lemma_count_nonneg(ls: Seq<Seq<char>>, m: Seq<char>)
    ensures
        count_eq(ls, m) >= 0,
    decreases ls.len(),
{
    if ls.len() > 0 {
        lemma_count_nonneg(ls.skip(1), m);
    }
}

proof fn lemma_count_two(ls: Seq<Seq<char>>, m: Seq<char>, i: int, j: int)
    requires
        0 <= i < j < ls.len(),
        ls[i] == m,
        ls[j] == m,
    ensures
        count_eq(ls, m) >= 2,
    decreases ls.len(),
{
    if i == 0 {
        lemma_count_pos(ls.skip(1), m, j - 1);
    } else {
        lemma_count_two(ls.skip(1), m, i - 1, j - 1);
        lemma_count_nonneg(ls.skip(1), m);
    }
}

proof fn lemma_count_pos(ls: Seq<Seq<char>>, m: Seq<char>, i: int)
    requires
        0 <= i < ls.len(),
        ls[i] == m,
    ensures
        count_eq(ls, m) >= 1,
    decreases ls.len(),
{
    if i == 0 {
        lemma_count_nonneg(ls.skip(1), m);
    } else {
        lemma_count_pos(ls.skip(1), m, i - 1);
    }
}

pub fn find_line(ls: &Vec<String>, m: &str) -> (r: Option<usize>)
    ensures
        match r {
            Some(i) => i < ls@.len() && ls.deep_view()[i as int] == m@ && (forall|j: int|
                0 <= j < i ==> ls.deep_view()[j] != m@),
            None => forall|j: int| 0 <= j < ls@.len() ==> ls.deep_view()[j] != m@,
        },
{
    let ghost dv = ls.deep_view();
    let mut i: usize = 0;
    while i < ls.len()
        invariant
            i <= ls@.len(),
            dv == ls.deep_view(),
            dv.len() == ls@.len(),
            forall|j: int| 0 <= j < i ==> dv[j] != m@,
        decreases ls@.len() - i,
    {
        proof {
            assert(dv[i as int] == ls@[i as int]@);
        }
        if text::str_eq(ls[i].as_str(), m) {
            return Some(i);
        }
        i = i + 1;
    }
    None
}

fn count_lines_eq(ls: &Vec<String>, m: &str) -> (r: usize)
    ensures
        r as int == count_eq(ls.deep_view(), m@),
{
    let ghost dv = ls.deep_view();
    let mut r: usize = 0;
    let mut i: usize = 0;
    proof {
        assert(dv.skip(0) =~~= dv);
    }
    while i < ls.len()
        invariant
            i <= ls@.len(),
            r <= i,
            dv == ls.deep_view(),
            dv.len() == ls@.len(),
            count_eq(dv, m@) == r + count_eq(dv.skip(i as int), m@),
        decreases ls@.len() - i,
    {
        proof {
            assert(dv[i as int] == ls@[i as int]@);
            assert(dv.skip(i as int)[0] == dv[i as int]);
            assert(dv.skip(i as int).skip(1) =~~= dv.skip(i + 1));
        }
        if text::str_eq(ls[i].as_str(), m) {
            r = r + 1;
        }
        i = i + 1;
    }
    proof {
        assert(dv.skip(dv.len() as int).len() == 0);
    }
    r
}

/// Whether the template's lines hold the one optional block this transformer
/// expects; `render_makefile` requires it.
pub fn template_well_formed(template: &str) -> (r: bool)
    ensures
        r == template_ok(text::split_lines_spec(template@)),
{
    let lines = text::split_lines(template);
    let ghost dv = lines.deep_view();
    let nb = count_lines_eq(&lines, "# TEST_SECTION_BEGIN");
    let ne = count_lines_eq(&lines, "# TEST_SECTION_END");
    if nb != 1 || ne != 1 {
        return false;
    }
    let b = match find_line(&lines, "# TEST_SECTION_BEGIN") {
        Some(b) => b,
        None => {
            proof {
                lemma_count_zero(dv, begin_marker_spec());
            }
            return false;
        },
    };
    let e = match find_line(&lines, "# TEST_SECTION_END") {
        Some(e) => e,
        None => {
            proof {
                lemma_count_zero(dv, end_marker_spec());
            }
            return false;
        },
    };
    proof {
        text::lemma_first_eq_line_at(dv, begin_marker_spec(), b as int);
        text::lemma_first_eq_line_at(dv, end_marker_spec(), e as int);
    }
    b < e
}

// ---- substitution ----

/// One line with the three fixed markers substituted, in a fixed order.
pub open spec fn subst_line_spec(
    l: Seq<char>,
    cc: Seq<char>,
    name: Seq<char>,
    phony: Seq<char>,
) -> Seq<char> {
    text::replace_spec(
        text::replace_spec(text::replace_spec(l, "{CC}"@, cc), "{NAME}"@, name),
        "{PHONY}"@,
        phony,
    )
}

pub fn subst_line(l: &str, cc: &str, name: &str, phony: &str) -> (r: String)
    ensures
        r@ == subst_line_spec(l@, cc@, name@, phony@),
{
    proof {
        reveal_strlit("{CC}");
        reveal_strlit("{NAME}");
        reveal_strlit("{PHONY}");
    }
    let s1 = text::replace_all(l, "{CC}", cc);
    let s2 = text::replace_all(s1.as_str(), "{NAME}", name);
    text::replace_all(s2.as_str(), "{PHONY}", phony)
}

pub open spec fn subst_all_spec(
    ls: Seq<Seq<char>>,
    cc: Seq<char>,
    name: Seq<char>,
    phony: Seq<char>,
) -> Seq<Seq<char>> {
    ls.map_values(|l: Seq<char>| subst_line_spec(l, cc, name, phony))
}

// ---- the optional block ----

/// The template's lines with the optional block handled: when tests are
/// generated both marker lines are removed and the body is kept; otherwise
/// the whole marker-to-marker span is replaced by the fallback block.
pub open spec fn strip_block_spec(ls: Seq<Seq<char>>, gen_tests: bool) -> Seq<Seq<char>> {
    let b = text::first_eq_line(ls, begin_marker_spec()) as int;
    let e = text::first_eq_line(ls, end_marker_spec()) as int;
    if gen_tests {
        ls.subrange(0, b) + ls.subrange(b + 1, e) + ls.skip(e + 1)
    } else {
        ls.subrange(0, b) + fallback_lines_spec() + ls.skip(e + 1)
    }
}

pub open spec fn render_makefile_lines_spec(
    t: Seq<char>,
    cc: Seq<char>,
    name: Seq<char>,
    gen_tests: bool,
) -> Seq<Seq<char>> {
    subst_all_spec(
        strip_block_spec(text::split_lines_spec(t), gen_tests),
        cc,
        name,
        phony_spec(gen_tests),
    )
}

/// The build-system file: marker substitution applied to every line that
/// survives the optional-block decision, joined back with newlines.
pub open spec fn render_makefile_spec(
    t: Seq<char>,
    cc: Seq<char>,
    name: Seq<char>,
    gen_tests: bool,
) -> Seq<char> {
    text::join_lines_spec(render_makefile_lines_spec(t, cc, name, gen_tests))
}

pub fn render_makefile(template: &str, cc: &str, name: &str, gen_tests: bool) -> (r: String)
    requires
        template_ok(text::split_lines_spec(template@)),
    ensures
        r@ == render_makefile_spec(template@, cc@, name@, gen_tests),
{
    let lines = text::split_lines(template);
    let ghost dv = lines.deep_view();
    let b = match find_line(&lines, "# TEST_SECTION_BEGIN") {
        Some(b) => b,
        None => {
            proof {
                lemma_count_zero(dv, begin_marker_spec());
            }
            unreached()
        },
    };
    let e = match find_line(&lines, "# TEST_SECTION_END") {
        Some(e) => e,
        None => {
            proof {
                lemma_count_zero(dv, end_marker_spec());
            }
            unreached()
        },
    };
    proof {
        text::lemma_first_eq_line_at(dv, begin_marker_spec(), b as int);
        text::lemma_first_eq_line_at(dv, end_marker_spec(), e as int);
    }
    let mut kept: Vec<String> = Vec::new();
    let mut i: usize = 0;
    while i < b
        invariant
            i <= b,
            b < dv.len(),
            dv == lines.deep_view(),
            dv.len() == lines@.len(),
            kept.deep_view() == dv.subrange(0, i as int),
        decreases b - i,
    {
        let ghost pre = kept.deep_view();
        let c = lines[i].clone();
        kept.push(c);
        proof {
            assert(dv[i as int] == lines@[i as int]@);
            assert(c@ == dv[i as int]);
            assert(kept.deep_view() =~~= pre.push(c@));
            assert(pre.push(c@) =~~= dv.subrange(0, i + 1));
        }
        i = i + 1;
    }
    if gen_tests {
        let mut j: usize = b + 1;
        while j < e
            invariant
                b + 1 <= j <= e,
                e < dv.len(),
                b < dv.len(),
                dv == lines.deep_view(),
                dv.len() == lines@.len(),
                kept.deep_view() == dv.subrange(0, b as int) + dv.subrange(b + 1, j as int),
            decreases e - j,
        {
            let ghost pre = kept.deep_view();
            let c = lines[j].clone();
            kept.push(c);
            proof {
                assert(dv[j as int] == lines@[j as int]@);
                assert(c@ == dv[j as int]);
                assert(kept.deep_view() =~~= pre.push(c@));
                assert(pre.push(c@) =~~= dv.subrange(0, b as int) + dv.subrange(b + 1, j + 1));
            }
            j = j + 1;
        }
    } else {
        let ghost pre = kept.deep_view();
        kept.push(String::from_str("sanitize:"));
        kept.push(String::from_str("\t@$(MAKE) SANITIZE=1 MODE=debug all"));
        kept.push(String::new());
        proof {
            assert(kept.deep_view() =~~= dv.subrange(0, b as int) + fallback_lines_spec());
        }
    }
    let total = lines.len();
    let mut k: usize = e + 1;
    let ghost mid = kept.deep_view();
    while k < lines.len()
        invariant
            e + 1 <= k <= dv.len(),
            dv == lines.deep_view(),
            dv.len() == lines@.len(),
            kept.deep_view() == mid + dv.subrange(e + 1, k as int),
        decreases dv.len() - k,
    {
        let ghost pre = kept.deep_view();
        let c = lines[k].clone();
        kept.push(c);
        proof {
            assert(dv[k as int] == lines@[k as int]@);
            assert(c@ == dv[k as int]);
            assert(kept.deep_view() =~~= pre.push(c@));
            assert(pre.push(c@) =~~= mid + dv.subrange(e + 1, k + 1));
        }
        k = k + 1;
    }
    proof {
        assert(dv.subrange(e + 1, dv.len() as int) =~~= dv.skip(e + 1));
        assert(kept.deep_view() =~~= strip_block_spec(dv, gen_tests));
    }
    let ph = phony_targets(gen_tests);
    let ghost kdv = kept.deep_view();
    let mut out_lines: Vec<String> = Vec::new();
    proof {
        assert(out_lines.deep_view() =~~= subst_all_spec(
            kdv.take(0),
            cc@,
            name@,
            phony_spec(gen_tests),
        ));
    }
    let mut w: usize = 0;
    while w < kept.len()
        invariant
            w <= kept@.len(),
            kdv == kept.deep_view(),
            kdv.len() == kept@.len(),
            ph@ == phony_spec(gen_tests),
            out_lines.deep_view() == subst_all_spec(
                kdv.take(w as int),
                cc@,
                name@,
                phony_spec(gen_tests),
            ),
        decreases kept@.len() - w,
    {
        let ghost pre = out_lines.deep_view();
        let s = subst_line(kept[w].as_str(), cc, name, ph.as_str());
        out_lines.push(s);
        proof {
            assert(kdv[w as int] == kept@[w as int]@);
            assert(s@ == subst_line_spec(kdv[w as int], cc@, name@, phony_spec(gen_tests)));
            assert(out_lines.deep_view() =~~= pre.push(s@));
            assert(subst_all_spec(kdv.take(w + 1), cc@, name@, phony_spec(gen_tests))
                =~~= subst_all_spec(kdv.take(w as int), cc@, name@, phony_spec(gen_tests)).push(
                subst_line_spec(kdv[w as int], cc@, name@, phony_spec(gen_tests)),
            ));
        }
        w = w + 1;
    }
    proof {
        assert(kdv.take(kdv.len() as int) =~~= kdv);
    }
    text::join_lines(&out_lines)
}

// ---- laws ----

/// Transforming the same template text with the same substitutions and the
/// same conditional decision twice yields byte-identical output.
pub proof fn lemma_render_deterministic(
    t: Seq<char>,
    cc: Seq<char>,
    name: Seq<char>,
    gen_tests: bool,
    r1: Seq<char>,
    r2: Seq<char>,
)
    requires
        r1 == render_makefile_spec(t, cc, name, gen_tests),
        r2 == render_makefile_spec(t, cc, name, gen_tests),
    ensures
        r1 == r2,
{
}

/// Substitution leaves a line without an opening brace untouched.
proof fn lemma_no_brace_subst_identity(
    l: Seq<char>,
    cc: Seq<char>,
    name: Seq<char>,
    phony: Seq<char>,
)
    requires
        forall|j: int| 0 <= j < l.len() ==> l[j] != '{',
    ensures
        subst_line_spec(l, cc, name, phony) == l,
{
    reveal_strlit("{CC}");
    reveal_strlit("{NAME}");
    reveal_strlit("{PHONY}");
    assert forall|i: int| !text::match_at(l, "{CC}"@, i) by {
        if text::match_at(l, "{CC}"@, i) {
            assert(l.subrange(i, i + "{CC}"@.len() as int)[0] == l[i]);
        }
    }
    assert(!text::has_match(l, "{CC}"@));
    text::lemma_replace_absent(l, "{CC}"@, cc);
    assert forall|i: int| !text::match_at(l, "{NAME}"@, i) by {
        if text::match_at(l, "{NAME}"@, i) {
            assert(l.subrange(i, i + "{NAME}"@.len() as int)[0] == l[i]);
        }
    }
    assert(!text::has_match(l, "{NAME}"@));
    text::lemma_replace_absent(l, "{NAME}"@, name);
    assert forall|i: int| !text::match_at(l, "{PHONY}"@, i) by {
        if text::match_at(l, "{PHONY}"@, i) {
            assert(l.subrange(i, i + "{PHONY}"@.len() as int)[0] == l[i]);
        }
    }
    assert(!text::has_match(l, "{PHONY}"@));
    text::lemma_replace_absent(l, "{PHONY}"@, phony);
}

/// With tests suppressed, no line of the build-system output is a marker
/// line of the optional block, and the fallback sanitize block stands where
/// the block stood. The two hypotheses on the substitution values rule out
/// the inputs where a substituted line would itself forge a marker line.
pub proof fn lemma_tests_suppressed_output(t: Seq<char>, cc: Seq<char>, name: Seq<char>)
    requires
        template_ok(text::split_lines_spec(t)),
        forall|i: int|
            0 <= i < text::split_lines_spec(t).len() ==> (subst_line_spec(
                #[trigger] text::split_lines_spec(t)[i],
                cc,
                name,
                phony_spec(false),
            ) == begin_marker_spec() ==> text::split_lines_spec(t)[i] == begin_marker_spec()),
        forall|i: int|
            0 <= i < text::split_lines_spec(t).len() ==> (subst_line_spec(
                #[trigger] text::split_lines_spec(t)[i],
                cc,
                name,
                phony_spec(false),
            ) == end_marker_spec() ==> text::split_lines_spec(t)[i] == end_marker_spec()),
    ensures
        forall|i: int|
            0 <= i < render_makefile_lines_spec(t, cc, name, false).len()
                ==> #[trigger] render_makefile_lines_spec(t, cc, name, false)[i]
                != begin_marker_spec() && render_makefile_lines_spec(t, cc, name, false)[i]
                != end_marker_spec(),
        render_makefile_lines_spec(t, cc, name, false).subrange(
            text::first_eq_line(text::split_lines_spec(t), begin_marker_spec()) as int,
            text::first_eq_line(text::split_lines_spec(t), begin_marker_spec()) as int + 3,
        ) == fallback_lines_spec(),
{
    let ls = text::split_lines_spec(t);
    let bm = begin_marker_spec();
    let em = end_marker_spec();
    let b = text::first_eq_line(ls, bm) as int;
    let e = text::first_eq_line(ls, em) as int;
    text::lemma_first_eq_line_bounds(ls, bm);
    text::lemma_first_eq_line_bounds(ls, em);
    reveal_strlit("# TEST_SECTION_BEGIN");
    reveal_strlit("# TEST_SECTION_END");
    reveal_strlit("sanitize:");
    reveal_strlit("\t@$(MAKE) SANITIZE=1 MODE=debug all");
    if b == ls.len() {
        lemma_count_zero(ls, bm);
    }
    if e == ls.len() {
        lemma_count_zero(ls, em);
    }
    assert(0 <= b < e < ls.len());
    assert(ls[b] == bm);
    assert(ls[e] == em);
    let ph = phony_spec(false);
    let fb = fallback_lines_spec();
    let stripped = ls.subrange(0, b) + fb + ls.skip(e + 1);
    assert(strip_block_spec(ls, false) == stripped);
    let out = subst_all_spec(stripped, cc, name, ph);
    assert(render_makefile_lines_spec(t, cc, name, false) == out);
    assert forall|j: int| 0 <= j < fb.len() implies subst_line_spec(fb[j], cc, name, ph)
        == fb[j] by {
        lemma_no_brace_subst_identity(fb[j], cc, name, ph);
    }
    assert forall|i: int|
        0 <= i < out.len() implies #[trigger] out[i] != bm && out[i] != em by {
        assert(out[i] == subst_line_spec(stripped[i], cc, name, ph));
        if i < b {
            assert(stripped[i] == ls[i]);
            if out[i] == bm {
                assert(ls[i] == bm);
            }
            if out[i] == em {
                assert(ls[i] == em);
                lemma_count_one_unique(ls, em, i, e);
            }
        } else if i < b + 3 {
            assert(stripped[i] == fb[i - b]);
            assert(out[i] == fb[i - b]);
            assert(fb[i - b].len() != bm.len());
            assert(fb[i - b].len() != em.len());
        } else {
            let j = i - (b + 3) + (e + 1);
            assert(stripped[i] == ls.skip(e + 1)[i - (b + 3)]);
            assert(stripped[i] == ls[j]);
            if out[i] == bm {
                assert(ls[j] == bm);
                lemma_count_one_unique(ls, bm, b, j);
            }
            if out[i] == em {
                assert(ls[j] == em);
                lemma_count_one_unique(ls, em, e, j);
            }
        }
    }
    assert forall|q: int| 0 <= q < 3 implies out.subrange(b, b + 3)[q] == fb[q] by {
        assert(out[b + q] == subst_line_spec(stripped[b + q], cc, name, ph));
        assert(stripped[b + q] == fb[q]);
    }
    assert(out.subrange(b, b + 3) =~~= fb);
}

/// The README text: every occurrence of the project-name marker replaced by
/// the display name.
pub fn render_readme(template: &str, name: &str) -> (r: String)
    ensures
        r@ == text::replace_spec(template@, "{PROJECT_NAME}"@, name@),
{
    proof {
        reveal_strlit("{PROJECT_NAME}");
    }
    text::replace_all(template, "{PROJECT_NAME}", name)
}

} // verus!
