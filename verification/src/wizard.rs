//! The interactive wizard's decision logic, verified over replay-mode input:
//! a pre-supplied list of answer lines consumed one per question, with
//! malformed or missing answers falling back to each question's default.
use vstd::prelude::*;
use crate::config::{CliOptions, Compiler, Strictness};
use crate::text;

verus! {

pub open spec fn head_or_empty(ls: Seq<Seq<char>>) -> Seq<char> {
    if ls.len() > 0 {
        ls[0]
    } else {
        Seq::empty()
    }
}

pub open spec fn tail_of(ls: Seq<Seq<char>>) -> Seq<Seq<char>> {
    if ls.len() > 0 {
        ls.skip(1)
    } else {
        ls
    }
}

/// The answer line serving the `k`-th asked question: past the end of the
/// supplied lines every answer is the empty line.
pub open spec fn line_at(ls: Seq<Seq<char>>, k: int) -> Seq<char> {
    if 0 <= k < ls.len() {
        ls[k]
    } else {
        Seq::empty()
    }
}

/// What remains after `k` questions have been served.
pub open spec fn drop_k(ls: Seq<Seq<char>>, k: int) -> Seq<Seq<char>> {
    if k <= ls.len() {
        ls.skip(k)
    } else {
        Seq::empty()
    }
}

proof fn lemma_drop_k_step(ls: Seq<Seq<char>>, k: int)
    requires
        0 <= k,
    ensures
        tail_of(drop_k(ls, k)) == drop_k(ls, k + 1),
        head_or_empty(drop_k(ls, k)) == line_at(ls, k),
{
    if k < ls.len() {
        assert(drop_k(ls, k).skip(1) =~~= drop_k(ls, k + 1));
    } else {
        assert(drop_k(ls, k).len() == 0);
        assert(drop_k(ls, k + 1).len() == 0);
        assert(tail_of(drop_k(ls, k)) =~~= drop_k(ls, k + 1));
    }
}

// ---- replay input ----

/// Replay-mode input: an ordered, finite list of raw answer lines consumed
/// front to back; exhaustion yields empty answers, never an error.
pub struct ReplayInput {
    lines: Vec<String>,
    pos: usize,
}

/// A line as the standard library's line iterator yields it: without a
/// trailing carriage return.
pub open spec fn strip_cr(l: Seq<char>) -> Seq<char> {
    if l.len() > 0 && l.last() == '\r' {
        l.drop_last()
    } else {
        l
    }
}

/// The answer lines read from a block of piped text: split on newlines, with
/// no final empty line for a trailing newline, and carriage returns stripped.
pub open spec fn replay_lines_spec(t: Seq<char>) -> Seq<Seq<char>> {
    let raw = text::split_lines_spec(t);
    let cut = if raw.len() > 0 && raw.last().len() == 0 {
        raw.drop_last()
    } else {
        raw
    };
    cut.map_values(|l: Seq<char>| strip_cr(l))
}

impl ReplayInput {
    pub closed spec fn wf(&self) -> bool {
        self.pos <= self.lines@.len()
    }

    /// The answer lines not yet consumed.
    pub closed spec fn remaining(&self) -> Seq<Seq<char>> {
        self.lines.deep_view().skip(self.pos as int)
    }

    pub fn new(lines: Vec<String>) -> (r: Self)
        ensures
            r.wf(),
            r.remaining() == lines.deep_view(),
    {
        let r = ReplayInput { lines, pos: 0 };
        proof {
            assert(r.remaining() =~~= r.lines.deep_view());
        }
        r
    }

    /// All answer lines taken eagerly from one block of piped text.
    pub fn from_text(content: &str) -> (r: Self)
        ensures
            r.wf(),
            r.remaining() == replay_lines_spec(content@),
    {
        let raw = text::split_lines(content);
        let ghost rdv = raw.deep_view();
        let n = raw.len();
        proof {
            assert(rdv.len() > 0);
        }
        let keep: usize = if raw[n - 1].as_str().unicode_len() == 0 {
            n - 1
        } else {
            n
        };
        let ghost cut = if rdv.len() > 0 && rdv.last().len() == 0 {
            rdv.drop_last()
        } else {
            rdv
        };
        proof {
            assert(cut =~~= rdv.take(keep as int));
        }
        let mut lines: Vec<String> = Vec::new();
        proof {
            assert(lines.deep_view() =~~= cut.take(0).map_values(|l: Seq<char>| strip_cr(l)));
        }
        let mut i: usize = 0;
        while i < keep
            invariant
                i <= keep,
                keep <= raw@.len(),
                rdv == raw.deep_view(),
                rdv.len() == raw@.len(),
                cut == rdv.take(keep as int),
                lines.deep_view() == cut.take(i as int).map_values(|l: Seq<char>| strip_cr(l)),
            decreases keep - i,
        {
            let ghost pre = lines.deep_view();
            let m = raw[i].as_str().unicode_len();
            let stripped: String;
            if m > 0 && raw[i].as_str().get_char(m - 1) == '\r' {
                stripped = String::from_str(raw[i].as_str().substring_char(0, m - 1));
                proof {
                    assert(rdv[i as int] == raw@[i as int]@);
                    assert(rdv[i as int].subrange(0, m - 1) =~= rdv[i as int].drop_last());
                    assert(stripped@ == strip_cr(rdv[i as int]));
                }
            } else {
                stripped = raw[i].clone();
                proof {
                    assert(rdv[i as int] == raw@[i as int]@);
                    assert(stripped@ == strip_cr(rdv[i as int]));
                }
            }
            lines.push(stripped);
            proof {
                assert(cut[i as int] == rdv[i as int]);
                assert(lines.deep_view() =~~= pre.push(strip_cr(cut[i as int])));
                assert(pre.push(strip_cr(cut[i as int])) =~~= cut.take(i + 1).map_values(
                    |l: Seq<char>| strip_cr(l),
                ));
            }
            i = i + 1;
        }
        proof {
            assert(cut.take(keep as int) =~~= cut);
        }
        let r = ReplayInput { lines, pos: 0 };
        proof {
            assert(r.remaining() =~~= replay_lines_spec(content@));
        }
        r
    }

    /// The next answer: the front line while one remains, the empty answer
    /// once the input is exhausted.
    pub fn next_line(&mut self) -> (r: String)
        requires
            old(self).wf(),
        ensures
            final(self).wf(),
            r@ == head_or_empty(old(self).remaining()),
            final(self).remaining() == tail_of(old(self).remaining()),
    {
        if self.pos < self.lines.len() {
            let l = self.lines[self.pos].clone();
            self.pos = self.pos + 1;
            proof {
                assert(self.lines.deep_view()[old(self).pos as int] == self.lines@[old(
                    self,
                ).pos as int]@);
                assert(old(self).remaining()[0] == self.lines.deep_view()[old(self).pos as int]);
                assert(self.remaining() =~~= tail_of(old(self).remaining()));
            }
            l
        } else {
            proof {
                assert(old(self).remaining().len() == 0);
            }
            String::new()
        }
    }
}

// ---- choice resolution ----

/// How one prompted choice resolves from a raw replay line: the trimmed line
/// parsed as a decimal index, adopted when it names an option, the default
/// otherwise (malformed input, out-of-range index, or an exhausted input's
/// empty line).
pub open spec fn replay_choice_spec(line: Seq<char>, n_options: int, default_idx: int) -> int {
    match text::parse_usize_spec(text::trim_spec(line)) {
        Some(v) => if v < n_options {
            v
        } else {
            default_idx
        },
        None => default_idx,
    }
}

pub fn replay_choice(line: &str, n_options: usize, default_idx: usize) -> (r: usize)
    ensures
        r as int == replay_choice_spec(line@, n_options as int, default_idx as int),
        default_idx < n_options ==> r < n_options,
{
    let t = text::trim(line);
    match text::parse_usize(t) {
        Some(v) => if v < n_options {
            v
        } else {
            default_idx
        },
        None => default_idx,
    }
}

/// One choice question served from replay input.
pub fn select_replay(input: &mut ReplayInput, n_options: usize, default_idx: usize) -> (r: usize)
    requires
        old(input).wf(),
        default_idx < n_options,
    ensures
        final(input).wf(),
        final(input).remaining() == tail_of(old(input).remaining()),
        r < n_options,
        r as int == replay_choice_spec(
            head_or_empty(old(input).remaining()),
            n_options as int,
            default_idx as int,
        ),
{
    let line = input.next_line();
    replay_choice(line.as_str(), n_options, default_idx)
}

// ---- the question cascade ----

/// What the wizard decided. A field whose option was supplied explicitly
/// carries the explicit value through unchanged; `cancelled` records a
/// declined overwrite confirmation.
pub struct WizardDecisions {
    pub cancelled: bool,
    pub force: bool,
    pub cc: Option<Compiler>,
    pub strictness: Option<Strictness>,
    pub linter_strictness: Option<Strictness>,
    pub no_git: bool,
    pub no_tests: bool,
}

pub open spec fn cc_choice_spec(idx: int) -> Compiler {
    if idx == 1 {
        Compiler::Gcc
    } else {
        Compiler::Clang
    }
}

pub fn map_cc_choice(idx: usize) -> (r: Compiler)
    ensures
        r == cc_choice_spec(idx as int),
{
    if idx == 1 {
        Compiler::Gcc
    } else {
        Compiler::Clang
    }
}

pub open spec fn strictness_choice_spec(idx: int) -> Strictness {
    if idx == 0 {
        Strictness::Loose
    } else if idx == 1 {
        Strictness::Strict
    } else {
        Strictness::Strictest
    }
}

pub fn map_strictness_choice(idx: usize) -> (r: Strictness)
    ensures
        r == strictness_choice_spec(idx as int),
{
    if idx == 0 {
        Strictness::Loose
    } else if idx == 1 {
        Strictness::Strict
    } else {
        Strictness::Strictest
    }
}

/// The linter question's extra leading option leaves the field unset, to
/// fall back to the compiler strictness at the end.
pub open spec fn linter_choice_spec(idx: int) -> Option<Strictness> {
    if idx == 1 {
        Some(Strictness::Loose)
    } else if idx == 2 {
        Some(Strictness::Strict)
    } else if idx == 3 {
        Some(Strictness::Strictest)
    } else {
        None
    }
}

pub fn map_linter_choice(idx: usize) -> (r: Option<Strictness>)
    ensures
        r == linter_choice_spec(idx as int),
{
    if idx == 1 {
        Some(Strictness::Loose)
    } else if idx == 2 {
        Some(Strictness::Strict)
    } else if idx == 3 {
        Some(Strictness::Strictest)
    } else {
        None
    }
}

/// A non-empty answer to the combined name/path question, other than the
/// single character naming the current directory, becomes the project path.
pub open spec fn entry_path_spec(l: Seq<char>) -> Option<Seq<char>> {
    if l.len() > 0 && l != "."@ {
        Some(l)
    } else {
        None
    }
}

/// The decision on one raw answer to the combined name/path question.
pub fn entry_path_of(line: String) -> (r: Option<String>)
    ensures
        r.deep_view() == entry_path_spec(line@),
{
    if line.as_str().unicode_len() > 0 && !text::str_eq(line.as_str(), ".") {
        Some(line)
    } else {
        None
    }
}

/// The combined name/path question: asked only when neither a name nor a
/// path was supplied explicitly; skipping it consumes no answer line.
pub fn wizard_entry_step(name_given: bool, path_given: bool, input: &mut ReplayInput) -> (r: Option<
    String,
>)
    requires
        old(input).wf(),
    ensures
        final(input).wf(),
        name_given || path_given ==> r is None && *final(input) == *old(input),
        !(name_given || path_given) ==> final(input).remaining() == tail_of(
            old(input).remaining(),
        ) && r.deep_view() == entry_path_spec(head_or_empty(old(input).remaining())),
{
    if name_given || path_given {
        return None;
    }
    let l = input.next_line();
    if l.as_str().unicode_len() > 0 && !text::str_eq(l.as_str(), ".") {
        Some(l)
    } else {
        None
    }
}

// which questions are asked, and which answer line serves each

pub open spec fn asks_overwrite(o: CliOptions, dir_nonempty: bool) -> bool {
    dir_nonempty && !o.force
}

pub open spec fn q_cc(o: CliOptions, dir_nonempty: bool) -> int {
    if asks_overwrite(o, dir_nonempty) {
        1
    } else {
        0
    }
}

pub open spec fn q_strictness(o: CliOptions, dir_nonempty: bool) -> int {
    q_cc(o, dir_nonempty) + if o.cc is None {
        1int
    } else {
        0int
    }
}

pub open spec fn q_linter(o: CliOptions, dir_nonempty: bool) -> int {
    q_strictness(o, dir_nonempty) + if o.strictness is None {
        1int
    } else {
        0int
    }
}

pub open spec fn q_git(o: CliOptions, dir_nonempty: bool) -> int {
    q_linter(o, dir_nonempty) + if o.linter_strictness is None {
        1int
    } else {
        0int
    }
}

pub open spec fn q_tests(o: CliOptions, dir_nonempty: bool) -> int {
    q_git(o, dir_nonempty) + if o.no_git_explicit {
        0int
    } else {
        1int
    }
}

/// How many answer lines the cascade consumes when it runs to the end: one
/// for each question asked, none for a question skipped.
pub open spec fn questions_asked(o: CliOptions, dir_nonempty: bool) -> int {
    q_tests(o, dir_nonempty) + if o.no_tests_explicit {
        0int
    } else {
        1int
    }
}

/// The run is cancelled exactly when the overwrite confirmation is asked and
/// the answer is not the option for yes.
pub open spec fn wizard_cancelled_spec(o: CliOptions, dir_nonempty: bool, ls: Seq<Seq<char>>) -> bool {
    asks_overwrite(o, dir_nonempty) && replay_choice_spec(line_at(ls, 0), 2, 0) != 1
}

pub open spec fn wizard_cc_spec(o: CliOptions, dir_nonempty: bool, ls: Seq<Seq<char>>) -> Option<
    Compiler,
> {
    match o.cc {
        Some(c) => Some(c),
        None => Some(
            cc_choice_spec(replay_choice_spec(line_at(ls, q_cc(o, dir_nonempty)), 2, 0)),
        ),
    }
}

pub open spec fn wizard_strictness_spec(
    o: CliOptions,
    dir_nonempty: bool,
    ls: Seq<Seq<char>>,
) -> Option<Strictness> {
    match o.strictness {
        Some(s) => Some(s),
        None => Some(
            strictness_choice_spec(
                replay_choice_spec(line_at(ls, q_strictness(o, dir_nonempty)), 3, 1),
            ),
        ),
    }
}

pub open spec fn wizard_linter_spec(
    o: CliOptions,
    dir_nonempty: bool,
    ls: Seq<Seq<char>>,
) -> Option<Strictness> {
    match o.linter_strictness {
        Some(s) => Some(s),
        None => linter_choice_spec(
            replay_choice_spec(line_at(ls, q_linter(o, dir_nonempty)), 4, 0),
        ),
    }
}

pub open spec fn wizard_no_git_spec(o: CliOptions, dir_nonempty: bool, ls: Seq<Seq<char>>) -> bool {
    if o.no_git_explicit {
        o.no_git
    } else {
        replay_choice_spec(line_at(ls, q_git(o, dir_nonempty)), 2, 1) == 0
    }
}

pub open spec fn wizard_no_tests_spec(
    o: CliOptions,
    dir_nonempty: bool,
    ls: Seq<Seq<char>>,
) -> bool {
    if o.no_tests_explicit {
        o.no_tests
    } else {
        replay_choice_spec(line_at(ls, q_tests(o, dir_nonempty)), 2, 1) == 0
    }
}

/// The wizard's question cascade in replay mode, in the fixed order:
/// overwrite confirmation, compiler, compiler strictness, linter strictness,
/// git, tests. Each question is asked only when its option was not supplied
/// explicitly, and consumes one answer line when asked; a declined overwrite
/// cancels the run at once and leaves every later field as it stood.
#[verifier::rlimit(60)]
pub fn wizard_main_steps(o: &CliOptions, dir_nonempty: bool, input: &mut ReplayInput) -> (w:
    WizardDecisions)
    requires
        old(input).wf(),
    ensures
        final(input).wf(),
        w.cancelled == wizard_cancelled_spec(*o, dir_nonempty, old(input).remaining()),
        w.cancelled ==> w.force == o.force && w.cc == o.cc && w.strictness == o.strictness
            && w.linter_strictness == o.linter_strictness && w.no_git == o.no_git && w.no_tests
            == o.no_tests,
        w.cancelled ==> final(input).remaining() == drop_k(old(input).remaining(), 1),
        !w.cancelled ==> final(input).remaining() == drop_k(
            old(input).remaining(),
            questions_asked(*o, dir_nonempty),
        ),
        !w.cancelled ==> {
            let ls = old(input).remaining();
            &&& w.force == (o.force || asks_overwrite(*o, dir_nonempty))
            &&& w.cc == wizard_cc_spec(*o, dir_nonempty, ls)
            &&& w.strictness == wizard_strictness_spec(*o, dir_nonempty, ls)
            &&& w.linter_strictness == wizard_linter_spec(*o, dir_nonempty, ls)
            &&& w.no_git == wizard_no_git_spec(*o, dir_nonempty, ls)
            &&& w.no_tests == wizard_no_tests_spec(*o, dir_nonempty, ls)
        },
{
    let ghost ls = old(input).remaining();
    let mut force = o.force;
    proof {
        assert(input.remaining() =~~= drop_k(ls, 0));
    }
    if dir_nonempty && !force {
        proof {
            lemma_drop_k_step(ls, 0);
        }
        let idx = select_replay(input, 2, 0);
        if idx == 1 {
            force = true;
        } else {
            proof {
                assert(input.remaining() == drop_k(ls, 1));
            }
            return WizardDecisions {
                cancelled: true,
                force: o.force,
                cc: o.cc,
                strictness: o.strictness,
                linter_strictness: o.linter_strictness,
                no_git: o.no_git,
                no_tests: o.no_tests,
            };
        }
    }
    let ghost k0 = q_cc(*o, dir_nonempty);
    proof {
        assert(input.remaining() =~~= drop_k(ls, k0));
    }
    let cc: Option<Compiler>;
    match o.cc {
        Some(c) => {
            cc = Some(c);
        },
        None => {
            proof {
                lemma_drop_k_step(ls, k0);
            }
            let idx = select_replay(input, 2, 0);
            cc = Some(map_cc_choice(idx));
        },
    }
    let ghost k1 = q_strictness(*o, dir_nonempty);
    proof {
        assert(input.remaining() =~~= drop_k(ls, k1));
    }
    let strictness: Option<Strictness>;
    match o.strictness {
        Some(s) => {
            strictness = Some(s);
        },
        None => {
            proof {
                lemma_drop_k_step(ls, k1);
            }
            let idx = select_replay(input, 3, 1);
            strictness = Some(map_strictness_choice(idx));
        },
    }
    let ghost k2 = q_linter(*o, dir_nonempty);
    proof {
        assert(input.remaining() =~~= drop_k(ls, k2));
    }
    let linter: Option<Strictness>;
    match o.linter_strictness {
        Some(s) => {
            linter = Some(s);
        },
        None => {
            proof {
                lemma_drop_k_step(ls, k2);
            }
            let idx = select_replay(input, 4, 0);
            linter = map_linter_choice(idx);
        },
    }
    let ghost k3 = q_git(*o, dir_nonempty);
    proof {
        assert(input.remaining() =~~= drop_k(ls, k3));
    }
    let no_git: bool;
    if o.no_git_explicit {
        no_git = o.no_git;
    } else {
        proof {
            lemma_drop_k_step(ls, k3);
        }
        let idx = select_replay(input, 2, 1);
        no_git = idx == 0;
    }
    let ghost k4 = q_tests(*o, dir_nonempty);
    proof {
        assert(input.remaining() =~~= drop_k(ls, k4));
    }
    let no_tests: bool;
    if o.no_tests_explicit {
        no_tests = o.no_tests;
    } else {
        proof {
            lemma_drop_k_step(ls, k4);
        }
        let idx = select_replay(input, 2, 1);
        no_tests = idx == 0;
    }
    proof {
        assert(input.remaining() =~~= drop_k(ls, questions_asked(*o, dir_nonempty)));
    }
    WizardDecisions {
        cancelled: false,
        force,
        cc,
        strictness,
        linter_strictness: linter,
        no_git,
        no_tests,
    }
}

/// With no replay lines remaining, every prompted choice resolves to its
/// caller-supplied default, and never to an error.
pub proof fn lemma_exhausted_choice_defaults(n: int, d: int)
    ensures
        replay_choice_spec(head_or_empty(Seq::empty()), n, d) == d,
{
    let l = head_or_empty(Seq::<Seq<char>>::empty());
    assert(l.len() == 0);
    assert(text::trim_spec(l).len() == 0);
}

} // verus!
