//! The resolved configuration and the precedence rules that produce it:
//! explicit value first, then an interactive answer, then the built-in
//! default; plus project-name derivation and the compiler invocation name.
use vstd::prelude::*;
use crate::text;

verus! {

#[derive(Clone, Copy, Debug, PartialEq, Eq, Structural)]
pub enum Compiler {
    Clang,
    Gcc,
}

#[derive(Clone, Copy, Debug, PartialEq, Eq, Structural)]
pub enum Strictness {
    Loose,
    Strict,
    Strictest,
}

#[derive(Clone, Copy, Debug, PartialEq, Eq, Structural)]
pub enum ColorWhen {
    Auto,
    Always,
    Never,
}

/// The explicitly supplied invocation values, before the wizard or the
/// defaults fill the gaps. A `None` means the option was not given. The two
/// `_explicit` fields record whether the corresponding toggle appeared on the
/// command line at all, since an explicit toggle is never re-asked.
pub struct CliOptions {
    pub name: Option<String>,
    pub path: Option<String>,
    pub cc: Option<Compiler>,
    pub strictness: Option<Strictness>,
    pub linter_strictness: Option<Strictness>,
    pub color: ColorWhen,
    pub force: bool,
    pub no_git: bool,
    pub no_commit: bool,
    pub no_hello: bool,
    pub no_tests: bool,
    pub no_git_explicit: bool,
    pub no_tests_explicit: bool,
}

/// The immutable configuration a run scaffolds from.
pub struct ResolvedConfig {
    pub name: String,
    pub path: String,
    pub cc: Compiler,
    pub strictness: Strictness,
    pub linter_strictness: Strictness,
    pub color: ColorWhen,
    pub force: bool,
    pub no_git: bool,
    pub no_commit: bool,
    pub no_hello: bool,
    pub no_tests: bool,
}

// ---- defaults ----

pub open spec fn default_compiler_spec(c: Option<Compiler>) -> Compiler {
    match c {
        Some(x) => x,
        None => Compiler::Clang,
    }
}

pub fn default_compiler(c: Option<Compiler>) -> (r: Compiler)
    ensures
        r == default_compiler_spec(c),
{
    match c {
        Some(x) => x,
        None => Compiler::Clang,
    }
}

pub open spec fn default_strictness_spec(s: Option<Strictness>) -> Strictness {
    match s {
        Some(x) => x,
        None => Strictness::Strict,
    }
}

pub fn default_strictness(s: Option<Strictness>) -> (r: Strictness)
    ensures
        r == default_strictness_spec(s),
{
    match s {
        Some(x) => x,
        None => Strictness::Strict,
    }
}

/// Linter strictness left unset falls back to the already-resolved compiler
/// strictness, after both fields went through their own precedence steps.
pub open spec fn default_linter_spec(l: Option<Strictness>, resolved: Strictness) -> Strictness {
    match l {
        Some(x) => x,
        None => resolved,
    }
}

pub fn default_linter(l: Option<Strictness>, resolved: Strictness) -> (r: Strictness)
    ensures
        r == default_linter_spec(l, resolved),
{
    match l {
        Some(x) => x,
        None => resolved,
    }
}

pub open spec fn color_enabled_spec(mode: ColorWhen, stdout_tty: bool) -> bool {
    match mode {
        ColorWhen::Always => true,
        ColorWhen::Never => false,
        ColorWhen::Auto => stdout_tty,
    }
}

pub fn color_enabled(mode: ColorWhen, stdout_tty: bool) -> (r: bool)
    ensures
        r == color_enabled_spec(mode, stdout_tty),
{
    match mode {
        ColorWhen::Always => true,
        ColorWhen::Never => false,
        ColorWhen::Auto => stdout_tty,
    }
}

// ---- paths and names ----

/// An absent or empty path resolves to the current directory.
pub open spec fn resolve_path_spec(p: Option<Seq<char>>) -> Seq<char> {
    match p {
        Some(s) => if s.len() > 0 {
            s
        } else {
            "."@
        },
        None => "."@,
    }
}

pub fn resolve_path(p: Option<String>) -> (r: String)
    ensures
        r@ == resolve_path_spec(p.deep_view()),
{
    match p {
        Some(s) => {
            if s.as_str().unicode_len() > 0 {
                s
            } else {
                String::from_str(".")
            }
        },
        None => String::from_str("."),
    }
}

pub open spec fn stripped_end(s: Seq<char>) -> Seq<char>
    decreases s.len(),
{
    if s.len() > 0 && s.last() == '/' {
        stripped_end(s.drop_last())
    } else {
        s
    }
}

pub open spec fn after_last_slash(s: Seq<char>) -> Seq<char>
    decreases s.len(),
{
    if s.len() == 0 {
        s
    } else if s.last() == '/' {
        Seq::empty()
    } else {
        after_last_slash(s.drop_last()) + seq![s.last()]
    }
}

/// The final segment of a path: trailing separators are ignored, and an
/// empty, `.` or `..` segment yields no name.
pub open spec fn file_name_spec(s: Seq<char>) -> Option<Seq<char>> {
    let seg = after_last_slash(stripped_end(s));
    if seg.len() == 0 || seg == "."@ || seg == ".."@ {
        None
    } else {
        Some(seg)
    }
}

proof fn lemma_stripped_end_at(s: Seq<char>, b: int)
    requires
        0 <= b <= s.len(),
        forall|j: int| b <= j < s.len() ==> s[j] == '/',
        b == 0 || s[b - 1] != '/',
    ensures
        stripped_end(s) == s.take(b),
    decreases s.len() - b,
{
    if b == s.len() {
        assert(s.take(b) =~= s);
    } else {
        assert(s.last() == '/');
        lemma_stripped_end_at(s.drop_last(), b);
        assert(s.drop_last().take(b) =~= s.take(b));
    }
}

proof fn lemma_after_last_slash_at(t: Seq<char>, a: int)
    requires
        0 <= a <= t.len(),
        forall|j: int| a <= j < t.len() ==> t[j] != '/',
        a == 0 || t[a - 1] == '/',
    ensures
        after_last_slash(t) == t.skip(a),
    decreases t.len(),
{
    if t.len() == 0 {
        assert(t.skip(a) =~= t);
    } else if t.last() == '/' {
        assert(a == t.len());
        assert(t.skip(a) =~= Seq::<char>::empty());
    } else {
        if a == t.len() {
            assert(t[a - 1] == '/');
            assert(false);
        }
        lemma_after_last_slash_at(t.drop_last(), a);
        assert(t.drop_last().skip(a) + seq![t.last()] =~= t.skip(a));
    }
}

pub fn derive_file_name(s: &str) -> (r: Option<String>)
    ensures
        match r {
            Some(n) => file_name_spec(s@) == Some(n@),
            None => file_name_spec(s@) is None,
        },
{
    let n = s.unicode_len();
    let mut b: usize = n;
    while b > 0 && s.get_char(b - 1) == '/'
        invariant
            b <= n,
            n == s@.len(),
            forall|j: int| b <= j < n ==> s@[j] == '/',
        decreases b,
    {
        b = b - 1;
    }
    let mut a: usize = b;
    while a > 0 && s.get_char(a - 1) != '/'
        invariant
            a <= b <= n,
            n == s@.len(),
            forall|j: int| b <= j < n ==> s@[j] == '/',
            b == 0 || s@[b - 1] != '/',
            forall|j: int| a <= j < b ==> s@[j] != '/',
        decreases a,
    {
        a = a - 1;
    }
    proof {
        lemma_stripped_end_at(s@, b as int);
        let t = s@.take(b as int);
        lemma_after_last_slash_at(t, a as int);
        assert(t.skip(a as int) =~= s@.subrange(a as int, b as int));
    }
    let seg = s.substring_char(a, b);
    if seg.unicode_len() == 0 || text::str_eq(seg, ".") || text::str_eq(seg, "..") {
        None
    } else {
        Some(String::from_str(seg))
    }
}

/// A spelling of the current directory: `.` alone, possibly followed by
/// trailing separators (`./`, `.//`, ...).
pub open spec fn is_cur_dir_spec(s: Seq<char>) -> bool {
    stripped_end(s) == "."@
}

pub fn is_cur_dir(s: &str) -> (r: bool)
    ensures
        r == is_cur_dir_spec(s@),
{
    let n = s.unicode_len();
    let mut b: usize = n;
    while b > 0 && s.get_char(b - 1) == '/'
        invariant
            b <= n,
            n == s@.len(),
            forall|j: int| b <= j < n ==> s@[j] == '/',
        decreases b,
    {
        b = b - 1;
    }
    proof {
        lemma_stripped_end_at(s@, b as int);
        assert(s@.take(b as int) =~= s@.subrange(0, b as int));
    }
    text::str_eq(s.substring_char(0, b), ".")
}

/// Project-name precedence: an explicit name wins; otherwise the name is the
/// final segment of the resolved path (of the current directory, when the
/// path spells the current directory); otherwise the fixed fallback
/// `project`.
pub open spec fn resolve_name_spec(
    name: Option<Seq<char>>,
    path: Seq<char>,
    cwd: Option<Seq<char>>,
) -> Seq<char> {
    match name {
        Some(x) => x,
        None => {
            let derived = if is_cur_dir_spec(path) {
                match cwd {
                    Some(c) => file_name_spec(c),
                    None => None,
                }
            } else {
                file_name_spec(path)
            };
            match derived {
                Some(x) => x,
                None => "project"@,
            }
        },
    }
}

pub fn resolve_name(name: Option<String>, path: &str, cwd: Option<String>) -> (r: String)
    ensures
        r@ == resolve_name_spec(name.deep_view(), path@, cwd.deep_view()),
{
    match name {
        Some(x) => x,
        None => {
            let derived: Option<String> = if is_cur_dir(path) {
                match cwd {
                    Some(c) => derive_file_name(c.as_str()),
                    None => None,
                }
            } else {
                derive_file_name(path)
            };
            match derived {
                Some(x) => x,
                None => String::from_str("project"),
            }
        },
    }
}

// ---- normalised project name ----

/// Lowercasing of ASCII letters with spaces turned into underscores, as used
/// for the build-system name marker.
pub open spec fn normal_char(c: char) -> char {
    if c == ' ' {
        '_'
    } else if 65 <= c as int && c as int <= 90 {
        ((c as int) + 32) as char
    } else {
        c
    }
}

pub open spec fn normalized_spec(s: Seq<char>) -> Seq<char> {
    s.map_values(|c: char| normal_char(c))
}

fn normal_char_exec(c: char) -> (r: char)
    ensures
        r == normal_char(c),
{
    match c {
        ' ' => '_',
        'A' => 'a',
        'B' => 'b',
        'C' => 'c',
        'D' => 'd',
        'E' => 'e',
        'F' => 'f',
        'G' => 'g',
        'H' => 'h',
        'I' => 'i',
        'J' => 'j',
        'K' => 'k',
        'L' => 'l',
        'M' => 'm',
        'N' => 'n',
        'O' => 'o',
        'P' => 'p',
        'Q' => 'q',
        'R' => 'r',
        'S' => 's',
        'T' => 't',
        'U' => 'u',
        'V' => 'v',
        'W' => 'w',
        'X' => 'x',
        'Y' => 'y',
        'Z' => 'z',
        _ => c,
    }
}

pub fn normalize_name(s: &str) -> (r: String)
    ensures
        r@ == normalized_spec(s@),
{
    let n = s.unicode_len();
    let mut out = String::new();
    let mut i: usize = 0;
    proof {
        assert(out@ =~= s@.take(0).map_values(|c: char| normal_char(c)));
    }
    while i < n
        invariant
            i <= n,
            n == s@.len(),
            out@ == s@.take(i as int).map_values(|c: char| normal_char(c)),
        decreases n - i,
    {
        let c = normal_char_exec(s.get_char(i));
        out.push(c);
        proof {
            assert(s@.take(i + 1).map_values(|c: char| normal_char(c)) =~= s@.take(
                i as int,
            ).map_values(|c: char| normal_char(c)).push(normal_char(s@[i as int])));
        }
        i = i + 1;
    }
    proof {
        assert(s@.take(n as int) =~= s@);
    }
    out
}

// ---- compiler invocation name ----

pub open spec fn base_cc_name(cc: Compiler) -> Seq<char> {
    match cc {
        Compiler::Clang => "clang"@,
        Compiler::Gcc => "gcc"@,
    }
}

/// The recorded invocation name: on the one platform that carries versioned
/// alternates, the first of `gcc-15`, `gcc-14`, `gcc-13` that was found on
/// the search path replaces plain `gcc`; flag text is never affected.
pub open spec fn invocation_spec(
    cc: Compiler,
    on_macos: bool,
    f15: bool,
    f14: bool,
    f13: bool,
) -> Seq<char> {
    if cc == Compiler::Gcc && on_macos {
        if f15 {
            "gcc-15"@
        } else if f14 {
            "gcc-14"@
        } else if f13 {
            "gcc-13"@
        } else {
            "gcc"@
        }
    } else {
        base_cc_name(cc)
    }
}

pub fn compiler_invocation(cc: Compiler, on_macos: bool, f15: bool, f14: bool, f13: bool) -> (r:
    String)
    ensures
        r@ == invocation_spec(cc, on_macos, f15, f14, f13),
{
    if cc == Compiler::Gcc && on_macos {
        if f15 {
            String::from_str("gcc-15")
        } else if f14 {
            String::from_str("gcc-14")
        } else if f13 {
            String::from_str("gcc-13")
        } else {
            String::from_str("gcc")
        }
    } else {
        match cc {
            Compiler::Clang => String::from_str("clang"),
            Compiler::Gcc => String::from_str("gcc"),
        }
    }
}

} // verus!
