use c_init::config;
use c_init::config::{ColorWhen, Compiler, Strictness};
use c_init::style;

#[test]
fn defaults_apply_only_when_unset() {
    assert_eq!(config::default_compiler(None), Compiler::Clang);
    assert_eq!(config::default_compiler(Some(Compiler::Gcc)), Compiler::Gcc);
    assert_eq!(config::default_strictness(None), Strictness::Strict);
    assert_eq!(config::default_strictness(Some(Strictness::Loose)), Strictness::Loose);
}

#[test]
fn linter_strictness_falls_back_to_compiler_strictness() {
    assert_eq!(config::default_linter(None, Strictness::Loose), Strictness::Loose);
    assert_eq!(config::default_linter(None, Strictness::Strictest), Strictness::Strictest);
    assert_eq!(
        config::default_linter(Some(Strictness::Strict), Strictness::Loose),
        Strictness::Strict
    );
}

#[test]
fn explicit_gcc_loose_resolves_without_prompts() {
    let cc = config::default_compiler(Some(Compiler::Gcc));
    let strictness = config::default_strictness(Some(Strictness::Loose));
    let linter = config::default_linter(None, strictness);
    assert_eq!(cc, Compiler::Gcc);
    assert_eq!(strictness, Strictness::Loose);
    assert_eq!(linter, Strictness::Loose);
}

#[test]
fn path_resolution() {
    assert_eq!(config::resolve_path(None), ".");
    assert_eq!(config::resolve_path(Some(String::new())), ".");
    assert_eq!(config::resolve_path(Some("proj".to_string())), "proj");
}

#[test]
fn file_name_derivation() {
    assert_eq!(config::derive_file_name("foo/bar"), Some("bar".to_string()));
    assert_eq!(config::derive_file_name("foo/"), Some("foo".to_string()));
    assert_eq!(config::derive_file_name("bar"), Some("bar".to_string()));
    assert_eq!(config::derive_file_name("/home/me/proj"), Some("proj".to_string()));
    assert_eq!(config::derive_file_name("."), None);
    assert_eq!(config::derive_file_name(".."), None);
    assert_eq!(config::derive_file_name("/"), None);
    assert_eq!(config::derive_file_name(""), None);
}

#[test]
fn name_resolution_precedence() {
    assert_eq!(
        config::resolve_name(Some("Given".to_string()), "whatever", None),
        "Given"
    );
    assert_eq!(
        config::resolve_name(None, ".", Some("/home/me/proj".to_string())),
        "proj"
    );
    assert_eq!(config::resolve_name(None, ".", None), "project");
    assert_eq!(config::resolve_name(None, "a/b", None), "b");
    assert_eq!(config::resolve_name(None, "/", None), "project");
    assert_eq!(
        config::resolve_name(None, "./", Some("/home/me/proj".to_string())),
        "proj"
    );
    assert_eq!(
        config::resolve_name(None, ".//", Some("/home/me/proj".to_string())),
        "proj"
    );
}

#[test]
fn name_normalisation() {
    assert_eq!(config::normalize_name("My Proj"), "my_proj");
    assert_eq!(config::normalize_name("ABC-99"), "abc-99");
    assert_eq!(config::normalize_name("already_lower"), "already_lower");
}

#[test]
fn compiler_invocation_probing() {
    assert_eq!(
        config::compiler_invocation(Compiler::Gcc, true, false, true, true),
        "gcc-14"
    );
    assert_eq!(
        config::compiler_invocation(Compiler::Gcc, true, true, false, false),
        "gcc-15"
    );
    assert_eq!(
        config::compiler_invocation(Compiler::Gcc, true, false, false, true),
        "gcc-13"
    );
    assert_eq!(
        config::compiler_invocation(Compiler::Gcc, true, false, false, false),
        "gcc"
    );
    assert_eq!(config::compiler_invocation(Compiler::Gcc, false, true, true, true), "gcc");
    assert_eq!(config::compiler_invocation(Compiler::Clang, true, true, true, true), "clang");
}

#[test]
fn colour_mode_resolution() {
    assert!(config::color_enabled(ColorWhen::Always, false));
    assert!(!config::color_enabled(ColorWhen::Never, true));
    assert!(config::color_enabled(ColorWhen::Auto, true));
    assert!(!config::color_enabled(ColorWhen::Auto, false));
}

#[test]
fn colourising_wraps_only_when_enabled() {
    assert_eq!(style::colorize("x", "31", true), "\x1b[31mx\x1b[0m");
    assert_eq!(style::colorize("x", "31", false), "x");
    assert_eq!(style::green("ok", true), "\x1b[32mok\x1b[0m");
    assert_eq!(style::green("ok", false), "ok");
    assert_eq!(style::muted("note", true), "\x1b[90mnote\x1b[0m");
    assert_eq!(style::muted("note", false), "note");
}

#[test]
fn replay_echo_format() {
    assert_eq!(
        style::replay_echo("Compiler", "gcc", false),
        "Compiler: gcc (non-interactive)"
    );
    assert_eq!(
        style::replay_echo("Compiler", "gcc", true),
        "Compiler: \x1b[32mgcc\x1b[0m (non-interactive)"
    );
}
