use c_init::config::{Compiler, Strictness};
use c_init::flags;

const LOOSE_GCC: &str = "-std=c2x\n-Iinclude\n-Wall\n-Wextra";
const LOOSE_CLANG: &str =
    "-std=c2x\n-Iinclude\n-Wall\n-Wextra\n-isystem/opt/homebrew/include\n-isystem/usr/local/include";
const STRICT_COMMON: &str = "-Werror\n-Wpedantic\n-Wcast-align\n-Wpointer-arith\n-Wmissing-prototypes\n-Wstrict-prototypes\n-Wsign-conversion\n-Wswitch-enum\n-Wconversion\n-Wcast-qual\n-Wshadow";
const STRICTEST_COMMON: &str =
    "-Wundef\n-Wformat=2\n-Wfloat-equal\n-Wswitch-default\n-Wdouble-promotion";

#[test]
fn loose_flags_exact() {
    assert_eq!(flags::compose_flags(Compiler::Gcc, Strictness::Loose), LOOSE_GCC);
    assert_eq!(flags::compose_flags(Compiler::Clang, Strictness::Loose), LOOSE_CLANG);
}

#[test]
fn strict_flags_exact() {
    let expected_clang = format!("{}\n{}", LOOSE_CLANG, STRICT_COMMON);
    assert_eq!(flags::compose_flags(Compiler::Clang, Strictness::Strict), expected_clang);
    let expected_gcc = format!("{}\n{}\n-Wlogical-op\n-Wjump-misses-init", LOOSE_GCC, STRICT_COMMON);
    assert_eq!(flags::compose_flags(Compiler::Gcc, Strictness::Strict), expected_gcc);
}

#[test]
fn strictest_flags_exact() {
    let strict_clang = flags::compose_flags(Compiler::Clang, Strictness::Strict);
    let expected_clang = format!("{}\n{}\n-Wstrict-overflow=5", strict_clang, STRICTEST_COMMON);
    assert_eq!(flags::compose_flags(Compiler::Clang, Strictness::Strictest), expected_clang);
    let strict_gcc = flags::compose_flags(Compiler::Gcc, Strictness::Strict);
    let expected_gcc = format!(
        "{}\n{}\n-Wstrict-overflow=2\n-Wduplicated-cond\n-Wduplicated-branches\n-Wrestrict\n-Wnull-dereference\n-Wjump-misses-init",
        strict_gcc, STRICTEST_COMMON
    );
    assert_eq!(flags::compose_flags(Compiler::Gcc, Strictness::Strictest), expected_gcc);
}

#[test]
fn tiers_are_layered() {
    for cc in [Compiler::Clang, Compiler::Gcc] {
        let loose = flags::compose_flags(cc, Strictness::Loose);
        let strict = flags::compose_flags(cc, Strictness::Strict);
        let strictest = flags::compose_flags(cc, Strictness::Strictest);
        assert!(strict.starts_with(&loose));
        assert!(strictest.starts_with(&strict));
    }
}

#[test]
fn composition_is_deterministic() {
    for cc in [Compiler::Clang, Compiler::Gcc] {
        for t in [Strictness::Loose, Strictness::Strict, Strictness::Strictest] {
            assert_eq!(flags::compose_flags(cc, t), flags::compose_flags(cc, t));
            assert_eq!(flags::compose_test_flags(cc, t), flags::compose_test_flags(cc, t));
        }
    }
}

#[test]
fn test_flags_replace_project_include() {
    let derived = flags::compose_test_flags(Compiler::Gcc, Strictness::Loose);
    assert_eq!(derived, "-std=c2x\n-I../include\n-I.\n-isystem\n./test-deps\n-Wall\n-Wextra");
    assert!(!derived.contains("-Iinclude"));
    for cc in [Compiler::Clang, Compiler::Gcc] {
        for t in [Strictness::Loose, Strictness::Strict, Strictness::Strictest] {
            let plain = flags::compose_flags(cc, t);
            let derived = flags::compose_test_flags(cc, t);
            assert!(!derived.contains("-Iinclude"));
            assert!(derived.contains("-I../include\n-I.\n-isystem\n./test-deps"));
            assert_eq!(
                derived,
                plain.replace("-Iinclude", "-I../include\n-I.\n-isystem\n./test-deps")
            );
        }
    }
}

#[test]
fn flags_concat_trims_and_joins() {
    let parts: Vec<&str> = vec!["  a  ", "", "b\nc", " \n "];
    assert_eq!(flags::flags_concat(&parts), "a\nb\nc");
    let blocks: Vec<&str> = vec!["-std=c2x\n-Iinclude\n-Wall\n-Wextra\n"];
    assert_eq!(flags::flags_concat(&blocks), "-std=c2x\n-Iinclude\n-Wall\n-Wextra");
    let empty: Vec<&str> = vec![];
    assert_eq!(flags::flags_concat(&empty), "");
    let unicode_blank: Vec<&str> = vec!["\u{000B}", "a", "\u{00A0}b\u{3000}"];
    assert_eq!(flags::flags_concat(&unicode_blank), "a\nb");
}
