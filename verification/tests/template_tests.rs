use c_init::template;

const TPL: &str = "CC = {CC}\nNAME = {NAME}\n.PHONY: {PHONY}\n# TEST_SECTION_BEGIN\ntest:\n\t@echo test\n# TEST_SECTION_END\nclean:\n\trm -rf target\n";

#[test]
fn well_formedness() {
    assert!(template::template_well_formed(TPL));
    assert!(!template::template_well_formed("no markers here\n"));
    assert!(!template::template_well_formed("# TEST_SECTION_BEGIN\nbody\n"));
    assert!(!template::template_well_formed(
        "# TEST_SECTION_END\nbody\n# TEST_SECTION_BEGIN\n"
    ));
}

#[test]
fn render_with_tests_keeps_body_and_drops_markers() {
    let out = template::render_makefile(TPL, "clang", "my_proj", true);
    assert_eq!(
        out,
        "CC = clang\nNAME = my_proj\n.PHONY: all run release run-release test sanitize fmt lint clean\ntest:\n\t@echo test\nclean:\n\trm -rf target\n"
    );
}

#[test]
fn render_without_tests_inserts_fallback() {
    let out = template::render_makefile(TPL, "gcc", "my_proj", false);
    assert_eq!(
        out,
        "CC = gcc\nNAME = my_proj\n.PHONY: all run release run-release sanitize fmt lint clean\nsanitize:\n\t@$(MAKE) SANITIZE=1 MODE=debug all\n\nclean:\n\trm -rf target\n"
    );
}

#[test]
fn render_is_deterministic() {
    let a = template::render_makefile(TPL, "clang", "p", true);
    let b = template::render_makefile(TPL, "clang", "p", true);
    assert_eq!(a, b);
    let c = template::render_makefile(TPL, "clang", "p", false);
    let d = template::render_makefile(TPL, "clang", "p", false);
    assert_eq!(c, d);
}

#[test]
fn suppressed_tests_leave_no_marker_lines() {
    let out = template::render_makefile(TPL, "clang", "p", false);
    assert!(!out.contains("# TEST_SECTION_BEGIN"));
    assert!(!out.contains("# TEST_SECTION_END"));
    assert!(out.contains("sanitize:\n\t@$(MAKE) SANITIZE=1 MODE=debug all"));
}

#[test]
fn suppressed_tests_have_no_test_phony_target() {
    let out = template::render_makefile(TPL, "clang", "p", false);
    assert!(out.contains(".PHONY: all run release run-release sanitize fmt lint clean"));
    assert!(!out.contains(" test "));
    assert_eq!(
        template::phony_targets(false),
        "all run release run-release sanitize fmt lint clean"
    );
    assert_eq!(
        template::phony_targets(true),
        "all run release run-release test sanitize fmt lint clean"
    );
}

#[test]
fn readme_substitution() {
    let out = template::render_readme("# {PROJECT_NAME}\n\nA project.\n", "My Proj");
    assert_eq!(out, "# My Proj\n\nA project.\n");
    let twice = template::render_readme("{PROJECT_NAME} and {PROJECT_NAME}", "x");
    assert_eq!(twice, "x and x");
}
