use c_init::config::{CliOptions, ColorWhen, Compiler, Strictness};
use c_init::wizard;
use c_init::wizard::ReplayInput;

fn bare_options() -> CliOptions {
    CliOptions {
        name: None,
        path: None,
        cc: None,
        strictness: None,
        linter_strictness: None,
        color: ColorWhen::Auto,
        force: false,
        no_git: false,
        no_commit: false,
        no_hello: false,
        no_tests: false,
        no_git_explicit: false,
        no_tests_explicit: false,
    }
}

#[test]
fn replay_choice_parses_valid_indices() {
    assert_eq!(wizard::replay_choice("1", 3, 0), 1);
    assert_eq!(wizard::replay_choice("  2 ", 3, 0), 2);
    assert_eq!(wizard::replay_choice("+1", 3, 0), 1);
    assert_eq!(wizard::replay_choice("0", 2, 1), 0);
}

#[test]
fn replay_choice_falls_back_to_default() {
    assert_eq!(wizard::replay_choice("", 3, 1), 1);
    assert_eq!(wizard::replay_choice("abc", 3, 2), 2);
    assert_eq!(wizard::replay_choice("99", 3, 0), 0);
    assert_eq!(wizard::replay_choice("-1", 3, 2), 2);
    assert_eq!(wizard::replay_choice("99999999999999999999999999", 3, 1), 1);
}

#[test]
fn replay_choice_trims_unicode_whitespace() {
    assert_eq!(wizard::replay_choice("\u{000B}2", 3, 0), 2);
    assert_eq!(wizard::replay_choice("\u{00A0}1\u{00A0}", 3, 0), 1);
    assert_eq!(wizard::replay_choice("\u{000C} 0 \u{2028}", 2, 1), 0);
}

#[test]
fn cascade_consumes_one_line_per_asked_question() {
    let mut input = ReplayInput::from_text("1\n0\n2\n0\n1\nleftover\n");
    let o = bare_options();
    let w = wizard::wizard_main_steps(&o, false, &mut input);
    assert!(!w.cancelled);
    assert_eq!(input.next_line(), "leftover");
    let mut input = ReplayInput::from_text("0\nuntouched\n");
    let w = wizard::wizard_main_steps(&o, true, &mut input);
    assert!(w.cancelled);
    assert_eq!(input.next_line(), "untouched");
}

#[test]
fn exhausted_input_serves_empty_answers() {
    let mut input = ReplayInput::new(Vec::new());
    assert_eq!(input.next_line(), "");
    assert_eq!(input.next_line(), "");
    assert_eq!(wizard::select_replay(&mut input, 3, 1), 1);
    assert_eq!(wizard::select_replay(&mut input, 2, 0), 0);
}

#[test]
fn from_text_splits_lines() {
    let mut input = ReplayInput::from_text("0\n1\r\nabc\n");
    assert_eq!(input.next_line(), "0");
    assert_eq!(input.next_line(), "1");
    assert_eq!(input.next_line(), "abc");
    assert_eq!(input.next_line(), "");
}

#[test]
fn declined_overwrite_cancels() {
    let mut input = ReplayInput::from_text("0\n");
    let o = bare_options();
    let w = wizard::wizard_main_steps(&o, true, &mut input);
    assert!(w.cancelled);
    assert!(!w.force);
}

#[test]
fn empty_answer_declines_overwrite_by_default() {
    let mut input = ReplayInput::new(Vec::new());
    let o = bare_options();
    let w = wizard::wizard_main_steps(&o, true, &mut input);
    assert!(w.cancelled);
}

#[test]
fn confirmed_overwrite_sets_force_for_the_rest_of_the_run() {
    let mut input = ReplayInput::from_text("1\n");
    let o = bare_options();
    let w = wizard::wizard_main_steps(&o, true, &mut input);
    assert!(!w.cancelled);
    assert!(w.force);
}

#[test]
fn full_cascade_in_order() {
    let mut input = ReplayInput::from_text("1\n0\n2\n0\n1\n");
    let o = bare_options();
    let w = wizard::wizard_main_steps(&o, false, &mut input);
    assert!(!w.cancelled);
    assert_eq!(w.cc, Some(Compiler::Gcc));
    assert_eq!(w.strictness, Some(Strictness::Loose));
    assert_eq!(w.linter_strictness, Some(Strictness::Strict));
    assert!(w.no_git);
    assert!(!w.no_tests);
}

#[test]
fn explicit_options_are_never_reasked() {
    let mut input = ReplayInput::from_text("1\n");
    let mut o = bare_options();
    o.cc = Some(Compiler::Clang);
    o.strictness = Some(Strictness::Strictest);
    o.linter_strictness = Some(Strictness::Loose);
    o.no_git_explicit = true;
    o.no_git = true;
    let w = wizard::wizard_main_steps(&o, false, &mut input);
    assert!(!w.cancelled);
    assert_eq!(w.cc, Some(Compiler::Clang));
    assert_eq!(w.strictness, Some(Strictness::Strictest));
    assert_eq!(w.linter_strictness, Some(Strictness::Loose));
    assert!(w.no_git);
    assert!(!w.no_tests);
    assert_eq!(input.next_line(), "");
}

#[test]
fn exhausted_cascade_resolves_to_all_defaults() {
    let mut input = ReplayInput::new(Vec::new());
    let o = bare_options();
    let w = wizard::wizard_main_steps(&o, false, &mut input);
    assert!(!w.cancelled);
    assert_eq!(w.cc, Some(Compiler::Clang));
    assert_eq!(w.strictness, Some(Strictness::Strict));
    assert_eq!(w.linter_strictness, None);
    assert!(!w.no_git);
    assert!(!w.no_tests);
}

#[test]
fn entry_step_takes_path_answers() {
    let mut input = ReplayInput::from_text("myproj\n");
    let r = wizard::wizard_entry_step(false, false, &mut input);
    assert_eq!(r, Some("myproj".to_string()));
    let mut input = ReplayInput::from_text(".\n");
    let r = wizard::wizard_entry_step(false, false, &mut input);
    assert_eq!(r, None);
    let mut input = ReplayInput::from_text("ignored\n");
    let r = wizard::wizard_entry_step(true, false, &mut input);
    assert_eq!(r, None);
    assert_eq!(input.next_line(), "ignored");
}
