use rush::{
    apply_set, flag_for, has_unbalanced_quotes, spaced_args, Flags, ReadEvent, Report, SetError,
    Shell, ShellState, StepOutcome, SubstitutionTable,
};

const PEXEC: u16 = 0x1;
const LPEXEC: u16 = 0x2;
const EXITONFAIL: u16 = 0x4;
const ERRUNSET: u16 = 0x8;

fn run(sh: &mut Shell, line: &str, t: &SubstitutionTable) -> StepOutcome {
    assert!(!sh.receive(ReadEvent::Line(line.to_string())));
    sh.execute(t)
}

fn words(v: &[&str]) -> Vec<String> {
    v.iter().map(|s| s.to_string()).collect()
}

#[test]
fn new_shell_waits_with_nothing_set() {
    let sh = Shell::new();
    assert!(matches!(sh.state, ShellState::AwaitingCommand));
    assert_eq!(sh.flags.bits, 0);
    assert_eq!(sh.status, 0);
    assert_eq!(sh.command_count, 0);
}

#[test]
fn reading_counts_lines_and_ends_on_end_of_input() {
    let mut sh = Shell::new();
    assert!(!sh.receive(ReadEvent::Interrupted));
    assert_eq!(sh.command_count, 0);
    assert!(!sh.receive(ReadEvent::Line("ls".to_string())));
    assert_eq!(sh.command_count, 1);
    match &sh.state {
        ShellState::Executing(l) => assert_eq!(l, "ls"),
        ShellState::AwaitingCommand => panic!("line not held"),
    }
    assert!(!sh.receive(ReadEvent::Failed));
    assert!(sh.receive(ReadEvent::EndOfInput));
}

#[test]
fn unclosed_quote_is_reported() {
    let t = SubstitutionTable::new();
    let mut sh = Shell::new();
    let out = run(&mut sh, "echo \"abc", &t);
    assert_eq!(sh.status, 1);
    assert!(!out.terminate);
    assert_eq!(out.reports.len(), 1);
    assert!(matches!(&out.reports[0], Report::UnclosedQuote(l) if l == "echo \"abc"));
    assert!(matches!(sh.state, ShellState::AwaitingCommand));
}

#[test]
fn other_split_failure_is_a_syntax_error() {
    let t = SubstitutionTable::new();
    let mut sh = Shell::new();
    let out = sh.dispatch(&"echo 'a' \"b\"".to_string(), None, &t);
    assert_eq!(sh.status, 1);
    assert!(matches!(&out.reports[0], Report::InvalidSyntax(_)));
    let out = run(&mut sh, "echo abc\\", &t);
    assert_eq!(sh.status, 1);
    assert!(matches!(&out.reports[0], Report::InvalidSyntax(l) if l == "echo abc\\"));
}

#[test]
fn quote_counts() {
    assert!(has_unbalanced_quotes("a\"b"));
    assert!(has_unbalanced_quotes("it's"));
    assert!(!has_unbalanced_quotes("'a' \"b\""));
}

#[test]
fn set_x_echoes_until_set_plus_x() {
    let t = SubstitutionTable::new();
    let mut sh = Shell::new();
    let out = run(&mut sh, "set -x", &t);
    assert!(out.reports.is_empty());
    assert_eq!(sh.flags.bits, PEXEC);
    let out = run(&mut sh, "true 'a b'", &t);
    assert_eq!(out.reports.len(), 1);
    assert!(matches!(&out.reports[0], Report::Echo(s) if s == "true 'a b'"));
    let out = run(&mut sh, "set +x", &t);
    assert!(matches!(&out.reports[0], Report::Echo(s) if s == "set +x"));
    assert_eq!(sh.flags.bits, 0);
    let out = run(&mut sh, "true", &t);
    assert!(out.reports.is_empty());
}

#[test]
fn set_e_ends_the_loop_after_a_failure() {
    let t = SubstitutionTable::new();
    let mut sh = Shell::new();
    let out = run(&mut sh, "set -z", &t);
    assert!(!out.terminate);
    assert_eq!(sh.status, 1);
    run(&mut sh, "ls", &t);
    assert_eq!(sh.status, 0);
    let out = run(&mut sh, "set -e", &t);
    assert!(!out.terminate);
    let out = run(&mut sh, "set -q", &t);
    assert!(out.terminate);
    assert_eq!(sh.status, 1);
}

#[test]
fn other_command_resets_status() {
    let t = SubstitutionTable::new();
    let mut sh2 = Shell::new();
    run(&mut sh2, "set ?", &t);
    assert_eq!(sh2.status, 1);
    let out = run(&mut sh2, "ls -l", &t);
    assert_eq!(sh2.status, 0);
    assert!(!out.terminate);
}

#[test]
fn failing_quote_with_e_terminates() {
    let t = SubstitutionTable::new();
    let mut sh = Shell::new();
    run(&mut sh, "set -e", &t);
    let out = run(&mut sh, "echo \"", &t);
    assert!(out.terminate);
}

#[test]
fn unknown_flag_leaves_flags_unchanged() {
    let t = SubstitutionTable::new();
    let mut sh = Shell::new();
    run(&mut sh, "set -x", &t);
    let out = run(&mut sh, "set -z", &t);
    assert_eq!(sh.status, 1);
    assert_eq!(sh.flags.bits, PEXEC);
    assert!(matches!(out.reports[1], Report::SetFailed(SetError::InvalidFlag('z'))));
}

#[test]
fn exit_ends_the_loop() {
    let t = SubstitutionTable::new();
    let mut sh = Shell::new();
    let out = run(&mut sh, "exit", &t);
    assert!(out.terminate);
}

#[test]
fn blank_line_changes_nothing() {
    let t = SubstitutionTable::new();
    let mut sh = Shell::new();
    run(&mut sh, "set -q", &t);
    let out = run(&mut sh, "   ", &t);
    assert!(out.reports.is_empty());
    assert!(!out.terminate);
    assert_eq!(sh.status, 1);
    assert_eq!(sh.command_count, 2);
}

#[test]
fn format_prints_decoded_text() {
    let mut t = SubstitutionTable::new();
    t.insert('u', "me".to_string());
    let mut sh = Shell::new();
    let out = run(&mut sh, "format %u said\\\\n", &t);
    assert_eq!(sh.status, 0);
    assert!(matches!(&out.reports[0], Report::Formatted(s) if s == "me said\n"));
    let out = run(&mut sh, "format 'a\\tb' c", &t);
    assert!(matches!(&out.reports[0], Report::Formatted(s) if s == "a\tb c"));
}

#[test]
fn format_failure_sets_status() {
    let t = SubstitutionTable::new();
    let mut sh = Shell::new();
    let out = run(&mut sh, "format %q", &t);
    assert_eq!(sh.status, 1);
    assert!(matches!(&out.reports[0], Report::FormatFailed(_)));
    let out = run(&mut sh, "format %D{x", &t);
    assert!(matches!(&out.reports[0], Report::FormatFailed(rush::TemplateError::Date(_))));
}

#[test]
fn flag_characters() {
    assert_eq!(flag_for('x').unwrap().bits, PEXEC);
    assert_eq!(flag_for('X').unwrap().bits, LPEXEC);
    assert_eq!(flag_for('e').unwrap().bits, EXITONFAIL);
    assert_eq!(flag_for('u').unwrap().bits, ERRUNSET);
    assert!(flag_for('z').is_none());
}

#[test]
fn set_arguments() {
    let f = Flags::empty();
    assert_eq!(apply_set(f, &words(&["set", "-xe", "-u"])), (Flags { bits: PEXEC | EXITONFAIL | ERRUNSET }, None));
    let on = Flags { bits: PEXEC | EXITONFAIL };
    assert_eq!(apply_set(on, &words(&["set", "+e"])), (Flags { bits: PEXEC }, None));
    assert_eq!(apply_set(f, &words(&["set", "-x", "y"])), (Flags { bits: PEXEC }, Some(SetError::NotAFlag)));
    assert_eq!(apply_set(f, &words(&["set", ""])), (f, Some(SetError::NotAFlag)));
    assert_eq!(apply_set(f, &words(&["set", "-xq", "-e"])), (Flags { bits: PEXEC }, Some(SetError::InvalidFlag('q'))));
    assert_eq!(apply_set(f, &words(&["set"])), (f, None));
}

#[test]
fn flag_set_operations() {
    let a = Flags { bits: PEXEC | EXITONFAIL };
    assert!(a.contains(Flags { bits: PEXEC }));
    assert!(!a.contains(Flags { bits: LPEXEC }));
    assert_eq!(a.union(Flags { bits: ERRUNSET }).bits, PEXEC | EXITONFAIL | ERRUNSET);
    assert_eq!(a.difference(Flags { bits: PEXEC }).bits, EXITONFAIL);
}

#[test]
fn format_arguments_joined_with_spaces() {
    assert_eq!(spaced_args(&words(&["format", "a", "b c", ""])), "a b c ");
    assert_eq!(spaced_args(&words(&["format"])), "");
}
