use kvik_aktions::registry::Action;
use kvik_aktions::script::{Interpreter, ScriptError, Stack};
use kvik_aktions::text::{derive_shortcut, split_lines_of, split_whitespace, strip_comment};

struct Run {
    invoked: Vec<usize>,
    interpreter: Interpreter,
}

fn run(actions: &Vec<Action<bool>>, script: &str) -> Run {
    let mut interpreter = Interpreter::new();
    let mut invoked = vec![];
    for (k, line) in split_lines_of(script).iter().enumerate() {
        if let Some(i) = interpreter.run_line(actions, line, k as i32 + 1) {
            invoked.push(i);
            interpreter.record_result(actions[i].callback);
        }
    }
    Run { invoked, interpreter }
}

fn ab_registry() -> Vec<Action<bool>> {
    vec![Action::new("Apple Bake", true)]
}

#[test]
fn balanced_block_runs_action() {
    let r = run(&ab_registry(), "5 5 =\nAB\n.");
    assert_eq!(r.invoked, vec![0]);
    assert_eq!(r.interpreter.stack.errors, vec![]);
    assert_eq!(r.interpreter.stack.contents, vec![1]);
    assert_eq!(r.interpreter.blocks, 0);
    assert!(!r.interpreter.skipping);
}

#[test]
fn mismatched_equality_skips_block() {
    let r = run(&ab_registry(), "3 4 =\nAB\n.");
    assert_eq!(r.invoked, Vec::<usize>::new());
    assert_eq!(r.interpreter.stack.errors, vec![]);
    assert_eq!(r.interpreter.blocks, 0);
    assert!(!r.interpreter.skipping);
}

#[test]
fn underflow_yields_zeros_and_opens_block() {
    let r = run(&ab_registry(), "=\nAB");
    assert_eq!(
        r.interpreter.stack.errors,
        vec![
            ScriptError::StackEmpty { line: 1, command: 1 },
            ScriptError::StackEmpty { line: 1, command: 1 },
        ]
    );
    assert_eq!(r.invoked, vec![0]);
    assert_eq!(r.interpreter.blocks, 1);
}

#[test]
fn unmatched_closer_reported_once() {
    let r = run(&ab_registry(), ".");
    assert_eq!(
        r.interpreter.stack.errors,
        vec![ScriptError::UnexpectedEndOfBlock { line: 1, command: 1 }]
    );
    assert_eq!(r.interpreter.blocks, 0);
    assert!(!r.interpreter.skipping);
    assert_eq!(r.interpreter.stack.contents, Vec::<i32>::new());
}

#[test]
fn unknown_shortcut_reported_with_line() {
    let r = run(&ab_registry(), "1\nXY please");
    assert_eq!(
        r.interpreter.stack.errors,
        vec![ScriptError::ShortcutNotFound { shortcut: "XY".to_string(), line: 2 }]
    );
    assert_eq!(r.interpreter.stack.contents, vec![1]);
}

#[test]
fn comment_is_ignored() {
    let r = run(&ab_registry(), "AB # Zebra\n# Only A comment\n2 # 3 Q");
    assert_eq!(r.invoked, vec![0]);
    assert_eq!(r.interpreter.stack.contents, vec![1, 2]);
    assert_eq!(r.interpreter.stack.errors, vec![]);
}

#[test]
fn failed_action_pushes_zero() {
    let actions = vec![Action::new("Never Applies", false)];
    let r = run(&actions, "NA");
    assert_eq!(r.invoked, vec![0]);
    assert_eq!(r.interpreter.stack.contents, vec![0]);
}

#[test]
fn skip_stops_at_first_closer_even_when_nested() {
    let r = run(&ab_registry(), "1 2 =\n3 3 =\n.\nAB");
    assert_eq!(r.invoked, vec![0]);
    assert_eq!(r.interpreter.blocks, 0);
    assert_eq!(r.interpreter.stack.errors, vec![]);
}

#[test]
fn skip_starts_within_the_same_line() {
    let r = run(&ab_registry(), "1 2 = 7 . 8");
    assert_eq!(r.interpreter.stack.contents, vec![8]);
    assert!(!r.interpreter.skipping);
    assert_eq!(r.interpreter.stack.errors, vec![]);
}

#[test]
fn skipped_action_line_is_inert() {
    let r = run(&ab_registry(), "1 2 =\nXY\nAB");
    assert_eq!(r.invoked, Vec::<usize>::new());
    assert_eq!(r.interpreter.stack.errors, vec![]);
    assert!(r.interpreter.skipping);
}

#[test]
fn open_block_closes_and_counts() {
    let r = run(&ab_registry(), "4 4 = 9 9 = . . .");
    assert_eq!(r.interpreter.blocks, 0);
    assert_eq!(
        r.interpreter.stack.errors,
        vec![ScriptError::UnexpectedEndOfBlock { line: 1, command: 9 }]
    );
}

#[test]
fn other_tokens_are_ignored() {
    let r = run(&ab_registry(), "foo 5 -3 +2 ..");
    assert_eq!(r.interpreter.stack.contents, vec![5, -3, 2]);
    assert_eq!(r.interpreter.stack.errors, vec![]);
}

#[test]
fn pop_reports_empty_stack() {
    let mut s = Stack::new();
    s.push(4);
    assert_eq!(s.pop(3, 2), 4);
    assert_eq!(s.pop(3, 5), 0);
    assert_eq!(s.errors, vec![ScriptError::StackEmpty { line: 3, command: 5 }]);
}

#[test]
fn text_helpers() {
    assert_eq!(derive_shortcut("Hello, World!"), "HW");
    assert_eq!(strip_comment("1 2 # three"), "1 2 ");
    assert_eq!(strip_comment("no comment"), "no comment");
    assert_eq!(split_whitespace("  5 \t= . "), vec!["5", "=", "."]);
    assert_eq!(split_whitespace(""), Vec::<String>::new());
    assert_eq!(split_lines_of("a\r\nb\n"), vec!["a", "b"]);
    assert_eq!(split_lines_of("\n\nc"), vec!["", "", "c"]);
    assert_eq!(split_lines_of(""), Vec::<String>::new());
}
