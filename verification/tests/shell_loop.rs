use zero_shell::shell::{interpret, prompt, LineAction};

fn env() -> Vec<(String, String)> {
    vec![("USER".to_string(), "alice".to_string())]
}

#[test]
fn prompt_abbreviates_home() {
    let home = Some("/home/alice".to_string());
    assert_eq!(prompt("/home/alice/projects/0-shell", &home), "~/projects/0-shell $ ");
    assert_eq!(prompt("/home/alice", &home), "~ $ ");
    assert_eq!(prompt("/tmp", &home), "/tmp $ ");
    assert_eq!(prompt("/home/alice2", &home), "/home/alice2 $ ");
    assert_eq!(prompt("/home/alice2/src", &home), "/home/alice2/src $ ");
    assert_eq!(prompt("/tmp", &None), "/tmp $ ");
    assert_eq!(prompt("/tmp", &Some(String::new())), "/tmp $ ");
    assert_eq!(prompt("?", &home), "? $ ");
}

#[test]
fn blank_lines_are_skipped() {
    assert_eq!(interpret("\n", &env()), LineAction::Skip);
    assert_eq!(interpret("   \t\n", &env()), LineAction::Skip);
    assert_eq!(interpret("\u{a0}\u{3000}\n\n", &env()), LineAction::Skip);
    assert_eq!(interpret("", &env()), LineAction::Skip);
}

#[test]
fn lines_are_parsed() {
    assert_eq!(
        interpret("echo \"hi $USER\" ; pwd\n", &env()),
        LineAction::Run(vec![
            vec!["echo".to_string(), "hi alice".to_string()],
            vec!["pwd".to_string()],
        ])
    );
    assert_eq!(interpret(";\n", &env()), LineAction::Run(vec![]));
}

#[test]
fn parse_errors_are_reported() {
    assert_eq!(
        interpret("echo 'oops\n", &env()),
        LineAction::Report("syntax error: unterminated quote '".to_string())
    );
}

#[test]
fn only_trailing_newlines_are_removed() {
    assert_eq!(
        interpret("ls\r\n\n", &env()),
        LineAction::Run(vec![vec!["ls\r".to_string()]])
    );
}
