use zero_shell::lexer::{expand_var, parse_line, LexError};

fn env() -> Vec<(String, String)> {
    vec![
        ("HOME".to_string(), "/home/alice".to_string()),
        ("USER".to_string(), "alice".to_string()),
        ("EMPTY".to_string(), String::new()),
    ]
}

fn words(v: &[&str]) -> Vec<String> {
    v.iter().map(|s| s.to_string()).collect()
}

#[test]
fn splits_on_spaces_and_tabs() {
    let r = parse_line("echo  hello\tworld ", &env()).unwrap();
    assert_eq!(r, vec![words(&["echo", "hello", "world"])]);
}

#[test]
fn chains_commands_on_semicolon() {
    let r = parse_line("mkdir a ; cd a ; pwd", &env()).unwrap();
    assert_eq!(r, vec![words(&["mkdir", "a"]), words(&["cd", "a"]), words(&["pwd"])]);
}

#[test]
fn drops_empty_commands() {
    let r = parse_line(";; ls;  ;", &env()).unwrap();
    assert_eq!(r, vec![words(&["ls"])]);
    assert_eq!(parse_line("", &env()).unwrap(), Vec::<Vec<String>>::new());
    assert_eq!(parse_line("   ", &env()).unwrap(), Vec::<Vec<String>>::new());
}

#[test]
fn semicolon_without_spaces_splits() {
    let r = parse_line("a;b", &env()).unwrap();
    assert_eq!(r, vec![words(&["a"]), words(&["b"])]);
}

#[test]
fn single_quotes_are_literal() {
    let r = parse_line("echo '$HOME ; \\n \"x\"'", &env()).unwrap();
    assert_eq!(r, vec![words(&["echo", "$HOME ; \\n \"x\""])]);
}

#[test]
fn double_quotes_keep_spaces_and_expand() {
    let r = parse_line("echo \"Hello There $USER\"", &env()).unwrap();
    assert_eq!(r, vec![words(&["echo", "Hello There alice"])]);
}

#[test]
fn double_quote_escapes() {
    let r = parse_line(r#"echo "a\"b\\c\$d\ne""#, &env()).unwrap();
    assert_eq!(r, vec![words(&["echo", "a\"b\\c$d\\ne"])]);
}

#[test]
fn empty_quotes_make_an_argument() {
    let r = parse_line("echo \"\" ''", &env()).unwrap();
    assert_eq!(r, vec![words(&["echo", "", ""])]);
}

#[test]
fn quotes_join_with_neighbours() {
    let r = parse_line("a'b c'\"d\"e", &env()).unwrap();
    assert_eq!(r, vec![words(&["ab cde"])]);
}

#[test]
fn backslash_outside_quotes() {
    let r = parse_line("echo a\\ b \\;", &env()).unwrap();
    assert_eq!(r, vec![words(&["echo", "a b", ";"])]);
}

#[test]
fn trailing_backslash_makes_empty_argument() {
    let r = parse_line("echo \\", &env()).unwrap();
    assert_eq!(r, vec![words(&["echo", ""])]);
}

#[test]
fn bare_and_braced_variables() {
    let r = parse_line("echo $HOME/x ${USER}Y $USER-z", &env()).unwrap();
    assert_eq!(r, vec![words(&["echo", "/home/alice/x", "aliceY", "alice-z"])]);
}

#[test]
fn unknown_variable_expands_to_nothing() {
    let r = parse_line("echo $NOPE x${NOPE}y", &env()).unwrap();
    assert_eq!(r, vec![words(&["echo", "", "xy"])]);
}

#[test]
fn lone_dollar_is_literal() {
    let r = parse_line("echo $ a$ \"$\" $.", &env()).unwrap();
    assert_eq!(r, vec![words(&["echo", "$", "a$", "$", "$."])]);
}

#[test]
fn variable_name_stops_at_non_name_char() {
    let r = parse_line("echo $USER_X $USER.x", &env()).unwrap();
    assert_eq!(r, vec![words(&["echo", "", "alice.x"])]);
}

#[test]
fn unclosed_brace_takes_rest_of_line() {
    let r = parse_line("echo ${USER", &env()).unwrap();
    assert_eq!(r, vec![words(&["echo", "alice"])]);
}

#[test]
fn first_binding_wins() {
    let e = vec![("A".to_string(), "1".to_string()), ("A".to_string(), "2".to_string())];
    assert_eq!(parse_line("$A", &e).unwrap(), vec![words(&["1"])]);
}

#[test]
fn unterminated_single_quote() {
    let e = parse_line("echo 'abc", &env()).unwrap_err();
    assert_eq!(e, LexError::UnterminatedQuote('\''));
    assert_eq!(e.message(), "syntax error: unterminated quote '");
}

#[test]
fn unterminated_double_quote() {
    let e = parse_line("echo \"abc", &env()).unwrap_err();
    assert_eq!(e, LexError::UnterminatedQuote('"'));
    assert_eq!(e.message(), "syntax error: unterminated quote \"");
    assert_eq!(parse_line("\"a\\", &env()).unwrap_err(), LexError::UnterminatedQuote('"'));
}

#[test]
fn error_in_later_command_fails_whole_line() {
    assert!(parse_line("ls ; echo 'x", &env()).is_err());
}

#[test]
fn single_quoted_text_round_trips() {
    for t in ["", "a b", "$HOME", "x;y", "\\", "\"q\""] {
        let line = format!("'{}'", t);
        assert_eq!(parse_line(&line, &env()).unwrap(), vec![words(&[t])]);
    }
}

#[test]
fn chained_plain_prefix_concatenates() {
    let a = "ls -l";
    let b = "echo \"$USER\" ; pwd";
    let joined = parse_line(&format!("{};{}", a, b), &env()).unwrap();
    let mut expected = parse_line(a, &env()).unwrap();
    expected.extend(parse_line(b, &env()).unwrap());
    assert_eq!(joined, expected);
}

#[test]
fn carriage_return_is_ordinary() {
    let r = parse_line("pwd\r", &env()).unwrap();
    assert_eq!(r, vec![words(&["pwd\r"])]);
}

#[test]
fn double_quoted_text_is_one_argument() {
    let r = parse_line("\"a ; b\tc  d\"", &env()).unwrap();
    assert_eq!(r, vec![words(&["a ; b\tc  d"])]);
}

#[test]
fn braced_variable_is_its_own_argument() {
    assert_eq!(parse_line("${USER}", &env()).unwrap(), vec![words(&["alice"])]);
    assert_eq!(parse_line("${NOPE}", &env()).unwrap(), vec![words(&[""])]);
    assert_eq!(parse_line("${EMPTY}", &env()).unwrap(), vec![words(&[""])]);
}

fn split_plain(line: &str) -> Vec<Vec<String>> {
    line.split(';')
        .map(|c| c.split([' ', '\t']).filter(|w| !w.is_empty()).map(String::from).collect::<Vec<String>>())
        .filter(|c| !c.is_empty())
        .collect()
}

#[test]
fn plain_line_splits_on_semicolons_then_blanks() {
    for line in ["", ";", "a", " a  b\t;c;;d e ;", "ls -l;\t;pwd", "x;y z;", "a\u{a0}b c"] {
        assert_eq!(parse_line(line, &env()).unwrap(), split_plain(line), "line {:?}", line);
    }
}

#[test]
fn single_quoting_round_trips() {
    let cmds = vec![
        words(&["echo", "a b", "$HOME", "x;y"]),
        words(&["", "\\n", "\"q\""]),
        words(&["pwd"]),
    ];
    let line = cmds
        .iter()
        .map(|c| c.iter().map(|a| format!("'{}'", a)).collect::<Vec<_>>().join(" "))
        .collect::<Vec<_>>()
        .join(";");
    assert_eq!(parse_line(&line, &env()).unwrap(), cmds);
}

#[test]
fn reported_quote_occurs_in_the_line() {
    assert_eq!(parse_line("echo \"abc", &env()), Err(LexError::UnterminatedQuote('"')));
    assert_eq!(parse_line("a 'b\"c", &env()), Err(LexError::UnterminatedQuote('\'')));
    assert_eq!(parse_line("a \"b'c", &env()), Err(LexError::UnterminatedQuote('"')));
    assert!(parse_line("no quotes at all ; \\x", &env()).is_ok());
}

#[test]
fn line_without_dollar_ignores_the_environment() {
    let other = vec![("HOME".to_string(), "/root".to_string())];
    for line in ["echo \"~ HOME\" 'x'", "a\\$;b", "HOME USER"] {
        assert_eq!(parse_line(line, &env()), parse_line(line, &other));
        assert_eq!(parse_line(line, &env()), parse_line(line, &[]));
    }
}

#[test]
fn expand_var_forms() {
    let chars = |s: &str| s.chars().collect::<Vec<char>>();
    let mut out = String::from("<");
    let s = chars("USER-x");
    assert_eq!(expand_var(&s, 0, &env(), &mut out), 4);
    assert_eq!(out, "<alice");
    let mut out = String::new();
    let s = chars("{HOME}/bin");
    assert_eq!(expand_var(&s, 0, &env(), &mut out), 6);
    assert_eq!(out, "/home/alice");
    let mut out = String::from("x");
    let s = chars("{NOPE");
    assert_eq!(expand_var(&s, 0, &env(), &mut out), 5);
    assert_eq!(out, "x");
    let mut out = String::new();
    let s = chars("NOPE_1 rest");
    assert_eq!(expand_var(&s, 0, &env(), &mut out), 6);
    assert_eq!(out, "");
    let mut out = String::new();
    let s = chars("-x");
    assert_eq!(expand_var(&s, 0, &env(), &mut out), 0);
    assert_eq!(out, "$");
}
