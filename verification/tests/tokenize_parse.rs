use minishell::tokenizer::tokenize;
use minishell::parser::{parse, RedirMode};

fn strings(v: &[&str]) -> Vec<String> {
    v.iter().map(|s| s.to_string()).collect()
}

#[test]
fn tokenize_quoted_words() {
    let toks = tokenize("echo 'a   b' \"c\\\"d\"");
    assert_eq!(toks, strings(&["echo", "a   b", "c\"d"]));
}

#[test]
fn tokenize_plain_words() {
    assert_eq!(tokenize("echo hello world"), strings(&["echo", "hello", "world"]));
}

#[test]
fn tokenize_empty_line() {
    assert_eq!(tokenize(""), Vec::<String>::new());
    assert_eq!(tokenize("   "), Vec::<String>::new());
}

#[test]
fn tokenize_collapses_spaces() {
    assert_eq!(tokenize("  a   b  "), strings(&["a", "b"]));
}

#[test]
fn tokenize_backslash_escapes_next() {
    assert_eq!(tokenize("a\\ b"), strings(&["a b"]));
    assert_eq!(tokenize("\\'x"), strings(&["'x"]));
}

#[test]
fn tokenize_single_quotes_are_literal() {
    assert_eq!(tokenize("'a\\nb'"), strings(&["a\\nb"]));
}

#[test]
fn tokenize_double_quote_escapes() {
    assert_eq!(tokenize("\"a\\$b\""), strings(&["a$b"]));
    assert_eq!(tokenize("\"a\\\\b\""), strings(&["a\\b"]));
    assert_eq!(tokenize("\"a\\zb\""), strings(&["a\\zb"]));
}

#[test]
fn tokenize_adjacent_quotes_join() {
    assert_eq!(tokenize("a'b'\"c\""), strings(&["abc"]));
}

#[test]
fn tokenize_unterminated_quote_kept_literal() {
    assert_eq!(tokenize("'abc"), strings(&["abc"]));
    assert_eq!(tokenize("ab\\"), strings(&["ab"]));
}

#[test]
fn tokenize_rejoin_is_stable_without_quoting() {
    let toks = tokenize("  foo   bar baz ");
    assert_eq!(toks, strings(&["foo", "bar", "baz"]));
    let rejoined = toks.join(" ");
    assert_eq!(tokenize(&rejoined), toks);
}

#[test]
fn parse_stdout_redirection() {
    let ctx = parse(&strings(&["cmd", "1>", "out.txt", "arg"]));
    assert_eq!(ctx.argv, strings(&["cmd", "arg"]));
    let r = ctx.stdout_redir.expect("stdout redirection");
    assert_eq!(r.path, "out.txt");
    assert!(matches!(r.mode, RedirMode::Truncate));
    assert!(ctx.stderr_redir.is_none());
}

#[test]
fn parse_append_operators() {
    let ctx = parse(&strings(&["cmd", ">>", "log", "2>>", "errs"]));
    assert_eq!(ctx.argv, strings(&["cmd"]));
    let out = ctx.stdout_redir.expect("stdout redirection");
    assert_eq!(out.path, "log");
    assert!(matches!(out.mode, RedirMode::Append));
    let err = ctx.stderr_redir.expect("stderr redirection");
    assert_eq!(err.path, "errs");
    assert!(matches!(err.mode, RedirMode::Append));
}

#[test]
fn parse_last_operator_wins() {
    let ctx = parse(&strings(&["cmd", ">", "first", ">>", "second"]));
    let out = ctx.stdout_redir.expect("stdout redirection");
    assert_eq!(out.path, "second");
    assert!(matches!(out.mode, RedirMode::Append));
}

#[test]
fn parse_operator_without_path_records_nothing() {
    let ctx = parse(&strings(&["cmd", ">"]));
    assert_eq!(ctx.argv, strings(&["cmd"]));
    assert!(ctx.stdout_redir.is_none());
}

#[test]
fn parse_operator_before_command() {
    let ctx = parse(&strings(&["2>", "errs", "cmd", "arg"]));
    assert_eq!(ctx.argv, strings(&["cmd", "arg"]));
    let err = ctx.stderr_redir.expect("stderr redirection");
    assert_eq!(err.path, "errs");
    assert!(matches!(err.mode, RedirMode::Truncate));
}
