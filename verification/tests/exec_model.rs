use minishell::builtins::{
    builtin_names, builtin_of, cd_failure_message, cd_target, command_not_found_message,
    echo_output, not_found_message, pwd_output, type_output, Builtin,
};
use minishell::parser::{parse, RedirMode};
use minishell::path_search::{candidate_path, find_first_executable, is_executable_mode,
    PathCandidate};
use minishell::pipeline::{plan_stage, split_pipeline, trim_spaces, StagePlan};
use minishell::redirect::redirected_contents;
use minishell::tokenizer::tokenize;

fn strings(v: &[&str]) -> Vec<String> {
    v.iter().map(|s| s.to_string()).collect()
}

#[test]
fn redirect_append_preserves_prior_content() {
    let empty: Vec<u8> = Vec::new();
    let first = redirected_contents(RedirMode::Append, &empty, &b"one\n".to_vec());
    let second = redirected_contents(RedirMode::Append, &first, &b"two\n".to_vec());
    assert_eq!(second, b"one\ntwo\n".to_vec());
    assert!(second.starts_with(&first));
}

#[test]
fn redirect_truncate_discards_prior_content() {
    let empty: Vec<u8> = Vec::new();
    let first = redirected_contents(RedirMode::Truncate, &empty, &b"one\n".to_vec());
    let second = redirected_contents(RedirMode::Truncate, &first, &b"two\n".to_vec());
    assert_eq!(second, b"two\n".to_vec());
}

#[test]
fn pipeline_echo_cat_plan() {
    let stages = split_pipeline("echo hello | cat");
    assert_eq!(stages, strings(&["echo hello", "cat"]));
    let ctx = parse(&tokenize(&stages[0]));
    let plan = plan_stage(&ctx, "/", "/home/user", &None);
    match plan {
        StagePlan::Emit { text } => assert_eq!(text, "hello\n"),
        _ => panic!("echo stage must emit text"),
    }
    let cat_ctx = parse(&tokenize(&stages[1]));
    let cat_plan = plan_stage(&cat_ctx, "/", "/home/user", &None);
    assert!(matches!(cat_plan, StagePlan::External));
}

#[test]
fn pipeline_three_stage_split() {
    let stages = split_pipeline("printf 'a\nb\nc\n' | sort | uniq");
    assert_eq!(stages.len(), 3);
    assert_eq!(stages[1], "sort");
    assert_eq!(stages[2], "uniq");
    let toks = tokenize(&stages[0]);
    assert_eq!(toks, strings(&["printf", "a\nb\nc\n"]));
}

#[test]
fn split_pipeline_trims_stages() {
    assert_eq!(split_pipeline("  a  |  b "), strings(&["a", "b"]));
    assert_eq!(split_pipeline("solo"), strings(&["solo"]));
    assert_eq!(split_pipeline("a||b"), strings(&["a", "", "b"]));
}

#[test]
fn trim_spaces_both_sides() {
    assert_eq!(trim_spaces("  x y  "), "x y");
    assert_eq!(trim_spaces("   "), "");
    assert_eq!(trim_spaces("z"), "z");
}

#[test]
fn type_reports_builtin_path_and_missing() {
    assert_eq!(type_output("echo", &None), "echo is a shell builtin\n");
    assert_eq!(type_output("ls", &Some("/bin/ls".to_string())), "ls is /bin/ls\n");
    assert_eq!(type_output("nosuch", &None), "nosuch: not found\n");
}

#[test]
fn type_prefers_builtin_over_resolution() {
    assert_eq!(
        type_output("pwd", &Some("/bin/pwd".to_string())),
        "pwd is a shell builtin\n"
    );
}

#[test]
fn builtin_recognition() {
    assert!(matches!(builtin_of("exit"), Some(Builtin::Exit)));
    assert!(matches!(builtin_of("echo"), Some(Builtin::Echo)));
    assert!(matches!(builtin_of("type"), Some(Builtin::Type)));
    assert!(matches!(builtin_of("pwd"), Some(Builtin::Pwd)));
    assert!(matches!(builtin_of("cd"), Some(Builtin::Cd)));
    assert!(builtin_of("ls").is_none());
    assert_eq!(builtin_names(), strings(&["exit", "echo", "type", "pwd", "cd"]));
}

#[test]
fn echo_joins_with_single_spaces() {
    assert_eq!(echo_output(&strings(&["a", "b", "c"])), "a b c\n");
    assert_eq!(echo_output(&strings(&[])), "\n");
    assert_eq!(echo_output(&strings(&["hello"])), "hello\n");
}

#[test]
fn pwd_prints_directory() {
    assert_eq!(pwd_output("/tmp/dir"), "/tmp/dir\n");
}

#[test]
fn cd_target_resolution() {
    assert_eq!(cd_target(None, "/home/u"), "/home/u");
    assert_eq!(cd_target(Some(&"~/sub".to_string()), "/home/u"), "/home/u/sub");
    assert_eq!(cd_target(Some(&"~".to_string()), "/home/u"), "/home/u");
    assert_eq!(cd_target(Some(&"/abs".to_string()), "/home/u"), "/abs");
    assert_eq!(cd_target(Some(&"rel".to_string()), "/home/u"), "rel");
}

#[test]
fn cd_failure_text() {
    assert_eq!(
        cd_failure_message(Some(&"/nope".to_string())),
        "cd: /nope: No such file or directory\n"
    );
    assert_eq!(cd_failure_message(None), "cd: ~: No such file or directory\n");
}

#[test]
fn not_found_texts() {
    assert_eq!(command_not_found_message("frob"), "frob: command not found\n");
    assert_eq!(not_found_message("frob"), "frob: not found\n");
}

#[test]
fn executable_mode_bits() {
    assert!(is_executable_mode(0o755));
    assert!(is_executable_mode(0o100));
    assert!(!is_executable_mode(0o644));
    assert!(!is_executable_mode(0));
}

#[test]
fn path_resolution_takes_first_executable() {
    let cands = vec![
        PathCandidate { dir: "/a".to_string(), executable: false },
        PathCandidate { dir: "/b".to_string(), executable: true },
        PathCandidate { dir: "/c".to_string(), executable: true },
    ];
    assert_eq!(find_first_executable(&cands, "prog"), Some("/b/prog".to_string()));
    let none = vec![PathCandidate { dir: "/a".to_string(), executable: false }];
    assert_eq!(find_first_executable(&none, "prog"), None);
    assert_eq!(candidate_path("/usr/bin", "ls"), "/usr/bin/ls");
}

#[test]
fn plan_stage_dispatch() {
    let exit_ctx = parse(&strings(&["exit"]));
    assert!(matches!(plan_stage(&exit_ctx, "/", "/h", &None), StagePlan::Exit));

    let empty_ctx = parse(&Vec::new());
    assert!(matches!(plan_stage(&empty_ctx, "/", "/h", &None), StagePlan::Skip));

    let bare_type = parse(&strings(&["type"]));
    assert!(matches!(plan_stage(&bare_type, "/", "/h", &None), StagePlan::Skip));

    let pwd_ctx = parse(&strings(&["pwd"]));
    match plan_stage(&pwd_ctx, "/work", "/h", &None) {
        StagePlan::Emit { text } => assert_eq!(text, "/work\n"),
        _ => panic!("pwd must emit text"),
    }

    let type_ctx = parse(&strings(&["type", "ls"]));
    match plan_stage(&type_ctx, "/", "/h", &Some("/bin/ls".to_string())) {
        StagePlan::Emit { text } => assert_eq!(text, "ls is /bin/ls\n"),
        _ => panic!("type must emit text"),
    }

    let cd_ctx = parse(&strings(&["cd", "~/x"]));
    match plan_stage(&cd_ctx, "/", "/home/u", &None) {
        StagePlan::ChangeDir { target, failure_message } => {
            assert_eq!(target, "/home/u/x");
            assert_eq!(failure_message, "cd: ~/x: No such file or directory\n");
        },
        _ => panic!("cd must change directory"),
    }

    let ext_ctx = parse(&strings(&["ls", "-l"]));
    assert!(matches!(plan_stage(&ext_ctx, "/", "/h", &None), StagePlan::External));
}
