use minishell::builtins::builtin_names;
use minishell::complete::{candidate_set, complete, lcp_len, str_lt, Completion};
use minishell::editor::{EditorAction, LineEditor};

fn strings(v: &[&str]) -> Vec<String> {
    v.iter().map(|s| s.to_string()).collect()
}

#[test]
fn candidates_filter_sort_dedup() {
    let path_names = strings(&["ebb", "zz", "echo", "ebb"]);
    let cands = candidate_set(&builtin_names(), &path_names, "e");
    assert_eq!(cands, strings(&["ebb", "echo", "exit"]));
}

#[test]
fn candidates_empty_prefix_keeps_all() {
    let cands = candidate_set(&builtin_names(), &Vec::new(), "");
    assert_eq!(cands, strings(&["cd", "echo", "exit", "pwd", "type"]));
}

#[test]
fn lexicographic_order() {
    assert!(str_lt("abc", "abd"));
    assert!(str_lt("ab", "abc"));
    assert!(!str_lt("abc", "abc"));
    assert!(!str_lt("b", "ab"));
}

#[test]
fn lcp_of_candidates() {
    assert_eq!(lcp_len(&strings(&["echo", "echat"])), 3);
    assert_eq!(lcp_len(&strings(&["echo", "exit"])), 1);
    assert_eq!(lcp_len(&strings(&["echo"])), 4);
    assert_eq!(lcp_len(&strings(&["abc", "xyz"])), 0);
}

#[test]
fn tab_on_ambiguous_prefix_rings_bell() {
    let cands = candidate_set(&builtin_names(), &Vec::new(), "e");
    assert_eq!(cands, strings(&["echo", "exit"]));
    assert!(matches!(complete("e", &cands, 1), Completion::Bell));
}

#[test]
fn tab_on_unique_candidate_completes_with_space() {
    let cands = candidate_set(&builtin_names(), &Vec::new(), "ec");
    assert_eq!(cands, strings(&["echo"]));
    match complete("ec", &cands, 1) {
        Completion::Extend { text } => assert_eq!(text, "ho "),
        _ => panic!("a unique candidate must complete fully"),
    }
}

#[test]
fn tab_extends_to_longest_common_prefix() {
    let cands = strings(&["echat", "echo"]);
    match complete("e", &cands, 1) {
        Completion::Extend { text } => assert_eq!(text, "ch"),
        _ => panic!("a shared prefix must extend the buffer"),
    }
}

#[test]
fn second_tab_lists_candidates() {
    let cands = strings(&["echo", "exit"]);
    assert!(matches!(complete("e", &cands, 2), Completion::ListAll));
}

#[test]
fn tab_with_no_candidates_rings_bell() {
    assert!(matches!(complete("q", &Vec::new(), 1), Completion::Bell));
}

#[test]
fn editor_collects_and_submits_line() {
    let mut ed = LineEditor::new();
    assert!(!ed.raw_mode);
    ed.begin_line();
    assert!(ed.raw_mode);
    for c in "echo hi".chars() {
        match ed.step(c) {
            EditorAction::Echoed(e) => assert_eq!(e, c),
            _ => panic!("printable characters echo"),
        }
    }
    match ed.step('\r') {
        EditorAction::Submitted(line) => assert_eq!(line, "echo hi"),
        _ => panic!("enter submits the line"),
    }
    assert!(!ed.raw_mode);
    assert_eq!(ed.buffer_text(), "");
}

#[test]
fn editor_backspace_edits_buffer() {
    let mut ed = LineEditor::new();
    ed.begin_line();
    ed.step('a');
    ed.step('b');
    assert!(matches!(ed.step('\u{7f}'), EditorAction::Erased));
    assert_eq!(ed.buffer_text(), "a");
    assert!(matches!(ed.step('\u{7f}'), EditorAction::Erased));
    assert!(matches!(ed.step('\u{7f}'), EditorAction::Ignored));
    assert_eq!(ed.buffer_text(), "");
}

#[test]
fn editor_tab_counting_resets_on_other_keys() {
    let mut ed = LineEditor::new();
    ed.begin_line();
    ed.step('e');
    match ed.step('\t') {
        EditorAction::Complete { count } => assert_eq!(count, 1),
        _ => panic!("tab asks for completion"),
    }
    match ed.step('\t') {
        EditorAction::Complete { count } => assert_eq!(count, 2),
        _ => panic!("tab asks for completion"),
    }
    match ed.step('\t') {
        EditorAction::Complete { count } => assert_eq!(count, 2),
        _ => panic!("tab asks for completion"),
    }
    ed.step('x');
    assert_eq!(ed.tab_count, 0);
    match ed.step('\t') {
        EditorAction::Complete { count } => assert_eq!(count, 1),
        _ => panic!("tab asks for completion"),
    }
}

#[test]
fn interrupt_leaves_terminal_cooked() {
    let mut ed = LineEditor::new();
    ed.begin_line();
    ed.step('l');
    ed.step('s');
    assert!(ed.raw_mode);
    assert!(matches!(ed.step('\u{3}'), EditorAction::Terminated));
    assert!(!ed.raw_mode);
}

#[test]
fn end_session_leaves_terminal_cooked() {
    let mut ed = LineEditor::new();
    ed.begin_line();
    ed.end_session();
    assert!(!ed.raw_mode);
}

#[test]
fn completion_extension_applies_to_buffer() {
    let mut ed = LineEditor::new();
    ed.begin_line();
    ed.step('e');
    ed.step('c');
    ed.extend_buffer("ho ");
    assert_eq!(ed.buffer_text(), "echo ");
}

#[test]
fn full_completion_round() {
    let (cands, decision) = minishell::complete::completion_for(
        "e",
        &builtin_names(),
        &strings(&["env"]),
        1,
    );
    assert_eq!(cands, strings(&["echo", "env", "exit"]));
    assert!(matches!(decision, Completion::Bell));

    let (cands2, decision2) =
        minishell::complete::completion_for("ec", &builtin_names(), &Vec::new(), 1);
    assert_eq!(cands2, strings(&["echo"]));
    match decision2 {
        Completion::Extend { text } => assert_eq!(text, "ho "),
        _ => panic!("a unique candidate must complete fully"),
    }
}
