use minishell::completer::{
    filename_candidates, script_candidates, sort_candidates, Candidate, CompletionPlan, ShellCompleter,
};
use minishell::strmap::StrMap;

fn cand(d: &str, r: &str) -> Candidate {
    Candidate { display: d.to_string(), replacement: r.to_string() }
}

fn strings(v: &[&str]) -> Vec<String> {
    v.iter().map(|s| s.to_string()).collect()
}

fn shown(v: &[Candidate]) -> Vec<(String, String)> {
    v.iter().map(|c| (c.display.clone(), c.replacement.clone())).collect()
}

#[test]
fn sort_is_stable_by_display() {
    let v = vec![cand("b", "1"), cand("a", "2"), cand("b", "3"), cand("ab", "4"), cand("", "5")];
    let s = sort_candidates(v);
    assert_eq!(
        shown(&s),
        vec![
            ("".to_string(), "5".to_string()),
            ("a".to_string(), "2".to_string()),
            ("ab".to_string(), "4".to_string()),
            ("b".to_string(), "1".to_string()),
            ("b".to_string(), "3".to_string()),
        ]
    );
}

#[test]
fn command_completion() {
    let c = ShellCompleter::new(&strings(&["echo", "exit", "type"]), &strings(&["ls", "exec", "echo"]));
    let specs = StrMap::new();
    match c.complete_plan("e", 1, &specs) {
        CompletionPlan::Commands { start, candidates } => {
            assert_eq!(start, 0);
            assert_eq!(
                shown(&candidates),
                vec![
                    ("echo".to_string(), "echo ".to_string()),
                    ("exec".to_string(), "exec ".to_string()),
                    ("exit".to_string(), "exit ".to_string()),
                ]
            );
        }
        _ => panic!("expected command completion"),
    }
    match c.complete_plan("ty and more", 2, &specs) {
        CompletionPlan::Commands { candidates, .. } => assert_eq!(candidates.len(), 1),
        _ => panic!("expected command completion"),
    }
}

#[test]
fn argument_completion() {
    let c = ShellCompleter::new(&strings(&["echo"]), &[]);
    let mut specs = StrMap::new();
    assert!(matches!(c.complete_plan("echo fi", 7, &specs), CompletionPlan::Filenames));
    assert!(matches!(c.complete_plan("./sc", 4, &specs), CompletionPlan::Filenames));
    specs.insert("git".to_string(), "/comp/git".to_string());
    match c.complete_plan("  git  ch", 9, &specs) {
        CompletionPlan::Script { start, script } => {
            assert_eq!(start, 7);
            assert_eq!(script, "/comp/git");
        }
        _ => panic!("expected the completion script"),
    }
}

#[test]
fn script_output_candidates() {
    let s = script_candidates("checkout\r\nbranch\n\ncommit\r");
    assert_eq!(
        shown(&s),
        vec![
            ("branch".to_string(), "branch ".to_string()),
            ("checkout".to_string(), "checkout ".to_string()),
            ("commit\r".to_string(), "commit\r ".to_string()),
        ]
    );
    assert!(script_candidates("").is_empty());
}

#[test]
fn filename_decoration() {
    let v = vec![cand("src", "src/"), cand("a.txt", "a.txt"), cand("b c", "b\\ c ")];
    let s = filename_candidates(&v);
    assert_eq!(
        shown(&s),
        vec![
            ("a.txt".to_string(), "a.txt ".to_string()),
            ("b c".to_string(), "b\\ c ".to_string()),
            ("src/".to_string(), "src/".to_string()),
        ]
    );
}
