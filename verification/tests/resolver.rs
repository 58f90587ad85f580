use std::cell::RefCell;

use minishell::resolver::{candidate_paths, path_join, resolve_path, split_colon};

#[test]
fn join_like_path() {
    for (d, n) in [("/usr/bin", "ls"), ("/usr/bin/", "ls"), ("", "ls"), ("a", ""), ("/x", "/abs"), ("rel", "f")] {
        let expected = std::path::Path::new(d).join(n).to_str().unwrap().to_string();
        assert_eq!(path_join(d, n), expected, "{:?} {:?}", d, n);
    }
}

#[test]
fn split_like_std() {
    for s in ["a:b", "", ":", "a::b:", "/usr/bin:/bin"] {
        let expected: Vec<String> = s.split(':').map(|x| x.to_string()).collect();
        assert_eq!(split_colon(s), expected);
    }
}

#[test]
fn candidates() {
    assert_eq!(candidate_paths("ls", Some("/a:/b/")), vec!["/a/ls", "/b/ls"]);
    assert_eq!(candidate_paths("ls", None), vec!["/usr/bin/ls", "/bin/ls"]);
    assert_eq!(candidate_paths("./run", Some("/a")), vec!["./run"]);
    assert_eq!(candidate_paths("ls", Some("")), vec!["ls"]);
}

#[test]
fn resolve_takes_first_accepted() {
    let asked = RefCell::new(Vec::new());
    let r = resolve_path("ls", Some("/a:/b:/c"), |p: &str| {
        asked.borrow_mut().push(p.to_string());
        p == "/b/ls" || p == "/c/ls"
    });
    assert_eq!(r.as_deref(), Some("/b/ls"));
    assert_eq!(*asked.borrow(), vec!["/a/ls", "/b/ls"]);
    assert_eq!(resolve_path("ls", Some("/a"), |_p: &str| false), None);
    assert_eq!(resolve_path("/bin/sh", Some("/a"), |p: &str| p == "/bin/sh").as_deref(), Some("/bin/sh"));
}
