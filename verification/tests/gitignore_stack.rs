use ignore::gitignore::{Gitignore, GitignoreBuilder};
use project_rules::gitignore_stack::{
    checked_gitignore_matches_path, gitignore_matches_path, GitignoreStack,
};

fn gitignore(root: &str, lines: &[&str]) -> Gitignore {
    let mut builder = GitignoreBuilder::new(root);
    for line in lines {
        builder.add_line(None, line).unwrap();
    }
    builder.build().unwrap()
}

#[test]
fn new_stack_activates_every_gitignore() {
    let stack = GitignoreStack::new(vec![
        gitignore("/repo", &["*.log"]),
        gitignore("/repo/sub", &["*.tmp"]),
    ]);
    assert_eq!(stack.active_len(), 2);
    assert!(stack.matches("/repo/a.log", false, false));
    assert!(stack.matches("/repo/sub/b.tmp", false, false));
    assert!(!stack.matches("/repo/a.txt", false, false));
}

#[test]
fn empty_stack_matches_nothing() {
    let stack = GitignoreStack::new(Vec::new());
    assert_eq!(stack.active_len(), 0);
    assert!(!stack.matches("/repo/a.log", false, false));
    assert!(!stack.matches("/repo/a.log", false, true));
}

#[test]
fn path_outside_the_root_is_not_matched() {
    let stack = GitignoreStack::new(vec![gitignore("/repo", &["*.log"])]);
    assert!(!stack.matches("/elsewhere/a.log", false, false));
    assert!(!stack.matches("/elsewhere/a.log", false, true));
}

#[test]
fn ancestors_are_checked_only_when_asked() {
    let stack = GitignoreStack::new(vec![gitignore("/repo", &["build/"])]);
    assert!(!stack.matches("/repo/build/out.txt", false, false));
    assert!(stack.matches("/repo/build/out.txt", false, true));
    assert!(stack.matches("/repo/build", true, false));
    assert!(!stack.matches("/repo/build", false, false));
}

#[test]
fn whitelisted_path_is_not_ignored() {
    let stack = GitignoreStack::new(vec![gitignore("/repo", &["*.log", "!keep.log"])]);
    assert!(stack.matches("/repo/drop.log", false, false));
    assert!(!stack.matches("/repo/keep.log", false, false));
}

#[test]
fn push_then_truncate_restores_the_active_set() {
    let mut stack = GitignoreStack::new(vec![gitignore("/repo", &["*.log"])]);
    let before = stack.active_len();
    assert!(!stack.matches("/repo/sub/x.tmp", false, false));
    stack.push_active(gitignore("/repo/sub", &["*.tmp"]));
    assert_eq!(stack.active_len(), before + 1);
    assert!(stack.matches("/repo/sub/x.tmp", false, false));
    assert!(stack.matches("/repo/sub/x.log", false, false));
    stack.truncate_active(before);
    assert_eq!(stack.active_len(), before);
    assert!(!stack.matches("/repo/sub/x.tmp", false, false));
    assert!(stack.matches("/repo/sub/x.log", false, false));
}

#[test]
fn truncate_beyond_the_active_count_keeps_everything() {
    let mut stack = GitignoreStack::new(vec![gitignore("/repo", &["*.log"])]);
    stack.truncate_active(5);
    assert_eq!(stack.active_len(), 1);
    assert!(stack.matches("/repo/a.log", false, false));
}

#[test]
fn truncated_gitignores_are_still_handed_back() {
    let mut stack = GitignoreStack::new(vec![gitignore("/repo", &["*.log"])]);
    stack.push_active(gitignore("/repo/sub", &["*.tmp"]));
    stack.truncate_active(0);
    assert_eq!(stack.active_len(), 0);
    let all = stack.into_gitignores();
    assert_eq!(all.len(), 2);
    assert_eq!(all[0].path().to_str(), Some("/repo"));
    assert_eq!(all[1].path().to_str(), Some("/repo/sub"));
}

#[test]
fn single_gitignore_strips_its_root_before_matching() {
    // "/repo" stripped from "/repo/src/a.log" leaves "src/a.log"; the
    // anchored pattern only matches at the root.
    let g = gitignore("/repo", &["/a.log"]);
    assert!(gitignore_matches_path(&g, "/repo/a.log", false, false));
    assert!(!gitignore_matches_path(&g, "/repo/src/a.log", false, false));
}

#[test]
fn global_gitignore_accepts_rooted_paths_on_unix() {
    let g = gitignore("", &["*.tmp"]);
    assert_eq!(g.path().to_str(), Some(""));
    assert!(gitignore_matches_path(&g, "/x/y.tmp", false, false));
    assert!(gitignore_matches_path(&g, "/x/y.tmp", false, true));
    assert!(!gitignore_matches_path(&g, "/x/y.txt", false, true));
}

#[test]
fn rooted_rest_under_a_non_empty_root_is_refused() {
    let g = gitignore("/repo", &["*.tmp"]);
    assert!(!gitignore_matches_path(&g, "/x/y.tmp", false, false));
    assert!(gitignore_matches_path(&g, "/repo/y.tmp", false, true));
}

#[test]
fn doubled_separators_below_an_absolute_root_are_answered() {
    let g = gitignore("/repo", &["b"]);
    assert_eq!(checked_gitignore_matches_path(&g, "/repo/a//b", false, true), Some(true));
    assert!(gitignore_matches_path(&g, "/repo/a//b", false, true));
    let stack = GitignoreStack::new(vec![gitignore("/repo", &["b"])]);
    assert!(stack.matches("/repo/a//b", false, true));
    assert_eq!(stack.try_matches("/repo/a//b", false, true), Some(true));
}

#[test]
fn paths_outside_the_root_never_panic() {
    let g = gitignore("/repo", &["*.tmp"]);
    assert_eq!(checked_gitignore_matches_path(&g, "//elsewhere//y.tmp", false, true), Some(false));
}

#[test]
fn queries_the_parent_walk_would_reject_are_reported() {
    // A global gitignore strips one leading slash; a second one stays.
    let global = gitignore("", &["*.tmp"]);
    assert_eq!(checked_gitignore_matches_path(&global, "//x/y.tmp", false, true), None);
    assert_eq!(checked_gitignore_matches_path(&global, "//x/y.tmp", false, false), Some(true));
    // Under a relative root, a leading copy of the root plus "//" leaves a root.
    let relative = gitignore("a", &["*.tmp"]);
    assert_eq!(checked_gitignore_matches_path(&relative, "a/a//x.tmp", false, true), None);
    assert_eq!(checked_gitignore_matches_path(&relative, "a/b/x.tmp", false, true), Some(true));
    // A matcher without globs answers at once.
    let empty = gitignore("", &[]);
    assert_eq!(checked_gitignore_matches_path(&empty, "//x/y.tmp", false, true), Some(false));
}

#[test]
fn stack_stops_at_the_first_matching_gitignore() {
    let stack = GitignoreStack::new(vec![gitignore("", &["*.tmp"]), gitignore("a", &["*.log"])]);
    // The first gitignore ignores the path, so the second is never asked.
    assert_eq!(stack.try_matches("a/a//x.tmp", false, true), Some(true));
    // Here the first does not, and asking the second would panic.
    assert_eq!(stack.try_matches("a/a//x.log", false, true), None);
    assert_eq!(stack.try_matches("a/a//x.log", false, false), Some(true));
}

#[test]
fn empty_stack_never_panics() {
    let stack = GitignoreStack::new(Vec::new());
    assert_eq!(stack.try_matches("//x", false, true), Some(false));
    assert!(!stack.matches("//x", false, true));
}

#[test]
fn checking_ancestors_keeps_direct_matches() {
    let g = gitignore("/repo", &["*.log", "!keep/"]);
    for path in ["/repo/a.log", "/repo/keep/b.log", "/repo/x/y.log"] {
        assert!(gitignore_matches_path(&g, path, false, false));
        assert!(gitignore_matches_path(&g, path, false, true));
    }
}

#[test]
fn nested_pushes_then_truncate_restore_the_walk() {
    let mut stack = GitignoreStack::new(vec![gitignore("/repo", &["*.log"])]);
    let depth = stack.active_len();
    stack.push_active(gitignore("/repo/a", &["*.tmp"]));
    stack.push_active(gitignore("/repo/a/b", &["*.bak"]));
    stack.push_active(gitignore("/repo/a/b/c", &["*.o"]));
    assert_eq!(stack.active_len(), depth + 3);
    assert!(stack.matches("/repo/a/b/c/x.o", false, false));
    assert!(stack.matches("/repo/a/b/x.bak", false, false));
    stack.truncate_active(depth);
    assert_eq!(stack.active_len(), depth);
    assert!(!stack.matches("/repo/a/b/c/x.o", false, false));
    assert!(!stack.matches("/repo/a/b/x.bak", false, false));
    assert!(!stack.matches("/repo/a/x.tmp", false, false));
    assert!(stack.matches("/repo/a/x.log", false, false));
}
