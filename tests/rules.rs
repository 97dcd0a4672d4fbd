use git_viewer::blame::{blame_lines, BlameHunk};
use git_viewer::error::AppError;
use git_viewer::history::{path_touches, LastCommitSearch};
use git_viewer::models::{BranchInfo, CommitInfo, EntryType, TreeEntry};
use git_viewer::relative_time::format_relative_time;
use git_viewer::repository::{
    checkout_conflict, commit_to_info, default_limit, default_true, order_branches, working_tree_status, StatusEntry,
};
use git_viewer::tally::{contributors_of, AuthorRecord};
use git_viewer::tree::{child_path, classify_entry, is_root_path, order_tree_entries, ObjectKind};

#[test]
fn relative_time_buckets() {
    assert_eq!(format_relative_time(1000, 1000), "just now");
    assert_eq!(format_relative_time(1000, 1059), "just now");
    assert_eq!(format_relative_time(0, 60), "1 minute ago");
    assert_eq!(format_relative_time(0, 12 * 60 + 5), "12 minutes ago");
    assert_eq!(format_relative_time(0, 3600), "1 hour ago");
    assert_eq!(format_relative_time(0, 86399), "23 hours ago");
    assert_eq!(format_relative_time(0, 86400), "1 day ago");
    assert_eq!(format_relative_time(0, 2592000 * 3), "3 months ago");
    assert_eq!(format_relative_time(0, 31536000 * 2 + 5), "2 years ago");
    assert_eq!(format_relative_time(100, 50), "just now");
    assert_eq!(format_relative_time(i64::MIN, i64::MAX), "584942417355 years ago");
}

#[test]
fn error_messages_and_statuses() {
    let cases = vec![
        (AppError::Git("boom".to_string()), 500, "boom"),
        (AppError::RepoNotFound("/r".to_string()), 404, "Repository not found: /r"),
        (AppError::PathNotFound("p".to_string()), 404, "Path not found: p"),
        (AppError::CommitNotFound("c".to_string()), 404, "Commit not found: c"),
        (AppError::InvalidPath("q".to_string()), 400, "Invalid path: q"),
        (AppError::CheckoutConflict("dirty".to_string()), 409, "dirty"),
        (AppError::Internal("oops".to_string()), 500, "oops"),
    ];
    for (e, status, message) in cases {
        assert_eq!(e.status_code(), status);
        assert_eq!(e.error_message(), message);
    }
}

fn entry(bits: u32, path: &str) -> StatusEntry {
    StatusEntry { bits, path: Some(path.to_string()) }
}

#[test]
fn checkout_blocked_by_local_changes() {
    assert!(checkout_conflict(&Vec::new()).is_none());
    assert!(checkout_conflict(&vec![entry(1 << 7, "untracked"), entry(1 << 14, "ignored")]).is_none());
    let few = vec![entry(1 << 8, "a.rs"), entry(1 << 7, "new"), entry(1 << 1, "b.rs")];
    match checkout_conflict(&few) {
        Some(AppError::CheckoutConflict(m)) => {
            assert_eq!(m, "Cannot switch branches: you have uncommitted changes in: a.rs, b.rs")
        }
        _ => panic!("expected a conflict"),
    }
    let many: Vec<StatusEntry> = (0..8).map(|i| entry(1 << 9, &format!("f{}", i))).collect();
    match checkout_conflict(&many) {
        Some(AppError::CheckoutConflict(m)) => assert_eq!(
            m,
            "Cannot switch branches: you have uncommitted changes in: f0, f1, f2, f3, f4 and 3 more"
        ),
        _ => panic!("expected a conflict"),
    }
}

fn branch(name: &str, current: bool, remote: bool) -> BranchInfo {
    BranchInfo { name: name.to_string(), is_current: current, is_remote: remote, last_commit: None }
}

#[test]
fn branches_current_first_then_by_name() {
    let local = vec![branch("zeta", false, false), branch("Main", false, false), branch("dev", true, false), branch("alpha", false, false)];
    let remote = vec![branch("origin/b", false, true), branch("origin/A", false, true)];
    let out = order_branches(&local, &remote);
    let names: Vec<&str> = out.iter().map(|b| b.name.as_str()).collect();
    assert_eq!(names, vec!["dev", "alpha", "Main", "zeta", "origin/A", "origin/b"]);
}

fn tree_entry(name: &str, t: EntryType) -> TreeEntry {
    TreeEntry {
        name: name.to_string(),
        path: name.to_string(),
        entry_type: t,
        size: None,
        file_count: None,
        directory_count: None,
        last_commit: None,
    }
}

#[test]
fn listing_directories_first() {
    let entries = vec![
        tree_entry("b.txt", EntryType::File),
        tree_entry("Src", EntryType::Directory),
        tree_entry("A.md", EntryType::File),
        tree_entry("docs", EntryType::Directory),
        tree_entry("mod", EntryType::Submodule),
    ];
    let out = order_tree_entries(entries);
    let names: Vec<&str> = out.iter().map(|e| e.name.as_str()).collect();
    assert_eq!(names, vec!["docs", "Src", "A.md", "b.txt", "mod"]);
}

#[test]
fn tree_paths_and_kinds() {
    assert_eq!(child_path("", "a"), "a");
    assert_eq!(child_path("src/git", "a.rs"), "src/git/a.rs");
    assert_eq!(classify_entry(ObjectKind::Blob), Some(EntryType::File));
    assert_eq!(classify_entry(ObjectKind::Tree), Some(EntryType::Directory));
    assert_eq!(classify_entry(ObjectKind::Commit), Some(EntryType::Submodule));
    assert_eq!(classify_entry(ObjectKind::Tag), None);
    assert!(is_root_path(None));
    assert!(is_root_path(Some("")));
    assert!(is_root_path(Some("/")));
    assert!(!is_root_path(Some("src")));
}

fn hunk(name: &str, start: u32, count: u32) -> BlameHunk {
    BlameHunk {
        author_name: name.to_string(),
        author_email: format!("{}@e", name),
        commit_oid: format!("{}-oid", name),
        timestamp: 7,
        start_line: start,
        line_count: count,
    }
}

#[test]
fn blame_expands_and_orders_lines() {
    let r = blame_lines("f.rs".to_string(), "c".to_string(), &vec![hunk("b", 3, 2), hunk("a", 1, 2)]).unwrap();
    let lines: Vec<(u32, &str)> = r.lines.iter().map(|l| (l.line_number, l.author_name.as_str())).collect();
    assert_eq!(lines, vec![(1, "a"), (2, "a"), (3, "b"), (4, "b")]);
    assert_eq!(r.lines[2].commit_oid, "b-oid");
    assert_eq!(r.path, "f.rs");
}

fn info(oid: &str) -> CommitInfo {
    CommitInfo { oid: oid.to_string(), message: String::new(), author: String::new(), timestamp: 0, relative_time: String::new() }
}

#[test]
fn last_commit_per_path() {
    assert!(path_touches("src/a.rs", "src"));
    assert!(path_touches("src", "src/a.rs"));
    assert!(path_touches("src", "src"));
    assert!(!path_touches("srcx/a.rs", "src"));
    let mut search = LastCommitSearch::new(vec!["src".to_string(), "README".to_string(), "docs".to_string()]);
    assert!(!search.is_done());
    search.observe(&vec!["src/main.rs".to_string()], &info("c3"));
    search.observe(&vec!["README".to_string(), "src/lib.rs".to_string()], &info("c2"));
    let out = search.finish(&info("head"));
    let pairs: Vec<(&str, &str)> = out.iter().map(|(p, c)| (p.as_str(), c.oid.as_str())).collect();
    assert_eq!(pairs, vec![("src", "c3"), ("README", "c2"), ("docs", "head")]);
    search.observe(&vec!["docs/x".to_string()], &info("c1"));
    assert!(search.is_done());
}

#[test]
fn contributors_of_revisions() {
    let recs = vec![
        AuthorRecord { email: "a@e".to_string(), name: "A".to_string() },
        AuthorRecord { email: "b@e".to_string(), name: "B".to_string() },
        AuthorRecord { email: "b@e".to_string(), name: "B2".to_string() },
    ];
    let out = contributors_of(&recs);
    let v: Vec<(&str, &str, usize)> = out.iter().map(|c| (c.email.as_str(), c.name.as_str(), c.commit_count)).collect();
    assert_eq!(v, vec![("b@e", "B", 2), ("a@e", "A", 1)]);
}

#[test]
fn small_rules() {
    assert_eq!(default_limit(), 50);
    assert!(default_true());
    let s = working_tree_status(Some(3));
    assert!(s.has_changes);
    assert_eq!(s.files_changed, 3);
    let none = working_tree_status(None);
    assert!(!none.has_changes);
    let c = commit_to_info("abc".to_string(), Some("\n\u{3000} subject  \t\n"), None, 0, 2 * 86400);
    assert_eq!(c.message, "subject");
    assert_eq!(c.author, "Unknown");
    assert_eq!(c.relative_time, "2 days ago");
}
