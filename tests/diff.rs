use git_viewer::attribution::{attribute_authors, FileAttribution, WalkedRevision};
use git_viewer::diff::{
    build_diff_response, build_working_tree_diff, classify_line, classify_status, exclude_file_authors, DeltaKind,
    FileText, RawDelta, RawHunk, RawLine,
};
use git_viewer::error::AppError;
use git_viewer::models::{DiffStatus, FileAuthorInfo, LineType};

fn line(origin: char, text: &str) -> RawLine {
    RawLine { origin, old_lineno: Some(1), new_lineno: Some(2), content: text.to_string() }
}

fn delta(path: &str, binary: bool, origins: &[char]) -> RawDelta {
    RawDelta {
        old_path: Some(path.to_string()),
        new_path: Some(path.to_string()),
        kind: DeltaKind::Modified,
        is_binary: binary,
        old_content: FileText::Text("old".to_string()),
        new_content: FileText::Text("new".to_string()),
        hunks: vec![RawHunk {
            old_start: 1,
            old_lines: 3,
            new_start: 1,
            new_lines: 4,
            header: "@@ -1,3 +1,4 @@".to_string(),
            lines: origins.iter().map(|&o| line(o, "x")).collect(),
        }],
    }
}

fn walked(email: &str, name: &str, t: i64, paths: &[&str]) -> WalkedRevision {
    WalkedRevision {
        author_email: email.to_string(),
        author_name: name.to_string(),
        timestamp: t,
        changes: paths.iter().map(|p| (Some(p.to_string()), Some(p.to_string()))).collect(),
    }
}

#[test]
fn stats_tally_lines() {
    let deltas = vec![delta("a", false, &['+', '+', '-', ' ', '=']), delta("b", false, &['-', '-', '+'])];
    let r = build_diff_response(None, "to".to_string(), None, &deltas, &Vec::new()).unwrap();
    assert_eq!(r.stats.files_changed, 2);
    assert_eq!(r.stats.insertions, 3);
    assert_eq!(r.stats.deletions, 3);
    let mut adds = 0;
    let mut dels = 0;
    for f in &r.files {
        for h in &f.hunks {
            for l in &h.lines {
                if l.line_type == LineType::Addition {
                    adds += 1;
                }
                if l.line_type == LineType::Deletion {
                    dels += 1;
                }
            }
        }
    }
    assert_eq!(r.stats.insertions + r.stats.deletions, adds + dels);
    assert_eq!(r.files[0].hunks[0].lines[4].line_type, LineType::Header);
    assert_eq!(r.files[0].hunks[0].lines[3].line_type, LineType::Context);
    assert_eq!(r.files[0].hunks[0].header, "@@ -1,3 +1,4 @@");
    assert_eq!(r.total_files, 2);
    assert_eq!(r.filtered_files, 2);
}

#[test]
fn binary_files_have_no_text() {
    let deltas = vec![delta("img.png", true, &[]), delta("a.txt", false, &['+'])];
    let r = build_diff_response(None, "to".to_string(), None, &deltas, &Vec::new()).unwrap();
    assert!(r.files[0].is_binary);
    assert!(r.files[0].old_content.is_none());
    assert!(r.files[0].new_content.is_none());
    assert_eq!(r.files[1].new_content.as_deref(), Some("new"));
}

#[test]
fn statuses_and_line_kinds() {
    assert_eq!(classify_status(DeltaKind::Added), DiffStatus::Added);
    assert_eq!(classify_status(DeltaKind::Deleted), DiffStatus::Deleted);
    assert_eq!(classify_status(DeltaKind::Modified), DiffStatus::Modified);
    assert_eq!(classify_status(DeltaKind::Renamed), DiffStatus::Renamed);
    assert_eq!(classify_status(DeltaKind::Copied), DiffStatus::Copied);
    assert_eq!(classify_status(DeltaKind::Typechange), DiffStatus::TypeChanged);
    assert_eq!(classify_status(DeltaKind::Untracked), DiffStatus::Unmodified);
    assert_eq!(classify_line('+'), LineType::Addition);
    assert_eq!(classify_line('-'), LineType::Deletion);
    assert_eq!(classify_line(' '), LineType::Context);
    assert_eq!(classify_line('F'), LineType::Header);
}

#[test]
fn attribution_ranks_count_then_recency() {
    let mut revs = Vec::new();
    revs.push(walked("a@e", "A", 100, &["f"]));
    revs.push(walked("a@e", "A", 90, &["f"]));
    revs.push(walked("a@e", "A", 80, &["f"]));
    for t in [50, 40, 30, 20, 10] {
        revs.push(walked("b@e", "B", t, &["f"]));
    }
    let out = attribute_authors(&revs).unwrap();
    assert_eq!(out.len(), 1);
    assert_eq!(out[0].path, "f");
    let order: Vec<(&str, usize, i64)> =
        out[0].authors.iter().map(|a| (a.email.as_str(), a.commit_count, a.last_commit_timestamp)).collect();
    assert_eq!(order, vec![("b@e", 5, 50), ("a@e", 3, 100)]);
}

#[test]
fn attribution_breaks_ties_by_recency() {
    let revs = vec![
        walked("old@e", "Old", 5, &["f", "g"]),
        walked("new@e", "New", 9, &["f"]),
    ];
    let out = attribute_authors(&revs).unwrap();
    let paths: Vec<&str> = out.iter().map(|f| f.path.as_str()).collect();
    assert_eq!(paths, vec!["f", "g"]);
    assert_eq!(out[0].authors[0].email, "new@e");
    assert_eq!(out[0].authors[1].email, "old@e");
    assert_eq!(out[1].authors.len(), 1);
}

#[test]
fn deleted_file_attributed_by_old_path() {
    let revs = vec![WalkedRevision {
        author_email: "a@e".to_string(),
        author_name: "A".to_string(),
        timestamp: 1,
        changes: vec![(Some("gone".to_string()), None), (None, None)],
    }];
    let out = attribute_authors(&revs).unwrap();
    assert_eq!(out.len(), 1);
    assert_eq!(out[0].path, "gone");
}

fn author(email: &str, name: &str, count: usize, t: i64) -> FileAuthorInfo {
    FileAuthorInfo { email: email.to_string(), name: name.to_string(), commit_count: count, last_commit_timestamp: t }
}

#[test]
fn files_get_authors_and_contributors_sort_by_name() {
    let deltas = vec![delta("a", false, &['+']), delta("b", false, &['-']), delta("c", false, &[])];
    let attrs = vec![
        FileAttribution { path: "b".to_string(), authors: vec![author("bob@e", "bob", 2, 5)] },
        FileAttribution {
            path: "a".to_string(),
            authors: vec![author("zed@e", "Zed", 4, 1), author("al@e", "alice", 1, 9), author("bob@e", "Bobby", 1, 2)],
        },
    ];
    let r = build_diff_response(Some("from".to_string()), "to".to_string(), Some("".to_string()), &deltas, &attrs).unwrap();
    assert_eq!(r.files[0].authors.len(), 3);
    assert_eq!(r.files[0].biggest_change_author.as_deref(), Some("zed@e"));
    assert_eq!(r.files[1].biggest_change_author.as_deref(), Some("bob@e"));
    assert!(r.files[2].authors.is_empty());
    assert!(r.files[2].biggest_change_author.is_none());
    let names: Vec<&str> = r.contributors.iter().map(|c| c.name.as_str()).collect();
    assert_eq!(names, vec!["alice", "Bobby", "Zed"]);
    assert_eq!(r.from_commit.as_deref(), Some("from"));
}

#[test]
fn working_tree_diff_uses_sentinel() {
    let deltas = vec![delta("a", false, &['+', '+'])];
    let r = build_working_tree_diff("head".to_string(), None, &deltas).unwrap();
    assert_eq!(r.to_commit, "WORKING_TREE");
    assert_eq!(r.from_commit.as_deref(), Some("head"));
    assert_eq!(r.stats.insertions, 2);
    assert!(r.contributors.is_empty());
    assert!(r.files[0].authors.is_empty());
}

#[test]
fn excluding_authors_drops_their_files() {
    let deltas = vec![delta("a", false, &['+']), delta("b", false, &['-']), delta("c", false, &[])];
    let attrs = vec![
        FileAttribution { path: "a".to_string(), authors: vec![author("x@e", "X", 1, 1)] },
        FileAttribution { path: "b".to_string(), authors: vec![author("x@e", "X", 1, 1), author("y@e", "Y", 1, 1)] },
    ];
    let mut r = build_diff_response(None, "to".to_string(), None, &deltas, &attrs).unwrap();
    exclude_file_authors(&mut r, &vec!["x@e".to_string()]);
    let kept: Vec<&str> = r.files.iter().map(|f| f.new_path.as_deref().unwrap()).collect();
    assert_eq!(kept, vec!["b", "c"]);
    assert_eq!(r.filtered_files, 2);
    assert_eq!(r.total_files, 3);
    let mut same = build_diff_response(None, "to".to_string(), None, &deltas, &attrs).unwrap();
    exclude_file_authors(&mut same, &Vec::new());
    assert_eq!(same.files.len(), 3);
}

#[test]
fn undecodable_text_is_reported() {
    let mut bad = delta("latin1.txt", false, &['+']);
    bad.new_content = FileText::NotUtf8;
    let deltas = vec![delta("a", false, &['+']), bad];
    match build_diff_response(None, "to".to_string(), None, &deltas, &Vec::new()) {
        Err(AppError::Internal(m)) => assert_eq!(m, "File is not valid UTF-8"),
        _ => panic!("expected a decode error"),
    }
    match build_working_tree_diff("head".to_string(), None, &deltas) {
        Err(AppError::Internal(m)) => assert_eq!(m, "File is not valid UTF-8"),
        _ => panic!("expected a decode error"),
    }
    let mut binary = delta("img.png", true, &[]);
    binary.old_content = FileText::NotUtf8;
    let r = build_diff_response(None, "to".to_string(), None, &vec![binary], &Vec::new()).unwrap();
    assert!(r.files[0].old_content.is_none());
}

#[test]
fn absent_text_stays_empty() {
    let mut added = delta("new.txt", false, &['+']);
    added.old_content = FileText::Absent;
    let r = build_diff_response(None, "to".to_string(), None, &vec![added], &Vec::new()).unwrap();
    assert!(r.files[0].old_content.is_none());
    assert_eq!(r.files[0].new_content.as_deref(), Some("new"));
}
