use git_viewer::cache::{CachedCommit, CommitCache};
use git_viewer::session::{HistoryStep, RepoSession};

fn rev(oid: &str, email: &str, name: &str, timestamp: i64) -> CachedCommit {
    CachedCommit {
        oid: oid.to_string(),
        message: format!("message {}", oid),
        author_name: name.to_string(),
        author_email: email.to_string(),
        committer_name: name.to_string(),
        committer_email: email.to_string(),
        timestamp,
        parent_count: 0,
        parents: Vec::new(),
    }
}

fn oids(cache: &CommitCache) -> Vec<String> {
    cache.all_commits.iter().map(|c| c.oid.clone()).collect()
}

#[test]
fn snapshot_is_newest_first() {
    let cache = CommitCache::build(
        vec![rev("a", "x@e", "X", 10), rev("b", "x@e", "X", 30), rev("c", "y@e", "Y", 20), rev("d", "y@e", "Y", 30)],
        "b".to_string(), 1000);
    assert_eq!(oids(&cache), vec!["b", "d", "c", "a"]);
    for w in cache.all_commits.windows(2) {
        assert!(w[0].timestamp >= w[1].timestamp);
    }
}

#[test]
fn staleness_guard_compares_heads() {
    let cache = CommitCache::build(vec![rev("h", "x@e", "X", 1)], "h".to_string(), 1000);
    let head = "h".to_string();
    let other = "g".to_string();
    assert!(cache.is_valid(Some(&head)));
    assert!(!cache.is_valid(Some(&other)));
    assert!(!cache.is_valid(None));
}

#[test]
fn root_index_covers_snapshot() {
    let cache = CommitCache::build(
        vec![rev("c3", "a@e", "A", 3), rev("c2", "b@e", "B", 2), rev("c1", "a@e", "A", 1)],
        "c3".to_string(), 1000);
    assert!(cache.has_path_index(""));
    let page = cache.get_commits_for_path("", 10, 0, None, 1000).unwrap();
    assert_eq!(page.total, 3);
    assert_eq!(page.filtered_total, 3);
    assert_eq!(page.commits.len(), 3);
    assert!(!page.has_more);
    let emails: Vec<&str> = page.contributors.iter().map(|c| c.email.as_str()).collect();
    assert_eq!(emails, vec!["a@e", "b@e"]);
}

#[test]
fn path_index_is_built_once() {
    let mut cache = CommitCache::build(
        vec![rev("c3", "a@e", "A", 3), rev("c2", "b@e", "B", 2), rev("c1", "a@e", "A", 1)],
        "c3".to_string(), 1000);
    assert!(!cache.has_path_index("src"));
    cache.add_path_index("src", &vec![true, false, true]);
    assert!(cache.has_path_index("src"));
    let first = cache.get_commits_for_path("src", 10, 0, None, 1000).unwrap();
    cache.add_path_index("src", &vec![false, true, false]);
    let second = cache.get_commits_for_path("src", 10, 0, None, 1000).unwrap();
    assert_eq!(cache.path_cache.len(), 2);
    let a: Vec<&str> = first.commits.iter().map(|c| c.oid.as_str()).collect();
    let b: Vec<&str> = second.commits.iter().map(|c| c.oid.as_str()).collect();
    assert_eq!(a, vec!["c3", "c1"]);
    assert_eq!(a, b);
    assert_eq!(first.total, second.total);
    assert_eq!(cache.stats(1000).cached_paths, 2);
    assert_eq!(cache.stats(1000).total_commits, 3);
}

#[test]
fn excluding_authors_counts_what_is_left() {
    let cache = CommitCache::build(
        vec![
            rev("c4", "a@e", "A", 4),
            rev("c3", "b@e", "B", 3),
            rev("c2", "a@e", "A", 2),
            rev("c1", "c@e", "C", 1),
        ],
        "c4".to_string(), 1000);
    let ex = vec!["a@e".to_string()];
    let page = cache.get_commits_for_path("", 10, 0, Some(&ex), 1000).unwrap();
    assert_eq!(page.total, 4);
    assert_eq!(page.filtered_total, 2);
    let kept: Vec<&str> = page.commits.iter().map(|c| c.oid.as_str()).collect();
    assert_eq!(kept, vec!["c3", "c1"]);
    assert_eq!(page.contributors.len(), 3);
    assert_eq!(page.contributors[0].email, "a@e");
}

#[test]
fn pagination_reports_more() {
    let cache = CommitCache::build(
        (0..5).map(|i| rev(&format!("c{}", i), "a@e", "A", 100 - i)).collect(),
        "c0".to_string(),
        1000,
    );
    let page = cache.get_commits_for_path("", 2, 1, None, 1000).unwrap();
    assert_eq!(page.commits.len(), 2);
    assert_eq!(page.commits[0].oid, "c1");
    assert!(page.has_more);
    let last = cache.get_commits_for_path("", 2, 3, None, 1000).unwrap();
    assert_eq!(last.commits.len(), 2);
    assert!(!last.has_more);
    let beyond = cache.get_commits_for_path("", 2, 9, None, 1000).unwrap();
    assert!(beyond.commits.is_empty());
    assert!(!beyond.has_more);
    let huge = cache.get_commits_for_path("", usize::MAX, usize::MAX, None, 1000).unwrap();
    assert!(huge.commits.is_empty());
    assert!(!huge.has_more);
}

#[test]
fn linear_history_scenario() {
    let mut cache = CommitCache::build(
        vec![rev("C1", "a@e", "A", 1), rev("C2", "a@e", "A", 2), rev("C3", "a@e", "A", 3)],
        "C3".to_string(), 1000);
    assert_eq!(oids(&cache), vec!["C3", "C2", "C1"]);
    cache.add_path_index("g", &vec![true, false, false]);
    cache.add_path_index("f", &vec![false, true, false]);
    let g = cache.get_commits_for_path("g", 50, 0, None, 1000).unwrap();
    let f = cache.get_commits_for_path("f", 50, 0, None, 1000).unwrap();
    assert_eq!(g.commits.iter().map(|c| c.oid.as_str()).collect::<Vec<_>>(), vec!["C3"]);
    assert_eq!(f.commits.iter().map(|c| c.oid.as_str()).collect::<Vec<_>>(), vec!["C2"]);
}

#[test]
fn contributors_rank_by_count() {
    let mut cache = CommitCache::build(
        vec![
            rev("c5", "b@e", "B", 5),
            rev("c4", "a@e", "A", 4),
            rev("c3", "b@e", "B", 3),
            rev("c2", "c@e", "C", 2),
            rev("c1", "b@e", "Bee", 1),
        ],
        "c5".to_string(), 1000);
    cache.add_path_index("p", &vec![false, true, true, true, true]);
    let idx = &cache.path_cache[1].1;
    assert_eq!(idx.commit_indices, vec![1, 2, 3, 4]);
    let c: Vec<(&str, usize)> = idx.contributors.iter().map(|c| (c.email.as_str(), c.commit_count)).collect();
    assert_eq!(c, vec![("b@e", 2), ("a@e", 1), ("c@e", 1)]);
    assert_eq!(idx.contributors[0].name, "B");
}

#[test]
fn detail_copies_revision() {
    let mut c = rev("abc", "a@e", "A", 0);
    c.parents = vec!["p1".to_string(), "p2".to_string()];
    c.parent_count = 2;
    let d = c.to_commit_detail(3600);
    assert_eq!(d.oid, "abc");
    assert_eq!(d.author.email, "a@e");
    assert_eq!(d.parents, vec!["p1", "p2"]);
    assert_eq!(d.relative_time, "1 hour ago");
}

#[test]
fn revision_defaults_and_trim() {
    let c = CachedCommit::from_revision(
        "x".to_string(),
        Some("  fix bug \n"),
        None,
        None,
        Some("Cee"),
        Some("c@e"),
        7,
        vec!["p".to_string()],
    );
    assert_eq!(c.message, "fix bug");
    assert_eq!(c.author_name, "Unknown");
    assert_eq!(c.author_email, "");
    assert_eq!(c.committer_name, "Cee");
    assert_eq!(c.parent_count, 1);
}

#[test]
fn session_switch_rebuilds() {
    let head = "C3".to_string();
    let mut s = RepoSession::open("/repo/one".to_string());
    assert!(s.needs_rebuild(Some(&head)));
    assert!(matches!(s.list_revisions(Some(&head), "", 10, 0, None, 1000), HistoryStep::Rebuild));
    s.install(CommitCache::build(vec![rev("C3", "a@e", "A", 3)], head.clone(), 1000));
    assert!(matches!(s.list_revisions(Some(&head), "", 10, 0, None, 1000), HistoryStep::Answer(_)));
    assert!(matches!(s.list_revisions(Some(&head), "g", 10, 0, None, 1000), HistoryStep::IndexPath));
    s.add_path_index("g", &vec![true]);
    match s.list_revisions(Some(&head), "g", 10, 0, None, 1000) {
        HistoryStep::Answer(page) => assert_eq!(page.commits[0].oid, "C3"),
        _ => panic!("expected an answer"),
    }
    let moved = "C4".to_string();
    assert!(matches!(s.list_revisions(Some(&moved), "g", 10, 0, None, 1000), HistoryStep::Rebuild));
    assert!(matches!(s.list_revisions(None, "g", 10, 0, None, 1000), HistoryStep::Rebuild));
    let switched = RepoSession::open("/repo/two".to_string());
    assert!(switched.cache.is_none());
    assert!(matches!(switched.list_revisions(Some(&head), "", 10, 0, None, 1000), HistoryStep::Rebuild));
}

#[test]
fn stats_age_from_clock_reading() {
    let cache = CommitCache::build(vec![rev("h", "x@e", "X", 1)], "h".to_string(), 1000);
    assert_eq!(cache.stats(1500).age_secs, 500);
    assert_eq!(cache.stats(1000).age_secs, 0);
    assert_eq!(cache.stats(10).age_secs, 0);
    assert_eq!(cache.created_at, 1000);
}
