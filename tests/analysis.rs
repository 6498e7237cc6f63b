use repo_scan::aggregate::{
    analyze_commits_internal, analyze_repo_internal, commit_stats, monthly_stats, CommitInput,
    MonthBucket,
};
use repo_scan::author::{author_string, passes_given, AuthorFilter};
use repo_scan::error::AnalyzerError;
use repo_scan::ext::{extension_token, find_token_slot, slot_token, text_slot};
use repo_scan::month::month_key_of;
use repo_scan::project::touched_entries;
use repo_scan::stats::{count_origins, FileStats};
use repo_scan::walk::{FileChange, Walk};

fn change(path: &str, adds: usize, dels: usize) -> FileChange {
    let mut origins = Vec::new();
    for _ in 0..adds {
        origins.push('+');
    }
    for _ in 0..dels {
        origins.push('-');
    }
    origins.push(' ');
    FileChange { path: path.to_string(), origins }
}

fn commit(id: &str, ts: i64, email: &str, changes: Vec<FileChange>) -> CommitInput {
    CommitInput {
        id: id.to_string(),
        timestamp: ts,
        author_name: Some("Bob".to_string()),
        author_email: Some(email.to_string()),
        message: Some(format!("commit {}\n", id)),
        changes,
    }
}

fn stats_of(stats: &Vec<FileStats>, ext: &str) -> FileStats {
    stats[find_token_slot(ext).unwrap()]
}

fn bucket<'a>(buckets: &'a [MonthBucket], key: &str) -> &'a MonthBucket {
    buckets.iter().find(|b| b.key == key).unwrap()
}

fn no_patterns() -> AuthorFilter {
    match AuthorFilter::new(&vec![]) {
        Ok(f) => f,
        Err(_) => panic!("no patterns compile"),
    }
}

#[test]
fn extension_tokens() {
    assert_eq!(extension_token("src/Main.RS"), ".rs");
    assert_eq!(extension_token("a/b/c.tar.gz"), ".gz");
    assert_eq!(extension_token(".gitignore"), "");
    assert_eq!(extension_token("dir.d/Makefile"), "");
    assert_eq!(extension_token("x/.."), "");
    assert_eq!(extension_token("notes."), ".");
    assert_eq!(extension_token("a/.hidden.Py"), ".py");
}

#[test]
fn allowlist_slots() {
    assert_eq!(text_slot("a.png"), None);
    assert_eq!(text_slot("README"), None);
    assert_eq!(text_slot("lib.php"), Some(22));
    assert_eq!(text_slot("doc.TXT"), Some(0));
    assert_eq!(slot_token(3), ".py");
    assert_eq!(find_token_slot(".yml"), Some(13));
    assert_eq!(find_token_slot("yml"), None);
}

#[test]
fn month_keys_are_utc_year_and_padded_month() {
    assert_eq!(month_key_of(0), "1970-01");
    assert_eq!(month_key_of(1_700_000_000), "2023-11");
    assert_eq!(month_key_of(-1), "1969-12");
    assert_eq!(month_key_of(i64::MAX), "1970-01");
}

#[test]
fn month_keys_render_any_year() {
    assert_eq!(month_key_of(-62_167_219_200), "0-01");
    assert_eq!(month_key_of(-62_198_755_200), "-1-01");
    assert_eq!(month_key_of(253_402_300_800), "10000-01");
    assert_eq!(month_key_of(1_000_000_000), "2001-09");
    assert_eq!(month_key_of(1_005_000_000), "2001-11");
}

#[test]
fn author_text_and_filter() {
    assert_eq!(author_string(&Some("Bob".to_string()), &Some("bob@example.com".to_string())), "Bob <bob@example.com>");
    assert_eq!(author_string(&None, &None), " <>");
    let f = AuthorFilter::new(&vec!["bob@example.com".to_string()]).ok().unwrap();
    assert!(f.includes("Bob <bob@example.com>"));
    assert!(!f.includes("Alice <alice@example.com>"));
    assert!(no_patterns().includes("anyone <x>"));
    let g = AuthorFilter::new(&vec!["^Carol".to_string(), "alice".to_string()]).ok().unwrap();
    assert!(g.includes("Alice <alice@example.com>"));
    assert!(g.includes("Carol <c@x>"));
    assert!(!g.includes("Bob <bob@x>"));
}

#[test]
fn bad_pattern_is_an_error() {
    match AuthorFilter::new(&vec!["ok".to_string(), "(".to_string()]) {
        Err(AnalyzerError::RegexError(_)) => {}
        _ => panic!("expected a pattern error"),
    }
}

#[test]
fn passes_given_rule() {
    assert!(passes_given(&vec![]));
    assert!(!passes_given(&vec![false, false]));
    assert!(passes_given(&vec![false, true]));
}

#[test]
fn origins_counted() {
    assert_eq!(count_origins(&vec!['+', '-', ' ', '+', '=', '>']), (2, 1));
    assert_eq!(count_origins(&vec![]), (0, 0));
}

#[test]
fn three_commit_month() {
    let commits = vec![
        commit("c1", 1_700_000_000, "bob@example.com", vec![change("a.py", 10, 0)]),
        commit("c2", 1_700_000_100, "bob@example.com", vec![change("a.py", 2, 1)]),
        commit("c3", 1_700_000_200, "bob@example.com", vec![change("b.md", 5, 0)]),
    ];
    let buckets = analyze_repo_internal(&commits, &no_patterns());
    assert_eq!(buckets.len(), 1);
    let b = bucket(&buckets, "2023-11");
    let py = stats_of(&b.stats, ".py");
    assert_eq!((py.files, py.additions, py.deletions, py.lines, py.modifications, py.repos), (1, 12, 1, 11, 2, 0));
    let md = stats_of(&b.stats, ".md");
    assert_eq!((md.files, md.additions, md.deletions, md.lines, md.modifications, md.repos), (1, 5, 0, 5, 1, 0));
    let entries = touched_entries(&b.stats);
    let exts: Vec<String> = entries.iter().map(|e| e.ext.clone()).collect();
    assert_eq!(exts, vec![".md".to_string(), ".py".to_string()]);
}

#[test]
fn path_counted_once_across_months() {
    let commits = vec![
        commit("c1", 0, "x", vec![change("src/a.rs", 3, 0)]),
        commit("c2", 1_700_000_000, "x", vec![change("src/a.rs", 1, 1), change("src/b.rs", 1, 0)]),
    ];
    let buckets = analyze_repo_internal(&commits, &no_patterns());
    assert_eq!(buckets.len(), 2);
    assert_eq!(buckets[0].key, "1970-01");
    let first = stats_of(&bucket(&buckets, "1970-01").stats, ".rs");
    assert_eq!((first.files, first.additions, first.lines, first.modifications), (1, 3, 3, 1));
    let later = stats_of(&bucket(&buckets, "2023-11").stats, ".rs");
    assert_eq!((later.files, later.additions, later.deletions, later.lines, later.modifications), (1, 2, 1, 1, 2));
}

#[test]
fn ineligible_paths_ignored() {
    let mut walk = Walk::new();
    let delta = walk.apply_commit(&vec![change("logo.png", 4, 0), change("Makefile", 1, 0)]);
    assert!(touched_entries(&delta).is_empty());
    assert!(!walk.has_seen(&"logo.png".to_string()));
    let commits = vec![commit("c1", 0, "x", vec![change("logo.png", 7, 2)])];
    assert!(analyze_repo_internal(&commits, &no_patterns()).is_empty());
}

#[test]
fn root_commit_paths_are_new() {
    let mut walk = Walk::new();
    let delta = walk.apply_commit(&vec![change("a.py", 1, 0), change("b.py", 0, 0), change("c.md", 2, 0)]);
    let py = stats_of(&delta, ".py");
    assert_eq!((py.files, py.additions, py.modifications), (2, 1, 1));
    assert_eq!(stats_of(&delta, ".md").files, 1);
    assert!(walk.has_seen(&"a.py".to_string()) && walk.has_seen(&"b.py".to_string()) && walk.has_seen(&"c.md".to_string()));
}

#[test]
fn author_filter_selects_commits() {
    let commits = vec![
        commit("c1", 0, "alice@example.com", vec![change("a.py", 1, 0)]),
        commit("c2", 0, "bob@example.com", vec![change("b.py", 4, 1)]),
    ];
    let f = AuthorFilter::new(&vec!["bob@example.com".to_string()]).ok().unwrap();
    let buckets = analyze_repo_internal(&commits, &f);
    let py = stats_of(&buckets[0].stats, ".py");
    assert_eq!((py.files, py.additions, py.deletions, py.lines), (1, 4, 1, 3));
    let none = AuthorFilter::new(&vec!["nobody@nowhere".to_string()]).ok().unwrap();
    assert!(analyze_repo_internal(&commits, &none).is_empty());
    assert!(analyze_commits_internal(&commits, &none).is_empty());
    assert_eq!(analyze_commits_internal(&commits, &no_patterns()).len(), 2);
}

#[test]
fn per_commit_records() {
    let commits = vec![
        commit("c1", 10, "bob@example.com", vec![change("a.py", 10, 0)]),
        commit("c2", 20, "bob@example.com", vec![]),
        commit("c3", 30, "bob@example.com", vec![change("a.py", 2, 1), change("b.md", 5, 0)]),
    ];
    let recs = analyze_commits_internal(&commits, &no_patterns());
    assert_eq!(recs.len(), 3);
    assert_eq!(recs[0].id, "c1");
    assert_eq!(recs[0].timestamp, 10);
    assert_eq!(recs[0].author, "Bob <bob@example.com>");
    assert_eq!(recs[0].message, "commit c1\n");
    assert!(touched_entries(&recs[1].stats).is_empty());
    let py = stats_of(&recs[2].stats, ".py");
    assert_eq!((py.files, py.additions, py.deletions, py.lines, py.modifications), (0, 2, 1, 1, 1));
    assert_eq!(stats_of(&recs[2].stats, ".md").files, 1);
}

#[test]
fn missing_message_is_empty() {
    let mut c = commit("c1", 0, "x", vec![]);
    c.message = None;
    c.author_name = None;
    let recs = commit_stats(&vec![c], &vec![true]);
    assert_eq!(recs[0].message, "");
    assert_eq!(recs[0].author, " <x>");
}

#[test]
fn given_keys_and_inclusion() {
    let commits = vec![
        commit("c1", 0, "x", vec![change("a.c", 1, 0)]),
        commit("c2", 0, "x", vec![change("b.c", 1, 0)]),
        commit("c3", 0, "x", vec![change("c.c", 0, 3)]),
    ];
    let keys = vec!["k1".to_string(), "k2".to_string(), "k1".to_string()];
    let buckets = monthly_stats(&commits, &keys, &vec![true, false, true]);
    assert_eq!(buckets.len(), 1);
    let c = stats_of(&buckets[0].stats, ".c");
    assert_eq!((c.files, c.additions, c.deletions, c.lines, c.modifications), (2, 1, 3, -2, 2));
}

#[test]
fn lines_balance_after_each_commit() {
    let commits = vec![
        commit("c1", 0, "x", vec![change("a.go", 5, 9)]),
        commit("c2", 0, "x", vec![change("a.go", 3, 0), change("b.go", 0, 4)]),
    ];
    for n in 1..=commits.len() {
        let prefix: Vec<CommitInput> = commits[..n]
            .iter()
            .map(|c| commit(&c.id, c.timestamp, "x", c.changes.iter().map(|f| FileChange { path: f.path.clone(), origins: f.origins.clone() }).collect()))
            .collect();
        for b in analyze_repo_internal(&prefix, &no_patterns()) {
            for s in b.stats.iter() {
                assert_eq!(s.lines, s.additions as i64 - s.deletions as i64);
            }
        }
    }
}

#[test]
fn repeated_analysis_is_identical() {
    let commits = vec![
        commit("c1", 0, "x", vec![change("a.ts", 5, 1)]),
        commit("c2", 99_999_999, "x", vec![change("a.ts", 3, 0), change("b.tsx", 1, 0)]),
    ];
    let a = analyze_repo_internal(&commits, &no_patterns());
    let b = analyze_repo_internal(&commits, &no_patterns());
    assert_eq!(a.len(), b.len());
    for (x, y) in a.iter().zip(b.iter()) {
        assert_eq!(x.key, y.key);
        assert_eq!(x.stats, y.stats);
    }
}
