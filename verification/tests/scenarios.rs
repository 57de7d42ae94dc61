use gitmon::commits::{get_new_commits_since, RawCommit};
use gitmon::config::expand_tilde;
use gitmon::report::build_html_report_with_template;
use gitmon::run::{RepoOutcome, RunState};
use gitmon::state::WatermarkMap;

fn raw(id: &str, secs: i64) -> RawCommit {
    RawCommit {
        id: id.to_string(),
        time_secs: secs,
        author: Some("alice".to_string()),
        summary: Some(format!("summary of {}", id)),
        message: Some(format!("summary of {}\n", id)),
    }
}

#[test]
fn fresh_repo_with_cap() {
    // Repo A: watermark absent, mirror holds [c3, c2, c1], cap 2.
    let url = "https://example.com/a.git";
    let mut run = RunState::begin(WatermarkMap::new());
    let raws = vec![raw("c3", 1700000300), raw("c2", 1700000200), raw("c1", 1700000100)];
    let last = run.watermarks.get(url);
    assert_eq!(last, None);
    let commits = get_new_commits_since(&raws, &last, Some(2));
    assert_eq!(commits.len(), 2);
    run.step(url, RepoOutcome::NewCommits(commits));
    assert_eq!(run.watermarks.get(url), Some("c3".to_string()));
    assert!(run.has_news());
    let html = build_html_report_with_template(&run.sections, None);
    assert_eq!(html.matches("<h2>Repository: ").count(), 1);
    assert!(html.contains("https://example.com/a.git"));
    assert_eq!(html.matches("<tr><td>").count(), 2);
    let p3 = html.find("c3").unwrap();
    let p2 = html.find("c2").unwrap();
    assert!(p3 < p2);
}

#[test]
fn seen_repo_advances_watermark() {
    // Repo B: watermark c5, mirror holds [c7, c6, c5, c4].
    let url = "https://example.com/b.git";
    let mut store = WatermarkMap::new();
    store.set(url, "c5");
    let mut run = RunState::begin(store);
    let raws = vec![
        raw("c7", 1700000700),
        raw("c6", 1700000600),
        raw("c5", 1700000500),
        raw("c4", 1700000400),
    ];
    let last = run.watermarks.get(url);
    let commits = get_new_commits_since(&raws, &last, None);
    assert_eq!(commits.len(), 2);
    assert_eq!(commits[0].id, "c7");
    assert_eq!(commits[1].id, "c6");
    run.step(url, RepoOutcome::NewCommits(commits));
    assert_eq!(run.watermarks.get(url), Some("c7".to_string()));
}

#[test]
fn failed_mirror_changes_nothing() {
    // Repo C: the mirror update fails; C keeps its old watermark and
    // never reaches the report.
    let url_c = "https://example.com/c.git";
    let url_a = "https://example.com/a.git";
    let mut store = WatermarkMap::new();
    store.set(url_c, "c2");
    let mut run = RunState::begin(store);
    run.step(url_c, RepoOutcome::MirrorFailed);
    assert_eq!(run.watermarks.get(url_c), Some("c2".to_string()));
    assert!(!run.has_news());
    // Another repository still reports normally in the same run.
    let commits = get_new_commits_since(&vec![raw("a1", 1700000100)], &None, None);
    run.step(url_a, RepoOutcome::NewCommits(commits));
    let html = build_html_report_with_template(&run.sections, None);
    assert!(!html.contains("c.git"));
    assert!(html.contains("a.git"));
    assert_eq!(run.watermarks.get(url_c), Some("c2".to_string()));
}

#[test]
fn empty_walk_changes_nothing() {
    let url = "https://example.com/d.git";
    let mut store = WatermarkMap::new();
    store.set(url, "c1");
    let mut run = RunState::begin(store);
    run.step(url, RepoOutcome::NewCommits(Vec::new()));
    assert_eq!(run.watermarks.get(url), Some("c1".to_string()));
    assert!(!run.has_news());
}

#[test]
fn unreadable_history_changes_nothing() {
    let url = "https://example.com/e.git";
    let mut run = RunState::begin(WatermarkMap::new());
    run.step(url, RepoOutcome::HistoryUnreadable);
    assert_eq!(run.watermarks.get(url), None);
    assert!(!run.has_news());
}

#[test]
fn tilde_expansion() {
    let home = Some("/home/user".to_string());
    assert_eq!(expand_tilde("~/cache", &home), "/home/user/cache");
    assert_eq!(expand_tilde("/tmp/cache", &home), "/tmp/cache");
    assert_eq!(expand_tilde("~/cache", &None), "~/cache");
    assert_eq!(expand_tilde("", &home), "");
}
