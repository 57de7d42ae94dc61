use gitmon::commits::{extract_change_id, get_new_commits_since, RawCommit};

fn raw(id: &str, secs: i64, author: &str, summary: &str, message: &str) -> RawCommit {
    RawCommit {
        id: id.to_string(),
        time_secs: secs,
        author: Some(author.to_string()),
        summary: Some(summary.to_string()),
        message: Some(message.to_string()),
    }
}

#[test]
fn first_run_capped_returns_newest_two() {
    // Watermark absent, three commits newest first, cap 2.
    let raws = vec![
        raw("c3", 1700000300, "alice", "third", "third\n"),
        raw("c2", 1700000200, "alice", "second", "second\n"),
        raw("c1", 1700000100, "bob", "first", "first\n"),
    ];
    let out = get_new_commits_since(&raws, &None, Some(2));
    assert_eq!(out.len(), 2);
    assert_eq!(out[0].id, "c3");
    assert_eq!(out[1].id, "c2");
}

#[test]
fn first_run_uncapped_returns_all() {
    let raws = vec![
        raw("c3", 1700000300, "alice", "third", "third\n"),
        raw("c2", 1700000200, "alice", "second", "second\n"),
        raw("c1", 1700000100, "bob", "first", "first\n"),
    ];
    let out = get_new_commits_since(&raws, &None, None);
    assert_eq!(out.len(), 3);
    assert_eq!(out[2].id, "c1");
}

#[test]
fn walk_stops_before_watermark() {
    // Watermark c5; history [c7, c6, c5, c4]; only c7 and c6 are new.
    let raws = vec![
        raw("c7", 1700000700, "a", "7", "7\n"),
        raw("c6", 1700000600, "a", "6", "6\n"),
        raw("c5", 1700000500, "a", "5", "5\n"),
        raw("c4", 1700000400, "a", "4", "4\n"),
    ];
    let out = get_new_commits_since(&raws, &Some("c5".to_string()), None);
    assert_eq!(out.len(), 2);
    assert_eq!(out[0].id, "c7");
    assert_eq!(out[1].id, "c6");
    for c in &out {
        assert_ne!(c.id, "c5");
        assert_ne!(c.id, "c4");
    }
}

#[test]
fn cap_of_zero_yields_nothing() {
    let raws = vec![raw("c1", 1700000100, "a", "x", "x\n")];
    let out = get_new_commits_since(&raws, &None, Some(0));
    assert!(out.is_empty());
}

#[test]
fn watermark_not_in_history_yields_everything() {
    let raws = vec![
        raw("c2", 1700000200, "a", "2", "2\n"),
        raw("c1", 1700000100, "a", "1", "1\n"),
    ];
    let out = get_new_commits_since(&raws, &Some("gone".to_string()), None);
    assert_eq!(out.len(), 2);
}

#[test]
fn record_fields_are_filled() {
    let raws = vec![RawCommit {
        id: "abc123".to_string(),
        time_secs: 1700000000,
        author: None,
        summary: None,
        message: Some("summary line\n\nbody\nChange-Id: I42\n".to_string()),
    }];
    let out = get_new_commits_since(&raws, &None, None);
    assert_eq!(out.len(), 1);
    assert_eq!(out[0].id, "abc123");
    assert_eq!(out[0].author, "Unknown");
    assert_eq!(out[0].message, "");
    assert_eq!(out[0].change_id, Some("I42".to_string()));
    // The rendered date always has the fixed 19-character shape.
    assert_eq!(out[0].date.chars().count(), 19);
}

#[test]
fn epoch_era_timestamps_render() {
    // A commit stamped at the epoch itself (a real occurrence from
    // broken tools) is walked and rendered like any other.
    let raws = vec![raw("c0", 0, "a", "epoch", "epoch\n")];
    let out = get_new_commits_since(&raws, &None, None);
    assert_eq!(out.len(), 1);
    assert_eq!(out[0].date.chars().count(), 19);
}

#[test]
fn change_id_from_first_trailer() {
    let msg = "fix things\n\nChange-Id: Iaaa\nChange-Id: Ibbb\n";
    assert_eq!(extract_change_id(msg), Some("Iaaa".to_string()));
}

#[test]
fn change_id_absent() {
    assert_eq!(extract_change_id("no trailer here\n"), None);
    assert_eq!(extract_change_id(""), None);
}

#[test]
fn change_id_value_is_trimmed() {
    assert_eq!(extract_change_id("x\nChange-Id:   I7  \n"), Some("I7".to_string()));
}
