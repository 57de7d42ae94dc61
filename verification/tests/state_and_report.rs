use gitmon::commits::CommitRecord;
use gitmon::report::{build_html_report_with_template, render_tables, RepoSection};
use gitmon::state::WatermarkMap;

fn record(id: &str, date: &str, author: &str, message: &str) -> CommitRecord {
    CommitRecord {
        id: id.to_string(),
        date: date.to_string(),
        author: author.to_string(),
        message: message.to_string(),
        change_id: None,
    }
}

#[test]
fn watermark_roundtrip() {
    let mut m = WatermarkMap::new();
    m.set("https://github.com/foo/bar.git", "c3");
    m.set("https://example.com/x.git", "c9");
    let text = m.serialize();
    let back = WatermarkMap::parse(text.as_str());
    assert_eq!(back.len(), 2);
    assert_eq!(back.get("https://github.com/foo/bar.git"), Some("c3".to_string()));
    assert_eq!(back.get("https://example.com/x.git"), Some("c9".to_string()));
}

#[test]
fn watermark_set_replaces_value() {
    let mut m = WatermarkMap::new();
    m.set("r", "c1");
    m.set("r", "c7");
    assert_eq!(m.get("r"), Some("c7".to_string()));
    assert_eq!(m.len(), 1);
}

#[test]
fn watermark_serialized_form_is_line_based() {
    let mut m = WatermarkMap::new();
    m.set("https://example.com/x.git", "c9");
    assert_eq!(m.serialize(), "c9 https://example.com/x.git\n");
}

#[test]
fn parse_recovers_damage_to_empty() {
    // Anything that is not a valid serialization — a line without a
    // space, a repeated URL, or a leftover file in another format —
    // loads as the empty map; a missing (empty) text does too.
    assert_eq!(WatermarkMap::parse("c1 u1\ngarbage\nc3 u2\n").len(), 0);
    assert_eq!(WatermarkMap::parse("c1 u1\nc2 u1\n").len(), 0);
    assert_eq!(WatermarkMap::parse("{\n  \"u1\": \"c1\"\n}").len(), 0);
    assert_eq!(WatermarkMap::parse("").len(), 0);
}

#[test]
fn parse_accepts_valid_text() {
    let m = WatermarkMap::parse("c1 u1\nc3 u 2\n");
    assert_eq!(m.len(), 2);
    assert_eq!(m.get("u1"), Some("c1".to_string()));
    // A URL may itself contain spaces; only the first space splits.
    assert_eq!(m.get("u 2"), Some("c3".to_string()));
    assert_eq!(m.get("absent"), None);
}

#[test]
fn empty_aggregate_renders_bare_wrapper() {
    let sections: Vec<RepoSection> = Vec::new();
    let html = build_html_report_with_template(&sections, None);
    assert_eq!(html, "<html><body><h1>Git Commit Report</h1></body></html>");
}

#[test]
fn zero_commit_sections_are_omitted() {
    let with_empty = vec![
        RepoSection { url: "https://a.example/r".to_string(), commits: Vec::new() },
        RepoSection {
            url: "https://example.com/r.git".to_string(),
            commits: vec![record("c1", "2024-01-02 03:04:05", "alice", "msg")],
        },
    ];
    let without_empty = vec![RepoSection {
        url: "https://example.com/r.git".to_string(),
        commits: vec![record("c1", "2024-01-02 03:04:05", "alice", "msg")],
    }];
    let a = render_tables(&with_empty);
    let b = render_tables(&without_empty);
    assert_eq!(a, b);
    assert!(!a.contains("a.example"));
}

#[test]
fn single_section_renders_exactly() {
    let sections = vec![RepoSection {
        url: "https://example.com/r.git".to_string(),
        commits: vec![record("c1", "2024-01-02 03:04:05", "alice", "msg")],
    }];
    let html = build_html_report_with_template(&sections, None);
    let expected = "<html><body><h1>Git Commit Report</h1>\
<h2>Repository: https://example.com/r.git</h2>\
<table border=\"1\"><tr><th>ID</th><th>Date</th><th>Author</th><th>Message</th></tr>\
<tr><td>c1</td><td>2024-01-02 03:04:05</td><td>alice</td><td>msg</td></tr>\
</table></body></html>";
    assert_eq!(html, expected);
}

#[test]
fn rows_come_newest_first() {
    let sections = vec![RepoSection {
        url: "u".to_string(),
        commits: vec![
            record("c3", "2024-01-03 00:00:00", "a", "m3"),
            record("c2", "2024-01-02 00:00:00", "a", "m2"),
        ],
    }];
    let html = render_tables(&sections);
    let p3 = html.find("<td>c3</td>").unwrap();
    let p2 = html.find("<td>c2</td>").unwrap();
    assert!(p3 < p2);
}

#[test]
fn template_placeholder_is_substituted() {
    let sections = vec![RepoSection {
        url: "u".to_string(),
        commits: vec![record("c1", "2024-01-02 03:04:05", "a", "m")],
    }];
    let template = "<!doctype html><main>{{tables}}</main>".to_string();
    let html = build_html_report_with_template(&sections, Some(&template));
    assert!(html.starts_with("<!doctype html><main><h2>Repository: u</h2>"));
    assert!(html.ends_with("</table></main>"));
    let no_placeholder = "<p>static</p>".to_string();
    let html2 = build_html_report_with_template(&sections, Some(&no_placeholder));
    assert_eq!(html2, "<p>static</p>");
}
