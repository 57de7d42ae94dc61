use gitmon::hashing::hash_repo_url;
use gitmon::links::{derive_link, id_cell, strip_git_suffix, trim_after_domain};

#[test]
fn github_link_is_url_without_git_plus_commit() {
    let url = derive_link("https://github.com/foo/bar.git", "abc123", &None);
    assert_eq!(url, "https://github.com/foo/bar/commit/abc123");
}

#[test]
fn gitlab_link_uses_dash_commit_and_patch() {
    let url = derive_link("https://gitlab.com/foo/bar.git", "abc123", &None);
    assert_eq!(url, "https://gitlab.com/foo/bar/-/commit/abc123.patch");
}

#[test]
fn bitbucket_link_uses_commits_and_patch() {
    let url = derive_link("https://bitbucket.org/foo/bar.git", "abc123", &None);
    assert_eq!(url, "https://bitbucket.org/foo/bar/commits/abc123.patch");
}

#[test]
fn gerrit_link_uses_domain_and_token() {
    let url = derive_link(
        "https://gerrit.example.org/a/project.git",
        "abc123",
        &Some("I42".to_string()),
    );
    assert_eq!(url, "https://gerrit.example.org/r/q/I42");
}

#[test]
fn gerrit_without_token_keeps_bare_id() {
    let url = derive_link("https://gerrit.example.org/a/project.git", "abc123", &None);
    assert_eq!(url, "abc123");
}

#[test]
fn unknown_host_keeps_bare_id_without_anchor() {
    assert_eq!(derive_link("https://example.com/repo.git", "abc123", &None), "abc123");
    assert_eq!(id_cell("https://example.com/repo.git", "abc123", &None), "abc123");
}

#[test]
fn known_host_cell_is_anchored() {
    let cell = id_cell("https://github.com/foo/bar.git", "abc", &None);
    assert_eq!(cell, "<a href=\"https://github.com/foo/bar/commit/abc\">abc</a>");
}

#[test]
fn trim_after_domain_cases() {
    assert_eq!(trim_after_domain("https://host.example/a/b"), "https://host.example");
    assert_eq!(trim_after_domain("host.example/a"), "host.example");
    assert_eq!(trim_after_domain("https://host.example"), "https://host.example");
    assert_eq!(trim_after_domain("host.example"), "host.example");
}

#[test]
fn strip_git_suffix_cases() {
    assert_eq!(strip_git_suffix("a/b.git"), "a/b");
    assert_eq!(strip_git_suffix("a/b"), "a/b");
    assert_eq!(strip_git_suffix("a/b.git.git"), "a/b");
}

#[test]
fn mirror_key_matches_known_digest() {
    // SHA-1 test vectors: the digest of "" and of "abc".
    assert_eq!(hash_repo_url(""), "da39a3ee5e6b4b0d3255bfef95601890afd80709");
    assert_eq!(hash_repo_url("abc"), "a9993e364706816aba3e25717850c26c9cd0d89d");
}

#[test]
fn mirror_key_is_stable_and_discriminating() {
    let u = "https://github.com/foo/bar.git";
    assert_eq!(hash_repo_url(u), hash_repo_url(u));
    assert_ne!(hash_repo_url(u), hash_repo_url("https://github.com/foo/baz.git"));
    assert_eq!(hash_repo_url(u).len(), 40);
}
