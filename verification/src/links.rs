//! Host-aware hyperlink derivation for commit identifiers.  A repository
//! URL is matched against known hosting services by substring; the
//! commit view URL is built by a fixed per-host suffix convention after
//! stripping a trailing `.git` suffix.  Unrecognized hosts fall back to
//! the bare identifier.

use vstd::prelude::*;

use crate::text::spec_contains;
use crate::text::spec_contains_at;
use crate::text::spec_ends_with;
use crate::text::spec_find_char;
use crate::text::spec_find_sub;
use crate::text::contains_sub;
use crate::text::ends_with;
use crate::text::find_char;
use crate::text::find_sub;

verus! {

/// The scheme separator `://`.
pub open spec fn scheme_sep() -> Seq<char> {
    seq![':', '/', '/']
}

/// The suffix `.git`.
pub open spec fn git_suffix() -> Seq<char> {
    seq!['.', 'g', 'i', 't']
}

/// `s` truncated right after its domain: everything up to the first `/`
/// that follows the scheme separator (or the first `/` at all, if there
/// is no scheme); `s` itself if no such `/` exists.
pub open spec fn spec_trim_after_domain(s: Seq<char>) -> Seq<char> {
    let start = if spec_contains(s, scheme_sep()) {
        spec_find_sub(s, scheme_sep(), 0) + 3
    } else {
        0
    };
    let slash = spec_find_char(s, '/', start);
    if slash < s.len() {
        s.take(slash)
    } else {
        s
    }
}

/// Truncates a URL right after its domain.
pub fn trim_after_domain<'a>(url: &'a str) -> (r: &'a str)
    ensures
        r@ == spec_trim_after_domain(url@),
{
    let sep = "://";
    proof {
        reveal_strlit("://");
        assert(sep@ =~= scheme_sep());
    }
    let n = url.unicode_len();
    let start: usize = match find_sub(url, sep) {
        Some(i) => i + 3,
        None => 0,
    };
    let slash = find_char(url, '/', start);
    if slash < n {
        url.substring_char(0, slash)
    } else {
        url
    }
}

/// `s` with every trailing repetition of `.git` removed.
pub open spec fn spec_strip_git(s: Seq<char>) -> Seq<char>
    decreases s.len(),
{
    if spec_ends_with(s, git_suffix()) {
        spec_strip_git(s.take(s.len() - 4))
    } else {
        s
    }
}

/// Removes every trailing repetition of `.git` from a URL.
pub fn strip_git_suffix<'a>(url: &'a str) -> (r: &'a str)
    ensures
        r@ == spec_strip_git(url@),
{
    let suffix = ".git";
    proof {
        reveal_strlit(".git");
        assert(suffix@ =~= git_suffix());
    }
    let mut t = url;
    while ends_with(t, suffix)
        invariant
            suffix@ =~= git_suffix(),
            spec_strip_git(url@) == spec_strip_git(t@),
        decreases t@.len(),
    {
        let n = t.unicode_len();
        t = t.substring_char(0, n - 4);
    }
    t
}

/// The commit-view URL (or bare identifier) for a commit of a given
/// repository: GitHub, GitLab and Bitbucket URLs get their fixed
/// per-host suffix after `.git` stripping; a gerrit-like host with a
/// change-tracking token gets a review query URL on the bare domain;
/// everything else keeps the bare identifier.
pub open spec fn spec_derive_link(repo: Seq<char>, id: Seq<char>, change: Option<Seq<char>>) -> Seq<
    char,
> {
    if spec_contains(repo, "github.com"@) {
        spec_strip_git(repo) + "/commit/"@ + id
    } else if spec_contains(repo, "gitlab.com"@) {
        spec_strip_git(repo) + "/-/commit/"@ + id + ".patch"@
    } else if spec_contains(repo, "bitbucket.org"@) {
        spec_strip_git(repo) + "/commits/"@ + id + ".patch"@
    } else if spec_contains(repo, "gerrit"@) && change is Some {
        spec_trim_after_domain(spec_strip_git(repo)) + "/r/q/"@ + change->0
    } else {
        id
    }
}

/// Derives the commit-view URL (or bare identifier) for one commit.
pub fn derive_link(repo: &str, id: &str, change: &Option<String>) -> (r: String)
    ensures
        r@ == spec_derive_link(repo@, id@, match change {
            Some(c) => Some(c@),
            None => None,
        }),
{
    if contains_sub(repo, "github.com") {
        let mut r = String::from_str(strip_git_suffix(repo));
        r.append("/commit/");
        r.append(id);
        r
    } else if contains_sub(repo, "gitlab.com") {
        let mut r = String::from_str(strip_git_suffix(repo));
        r.append("/-/commit/");
        r.append(id);
        r.append(".patch");
        r
    } else if contains_sub(repo, "bitbucket.org") {
        let mut r = String::from_str(strip_git_suffix(repo));
        r.append("/commits/");
        r.append(id);
        r.append(".patch");
        r
    } else {
        let gerrit_like = contains_sub(repo, "gerrit");
        match change {
            Some(token) if gerrit_like => {
                let mut r = String::from_str(trim_after_domain(strip_git_suffix(repo)));
                r.append("/r/q/");
                r.append(token.as_str());
                r
            },
            _ => String::from_str(id),
        }
    }
}

/// The table cell content for a commit identifier: an anchor around the
/// identifier when the derived link is a real URL, the bare identifier
/// otherwise.
pub open spec fn spec_id_cell(repo: Seq<char>, id: Seq<char>, change: Option<Seq<char>>) -> Seq<
    char,
> {
    let u = spec_derive_link(repo, id, change);
    if spec_contains_at(u, "http"@, 0) {
        "<a href=\""@ + u + "\">"@ + id + "</a>"@
    } else {
        id
    }
}

/// Renders the identifier cell for one commit, linking it when the
/// derived URL is usable.
pub fn id_cell(repo: &str, id: &str, change: &Option<String>) -> (r: String)
    ensures
        r@ == spec_id_cell(repo@, id@, match change {
            Some(c) => Some(c@),
            None => None,
        }),
{
    let url = derive_link(repo, id, change);
    if starts_with_http(&url) {
        let mut r = String::from_str("<a href=\"");
        r.append(url.as_str());
        r.append("\">");
        r.append(id);
        r.append("</a>");
        r
    } else {
        String::from_str(id)
    }
}

/// Link derivation is host-keyed: for a GitHub URL carrying a single
/// trailing `.git`, the derived link is exactly the URL without that
/// suffix, then `/commit/`, then the identifier.
pub proof fn lemma_link_github(repo: Seq<char>, id: Seq<char>, change: Option<Seq<char>>)
    requires
        spec_contains(repo, "github.com"@),
        spec_ends_with(repo, git_suffix()),
        !spec_ends_with(repo.take(repo.len() - 4), git_suffix()),
    ensures
        spec_derive_link(repo, id, change) == repo.take(repo.len() - 4) + "/commit/"@ + id,
{
    assert(spec_strip_git(repo.take(repo.len() - 4)) == repo.take(repo.len() - 4));
    assert(spec_strip_git(repo) == spec_strip_git(repo.take(repo.len() - 4)));
}

/// The GitLab analogue: URL without `.git`, `/-/commit/`, identifier,
/// `.patch`.
pub proof fn lemma_link_gitlab(repo: Seq<char>, id: Seq<char>, change: Option<Seq<char>>)
    requires
        !spec_contains(repo, "github.com"@),
        spec_contains(repo, "gitlab.com"@),
        spec_ends_with(repo, git_suffix()),
        !spec_ends_with(repo.take(repo.len() - 4), git_suffix()),
    ensures
        spec_derive_link(repo, id, change) == repo.take(repo.len() - 4) + "/-/commit/"@ + id
            + ".patch"@,
{
    assert(spec_strip_git(repo.take(repo.len() - 4)) == repo.take(repo.len() - 4));
    assert(spec_strip_git(repo) == spec_strip_git(repo.take(repo.len() - 4)));
}

/// The Bitbucket analogue: URL without `.git`, `/commits/`,
/// identifier, `.patch`.
pub proof fn lemma_link_bitbucket(repo: Seq<char>, id: Seq<char>, change: Option<Seq<char>>)
    requires
        !spec_contains(repo, "github.com"@),
        !spec_contains(repo, "gitlab.com"@),
        spec_contains(repo, "bitbucket.org"@),
        spec_ends_with(repo, git_suffix()),
        !spec_ends_with(repo.take(repo.len() - 4), git_suffix()),
    ensures
        spec_derive_link(repo, id, change) == repo.take(repo.len() - 4) + "/commits/"@ + id
            + ".patch"@,
{
    assert(spec_strip_git(repo.take(repo.len() - 4)) == repo.take(repo.len() - 4));
    assert(spec_strip_git(repo) == spec_strip_git(repo.take(repo.len() - 4)));
}

/// A URL that matches none of the known hosts and carries no
/// change-tracking token keeps the bare identifier, and — as long as
/// the identifier does not itself begin with `http` — its table cell
/// carries no anchor.
pub proof fn lemma_link_bare(repo: Seq<char>, id: Seq<char>, change: Option<Seq<char>>)
    requires
        !spec_contains(repo, "github.com"@),
        !spec_contains(repo, "gitlab.com"@),
        !spec_contains(repo, "bitbucket.org"@),
        change is None,
        !spec_contains_at(id, "http"@, 0),
    ensures
        spec_derive_link(repo, id, change) == id,
        spec_id_cell(repo, id, change) == id,
{
}

/// Tests whether a derived link begins with `http`.
fn starts_with_http(s: &String) -> (r: bool)
    ensures
        r == spec_contains_at(s@, "http"@, 0),
{
    crate::text::starts_with_at(s.as_str(), "http", 0)
}

} // verus!
