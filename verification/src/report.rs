//! The report renderer.  Each repository that yielded new commits
//! becomes a heading and a table of (identifier, date, author,
//! message), newest first; repositories without new commits are left
//! out entirely.  The joined tables are substituted into a template's
//! placeholder when a template is at hand, and wrapped in a minimal
//! HTML document otherwise.

use vstd::prelude::*;

use crate::commits::CommitRecord;
use crate::commits::spec_opt_view;
use crate::links::id_cell;
use crate::links::spec_id_cell;
use crate::text::spec_contains;
use crate::text::spec_find_sub;
use crate::text::find_sub;

verus! {

/// The commits of one repository, ready for rendering.
pub struct RepoSection {
    /// Repository URL, used for the heading and for link derivation.
    pub url: String,
    /// New commits of this repository, newest first.
    pub commits: Vec<CommitRecord>,
}

/// One table row for a commit.
pub open spec fn spec_row(repo: Seq<char>, c: CommitRecord) -> Seq<char> {
    "<tr><td>"@ + spec_id_cell(repo, c.id@, spec_opt_view(c.change_id)) + "</td><td>"@ + c.date@
        + "</td><td>"@ + c.author@ + "</td><td>"@ + c.message@ + "</td></tr>"@
}

/// The rows of one repository's table, in commit order.
pub open spec fn spec_rows(repo: Seq<char>, commits: Seq<CommitRecord>) -> Seq<char>
    decreases commits.len(),
{
    if commits.len() == 0 {
        Seq::empty()
    } else {
        spec_row(repo, commits[0]) + spec_rows(repo, commits.skip(1))
    }
}

/// Heading and table for one repository.
pub open spec fn spec_section(s: RepoSection) -> Seq<char> {
    "<h2>Repository: "@ + s.url@
        + "</h2><table border=\"1\"><tr><th>ID</th><th>Date</th><th>Author</th><th>Message</th></tr>"@
        + spec_rows(s.url@, s.commits@) + "</table>"@
}

/// All tables joined, in input order; repositories without commits are
/// omitted entirely.
pub open spec fn spec_tables(sections: Seq<RepoSection>) -> Seq<char>
    decreases sections.len(),
{
    if sections.len() == 0 {
        Seq::empty()
    } else {
        (if sections[0].commits@.len() == 0 {
            Seq::empty()
        } else {
            spec_section(sections[0])
        }) + spec_tables(sections.skip(1))
    }
}

/// The finished document: the tables substituted for the template's
/// first `{{tables}}` placeholder, the template unchanged if it has no
/// placeholder, or a minimal self-contained wrapper without a template.
pub open spec fn spec_report(sections: Seq<RepoSection>, template: Option<Seq<char>>) -> Seq<
    char,
> {
    let tables = spec_tables(sections);
    match template {
        Some(t) => if spec_contains(t, "{{tables}}"@) {
            let f = spec_find_sub(t, "{{tables}}"@, 0);
            t.take(f) + tables + t.skip(f + "{{tables}}"@.len())
        } else {
            t
        },
        None => "<html><body><h1>Git Commit Report</h1>"@ + tables + "</body></html>"@,
    }
}

proof fn lemma_rows_push(repo: Seq<char>, commits: Seq<CommitRecord>, c: CommitRecord)
    ensures
        spec_rows(repo, commits.push(c)) == spec_rows(repo, commits) + spec_row(repo, c),
    decreases commits.len(),
{
    if commits.len() == 0 {
        assert(commits.push(c)[0] == c);
        assert(commits.push(c).skip(1) =~= Seq::<CommitRecord>::empty());
        assert(spec_rows(repo, Seq::<CommitRecord>::empty()) == Seq::<char>::empty());
        assert(spec_rows(repo, commits.push(c)) == spec_row(repo, c) + Seq::<char>::empty());
        assert(spec_row(repo, c) + Seq::<char>::empty() =~= Seq::<char>::empty() + spec_row(
            repo,
            c,
        ));
    } else {
        lemma_rows_push(repo, commits.skip(1), c);
        assert(commits.push(c)[0] == commits[0]);
        assert(commits.push(c).skip(1) =~= commits.skip(1).push(c));
        assert(spec_rows(repo, commits.push(c)) == spec_row(repo, commits[0]) + spec_rows(
            repo,
            commits.skip(1).push(c),
        ));
        assert(spec_rows(repo, commits) == spec_row(repo, commits[0]) + spec_rows(
            repo,
            commits.skip(1),
        ));
        assert(spec_row(repo, commits[0]) + (spec_rows(repo, commits.skip(1)) + spec_row(
            repo,
            c,
        )) =~= (spec_row(repo, commits[0]) + spec_rows(repo, commits.skip(1))) + spec_row(
            repo,
            c,
        ));
    }
}

proof fn lemma_tables_push(sections: Seq<RepoSection>, s: RepoSection)
    ensures
        spec_tables(sections.push(s)) == spec_tables(sections) + (if s.commits@.len() == 0 {
            Seq::<char>::empty()
        } else {
            spec_section(s)
        }),
    decreases sections.len(),
{
    let part = if s.commits@.len() == 0 {
        Seq::<char>::empty()
    } else {
        spec_section(s)
    };
    if sections.len() == 0 {
        assert(sections.push(s)[0] == s);
        assert(sections.push(s).skip(1) =~= Seq::<RepoSection>::empty());
        assert(spec_tables(Seq::<RepoSection>::empty()) == Seq::<char>::empty());
        assert(spec_tables(sections.push(s)) == part + Seq::<char>::empty());
        assert(part + Seq::<char>::empty() =~= Seq::<char>::empty() + part);
    } else {
        lemma_tables_push(sections.skip(1), s);
        let head = if sections[0].commits@.len() == 0 {
            Seq::<char>::empty()
        } else {
            spec_section(sections[0])
        };
        assert(sections.push(s)[0] == sections[0]);
        assert(sections.push(s).skip(1) =~= sections.skip(1).push(s));
        assert(spec_tables(sections.push(s)) == head + spec_tables(sections.skip(1).push(s)));
        assert(spec_tables(sections) == head + spec_tables(sections.skip(1)));
        assert(head + (spec_tables(sections.skip(1)) + part) =~= (head + spec_tables(
            sections.skip(1),
        )) + part);
    }
}

/// A repository with no new commits contributes nothing to the joined
/// tables: dropping its section leaves the rendering unchanged.
pub proof fn lemma_empty_section_invisible(sections: Seq<RepoSection>, i: int)
    requires
        0 <= i < sections.len(),
        sections[i].commits@.len() == 0,
    ensures
        spec_tables(sections) == spec_tables(sections.remove(i)),
    decreases sections.len(),
{
    if i == 0 {
        assert(sections.remove(0) =~= sections.skip(1));
    } else {
        lemma_empty_section_invisible(sections.skip(1), i - 1);
        assert(sections.skip(1)[i - 1] == sections[i]);
        assert(sections.remove(i)[0] == sections[0]);
        assert(sections.remove(i).skip(1) =~= sections.skip(1).remove(i - 1));
    }
}

/// Renders one commit row.
fn render_row(repo: &str, c: &CommitRecord) -> (r: String)
    ensures
        r@ == spec_row(repo@, *c),
{
    let cell = id_cell(repo, c.id.as_str(), &c.change_id);
    let mut r = String::from_str("<tr><td>");
    r.append(cell.as_str());
    r.append("</td><td>");
    r.append(c.date.as_str());
    r.append("</td><td>");
    r.append(c.author.as_str());
    r.append("</td><td>");
    r.append(c.message.as_str());
    r.append("</td></tr>");
    r
}

/// Renders one repository's heading and table.
fn render_section(s: &RepoSection) -> (r: String)
    ensures
        r@ == spec_section(*s),
{
    let mut r = String::from_str("<h2>Repository: ");
    r.append(s.url.as_str());
    r.append(
        "</h2><table border=\"1\"><tr><th>ID</th><th>Date</th><th>Author</th><th>Message</th></tr>",
    );
    let mut i: usize = 0;
    let mut rows = String::new();
    proof {
        assert(s.commits@.take(0) =~= Seq::<CommitRecord>::empty());
    }
    while i < s.commits.len()
        invariant
            0 <= i <= s.commits@.len(),
            rows@ == spec_rows(s.url@, s.commits@.take(i as int)),
        decreases s.commits@.len() - i,
    {
        let row = render_row(s.url.as_str(), &s.commits[i]);
        rows.append(row.as_str());
        proof {
            assert(s.commits@.take(i + 1) =~= s.commits@.take(i as int).push(
                s.commits@[i as int],
            ));
            lemma_rows_push(s.url@, s.commits@.take(i as int), s.commits@[i as int]);
        }
        i = i + 1;
    }
    proof {
        assert(s.commits@.take(s.commits@.len() as int) =~= s.commits@);
    }
    r.append(rows.as_str());
    r.append("</table>");
    r
}

/// Joins the tables of every repository that has commits, in input
/// order.
pub fn render_tables(sections: &Vec<RepoSection>) -> (r: String)
    ensures
        r@ == spec_tables(sections@),
{
    let mut r = String::new();
    let mut i: usize = 0;
    proof {
        assert(sections@.take(0) =~= Seq::<RepoSection>::empty());
    }
    while i < sections.len()
        invariant
            0 <= i <= sections@.len(),
            r@ == spec_tables(sections@.take(i as int)),
        decreases sections@.len() - i,
    {
        if sections[i].commits.len() > 0 {
            let part = render_section(&sections[i]);
            r.append(part.as_str());
        }
        proof {
            assert(sections@.take(i + 1) =~= sections@.take(i as int).push(
                sections@[i as int],
            ));
            lemma_tables_push(sections@.take(i as int), sections@[i as int]);
        }
        i = i + 1;
    }
    proof {
        assert(sections@.take(sections@.len() as int) =~= sections@);
    }
    r
}

/// Builds the full HTML report: the joined tables substituted into the
/// template's placeholder when a template is given, or wrapped in the
/// default document otherwise.  A template is expected to hold the
/// `{{tables}}` placeholder exactly once; only the first occurrence is
/// substituted, and any further occurrence is left as it stands.
pub fn build_html_report_with_template(
    sections: &Vec<RepoSection>,
    template: Option<&String>,
) -> (r: String)
    ensures
        r@ == spec_report(sections@, match template {
            Some(t) => Some(t@),
            None => None,
        }),
{
    let tables = render_tables(sections);
    match template {
        Some(t) => {
            let placeholder = "{{tables}}";
            match find_sub(t.as_str(), placeholder) {
                Some(f) => {
                    let n = t.as_str().unicode_len();
                    let plen = placeholder.unicode_len();
                    let mut r = String::from_str(t.as_str().substring_char(0, f));
                    r.append(tables.as_str());
                    r.append(t.as_str().substring_char(f + plen, n));
                    proof {
                        assert(t@.skip(f + placeholder@.len()) =~= t@.subrange(
                            f + placeholder@.len(),
                            t@.len() as int,
                        ));
                        assert(t@.take(f as int) =~= t@.subrange(0, f as int));
                    }
                    r
                },
                None => t.clone(),
            }
        },
        None => {
            let mut r = String::from_str("<html><body><h1>Git Commit Report</h1>");
            r.append(tables.as_str());
            r.append("</body></html>");
            r
        },
    }
}

} // verus!
