//! The history walker.  Raw commit data read from a local mirror
//! (newest first) is cut down to the commits that are new with respect
//! to a watermark, bounded by an optional cap, and each surviving
//! commit is enriched into a display record: author fallback, one-line
//! summary, rendered local date and the change-tracking token taken
//! from the first `Change-Id:` trailer line of the message.

use vstd::prelude::*;

use crate::text::spec_contains_at;
use crate::text::spec_find_char;
use crate::text::spec_trim;
use crate::text::find_char;
use crate::text::starts_with_at;
use crate::text::str_eq;
use crate::text::trimmed;

verus! {

/// Raw data of one commit as read from a mirror, newest first in a walk.
pub struct RawCommit {
    /// Hex revision identifier.
    pub id: String,
    /// Authored time in seconds since the Unix epoch.
    pub time_secs: i64,
    /// Author display name, if the commit carries one.
    pub author: Option<String>,
    /// One-line summary, if the message has a first line.
    pub summary: Option<String>,
    /// Full message body, if it is valid text.
    pub message: Option<String>,
}

/// One commit as it appears in the report.
pub struct CommitRecord {
    /// Hex revision identifier.
    pub id: String,
    /// Authored time rendered in the machine's local timezone.
    pub date: String,
    /// Author display name, `Unknown` if absent.
    pub author: String,
    /// One-line summary message.
    pub message: String,
    /// Change-tracking token from the message trailer, if present.
    pub change_id: Option<String>,
}

/// Earliest timestamp accepted for rendering: one day into year 0
/// (proleptic Gregorian), so the local year can never go negative.
pub const MIN_RENDER_SECS: i64 = -62167132800;

/// Latest timestamp accepted for rendering: one day before year 10000,
/// so the local year can never grow a fifth digit.
pub const MAX_RENDER_SECS: i64 = 253402214400;

/// Relies on chrono's `DateTime::from_timestamp`, `with_timezone` with
/// `chrono::Local`, and `format("%Y-%m-%d %H:%M:%S")`: renders the
/// timestamp as a local calendar date and time.  The machine's timezone
/// decides the exact digits, so only the shape is stated: the accepted
/// range keeps the local year within 0..=9999 under any timezone
/// offset, `%Y` zero-pads the year to four digits there, so every
/// outcome is exactly 19 characters (`YYYY-MM-DD HH:MM:SS`).
#[verifier::external_body]
fn format_local_time(secs: i64) -> (r: String)
    requires
        MIN_RENDER_SECS <= secs <= MAX_RENDER_SECS,
    ensures
        r@.len() == 19,
{
    let dt = chrono::DateTime::<chrono::Utc>::from_timestamp(secs, 0)
        .unwrap()
        .with_timezone(&chrono::Local);
    dt.format("%Y-%m-%d %H:%M:%S").to_string()
}

/// The author name shown for a raw commit: the recorded name, or the
/// sentinel `Unknown`.
pub open spec fn spec_author_of(raw: RawCommit) -> Seq<char> {
    match raw.author {
        Some(a) => a@,
        None => "Unknown"@,
    }
}

/// The summary line shown for a raw commit, empty if absent.
pub open spec fn spec_summary_of(raw: RawCommit) -> Seq<char> {
    match raw.summary {
        Some(s) => s@,
        None => ""@,
    }
}

/// The message body scanned for the trailer, empty if absent.
pub open spec fn spec_message_of(raw: RawCommit) -> Seq<char> {
    match raw.message {
        Some(m) => m@,
        None => ""@,
    }
}

/// The change-tracking token of a commit message: the trimmed remainder
/// of the first line that starts with `Change-Id:`, if any line does.
pub open spec fn spec_change_id(msg: Seq<char>) -> Option<Seq<char>>
    decreases msg.len(),
    via spec_change_id_decreases
{
    if msg.len() == 0 {
        None
    } else {
        let e = spec_find_char(msg, '\n', 0);
        let line = msg.take(e);
        if spec_contains_at(line, "Change-Id:"@, 0) {
            Some(spec_trim(line.skip("Change-Id:"@.len() as int)))
        } else if e >= msg.len() {
            None
        } else {
            spec_change_id(msg.skip(e + 1))
        }
    }
}

#[via_fn]
proof fn spec_change_id_decreases(msg: Seq<char>) {
    if msg.len() > 0 {
        crate::text::lemma_find_char_props(msg, '\n', 0);
    }
}

/// Extracts the change-tracking token from a commit message: scans the
/// lines in order and keeps the trimmed value of the first
/// `Change-Id:` trailer.
pub fn extract_change_id(msg: &str) -> (r: Option<String>)
    ensures
        match r {
            Some(v) => spec_change_id(msg@) == Some(v@),
            None => spec_change_id(msg@) is None,
        },
{
    let prefix = "Change-Id:";
    let n = msg.unicode_len();
    let mut start: usize = 0;
    proof {
        assert(msg@.skip(0) =~= msg@);
        reveal_strlit("Change-Id:");
        assert(prefix@ =~= "Change-Id:"@);
    }
    while start < n
        invariant
            prefix@ == "Change-Id:"@,
            0 <= start <= n,
            n == msg@.len(),
            spec_change_id(msg@) == spec_change_id(msg@.skip(start as int)),
        decreases n - start,
    {
        let e = find_char(msg, '\n', start);
        let line = msg.substring_char(start, e);
        proof {
            let tail = msg@.skip(start as int);
            let e2 = spec_find_char(tail, '\n', 0);
            crate::text::lemma_find_char_props(msg@, '\n', start as int);
            crate::text::lemma_find_char_props(tail, '\n', 0);
            assert forall|j: int| 0 <= j < tail.len() implies tail[j] == msg@[start + j] by {}
            assert(e2 == e - start) by {
                if e2 < e - start {
                    assert(tail[e2] == '\n');
                    assert(msg@[start + e2] == '\n');
                } else if e2 > e - start {
                    if (e as int) < n {
                        assert(msg@[e as int] == '\n');
                        assert(tail[e - start] == '\n');
                    }
                }
            }
            assert(line@ =~= tail.take(e2));
        }
        if starts_with_at(line, prefix, 0) {
            let plen = prefix.unicode_len();
            let llen = line.unicode_len();
            let rest = line.substring_char(plen, llen);
            let value = trimmed(rest);
            proof {
                let tail = msg@.skip(start as int);
                let e2 = spec_find_char(tail, '\n', 0);
                assert(rest@ =~= tail.take(e2).skip(prefix@.len() as int));
                assert(spec_contains_at(tail.take(e2), "Change-Id:"@, 0));
                assert(spec_change_id(tail) == Some(spec_trim(rest@)));
            }
            return Some(String::from_str(value));
        }
        proof {
            let tail = msg@.skip(start as int);
            let e2 = spec_find_char(tail, '\n', 0);
            if e < n {
                assert(tail.skip(e2 + 1) =~= msg@.skip(e + 1));
            } else {
                assert(e2 >= tail.len());
                assert(spec_change_id(tail) is None);
            }
        }
        if e >= n {
            return None;
        }
        start = e + 1;
    }
    proof {
        assert(msg@.skip(start as int).len() == 0);
    }
    None
}

/// Index of the first raw commit that equals the watermark, or the
/// length of the walk if the watermark never appears (or is absent).
pub open spec fn spec_cut(raws: Seq<RawCommit>, last: Option<Seq<char>>) -> int
    decreases raws.len(),
{
    if raws.len() == 0 {
        0
    } else if last is Some && raws[0].id@ == last->0 {
        0
    } else {
        1 + spec_cut(raws.skip(1), last)
    }
}

pub proof fn lemma_cut_props(raws: Seq<RawCommit>, last: Option<Seq<char>>)
    ensures
        0 <= spec_cut(raws, last) <= raws.len(),
        forall|i: int|
            0 <= i < spec_cut(raws, last) ==> !(last is Some && raws[i].id@ == last->0),
        spec_cut(raws, last) < raws.len() ==> last is Some && raws[spec_cut(raws, last)].id@
            == last->0,
    decreases raws.len(),
{
    if raws.len() > 0 && !(last is Some && raws[0].id@ == last->0) {
        lemma_cut_props(raws.skip(1), last);
        assert forall|i: int| 0 <= i < spec_cut(raws, last) implies !(last is Some
            && raws[i].id@ == last->0) by {
            if i > 0 {
                assert(raws.skip(1)[i - 1] == raws[i]);
            }
        }
    }
}

/// Number of commits the walker emits: the watermark cut, additionally
/// bounded by the cap when one is set.
pub open spec fn spec_take_count(
    raws: Seq<RawCommit>,
    last: Option<Seq<char>>,
    max: Option<usize>,
) -> int {
    let c = spec_cut(raws, last);
    match max {
        Some(m) => if m < c {
            m as int
        } else {
            c
        },
        None => c,
    }
}

/// One emitted record carries exactly the display data of the raw
/// commit it came from; the rendered date is machine-local, so only its
/// shape is pinned.
pub open spec fn record_matches(rec: CommitRecord, raw: RawCommit) -> bool {
    &&& rec.id@ == raw.id@
    &&& rec.author@ == spec_author_of(raw)
    &&& rec.message@ == spec_summary_of(raw)
    &&& (match rec.change_id {
        Some(v) => spec_change_id(spec_message_of(raw)) == Some(v@),
        None => spec_change_id(spec_message_of(raw)) is None,
    })
    &&& rec.date@.len() == 19
}

/// View of an optional watermark.
pub open spec fn spec_opt_view(o: Option<String>) -> Option<Seq<char>> {
    match o {
        Some(s) => Some(s@),
        None => None,
    }
}

/// Walks raw commits (newest first) and returns the records that are
/// new: everything strictly before the first occurrence of the
/// watermark, capped at `max_commits` when set.  Timestamps must lie in
/// the renderable range (years 0..=9999): outside it the rendered date
/// would lose its fixed shape, so the caller must not ask for one.
pub fn get_new_commits_since(
    raws: &Vec<RawCommit>,
    last_seen: &Option<String>,
    max_commits: Option<usize>,
) -> (r: Vec<CommitRecord>)
    requires
        forall|i: int|
            0 <= i < raws@.len() ==> MIN_RENDER_SECS <= #[trigger] raws@[i].time_secs
                <= MAX_RENDER_SECS,
    ensures
        r@.len() == spec_take_count(raws@, spec_opt_view(*last_seen), max_commits),
        forall|i: int| 0 <= i < r@.len() ==> record_matches(#[trigger] r@[i], raws@[i]),
{
    let ghost glast = spec_opt_view(*last_seen);
    let mut out: Vec<CommitRecord> = Vec::new();
    let mut i: usize = 0;
    proof {
        lemma_cut_props(raws@, glast);
    }
    while i < raws.len()
        invariant
            0 <= i <= raws@.len(),
            out@.len() == i,
            glast == spec_opt_view(*last_seen),
            i <= spec_cut(raws@, glast),
            match max_commits {
                Some(m) => i <= m,
                None => true,
            },
            forall|j: int| 0 <= j < i ==> record_matches(#[trigger] out@[j], raws@[j]),
            forall|j: int|
                0 <= j < raws@.len() ==> MIN_RENDER_SECS <= #[trigger] raws@[j].time_secs
                    <= MAX_RENDER_SECS,
        decreases raws@.len() - i,
    {
        if let Some(m) = max_commits {
            if i >= m {
                proof {
                    lemma_cut_props(raws@, glast);
                }
                return out;
            }
        }
        let raw = &raws[i];
        if let Some(l) = last_seen {
            if str_eq(raw.id.as_str(), l.as_str()) {
                proof {
                    lemma_cut_props(raws@, glast);
                    assert(spec_cut(raws@, glast) == i);
                }
                return out;
            }
        }
        let date = format_local_time(raw.time_secs);
        let author = match &raw.author {
            Some(a) => a.clone(),
            None => String::from_str("Unknown"),
        };
        let message = match &raw.summary {
            Some(s) => s.clone(),
            None => String::from_str(""),
        };
        let change_id = match &raw.message {
            Some(m) => extract_change_id(m.as_str()),
            None => extract_change_id(""),
        };
        let rec = CommitRecord { id: raw.id.clone(), date, author, message, change_id };
        proof {
            assert(record_matches(rec, raws@[i as int]));
            lemma_cut_props(raws@, glast);
        }
        out.push(rec);
        i = i + 1;
    }
    proof {
        lemma_cut_props(raws@, glast);
        assert(spec_cut(raws@, glast) == raws@.len());
    }
    out
}

/// The walker never emits the watermark commit itself, and everything
/// it emits stands strictly before the watermark's first position in
/// the walk — so neither the watermark nor any of its ancestors (which
/// follow it in a newest-first walk) is ever included.
pub proof fn lemma_walker_excludes_watermark(
    raws: Seq<RawCommit>,
    x: Seq<char>,
    max: Option<usize>,
)
    ensures
        forall|i: int|
            0 <= i < spec_take_count(raws, Some(x), max) ==> #[trigger] raws[i].id@ != x,
        forall|j: int|
            0 <= j < raws.len() && #[trigger] raws[j].id@ == x ==> spec_take_count(
                raws,
                Some(x),
                max,
            ) <= j,
{
    lemma_cut_props(raws, Some(x));
}

/// Without a watermark the walker emits the newest commits up to the
/// cap, or the whole history when uncapped.
pub proof fn lemma_walker_without_watermark(raws: Seq<RawCommit>, max: Option<usize>)
    ensures
        spec_cut(raws, None) == raws.len(),
        match max {
            Some(m) => spec_take_count(raws, None, Some(m)) == if (m as int) < raws.len() {
                m as int
            } else {
                raws.len() as int
            },
            None => spec_take_count(raws, None, None) == raws.len(),
        },
    decreases raws.len(),
{
    if raws.len() > 0 {
        lemma_walker_without_watermark(raws.skip(1), max);
    }
}

} // verus!
