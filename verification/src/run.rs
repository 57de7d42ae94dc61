//! The per-repository decision step of a run.  Mirror preparation and
//! history reading happen outside the library; their outcome for one
//! repository is handed in here, and this step decides — and
//! guarantees — what may change: only a repository that yielded at
//! least one new commit is added to the report aggregate and has its
//! watermark staged, and the staged value is exactly the newest
//! observed commit's identifier.  Failures and empty walks change
//! nothing.

use vstd::prelude::*;

use crate::commits::CommitRecord;
use crate::report::RepoSection;
use crate::state::WatermarkMap;
use crate::state::spec_get;
use crate::state::wf_entries;

verus! {

/// What happened to one repository during a run.
pub enum RepoOutcome {
    /// The mirror could not be cloned or prepared; the repository is
    /// skipped for this run.
    MirrorFailed,
    /// The mirror's history could not be read; treated as zero new
    /// commits.
    HistoryUnreadable,
    /// The walk succeeded and produced these new commits, newest
    /// first (possibly none).
    NewCommits(Vec<CommitRecord>),
}

/// The in-memory state of one run: the watermark map as loaded (and
/// staged during the run) and the report aggregate built so far.
pub struct RunState {
    /// Watermarks, staged in memory until the run persists them.
    pub watermarks: WatermarkMap,
    /// Per-repository commit lists for the report, in input order.
    pub sections: Vec<RepoSection>,
}

impl RunState {
    /// A run that starts from the given loaded watermark map and an
    /// empty aggregate.
    pub fn begin(watermarks: WatermarkMap) -> (r: RunState)
        ensures
            r.watermarks@ == watermarks@,
            r.sections@.len() == 0,
    {
        RunState { watermarks, sections: Vec::new() }
    }

    /// Folds one repository's outcome into the run: only a successful
    /// walk with at least one commit stages a watermark (to the newest
    /// commit observed) and appends a report section; every other
    /// outcome leaves both the watermark map and the aggregate exactly
    /// as they were.
    pub fn step(&mut self, url: &str, outcome: RepoOutcome)
        requires
            wf_entries(old(self).watermarks@),
        ensures
            wf_entries(final(self).watermarks@),
            match outcome {
                RepoOutcome::NewCommits(c) => if c@.len() > 0 {
                    &&& spec_get(final(self).watermarks@, url@) == Some(c@[0].id@)
                    &&& (forall|u: Seq<char>|
                        u != url@ ==> spec_get(final(self).watermarks@, u) == spec_get(
                            old(self).watermarks@,
                            u,
                        ))
                    &&& final(self).sections@.len() == old(self).sections@.len() + 1
                    &&& final(self).sections@.last().url@ == url@
                    &&& final(self).sections@.last().commits@ == c@
                    &&& (forall|i: int|
                        0 <= i < old(self).sections@.len() ==> final(self).sections@[i] == old(
                            self,
                        ).sections@[i])
                } else {
                    final(self).watermarks@ == old(self).watermarks@
                        && final(self).sections@ == old(self).sections@
                },
                _ => final(self).watermarks@ == old(self).watermarks@ && final(self).sections@
                    == old(self).sections@,
            },
    {
        match outcome {
            RepoOutcome::NewCommits(commits) => {
                if commits.len() > 0 {
                    self.watermarks.set(url, commits[0].id.as_str());
                    let section = RepoSection { url: String::from_str(url), commits };
                    self.sections.push(section);
                } else {
                }
            },
            _ => {},
        }
    }

    /// Whether this run has anything to report (and hence to persist):
    /// at least one repository yielded new commits.
    pub fn has_news(&self) -> (r: bool)
        ensures
            r == (self.sections@.len() > 0),
    {
        self.sections.len() > 0
    }
}

} // verus!
