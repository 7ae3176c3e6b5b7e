//! All seven checks over what a repository holds.

use vstd::prelude::*;
use crate::append_only::{GitHistory, append_only_report, history_cuts_ok, check_append_only};
use crate::causation::{causation_report, check_causation};
use crate::envelope::{check_envelope, envelope_report};
use crate::event::{decode_all, lemma_decode_all_len, parse_events};
use crate::pairing::{check_pairing, pairing_report};
use crate::replay_check::{SnapshotsDir, check_replay, replay_report};
use crate::report::CheckReport;
use crate::restore::{check_restore, restore_report};
use crate::text::{log_lines, non_blank, strs, text_lines};
use crate::vocabulary::{PackFile, check_vocabulary, file_views, loaded_packs, vocabulary_report};

verus! {

/// What an agent repository holds, as the checks read it.
#[derive(Debug)]
pub struct RepoSnapshot {
    /// The text of `state/events.jsonl`, or the message of why it could not
    /// be read.
    pub log: Result<String, String>,
    /// What `snapshots/` holds.
    pub snapshots: SnapshotsDir,
    /// The entries of `.agent/packs/`.
    pub pack_files: Vec<PackFile>,
    /// The git history of the append-only paths.
    pub git: GitHistory,
    /// `AGENT.md` is a file.
    pub has_manifest: bool,
    /// `identity/` is a directory or `IDENTITY.md` a file.
    pub has_identity: bool,
}

/// The log lines that the checks read: the non-blank lines of the log.
pub open spec fn repo_lines(raw: Seq<char>) -> Seq<Seq<char>> {
    non_blank(text_lines(raw))
}

/// Runs the seven checks in order. The log must be readable and every line
/// must decode as an event; otherwise the reason is returned and no check
/// runs.
pub fn run_all(repo: &RepoSnapshot, fixture_facts: bool) -> (r: Result<Vec<CheckReport>, String>)
    requires
        repo.log matches Ok(raw) && decode_all(repo_lines(raw@)) is Ok ==> (repo.git.has_head ==> history_cuts_ok(
            repo.git,
        )),
    ensures
        match repo.log {
            Err(e) => r == Err::<Vec<CheckReport>, String>(e),
            Ok(raw) => match decode_all(repo_lines(raw@)) {
                Err(m) => r matches Err(e) && e@ == m,
                Ok(evs) => r matches Ok(reports) && reports@.len() == 7 && reports@[0]@ == envelope_report(
                    repo_lines(raw@),
                ) && reports@[1]@ == replay_report(evs, repo_lines(raw@), repo.snapshots)
                    && reports@[2]@ == vocabulary_report(loaded_packs(file_views(repo.pack_files@)), evs)
                    && reports@[3]@ == append_only_report(repo.git) && reports@[4]@ == causation_report(evs)
                    && reports@[5]@ == restore_report(repo.has_manifest, repo.has_identity, evs, fixture_facts)
                    && reports@[6]@ == pairing_report(evs),
            },
        },
{
    let raw = match &repo.log {
        Err(e) => {
            return Err(e.clone());
        },
        Ok(raw) => raw,
    };
    let lines = log_lines(raw.as_str());
    let events = match parse_events(lines.as_slice()) {
        Err(m) => {
            return Err(m);
        },
        Ok(evs) => evs,
    };
    proof {
        lemma_decode_all_len(strs(lines@));
    }
    let mut reports: Vec<CheckReport> = Vec::new();
    reports.push(check_envelope(lines.as_slice()));
    reports.push(check_replay(events.as_slice(), lines.as_slice(), &repo.snapshots));
    reports.push(check_vocabulary(repo.pack_files.as_slice(), events.as_slice()));
    reports.push(check_append_only(&repo.git));
    reports.push(check_causation(events.as_slice()));
    reports.push(check_restore(repo.has_manifest, repo.has_identity, events.as_slice(), fixture_facts));
    reports.push(check_pairing(events.as_slice()));
    Ok(reports)
}

} // verus!
