//! Age-based cleanup decisions for discovered artifact directories.
//!
//! For each artifact directory the cleaner computes an age from its
//! last-modified time, truncated to whole days, and decides: delete when the
//! age reaches the threshold, keep otherwise. In dry-run mode a deletion is
//! reported but not performed. An entry whose modification time could not be
//! read is skipped; the rest of the batch proceeds. The cleaner plans; the
//! caller, which owns the filesystem, carries the plan out.

use vstd::prelude::*;

verus! {

pub const SECONDS_PER_DAY: u64 = 86400;

/// The age-based decision for one artifact directory.
#[derive(Clone, Copy, Debug, PartialEq, Eq, Structural)]
pub enum CleanupDecision {
    /// The age reached the threshold: the directory is to be removed.
    Delete,
    /// The age is within the threshold: the directory stays.
    Keep,
}

/// What one cleanup run does (or would do) with one artifact directory.
#[derive(Clone, Copy, Debug, PartialEq, Eq, Structural)]
pub enum CleanupAction {
    /// The modification time could not be read; the entry is skipped.
    Skip,
    /// The directory is kept.
    Keep,
    /// The directory would be deleted, but this is a dry run.
    WouldDelete,
    /// The directory is deleted.
    Delete,
}

/// One artifact directory handed to the cleaner: its path and its
/// last-modified time in seconds, `None` when the metadata could not be
/// read.
#[derive(Debug)]
pub struct ArtifactEntry {
    pub path: Vec<String>,
    pub modified_secs: Option<u64>,
}

/// One entry of a cleanup plan: a path and the action taken for it.
#[derive(Debug)]
pub struct PlannedCleanup {
    pub path: Vec<String>,
    pub action: CleanupAction,
}

/// The age, in whole days, of a directory last modified at `modified`
/// seconds when the current time is `now` seconds. A modification time in
/// the future counts as age zero.
pub open spec fn spec_age_days(modified: u64, now: u64) -> u64 {
    if now >= modified {
        (((now - modified) / (SECONDS_PER_DAY as int)) as u64)
    } else {
        0
    }
}

/// The decision for a directory of the given age: delete exactly when the
/// age, in whole days, is at least `max_age_days`.
pub open spec fn spec_decision(age_days: u64, max_age_days: u32) -> CleanupDecision {
    if age_days >= max_age_days as u64 {
        CleanupDecision::Delete
    } else {
        CleanupDecision::Keep
    }
}

/// The action one run takes for one entry: skip an unreadable entry, keep a
/// young directory, and delete an old one — only on paper when `dry_run` is
/// set.
pub open spec fn spec_action(
    modified: Option<u64>,
    now: u64,
    max_age_days: u32,
    dry_run: bool,
) -> CleanupAction {
    match modified {
        None => CleanupAction::Skip,
        Some(m) => if spec_decision(spec_age_days(m, now), max_age_days) is Keep {
            CleanupAction::Keep
        } else if dry_run {
            CleanupAction::WouldDelete
        } else {
            CleanupAction::Delete
        },
    }
}

/// The age of a directory in whole days, given its last-modified time and
/// the current time, both in seconds. A modification time in the future
/// counts as age zero.
pub fn age_in_days(modified_secs: u64, now_secs: u64) -> (age: u64)
    ensures
        age == spec_age_days(modified_secs, now_secs),
{
    if now_secs >= modified_secs {
        (now_secs - modified_secs) / SECONDS_PER_DAY
    } else {
        0
    }
}

/// Decides what to do with a directory of the given age: `Delete` exactly
/// when the age is at least `max_age_days`.
pub fn decide_cleanup(age_days: u64, max_age_days: u32) -> (d: CleanupDecision)
    ensures
        d == spec_decision(age_days, max_age_days),
{
    if age_days >= max_age_days as u64 {
        CleanupDecision::Delete
    } else {
        CleanupDecision::Keep
    }
}

/// Plans one cleanup run over a batch of artifact directories: every entry
/// gets exactly one action, in order — skipped when its modification time is
/// unreadable, kept when younger than the threshold, deleted (or, on a dry
/// run, only reported for deletion) otherwise.
pub fn plan_cleanup(
    entries: &Vec<ArtifactEntry>,
    now_secs: u64,
    max_age_days: u32,
    dry_run: bool,
) -> (r: Vec<PlannedCleanup>)
    ensures
        r@.len() == entries@.len(),
        forall|i: int|
            0 <= i < r@.len() ==> (#[trigger] r@[i]).path.deep_view()
                == entries@[i].path.deep_view() && r@[i].action == spec_action(
                entries@[i].modified_secs,
                now_secs,
                max_age_days,
                dry_run,
            ),
{
    let mut out: Vec<PlannedCleanup> = Vec::new();
    let mut i: usize = 0;
    while i < entries.len()
        invariant
            i <= entries@.len(),
            out@.len() == i,
            forall|k: int|
                0 <= k < i ==> (#[trigger] out@[k]).path.deep_view()
                    == entries@[k].path.deep_view() && out@[k].action == spec_action(
                    entries@[k].modified_secs,
                    now_secs,
                    max_age_days,
                    dry_run,
                ),
        decreases entries@.len() - i,
    {
        let entry = &entries[i];
        let action = match entry.modified_secs {
            None => CleanupAction::Skip,
            Some(m) => {
                let age = age_in_days(m, now_secs);
                match decide_cleanup(age, max_age_days) {
                    CleanupDecision::Keep => CleanupAction::Keep,
                    CleanupDecision::Delete => if dry_run {
                        CleanupAction::WouldDelete
                    } else {
                        CleanupAction::Delete
                    },
                }
            },
        };
        out.push(PlannedCleanup { path: entry.path.clone(), action });
        i += 1;
    }
    out
}

/// Whether a planned action mutates the filesystem: only a real deletion
/// does — a dry run performs no mutation at all.
pub fn action_mutates(action: &CleanupAction) -> (b: bool)
    ensures
        b == (*action is Delete),
{
    match action {
        CleanupAction::Delete => true,
        _ => false,
    }
}

/// The report word for an action, as printed for each directory of a run.
pub fn action_label(action: &CleanupAction) -> (s: String)
    ensures
        *action is Skip ==> s@ == "skipped"@,
        *action is Keep ==> s@ == "kept"@,
        *action is WouldDelete ==> s@ == "would delete"@,
        *action is Delete ==> s@ == "deleted"@,
{
    match action {
        CleanupAction::Skip => "skipped".to_owned(),
        CleanupAction::Keep => "kept".to_owned(),
        CleanupAction::WouldDelete => "would delete".to_owned(),
        CleanupAction::Delete => "deleted".to_owned(),
    }
}

} // verus!
