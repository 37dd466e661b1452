//! Resuming an interrupted maintenance task: on restart the caller
//! reads the status file and hands its content here; the recorded task
//! is re-run from scratch, which is safe because every task is
//! idempotent (a rebuild recomputes everything, a rename of an
//! already-renamed tag fails harmlessly, and a merge's day-file
//! rewrite is a no-op on an already-migrated file).

use vstd::prelude::*;
use crate::cache_handling::{
    regenerate_caches, spec_rebuild, RegenCachesError, RegenErrView, YearCacheOut, YearDir,
    YearDirView, YearOutView,
};
use crate::status::{lemma_task_round_trip, task_parsed, task_string, ActiveTask, DBStatusError, TaskView};

verus! {

/// What resuming found, and what it did or asks the caller to do.
#[derive(Debug)]
pub enum ResumeOutcome {
    /// No task was pending (no marker, or a stale idle marker):
    /// the caller only removes the marker.
    NothingPending,
    /// A rebuild was pending and has been recomputed: the caller
    /// writes the caches out and removes the marker.
    RebuildRun(Result<Vec<YearCacheOut>, RegenCachesError>),
    /// A merge was pending: the caller re-runs it with these tags.
    MergePending(String, String),
    /// A rename was pending: the caller re-runs it with these tags.
    RenamePending(String, String),
}

/// The caches a resume derives, where the pending task was a rebuild.
pub open spec fn spec_resume_caches(existing: Option<Seq<char>>, data: Seq<YearDirView>) -> Option<
    Result<Seq<YearOutView>, RegenErrView>,
> {
    match existing {
        Option::None => None,
        Option::Some(c) => match task_parsed(c) {
            Option::Some(TaskView::RegenerateCaches) => Some(spec_rebuild(data)),
            _ => None,
        },
    }
}

/// Reads the recorded task out of the status file content and re-runs
/// it: a pending rebuild is recomputed over `data`; a pending merge or
/// rename is handed back for the caller to re-run (they need the tag
/// dictionary and the day files); an unreadable marker fails with
/// `UnknownTask`.
pub fn resume(existing: Option<String>, data: &Vec<YearDir>) -> (r: Result<
    ResumeOutcome,
    DBStatusError,
>)
    ensures
        existing is None ==> r == Result::<ResumeOutcome, DBStatusError>::Ok(
            ResumeOutcome::NothingPending,
        ),
        ({
            match existing {
                Option::None => true,
                Option::Some(c) => match task_parsed(c@) {
                    Option::None => (match r {
                        Result::Err(e) => e is UnknownTask,
                        _ => false,
                    }),
                    Option::Some(t) => match t {
                        TaskView::Idle => r == Result::<ResumeOutcome, DBStatusError>::Ok(
                            ResumeOutcome::NothingPending,
                        ),
                        TaskView::RegenerateCaches => (match r {
                            Result::Ok(ResumeOutcome::RebuildRun(res)) => (match res {
                                Result::Ok(v) => spec_rebuild(data.deep_view()) == Ok::<
                                    Seq<YearOutView>,
                                    RegenErrView,
                                >(v.deep_view()),
                                Result::Err(e) => spec_rebuild(data.deep_view()) == Err::<
                                    Seq<YearOutView>,
                                    RegenErrView,
                                >(e@),
                            }),
                            _ => false,
                        }),
                        TaskView::MergeTags(a, b) => (match r {
                            Result::Ok(ResumeOutcome::MergePending(a2, b2)) => a2@ == a && b2@ == b,
                            _ => false,
                        }),
                        TaskView::RenameTag(a, b) => (match r {
                            Result::Ok(ResumeOutcome::RenamePending(a2, b2)) => a2@ == a && b2@
                                == b,
                            _ => false,
                        }),
                    },
                },
            }
        }),
{
    match existing {
        Option::None => Ok(ResumeOutcome::NothingPending),
        Option::Some(c) => {
            match ActiveTask::parse(c.as_str()) {
                Result::Err(_) => Err(DBStatusError::UnknownTask),
                Result::Ok(t) => match t {
                    ActiveTask::Idle => Ok(ResumeOutcome::NothingPending),
                    ActiveTask::RegenerateCaches => Ok(
                        ResumeOutcome::RebuildRun(regenerate_caches(data)),
                    ),
                    ActiveTask::MergeTags(a, b) => Ok(ResumeOutcome::MergePending(a, b)),
                    ActiveTask::RenameTag(a, b) => Ok(ResumeOutcome::RenamePending(a, b)),
                },
            }
        },
    }
}

/// Resume idempotence: a crash that leaves the rebuild marker behind,
/// followed by a resume, derives exactly the caches of a clean,
/// uninterrupted rebuild over the same data.
pub proof fn lemma_resume_rebuild_idempotent(data: Seq<YearDirView>)
    ensures
        spec_resume_caches(Some(task_string(TaskView::RegenerateCaches)), data) == Some(
            spec_rebuild(data),
        ),
{
    lemma_task_round_trip(TaskView::RegenerateCaches);
}

} // verus!
