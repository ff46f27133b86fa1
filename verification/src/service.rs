//! The transcode service: submission and queries.
//!
//! A submission assigns the task a fresh identifier before it is enqueued,
//! so the caller can poll for progress immediately even though processing
//! has not started. A query reads the result store and the progress
//! tracker independently of the queue: while no result entry exists the
//! metadata is a fixed in-progress sentinel — an abandoned task is
//! indistinguishable from one still in progress, an accepted limitation.

use vstd::prelude::*;
use vstd::string::StringExecFns;

use crate::progress::ProgressTracker;
use crate::queue::{Task, TaskQueue};
use crate::results::ResultStore;

verus! {

/// The in-memory state of the service: the bounded queue the worker
/// drains, and the progress and result maps it writes and queries read.
pub struct ServiceState {
    /// Pending tasks.
    pub queue: TaskQueue,
    /// Per-task per-format progress.
    pub progress: ProgressTracker,
    /// Finished-task metadata.
    pub results: ResultStore,
}

/// The response to a submission.
pub struct TranscodeResponse {
    /// HTTP-style status code; 200 when the task was queued.
    pub status_code: i32,
    /// Human-readable acknowledgement.
    pub message: String,
    /// The identifier assigned to the task.
    pub task_id: String,
}

/// The response to a task query.
pub struct GetTranscodedResponse {
    /// HTTP-style status code; always 200.
    pub status_code: i32,
    /// The serialized result list, or the in-progress sentinel.
    pub metadata: String,
    /// Overall progress in `[0, 100]`.
    pub progress: i32,
}

/// What a submission came to.
pub enum SubmitOutcome {
    /// The task was enqueued under the identifier in the response.
    Queued {
        /// The acknowledgement handed back to the submitter.
        response: TranscodeResponse,
    },
    /// The queue is at capacity: the task is handed back and the submitter
    /// must wait for the worker to drain one before trying again.
    QueueFull {
        /// The task that found no room, identifier already assigned.
        task: Task,
    },
}

/// Relies on uuid's `Uuid::new_v4` and its `Display` implementation: a
/// fresh random version-4 UUID rendered in the hyphenated lower-case form,
/// which is always 36 characters. Nothing else is promised of a random
/// identifier.
#[verifier::external_body]
fn fresh_task_id() -> (r: String)
    ensures
        r@.len() == 36,
{
    uuid::Uuid::new_v4().to_string()
}

impl ServiceState {
    /// A fresh service: nothing queued, no progress, no results.
    pub fn new() -> (r: ServiceState)
        ensures
            r.wf(),
            r.queue.items@.len() == 0,
            forall|id: Seq<char>| r.progress.percents_of(id) is None,
            forall|id: Seq<char>| r.results.metadata_of(id) is None,
    {
        ServiceState {
            queue: TaskQueue::new(),
            progress: ProgressTracker::new(),
            results: ResultStore::new(),
        }
    }

    /// The queue, tracker and store invariants together.
    pub open spec fn wf(self) -> bool {
        &&& self.queue.wf()
        &&& self.progress.wf()
        &&& self.results.wf()
    }

    /// Submits a transcode task. A fresh 36-character identifier is
    /// assigned first, so the caller can poll at once. Below capacity the
    /// task is enqueued and acknowledged with status 200; against a full
    /// queue it is handed back for the submitter to retry after the worker
    /// drains — backpressure, never a drop. Progress and results are
    /// untouched either way.
    pub fn submit(
        &mut self,
        source_cid: String,
        media_formats: String,
        is_encrypted: bool,
        is_gpu: bool,
    ) -> (r: SubmitOutcome)
        requires
            old(self).wf(),
        ensures
            final(self).wf(),
            final(self).progress == old(self).progress,
            final(self).results == old(self).results,
            match r {
                SubmitOutcome::Queued { response } => {
                    &&& old(self).queue.items@.len() < 100
                    &&& response.status_code == 200
                    &&& response.message@ == "Transcoding task queued"@
                    &&& response.task_id@.len() == 36
                    &&& final(self).queue.items@.len() == old(self).queue.items@.len() + 1
                    &&& final(self).queue.items@.drop_last() == old(self).queue.items@
                    &&& submitted_task_matches(
                        final(self).queue.items@.last(),
                        response.task_id@,
                        source_cid@,
                        media_formats@,
                        is_encrypted,
                        is_gpu,
                    )
                },
                SubmitOutcome::QueueFull { task } => {
                    &&& old(self).queue.items@.len() >= 100
                    &&& final(self).queue.items@ == old(self).queue.items@
                    &&& task.task_id@.len() == 36
                    &&& submitted_task_matches(
                        task,
                        task.task_id@,
                        source_cid@,
                        media_formats@,
                        is_encrypted,
                        is_gpu,
                    )
                },
            },
    {
        let task_id = fresh_task_id();
        let task = Task {
            task_id: String::from_str(task_id.as_str()),
            source_cid,
            media_formats,
            is_encrypted,
            is_gpu,
        };
        let full = self.queue.submit(task);
        match full {
            None => {
                proof {
                    assert(self.queue.items@.drop_last() =~= old(self).queue.items@);
                }
                SubmitOutcome::Queued {
                    response: TranscodeResponse {
                        status_code: 200,
                        message: String::from_str("Transcoding task queued"),
                        task_id,
                    },
                }
            },
            Some(task) => SubmitOutcome::QueueFull { task },
        }
    }

    /// Answers a task query: status 200, the stored serialized result list
    /// or the in-progress sentinel while none exists, and the task's
    /// overall progress.
    pub fn get_transcoded(&self, task_id: &str) -> (r: GetTranscodedResponse)
        requires
            self.wf(),
        ensures
            r.status_code == 200,
            match self.results.metadata_of(task_id@) {
                Some(m) => r.metadata@ == m,
                None => r.metadata@ == "Transcoding in progress"@,
            },
            r.progress == self.progress.spec_overall(task_id@),
            0 <= r.progress <= 100,
    {
        let metadata = self.results.metadata_or_in_progress(task_id);
        let progress = self.progress.calculate_overall_progress(task_id);
        GetTranscodedResponse { status_code: 200, metadata, progress: progress as i32 }
    }
}

/// Whether a queued task carries exactly what was submitted: the assigned
/// identifier, the source identifier untouched — the acquirer, not the
/// submission surface, splits it — the format list and the two flags.
pub open spec fn submitted_task_matches(
    task: Task,
    task_id: Seq<char>,
    source_cid: Seq<char>,
    media_formats: Seq<char>,
    is_encrypted: bool,
    is_gpu: bool,
) -> bool {
    &&& task.task_id@ == task_id
    &&& task.source_cid@ == source_cid
    &&& task.media_formats@ == media_formats
    &&& task.is_encrypted == is_encrypted
    &&& task.is_gpu == is_gpu
}

} // verus!
