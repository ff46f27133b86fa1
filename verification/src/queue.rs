//! Bounded first-in-first-out task queue.
//!
//! Capacity is fixed at 100 pending tasks. A submission against a full
//! queue is not dropped: it is handed back to the submitter, who must wait
//! for the single consumer to drain a task — backpressure, not an error.
//! Exactly one consumer drains the queue, which is what keeps at most one
//! transcoding job active at a time.

use vstd::prelude::*;

verus! {

/// Pending tasks the queue may hold at most.
pub const QUEUE_CAPACITY: usize = 100;

/// One submitted transcode request, as it travels from submission to the
/// worker.
pub struct Task {
    /// The identifier assigned at submission time.
    pub task_id: String,
    /// The source content identifier, scheme included.
    pub source_cid: String,
    /// The serialized requested format list; empty means the standing
    /// default formats apply.
    pub media_formats: String,
    /// Whether the source is an encrypted blob.
    pub is_encrypted: bool,
    /// Whether the transcoder may use GPU acceleration.
    pub is_gpu: bool,
}

/// The bounded queue of pending tasks, oldest first.
pub struct TaskQueue {
    /// Pending tasks in submission order.
    pub items: Vec<Task>,
}

impl TaskQueue {
    /// Never more than the capacity pending.
    pub open spec fn wf(self) -> bool {
        self.items@.len() <= 100
    }

    /// An empty queue.
    pub fn new() -> (r: TaskQueue)
        ensures
            r.wf(),
            r.items@.len() == 0,
    {
        TaskQueue { items: Vec::new() }
    }

    /// The number of pending tasks.
    pub fn len(&self) -> (r: usize)
        ensures
            r == self.items@.len(),
    {
        self.items.len()
    }

    /// Submits a task. Below capacity it joins the end of the queue;
    /// against a full queue it is handed back unchanged, and the submitter
    /// must wait for the consumer to drain before trying again.
    pub fn submit(&mut self, task: Task) -> (r: Option<Task>)
        requires
            old(self).wf(),
        ensures
            final(self).wf(),
            old(self).items@.len() < 100 ==> final(self).items@ == old(self).items@.push(task)
                && r is None,
            old(self).items@.len() >= 100 ==> final(self).items@ == old(self).items@ && r
                == Some(task),
    {
        if self.items.len() < QUEUE_CAPACITY {
            self.items.push(task);
            None
        } else {
            Some(task)
        }
    }

    /// Drains the oldest pending task, if any.
    pub fn drain(&mut self) -> (r: Option<Task>)
        requires
            old(self).wf(),
        ensures
            final(self).wf(),
            old(self).items@.len() > 0 ==> final(self).items@ == old(self).items@.skip(1)
                && (r matches Some(t) && t == old(self).items@[0]),
            old(self).items@.len() == 0 ==> final(self).items@ == old(self).items@ && r is None,
    {
        if self.items.len() > 0 {
            let t = self.items.remove(0);
            proof {
                assert(self.items@ =~= old(self).items@.skip(1));
            }
            Some(t)
        } else {
            None
        }
    }
}

} // verus!
