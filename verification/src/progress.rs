//! Per-task, per-format progress model.
//!
//! Each task owns one percentage entry per requested output format. Every
//! entry is initialized to 0 when the task's formats are parsed and set to
//! 100 only when the whole format loop has finished — completion is a
//! task-wide gate, not a per-format signal. The overall progress reported
//! for a task is the arithmetic mean of its entries, rounded to the nearest
//! integer (half up); a task with no entries reports 0.

use vstd::prelude::*;
use vstd::string::StringExecFns;

use crate::strutil::str_eq_str;

verus! {

/// The progress entries of one task.
pub struct TaskProgress {
    /// The task identifier the entries belong to.
    pub task_id: String,
    /// One percentage in `[0, 100]` per format index.
    pub percents: Vec<u8>,
}

/// All progress entries, keyed by task identifier.
pub struct ProgressTracker {
    /// One record per known task; identifiers are unique.
    pub tasks: Vec<TaskProgress>,
}

/// Index of the first record for `id`, or -1 if none exists.
pub open spec fn find_task(tasks: Seq<TaskProgress>, id: Seq<char>) -> int
    decreases tasks.len(),
{
    if tasks.len() == 0 {
        -1
    } else if tasks[0].task_id@ == id {
        0
    } else {
        let r = find_task(tasks.skip(1), id);
        if r == -1 {
            -1
        } else {
            1 + r
        }
    }
}

/// The sum of a sequence of percentages.
pub open spec fn sum_of(s: Seq<u8>) -> int
    decreases s.len(),
{
    if s.len() == 0 {
        0
    } else {
        s[0] + sum_of(s.skip(1))
    }
}

impl ProgressTracker {
    /// Task identifiers are unique and every entry lies in `[0, 100]`.
    pub open spec fn wf(self) -> bool {
        &&& forall|i: int, j: int|
            0 <= i < j < self.tasks@.len() ==> (#[trigger] self.tasks@[i].task_id@)
                != (#[trigger] self.tasks@[j].task_id@)
        &&& forall|i: int, k: int|
            0 <= i < self.tasks@.len() && 0 <= k < self.tasks@[i].percents@.len() ==> (
            #[trigger] self.tasks@[i].percents@[k]) <= 100
    }

    /// The entries of task `id`, if the task is known.
    pub open spec fn percents_of(self, id: Seq<char>) -> Option<Seq<u8>> {
        let i = find_task(self.tasks@, id);
        if i == -1 {
            None
        } else {
            Some(self.tasks@[i].percents@)
        }
    }

    /// The overall progress of task `id`: the mean of its entries rounded
    /// to the nearest integer, 0 for an unknown or entry-less task.
    pub open spec fn spec_overall(self, id: Seq<char>) -> int {
        match self.percents_of(id) {
            Option::None => 0,
            Option::Some(p) => {
                if p.len() == 0 {
                    0
                } else {
                    (sum_of(p) + p.len() / 2) / (p.len() as int)
                }
            },
        }
    }
}

/// What `find_task` finds: either -1 and no record carries `id`, or the
/// first index whose record carries `id`.
pub proof fn lemma_find_task_props(tasks: Seq<TaskProgress>, id: Seq<char>)
    ensures
        find_task(tasks, id) == -1 ==> forall|i: int|
            0 <= i < tasks.len() ==> (#[trigger] tasks[i].task_id@) != id,
        find_task(tasks, id) != -1 ==> {
            &&& 0 <= find_task(tasks, id) < tasks.len()
            &&& tasks[find_task(tasks, id)].task_id@ == id
            &&& forall|i: int|
                0 <= i < find_task(tasks, id) ==> (#[trigger] tasks[i].task_id@) != id
        },
    decreases tasks.len(),
{
    if tasks.len() > 0 && tasks[0].task_id@ != id {
        lemma_find_task_props(tasks.skip(1), id);
        let r = find_task(tasks.skip(1), id);
        if r == -1 {
            assert forall|i: int| 0 <= i < tasks.len() implies (#[trigger] tasks[i].task_id@)
                != id by {
                if i > 0 {
                    assert(tasks[i] == tasks.skip(1)[i - 1]);
                }
            }
        } else {
            assert(tasks[1 + r] == tasks.skip(1)[r]);
            assert forall|i: int| 0 <= i < 1 + r implies (#[trigger] tasks[i].task_id@) != id by {
                if i > 0 {
                    assert(tasks[i] == tasks.skip(1)[i - 1]);
                }
            }
        }
    }
}

/// `find_task` reads only the identifiers: two record sequences whose
/// identifiers agree pointwise are searched alike.
pub proof fn lemma_find_task_same_ids(a: Seq<TaskProgress>, b: Seq<TaskProgress>, id: Seq<char>)
    requires
        a.len() == b.len(),
        forall|i: int| 0 <= i < a.len() ==> (#[trigger] a[i].task_id@) == b[i].task_id@,
    ensures
        find_task(a, id) == find_task(b, id),
    decreases a.len(),
{
    if a.len() > 0 {
        assert(a[0].task_id@ == b[0].task_id@);
        assert forall|i: int| 0 <= i < a.skip(1).len() implies (#[trigger] a.skip(1)[i].task_id@)
            == b.skip(1)[i].task_id@ by {
            assert(a.skip(1)[i] == a[i + 1]);
            assert(b.skip(1)[i] == b[i + 1]);
        }
        lemma_find_task_same_ids(a.skip(1), b.skip(1), id);
    }
}

/// Searching after appending one record: a hit in the prefix wins; the
/// appended record is found only under its own identifier.
pub proof fn lemma_find_task_push(tasks: Seq<TaskProgress>, t: TaskProgress, id: Seq<char>)
    ensures
        find_task(tasks, id) != -1 ==> find_task(tasks.push(t), id) == find_task(tasks, id),
        find_task(tasks, id) == -1 && t.task_id@ == id ==> find_task(tasks.push(t), id)
            == tasks.len(),
        find_task(tasks, id) == -1 && t.task_id@ != id ==> find_task(tasks.push(t), id) == -1,
    decreases tasks.len(),
{
    if tasks.len() == 0 {
        assert(tasks.push(t)[0] == t);
        if t.task_id@ != id {
            assert(tasks.push(t).skip(1) =~= Seq::<TaskProgress>::empty());
            assert(find_task(Seq::<TaskProgress>::empty(), id) == -1);
        } else {
            assert(find_task(tasks.push(t), id) == 0);
        }
    } else {
        assert(tasks.push(t)[0] == tasks[0]);
        assert(tasks.push(t).skip(1) =~= tasks.skip(1).push(t));
        lemma_find_task_push(tasks.skip(1), t, id);
        if tasks[0].task_id@ != id {
            lemma_find_task_props(tasks.skip(1), id);
            lemma_find_task_props(tasks.skip(1).push(t), id);
            let r0 = find_task(tasks.skip(1), id);
            let r1 = find_task(tasks.skip(1).push(t), id);
            assert(find_task(tasks, id) == if r0 == -1 {
                -1int
            } else {
                1 + r0
            });
            assert(find_task(tasks.push(t), id) == if r1 == -1 {
                -1int
            } else {
                1 + r1
            });
        }
    }
}

/// A sequence of percentages in `[0, 100]` sums to between 0 and 100 per
/// entry.
pub proof fn lemma_sum_of_bounds(s: Seq<u8>)
    requires
        forall|k: int| 0 <= k < s.len() ==> #[trigger] s[k] <= 100,
    ensures
        0 <= sum_of(s) <= 100 * s.len(),
    decreases s.len(),
{
    if s.len() > 0 {
        assert forall|k: int| 0 <= k < s.skip(1).len() implies #[trigger] s.skip(1)[k] <= 100 by {
            assert(s.skip(1)[k] == s[k + 1]);
        }
        lemma_sum_of_bounds(s.skip(1));
    }
}

impl ProgressTracker {
    /// An empty tracker: no task is known.
    pub fn new() -> (r: ProgressTracker)
        ensures
            r.wf(),
            forall|id: Seq<char>| r.percents_of(id) is None,
    {
        ProgressTracker { tasks: Vec::new() }
    }

    /// Index of the record for `task_id`, if the task is known.
    fn find(&self, task_id: &str) -> (r: Option<usize>)
        ensures
            match r {
                Some(i) => find_task(self.tasks@, task_id@) == i as int,
                None => find_task(self.tasks@, task_id@) == -1,
            },
    {
        let mut i: usize = 0;
        while i < self.tasks.len()
            invariant
                i <= self.tasks@.len(),
                forall|j: int| 0 <= j < i ==> (#[trigger] self.tasks@[j].task_id@) != task_id@,
            decreases self.tasks@.len() - i,
        {
            if str_eq_str(self.tasks[i].task_id.as_str(), task_id) {
                proof {
                    lemma_find_task_props(self.tasks@, task_id@);
                    if find_task(self.tasks@, task_id@) == -1 {
                        assert(self.tasks@[i as int].task_id@ != task_id@);
                    }
                    assert(find_task(self.tasks@, task_id@) == i as int);
                }
                return Some(i);
            }
            i = i + 1;
        }
        proof {
            lemma_find_task_props(self.tasks@, task_id@);
            if find_task(self.tasks@, task_id@) != -1 {
                assert(self.tasks@[find_task(self.tasks@, task_id@)].task_id@ == task_id@);
            }
        }
        None
    }

    /// Installs `percents` as the entries of `task_id`, replacing any
    /// previous record; every other task keeps its entries.
    fn put_percents(&mut self, task_id: &str, percents: Vec<u8>)
        requires
            old(self).wf(),
            forall|k: int| 0 <= k < percents@.len() ==> #[trigger] percents@[k] <= 100,
        ensures
            final(self).wf(),
            final(self).percents_of(task_id@) == Some(percents@),
            forall|id: Seq<char>|
                id != task_id@ ==> #[trigger] final(self).percents_of(id) == old(
                    self,
                ).percents_of(id),
    {
        let found = self.find(task_id);
        let entry = TaskProgress { task_id: String::from_str(task_id), percents };
        let ghost pre = self.tasks@;
        match found {
            Some(i) => {
                proof {
                    lemma_find_task_props(pre, task_id@);
                }
                let _ = self.tasks.remove(i);
                self.tasks.insert(i, entry);
                proof {
                    let post = self.tasks@;
                    assert(post =~= pre.update(i as int, entry));
                    assert forall|j: int| 0 <= j < pre.len() implies (#[trigger] post[j].task_id@)
                        == pre[j].task_id@ by {}
                    lemma_find_task_same_ids(post, pre, task_id@);
                    assert(self.percents_of(task_id@) == Some(percents@));
                    assert forall|id2: Seq<char>| id2 != task_id@ implies #[trigger] self
                        .percents_of(id2) == old(self).percents_of(id2) by {
                        lemma_find_task_same_ids(post, pre, id2);
                        lemma_find_task_props(pre, id2);
                        let k = find_task(pre, id2);
                        if k != -1 {
                            assert(pre[k].task_id@ == id2);
                            assert(k != i as int);
                            assert(post[k] == pre[k]);
                        }
                    }
                    assert forall|a: int, b: int| 0 <= a < b < post.len() implies (
                    #[trigger] post[a].task_id@) != (#[trigger] post[b].task_id@) by {
                        assert(post[a].task_id@ == pre[a].task_id@);
                        assert(post[b].task_id@ == pre[b].task_id@);
                    }
                    assert forall|a: int, k: int|
                        0 <= a < post.len() && 0 <= k < post[a].percents@.len() implies (
                    #[trigger] post[a].percents@[k]) <= 100 by {
                        if a != i as int {
                            assert(post[a] == pre[a]);
                            assert(pre[a].percents@[k] <= 100);
                        } else {
                            assert(post[a].percents@ == percents@);
                            assert(percents@[k] <= 100);
                        }
                    }
                }
            },
            None => {
                proof {
                    lemma_find_task_props(pre, task_id@);
                }
                self.tasks.push(entry);
                proof {
                    let post = self.tasks@;
                    assert(post =~= pre.push(entry));
                    lemma_find_task_push(pre, entry, task_id@);
                    assert(post[pre.len() as int] == entry);
                    assert(self.percents_of(task_id@) == Some(percents@));
                    assert forall|id2: Seq<char>| id2 != task_id@ implies #[trigger] self
                        .percents_of(id2) == old(self).percents_of(id2) by {
                        lemma_find_task_push(pre, entry, id2);
                        lemma_find_task_props(pre, id2);
                        let k = find_task(pre, id2);
                        if k != -1 {
                            assert(post[k] == pre[k]);
                        }
                    }
                    assert forall|a: int, b: int| 0 <= a < b < post.len() implies (
                    #[trigger] post[a].task_id@) != (#[trigger] post[b].task_id@) by {
                        if b == post.len() - 1 {
                            assert(post[a] == pre[a]);
                            assert(pre[a].task_id@ != task_id@);
                        } else {
                            assert(post[a] == pre[a]);
                            assert(post[b] == pre[b]);
                        }
                    }
                    assert forall|a: int, k: int|
                        0 <= a < post.len() && 0 <= k < post[a].percents@.len() implies (
                    #[trigger] post[a].percents@[k]) <= 100 by {
                        if a < pre.len() {
                            assert(post[a] == pre[a]);
                            assert(pre[a].percents@[k] <= 100);
                        } else {
                            assert(post[a].percents@ == percents@);
                            assert(percents@[k] <= 100);
                        }
                    }
                }
            },
        }
    }

    /// Creates the entries of a freshly parsed task: one 0 per format.
    /// The task's overall progress is 0 from this moment on, until the
    /// format loop finishes.
    pub fn init_formats(&mut self, task_id: &str, count: usize)
        requires
            old(self).wf(),
        ensures
            final(self).wf(),
            final(self).percents_of(task_id@) == Some(Seq::new(count as nat, |k: int| 0u8)),
            final(self).spec_overall(task_id@) == 0,
            forall|id: Seq<char>|
                id != task_id@ ==> #[trigger] final(self).percents_of(id) == old(
                    self,
                ).percents_of(id),
    {
        let mut percents: Vec<u8> = Vec::new();
        let mut k: usize = 0;
        while k < count
            invariant
                k <= count,
                percents@ =~= Seq::new(k as nat, |j: int| 0u8),
            decreases count - k,
        {
            percents.push(0);
            k = k + 1;
        }
        proof {
            assert(percents@ =~= Seq::new(count as nat, |j: int| 0u8));
        }
        self.put_percents(task_id, percents);
        proof {
            let p = Seq::new(count as nat, |j: int| 0u8);
            if p.len() > 0 {
                lemma_sum_of_bounds(p);
                assert forall|k2: int| 0 <= k2 < p.len() implies #[trigger] p[k2] >= 0 by {}
                lemma_sum_of_zeros(p);
                let n = p.len() as int;
                assert((0 + n / 2) / n == 0) by {
                    vstd::arithmetic::div_mod::lemma_basic_div(n / 2, n);
                }
            }
        }
    }

    /// Marks the whole task finished: one 100 per format. The task's
    /// overall progress is 100 afterwards whenever it has any format.
    pub fn mark_all_complete(&mut self, task_id: &str, count: usize)
        requires
            old(self).wf(),
        ensures
            final(self).wf(),
            final(self).percents_of(task_id@) == Some(Seq::new(count as nat, |k: int| 100u8)),
            count > 0 ==> final(self).spec_overall(task_id@) == 100,
            forall|id: Seq<char>|
                id != task_id@ ==> #[trigger] final(self).percents_of(id) == old(
                    self,
                ).percents_of(id),
    {
        let mut percents: Vec<u8> = Vec::new();
        let mut k: usize = 0;
        while k < count
            invariant
                k <= count,
                percents@ =~= Seq::new(k as nat, |j: int| 100u8),
            decreases count - k,
        {
            percents.push(100);
            k = k + 1;
        }
        proof {
            assert(percents@ =~= Seq::new(count as nat, |j: int| 100u8));
        }
        self.put_percents(task_id, percents);
        proof {
            let p = Seq::new(count as nat, |j: int| 100u8);
            if p.len() > 0 {
                lemma_sum_of_consts(p, 100);
                let n = p.len() as int;
                assert((100 * n + n / 2) / n == 100) by {
                    vstd::arithmetic::div_mod::lemma_hoist_over_denominator(n / 2, 100, p.len());
                    vstd::arithmetic::div_mod::lemma_basic_div(n / 2, n);
                }
            }
        }
    }

    /// The overall progress of `task_id`, the mean of its entries rounded
    /// to the nearest integer: 0 for an unknown or entry-less task, between
    /// 0 and 100 always.
    pub fn calculate_overall_progress(&self, task_id: &str) -> (r: u8)
        requires
            self.wf(),
        ensures
            r as int == self.spec_overall(task_id@),
            r <= 100,
    {
        let found = self.find(task_id);
        let i = match found {
            Some(i) => i,
            None => {
                return 0;
            },
        };
        proof {
            lemma_find_task_props(self.tasks@, task_id@);
        }
        let percents = &self.tasks[i].percents;
        let n = percents.len();
        if n == 0 {
            return 0;
        }
        let mut sum: u128 = 0;
        let mut k: usize = 0;
        proof {
            lemma_sum_of_bounds(percents@);
        }
        while k < n
            invariant
                k <= n,
                n == percents@.len(),
                forall|k2: int| 0 <= k2 < n ==> #[trigger] percents@[k2] <= 100,
                sum == sum_of(percents@.take(k as int)),
                sum <= 100 * k,
            decreases n - k,
        {
            proof {
                lemma_sum_of_take_push(percents@, k as int);
            }
            sum = sum + percents[k] as u128;
            k = k + 1;
        }
        proof {
            assert(percents@.take(n as int) =~= percents@);
        }
        let half: u128 = (n as u128) / 2;
        let r = (sum + half) / (n as u128);
        proof {
            let ni = n as int;
            let si = sum as int;
            assert(si + ni / 2 < ni * 101) by {
                assert(si <= 100 * ni);
                assert(ni * 101 == 100 * ni + ni) by (nonlinear_arith);
            }
            assert((si + ni / 2) / ni < 101) by {
                vstd::arithmetic::div_mod::lemma_multiply_divide_lt(si + ni / 2, ni, 101);
            }
            assert((si + ni / 2) / ni >= 0) by {
                vstd::arithmetic::div_mod::lemma_div_pos_is_pos(si + ni / 2, ni);
            }
        }
        r as u8
    }
}

/// A sequence of zeros sums to zero.
proof fn lemma_sum_of_zeros(s: Seq<u8>)
    requires
        forall|k: int| 0 <= k < s.len() ==> #[trigger] s[k] == 0,
    ensures
        sum_of(s) == 0,
    decreases s.len(),
{
    if s.len() > 0 {
        assert forall|k: int| 0 <= k < s.skip(1).len() implies #[trigger] s.skip(1)[k] == 0 by {
            assert(s.skip(1)[k] == s[k + 1]);
        }
        lemma_sum_of_zeros(s.skip(1));
    }
}

/// A constant sequence sums to the constant times its length.
proof fn lemma_sum_of_consts(s: Seq<u8>, c: u8)
    requires
        forall|k: int| 0 <= k < s.len() ==> #[trigger] s[k] == c,
    ensures
        sum_of(s) == c * s.len(),
    decreases s.len(),
{
    if s.len() > 0 {
        assert forall|k: int| 0 <= k < s.skip(1).len() implies #[trigger] s.skip(1)[k] == c by {
            assert(s.skip(1)[k] == s[k + 1]);
        }
        lemma_sum_of_consts(s.skip(1), c);
        assert(c * s.len() == c + c * (s.len() - 1)) by (nonlinear_arith);
    }
}

/// Extending a prefix sum by one element.
proof fn lemma_sum_of_take_push(s: Seq<u8>, k: int)
    requires
        0 <= k < s.len(),
    ensures
        sum_of(s.take(k + 1)) == sum_of(s.take(k)) + s[k],
    decreases k,
{
    if k == 0 {
        assert(s.take(1).skip(1) =~= Seq::<u8>::empty());
        assert(s.take(0) =~= Seq::<u8>::empty());
    } else {
        assert(s.take(k + 1).skip(1) =~= s.skip(1).take(k));
        assert(s.take(k).skip(1) =~= s.skip(1).take(k - 1));
        assert(s.skip(1)[k - 1] == s[k]);
        lemma_sum_of_take_push(s.skip(1), k - 1);
        assert(s.take(k + 1)[0] == s[0]);
        assert(s.take(k)[0] == s[0]);
    }
}

} // verus!
