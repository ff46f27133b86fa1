//! Finished-task metadata store.
//!
//! Maps a task identifier to the serialized list of annotated format
//! descriptors the worker produced for it. An entry is written exactly once
//! per task, at the end of its format loop; the absence of an entry for a
//! known task identifier means "still in progress", never an error, and a
//! query then answers with a fixed in-progress sentinel.

use vstd::prelude::*;
use vstd::string::StringExecFns;

use crate::strutil::str_eq_str;

verus! {

/// The stored metadata of one finished task.
pub struct ResultEntry {
    /// The task identifier the metadata belongs to.
    pub task_id: String,
    /// The serialized annotated format list.
    pub metadata: String,
}

/// All finished-task metadata, keyed by task identifier.
pub struct ResultStore {
    /// One record per finished task; identifiers are unique.
    pub entries: Vec<ResultEntry>,
}

/// Index of the first entry for `id`, or -1 if none exists.
pub open spec fn find_entry(entries: Seq<ResultEntry>, id: Seq<char>) -> int
    decreases entries.len(),
{
    if entries.len() == 0 {
        -1
    } else if entries[0].task_id@ == id {
        0
    } else {
        let r = find_entry(entries.skip(1), id);
        if r == -1 {
            -1
        } else {
            1 + r
        }
    }
}

/// What `find_entry` finds: either -1 and no entry carries `id`, or the
/// first index whose entry carries `id`.
pub proof fn lemma_find_entry_props(entries: Seq<ResultEntry>, id: Seq<char>)
    ensures
        find_entry(entries, id) == -1 ==> forall|i: int|
            0 <= i < entries.len() ==> (#[trigger] entries[i].task_id@) != id,
        find_entry(entries, id) != -1 ==> {
            &&& 0 <= find_entry(entries, id) < entries.len()
            &&& entries[find_entry(entries, id)].task_id@ == id
            &&& forall|i: int|
                0 <= i < find_entry(entries, id) ==> (#[trigger] entries[i].task_id@) != id
        },
    decreases entries.len(),
{
    if entries.len() > 0 && entries[0].task_id@ != id {
        lemma_find_entry_props(entries.skip(1), id);
        let r = find_entry(entries.skip(1), id);
        if r == -1 {
            assert forall|i: int| 0 <= i < entries.len() implies (#[trigger] entries[i].task_id@)
                != id by {
                if i > 0 {
                    assert(entries[i] == entries.skip(1)[i - 1]);
                }
            }
        } else {
            assert(entries[1 + r] == entries.skip(1)[r]);
            assert forall|i: int| 0 <= i < 1 + r implies (#[trigger] entries[i].task_id@)
                != id by {
                if i > 0 {
                    assert(entries[i] == entries.skip(1)[i - 1]);
                }
            }
        }
    }
}

/// `find_entry` reads only the identifiers.
pub proof fn lemma_find_entry_same_ids(a: Seq<ResultEntry>, b: Seq<ResultEntry>, id: Seq<char>)
    requires
        a.len() == b.len(),
        forall|i: int| 0 <= i < a.len() ==> (#[trigger] a[i].task_id@) == b[i].task_id@,
    ensures
        find_entry(a, id) == find_entry(b, id),
    decreases a.len(),
{
    if a.len() > 0 {
        assert(a[0].task_id@ == b[0].task_id@);
        assert forall|i: int| 0 <= i < a.skip(1).len() implies (#[trigger] a.skip(1)[i].task_id@)
            == b.skip(1)[i].task_id@ by {
            assert(a.skip(1)[i] == a[i + 1]);
            assert(b.skip(1)[i] == b[i + 1]);
        }
        lemma_find_entry_same_ids(a.skip(1), b.skip(1), id);
    }
}

/// Searching after appending one entry: a hit in the prefix wins; the
/// appended entry is found only under its own identifier.
pub proof fn lemma_find_entry_push(entries: Seq<ResultEntry>, t: ResultEntry, id: Seq<char>)
    ensures
        find_entry(entries, id) != -1 ==> find_entry(entries.push(t), id) == find_entry(
            entries,
            id,
        ),
        find_entry(entries, id) == -1 && t.task_id@ == id ==> find_entry(entries.push(t), id)
            == entries.len(),
        find_entry(entries, id) == -1 && t.task_id@ != id ==> find_entry(entries.push(t), id)
            == -1,
    decreases entries.len(),
{
    if entries.len() == 0 {
        assert(entries.push(t)[0] == t);
        if t.task_id@ != id {
            assert(entries.push(t).skip(1) =~= Seq::<ResultEntry>::empty());
            assert(find_entry(Seq::<ResultEntry>::empty(), id) == -1);
        } else {
            assert(find_entry(entries.push(t), id) == 0);
        }
    } else {
        assert(entries.push(t)[0] == entries[0]);
        assert(entries.push(t).skip(1) =~= entries.skip(1).push(t));
        lemma_find_entry_push(entries.skip(1), t, id);
        if entries[0].task_id@ != id {
            lemma_find_entry_props(entries.skip(1), id);
            lemma_find_entry_props(entries.skip(1).push(t), id);
            let r0 = find_entry(entries.skip(1), id);
            let r1 = find_entry(entries.skip(1).push(t), id);
            assert(find_entry(entries, id) == if r0 == -1 {
                -1int
            } else {
                1 + r0
            });
            assert(find_entry(entries.push(t), id) == if r1 == -1 {
                -1int
            } else {
                1 + r1
            });
        }
    }
}

impl ResultStore {
    /// Identifiers are unique.
    pub open spec fn wf(self) -> bool {
        forall|i: int, j: int|
            0 <= i < j < self.entries@.len() ==> (#[trigger] self.entries@[i].task_id@) != (
            #[trigger] self.entries@[j].task_id@)
    }

    /// The stored metadata of task `id`, if any was published.
    pub open spec fn metadata_of(self, id: Seq<char>) -> Option<Seq<char>> {
        let i = find_entry(self.entries@, id);
        if i == -1 {
            None
        } else {
            Some(self.entries@[i].metadata@)
        }
    }

    /// An empty store: no task has finished.
    pub fn new() -> (r: ResultStore)
        ensures
            r.wf(),
            forall|id: Seq<char>| r.metadata_of(id) is None,
    {
        ResultStore { entries: Vec::new() }
    }

    /// Index of the entry for `task_id`, if the task has finished.
    fn find(&self, task_id: &str) -> (r: Option<usize>)
        ensures
            match r {
                Some(i) => find_entry(self.entries@, task_id@) == i as int,
                None => find_entry(self.entries@, task_id@) == -1,
            },
    {
        let mut i: usize = 0;
        while i < self.entries.len()
            invariant
                i <= self.entries@.len(),
                forall|j: int| 0 <= j < i ==> (#[trigger] self.entries@[j].task_id@) != task_id@,
            decreases self.entries@.len() - i,
        {
            if str_eq_str(self.entries[i].task_id.as_str(), task_id) {
                proof {
                    lemma_find_entry_props(self.entries@, task_id@);
                    if find_entry(self.entries@, task_id@) == -1 {
                        assert(self.entries@[i as int].task_id@ != task_id@);
                    }
                    assert(find_entry(self.entries@, task_id@) == i as int);
                }
                return Some(i);
            }
            i = i + 1;
        }
        proof {
            lemma_find_entry_props(self.entries@, task_id@);
            if find_entry(self.entries@, task_id@) != -1 {
                assert(self.entries@[find_entry(self.entries@, task_id@)].task_id@ == task_id@);
            }
        }
        None
    }

    /// Publishes `metadata` as the result of `task_id`, replacing any
    /// previous entry; every other task keeps its metadata.
    pub fn insert(&mut self, task_id: &str, metadata: String)
        requires
            old(self).wf(),
        ensures
            final(self).wf(),
            final(self).metadata_of(task_id@) == Some(metadata@),
            forall|id: Seq<char>|
                id != task_id@ ==> #[trigger] final(self).metadata_of(id) == old(
                    self,
                ).metadata_of(id),
    {
        let found = self.find(task_id);
        let entry = ResultEntry { task_id: String::from_str(task_id), metadata };
        let ghost pre = self.entries@;
        match found {
            Some(i) => {
                proof {
                    lemma_find_entry_props(pre, task_id@);
                }
                let _ = self.entries.remove(i);
                self.entries.insert(i, entry);
                proof {
                    let post = self.entries@;
                    assert(post =~= pre.update(i as int, entry));
                    assert forall|j: int| 0 <= j < pre.len() implies (#[trigger] post[j].task_id@)
                        == pre[j].task_id@ by {}
                    lemma_find_entry_same_ids(post, pre, task_id@);
                    assert(self.metadata_of(task_id@) == Some(entry.metadata@));
                    assert forall|id2: Seq<char>| id2 != task_id@ implies #[trigger] self
                        .metadata_of(id2) == old(self).metadata_of(id2) by {
                        lemma_find_entry_same_ids(post, pre, id2);
                        lemma_find_entry_props(pre, id2);
                        let k = find_entry(pre, id2);
                        if k != -1 {
                            assert(pre[k].task_id@ == id2);
                            assert(k != i as int);
                            assert(post[k] == pre[k]);
                        }
                    }
                    assert forall|a: int, b: int| 0 <= a < b < post.len() implies (
                    #[trigger] post[a].task_id@) != (#[trigger] post[b].task_id@) by {
                        assert(post[a].task_id@ == pre[a].task_id@);
                        assert(post[b].task_id@ == pre[b].task_id@);
                    }
                }
            },
            None => {
                proof {
                    lemma_find_entry_props(pre, task_id@);
                }
                self.entries.push(entry);
                proof {
                    let post = self.entries@;
                    assert(post =~= pre.push(entry));
                    lemma_find_entry_push(pre, entry, task_id@);
                    assert(post[pre.len() as int] == entry);
                    assert(self.metadata_of(task_id@) == Some(entry.metadata@));
                    assert forall|id2: Seq<char>| id2 != task_id@ implies #[trigger] self
                        .metadata_of(id2) == old(self).metadata_of(id2) by {
                        lemma_find_entry_push(pre, entry, id2);
                        lemma_find_entry_props(pre, id2);
                        let k = find_entry(pre, id2);
                        if k != -1 {
                            assert(post[k] == pre[k]);
                        }
                    }
                    assert forall|a: int, b: int| 0 <= a < b < post.len() implies (
                    #[trigger] post[a].task_id@) != (#[trigger] post[b].task_id@) by {
                        if b == post.len() - 1 {
                            assert(post[a] == pre[a]);
                            assert(pre[a].task_id@ != task_id@);
                        } else {
                            assert(post[a] == pre[a]);
                            assert(post[b] == pre[b]);
                        }
                    }
                }
            },
        }
    }

    /// The metadata answer for a query: the stored serialized result list,
    /// or the fixed in-progress sentinel while none has been published.
    pub fn metadata_or_in_progress(&self, task_id: &str) -> (r: String)
        ensures
            match self.metadata_of(task_id@) {
                Some(m) => r@ == m,
                None => r@ == "Transcoding in progress"@,
            },
    {
        let found = self.find(task_id);
        proof {
            lemma_find_entry_props(self.entries@, task_id@);
        }
        match found {
            Some(i) => String::from_str(self.entries[i].metadata.as_str()),
            None => String::from_str("Transcoding in progress"),
        }
    }
}

} // verus!
