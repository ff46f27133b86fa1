//! Disk-space garbage collector.
//!
//! Each sweep examines one watched directory: the files are listed with
//! creation timestamps, sorted ascending by creation time, and then evicted
//! from the **end** of that order — the most recently created file first —
//! until the total size is at or below the directory's budget or nothing is
//! left. Newest-first removal is a deliberate policy of this pipeline and
//! is preserved exactly. The planner here only decides; the caller performs
//! the removals in the order handed back.

use vstd::prelude::*;
use vstd::multiset::Multiset;
use vstd::seq_lib::group_to_multiset_ensures;

verus! {

broadcast use group_to_multiset_ensures;

/// One file of a watched directory.
pub struct FileEntry {
    /// The file's path, as the caller names it.
    pub path: String,
    /// Size in bytes.
    pub size: u64,
    /// Creation time, as a caller-chosen monotone ordinal.
    pub created: u64,
}

/// Ascending by creation time.
pub open spec fn sorted_by_created(s: Seq<FileEntry>) -> bool {
    forall|i: int, j: int| 0 <= i < j < s.len() ==> (#[trigger] s[i].created) <= (#[trigger] s[j].created)
}

/// The total size of the files of `s`.
pub open spec fn sum_sizes(s: Seq<FileEntry>) -> int
    decreases s.len(),
{
    if s.len() == 0 {
        0
    } else {
        s[0].size + sum_sizes(s.skip(1))
    }
}

/// Extending a prefix sum by one file.
proof fn lemma_sum_sizes_take_push(s: Seq<FileEntry>, k: int)
    requires
        0 <= k < s.len(),
    ensures
        sum_sizes(s.take(k + 1)) == sum_sizes(s.take(k)) + s[k].size,
    decreases k,
{
    if k == 0 {
        assert(s.take(1).skip(1) =~= Seq::<FileEntry>::empty());
        assert(s.take(0) =~= Seq::<FileEntry>::empty());
    } else {
        assert(s.take(k + 1).skip(1) =~= s.skip(1).take(k));
        assert(s.take(k).skip(1) =~= s.skip(1).take(k - 1));
        assert(s.skip(1)[k - 1] == s[k]);
        lemma_sum_sizes_take_push(s.skip(1), k - 1);
        assert(s.take(k + 1)[0] == s[0]);
        assert(s.take(k)[0] == s[0]);
    }
}

/// A total size is never negative.
proof fn lemma_sum_sizes_nonneg(s: Seq<FileEntry>)
    ensures
        sum_sizes(s) >= 0,
    decreases s.len(),
{
    if s.len() > 0 {
        lemma_sum_sizes_nonneg(s.skip(1));
    }
}

/// A prefix never outweighs the whole.
proof fn lemma_sum_sizes_take_le(s: Seq<FileEntry>, k: int)
    requires
        0 <= k <= s.len(),
    ensures
        sum_sizes(s.take(k)) <= sum_sizes(s),
    decreases s.len() - k,
{
    if k == s.len() {
        assert(s.take(k) =~= s);
    } else {
        lemma_sum_sizes_take_push(s, k);
        lemma_sum_sizes_take_le(s, k + 1);
    }
}

/// Sorts the files of a directory ascending by creation time. The result
/// holds exactly the given files.
pub fn sort_files_by_created(files: Vec<FileEntry>) -> (r: Vec<FileEntry>)
    ensures
        sorted_by_created(r@),
        r@.to_multiset() == files@.to_multiset(),
        r@.len() == files@.len(),
{
    let mut rest = files;
    let mut out: Vec<FileEntry> = Vec::new();
    let ghost all = rest@;
    while rest.len() > 0
        invariant
            sorted_by_created(out@),
            out@.to_multiset().add(rest@.to_multiset()) == all.to_multiset(),
            out@.len() + rest@.len() == all.len(),
        decreases rest@.len(),
    {
        let ghost pre_rest = rest@;
        let f = rest.remove(0);
        proof {
            assert(pre_rest.remove(0) =~= pre_rest.skip(1));
            assert(rest@ =~= pre_rest.remove(0));
        }
        let mut k: usize = 0;
        while k < out.len() && out[k].created <= f.created
            invariant
                k <= out@.len(),
                forall|j: int| 0 <= j < k ==> (#[trigger] out@[j].created) <= f.created,
            decreases out@.len() - k,
        {
            k = k + 1;
        }
        let ghost pre_out = out@;
        out.insert(k, f);
        proof {
            assert forall|i: int, j: int|
                0 <= i < j < out@.len() implies (#[trigger] out@[i].created) <= (
            #[trigger] out@[j].created) by {
                let ki = k as int;
                if i < ki && j == ki {
                    assert(out@[i] == pre_out[i]);
                } else if i == ki && j > ki {
                    assert(out@[j] == pre_out[j - 1]);
                    assert((k as int) < pre_out.len());
                    assert(pre_out[k as int].created > f.created);
                    if j - 1 > ki {
                        assert(pre_out[ki].created <= pre_out[j - 1].created);
                    }
                } else if i < ki && j > ki {
                    assert(out@[i] == pre_out[i]);
                    assert(out@[j] == pre_out[j - 1]);
                } else if i > ki && j > ki {
                    assert(out@[i] == pre_out[i - 1]);
                    assert(out@[j] == pre_out[j - 1]);
                }
            }
            assert(out@.to_multiset() =~= pre_out.to_multiset().insert(f));
            assert(out@.to_multiset().add(rest@.to_multiset()) =~= all.to_multiset());
        }
    }
    proof {
        assert(rest@.to_multiset() =~= Multiset::<FileEntry>::empty());
        assert(out@.to_multiset() =~= all.to_multiset());
    }
    out
}

/// Splits a creation-sorted directory listing into the files to keep and
/// the files to evict, newest first, so that the kept total is at or below
/// the budget. Eviction takes the shortest newest-first run that reaches
/// the budget: whenever anything is evicted, keeping the oldest evicted
/// file too would still overrun.
pub fn plan_eviction(sorted: Vec<FileEntry>, size_threshold: u64) -> (r: (
    Vec<FileEntry>,
    Vec<FileEntry>,
))
    requires
        sorted_by_created(sorted@),
        sum_sizes(sorted@) <= u64::MAX,
    ensures
        r.0@ + r.1@.reverse() == sorted@,
        sum_sizes(r.0@) <= size_threshold,
        r.1@.len() > 0 ==> sum_sizes(r.0@) + r.1@.last().size > size_threshold,
{
    let ghost all = sorted@;
    let n = sorted.len();
    let mut total: u64 = 0;
    let mut i: usize = 0;
    while i < n
        invariant
            i <= n,
            n == all.len(),
            sorted@ == all,
            sum_sizes(all) <= u64::MAX,
            total == sum_sizes(all.take(i as int)),
        decreases n - i,
    {
        proof {
            lemma_sum_sizes_take_push(all, i as int);
            lemma_sum_sizes_take_le(all, i + 1);
            lemma_sum_sizes_nonneg(all.skip(1));
        }
        total = total + sorted[i].size;
        i = i + 1;
    }
    proof {
        assert(all.take(n as int) =~= all);
    }
    let mut kept = sorted;
    let mut removed: Vec<FileEntry> = Vec::new();
    while total > size_threshold && kept.len() > 0
        invariant
            kept@.len() <= all.len(),
            kept@ == all.take(kept@.len() as int),
            removed@ =~= all.skip(kept@.len() as int).reverse(),
            total == sum_sizes(kept@),
            removed@.len() > 0 ==> sum_sizes(kept@) + removed@.last().size > size_threshold,
        decreases kept@.len(),
    {
        let m = kept.len();
        let f = match kept.pop() {
            Some(f) => f,
            None => {
                return (kept, removed);
            },
        };
        let fsize = f.size;
        removed.push(f);
        proof {
            let mi = m as int;
            assert(all.take(mi).drop_last() =~= all.take(mi - 1));
            assert(kept@ =~= all.take(mi - 1));
            assert(f == all[mi - 1]);
            assert(removed@ =~= all.skip(mi - 1).reverse());
            lemma_sum_sizes_take_push(all, mi - 1);
            lemma_sum_sizes_nonneg(all.take(mi - 1));
        }
        total = total - fsize;
    }
    proof {
        lemma_sum_sizes_nonneg(kept@);
        assert(kept@ + removed@.reverse() =~= all);
    }
    (kept, removed)
}

/// One garbage-collection sweep decision for a directory: hands back the
/// files to keep and the files to remove, in removal order. Kept and
/// removed together are exactly the given files, arranged ascending by
/// creation time with the removed run reversed off its end — the sweep
/// removes the most recently created files first, until the directory is
/// at or below its size budget.
pub fn garbage_collect(files: Vec<FileEntry>, size_threshold: u64) -> (r: (
    Vec<FileEntry>,
    Vec<FileEntry>,
))
    requires
        sum_sizes(files@) <= u64::MAX,
    ensures
        sorted_by_created(r.0@ + r.1@.reverse()),
        (r.0@ + r.1@.reverse()).to_multiset() == files@.to_multiset(),
        sum_sizes(r.0@) <= size_threshold,
        r.1@.len() > 0 ==> sum_sizes(r.0@) + r.1@.last().size > size_threshold,
{
    let sorted = sort_files_by_created(files);
    proof {
        lemma_sum_sizes_multiset(sorted@, files@);
    }
    plan_eviction(sorted, size_threshold)
}

/// Two listings of the same files have the same total size.
proof fn lemma_sum_sizes_multiset(a: Seq<FileEntry>, b: Seq<FileEntry>)
    requires
        a.to_multiset() == b.to_multiset(),
    ensures
        sum_sizes(a) == sum_sizes(b),
    decreases a.len(),
{
    if a.len() == 0 {
        assert(b.to_multiset().len() == 0);
        assert(b.len() == 0);
    } else {
        let x = a[0];
        assert(a.to_multiset().count(x) > 0);
        assert(b.to_multiset().count(x) > 0);
        assert(b.contains(x));
        let j = choose|j: int| 0 <= j < b.len() && b[j] == x;
        assert(a.skip(1) =~= a.remove(0));
        assert(a.remove(0).to_multiset() =~= a.to_multiset().remove(x));
        assert(b.remove(j).to_multiset() =~= b.to_multiset().remove(x));
        lemma_sum_sizes_multiset(a.skip(1), b.remove(j));
        lemma_sum_sizes_remove(b, j);
    }
}

/// Removing one file takes exactly its size out of the total.
proof fn lemma_sum_sizes_remove(s: Seq<FileEntry>, j: int)
    requires
        0 <= j < s.len(),
    ensures
        sum_sizes(s) == sum_sizes(s.remove(j)) + s[j].size,
    decreases j,
{
    if j == 0 {
        assert(s.remove(0) =~= s.skip(1));
    } else {
        assert(s.remove(j).skip(1) =~= s.skip(1).remove(j - 1));
        assert(s.remove(j)[0] == s[0]);
        assert(s.skip(1)[j - 1] == s[j]);
        lemma_sum_sizes_remove(s.skip(1), j - 1);
    }
}

} // verus!
