//! Reasoning task scheduling: tasks run in a reproducible order, by id,
//! ties kept in submission order.
use vstd::prelude::*;

verus! {

/// A unit of work with its ordering id.
#[derive(Debug, Clone)]
pub struct ScheduledTask<T> {
    pub id: u64,
    pub payload: T,
}

/// Runs tasks in id order.
#[derive(Debug, Default)]
pub struct TaskScheduler {}

/// `perm` lists the positions of `tasks` in stable id order: each position
/// once, ids never decreasing, equal ids in submission order.
pub open spec fn is_stable_id_order<T>(tasks: Seq<ScheduledTask<T>>, perm: Seq<int>) -> bool {
    &&& perm.len() == tasks.len()
    &&& forall|k: int| 0 <= k < perm.len() ==> 0 <= #[trigger] perm[k] < tasks.len()
    &&& forall|a: int, b: int|
        0 <= a < b < perm.len() ==> #[trigger] perm[a] != #[trigger] perm[b]
            && tasks[perm[a]].id <= tasks[perm[b]].id && (tasks[perm[a]].id == tasks[perm[b]].id
            ==> perm[a] < perm[b])
}

impl TaskScheduler {
    pub fn new() -> (s: Self) {
        TaskScheduler {  }
    }

    /// Orders the tasks by id (ties in submission order) and applies `op`
    /// to each in that order, collecting the results.
    pub fn run_deterministic<T, R, F>(&self, tasks: Vec<ScheduledTask<T>>, op: F) -> (r: Vec<R>) where
        T: Send + Sync,
        R: Send,
        F: Fn(&ScheduledTask<T>) -> R + Send + Sync,

        requires
            forall|i: int| 0 <= i < tasks@.len() ==> op.requires((&tasks@[i],)),
        ensures
            exists|perm: Seq<int>|
                {
                    &&& is_stable_id_order(tasks@, perm)
                    &&& r@.len() == tasks@.len()
                    &&& forall|k: int|
                        0 <= k < r@.len() ==> op.ensures((&tasks@[perm[k]],), #[trigger] r@[k])
                },
    {
        let ghost orig = tasks@;
        let mut rest = tasks;
        let mut sorted: Vec<ScheduledTask<T>> = Vec::new();
        let ghost mut perm: Seq<int> = Seq::empty();
        let ghost mut consumed: int = 0;
        while rest.len() > 0
            invariant
                consumed + rest@.len() == orig.len(),
                0 <= consumed,
                forall|k: int| 0 <= k < rest@.len() ==> #[trigger] rest@[k] == orig[consumed + k],
                sorted@.len() == consumed,
                perm.len() == consumed,
                forall|k: int| 0 <= k < consumed ==> 0 <= #[trigger] perm[k] < consumed,
                forall|k: int| 0 <= k < consumed ==> #[trigger] sorted@[k] == orig[perm[k]],
                forall|a: int, b: int|
                    0 <= a < b < consumed ==> #[trigger] perm[a] != #[trigger] perm[b]
                        && orig[perm[a]].id <= orig[perm[b]].id && (orig[perm[a]].id
                        == orig[perm[b]].id ==> perm[a] < perm[b]),
            decreases rest@.len(),
        {
            let x = rest.remove(0);
            let mut p: usize = 0;
            while p < sorted.len() && sorted[p].id <= x.id
                invariant
                    p <= sorted@.len(),
                    forall|k: int| 0 <= k < p ==> (#[trigger] sorted@[k]).id <= x.id,
                decreases sorted@.len() - p,
            {
                p = p + 1;
            }
            proof {
                assert(x == orig[consumed]);
                if p < sorted@.len() {
                    assert(sorted@[p as int].id > x.id);
                }
            }
            let ghost old_sorted = sorted@;
            let ghost old_perm = perm;
            sorted.insert(p, x);
            proof {
                perm = old_perm.insert(p as int, consumed);
                assert forall|k: int| 0 <= k < consumed + 1 implies #[trigger] sorted@[k] == orig[perm[k]] by {
                    if k < p {
                        assert(sorted@[k] == old_sorted[k]);
                    } else if k > p {
                        assert(sorted@[k] == old_sorted[k - 1]);
                    }
                }
                assert forall|a: int, b: int|
                    0 <= a < b < consumed + 1 implies #[trigger] perm[a] != #[trigger] perm[b]
                        && orig[perm[a]].id <= orig[perm[b]].id && (orig[perm[a]].id
                        == orig[perm[b]].id ==> perm[a] < perm[b]) by {
                    if b < p {
                        assert(perm[a] == old_perm[a] && perm[b] == old_perm[b]);
                    } else if a < p && b == p {
                        assert(perm[a] == old_perm[a]);
                        assert(old_sorted[a] == orig[old_perm[a]]);
                    } else if a < p && b > p {
                        assert(perm[a] == old_perm[a] && perm[b] == old_perm[b - 1]);
                    } else if a == p {
                        assert(perm[b] == old_perm[b - 1]);
                        assert(old_sorted[b - 1] == orig[old_perm[b - 1]]);
                        if b - 1 > p {
                            assert(orig[old_perm[p as int]].id <= orig[old_perm[b - 1]].id);
                            assert(old_sorted[p as int] == orig[old_perm[p as int]]);
                        }
                    } else {
                        assert(perm[a] == old_perm[a - 1] && perm[b] == old_perm[b - 1]);
                    }
                }
                consumed = consumed + 1;
            }
        }
        let n = sorted.len();
        let mut out: Vec<R> = Vec::new();
        let mut k: usize = 0;
        while k < n
            invariant
                n == sorted@.len(),
                n == orig.len(),
                perm.len() == n,
                forall|i: int| 0 <= i < n ==> 0 <= #[trigger] perm[i] < n,
                forall|i: int| 0 <= i < n ==> #[trigger] sorted@[i] == orig[perm[i]],
                forall|i: int| 0 <= i < orig.len() ==> op.requires((&orig[i],)),
                k <= n,
                out@.len() == k,
                forall|i: int| 0 <= i < k ==> op.ensures((&orig[perm[i]],), #[trigger] out@[i]),
            decreases n - k,
        {
            assert(sorted@[k as int] == orig[perm[k as int]]);
            let res = op(&sorted[k]);
            out.push(res);
            k = k + 1;
        }
        assert(is_stable_id_order(orig, perm));
        out
    }
}

} // verus!
