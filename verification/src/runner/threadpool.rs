//! The bookkeeping core of the bounded worker pool: which work units are
//! pending, running, or done. The threads of the pool live in the
//! application shell and drive this state; its invariant bounds how many
//! units can run at once and keeps every unit distinct, so each completes
//! exactly once.
use vstd::prelude::*;

verus! {

/// Why a work unit could not be handed to the pool.
#[derive(Debug)]
pub struct ExecutionError {
    message: String,
}

impl View for ExecutionError {
    type V = Seq<char>;

    closed spec fn view(&self) -> Seq<char> {
        self.message@
    }
}

impl ExecutionError {
    /// Record why a work unit could not be handed over.
    pub fn new(message: &str) -> (r: Self)
        ensures
            r@ == message@,
    {
        Self { message: message.to_owned() }
    }

    /// The recorded message.
    pub fn message(&self) -> (r: &String)
        ensures
            r@ == self@,
    {
        &self.message
    }
}

/// The scheduling state of a bounded pool over work-unit identifiers:
/// submitted units wait in one shared queue, at most `limit` run at any
/// instant, and a unit leaves the running set into the done list exactly
/// once.
pub struct PoolState {
    limit: usize,
    pending: Vec<u64>,
    running: Vec<u64>,
    done: Vec<u64>,
}

impl PoolState {
    /// Every identifier this pool has seen, each at most once, and no more
    /// running than the bound allows. Constructors establish it and every
    /// operation preserves it.
    pub closed spec fn wf(&self) -> bool {
        &&& self.limit >= 1
        &&& self.running@.len() <= self.limit
        &&& (forall|i: int, k: int|
            0 <= i < k < self.all_ids().len() ==> #[trigger] self.all_ids()[i]
                != #[trigger] self.all_ids()[k])
    }

    /// Every identifier the pool tracks: pending, then running, then done.
    pub closed spec fn all_ids(&self) -> Seq<u64> {
        self.pending@ + self.running@ + self.done@
    }

    /// The units waiting in the shared queue, in submission order.
    pub closed spec fn pending_ids(&self) -> Seq<u64> {
        self.pending@
    }

    /// The units running at this instant.
    pub closed spec fn running_ids(&self) -> Seq<u64> {
        self.running@
    }

    /// The units that have completed, in completion order.
    pub closed spec fn done_ids(&self) -> Seq<u64> {
        self.done@
    }

    /// How many units may run at once.
    pub closed spec fn bound(&self) -> int {
        self.limit as int
    }

    /// An empty pool state with the given concurrency bound.
    pub fn new(limit: usize) -> (r: PoolState)
        requires
            limit >= 1,
        ensures
            r.wf(),
            r.bound() == limit,
            r.pending_ids() == Seq::<u64>::empty(),
            r.running_ids() == Seq::<u64>::empty(),
            r.done_ids() == Seq::<u64>::empty(),
    {
        let r = PoolState { limit, pending: Vec::new(), running: Vec::new(), done: Vec::new() };
        proof {
            assert(r.all_ids() =~= Seq::<u64>::empty());
        }
        r
    }

    /// At most the pool's bound can run at any instant: the running set of
    /// every reachable pool state is within the bound.
    pub proof fn bounded_concurrency(&self)
        requires
            self.wf(),
        ensures
            self.running_ids().len() <= self.bound(),
    {
    }

    /// Every work unit the pool has seen is tracked exactly once across the
    /// queue, the running set and the done list: no unit is lost, and none
    /// can complete twice.
    pub proof fn each_unit_once(&self)
        requires
            self.wf(),
        ensures
            self.all_ids() == self.pending_ids() + self.running_ids() + self.done_ids(),
            distinct_seq(self.all_ids()),
    {
    }

    /// Whether an identifier is tracked anywhere in the pool.
    fn tracked_id(&self, job: u64) -> (r: bool)
        ensures
            r == self.all_ids().contains(job),
    {
        let mut i: usize = 0;
        proof {
            assert(forall|k: int| 0 <= k < self.pending@.len() ==> #[trigger] self.all_ids()[k]
                == self.pending@[k]);
            assert(forall|k: int|
                0 <= k < self.running@.len() ==> #[trigger] self.all_ids()[
                    self.pending@.len() + k
                ] == self.running@[k]);
            assert(forall|k: int|
                0 <= k < self.done@.len() ==> #[trigger] self.all_ids()[
                    self.pending@.len() + self.running@.len() + k
                ] == self.done@[k]);
        }
        while i < self.pending.len()
            invariant
                0 <= i <= self.pending@.len(),
                forall|k: int| 0 <= k < i ==> self.pending@[k] != job,
            decreases self.pending@.len() - i,
        {
            if self.pending[i] == job {
                proof {
                    assert(self.all_ids()[i as int] == job);
                }
                return true;
            }
            i = i + 1;
        }
        let mut k: usize = 0;
        while k < self.running.len()
            invariant
                0 <= k <= self.running@.len(),
                forall|j: int| 0 <= j < k ==> self.running@[j] != job,
            decreases self.running@.len() - k,
        {
            if self.running[k] == job {
                proof {
                    assert(self.all_ids()[self.pending@.len() + k as int] == job);
                }
                return true;
            }
            k = k + 1;
        }
        let mut d: usize = 0;
        while d < self.done.len()
            invariant
                0 <= d <= self.done@.len(),
                forall|j: int| 0 <= j < d ==> self.done@[j] != job,
            decreases self.done@.len() - d,
        {
            if self.done[d] == job {
                proof {
                    assert(self.all_ids()[
                        self.pending@.len() + self.running@.len() + d as int
                    ] == job);
                }
                return true;
            }
            d = d + 1;
        }
        proof {
            assert forall|j: int| 0 <= j < self.all_ids().len() implies self.all_ids()[j]
                != job by {
                if j < self.pending@.len() {
                    assert(self.all_ids()[j] == self.pending@[j]);
                } else if j < self.pending@.len() + self.running@.len() {
                    assert(self.all_ids()[j] == self.running@[j - self.pending@.len()]);
                } else {
                    assert(self.all_ids()[j] == self.done@[
                        j - self.pending@.len() - self.running@.len()
                    ]);
                }
            }
            if self.all_ids().contains(job) {
                let w = choose|w: int|
                    0 <= w < self.all_ids().len() && self.all_ids()[w] == job;
                assert(false);
            }
        }
        false
    }

    /// Submit one work unit: a fresh identifier joins the end of the shared
    /// queue; one the pool already tracks is refused.
    pub fn submit(&mut self, job: u64) -> (r: bool)
        requires
            old(self).wf(),
        ensures
            final(self).wf(),
            final(self).bound() == old(self).bound(),
            final(self).running_ids() == old(self).running_ids(),
            final(self).done_ids() == old(self).done_ids(),
            r == !old(self).all_ids().contains(job),
            final(self).pending_ids() == if r {
                old(self).pending_ids().push(job)
            } else {
                old(self).pending_ids()
            },
    {
        if self.tracked_id(job) {
            return false;
        }
        let ghost pre = self.all_ids();
        let ghost m = self.pending@.len() as int;
        self.pending.push(job);
        proof {
            assert(self.all_ids() =~= pre.insert(m, job));
            lemma_distinct_insert(pre, m, job);
        }
        true
    }

    /// Dispatch one unit: where a slot is free and a unit is waiting, the
    /// head of the queue starts running; otherwise nothing changes.
    pub fn begin(&mut self) -> (r: Option<u64>)
        requires
            old(self).wf(),
        ensures
            final(self).wf(),
            final(self).bound() == old(self).bound(),
            final(self).done_ids() == old(self).done_ids(),
            final(self).running_ids().len() <= final(self).bound(),
            match r {
                Some(job) => {
                    &&& old(self).pending_ids().len() > 0
                    &&& old(self).running_ids().len() < old(self).bound()
                    &&& job == old(self).pending_ids()[0]
                    &&& final(self).pending_ids() == old(self).pending_ids().drop_first()
                    &&& final(self).running_ids() == old(self).running_ids().push(job)
                },
                None => {
                    &&& (old(self).pending_ids().len() == 0 || old(self).running_ids().len()
                        >= old(self).bound())
                    &&& final(self).pending_ids() == old(self).pending_ids()
                    &&& final(self).running_ids() == old(self).running_ids()
                },
            },
    {
        if self.pending.len() == 0 || self.running.len() >= self.limit {
            return None;
        }
        let ghost pre = self.all_ids();
        let job = self.pending.remove(0);
        proof {
            assert(self.all_ids() =~= pre.remove(0));
            lemma_distinct_remove(pre, 0);
            assert forall|k: int| 0 <= k < pre.remove(0).len() implies pre.remove(0)[k]
                != job by {
                assert(pre.remove(0)[k] == pre[k + 1]);
                assert(pre[0] == job);
            }
            if pre.remove(0).contains(job) {
                let w = choose|w: int|
                    0 <= w < pre.remove(0).len() && pre.remove(0)[w] == job;
                assert(false);
            }
        }
        let ghost mid = self.all_ids();
        let ghost m = self.pending@.len() + self.running@.len();
        self.running.push(job);
        proof {
            assert(self.all_ids() =~= mid.insert(m as int, job));
            lemma_distinct_insert(mid, m as int, job);
        }
        Some(job)
    }

    /// Complete one running unit: it leaves the running set into the done
    /// list; one that is not running is refused.
    #[verifier::loop_isolation(false)]
    pub fn complete(&mut self, job: u64) -> (r: bool)
        requires
            old(self).wf(),
        ensures
            final(self).wf(),
            final(self).bound() == old(self).bound(),
            final(self).pending_ids() == old(self).pending_ids(),
            r == old(self).running_ids().contains(job),
            r ==> final(self).done_ids() == old(self).done_ids().push(job),
            r ==> final(self).running_ids() == old(self).running_ids().remove(
                first_index(old(self).running_ids(), job),
            ),
            !r ==> final(self).done_ids() == old(self).done_ids() && final(self).running_ids()
                == old(self).running_ids(),
    {
        let mut i: usize = 0;
        while i < self.running.len()
            invariant
                0 <= i <= self.running@.len(),
                self == old(self),
                forall|k: int| 0 <= k < i ==> self.running@[k] != job,
            decreases self.running@.len() - i,
        {
            if self.running[i] == job {
                proof {
                    assert(old(self).running_ids().contains(job));
                    lemma_first_index_at(old(self).running_ids(), job, i as int);
                }
                let ghost pre = self.all_ids();
                let ghost g = self.pending@.len() + i;
                proof {
                    assert(distinct_seq(pre));
                    assert(pre[g as int] == self.running@[i as int]);
                }
                self.running.remove(i);
                proof {
                    assert(self.all_ids() =~= pre.remove(g as int));
                    lemma_distinct_remove(pre, g as int);
                    assert forall|k: int| 0 <= k < pre.remove(g as int).len() implies pre.remove(
                        g as int,
                    )[k] != job by {
                        if k < g {
                            assert(pre.remove(g as int)[k] == pre[k]);
                        } else {
                            assert(pre.remove(g as int)[k] == pre[k + 1]);
                        }
                        assert(pre[g as int] == job);
                    }
                    if pre.remove(g as int).contains(job) {
                        let w = choose|w: int|
                            0 <= w < pre.remove(g as int).len() && pre.remove(g as int)[w] == job;
                        assert(false);
                    }
                }
                let ghost mid = self.all_ids();
                self.done.push(job);
                proof {
                    assert(self.all_ids() =~= mid.insert(mid.len() as int, job));
                    lemma_distinct_insert(mid, mid.len() as int, job);
                }
                return true;
            }
            i = i + 1;
        }
        proof {
            if old(self).running_ids().contains(job) {
                let w = choose|w: int|
                    0 <= w < old(self).running@.len() && old(self).running@[w] == job;
                assert(false);
            }
        }
        false
    }
}

/// A sequence without repeated elements.
pub open spec fn distinct_seq(s: Seq<u64>) -> bool {
    forall|i: int, k: int| 0 <= i < k < s.len() ==> s[i] != s[k]
}

/// The position of the first occurrence of an element that occurs.
pub open spec fn first_index(s: Seq<u64>, x: u64) -> int
    decreases s.len(),
{
    if s.len() == 0 {
        0
    } else if s[0] == x {
        0
    } else {
        1 + first_index(s.drop_first(), x)
    }
}

/// Where nothing before position `i` is the element and position `i` is,
/// the first occurrence is at `i`.
proof fn lemma_first_index_at(s: Seq<u64>, x: u64, i: int)
    requires
        0 <= i < s.len(),
        forall|k: int| 0 <= k < i ==> s[k] != x,
        s[i] == x,
    ensures
        first_index(s, x) == i,
    decreases i,
{
    if i > 0 {
        lemma_first_index_at(s.drop_first(), x, i - 1);
    }
}

/// Inserting a fresh element keeps a sequence free of repeats.
proof fn lemma_distinct_insert(s: Seq<u64>, m: int, x: u64)
    requires
        distinct_seq(s),
        !s.contains(x),
        0 <= m <= s.len(),
    ensures
        distinct_seq(s.insert(m, x)),
{
    let t = s.insert(m, x);
    assert forall|i: int, k: int| 0 <= i < k < t.len() implies t[i] != t[k] by {
        assert(forall|j: int| 0 <= j < s.len() ==> s[j] != x);
        if i < m {
            assert(t[i] == s[i]);
        } else if i == m {
            assert(t[i] == x);
        } else {
            assert(t[i] == s[i - 1]);
        }
        if k < m {
            assert(t[k] == s[k]);
        } else if k == m {
            assert(t[k] == x);
        } else {
            assert(t[k] == s[k - 1]);
        }
    }
}

/// Removing an element keeps a sequence free of repeats.
proof fn lemma_distinct_remove(s: Seq<u64>, m: int)
    requires
        distinct_seq(s),
        0 <= m < s.len(),
    ensures
        distinct_seq(s.remove(m)),
{
    let t = s.remove(m);
    assert forall|i: int, k: int| 0 <= i < k < t.len() implies t[i] != t[k] by {
        if i < m {
            assert(t[i] == s[i]);
        } else {
            assert(t[i] == s[i + 1]);
        }
        if k < m {
            assert(t[k] == s[k]);
        } else {
            assert(t[k] == s[k + 1]);
        }
    }
}



} // verus!
