//! The worker pool: a queue of worker indices rotated round-robin, one turn
//! per dispatched message.
use vstd::prelude::*;
use vstd::arithmetic::div_mod::{
    lemma_fundamental_div_mod,
    lemma_fundamental_div_mod_converse,
    lemma_mod_add_multiples_vanish,
    lemma_small_mod,
};
use std::collections::VecDeque;

verus! {

broadcast use vstd::std_specs::vecdeque::group_vec_dequeue_axioms;

/// The queue after `t` turns of a pool of `n` workers: the worker served
/// next comes first.
pub open spec fn ring(n: nat, t: nat) -> Seq<usize> {
    Seq::new(n, |i: int| ((i + t) % (n as int)) as usize)
}

/// The workers served in the first `t` turns of a pool of `n` workers.
pub open spec fn schedule(n: nat, t: nat) -> Seq<usize> {
    Seq::new(t, |i: int| (i % (n as int)) as usize)
}

/// How many entries of `s` are `w`.
pub open spec fn share(s: Seq<usize>, w: usize) -> nat
    decreases s.len(),
{
    if s.len() == 0 {
        0
    } else {
        share(s.drop_last(), w) + if s.last() == w {
            1nat
        } else {
            0nat
        }
    }
}

/// An ordered pool of `size` workers, identified by index, handed out in
/// round-robin order: pop the front, push it back.
pub struct WorkerPool {
    queue: VecDeque<usize>,
    served: Ghost<Seq<usize>>,
}

impl WorkerPool {
    /// The number of workers.
    pub closed spec fn size(&self) -> nat {
        self.queue@.len()
    }

    /// The worker handed out at each turn so far, in order.
    pub closed spec fn assignments(&self) -> Seq<usize> {
        self.served@
    }

    pub closed spec fn wf(&self) -> bool {
        &&& 1 <= self.size() <= usize::MAX
        &&& self.queue@ == ring(self.size(), self.served@.len())
        &&& self.served@ == schedule(self.size(), self.served@.len())
    }

    /// A pool of `n` workers; `None` when `n` is zero, since a pool with no
    /// worker can never hand one out.
    pub fn new(n: usize) -> (r: Option<WorkerPool>)
        ensures
            n == 0 <==> r is None,
            r matches Some(p) ==> p.wf() && p.size() == n && p.assignments() == Seq::<usize>::empty(),
    {
        if n == 0 {
            return None;
        }
        let mut queue: VecDeque<usize> = VecDeque::new();
        let mut i: usize = 0;
        while i < n
            invariant
                i <= n,
                queue@ == Seq::new(i as nat, |j: int| j as usize),
            decreases n - i,
        {
            queue.push_back(i);
            i = i + 1;
            assert(queue@ =~= Seq::new(i as nat, |j: int| j as usize));
        }
        assert forall|j: int| 0 <= j < n implies #[trigger] ((j + 0) % (n as int)) == j by {
            lemma_small_mod(j as nat, n as nat);
        }
        let p = WorkerPool { queue, served: Ghost(Seq::empty()) };
        assert(p.queue@ =~= ring(n as nat, 0));
        assert(p.served@ =~= schedule(n as nat, 0));
        Some(p)
    }

    /// The number of workers.
    pub fn len(&self) -> (r: usize)
        requires
            self.wf(),
        ensures
            r == self.size(),
    {
        self.queue.len()
    }

    /// Hands out the worker at the front and moves it to the back: at turn
    /// `t` this is worker `t % size`.
    pub fn next_worker(&mut self) -> (w: usize)
        requires
            old(self).wf(),
        ensures
            final(self).wf(),
            final(self).size() == old(self).size(),
            w == old(self).assignments().len() % old(self).size(),
            w < old(self).size(),
            final(self).assignments() == old(self).assignments().push(w),
    {
        let ghost n = self.size();
        let ghost t = self.served@.len();
        let len = self.queue.len();
        assert(self.queue@[0] == ((0 + t as int) % (n as int)) as usize);
        let w = match self.queue.pop_front() {
            Some(w) => w,
            None => 0,
        };
        self.queue.push_back(w);
        self.served = Ghost(self.served@.push(w));
        proof {
            assert(w == (t as int) % (n as int)) by {
                assert(len == n);
            }
            lemma_mod_add_multiples_vanish(t as int, n as int);
            assert(self.queue@ =~= ring(n, t + 1));
            assert(self.served@ =~= schedule(n, t + 1));
        }
        w
    }
}

/// The share of worker `w` after `t` turns of a pool of `n` workers is
/// `t / n`, plus one when `w` comes before the position the rotation has
/// reached.
pub proof fn lemma_schedule_share(n: nat, t: nat, w: usize)
    requires
        1 <= n <= usize::MAX,
        w < n,
    ensures
        share(schedule(n, t), w) == t as int / n as int + if (w as int) < (t as int) % (n as int) {
            1int
        } else {
            0int
        },
    decreases t,
{
    let ni = n as int;
    if t == 0 {
        lemma_small_mod(0, n);
        assert(0int / ni == 0) by {
            lemma_fundamental_div_mod_converse(0, ni, 0, 0);
        }
    } else {
        let s = (t - 1) as nat;
        lemma_schedule_share(n, s, w);
        assert(schedule(n, t).drop_last() =~= schedule(n, s));
        assert(schedule(n, t).last() == (s as int % ni) as usize);
        let q = s as int / ni;
        let r = s as int % ni;
        lemma_fundamental_div_mod(s as int, ni);
        assert(0 <= r < ni);
        assert(s == q * ni + r) by (nonlinear_arith)
            requires
                s == ni * q + r,
        ;
        if r + 1 < ni {
            lemma_fundamental_div_mod_converse(t as int, ni, q, r + 1);
        } else {
            assert(t == (q + 1) * ni + 0) by (nonlinear_arith)
                requires
                    t == s + 1,
                    s == q * ni + r,
                    r + 1 == ni,
            ;
            lemma_fundamental_div_mod_converse(t as int, ni, q + 1, 0);
        }
    }
}

/// Round-robin fairness: after any number of turns, every worker of the
/// pool has been handed either the floor or the ceiling of (turns / size)
/// messages.
pub proof fn lemma_round_robin_fair(pool: &WorkerPool, w: usize)
    requires
        pool.wf(),
        w < pool.size(),
    ensures
        share(pool.assignments(), w) == pool.assignments().len() / pool.size()
            || share(pool.assignments(), w) == pool.assignments().len() / pool.size() + 1,
        pool.assignments().len() % pool.size() == 0 ==> share(pool.assignments(), w)
            == pool.assignments().len() / pool.size(),
{
    lemma_schedule_share(pool.size(), pool.assignments().len(), w);
}

} // verus!
