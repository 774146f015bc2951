//! The orchestrator's routing decisions: each generated message goes to the
//! next worker of the pool, and the value equal to the stop threshold is the
//! last one taken from the generator.
use vstd::prelude::*;
use crate::message::{PipelineMsg, ProtocolViolation, StageKind};
use crate::pool::WorkerPool;

verus! {

/// Where a generated message goes, and whether it is the last one the
/// orchestrator takes before it releases the generator's channel.
#[derive(Clone, Copy, Debug, PartialEq, Eq, Structural)]
pub struct Route {
    pub worker: usize,
    pub msg: PipelineMsg,
    pub stop: bool,
}

/// The orchestrator's receive loop over generated messages, as a state
/// machine: round-robin dispatch until the stop threshold is seen.
pub struct Distributor {
    pool: WorkerPool,
    stop_at: u8,
    running: bool,
    taken: Ghost<Seq<u8>>,
}

impl Distributor {
    pub closed spec fn wf(&self) -> bool {
        &&& self.pool.wf()
        &&& self.taken@.len() == self.pool.assignments().len()
    }

    /// Whether the loop still takes generated messages.
    pub closed spec fn is_running(&self) -> bool {
        self.running
    }

    /// The value whose arrival ends the loop.
    pub closed spec fn stop_value(&self) -> u8 {
        self.stop_at
    }

    /// The generated values dispatched so far, in order of arrival.
    pub closed spec fn dispatched(&self) -> Seq<u8> {
        self.taken@
    }

    /// The worker pool, whose assignments line up with `dispatched`.
    pub closed spec fn pool(&self) -> WorkerPool {
        self.pool
    }

    /// A distributor over `workers` workers that stops on `stop_at`; `None`
    /// when there is no worker.
    pub fn new(workers: usize, stop_at: u8) -> (r: Option<Distributor>)
        ensures
            workers == 0 <==> r is None,
            r matches Some(d) ==> {
                &&& d.wf()
                &&& d.pool().wf()
                &&& d.is_running()
                &&& d.stop_value() == stop_at
                &&& d.pool().size() == workers
                &&& d.dispatched() == Seq::<u8>::empty()
                &&& d.pool().assignments() == Seq::<usize>::empty()
            },
    {
        match WorkerPool::new(workers) {
            Some(pool) => Some(Distributor { pool, stop_at, running: true, taken: Ghost(Seq::empty()) }),
            None => None,
        }
    }

    /// The number of workers.
    pub fn workers(&self) -> (r: usize)
        requires
            self.wf(),
        ensures
            r == self.pool().size(),
    {
        self.pool.len()
    }

    /// Routes one message from the generator's channel. `Generated(v)` is
    /// forwarded unchanged to the next worker in round-robin order, and ends
    /// the loop when `v` is the stop value; any other variant is a protocol
    /// violation and changes nothing.
    pub fn route(&mut self, msg: PipelineMsg) -> (r: Result<Route, ProtocolViolation>)
        requires
            old(self).wf(),
            old(self).is_running(),
        ensures
            final(self).wf(),
            final(self).pool().wf(),
            final(self).stop_value() == old(self).stop_value(),
            final(self).pool().size() == old(self).pool().size(),
            r matches Ok(route) ==> route.worker < old(self).pool().size(),
            match msg {
                PipelineMsg::Generated(v) => {
                    let w = old(self).dispatched().len() % old(self).pool().size();
                    &&& r == Ok::<Route, ProtocolViolation>(
                        Route { worker: w as usize, msg, stop: v == old(self).stop_value() },
                    )
                    &&& final(self).dispatched() == old(self).dispatched().push(v)
                    &&& final(self).pool().assignments() == old(self).pool().assignments().push(
                        w as usize,
                    )
                    &&& final(self).is_running() == (v != old(self).stop_value())
                },
                _ => {
                    &&& r == Err::<Route, ProtocolViolation>(
                        ProtocolViolation { stage: StageKind::Distributor, received: msg },
                    )
                    &&& final(self).dispatched() == old(self).dispatched()
                    &&& final(self).pool().assignments() == old(self).pool().assignments()
                    &&& final(self).is_running()
                },
            },
    {
        match msg {
            PipelineMsg::Generated(v) => {
                let worker = self.pool.next_worker();
                self.taken = Ghost(self.taken@.push(v));
                let stop = v == self.stop_at;
                if stop {
                    self.running = false;
                }
                Ok(Route { worker, msg, stop })
            },
            _ => Err(ProtocolViolation { stage: StageKind::Distributor, received: msg }),
        }
    }
}

} // verus!
