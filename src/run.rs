//! One complete run of the pipeline over modelled channels, on a fixed
//! schedule: the generator and the orchestrator take turns until the stop
//! value, then the shutdown cascades from the worker pool through the
//! workers and the merge stage to the final drain. Every stage ends only
//! when its receive loop observes its inbound channel closed.
use vstd::prelude::*;
use vstd::multiset::Multiset;
use crate::channel::{Channel, Received};
use crate::distributor::Distributor;
use crate::pool::{lemma_round_robin_fair, share};
use crate::generator::{from_seed, GenAction, Generator};
use crate::message::{drain, lemma_square_fits, merge, square, square_of, PipelineMsg};

verus! {

broadcast use vstd::seq_lib::group_to_multiset_ensures;

/// An execution context of the pipeline: one per stage instance, and the
/// orchestrator's own.
#[derive(Clone, Copy, Debug, PartialEq, Eq, Structural)]
pub enum ExecContext {
    Generator,
    Worker(usize),
    Merge,
    Orchestrator,
}

/// All messages pending in a sequence of channels.
pub open spec fn total(cs: Seq<Channel<PipelineMsg>>) -> Multiset<PipelineMsg>
    decreases cs.len(),
{
    if cs.len() == 0 {
        Multiset::empty()
    } else {
        total(cs.drop_last()).add(cs.last().pending().to_multiset())
    }
}

/// Replacing one channel changes the total by exactly its pending messages.
proof fn lemma_total_update(cs: Seq<Channel<PipelineMsg>>, w: int, c: Channel<PipelineMsg>)
    requires
        0 <= w < cs.len(),
    ensures
        total(cs.update(w, c)).add(cs[w].pending().to_multiset()) == total(cs).add(
            c.pending().to_multiset(),
        ),
    decreases cs.len(),
{
    let u = cs.update(w, c);
    let pw = cs[w].pending().to_multiset();
    let pc = c.pending().to_multiset();
    if w == cs.len() - 1 {
        assert(u.drop_last() =~= cs.drop_last());
        assert(total(u) == total(cs.drop_last()).add(pc));
    } else {
        let d = cs.drop_last();
        assert(u.drop_last() =~= d.update(w, c));
        lemma_total_update(d, w, c);
        let l = cs.last().pending().to_multiset();
        assert(u.last() == cs.last());
        assert(total(u) == total(d.update(w, c)).add(l));
        assert(total(cs) == total(d).add(l));
        assert(total(d.update(w, c)).add(pw) == total(d).add(pc));
        assert(total(u).add(pw) =~= total(d.update(w, c)).add(pw).add(l));
        assert(total(cs).add(pc) =~= total(d).add(pc).add(l));
    }
    assert(total(u).add(cs[w].pending().to_multiset()) =~= total(cs).add(
        c.pending().to_multiset(),
    ));
}

/// The total depends on the pending messages alone.
proof fn lemma_total_same(cs: Seq<Channel<PipelineMsg>>, ds: Seq<Channel<PipelineMsg>>)
    requires
        cs.len() == ds.len(),
        forall|i: int| 0 <= i < cs.len() ==> (#[trigger] cs[i]).pending() == ds[i].pending(),
    ensures
        total(cs) == total(ds),
    decreases cs.len(),
{
    if cs.len() > 0 {
        lemma_total_same(cs.drop_last(), ds.drop_last());
    }
}

/// Channels with nothing pending hold nothing in total.
proof fn lemma_total_empty(cs: Seq<Channel<PipelineMsg>>)
    requires
        forall|i: int| 0 <= i < cs.len() ==> (#[trigger] cs[i]).pending().len() == 0,
    ensures
        total(cs) == Multiset::<PipelineMsg>::empty(),
    decreases cs.len(),
{
    if cs.len() > 0 {
        lemma_total_empty(cs.drop_last());
        assert(cs.last().pending() =~= Seq::<PipelineMsg>::empty());
        assert(total(cs) =~= Multiset::<PipelineMsg>::empty());
    }
}

/// Sequences that are permutations of each other stay so under a map.
proof fn lemma_permutation_map<A, B>(a: Seq<A>, b: Seq<A>, f: spec_fn(A) -> B)
    requires
        a.to_multiset() == b.to_multiset(),
    ensures
        a.map_values(f).to_multiset() == b.map_values(f).to_multiset(),
    decreases a.len(),
{
    if a.len() == 0 {
        assert(b.to_multiset().len() == 0);
        assert(b.len() == 0);
        assert(a.map_values(f) =~= Seq::<B>::empty());
        assert(b.map_values(f) =~= Seq::<B>::empty());
    } else {
        let x = a.last();
        assert(a =~= a.drop_last().push(x));
        assert(a.to_multiset().count(x) > 0);
        assert(b.contains(x));
        let j = choose|j: int| 0 <= j < b.len() && b[j] == x;
        let b2 = b.remove(j);
        vstd::seq_lib::to_multiset_remove(b, j);
        assert(a.drop_last().to_multiset() =~= b2.to_multiset());
        lemma_permutation_map(a.drop_last(), b2, f);
        assert(a.map_values(f) =~= a.drop_last().map_values(f).push(f(x)));
        assert(b2.map_values(f) =~= b.map_values(f).remove(j));
        vstd::seq_lib::to_multiset_remove(b.map_values(f), j);
        assert(a.map_values(f).to_multiset() =~= b.map_values(f).to_multiset());
    }
}

/// Every message pending in `cs` is a generated value.
pub open spec fn all_generated(cs: Seq<Channel<PipelineMsg>>) -> bool {
    forall|i: int, k: int|
        0 <= i < cs.len() && 0 <= k < cs[i].pending().len() ==> (#[trigger] cs[i].pending()[k]) is Generated
}

/// Taking the oldest message out of one channel takes exactly it out of the
/// total.
proof fn lemma_total_recv(cs: Seq<Channel<PipelineMsg>>, i: int, c: Channel<PipelineMsg>)
    requires
        0 <= i < cs.len(),
        cs[i].pending().len() > 0,
        c.pending() == cs[i].pending().drop_first(),
    ensures
        total(cs.update(i, c)).insert(cs[i].pending()[0]) == total(cs),
{
    let m = cs[i].pending()[0];
    lemma_total_update(cs, i, c);
    assert(cs[i].pending() =~= seq![m] + c.pending());
    vstd::seq_lib::lemma_multiset_commutative(seq![m], c.pending());
    assert(seq![m].to_multiset() =~= Multiset::<PipelineMsg>::empty().insert(m));
    assert forall|x: PipelineMsg|
        #[trigger] total(cs.update(i, c)).insert(m).count(x) == total(cs).count(x) by {
        assert(total(cs.update(i, c)).add(cs[i].pending().to_multiset()).count(x) == total(cs).add(
            c.pending().to_multiset(),
        ).count(x));
    }
    assert(total(cs.update(i, c)).insert(m) =~= total(cs));
}

/// The messages carrying the generated values `s`.
pub open spec fn generated_msgs(s: Seq<u8>) -> Seq<PipelineMsg> {
    s.map_values(|v: u8| PipelineMsg::Generated(v))
}

/// How many values a run dispatches before it stops on `stop_at`: every
/// value from the seed up to `stop_at`, or the whole `u8` range above the
/// seed when `stop_at` lies below the seed and so never comes.
pub open spec fn run_length(stop_at: u8) -> nat {
    if 2 <= stop_at {
        (stop_at - 1) as nat
    } else {
        254
    }
}

/// The generator and the orchestrator take turns: each value the generator
/// sends is taken at once and routed to a worker's inbox; once the stop value
/// is routed, the orchestrator releases the generated channel's receive-end,
/// the generator's next send is refused and it releases its send-end.
fn generate_and_distribute(
    dist: &mut Distributor,
    inboxes: &mut Vec<Channel<PipelineMsg>>,
    assigned: &mut Vec<usize>,
) -> (out: Vec<u8>)
    requires
        old(dist).wf(),
        old(dist).is_running(),
        old(dist).dispatched() == Seq::<u8>::empty(),
        old(assigned)@ == old(dist).pool().assignments(),
        old(assigned)@.len() == 0,
        old(dist).pool().wf(),
        old(inboxes)@.len() == old(dist).pool().size(),
        forall|i: int|
            0 <= i < old(inboxes)@.len() ==> (#[trigger] old(inboxes)@[i]).senders() == 1
                && old(inboxes)@[i].receiver_alive() && old(inboxes)@[i].pending().len() == 0,
    ensures
        final(dist).wf(),
        final(dist).pool().size() == old(dist).pool().size(),
        final(dist).stop_value() == old(dist).stop_value(),
        final(inboxes)@.len() == old(inboxes)@.len(),
        forall|i: int|
            0 <= i < final(inboxes)@.len() ==> (#[trigger] final(inboxes)@[i]).senders() == 1
                && final(inboxes)@[i].receiver_alive(),
        total(final(inboxes)@) == generated_msgs(final(dist).dispatched()).to_multiset(),
        all_generated(final(inboxes)@),
        out@ == final(dist).dispatched(),
        out@ == from_seed(run_length(old(dist).stop_value())),
        final(assigned)@ == final(dist).pool().assignments(),
        final(assigned)@.len() == out@.len(),
        final(dist).pool().wf(),
{
    let ghost n = dist.pool().size();
    let ghost stop = dist.stop_value();
    let mut gen = Generator::new();
    let mut gchan: Channel<PipelineMsg> = Channel::new();
    let mut taking = true;
    let mut out: Vec<u8> = Vec::new();
    proof {
        lemma_total_empty(inboxes@);
        assert(generated_msgs(dist.dispatched()) =~= Seq::<PipelineMsg>::empty());
        assert(dist.dispatched() =~= from_seed(0));
    }
    loop
        invariant
            gen.wf(),
            gen.next_value() <= 256,
            dist.wf(),
            dist.pool().size() == n,
            dist.stop_value() == stop,
            inboxes@.len() == n,
            forall|i: int|
                0 <= i < n ==> (#[trigger] inboxes@[i]).senders() == 1 && inboxes@[i].receiver_alive(),
            total(inboxes@) == generated_msgs(dist.dispatched()).to_multiset(),
            all_generated(inboxes@),
            out@ == dist.dispatched(),
            assigned@ == dist.pool().assignments(),
            assigned@.len() == out@.len(),
            dist.pool().wf(),
            gchan.senders() == 1,
            taking == dist.is_running(),
            dist.dispatched() == from_seed(dist.dispatched().len()),
            dist.dispatched().len() + 2 <= gen.next_value(),
            taking ==> gchan.receiver_alive() && gchan.pending().len() == 0 && !gen.is_stopped()
                && dist.dispatched() == gen.delivered(),
            taking ==> forall|k: int| 0 <= k < dist.dispatched().len() ==> dist.dispatched()[k] != stop,
            !taking ==> dist.dispatched().len() > 0 && dist.dispatched().last() == stop
                && !gchan.receiver_alive(),
        ensures
            gen.action_of() == GenAction::Finish,
        decreases 2 * (256 - gen.next_value()) + if gen.is_stopped() {
            0int
        } else {
            1int
        },
    {
        match gen.next_action() {
            GenAction::Send(v) => {
                let sent = gchan.send(PipelineMsg::Generated(v));
                let delivered = sent.is_ok();
                gen.record_send(delivered);
                if delivered {
                    match gchan.recv() {
                        Received::Message(m) => {
                            match dist.route(m) {
                                Ok(route) => {
                                    let ghost before = inboxes@;
                                    let _ = inboxes[route.worker].send(route.msg);
                                    proof {
                                        let w = route.worker as int;
                                        let msg = PipelineMsg::Generated(v);
                                        assert(route.msg == msg);
                                        lemma_total_update(before, w, inboxes@[w]);
                                        assert(inboxes@ =~= before.update(w, inboxes@[w]));
                                        assert(inboxes@[w].pending() == before[w].pending().push(msg));
                                        assert(inboxes@[w].pending().to_multiset() =~= before[w].pending().to_multiset().insert(msg));
                                        assert forall|x: PipelineMsg|
                                            #[trigger] total(inboxes@).count(x) == total(before).insert(msg).count(x) by {
                                            assert(total(inboxes@).add(before[w].pending().to_multiset()).count(x)
                                                == total(before).add(inboxes@[w].pending().to_multiset()).count(x));
                                        }
                                        assert(total(inboxes@) =~= total(before).insert(msg));
                                        assert(generated_msgs(dist.dispatched()) =~= generated_msgs(
                                            out@,
                                        ).push(PipelineMsg::Generated(v)));
                                        assert(total(inboxes@) =~= generated_msgs(
                                            dist.dispatched(),
                                        ).to_multiset());
                                    }
                                    out.push(v);
                                    assigned.push(route.worker);
                                    if route.stop {
                                        gchan.drop_receiver();
                                        taking = false;
                                    }
                                    proof {
                                        assert(dist.dispatched() =~= from_seed(dist.dispatched().len()));
                                    }
                                },
                                Err(_) => {},
                            }
                        },
                        _ => {},
                    }
                }
            },
            GenAction::Finish => {
                break ;
            },
        }
    }
    gchan.drop_sender();
    proof {
        if taking {
            assert(gen.next_value() == 256);
            assert(stop < 2) by {
                if stop >= 2 {
                    assert(dist.dispatched()[stop - 2] == stop);
                }
            }
        }
        assert(dist.dispatched() =~= from_seed(run_length(stop)));
    }
    out
}

/// The worker messages for the generated values `s`.
pub open spec fn squared_msgs(s: Seq<u8>) -> Seq<PipelineMsg> {
    s.map_values(|v: u8| PipelineMsg::Squared(square_of(v) as u16))
}

/// The merge stage's messages for the generated values `s`.
pub open spec fn merged_msgs(s: Seq<u8>) -> Seq<PipelineMsg> {
    s.map_values(|v: u8| PipelineMsg::Merged(square_of(v) as u16))
}

/// The squares of the generated values `s`.
pub open spec fn squares(s: Seq<u8>) -> Seq<u16> {
    s.map_values(|v: u8| square_of(v) as u16)
}

/// The workers, one after another: each drains its inbox until the channel
/// reports closed (the pool has released every send-end to it), squares and
/// forwards what it takes, then releases its send-end to the merge channel.
fn run_workers(
    inboxes: &mut Vec<Channel<PipelineMsg>>,
    merge_in: &mut Channel<PipelineMsg>,
    log: &mut Vec<ExecContext>,
) -> (processed: Vec<u8>)
    requires
        forall|i: int|
            0 <= i < old(inboxes)@.len() ==> (#[trigger] old(inboxes)@[i]).senders() == 0
                && old(inboxes)@[i].receiver_alive(),
        all_generated(old(inboxes)@),
        old(merge_in).senders() == old(inboxes)@.len(),
        old(merge_in).receiver_alive(),
        old(merge_in).pending() == Seq::<PipelineMsg>::empty(),
    ensures
        final(merge_in).senders() == 0,
        final(merge_in).receiver_alive(),
        final(merge_in).pending() == squared_msgs(processed@),
        generated_msgs(processed@).to_multiset() == total(old(inboxes)@),
        final(log)@ == old(log)@ + Seq::new(
            old(inboxes)@.len(),
            |j: int| ExecContext::Worker(j as usize),
        ),
{
    let ghost start = inboxes@;
    let ghost log0 = log@;
    let n = inboxes.len();
    let mut processed: Vec<u8> = Vec::new();
    let mut i: usize = 0;
    proof {
        assert(generated_msgs(processed@) =~= Seq::<PipelineMsg>::empty());
        assert(total(inboxes@).add(generated_msgs(processed@).to_multiset()) =~= total(start));
        assert(log@ =~= log0 + Seq::new(0, |j: int| ExecContext::Worker(j as usize)));
        assert(merge_in.pending() =~= squared_msgs(processed@));
    }
    while i < n
        invariant
            i <= n,
            n == start.len(),
            inboxes@.len() == n,
            forall|j: int|
                0 <= j < n ==> (#[trigger] inboxes@[j]).senders() == 0 && inboxes@[j].receiver_alive(),
            forall|j: int| 0 <= j < i ==> (#[trigger] inboxes@[j]).pending().len() == 0,
            all_generated(inboxes@),
            merge_in.senders() == n - i,
            merge_in.receiver_alive(),
            merge_in.pending() == squared_msgs(processed@),
            total(inboxes@).add(generated_msgs(processed@).to_multiset()) == total(start),
            log@ == log0 + Seq::new(i as nat, |j: int| ExecContext::Worker(j as usize)),
        decreases n - i,
    {
        loop
            invariant
                i < n,
                n == start.len(),
                inboxes@.len() == n,
                forall|j: int|
                    0 <= j < n ==> (#[trigger] inboxes@[j]).senders() == 0 && inboxes@[j].receiver_alive(),
                forall|j: int| 0 <= j < i ==> (#[trigger] inboxes@[j]).pending().len() == 0,
                all_generated(inboxes@),
                merge_in.senders() == n - i,
                merge_in.receiver_alive(),
                merge_in.pending() == squared_msgs(processed@),
                total(inboxes@).add(generated_msgs(processed@).to_multiset()) == total(start),
            ensures
                inboxes@[i as int].pending().len() == 0,
            decreases inboxes@[i as int].pending().len(),
        {
            let ghost before = inboxes@;
            let ghost before_sent = processed@;
            match inboxes[i].recv() {
                Received::Message(m) => {
                    proof {
                        assert(before[i as int].pending()[0] == m);
                        assert(m is Generated);
                    }
                    let v = match m {
                        PipelineMsg::Generated(v) => v,
                        _ => 0,
                    };
                    let out = square(m);
                    match out {
                        Ok(sq) => {
                            let _ = merge_in.send(sq);
                        },
                        Err(_) => {},
                    }
                    processed.push(v);
                    proof {
                        lemma_total_recv(before, i as int, inboxes@[i as int]);
                        assert(inboxes@ =~= before.update(i as int, inboxes@[i as int]));
                        assert(generated_msgs(processed@) =~= generated_msgs(before_sent).push(m));
                        assert(squared_msgs(processed@) =~= squared_msgs(before_sent).push(
                            PipelineMsg::Squared(square_of(v) as u16),
                        ));
                        assert(total(inboxes@).add(generated_msgs(processed@).to_multiset())
                            =~= total(start));
                        assert forall|j: int, k: int|
                            0 <= j < inboxes@.len() && 0 <= k < inboxes@[j].pending().len()
                                implies (#[trigger] inboxes@[j].pending()[k]) is Generated by {
                            if j == i {
                                assert(inboxes@[j].pending()[k] == before[j].pending()[k + 1]);
                            }
                        }
                    }
                },
                _ => {
                    proof {
                        lemma_total_same(inboxes@, before);
                    }
                    break ;
                },
            }
        }
        merge_in.drop_sender();
        log.push(ExecContext::Worker(i));
        i = i + 1;
        proof {
            assert(log@ =~= log0 + Seq::new(i as nat, |j: int| ExecContext::Worker(j as usize)));
        }
    }
    proof {
        lemma_total_empty(inboxes@);
        assert(generated_msgs(processed@).to_multiset() =~= total(start));
    }
    processed
}

/// The merge stage: it drains the shared merge channel until it reports
/// closed, which needs every worker to have released its send-end, and
/// republishes each value on the results channel; then it releases the
/// results send-end.
fn run_merge(merge_in: &mut Channel<PipelineMsg>, results: &mut Channel<PipelineMsg>, Ghost(
    processed,
): Ghost<Seq<u8>>)
    requires
        old(merge_in).senders() == 0,
        old(merge_in).receiver_alive(),
        old(merge_in).pending() == squared_msgs(processed),
        old(results).senders() == 1,
        old(results).receiver_alive(),
        old(results).pending() == Seq::<PipelineMsg>::empty(),
    ensures
        final(merge_in).pending().len() == 0,
        final(results).senders() == 0,
        final(results).receiver_alive(),
        final(results).pending() == merged_msgs(processed),
{
    let ghost mut k: nat = 0;
    proof {
        assert(squared_msgs(processed).skip(0) =~= squared_msgs(processed));
        assert(merged_msgs(processed).take(0) =~= Seq::<PipelineMsg>::empty());
    }
    loop
        invariant
            k <= processed.len(),
            merge_in.senders() == 0,
            merge_in.receiver_alive(),
            merge_in.pending() == squared_msgs(processed).skip(k as int),
            results.senders() == 1,
            results.receiver_alive(),
            results.pending() == merged_msgs(processed).take(k as int),
        ensures
            merge_in.pending().len() == 0,
            k == processed.len(),
        decreases processed.len() - k,
    {
        match merge_in.recv() {
            Received::Message(m) => {
                assert(m == PipelineMsg::Squared(square_of(processed[k as int]) as u16));
                match merge(m) {
                    Ok(out) => {
                        let _ = results.send(out);
                    },
                    Err(_) => {},
                }
                proof {
                    assert(merge_in.pending() =~= squared_msgs(processed).skip(k as int + 1));
                    assert(results.pending() =~= merged_msgs(processed).take(k as int + 1));
                    k = k + 1;
                }
            },
            _ => {
                break ;
            },
        }
    }
    results.drop_sender();
    proof {
        assert(merged_msgs(processed).take(k as int) =~= merged_msgs(processed));
    }
}

/// The orchestrator's final drain: it takes every merged value until the
/// results channel reports closed.
fn drain_results(results: &mut Channel<PipelineMsg>, Ghost(processed): Ghost<Seq<u8>>) -> (out: Vec<
    u16,
>)
    requires
        old(results).senders() == 0,
        old(results).receiver_alive(),
        old(results).pending() == merged_msgs(processed),
    ensures
        out@ == squares(processed),
        final(results).pending().len() == 0,
{
    let mut out: Vec<u16> = Vec::new();
    proof {
        assert(merged_msgs(processed).skip(0) =~= merged_msgs(processed));
    }
    loop
        invariant
            out@.len() <= processed.len(),
            results.senders() == 0,
            results.receiver_alive(),
            results.pending() == merged_msgs(processed).skip(out@.len() as int),
            out@ == squares(processed).take(out@.len() as int),
        ensures
            results.pending().len() == 0,
            out@.len() == processed.len(),
        decreases processed.len() - out@.len(),
    {
        let ghost k = out@.len();
        match results.recv() {
            Received::Message(m) => {
                match drain(m) {
                    Ok(v) => {
                        out.push(v);
                    },
                    Err(_) => {},
                }
                proof {
                    assert(results.pending() =~= merged_msgs(processed).skip(k as int + 1));
                    assert(out@ =~= squares(processed).take(k as int + 1));
                }
            },
            _ => {
                break ;
            },
        }
    }
    proof {
        assert(out@ =~= squares(processed));
    }
    out
}

/// The contexts of a run with `n` workers in the order they end: the
/// generator, then each worker, then the merge stage, then the orchestrator.
pub open spec fn termination_order(n: nat) -> Seq<ExecContext> {
    seq![ExecContext::Generator] + Seq::new(n, |j: int| ExecContext::Worker(j as usize)) + seq![
        ExecContext::Merge,
        ExecContext::Orchestrator,
    ]
}

/// The merge stage ends after every worker that appears in `log`.
pub open spec fn merge_ends_last_of_stages(log: Seq<ExecContext>) -> bool {
    forall|a: int, b: int|
        0 <= a < log.len() && 0 <= b < log.len() && log[a] is Worker && log[b] is Merge ==> a < b
}

/// What one run of the pipeline observed.
#[derive(Debug)]
pub struct RunReport {
    /// Generated values taken by the orchestrator, in order of arrival.
    pub dispatched: Vec<u8>,
    /// The worker each dispatched value went to, in order of dispatch.
    pub assigned: Vec<usize>,
    /// Generated values in the order the workers processed them.
    pub processed: Vec<u8>,
    /// Values taken by the final drain, in order.
    pub merged: Vec<u16>,
    /// Execution contexts in the order they ended.
    pub terminated: Vec<ExecContext>,
}

/// Runs the whole pipeline with `workers` workers and stop value `stop_at`
/// over modelled channels. `None` when there is no worker. Every value from
/// the seed up to the stop value is dispatched once, processed once and
/// drained once as its exact square; every context ends, each only after its
/// inbound channel closed, and the merge stage after every worker.
pub fn run_pipeline(workers: usize, stop_at: u8) -> (r: Option<RunReport>)
    ensures
        workers == 0 <==> r is None,
        r matches Some(rep) ==> {
            &&& rep.dispatched@ == from_seed(run_length(stop_at))
            &&& rep.assigned@.len() == rep.dispatched@.len()
            &&& forall|w: usize|
                w < workers ==> {
                    let len = rep.assigned@.len();
                    ||| #[trigger] share(rep.assigned@, w) == len / (workers as nat)
                    ||| share(rep.assigned@, w) == len / (workers as nat) + 1
                }
            &&& rep.processed@.to_multiset() == rep.dispatched@.to_multiset()
            &&& rep.merged@ == squares(rep.processed@)
            &&& forall|i: int|
                0 <= i < rep.merged@.len() ==> #[trigger] rep.merged@[i] as int == square_of(
                    rep.processed@[i],
                )
            &&& rep.terminated@ == termination_order(workers as nat)
            &&& merge_ends_last_of_stages(rep.terminated@)
        },
{
    let mut dist = match Distributor::new(workers, stop_at) {
        Some(d) => d,
        None => {
            return None;
        },
    };
    let mut results: Channel<PipelineMsg> = Channel::new();
    let mut merge_in: Channel<PipelineMsg> = Channel::new();
    let mut inboxes: Vec<Channel<PipelineMsg>> = Vec::new();
    let mut i: usize = 0;
    while i < workers
        invariant
            1 <= workers,
            i <= workers,
            inboxes@.len() == i,
            forall|j: int|
                0 <= j < i ==> (#[trigger] inboxes@[j]).senders() == 1 && inboxes@[j].receiver_alive()
                    && inboxes@[j].pending().len() == 0,
            merge_in.senders() == if i == 0 {
                1
            } else {
                i as nat
            },
            merge_in.receiver_alive(),
            merge_in.pending() == Seq::<PipelineMsg>::empty(),
        decreases workers - i,
    {
        if i > 0 {
            merge_in.clone_sender();
        }
        inboxes.push(Channel::new());
        i = i + 1;
    }
    let mut log: Vec<ExecContext> = Vec::new();
    let mut assigned: Vec<usize> = Vec::new();
    let dispatched = generate_and_distribute(&mut dist, &mut inboxes, &mut assigned);
    proof {
        assert forall|w: usize| w < workers implies {
            let len = assigned@.len();
            ||| #[trigger] share(assigned@, w) == len / (workers as nat)
            ||| share(assigned@, w) == len / (workers as nat) + 1
        } by {
            lemma_round_robin_fair(&dist.pool(), w);
        }
    }
    log.push(ExecContext::Generator);
    let ghost taken = inboxes@;
    let mut j: usize = 0;
    while j < workers
        invariant
            j <= workers,
            inboxes@.len() == workers,
            forall|k: int|
                0 <= k < workers ==> (#[trigger] inboxes@[k]).pending() == taken[k].pending()
                    && inboxes@[k].receiver_alive() && inboxes@[k].senders() == if k < j {
                    0nat
                } else {
                    1nat
                },
        decreases workers - j,
    {
        inboxes[j].drop_sender();
        j = j + 1;
    }
    proof {
        lemma_total_same(inboxes@, taken);
        assert(all_generated(inboxes@));
    }
    let processed = run_workers(&mut inboxes, &mut merge_in, &mut log);
    run_merge(&mut merge_in, &mut results, Ghost(processed@));
    log.push(ExecContext::Merge);
    let merged = drain_results(&mut results, Ghost(processed@));
    log.push(ExecContext::Orchestrator);
    proof {
        lemma_permutation_map(
            generated_msgs(processed@),
            generated_msgs(dispatched@),
            |m: PipelineMsg| match m {
                PipelineMsg::Generated(v) => v,
                _ => 0u8,
            },
        );
        assert(generated_msgs(processed@).map_values(
            |m: PipelineMsg| match m {
                PipelineMsg::Generated(v) => v,
                _ => 0u8,
            },
        ) =~= processed@);
        assert(generated_msgs(dispatched@).map_values(
            |m: PipelineMsg| match m {
                PipelineMsg::Generated(v) => v,
                _ => 0u8,
            },
        ) =~= dispatched@);
        assert(log@ =~= termination_order(workers as nat));
        assert forall|i: int| 0 <= i < merged@.len() implies #[trigger] merged@[i] as int
            == square_of(processed@[i]) by {
            lemma_square_fits(processed@[i]);
        }
    }
    Some(RunReport { dispatched, assigned, processed, merged, terminated: log })
}

} // verus!
