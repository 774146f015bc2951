use pipeline::channel::{Channel, Received};
use pipeline::distributor::{Distributor, Route};
use pipeline::generator::{GenAction, Generator, SEED};
use pipeline::message::{drain, merge, square, PipelineMsg, ProtocolViolation, StageKind};
use pipeline::pool::WorkerPool;

#[test]
fn square_gives_exact_square() {
    assert_eq!(square(PipelineMsg::Generated(3)), Ok(PipelineMsg::Squared(9)));
    assert_eq!(square(PipelineMsg::Generated(0)), Ok(PipelineMsg::Squared(0)));
    assert_eq!(square(PipelineMsg::Generated(255)), Ok(PipelineMsg::Squared(65025)));
}

#[test]
fn square_rejects_other_variants() {
    let msg = PipelineMsg::Squared(4);
    assert_eq!(
        square(msg),
        Err(ProtocolViolation { stage: StageKind::Square, received: msg })
    );
    let msg = PipelineMsg::Merged(4);
    assert_eq!(
        square(msg),
        Err(ProtocolViolation { stage: StageKind::Square, received: msg })
    );
}

#[test]
fn merge_republishes_squared_values() {
    assert_eq!(merge(PipelineMsg::Squared(16)), Ok(PipelineMsg::Merged(16)));
    let msg = PipelineMsg::Generated(4);
    assert_eq!(
        merge(msg),
        Err(ProtocolViolation { stage: StageKind::Merge, received: msg })
    );
}

#[test]
fn drain_takes_merged_values() {
    assert_eq!(drain(PipelineMsg::Merged(9)), Ok(9));
    let msg = PipelineMsg::Squared(9);
    assert_eq!(
        drain(msg),
        Err(ProtocolViolation { stage: StageKind::Drain, received: msg })
    );
}

#[test]
fn transform_round_trip_on_values() {
    for v in [2u8, 3, 15, 16, 200, 255] {
        let sq = square(PipelineMsg::Generated(v)).unwrap();
        let mg = merge(sq).unwrap();
        assert_eq!(drain(mg).unwrap() as u32, (v as u32) * (v as u32));
    }
}

#[test]
fn generator_counts_up_from_seed() {
    let mut g = Generator::new();
    assert_eq!(SEED, 2);
    assert_eq!(g.next_action(), GenAction::Send(2));
    g.record_send(true);
    assert_eq!(g.next_action(), GenAction::Send(3));
    g.record_send(true);
    assert_eq!(g.next_action(), GenAction::Send(4));
}

#[test]
fn generator_stops_at_first_refused_send() {
    let mut g = Generator::new();
    g.record_send(true);
    assert_eq!(g.next_action(), GenAction::Send(3));
    g.record_send(false);
    assert_eq!(g.next_action(), GenAction::Finish);
}

#[test]
fn generator_finishes_when_range_is_spent() {
    let mut g = Generator::new();
    let mut sent: u32 = 0;
    while let GenAction::Send(v) = g.next_action() {
        assert_eq!(v as u32, 2 + sent);
        g.record_send(true);
        sent += 1;
    }
    assert_eq!(sent, 254);
}

#[test]
fn pool_requires_a_worker() {
    assert!(WorkerPool::new(0).is_none());
    assert!(Distributor::new(0, 3).is_none());
}

#[test]
fn pool_rotates_round_robin() {
    let mut p = WorkerPool::new(3).unwrap();
    assert_eq!(p.len(), 3);
    let order: Vec<usize> = (0..7).map(|_| p.next_worker()).collect();
    assert_eq!(order, vec![0, 1, 2, 0, 1, 2, 0]);
}

#[test]
fn pool_shares_are_balanced() {
    let n = 4;
    let turns = 11;
    let mut p = WorkerPool::new(n).unwrap();
    let mut counts = vec![0usize; n];
    for _ in 0..turns {
        counts[p.next_worker()] += 1;
    }
    assert_eq!(counts, vec![3, 3, 3, 2]);
    for c in counts {
        assert!(c == turns / n || c == turns / n + 1);
    }
}

#[test]
fn single_worker_takes_everything() {
    let mut p = WorkerPool::new(1).unwrap();
    for _ in 0..5 {
        assert_eq!(p.next_worker(), 0);
    }
}

#[test]
fn distributor_routes_and_stops() {
    let mut d = Distributor::new(2, 3).unwrap();
    assert_eq!(d.workers(), 2);
    let m2 = PipelineMsg::Generated(2);
    assert_eq!(d.route(m2), Ok(Route { worker: 0, msg: m2, stop: false }));
    let m3 = PipelineMsg::Generated(3);
    assert_eq!(d.route(m3), Ok(Route { worker: 1, msg: m3, stop: true }));
}

#[test]
fn distributor_rejects_non_generated() {
    let mut d = Distributor::new(2, 3).unwrap();
    let bad = PipelineMsg::Merged(1);
    assert_eq!(
        d.route(bad),
        Err(ProtocolViolation { stage: StageKind::Distributor, received: bad })
    );
    let m2 = PipelineMsg::Generated(2);
    assert_eq!(d.route(m2), Ok(Route { worker: 0, msg: m2, stop: false }));
}

#[test]
fn channel_closes_when_last_sender_goes() {
    let mut c: Channel<u8> = Channel::new();
    c.clone_sender();
    assert_eq!(c.send(1), Ok(()));
    c.drop_sender();
    assert_eq!(c.send(2), Ok(()));
    c.drop_sender();
    assert!(matches!(c.recv(), Received::Message(1)));
    assert!(matches!(c.recv(), Received::Message(2)));
    assert!(matches!(c.recv(), Received::Closed));
}

#[test]
fn channel_pending_while_a_sender_is_held() {
    let mut c: Channel<u8> = Channel::new();
    assert!(matches!(c.recv(), Received::Pending));
    assert_eq!(c.send(5), Ok(()));
    assert!(matches!(c.recv(), Received::Message(5)));
    assert!(matches!(c.recv(), Received::Pending));
}

#[test]
fn channel_refuses_sends_without_receiver() {
    let mut c: Channel<u8> = Channel::new();
    c.drop_receiver();
    assert_eq!(c.send(7), Err(7));
}
