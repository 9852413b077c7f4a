use gossip::clock::VectorClock;
use gossip::gossip::{
    fire_order, GossipMsg, GossipRuntime, GossipProtocolClient, GossipProtocolOption, GossipSimulator,
    GossipSimulatorDebug, GossipSimulatorOptions,
};
use gossip::kv::{KvNode, KvValue};

// One unit of simulated time is a millisecond.
const SECOND: u64 = 1000;

fn ids(n: u128) -> Vec<u128> {
    (0..n).map(|i| 0x1000_0000_0000_0000_0000_0000_0000_0000u128 + i * 7 + 3).collect()
}

fn simulator(nodes: Vec<KvNode>, fanout: u32, delay: u64, timer: u64, jitter: u64, seed: u64) -> GossipSimulator<KvNode> {
    let options = GossipProtocolOption { fanout };
    GossipSimulator::new(
        nodes.into_iter().map(|n| GossipProtocolClient::new(n, options)).collect(),
        GossipSimulatorOptions { message_delay: delay, client_timer: timer, client_timer_random: jitter },
        seed,
    )
}

fn s1_simulator(seed: u64) -> GossipSimulator<KvNode> {
    let mut nodes: Vec<KvNode> = ids(5).into_iter().map(KvNode::new).collect();
    nodes[0].update("abc".to_string(), "efg".to_string());
    simulator(nodes, 1, SECOND, 3 * SECOND, SECOND, seed)
}

fn snapshot_text(d: &GossipSimulatorDebug<KvNode>) -> String {
    let mut s = format!("t={};", d.time);
    for m in &d.messages {
        s += &format!("m:{}>{}:{}-{}:{};", m.from, m.to, m.start, m.end, m.kind);
    }
    for c in &d.clients {
        s += &format!("c:{}:{:?}:{}-{};", c.id, c.summary.dots(), c.timer_start, c.timer_end);
    }
    s
}

fn sorted_state(sim: &GossipSimulator<KvNode>, id: u128) -> Vec<(String, KvValue)> {
    let mut s = sim.debug_client(id);
    for entry in s.iter_mut() {
        if let KvValue::Siblings(v) = &mut entry.1 {
            v.sort();
        }
    }
    s
}

fn run_ticks(sim: &mut GossipSimulator<KvNode>, step: u64, total: u64) {
    let mut t = 0;
    while t < total {
        sim.tick(step);
        t += step;
    }
}

#[test]
fn test_simulator() {
    let num_nodes = 5;
    let mut nodes: Vec<KvNode> = ids(num_nodes).into_iter().map(KvNode::new).collect();
    nodes[0].update("abc".to_string(), "efg".to_string());
    let mut sim = simulator(nodes, 1, SECOND, 3 * SECOND, SECOND, 10);
    sim.tick(10 * SECOND);
    let d = sim.debug();
    assert_eq!(d.time, 10 * SECOND);
    assert_eq!(d.clients.len(), 5);
}

#[test]
fn single_write_reaches_every_node() {
    let mut sim = s1_simulator(7);
    run_ticks(&mut sim, 100, 40 * SECOND);
    for id in ids(5) {
        let state = sim.debug_client(id);
        assert_eq!(state, vec![("abc".to_string(), KvValue::Single("efg".to_string()))]);
    }
}

#[test]
fn concurrent_writes_become_siblings_then_overwrite_wins() {
    let ab = ids(2);
    let mut a = KvNode::new(ab[0]);
    let mut b = KvNode::new(ab[1]);
    a.update("k".to_string(), "1".to_string());
    b.update("k".to_string(), "2".to_string());
    let mut sim = simulator(vec![a, b], 1, SECOND, 3 * SECOND, SECOND, 3);
    run_ticks(&mut sim, 100, 30 * SECOND);
    for id in &ab {
        let i = sim.index_of(*id).unwrap();
        let mut vals = sim.clients()[i].node.get("k".to_string()).unwrap();
        vals.sort();
        assert_eq!(vals, vec!["1".to_string(), "2".to_string()]);
    }
    sim.set_kv(ab[1], "k".to_string(), "3".to_string());
    run_ticks(&mut sim, 100, 30 * SECOND);
    for id in &ab {
        let i = sim.index_of(*id).unwrap();
        assert_eq!(sim.clients()[i].node.get("k".to_string()), Some(vec!["3".to_string()]));
        assert_eq!(
            sim.debug_client(*id),
            vec![("k".to_string(), KvValue::Single("3".to_string()))]
        );
    }
}

#[test]
fn push_between_equal_clocks_carries_nothing() {
    let ab = ids(2);
    let options = GossipProtocolOption { fanout: 1 };
    let mut a = GossipProtocolClient::new(KvNode::new(ab[0]), options);
    let mut b = GossipProtocolClient::new(KvNode::new(ab[1]), options);
    let push = GossipMsg::Push(a.node.prepare());
    let reply = b.on_receive(ab[0], push).unwrap();
    assert_eq!(reply.0, ab[0]);
    let back = match reply.1 {
        GossipMsg::PushPull(p, q) => {
            assert!(q.is_empty());
            GossipMsg::PushPull(p, q)
        }
        _ => panic!("a push is answered with a push-pull"),
    };
    let last = a.on_receive(ab[1], back).unwrap();
    assert_eq!(last.0, ab[1]);
    match last.1 {
        GossipMsg::Pull(q) => assert!(q.is_empty()),
        _ => panic!("a push-pull is answered with a pull"),
    }
}

#[test]
fn earlier_due_envelope_is_delivered_first() {
    let ab = ids(2);
    let mut writer = KvNode::new(ab[0]);
    writer.update("first".to_string(), "1".to_string());
    let op1 = writer.push(VectorClock::new());
    writer.update("second".to_string(), "2".to_string());
    let both = writer.push(VectorClock::new());
    let op2 = vec![both[1].duplicate()];
    let nodes = vec![KvNode::new(ab[0]), KvNode::new(ab[1])];
    let mut sim = simulator(nodes, 1, 5 * SECOND, 1000 * SECOND, 0, 1);
    sim.send(ab[0], ab[1], GossipMsg::Pull(op1));
    sim.tick(SECOND / 2);
    sim.send(ab[0], ab[1], GossipMsg::Pull(op2));
    let d = sim.debug();
    assert_eq!(d.messages.len(), 2);
    assert_eq!(d.messages[0].end, 5 * SECOND);
    assert_eq!(d.messages[1].end, 5 * SECOND + SECOND / 2);
    sim.tick(10 * SECOND - SECOND / 2);
    assert!(sim.messages().is_empty());
    let i = sim.index_of(ab[1]).unwrap();
    let log = sim.clients()[i].node.push(VectorClock::new());
    let keys: Vec<String> = log
        .iter()
        .map(|op| match op {
            gossip::kv::Op::Update { key, .. } => key.clone(),
            gossip::kv::Op::Remove { .. } => String::new(),
        })
        .collect();
    assert_eq!(keys, vec!["first".to_string(), "second".to_string()]);
}

#[test]
fn same_seed_gives_same_snapshots() {
    let mut x = s1_simulator(42);
    let mut y = s1_simulator(42);
    for _ in 0..400 {
        x.tick(100);
        y.tick(100);
        assert_eq!(snapshot_text(&x.debug()), snapshot_text(&y.debug()));
    }
}

#[test]
fn many_writes_converge_everywhere() {
    let all = ids(50);
    let mut nodes: Vec<KvNode> = all.iter().map(|i| KvNode::new(*i)).collect();
    nodes[0].update("a".to_string(), "x".to_string());
    nodes[17].update("a".to_string(), "y".to_string());
    nodes[33].update("b".to_string(), "z".to_string());
    nodes[49].update("c".to_string(), "w".to_string());
    let mut sim = simulator(nodes, 1, SECOND, 3 * SECOND, SECOND, 5);
    run_ticks(&mut sim, 100, 60 * SECOND);
    let first = sorted_state(&sim, all[0]);
    assert_eq!(
        first,
        vec![
            ("a".to_string(), KvValue::Siblings(vec!["x".to_string(), "y".to_string()])),
            ("b".to_string(), KvValue::Single("z".to_string())),
            ("c".to_string(), KvValue::Single("w".to_string())),
        ]
    );
    for id in &all {
        assert_eq!(sorted_state(&sim, *id), first);
    }
}

#[test]
fn timers_fire_and_restart() {
    let mut sim = simulator(ids(3).into_iter().map(KvNode::new).collect(), 2, SECOND, 3 * SECOND, SECOND, 9);
    for c in sim.debug().clients {
        assert_eq!(c.timer_start, 0);
        assert!(c.timer_end >= 2 * SECOND && c.timer_end < 4 * SECOND);
    }
    sim.tick(4 * SECOND);
    let d = sim.debug();
    for c in &d.clients {
        assert_eq!(c.timer_start, 4 * SECOND);
        assert!(c.timer_end >= 6 * SECOND && c.timer_end < 8 * SECOND);
    }
    // every client pushed to both others; none is due yet
    assert_eq!(d.messages.len(), 6);
    for m in &d.messages {
        assert_eq!(m.kind, "Push");
        assert_eq!(m.start, 4 * SECOND);
        assert_eq!(m.end, 5 * SECOND);
        assert_ne!(m.from, m.to);
    }
}

#[test]
fn zero_jitter_gives_exact_period() {
    let sim = simulator(ids(2).into_iter().map(KvNode::new).collect(), 1, 10, 300, 0, 4);
    for c in sim.debug().clients {
        assert_eq!((c.timer_start, c.timer_end), (0, 300));
    }
}

#[test]
fn unknown_node_has_no_state() {
    let sim = s1_simulator(1);
    assert!(sim.index_of(12345).is_none());
    assert_eq!(sim.reachable_node_ids(), &ids(5));
    assert_eq!(sim.time(), 0);
}

#[test]
fn fire_order_sorts_by_deadline_then_index() {
    let timers = vec![(0, 50), (0, 20), (0, 90), (0, 20), (0, 10)];
    assert_eq!(fire_order(&timers, 60), vec![4, 1, 3, 0]);
    assert_eq!(fire_order(&timers, 5), Vec::<usize>::new());
    assert_eq!(fire_order(&timers, 90), vec![4, 1, 3, 0, 2]);
}

#[test]
fn on_send_picks_distinct_other_peers() {
    let all = ids(6);
    let client = GossipProtocolClient::new(KvNode::new(all[2]), GossipProtocolOption { fanout: 3 });
    let mut rng = <rand::rngs::StdRng as rand::SeedableRng>::seed_from_u64(11);
    let out = client.on_send(&all, &mut rng);
    assert_eq!(out.len(), 3);
    let mut seen: Vec<u128> = out.iter().map(|(to, _)| *to).collect();
    seen.sort();
    seen.dedup();
    assert_eq!(seen.len(), 3);
    for (to, msg) in &out {
        assert!(all.contains(to));
        assert_ne!(*to, all[2]);
        assert_eq!(msg.kind(), "Push");
    }
    let wide = GossipProtocolClient::new(KvNode::new(all[2]), GossipProtocolOption { fanout: 10 });
    assert_eq!(wide.on_send(&all, &mut rng).len(), 5);
}

#[test]
fn envelope_kinds_by_name() {
    assert_eq!(GossipMsg::<KvNode>::Push(VectorClock::new()).kind(), "Push");
    assert_eq!(GossipMsg::<KvNode>::Pull(Vec::new()).kind(), "Pull");
    assert_eq!(GossipMsg::<KvNode>::PushPull(VectorClock::new(), Vec::new()).kind(), "PushPull");
}

#[test]
fn round_pushes_from_one_client_now() {
    let mut sim = simulator(ids(4).into_iter().map(KvNode::new).collect(), 2, SECOND, 100 * SECOND, 0, 8);
    sim.tick(SECOND);
    sim.round();
    let d = sim.debug();
    assert_eq!(d.messages.len(), 2);
    assert_eq!(d.messages[0].from, d.messages[1].from);
    assert_ne!(d.messages[0].to, d.messages[1].to);
    for m in &d.messages {
        assert_eq!(m.kind, "Push");
        assert_eq!((m.start, m.end), (SECOND, 2 * SECOND));
    }
    sim.tick(SECOND);
    // each push was answered with a push-pull
    let d = sim.debug();
    assert_eq!(d.messages.len(), 2);
    for m in &d.messages {
        assert_eq!(m.kind, "PushPull");
        assert_eq!(m.start, 2 * SECOND);
    }
}

#[test]
fn runtime_seam_queues_envelopes() {
    let all = ids(3);
    let mut sim = simulator(all.iter().map(|i| KvNode::new(*i)).collect(), 1, 250, 100 * SECOND, 0, 2);
    assert_eq!(GossipRuntime::reachable_node_ids(&sim), &all);
    GossipRuntime::send(&mut sim, all[0], all[2], GossipMsg::Pull(Vec::new()));
    let d = sim.debug();
    assert_eq!(d.messages.len(), 1);
    assert_eq!((d.messages[0].from, d.messages[0].to), (all[0], all[2]));
    assert_eq!((d.messages[0].start, d.messages[0].end, d.messages[0].kind.as_str()), (0, 250, "Pull"));
    sim.tick(249);
    assert_eq!(sim.messages().len(), 1);
    sim.tick(1);
    assert!(sim.messages().is_empty());
}

#[test]
fn zero_delay_pushes_wait_for_the_next_tick() {
    let mut sim = simulator(ids(2).into_iter().map(KvNode::new).collect(), 1, 0, 1000, 0, 6);
    sim.tick(1000);
    let d = sim.debug();
    assert_eq!(d.messages.len(), 2);
    for m in &d.messages {
        assert_eq!(m.kind, "Push");
        assert_eq!((m.start, m.end), (1000, 1000));
    }
    sim.tick(1);
    // the pushes were delivered; their answers wait in turn
    let d = sim.debug();
    assert_eq!(d.messages.len(), 2);
    for m in &d.messages {
        assert_eq!(m.kind, "PushPull");
    }
}
