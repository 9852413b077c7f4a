use gossip::clock::{Dot, VectorClock};
use gossip::kv::{KvNode, KvValue, Op};

const A: u128 = 0xa0a0_0000_0000_4000_8000_0000_0000_0001;
const B: u128 = 0xb0b0_0000_0000_4000_8000_0000_0000_0002;

fn copy_ops(ops: &[Op]) -> Vec<Op> {
    ops.iter().map(|o| o.duplicate()).collect()
}

fn state(n: &KvNode) -> Vec<(String, KvValue)> {
    let mut s = n.debug_state();
    for entry in s.iter_mut() {
        if let KvValue::Siblings(v) = &mut entry.1 {
            v.sort();
        }
    }
    s
}

#[test]
fn update_raises_own_counter_by_one() {
    let mut a = KvNode::new(A);
    assert_eq!(a.prepare().get(A), 0);
    a.update("k".to_string(), "v".to_string());
    assert_eq!(a.prepare().get(A), 1);
    a.update("k".to_string(), "w".to_string());
    let c = a.prepare();
    assert_eq!(c.get(A), 2);
    assert_eq!(c.get(B), 0);
    assert_eq!(c.dot(A), Dot { actor: A, counter: 2 });
    assert_eq!(a.get("k".to_string()), Some(vec!["w".to_string()]));
    assert_eq!(a.get("missing".to_string()), None);
    assert_eq!(a.id(), A);
}

#[test]
fn push_ships_only_what_the_peer_lacks() {
    let mut a = KvNode::new(A);
    a.update("x".to_string(), "1".to_string());
    let mut b = KvNode::new(B);
    b.pull(a.push(b.prepare()));
    a.update("y".to_string(), "2".to_string());
    a.update("z".to_string(), "3".to_string());
    let target = b.prepare();
    let delta = a.push(target.duplicate());
    assert_eq!(delta.len(), 2);
    for op in &delta {
        match op {
            Op::Update { dot, .. } => assert!(dot.counter > target.get(dot.actor)),
            Op::Remove { .. } => panic!("no removal was made"),
        }
        assert!(op.is_after(&target));
    }
    // a peer that is ahead gets nothing
    assert!(b.push(a.prepare()).is_empty());
    // equal clocks: nothing either way
    b.pull(delta);
    assert!(a.push(b.prepare()).is_empty());
    assert!(b.push(a.prepare()).is_empty());
}

#[test]
fn concurrent_clocks_ship_the_unseen_writes() {
    let mut a = KvNode::new(A);
    let mut b = KvNode::new(B);
    a.update("k".to_string(), "1".to_string());
    b.update("k".to_string(), "2".to_string());
    assert!(a.prepare().concurrent(&b.prepare()));
    let to_b = a.push(b.prepare());
    assert_eq!(to_b.len(), 1);
    b.pull(to_b);
    let mut vals = b.get("k".to_string()).unwrap();
    vals.sort();
    assert_eq!(vals, vec!["1".to_string(), "2".to_string()]);
    assert!(b.prepare().gt(&a.prepare()));
}

#[test]
fn applying_twice_or_reordered_reads_the_same() {
    let mut a = KvNode::new(A);
    let mut b = KvNode::new(B);
    a.update("k".to_string(), "1".to_string());
    a.update("j".to_string(), "x".to_string());
    b.update("k".to_string(), "2".to_string());
    let ops_a = a.push(VectorClock::new());
    let ops_b = b.push(VectorClock::new());
    let mut in_order = KvNode::new(0xc);
    in_order.pull(copy_ops(&ops_a));
    in_order.pull(copy_ops(&ops_b));
    let mut shuffled = KvNode::new(0xd);
    // each actor's own updates keep their order; actors interleave, ops repeat
    let mut mixed = copy_ops(&ops_b);
    mixed.push(ops_a[0].duplicate());
    mixed.push(ops_b[0].duplicate());
    mixed.push(ops_a[1].duplicate());
    mixed.push(ops_a[0].duplicate());
    mixed.push(ops_a[1].duplicate());
    shuffled.pull(mixed);
    assert_eq!(state(&in_order), state(&shuffled));
    assert_eq!(in_order.prepare().dots().len(), 2);
    assert!(in_order.prepare().le(&shuffled.prepare()));
    assert!(shuffled.prepare().le(&in_order.prepare()));
}

#[test]
fn exchanging_logs_in_either_order_converges() {
    let mut a = KvNode::new(A);
    let mut b = KvNode::new(B);
    a.update("k".to_string(), "1".to_string());
    b.update("k".to_string(), "2".to_string());
    b.update("m".to_string(), "3".to_string());
    let mut a2 = KvNode::new(A);
    a2.update("k".to_string(), "1".to_string());
    let mut b2 = KvNode::new(B);
    b2.update("k".to_string(), "2".to_string());
    b2.update("m".to_string(), "3".to_string());
    // a learns first, then b
    a.pull(b.push(a.prepare()));
    b.pull(a.push(b.prepare()));
    // b learns first, then a
    b2.pull(a2.push(b2.prepare()));
    a2.pull(b2.push(a2.prepare()));
    assert_eq!(state(&a), state(&b));
    assert_eq!(state(&a), state(&a2));
    assert_eq!(state(&a2), state(&b2));
    assert_eq!(
        state(&a),
        vec![
            ("k".to_string(), KvValue::Siblings(vec!["1".to_string(), "2".to_string()])),
            ("m".to_string(), KvValue::Single("3".to_string())),
        ]
    );
}

#[test]
fn stale_update_leaves_the_clock() {
    let mut a = KvNode::new(A);
    a.update("k".to_string(), "1".to_string());
    let ops = a.push(VectorClock::new());
    let before = a.prepare().dots();
    a.pull(ops);
    assert_eq!(a.prepare().dots(), before);
}

#[test]
fn clock_comparisons() {
    let mut x = VectorClock::new();
    let mut y = VectorClock::new();
    assert!(x.le(&y) && y.le(&x) && !x.gt(&y) && !x.concurrent(&y));
    x.apply(Dot { actor: A, counter: 2 });
    assert!(x.gt(&y) && !y.gt(&x));
    y.apply(Dot { actor: B, counter: 1 });
    assert!(x.concurrent(&y));
    y.apply(Dot { actor: A, counter: 3 });
    assert!(y.gt(&x));
    y.apply(Dot { actor: A, counter: 1 });
    assert_eq!(y.get(A), 3);
    x.apply(Dot { actor: B, counter: 0 });
    assert_eq!(x.dots().len(), 1);
}

#[test]
fn removal_clock_joins_the_add_clock() {
    let mut n = KvNode::new(B);
    let mut rm_clock = VectorClock::new();
    rm_clock.apply(Dot { actor: A, counter: 1 });
    n.pull(vec![Op::Remove { clock: rm_clock, keyset: vec!["k".to_string()] }]);
    let c = n.prepare();
    assert_eq!(c.get(A), 1);
    assert!(c.gt(&VectorClock::new()));
    // the removal is shipped to a peer that has not seen it
    assert_eq!(n.push(VectorClock::new()).len(), 1);
    // pulling it again changes nothing
    let again = n.push(VectorClock::new());
    n.pull(again);
    assert_eq!(n.prepare().dots(), c.dots());
}
