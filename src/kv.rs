use crate::clock::{
    clock_concurrent, clock_gt, clock_join, clock_le, clock_with_dot, count_of, max_nat, Dot,
    VectorClock,
};
use vstd::prelude::*;

verus! {

/// The replicated map of the `crdts` crate: string keys, multi-value registers
/// of strings, actors identified by UUIDs. It is held in a field of its own
/// because Verus refuses a declaration of `crdts::Map`, whose value type is bound
/// by a trait of `crdts`.
#[verifier::external_body]
pub struct KvMap {
    inner: crdts::Map<String, crdts::MVReg<String, uuid::Uuid>, uuid::Uuid>,
}

/// The vector clock of `crdts`, carried through opaque.
#[verifier::external_type_specification]
#[verifier::external_body]
#[verifier::reject_recursive_types(A)]
pub struct ExVClock<A: Ord>(crdts::VClock<A>);

/// A UUID, carried through opaque.
#[verifier::external_type_specification]
#[verifier::external_body]
pub struct ExUuid(uuid::Uuid);

/// The add clock of a replicated map, actor by actor (an actor is a UUID as a `u128`).
pub uninterp spec fn crdt_clock(m: KvMap) -> Map<u128, u64>;

/// What a replicated map holds: for each key, the values of its register in read order.
pub uninterp spec fn crdt_contents(m: KvMap) -> Map<Seq<char>, Seq<Seq<char>>>;

/// The summary a node pushes: its add clock.
pub type KvGossipPush = VectorClock;

/// The answer to a push: the operations the pushing node may lack.
pub type KvGossipPull = Vec<Op>;

/// An operation on the replicated map.
pub enum Op {
    /// Writes `value` under `key`; `dot` is the write's own timestamp and `clock`
    /// the context it was made in.
    Update { dot: Dot, key: String, value: String, clock: VectorClock },
    /// Removes the keys of `keyset` as far as `clock` has seen them.
    Remove { clock: VectorClock, keyset: Vec<String> },
}

/// The mathematical value of an operation.
pub enum OpView {
    Update { dot: Dot, key: Seq<char>, value: Seq<char>, clock: Map<u128, u64> },
    Remove { clock: Map<u128, u64>, keyset: Seq<Seq<char>> },
}

pub open spec fn string_views(v: Seq<String>) -> Seq<Seq<char>> {
    v.map_values(|s: String| s@)
}

impl View for Op {
    type V = OpView;

    open spec fn view(&self) -> OpView {
        match self {
            Op::Update { dot, key, value, clock } => OpView::Update {
                dot: *dot,
                key: key@,
                value: value@,
                clock: clock@,
            },
            Op::Remove { clock, keyset } => OpView::Remove {
                clock: clock@,
                keyset: string_views(keyset@),
            },
        }
    }
}

pub open spec fn op_views(ops: Seq<Op>) -> Seq<OpView> {
    ops.map_values(|o: Op| o@)
}

/// Whether a peer whose summary is `target` may not have observed `op`: an update
/// whose dot is newer than the peer's counter for its actor, or a removal whose
/// clock follows or is concurrent with the summary.
pub open spec fn is_after(op: OpView, target: Map<u128, u64>) -> bool {
    match op {
        OpView::Update { dot, .. } => dot.counter > count_of(target, dot.actor),
        OpView::Remove { clock, .. } => clock_gt(clock, target) || clock_concurrent(clock, target),
    }
}

/// The operations of `log` that a peer with summary `target` may miss, in log order.
pub open spec fn ops_after_spec(log: Seq<OpView>, target: Map<u128, u64>) -> Seq<OpView> {
    log.filter(|o: OpView| is_after(o, target))
}

/// What a node with add clock `local` and log `log` ships to a peer with summary
/// `target`: the operations after `target` when `local` follows or is concurrent
/// with it, nothing otherwise.
pub open spec fn push_spec(local: Map<u128, u64>, log: Seq<OpView>, target: Map<u128, u64>) -> Seq<
    OpView,
> {
    if clock_gt(local, target) || clock_concurrent(local, target) {
        ops_after_spec(log, target)
    } else {
        Seq::empty()
    }
}

/// How applying `op` changes the clock of a `crdts` map: an update observes its
/// dot, a removal leaves the clock as it is.
pub open spec fn crdt_clock_after_op(c: Map<u128, u64>, op: OpView) -> Map<u128, u64> {
    match op {
        OpView::Update { dot, .. } => clock_with_dot(c, dot),
        OpView::Remove { .. } => c,
    }
}

/// How applying `op` changes a node's add clock: an update observes its dot, a
/// removal joins its clock.
pub open spec fn clock_after_op(c: Map<u128, u64>, op: OpView) -> Map<u128, u64> {
    match op {
        OpView::Update { dot, .. } => clock_with_dot(c, dot),
        OpView::Remove { clock, .. } => clock_join(c, clock),
    }
}

/// Whether `op` holds something the clock `c` has not observed.
pub open spec fn is_new(c: Map<u128, u64>, op: OpView) -> bool {
    match op {
        OpView::Update { dot, .. } => dot.counter > count_of(c, dot.actor),
        OpView::Remove { clock, .. } => !clock_le(clock, c),
    }
}

/// The add clock after applying `ops` in order.
pub open spec fn clock_after_ops(c: Map<u128, u64>, ops: Seq<OpView>) -> Map<u128, u64>
    decreases ops.len(),
{
    if ops.len() == 0 {
        c
    } else {
        clock_after_op(clock_after_ops(c, ops.drop_last()), ops.last())
    }
}

/// Relies on `crdts::Map::new`: a new map is empty and its clock has observed nothing.
#[verifier::external_body]
fn map_new() -> (r: KvMap)
    ensures
        crdt_clock(r).dom() == Set::<u128>::empty(),
        crdt_contents(r).dom() == Set::<Seq<char>>::empty(),
{
    KvMap { inner: crdts::Map::new() }
}

/// Converts a clock into the `crdts` form through the public `dots` field of
/// `crdts::VClock` and `Uuid::from_u128`, one entry per actor.
#[verifier::external_body]
fn to_crdt_clock(c: &VectorClock) -> crdts::VClock<uuid::Uuid> {
    crdts::VClock {
        dots: c.dots().iter().map(|d| (uuid::Uuid::from_u128(d.actor), d.counter)).collect(),
    }
}

/// Relies on `CmRDT::apply` of `crdts::Map`: an update whose dot the map's clock
/// has already seen is ignored, any other update raises the clock to its dot, and a
/// removal leaves the clock unchanged.
#[verifier::external_body]
fn map_apply(m: &mut KvMap, op: &Op)
    ensures
        crdt_clock(*final(m)) == crdt_clock_after_op(crdt_clock(*old(m)), op@),
{
    let op = match op {
        Op::Update { dot, key, value, clock } => crdts::map::Op::Up {
            dot: crdts::Dot::new(uuid::Uuid::from_u128(dot.actor), dot.counter),
            key: key.clone(),
            op: crdts::mvreg::Op::Put { clock: to_crdt_clock(clock), val: value.clone() },
        },
        Op::Remove { clock, keyset } => crdts::map::Op::Rm {
            clock: to_crdt_clock(clock),
            keyset: keyset.iter().cloned().collect(),
        },
    };
    crdts::CmRDT::apply(&mut m.inner, op);
}

/// Relies on `crdts::Map::len`, whose read context carries the map's add clock:
/// its dots, one per actor, each with a positive counter.
#[verifier::external_body]
fn map_clock(m: &KvMap) -> (r: Vec<Dot>)
    ensures
        forall|i: int, j: int| 0 <= i < j < r@.len() ==> r@[i].actor != r@[j].actor,
        forall|i: int|
            0 <= i < r@.len() ==> crdt_clock(*m).contains_key(#[trigger] r@[i].actor)
                && crdt_clock(*m)[r@[i].actor] == r@[i].counter && r@[i].counter > 0,
        forall|a: u128|
            #[trigger] crdt_clock(*m).contains_key(a) ==> exists|i: int|
                0 <= i < r@.len() && r@[i].actor == a,
{
    m.inner.len().add_clock.iter().map(|d| Dot { actor: d.actor.as_u128(), counter: d.counter }).collect()
}

/// Relies on `crdts::Map::get` and `MVReg::read`: the values under `key`, or none
/// when the map has no entry for it.
#[verifier::external_body]
fn map_get(m: &KvMap, key: &String) -> (r: Option<Vec<String>>)
    ensures
        match r {
            None => !crdt_contents(*m).contains_key(key@),
            Some(v) => crdt_contents(*m).contains_key(key@) && crdt_contents(*m)[key@]
                == string_views(v@),
        },
{
    m.inner.get(key).val.map(|reg| reg.read().val)
}

/// Relies on `crdts::Map::iter` and `MVReg::read`: every entry once, with its values.
#[verifier::external_body]
fn map_items(m: &KvMap) -> (r: Vec<(String, Vec<String>)>)
    ensures
        forall|i: int, j: int| 0 <= i < j < r@.len() ==> r@[i].0@ != r@[j].0@,
        forall|i: int|
            0 <= i < r@.len() ==> crdt_contents(*m).contains_key(#[trigger] r@[i].0@)
                && crdt_contents(*m)[r@[i].0@] == string_views(r@[i].1@),
        forall|k: Seq<char>|
            #[trigger] crdt_contents(*m).contains_key(k) ==> exists|i: int|
                0 <= i < r@.len() && r@[i].0@ == k,
{
    m.inner.iter().map(|e| (e.val.0.clone(), e.val.1.read().val)).collect()
}

/// Copies a list of strings.
fn copy_strings(v: &Vec<String>) -> (r: Vec<String>)
    ensures
        string_views(r@) == string_views(v@),
{
    let mut r: Vec<String> = Vec::new();
    let mut i: usize = 0;
    while i < v.len()
        invariant
            i <= v@.len(),
            r@.len() == i,
            forall|k: int| 0 <= k < i ==> #[trigger] r@[k]@ == v@[k]@,
        decreases v@.len() - i,
    {
        r.push(v[i].clone());
        i += 1;
    }
    assert(string_views(r@) =~= string_views(v@));
    r
}

impl Op {
    /// A copy of this operation.
    pub fn duplicate(&self) -> (r: Op)
        ensures
            r@ == self@,
    {
        match self {
            Op::Update { dot, key, value, clock } => Op::Update {
                dot: *dot,
                key: key.clone(),
                value: value.clone(),
                clock: clock.duplicate(),
            },
            Op::Remove { clock, keyset } => Op::Remove {
                clock: clock.duplicate(),
                keyset: copy_strings(keyset),
            },
        }
    }

    /// Whether a peer whose summary is `target` may not have observed this operation.
    pub fn is_after(&self, target: &VectorClock) -> (r: bool)
        ensures
            r == is_after(self@, target@),
    {
        match self {
            Op::Update { dot, .. } => dot.counter > target.get(dot.actor),
            Op::Remove { clock, .. } => clock.gt(target) || clock.concurrent(target),
        }
    }
}

/// A node's replicated state: the map, the join of the clocks of every removal
/// it applied, and the log of every operation it applied, in the order applied.
pub struct KvState {
    data: KvMap,
    removed: VectorClock,
    ops: Vec<Op>,
}

impl KvState {
    /// An empty map with an empty log.
    pub fn new() -> (r: KvState)
        ensures
            r.clock().dom() == Set::<u128>::empty(),
            r.log() == Seq::<OpView>::empty(),
            r.contents().dom() == Set::<Seq<char>>::empty(),
    {
        KvState { data: map_new(), removed: VectorClock::new(), ops: Vec::new() }
    }

    /// The add clock: the map's clock joined with every applied removal's clock.
    pub closed spec fn clock(&self) -> Map<u128, u64> {
        clock_join(crdt_clock(self.data), self.removed@)
    }

    /// The log of applied operations.
    pub closed spec fn log(&self) -> Seq<OpView> {
        op_views(self.ops@)
    }

    /// What the map holds.
    pub closed spec fn contents(&self) -> Map<Seq<char>, Seq<Seq<char>>> {
        crdt_contents(self.data)
    }

    /// The operations of the log that a peer with summary `after` may not have
    /// observed, in log order.
    pub fn ops_after(&self, after: &VectorClock) -> (r: Vec<Op>)
        ensures
            op_views(r@) == ops_after_spec(self.log(), after@),
    {
        let mut r: Vec<Op> = Vec::new();
        let mut i: usize = 0;
        while i < self.ops.len()
            invariant
                i <= self.ops@.len(),
                op_views(r@) == ops_after_spec(op_views(self.ops@).subrange(0, i as int), after@),
            decreases self.ops@.len() - i,
        {
            let ghost prefix = op_views(self.ops@).subrange(0, i as int);
            let ghost next = op_views(self.ops@).subrange(0, i + 1);
            proof {
                assert(next.drop_last() =~= prefix);
                assert(next.last() == self.ops@[i as int]@);
                reveal_with_fuel(Seq::filter, 1);
            }
            let op = &self.ops[i];
            if op.is_after(after) {
                let c = op.duplicate();
                r.push(c);
                assert(op_views(r@) =~= ops_after_spec(prefix, after@).push(c@));
            } else {
                assert(op_views(r@) =~= ops_after_spec(prefix, after@));
            }
            i += 1;
        }
        assert(op_views(self.ops@).subrange(0, self.ops@.len() as int) =~= op_views(self.ops@));
        r
    }

    /// The add clock, as a value.
    #[verifier::loop_isolation(false)]
    pub fn current_clock(&self) -> (r: VectorClock)
        ensures
            r@ == self.clock(),
    {
        let dots = map_clock(&self.data);
        let mut c = VectorClock::new();
        let mut i: usize = 0;
        while i < dots.len()
            invariant
                i <= dots@.len(),
                forall|j: int|
                    0 <= j < i ==> c@.contains_key(#[trigger] dots@[j].actor) && c@[dots@[j].actor]
                        == dots@[j].counter,
                forall|a: u128|
                    #[trigger] c@.contains_key(a) ==> exists|j: int| 0 <= j < i && dots@[j].actor == a,
            decreases dots@.len() - i,
        {
            let d = dots[i];
            assert(d == dots@[i as int]);
            assert(!c@.contains_key(d.actor));
            c.apply(d);
            i += 1;
        }
        let ghost m = crdt_clock(self.data);
        assert(c@ =~= m) by {
            assert forall|a: u128| c@.contains_key(a) == m.contains_key(a) by {
                if m.contains_key(a) {
                    let j = choose|j: int| 0 <= j < dots@.len() && dots@[j].actor == a;
                    assert(c@.contains_key(dots@[j].actor));
                }
                if c@.contains_key(a) {
                    let j = choose|j: int| 0 <= j < dots@.len() && dots@[j].actor == a;
                    assert(m.contains_key(dots@[j].actor));
                }
            }
            assert forall|a: u128| c@.contains_key(a) implies c@[a] == m[a] by {
                let j = choose|j: int| 0 <= j < dots@.len() && dots@[j].actor == a;
                assert(c@.contains_key(dots@[j].actor));
            }
        }
        c.merge(&self.removed);
        c
    }

    /// Applies `op` to the map and appends it to the log.
    pub fn apply(&mut self, op: Op)
        ensures
            final(self).log() == old(self).log().push(op@),
            final(self).clock() == clock_after_op(old(self).clock(), op@),
    {
        map_apply(&mut self.data, &op);
        match &op {
            Op::Update { dot, .. } => {
                proof {
                    lemma_join_with_dot(crdt_clock(old(self).data), self.removed@, *dot);
                }
            },
            Op::Remove { clock, .. } => {
                let ghost r0 = self.removed@;
                self.removed.merge(clock);
                proof {
                    lemma_join_assoc(crdt_clock(self.data), r0, clock@);
                }
            },
        }
        self.ops.push(op);
        assert(op_views(self.ops@) =~= op_views(old(self).ops@).push(op@));
    }
}

/// How a key reads in a node's debug view: its one value, or all of its siblings.
#[derive(Debug, PartialEq, Eq)]
pub enum KvValue {
    Single(String),
    Siblings(Vec<String>),
}

/// `v` shows the register values `vals`: alone when there is exactly one.
pub open spec fn shows_values(v: KvValue, vals: Seq<Seq<char>>) -> bool {
    match v {
        KvValue::Single(s) => vals.len() == 1 && vals[0] == s@,
        KvValue::Siblings(xs) => vals.len() != 1 && string_views(xs@) == vals,
    }
}

/// `after` is `before` once it has written `value` under `key`: the node's
/// counter goes up by one, and the update, with that dot and the new add clock as
/// its context, ends the log. A node whose counter is the largest `u64` stays as it is.
pub open spec fn update_spec(before: KvNode, after: KvNode, key: Seq<char>, value: Seq<char>) -> bool {
    let id = before.node_id();
    let n = count_of(before.clock(), id);
    let d = Dot { actor: id, counter: (n + 1) as u64 };
    &&& after.node_id() == id
    &&& if n < u64::MAX {
        &&& after.clock() == before.clock().insert(id, d.counter)
        &&& after.log() == before.log().push(
            OpView::Update { dot: d, key, value, clock: after.clock() },
        )
    } else {
        &&& after.clock() == before.clock()
        &&& after.log() == before.log()
        &&& after.contents() == before.contents()
    }
}

/// `r` lists every key of `contents` once, each with how its values show.
pub open spec fn shows_entries(
    r: Seq<(String, KvValue)>,
    contents: Map<Seq<char>, Seq<Seq<char>>>,
) -> bool {
    &&& forall|i: int, j: int| 0 <= i < j < r.len() ==> r[i].0@ != r[j].0@
    &&& forall|i: int|
        0 <= i < r.len() ==> contents.contains_key(#[trigger] r[i].0@) && shows_values(
            r[i].1,
            contents[r[i].0@],
        )
    &&& forall|k: Seq<char>|
        #[trigger] contents.contains_key(k) ==> exists|i: int| 0 <= i < r.len() && r[i].0@ == k
}

/// A replica of the key-value store: its id and its replicated state.
pub struct KvNode {
    id: u128,
    state: KvState,
}

impl KvNode {
    /// The node's id.
    pub closed spec fn node_id(&self) -> u128 {
        self.id
    }

    /// The add clock of the node's map.
    pub closed spec fn clock(&self) -> Map<u128, u64> {
        self.state.clock()
    }

    /// Every operation the node has applied, in the order applied.
    pub closed spec fn log(&self) -> Seq<OpView> {
        self.state.log()
    }

    /// What the node's map holds.
    pub closed spec fn contents(&self) -> Map<Seq<char>, Seq<Seq<char>>> {
        self.state.contents()
    }

    /// A node with an empty map and an empty log.
    pub fn new(id: u128) -> (r: KvNode)
        ensures
            r.node_id() == id,
            r.clock().dom() == Set::<u128>::empty(),
            r.log() == Seq::<OpView>::empty(),
            r.contents().dom() == Set::<Seq<char>>::empty(),
    {
        KvNode { id, state: KvState::new() }
    }

    /// The node's id.
    pub fn id(&self) -> (r: u128)
        ensures
            r == self.node_id(),
    {
        self.id
    }

    /// Writes `value` under `key` as a new event of this node: the update's dot is
    /// the node's counter plus one, and its context is the add clock with that dot.
    /// A node whose counter has reached the largest `u64` writes nothing.
    pub fn update(&mut self, key: String, value: String)
        ensures
            update_spec(*old(self), *final(self), key@, value@),
    {
        let mut ctx = self.state.current_clock();
        let current = ctx.get(self.id);
        if current == u64::MAX {
            return;
        }
        let d = Dot { actor: self.id, counter: current + 1 };
        ctx.apply(d);
        let op = Op::Update { dot: d, key, value, clock: ctx };
        self.state.apply(op);
    }

    /// The values under `key`: none when the key is absent, else its siblings.
    pub fn get(&self, key: String) -> (r: Option<Vec<String>>)
        ensures
            match r {
                None => !self.contents().contains_key(key@),
                Some(v) => self.contents().contains_key(key@) && self.contents()[key@]
                    == string_views(v@),
            },
    {
        map_get(&self.state.data, &key)
    }

    /// The summary a push carries: the map's add clock.
    pub fn prepare(&self) -> (r: VectorClock)
        ensures
            r@ == self.clock(),
    {
        self.state.current_clock()
    }

    /// Answers a peer's push: the operations it may be missing when this node's
    /// clock follows or is concurrent with `target_clock`, none otherwise.
    pub fn push(&self, target_clock: VectorClock) -> (r: Vec<Op>)
        ensures
            op_views(r@) == push_spec(self.clock(), self.log(), target_clock@),
    {
        let current = self.state.current_clock();
        if current.gt(&target_clock) || current.concurrent(&target_clock) {
            self.state.ops_after(&target_clock)
        } else {
            Vec::new()
        }
    }

    /// The node's entries for display: each key once, with its one value or its
    /// siblings.
    pub fn debug_state(&self) -> (r: Vec<(String, KvValue)>)
        ensures
            shows_entries(r@, self.contents()),
    {
        let items = map_items(&self.state.data);
        let mut r: Vec<(String, KvValue)> = Vec::new();
        let mut i: usize = 0;
        while i < items.len()
            invariant
                i <= items@.len(),
                r@.len() == i,
                forall|k: int|
                    0 <= k < i ==> (#[trigger] r@[k]).0@ == items@[k].0@ && shows_values(
                        r@[k].1,
                        string_views(items@[k].1@),
                    ),
            decreases items@.len() - i,
        {
            let (key, vals) = &items[i];
            let shown = if vals.len() == 1 {
                KvValue::Single(vals[0].clone())
            } else {
                KvValue::Siblings(copy_strings(vals))
            };
            r.push((key.clone(), shown));
            i += 1;
        }
        assert forall|k: Seq<char>| #[trigger] self.contents().contains_key(k) implies exists|i: int|
            0 <= i < r@.len() && r@[i].0@ == k by {
            let j = choose|j: int| 0 <= j < items@.len() && items@[j].0@ == k;
            assert(r@[j].0@ == k);
        }
        r
    }

    /// Applies the received operations in order, appending each to the log.
    pub fn pull(&mut self, ops: Vec<Op>)
        ensures
            final(self).node_id() == old(self).node_id(),
            final(self).log() == old(self).log() + op_views(ops@),
            final(self).clock() == clock_after_ops(old(self).clock(), op_views(ops@)),
            ops@.len() == 0 ==> final(self).contents() == old(self).contents(),
    {
        let ghost all = op_views(ops@);
        let mut i: usize = 0;
        while i < ops.len()
            invariant
                i <= ops@.len(),
                all == op_views(ops@),
                self.id == old(self).id,
                self.log() == old(self).log() + all.subrange(0, i as int),
                self.clock() == clock_after_ops(old(self).clock(), all.subrange(0, i as int)),
                i == 0 ==> self.contents() == old(self).contents(),
            decreases ops@.len() - i,
        {
            let op = ops[i].duplicate();
            proof {
                let next = all.subrange(0, i + 1);
                assert(next.drop_last() =~= all.subrange(0, i as int));
                assert(next.last() == op@);
                assert(old(self).log() + next =~= old(self).log() + all.subrange(0, i as int)
                    + seq![op@]);
            }
            self.state.apply(op);
            assert(self.log() =~= old(self).log() + all.subrange(0, i + 1));
            i += 1;
        }
        assert(all.subrange(0, ops@.len() as int) =~= all);
    }
}

/// Applying an operation a second time leaves the add clock as the first time did.
pub proof fn lemma_apply_idempotent(c: Map<u128, u64>, op: OpView)
    ensures
        clock_after_op(clock_after_op(c, op), op) == clock_after_op(c, op),
{
}

/// Two operations change the add clock alike in either order.
pub proof fn lemma_apply_commutes(c: Map<u128, u64>, a: OpView, b: OpView)
    ensures
        clock_after_op(clock_after_op(c, a), b) == clock_after_op(clock_after_op(c, b), a),
{
    let l = clock_after_op(clock_after_op(c, a), b);
    let r = clock_after_op(clock_after_op(c, b), a);
    lemma_clock_after_ops_count_one(c, a, b);
    lemma_clock_after_ops_count_one(c, b, a);
    assert(l =~= r);
}

/// Applying `a` then `b`: each actor counts as far as the furthest of the clock
/// and the two operations.
proof fn lemma_clock_after_ops_count_one(c: Map<u128, u64>, a: OpView, b: OpView)
    ensures
        forall|x: u128|
            #![trigger clock_after_op(clock_after_op(c, a), b).contains_key(x)]
            (clock_after_op(clock_after_op(c, a), b).contains_key(x) <==> (c.contains_key(x)
                || counter_for(a, x) > 0 || counter_for(b, x) > 0)) && (clock_after_op(
                clock_after_op(c, a),
                b,
            ).contains_key(x) ==> clock_after_op(clock_after_op(c, a), b)[x] as nat == max_nat(
                max_nat(count_of(c, x), counter_for(a, x)),
                counter_for(b, x),
            )),
{
    assert forall|x: u128| #[trigger] count_of(clock_after_op(c, a), x) == max_nat(count_of(c, x), counter_for(a, x))
        && (clock_after_op(c, a).contains_key(x) <==> (c.contains_key(x) || counter_for(a, x) > 0)) by {}
    let m = clock_after_op(c, a);
    assert forall|x: u128| #[trigger] count_of(clock_after_op(m, b), x) == max_nat(count_of(m, x), counter_for(b, x))
        && (clock_after_op(m, b).contains_key(x) <==> (m.contains_key(x) || counter_for(b, x) > 0)) by {}
}

/// Applying an operation that the clock has not observed makes the add clock
/// strictly follow the one before; applying any other leaves it unchanged.
pub proof fn lemma_apply_advances_clock(c: Map<u128, u64>, op: OpView)
    ensures
        is_new(c, op) ==> clock_gt(clock_after_op(c, op), c),
        !is_new(c, op) ==> clock_after_op(c, op) == c,
{
    let n = clock_after_op(c, op);
    assert forall|x: u128| #[trigger] count_of(n, x) == max_nat(count_of(c, x), counter_for(op, x)) by {}
    assert forall|x: u128| #[trigger] count_of(c, x) <= count_of(n, x) by {}
    match op {
        OpView::Update { dot, .. } => {
            if is_new(c, op) {
                assert(count_of(n, dot.actor) > count_of(c, dot.actor));
            }
        },
        OpView::Remove { clock, .. } => {
            if is_new(c, op) {
                let x = choose|x: u128| !(count_of(clock, x) <= count_of(c, x));
                assert(count_of(n, x) > count_of(c, x));
            } else {
                assert(n =~= c) by {
                    assert forall|x: u128| n.contains_key(x) == c.contains_key(x) by {
                        assert(count_of(clock, x) <= count_of(c, x));
                    }
                    assert forall|x: u128| n.contains_key(x) implies n[x] == c[x] by {
                        assert(count_of(clock, x) <= count_of(c, x));
                    }
                }
            }
        },
    }
}

/// Every operation that a push answer carries is one the asking peer may not have
/// observed: an update newer than the peer's counter for its actor, or a removal
/// whose clock follows or is concurrent with the peer's summary. Each comes from
/// the answering node's log.
pub proof fn lemma_push_ships_only_unseen(
    local: Map<u128, u64>,
    log: Seq<OpView>,
    target: Map<u128, u64>,
)
    ensures
        forall|i: int|
            0 <= i < push_spec(local, log, target).len() ==> is_after(
                #[trigger] push_spec(local, log, target)[i],
                target,
            ) && log.contains(push_spec(local, log, target)[i]),
{
    if clock_gt(local, target) || clock_concurrent(local, target) {
        lemma_filter_from(log, |o: OpView| is_after(o, target));
        assert forall|i: int| 0 <= i < ops_after_spec(log, target).len() implies is_after(
            #[trigger] ops_after_spec(log, target)[i],
            target,
        ) by {
            log.lemma_filter_pred(|o: OpView| is_after(o, target), i);
        }
    }
}

/// Every element that a filter keeps comes from the filtered sequence.
pub proof fn lemma_filter_from<A>(s: Seq<A>, pred: spec_fn(A) -> bool)
    ensures
        forall|i: int| 0 <= i < s.filter(pred).len() ==> s.contains(#[trigger] s.filter(pred)[i]),
    decreases s.len(),
{
    reveal_with_fuel(Seq::filter, 1);
    if s.len() > 0 {
        let rest = s.drop_last();
        lemma_filter_from(rest, pred);
        assert forall|i: int| 0 <= i < s.filter(pred).len() implies s.contains(
            #[trigger] s.filter(pred)[i],
        ) by {
            if i < rest.filter(pred).len() {
                let x = rest.filter(pred)[i];
                assert(rest.contains(x));
                let k = choose|k: int| 0 <= k < rest.len() && rest[k] == x;
                assert(s[k] == x);
            } else {
                assert(s[s.len() - 1] == s.filter(pred)[i]);
            }
        }
    }
}

/// The counter that `op` carries for actor `a`: its dot's counter when it is an
/// update by `a`, 0 otherwise.
pub open spec fn counter_for(op: OpView, a: u128) -> nat {
    match op {
        OpView::Update { dot, .. } => if dot.actor == a {
            dot.counter as nat
        } else {
            0
        },
        OpView::Remove { clock, .. } => count_of(clock, a),
    }
}

/// After a sequence of operations, an actor's counter is the largest of its
/// counter before and the counters the sequence's updates carry for it; the actor
/// is present when it was before or some update carries a positive counter for it.
proof fn lemma_clock_after_ops_count(c: Map<u128, u64>, s: Seq<OpView>, a: u128)
    ensures
        count_of(clock_after_ops(c, s), a) >= count_of(c, a),
        forall|i: int| 0 <= i < s.len() ==> count_of(clock_after_ops(c, s), a) >= counter_for(#[trigger] s[i], a),
        count_of(clock_after_ops(c, s), a) == count_of(c, a) || exists|i: int|
            0 <= i < s.len() && counter_for(#[trigger] s[i], a) == count_of(clock_after_ops(c, s), a),
        clock_after_ops(c, s).contains_key(a) <==> (c.contains_key(a) || exists|i: int|
            0 <= i < s.len() && counter_for(#[trigger] s[i], a) > 0),
    decreases s.len(),
{
    if s.len() > 0 {
        let rest = s.drop_last();
        lemma_clock_after_ops_count(c, rest, a);
        let before = clock_after_ops(c, rest);
        let after = clock_after_ops(c, s);
        assert(after == clock_after_op(before, s.last()));
        assert forall|i: int| 0 <= i < s.len() implies count_of(after, a) >= counter_for(#[trigger] s[i], a) by {
            if i < s.len() - 1 {
                assert(s[i] == rest[i]);
            }
        }
        if count_of(after, a) != count_of(c, a) {
            if count_of(after, a) == count_of(before, a) {
                let i = choose|i: int| 0 <= i < rest.len() && counter_for(#[trigger] rest[i], a) == count_of(before, a);
                assert(s[i] == rest[i]);
            } else {
                assert(counter_for(s[s.len() - 1], a) == count_of(after, a));
            }
        }
        if after.contains_key(a) && !c.contains_key(a) {
            if before.contains_key(a) {
                let i = choose|i: int| 0 <= i < rest.len() && counter_for(#[trigger] rest[i], a) > 0;
                assert(s[i] == rest[i]);
            } else {
                assert(counter_for(s[s.len() - 1], a) > 0);
            }
        }
        if exists|i: int| 0 <= i < s.len() && counter_for(#[trigger] s[i], a) > 0 {
            let i = choose|i: int| 0 <= i < s.len() && counter_for(#[trigger] s[i], a) > 0;
            if i < s.len() - 1 {
                assert(s[i] == rest[i]);
            }
        }
    }
}

/// Applying a sequence of operations after another changes the add clock as
/// applying the two one after the other in a single sequence.
proof fn lemma_clock_after_ops_append(c: Map<u128, u64>, s1: Seq<OpView>, s2: Seq<OpView>)
    ensures
        clock_after_ops(clock_after_ops(c, s1), s2) == clock_after_ops(c, s1 + s2),
    decreases s2.len(),
{
    if s2.len() > 0 {
        lemma_clock_after_ops_append(c, s1, s2.drop_last());
        assert((s1 + s2).drop_last() =~= s1 + s2.drop_last());
        assert((s1 + s2).last() == s2.last());
    }
}

/// The add clock after a sequence of operations depends only on which operations
/// it holds: their order and repetitions make no difference.
pub proof fn lemma_clock_ignores_order_and_repeats(c: Map<u128, u64>, s1: Seq<OpView>, s2: Seq<OpView>)
    requires
        forall|x: OpView| s1.contains(x) <==> s2.contains(x),
    ensures
        clock_after_ops(c, s1) == clock_after_ops(c, s2),
{
    let r1 = clock_after_ops(c, s1);
    let r2 = clock_after_ops(c, s2);
    assert forall|a: u128|
        #![trigger r1.contains_key(a)]
        #![trigger r2.contains_key(a)]
        #![trigger count_of(r1, a)]
        count_of(r1, a) == count_of(r2, a) && (r1.contains_key(a) <==> r2.contains_key(a)) by {
        lemma_clock_after_ops_count(c, s1, a);
        lemma_clock_after_ops_count(c, s2, a);
        if count_of(r2, a) != count_of(c, a) {
            let j = choose|j: int| 0 <= j < s2.len() && counter_for(#[trigger] s2[j], a) == count_of(r2, a);
            assert(s1.contains(s2[j]));
            let i = choose|i: int| 0 <= i < s1.len() && s1[i] == s2[j];
            assert(count_of(r1, a) >= counter_for(s1[i], a));
        }
        if count_of(r1, a) != count_of(c, a) {
            let i = choose|i: int| 0 <= i < s1.len() && counter_for(#[trigger] s1[i], a) == count_of(r1, a);
            assert(s2.contains(s1[i]));
            let j = choose|j: int| 0 <= j < s2.len() && s2[j] == s1[i];
            assert(count_of(r2, a) >= counter_for(s2[j], a));
        }
        if r1.contains_key(a) && !c.contains_key(a) {
            let i = choose|i: int| 0 <= i < s1.len() && counter_for(#[trigger] s1[i], a) > 0;
            assert(s2.contains(s1[i]));
            let j = choose|j: int| 0 <= j < s2.len() && s2[j] == s1[i];
            assert(counter_for(s2[j], a) > 0);
        }
        if r2.contains_key(a) && !c.contains_key(a) {
            let j = choose|j: int| 0 <= j < s2.len() && counter_for(#[trigger] s2[j], a) > 0;
            assert(s1.contains(s2[j]));
            let i = choose|i: int| 0 <= i < s1.len() && s1[i] == s2[j];
            assert(counter_for(s1[i], a) > 0);
        }
    }
    assert(r1 =~= r2) by {
        assert forall|a: u128| r1.contains_key(a) implies r1[a] == r2[a] by {
            assert(count_of(r1, a) == count_of(r2, a));
        }
    }
}

/// Two nodes that take in each other's operations end with the same add clock
/// whichever takes its part first: applying `s1` then `s2` gives the clock that
/// applying `s2` then `s1` gives.
pub proof fn lemma_clock_exchange_commutes(c: Map<u128, u64>, s1: Seq<OpView>, s2: Seq<OpView>)
    ensures
        clock_after_ops(clock_after_ops(c, s1), s2) == clock_after_ops(clock_after_ops(c, s2), s1),
{
    lemma_clock_after_ops_append(c, s1, s2);
    lemma_clock_after_ops_append(c, s2, s1);
    assert forall|x: OpView| (s1 + s2).contains(x) <==> (s2 + s1).contains(x) by {
        if (s1 + s2).contains(x) {
            let i = choose|i: int| 0 <= i < (s1 + s2).len() && (s1 + s2)[i] == x;
            if i < s1.len() {
                assert((s2 + s1)[s2.len() + i] == x);
            } else {
                assert((s2 + s1)[i - s1.len()] == x);
            }
        }
        if (s2 + s1).contains(x) {
            let i = choose|i: int| 0 <= i < (s2 + s1).len() && (s2 + s1)[i] == x;
            if i < s2.len() {
                assert((s1 + s2)[s1.len() + i] == x);
            } else {
                assert((s1 + s2)[i - s2.len()] == x);
            }
        }
    }
    lemma_clock_ignores_order_and_repeats(c, s1 + s2, s2 + s1);
}

/// Observing a dot commutes with joining a clock.
proof fn lemma_join_with_dot(c: Map<u128, u64>, r: Map<u128, u64>, d: Dot)
    ensures
        clock_join(clock_with_dot(c, d), r) == clock_with_dot(clock_join(c, r), d),
{
    let lhs = clock_join(clock_with_dot(c, d), r);
    let rhs = clock_with_dot(clock_join(c, r), d);
    assert(count_of(clock_join(c, r), d.actor) == max_nat(count_of(c, d.actor), count_of(r, d.actor)));
    assert forall|a: u128| lhs.contains_key(a) == rhs.contains_key(a) by {}
    assert forall|a: u128| lhs.contains_key(a) implies lhs[a] == rhs[a] by {
        assert(count_of(clock_join(c, r), a) == max_nat(count_of(c, a), count_of(r, a)));
    }
    assert(lhs =~= rhs);
}

/// Joining clocks is associative.
proof fn lemma_join_assoc(c: Map<u128, u64>, r: Map<u128, u64>, k: Map<u128, u64>)
    ensures
        clock_join(c, clock_join(r, k)) == clock_join(clock_join(c, r), k),
{
    let lhs = clock_join(c, clock_join(r, k));
    let rhs = clock_join(clock_join(c, r), k);
    assert forall|a: u128| lhs.contains_key(a) == rhs.contains_key(a) && (lhs.contains_key(a) ==> lhs[a] == rhs[a]) by {
        assert(count_of(clock_join(r, k), a) == max_nat(count_of(r, a), count_of(k, a)));
        assert(count_of(clock_join(c, r), a) == max_nat(count_of(c, a), count_of(r, a)));
    }
    assert(lhs =~= rhs);
}

} // verus!
