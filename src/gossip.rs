use crate::clock::VectorClock;
use crate::kv::{
    clock_after_ops, lemma_filter_from, op_views, push_spec, shows_entries, update_spec, KvGossipPull,
    KvGossipPush, KvNode, KvValue, Op,
};
use vstd::prelude::*;

verus! {

/// The seedable generator of `rand`, carried through opaque.
#[verifier::external_type_specification]
#[verifier::external_body]
pub struct ExStdRng(rand::rngs::StdRng);

/// Relies on `SeedableRng::seed_from_u64`: a generator whose draws depend on `seed` alone.
#[verifier::external_body]
pub(crate) fn seeded_rng(seed: u64) -> rand::rngs::StdRng {
    rand::SeedableRng::seed_from_u64(seed)
}

/// Relies on `Rng::gen_range`: a number drawn from `lo..hi`, which must not be empty.
#[verifier::external_body]
pub(crate) fn draw_in_range(rng: &mut rand::rngs::StdRng, lo: u64, hi: u64) -> (r: u64)
    requires
        lo < hi,
    ensures
        lo <= r < hi,
{
    rand::Rng::gen_range(rng, lo..hi)
}

/// Relies on `IteratorRandom::choose_multiple`: `amount` items of `v`, taken at
/// random without replacement.
#[verifier::external_body]
pub(crate) fn choose_some(rng: &mut rand::rngs::StdRng, v: &Vec<u128>, amount: usize) -> (r: Vec<
    u128,
>)
    requires
        amount <= v@.len(),
    ensures
        r@.len() == amount,
        r@.to_multiset().subset_of(v@.to_multiset()),
        forall|i: int| 0 <= i < r@.len() ==> v@.contains(#[trigger] r@[i]),
{
    rand::seq::IteratorRandom::choose_multiple(v.iter().copied(), rng, amount)
}

/// What the gossip protocol needs of a node: its id, a summary of its state to
/// push, the answer to a peer's summary, and a way to take in that answer.
pub trait GossipNode: Sized {
    type PushMsg;
    type PullMsg;

    /// The node's id.
    spec fn gossip_id(&self) -> u128;

    /// `r` summarises this node's state.
    spec fn prepared(&self, r: Self::PushMsg) -> bool;

    /// `r` is this node's answer to a peer that pushed the summary `msg`.
    spec fn answered(&self, msg: Self::PushMsg, r: Self::PullMsg) -> bool;

    /// `after` is this node once it has taken in the answer `msg`.
    spec fn pulled(&self, after: Self, msg: Self::PullMsg) -> bool;

    fn id(&self) -> (r: u128)
        ensures
            r == self.gossip_id(),
    ;

    fn prepare(&self) -> (r: Self::PushMsg)
        ensures
            self.prepared(r),
    ;

    fn push(&self, msg: Self::PushMsg) -> (r: Self::PullMsg)
        ensures
            self.answered(msg, r),
    ;

    fn pull(&mut self, msg: Self::PullMsg)
        ensures
            final(self).gossip_id() == old(self).gossip_id(),
            old(self).pulled(*final(self), msg),
    ;
}

impl GossipNode for KvNode {
    type PushMsg = KvGossipPush;
    type PullMsg = KvGossipPull;

    open spec fn gossip_id(&self) -> u128 {
        self.node_id()
    }

    open spec fn prepared(&self, r: VectorClock) -> bool {
        r@ == self.clock()
    }

    open spec fn answered(&self, msg: VectorClock, r: Vec<Op>) -> bool {
        op_views(r@) == push_spec(self.clock(), self.log(), msg@)
    }

    open spec fn pulled(&self, after: KvNode, msg: Vec<Op>) -> bool {
        &&& after.log() == self.log() + op_views(msg@)
        &&& after.clock() == clock_after_ops(self.clock(), op_views(msg@))
        &&& msg@.len() == 0 ==> after.contents() == self.contents()
    }

    fn id(&self) -> u128 {
        KvNode::id(self)
    }

    fn prepare(&self) -> VectorClock {
        KvNode::prepare(self)
    }

    fn push(&self, msg: VectorClock) -> Vec<Op> {
        KvNode::push(self, msg)
    }

    fn pull(&mut self, msg: Vec<Op>) {
        KvNode::pull(self, msg)
    }
}

/// An envelope of the push/pull exchange.
pub enum GossipMsg<N: GossipNode> {
    /// A node's summary, sent to start an exchange.
    Push(N::PushMsg),
    /// What the receiver lacks; ends an exchange.
    Pull(N::PullMsg),
    /// The answer to a push: the answering node's summary and what the pushing
    /// node lacks.
    PushPull(N::PushMsg, N::PullMsg),
}

impl<N: GossipNode> GossipMsg<N> {
    /// The envelope's kind by name: "Push", "Pull" or "PushPull".
    pub fn kind(&self) -> (r: String)
        ensures
            r@ == match self {
                GossipMsg::Push(_) => "Push"@,
                GossipMsg::Pull(_) => "Pull"@,
                GossipMsg::PushPull(_, _) => "PushPull"@,
            },
    {
        match self {
            GossipMsg::Push(_) => String::from_str("Push"),
            GossipMsg::Pull(_) => String::from_str("Pull"),
            GossipMsg::PushPull(_, _) => String::from_str("PushPull"),
        }
    }
}

/// The protocol's settings: how many peers a client pushes to at each timer fire.
#[derive(Clone, Copy, Debug)]
pub struct GossipProtocolOption {
    pub fanout: u32,
}

/// The peers of `peers` other than `id`, in order.
pub open spec fn other_peers(peers: Seq<u128>, id: u128) -> Seq<u128> {
    peers.filter(differs_from(id))
}

/// Holds of every id but `id`.
pub open spec fn differs_from(id: u128) -> spec_fn(u128) -> bool {
    |p: u128| p != id
}

/// `m` is a push of a summary of `node`.
pub open spec fn is_push_of<N: GossipNode>(node: N, m: GossipMsg<N>) -> bool {
    match m {
        GossipMsg::Push(p) => node.prepared(p),
        _ => false,
    }
}

/// `after` is `before` once it has received `msg` from `from`, answering `reply`:
/// a push leaves the node as it is and is answered with a push-pull of its
/// summary and its answer; a pull is taken in, with no answer; a push-pull is
/// taken in and answered with a pull of the answer to its summary.
pub open spec fn received<N: GossipNode>(
    before: GossipProtocolClient<N>,
    after: GossipProtocolClient<N>,
    from: u128,
    msg: GossipMsg<N>,
    reply: Option<(u128, GossipMsg<N>)>,
) -> bool {
    &&& after.node.gossip_id() == before.node.gossip_id()
    &&& after.options == before.options
    &&& match msg {
        GossipMsg::Push(p) => {
            &&& after.node == before.node
            &&& match reply {
                Some((to, GossipMsg::PushPull(summary, answer))) => {
                    &&& to == from
                    &&& before.node.prepared(summary)
                    &&& before.node.answered(p, answer)
                },
                _ => false,
            }
        },
        GossipMsg::Pull(q) => {
            &&& before.node.pulled(after.node, q)
            &&& reply is None
        },
        GossipMsg::PushPull(p, q) => {
            &&& before.node.pulled(after.node, q)
            &&& match reply {
                Some((to, GossipMsg::Pull(answer))) => {
                    &&& to == from
                    &&& after.node.answered(p, answer)
                },
                _ => false,
            }
        },
    }
}

/// A protocol participant: one node and the protocol's settings.
pub struct GossipProtocolClient<N: GossipNode> {
    pub node: N,
    pub options: GossipProtocolOption,
}

impl<N: GossipNode> GossipProtocolClient<N> {
    pub fn new(node: N, options: GossipProtocolOption) -> (r: GossipProtocolClient<N>)
        ensures
            r.node == node,
            r.options.fanout == options.fanout,
    {
        GossipProtocolClient { node, options }
    }

    /// The client's id, its node's.
    pub fn id(&self) -> (r: u128)
        ensures
            r == self.node.gossip_id(),
    {
        self.node.id()
    }

    /// The timer fired: pushes the node's summary to up to `fanout` distinct peers,
    /// drawn at random from `peers` without the client itself. Returns each
    /// recipient with its envelope.
    pub fn on_send(&self, peers: &Vec<u128>, rng: &mut rand::rngs::StdRng) -> (r: Vec<
        (u128, GossipMsg<N>),
    >)
        ensures
            r@.len() == if (self.options.fanout as nat) < other_peers(peers@, self.node.gossip_id()).len() {
                self.options.fanout as nat
            } else {
                other_peers(peers@, self.node.gossip_id()).len()
            },
            r@.map_values(|e: (u128, GossipMsg<N>)| e.0).to_multiset().subset_of(
                other_peers(peers@, self.node.gossip_id()).to_multiset(),
            ),
            forall|i: int|
                0 <= i < r@.len() ==> peers@.contains(#[trigger] r@[i].0) && r@[i].0
                    != self.node.gossip_id() && is_push_of(self.node, r@[i].1),
            fired_pushes(*self, peers@, r@),
    {
        let self_id = self.id();
        let ghost pred = differs_from(self_id);
        let mut others: Vec<u128> = Vec::new();
        let mut i: usize = 0;
        while i < peers.len()
            invariant
                i <= peers@.len(),
                others@ == peers@.subrange(0, i as int).filter(pred),
                pred == differs_from(self_id),
            decreases peers@.len() - i,
        {
            proof {
                reveal_with_fuel(Seq::filter, 1);
                assert(peers@.subrange(0, i + 1).drop_last() =~= peers@.subrange(0, i as int));
                assert(peers@.subrange(0, i + 1).last() == peers@[i as int]);
            }
            let ghost before = others@;
            if peers[i] != self_id {
                others.push(peers[i]);
            }
            proof {
                reveal_with_fuel(Seq::filter, 1);
                let next = peers@.subrange(0, i + 1);
                assert(next.filter(pred) == if pred(next.last()) {
                    next.drop_last().filter(pred).push(next.last())
                } else {
                    next.drop_last().filter(pred)
                });
                assert(next.drop_last() =~= peers@.subrange(0, i as int));
                assert(next.last() == peers@[i as int]);
                assert(pred(peers@[i as int]) == (peers@[i as int] != self_id));
                assert(others@ == next.filter(pred));
            }
            i += 1;
        }
        assert(peers@.subrange(0, peers@.len() as int) =~= peers@);
        let fanout = self.options.fanout as usize;
        let amount = if fanout < others.len() {
            fanout
        } else {
            others.len()
        };
        let targets = choose_some(rng, &others, amount);
        proof {
            lemma_filter_from(peers@, pred);
        }
        let mut r: Vec<(u128, GossipMsg<N>)> = Vec::new();
        let mut k: usize = 0;
        while k < targets.len()
            invariant
                k <= targets@.len(),
                r@.len() == k,
                forall|j: int|
                    0 <= j < k ==> (#[trigger] r@[j]).0 == targets@[j] && is_push_of(self.node, r@[j].1),
            decreases targets@.len() - k,
        {
            r.push((targets[k], GossipMsg::Push(self.node.prepare())));
            k += 1;
        }
        assert(r@.map_values(|e: (u128, GossipMsg<N>)| e.0) =~= targets@);
        assert forall|j: int| 0 <= j < r@.len() implies peers@.contains(#[trigger] r@[j].0) && r@[j].0
            != self_id by {
            let t = targets@[j];
            assert(others@.contains(t));
            let x = choose|x: int| 0 <= x < others@.len() && others@[x] == t;
            peers@.lemma_filter_pred(pred, x);
        }
        r
    }

    /// An envelope arrived from `from`. A push is answered with this node's summary
    /// and what the pusher lacks; a pull is applied; a push-pull is applied and
    /// answered with a pull of what the other side lacks. Returns the answer, if
    /// any, with its recipient.
    pub fn on_receive(&mut self, from: u128, msg: GossipMsg<N>) -> (r: Option<(u128, GossipMsg<N>)>)
        ensures
            final(self).node.gossip_id() == old(self).node.gossip_id(),
            final(self).options == old(self).options,
            received(*old(self), *final(self), from, msg, r),
    {
        match msg {
            GossipMsg::Push(push) => {
                let summary = self.node.prepare();
                let answer = self.node.push(push);
                Some((from, GossipMsg::PushPull(summary, answer)))
            },
            GossipMsg::Pull(pull) => {
                self.node.pull(pull);
                None
            },
            GossipMsg::PushPull(push, pull) => {
                self.node.pull(pull);
                let answer = self.node.push(push);
                Some((from, GossipMsg::Pull(answer)))
            },
        }
    }

}

impl GossipProtocolClient<KvNode> {
    /// Writes `value` under `key` on this client's node.
    pub fn update(&mut self, key: String, value: String)
        ensures
            update_spec(old(self).node, final(self).node, key@, value@),
            final(self).options == old(self).options,
    {
        self.node.update(key, value);
    }

    /// The node's entries for display.
    pub fn debug_state(&self) -> (r: Vec<(String, KvValue)>)
        ensures
            shows_entries(r@, self.node.contents()),
    {
        self.node.debug_state()
    }
}

/// `out` is what a client that fires pushes: one push of a summary of its node to
/// each of `min(fanout, number of other peers)` peers of `peers` other than itself.
pub open spec fn fired_pushes<N: GossipNode>(
    client: GossipProtocolClient<N>,
    peers: Seq<u128>,
    out: Seq<(u128, GossipMsg<N>)>,
) -> bool {
    &&& out.len() == if (client.options.fanout as nat) < other_peers(peers, client.node.gossip_id()).len() {
        client.options.fanout as nat
    } else {
        other_peers(peers, client.node.gossip_id()).len()
    }
    &&& forall|i: int|
        0 <= i < out.len() ==> peers.contains(#[trigger] out[i].0) && out[i].0 != client.node.gossip_id()
            && is_push_of(client.node, out[i].1)
}

/// `order` is the firing order at time `now` of clients with timers `timers`:
/// every client whose deadline is at or before `now`, each once, by deadline and
/// then by index.
pub open spec fn is_fire_order(timers: Seq<(u64, u64)>, now: u64, order: Seq<usize>) -> bool {
    &&& forall|k: int| 0 <= k < order.len() ==> order[k] < timers.len()
    &&& forall|j: usize| j < timers.len() ==> (timers[j as int].1 <= now <==> order.contains(j))
    &&& forall|a: int, b: int|
        0 <= a < b < order.len() ==> fires_before(timers, #[trigger] order[a], #[trigger] order[b])
}

/// `t` is a timer started at `start` whose period lies in
/// `[client_timer - client_timer_random, client_timer + client_timer_random)`, or is
/// exactly `client_timer` when the jitter is 0.
pub open spec fn in_window(o: GossipSimulatorOptions, start: u64, t: (u64, u64)) -> bool {
    &&& t.0 == start
    &&& start + o.client_timer - o.client_timer_random <= t.1
    &&& t.1 <= start + o.client_timer + o.client_timer_random
    &&& o.client_timer_random > 0 ==> t.1 < start + o.client_timer + o.client_timer_random
    &&& o.client_timer_random == 0 ==> t.1 == start + o.client_timer
}

/// The envelopes that the clients fired in `order` queue, `outs[k]` being what
/// the `k`-th of them pushed, in that order.
pub open spec fn timer_sends<N: GossipNode>(
    ids: Seq<u128>,
    order: Seq<usize>,
    outs: Seq<Seq<(u128, GossipMsg<N>)>>,
    start: u64,
    end: u64,
) -> Seq<GossipSimulatorMessage<N>>
    decreases outs.len(),
{
    if outs.len() == 0 {
        Seq::empty()
    } else {
        timer_sends(ids, order, outs.drop_last(), start, end) + envelopes_from(
            ids[order[outs.len() - 1] as int],
            outs.last(),
            start,
            end,
        )
    }
}

/// `x` comes before `y` in firing order: earlier deadline, then lower index.
pub open spec fn fires_before(timers: Seq<(u64, u64)>, x: usize, y: usize) -> bool {
    timers[x as int].1 < timers[y as int].1 || (timers[x as int].1 == timers[y as int].1 && x < y)
}

/// The clients whose timer deadline is at or before `now`, each once, ordered by
/// deadline and then by index.
pub fn fire_order(timers: &Vec<(u64, u64)>, now: u64) -> (r: Vec<usize>)
    ensures
        is_fire_order(timers@, now, r@),
{
    let mut r: Vec<usize> = Vec::new();
    let mut i: usize = 0;
    while i < timers.len()
        invariant
            i <= timers@.len(),
            forall|k: int| 0 <= k < r@.len() ==> r@[k] < i,
            forall|j: usize| j < i ==> (timers@[j as int].1 <= now <==> r@.contains(j)),
            forall|a: int, b: int|
                0 <= a < b < r@.len() ==> fires_before(timers@, #[trigger] r@[a], #[trigger] r@[b]),
        decreases timers@.len() - i,
    {
        let d = timers[i].1;
        if d <= now {
            let mut p: usize = 0;
            while p < r.len() && timers[r[p]].1 <= d
                invariant
                    p <= r@.len(),
                    forall|k: int| 0 <= k < r@.len() ==> r@[k] < i,
                    i < timers@.len(),
                    d == timers@[i as int].1,
                    forall|q: int| 0 <= q < p ==> timers@[r@[q] as int].1 <= d,
                decreases r@.len() - p,
            {
                p += 1;
            }
            let ghost s = r@;
            assert forall|q: int| p <= q < s.len() implies timers@[s[q] as int].1 > d by {
                if q > p {
                    assert(fires_before(timers@, s[p as int], s[q]));
                }
            }
            proof {
                s.insert_ensures(p as int, i);
            }
            r.insert(p, i);
            assert forall|a: int, b: int| 0 <= a < b < r@.len() implies fires_before(
                timers@,
                #[trigger] r@[a],
                #[trigger] r@[b],
            ) by {
                if b < p {
                    assert(fires_before(timers@, s[a], s[b]));
                } else if b == p {
                    assert(r@[a] == s[a]);
                } else if a < p {
                    assert(r@[b] == s[b - 1]);
                } else if a == p {
                    assert(r@[b] == s[b - 1]);
                } else {
                    assert(r@[a] == s[a - 1]);
                    assert(r@[b] == s[b - 1]);
                    assert(fires_before(timers@, s[a - 1], s[b - 1]));
                }
            }
            assert forall|j: usize| j <= i implies (timers@[j as int].1 <= now <==> r@.contains(j)) by {
                if j < i && s.contains(j) {
                    let k = choose|k: int| 0 <= k < s.len() && s[k] == j;
                    if k < p {
                        assert(r@[k] == j);
                    } else {
                        assert(r@[k + 1] == j);
                    }
                }
                if r@.contains(j) {
                    let k = choose|k: int| 0 <= k < r@.len() && r@[k] == j;
                    if k < p {
                        assert(s.contains(j));
                    } else if k > p {
                        assert(s[k - 1] == j);
                        assert(s.contains(j));
                    }
                }
                if j == i {
                    assert(r@[p as int] == i);
                }
            }
            assert forall|k: int| 0 <= k < r@.len() implies r@[k] < i + 1 by {
                if k < p {
                } else if k > p {
                    assert(r@[k] == s[k - 1]);
                }
            }
        } else {
            assert forall|j: usize| j <= i implies (timers@[j as int].1 <= now <==> r@.contains(j)) by {
                if j == i && r@.contains(j) {
                    let k = choose|k: int| 0 <= k < r@.len() && r@[k] == j;
                }
            }
        }
        i += 1;
    }
    r
}

/// The simulator's settings, in units of simulated time.
#[derive(Clone, Copy, Debug)]
pub struct GossipSimulatorOptions {
    /// How long every envelope is in flight.
    pub message_delay: u64,
    /// The mean period between a client's timer fires.
    pub client_timer: u64,
    /// Half the width of the window the period is drawn from.
    pub client_timer_random: u64,
}

/// An envelope in flight from `from_id` to `to_id`, sent at `start`, due at `end`.
pub struct GossipSimulatorMessage<N: GossipNode> {
    pub from_id: u128,
    pub to_id: u128,
    pub msg: GossipMsg<N>,
    pub start: u64,
    pub end: u64,
}

/// An envelope in flight, for display: its ends, when it was sent and is due,
/// and its kind.
pub struct GossipSimulatorMessageDebug {
    pub from: u128,
    pub to: u128,
    pub start: u64,
    pub end: u64,
    pub kind: String,
}

/// A client, for display: its id, its node's summary and its timer.
pub struct GossipSimulatorClientDebug<N: GossipNode> {
    pub id: u128,
    pub summary: N::PushMsg,
    pub timer_start: u64,
    pub timer_end: u64,
}

/// A snapshot of the simulation.
pub struct GossipSimulatorDebug<N: GossipNode> {
    pub time: u64,
    pub messages: Vec<GossipSimulatorMessageDebug>,
    pub clients: Vec<GossipSimulatorClientDebug<N>>,
}

/// The envelopes that queueing `out` from `from` makes, sent at `start`, due at `end`.
pub open spec fn envelopes_from<N: GossipNode>(
    from: u128,
    out: Seq<(u128, GossipMsg<N>)>,
    start: u64,
    end: u64,
) -> Seq<GossipSimulatorMessage<N>> {
    out.map_values(
        |e: (u128, GossipMsg<N>)| GossipSimulatorMessage { from_id: from, to_id: e.0, msg: e.1, start, end },
    )
}

/// `d` shows the envelope in flight `m`.
pub open spec fn shows_message<N: GossipNode>(d: GossipSimulatorMessageDebug, m: GossipSimulatorMessage<N>) -> bool {
    &&& d.from == m.from_id
    &&& d.to == m.to_id
    &&& d.start == m.start
    &&& d.end == m.end
    &&& d.kind@ == match m.msg {
        GossipMsg::Push(_) => "Push"@,
        GossipMsg::Pull(_) => "Pull"@,
        GossipMsg::PushPull(_, _) => "PushPull"@,
    }
}

/// The answer envelope that `reply` makes, sent by `from` at `start`, due at `end`.
pub open spec fn reply_envelopes<N: GossipNode>(
    from: u128,
    reply: Option<(u128, GossipMsg<N>)>,
    start: u64,
    end: u64,
) -> Seq<GossipSimulatorMessage<N>> {
    match reply {
        Some((to, msg)) => seq![GossipSimulatorMessage { from_id: from, to_id: to, msg, start, end }],
        None => Seq::empty(),
    }
}

/// `s1` is the client list `s0` once a client whose id is the recipient of `m`
/// has received it, answering `reply`; the other clients are unchanged.
pub open spec fn delivery_step<N: GossipNode>(
    ids: Seq<u128>,
    s0: Seq<GossipProtocolClient<N>>,
    s1: Seq<GossipProtocolClient<N>>,
    m: GossipSimulatorMessage<N>,
    reply: Option<(u128, GossipMsg<N>)>,
) -> bool {
    &&& s1.len() == s0.len()
    &&& exists|idx: int|
        0 <= idx < s0.len() && ids[idx] == m.to_id && #[trigger] received(
            s0[idx],
            s1[idx],
            m.from_id,
            m.msg,
            reply,
        ) && forall|j: int| 0 <= j < s0.len() && j != idx ==> s1[j] == s0[j]
}

/// The answers queued while the envelopes of `q` were handed over in order,
/// `reps[x]` answering `q[x]`, all sent at `start` and due at `end`.
pub open spec fn all_replies<N: GossipNode>(
    q: Seq<GossipSimulatorMessage<N>>,
    reps: Seq<Option<(u128, GossipMsg<N>)>>,
    start: u64,
    end: u64,
) -> Seq<GossipSimulatorMessage<N>>
    decreases reps.len(),
{
    if reps.len() == 0 {
        Seq::empty()
    } else {
        all_replies(q, reps.drop_last(), start, end) + reply_envelopes(
            q[reps.len() - 1].to_id,
            reps.last(),
            start,
            end,
        )
    }
}

/// The envelopes of `q` were handed over in order: `states[x]` is the client list
/// before the `x`-th, which its recipient received answering `reps[x]`.
pub open spec fn delivery_chain<N: GossipNode>(
    ids: Seq<u128>,
    q: Seq<GossipSimulatorMessage<N>>,
    states: Seq<Seq<GossipProtocolClient<N>>>,
    reps: Seq<Option<(u128, GossipMsg<N>)>>,
) -> bool {
    &&& states.len() == q.len() + 1
    &&& reps.len() == q.len()
    &&& forall|x: int|
        0 <= x < q.len() ==> #[trigger] delivery_step(ids, states[x], states[x + 1], q[x], reps[x])
}

/// `after` is `before` once the envelopes of `q` were handed over in order, as
/// `states` and `reps` record, and their answers queued, sent now.
pub open spec fn delivered_all<N: GossipNode>(
    before: GossipSimulator<N>,
    after: GossipSimulator<N>,
    q: Seq<GossipSimulatorMessage<N>>,
    states: Seq<Seq<GossipProtocolClient<N>>>,
    reps: Seq<Option<(u128, GossipMsg<N>)>>,
) -> bool {
    &&& delivery_chain(before.ids(), q, states, reps)
    &&& states[0] == before.clients_view()
    &&& states[q.len() as int] == after.clients_view()
    &&& after.queue() == before.queue() + all_replies(
        q,
        reps,
        before.now(),
        (before.now() + before.settings().message_delay) as u64,
    )
}

/// `after` is `before` once the envelope `m` was handed to its recipient, which
/// answered `reply`; the answer, if any, is queued, sent now.
pub open spec fn delivered<N: GossipNode>(
    before: GossipSimulator<N>,
    after: GossipSimulator<N>,
    m: GossipSimulatorMessage<N>,
    reply: Option<(u128, GossipMsg<N>)>,
) -> bool {
    &&& delivery_step(before.ids(), before.clients_view(), after.clients_view(), m, reply)
    &&& after.queue() == before.queue() + reply_envelopes(
        m.to_id,
        reply,
        before.now(),
        (before.now() + before.settings().message_delay) as u64,
    )
}

/// What a tick did to the simulator `before`, giving `after`: the first `n`
/// envelopes of the queue were due and left it; the clients fired in `order` (the
/// firing order of the old timers at the new time), the `k`-th pushing `outs[k]`;
/// the queue is the envelopes not yet due, in order, then those pushes, then the
/// answers to the deliveries (`replies`, all sent now). A client that no due
/// envelope was addressed to is unchanged. The due envelopes were handed over in
/// queue order: `states[x]` is the client list before the `x`-th, which its
/// recipient received answering `reps[x]`, and `replies` are those answers.
pub open spec fn tick_outcome<N: GossipNode>(
    before: GossipSimulator<N>,
    after: GossipSimulator<N>,
    n: int,
    order: Seq<usize>,
    outs: Seq<Seq<(u128, GossipMsg<N>)>>,
    replies: Seq<GossipSimulatorMessage<N>>,
    states: Seq<Seq<GossipProtocolClient<N>>>,
    reps: Seq<Option<(u128, GossipMsg<N>)>>,
) -> bool {
    let now = after.now();
    let q = before.queue();
    &&& 0 <= n <= q.len()
    &&& forall|x: int| 0 <= x < n ==> (#[trigger] q[x]).end <= now
    &&& forall|x: int| n <= x < q.len() ==> (#[trigger] q[x]).end > now
    &&& is_fire_order(before.timers(), now, order)
    &&& outs.len() == order.len()
    &&& forall|k: int|
        0 <= k < order.len() ==> #[trigger] fired_pushes(
            before.clients_view()[order[k] as int],
            before.ids(),
            outs[k],
        )
    &&& forall|r: int| 0 <= r < replies.len() ==> (#[trigger] replies[r]).start == now
    &&& after.queue() == q.subrange(n, q.len() as int) + timer_sends(
        before.ids(),
        order,
        outs,
        now,
        (now + before.settings().message_delay) as u64,
    ) + replies
    &&& forall|j: int|
        0 <= j < before.clients_view().len() && (forall|x: int|
            0 <= x < n ==> (#[trigger] q[x]).to_id != before.ids()[j]) ==> (
        #[trigger] after.clients_view()[j]) == before.clients_view()[j]
    &&& delivery_chain(before.ids(), q.subrange(0, n), states, reps)
    &&& states[0] == before.clients_view()
    &&& states[n] == after.clients_view()
    &&& replies == all_replies(q.subrange(0, n), reps, now, (now + before.settings().message_delay) as u64)
}

/// A deterministic simulation of a set of clients: simulated time, a timer per
/// client, and a queue of envelopes in flight.
pub struct GossipSimulator<N: GossipNode> {
    clients: Vec<GossipProtocolClient<N>>,
    node_ids: Vec<u128>,
    client_timers: Vec<(u64, u64)>,
    time: u64,
    messages: Vec<GossipSimulatorMessage<N>>,
    options: GossipSimulatorOptions,
    rng: rand::rngs::StdRng,
}

impl<N: GossipNode> GossipSimulator<N> {
    pub closed spec fn clients_view(&self) -> Seq<GossipProtocolClient<N>> {
        self.clients@
    }

    pub closed spec fn ids(&self) -> Seq<u128> {
        self.node_ids@
    }

    pub closed spec fn timers(&self) -> Seq<(u64, u64)> {
        self.client_timers@
    }

    pub closed spec fn now(&self) -> u64 {
        self.time
    }

    pub closed spec fn queue(&self) -> Seq<GossipSimulatorMessage<N>> {
        self.messages@
    }

    pub closed spec fn settings(&self) -> GossipSimulatorOptions {
        self.options
    }

    /// The ids are the clients' own, in client order.
    pub open spec fn ids_are_clients(&self) -> bool {
        &&& self.ids().len() == self.clients_view().len()
        &&& forall|i: int|
            0 <= i < self.ids().len() ==> (#[trigger] self.clients_view()[i]).node.gossip_id()
                == self.ids()[i]
    }

    /// The simulator's invariant: one id and one timer per client, the ids being
    /// the clients' own; every envelope in flight between known ids, sent no
    /// later than now, due one delay after it was sent, and queued in order of
    /// the time it is due.
    pub closed spec fn wf(&self) -> bool {
        &&& self.clients@.len() == self.node_ids@.len()
        &&& self.client_timers@.len() == self.node_ids@.len()
        &&& forall|i: int|
            0 <= i < self.clients@.len() ==> (#[trigger] self.clients@[i]).node.gossip_id()
                == self.node_ids@[i]
        &&& forall|i: int|
            0 <= i < self.messages@.len() ==> {
                &&& (#[trigger] self.messages@[i]).start <= self.time
                &&& self.messages@[i].end == self.messages@[i].start + self.options.message_delay
                &&& self.node_ids@.contains(self.messages@[i].from_id)
                &&& self.node_ids@.contains(self.messages@[i].to_id)
            }
        &&& forall|i: int, j: int|
            0 <= i < j < self.messages@.len() ==> (#[trigger] self.messages@[i]).end
                <= (#[trigger] self.messages@[j]).end
        &&& self.options.client_timer_random <= self.options.client_timer
    }

    /// A timer started at `current_time` whose period is drawn from
    /// `[client_timer - client_timer_random, client_timer + client_timer_random)`
    /// (exactly `client_timer` when the jitter is 0).
    pub fn generate_client_timer(
        options: &GossipSimulatorOptions,
        rng: &mut rand::rngs::StdRng,
        current_time: u64,
    ) -> (r: (u64, u64))
        requires
            options.client_timer_random <= options.client_timer,
            current_time + options.client_timer + options.client_timer_random <= u64::MAX,
        ensures
            r.0 == current_time,
            current_time + options.client_timer - options.client_timer_random <= r.1,
            r.1 <= current_time + options.client_timer + options.client_timer_random,
            options.client_timer_random > 0 ==> r.1 < current_time + options.client_timer
                + options.client_timer_random,
            in_window(*options, current_time, r),
    {
        let period = if options.client_timer_random == 0 {
            options.client_timer
        } else {
            draw_in_range(
                rng,
                options.client_timer - options.client_timer_random,
                options.client_timer + options.client_timer_random,
            )
        };
        (current_time, current_time + period)
    }

    /// A simulator at time 0 over `clients`, whose random draws come from `seed`,
    /// with nothing in flight and every timer started at 0.
    pub fn new(
        clients: Vec<GossipProtocolClient<N>>,
        options: GossipSimulatorOptions,
        seed: u64,
    ) -> (r: GossipSimulator<N>)
        requires
            clients@.len() > 0,
            options.client_timer_random <= options.client_timer,
            options.client_timer + options.client_timer_random <= u64::MAX,
        ensures
            r.wf(),
            r.now() == 0,
            r.queue().len() == 0,
            r.settings() == options,
            r.clients_view() == clients@,
            r.ids_are_clients(),
            r.timers().len() == clients@.len(),
            forall|i: int| 0 <= i < r.timers().len() ==> in_window(options, 0, #[trigger] r.timers()[i]),
    {
        let mut rng = seeded_rng(seed);
        let mut node_ids: Vec<u128> = Vec::new();
        let mut client_timers: Vec<(u64, u64)> = Vec::new();
        let mut i: usize = 0;
        while i < clients.len()
            invariant
                i <= clients@.len(),
                node_ids@.len() == i,
                client_timers@.len() == i,
                options.client_timer_random <= options.client_timer,
                options.client_timer + options.client_timer_random <= u64::MAX,
                forall|k: int| 0 <= k < i ==> (#[trigger] node_ids@[k]) == clients@[k].node.gossip_id(),
                forall|k: int| 0 <= k < i ==> in_window(options, 0, #[trigger] client_timers@[k]),
            decreases clients@.len() - i,
        {
            node_ids.push(clients[i].id());
            client_timers.push(Self::generate_client_timer(&options, &mut rng, 0));
            i += 1;
        }
        GossipSimulator {
            clients,
            node_ids,
            client_timers,
            time: 0,
            messages: Vec::new(),
            options,
            rng,
        }
    }

    /// The ids of every client, in client order (the sender included).
    pub fn reachable_node_ids(&self) -> (r: &Vec<u128>)
        ensures
            r@ == self.ids(),
    {
        &self.node_ids
    }

    /// The current simulated time.
    pub fn time(&self) -> (r: u64)
        ensures
            r == self.now(),
    {
        self.time
    }

    /// The simulator's settings.
    pub fn options(&self) -> (r: GossipSimulatorOptions)
        ensures
            r == self.settings(),
    {
        self.options
    }

    /// The clients, in order.
    pub fn clients(&self) -> (r: &Vec<GossipProtocolClient<N>>)
        ensures
            r@ == self.clients_view(),
    {
        &self.clients
    }

    /// The envelopes in flight, in queue order.
    pub fn messages(&self) -> (r: &Vec<GossipSimulatorMessage<N>>)
        ensures
            r@ == self.queue(),
    {
        &self.messages
    }

    /// The index of the client with id `id`, if any.
    pub fn index_of(&self, id: u128) -> (r: Option<usize>)
        ensures
            match r {
                Some(i) => i < self.ids().len() && self.ids()[i as int] == id,
                None => !self.ids().contains(id),
            },
    {
        let mut i: usize = 0;
        while i < self.node_ids.len()
            invariant
                i <= self.node_ids@.len(),
                forall|k: int| 0 <= k < i ==> self.node_ids@[k] != id,
            decreases self.node_ids@.len() - i,
        {
            if self.node_ids[i] == id {
                return Some(i);
            }
            i += 1;
        }
        None
    }

    /// Queues `msg` from `from_id` to `to_id`, sent now and due one delay later.
    pub fn send(&mut self, from_id: u128, to_id: u128, msg: GossipMsg<N>)
        requires
            old(self).wf(),
            old(self).ids().contains(from_id),
            old(self).ids().contains(to_id),
            old(self).now() + old(self).settings().message_delay <= u64::MAX,
        ensures
            final(self).wf(),
            final(self).queue() == old(self).queue().push(
                GossipSimulatorMessage {
                    from_id,
                    to_id,
                    msg,
                    start: old(self).now(),
                    end: (old(self).now() + old(self).settings().message_delay) as u64,
                },
            ),
            final(self).clients_view() == old(self).clients_view(),
            final(self).ids() == old(self).ids(),
            final(self).timers() == old(self).timers(),
            final(self).now() == old(self).now(),
            final(self).settings() == old(self).settings(),
    {
        let end = self.time + self.options.message_delay;
        self.messages.push(GossipSimulatorMessage { from_id, to_id, msg, start: self.time, end });
    }

    /// Queues each envelope of `out` from `from_id`, in order.
    fn send_all(&mut self, from_id: u128, out: Vec<(u128, GossipMsg<N>)>)
        requires
            old(self).wf(),
            old(self).ids().contains(from_id),
            forall|k: int| 0 <= k < out@.len() ==> old(self).ids().contains(#[trigger] out@[k].0),
            old(self).now() + old(self).settings().message_delay <= u64::MAX,
        ensures
            final(self).wf(),
            final(self).queue() == old(self).queue() + envelopes_from(
                from_id,
                out@,
                old(self).now(),
                (old(self).now() + old(self).settings().message_delay) as u64,
            ),
            final(self).clients_view() == old(self).clients_view(),
            final(self).ids() == old(self).ids(),
            final(self).timers() == old(self).timers(),
            final(self).now() == old(self).now(),
            final(self).settings() == old(self).settings(),
    {
        let ghost all = out@;
        let ghost end = (self.now() + self.settings().message_delay) as u64;
        let mut out = out;
        let total = out.len();
        let mut k: usize = 0;
        while out.len() > 0
            invariant
                all.len() == total,
                self.wf(),
                self.ids().contains(from_id),
                k + out@.len() == all.len(),
                out@ == all.subrange(k as int, all.len() as int),
                forall|q: int| 0 <= q < all.len() ==> self.ids().contains(#[trigger] all[q].0),
                self.now() + self.settings().message_delay <= u64::MAX,
                end == self.now() + self.settings().message_delay,
                self.queue() == old(self).queue() + envelopes_from(
                    from_id,
                    all.subrange(0, k as int),
                    self.now(),
                    end,
                ),
                self.clients_view() == old(self).clients_view(),
                self.ids() == old(self).ids(),
                self.timers() == old(self).timers(),
                self.now() == old(self).now(),
                self.settings() == old(self).settings(),
            decreases out@.len(),
        {
            let (to_id, msg) = out.remove(0);
            assert(all[k as int] == (to_id, msg));
            self.send(from_id, to_id, msg);
            assert(envelopes_from(from_id, all.subrange(0, k + 1), self.now(), end) =~= envelopes_from(
                from_id,
                all.subrange(0, k as int),
                self.now(),
                end,
            ).push(
                GossipSimulatorMessage { from_id, to_id, msg: all[k as int].1, start: self.now(), end },
            ));
            assert(out@ =~= all.subrange(k + 1, all.len() as int));
            k += 1;
        }
        assert(all.subrange(0, k as int) =~= all);
    }

    /// Hands the envelope `m` to its recipient and queues the answer, if any.
    fn deliver(&mut self, m: GossipSimulatorMessage<N>)
        requires
            old(self).wf(),
            old(self).ids().contains(m.from_id),
            old(self).ids().contains(m.to_id),
            old(self).now() + old(self).settings().message_delay <= u64::MAX,
        ensures
            final(self).wf(),
            exists|reply: Option<(u128, GossipMsg<N>)>| #[trigger] delivered(*old(self), *final(self), m, reply),
            final(self).clients_view().len() == old(self).clients_view().len(),
            forall|j: int|
                0 <= j < old(self).ids().len() && old(self).ids()[j] != m.to_id ==> (
                #[trigger] final(self).clients_view()[j]) == old(self).clients_view()[j],
            final(self).ids() == old(self).ids(),
            final(self).timers() == old(self).timers(),
            final(self).now() == old(self).now(),
            final(self).settings() == old(self).settings(),
    {
        let ghost m0 = m;
        if let Some(idx) = self.index_of(m.to_id) {
            let ghost c0 = self.clients@;
            let reply = self.clients[idx].on_receive(m.from_id, m.msg);
            let ghost rep = reply;
            assert(received(c0[idx as int], self.clients@[idx as int], m0.from_id, m0.msg, rep));
            assert forall|i: int| 0 <= i < self.clients@.len() implies (
            #[trigger] self.clients@[i]).node.gossip_id() == self.node_ids@[i] by {
                if i != idx {
                    assert(self.clients@[i] == old(self).clients@[i]);
                }
            }
            if let Some((to_id, msg)) = reply {
                self.send(m.to_id, to_id, msg);
            }
            assert(self.messages@ =~= old(self).messages@ + reply_envelopes(
                m0.to_id,
                rep,
                old(self).now(),
                (old(self).now() + old(self).settings().message_delay) as u64,
            ));
            assert(delivery_step(old(self).ids(), old(self).clients_view(), self.clients_view(), m0, rep));
            assert(delivered(*old(self), *self, m0, rep));
        }
    }
    /// Hands each envelope of `arrived` to its recipient, in order, queueing the
    /// answers.
    #[verifier::loop_isolation(false)]
    fn deliver_all(&mut self, arrived: Vec<GossipSimulatorMessage<N>>)
        requires
            old(self).wf(),
            forall|q: int|
                0 <= q < arrived@.len() ==> old(self).ids().contains((#[trigger] arrived@[q]).from_id)
                    && old(self).ids().contains(arrived@[q].to_id),
            old(self).now() + old(self).settings().message_delay <= u64::MAX,
        ensures
            final(self).wf(),
            final(self).ids() == old(self).ids(),
            final(self).timers() == old(self).timers(),
            final(self).now() == old(self).now(),
            final(self).settings() == old(self).settings(),
            final(self).clients_view().len() == old(self).clients_view().len(),
            exists|states: Seq<Seq<GossipProtocolClient<N>>>, reps: Seq<Option<(u128, GossipMsg<N>)>>|
                #[trigger] delivered_all(*old(self), *final(self), arrived@, states, reps),
            forall|j: int|
                0 <= j < old(self).clients_view().len() && (forall|x: int|
                    0 <= x < arrived@.len() ==> (#[trigger] arrived@[x]).to_id != old(self).ids()[j]) ==> (
                #[trigger] final(self).clients_view()[j]) == old(self).clients_view()[j],
    {
        let ghost q0 = arrived@;
        let ghost end = (self.time + self.options.message_delay) as u64;
        let ghost base = self.messages@;
        let mut arrived = arrived;
        let ghost mut d: int = 0;
        let ghost mut states: Seq<Seq<GossipProtocolClient<N>>> = seq![self.clients@];
        let ghost mut reps: Seq<Option<(u128, GossipMsg<N>)>> = Seq::empty();
        assert(self.messages@ =~= base + all_replies(q0, reps, self.time, end));
        while arrived.len() > 0
            invariant
                self.wf(),
                0 <= d <= q0.len(),
                arrived@ == q0.subrange(d, q0.len() as int),
                states.len() == d + 1,
                reps.len() == d,
                states[0] == old(self).clients@,
                states[d] == self.clients@,
                forall|x: int|
                    0 <= x < d ==> #[trigger] delivery_step(
                        old(self).ids(),
                        states[x],
                        states[x + 1],
                        q0[x],
                        reps[x],
                    ),
                end == self.time + self.options.message_delay,
                self.messages@ == base + all_replies(q0, reps, self.time, end),
                self.now() == old(self).now(),
                self.ids() == old(self).ids(),
                self.client_timers@ == old(self).client_timers@,
                self.settings() == old(self).settings(),
                self.clients@.len() == old(self).clients@.len(),
                forall|j: int|
                    0 <= j < self.clients@.len() && (forall|x: int|
                        0 <= x < d ==> (#[trigger] q0[x]).to_id != self.node_ids@[j]) ==> (
                    #[trigger] self.clients@[j]) == old(self).clients@[j],
            decreases arrived@.len(),
        {
            let m = arrived.remove(0);
            assert(m == q0[d]);
            assert(arrived@ =~= q0.subrange(d + 1, q0.len() as int));
            let ghost clients0 = self.clients@;
            let ghost pre = *self;
            self.deliver(m);
            let ghost rep = choose|rep: Option<(u128, GossipMsg<N>)>| #[trigger] delivered(pre, *self, q0[d], rep);
            proof {
                let reps2 = reps.push(rep);
                assert(reps2.drop_last() =~= reps);
                assert(self.messages@ =~= base + all_replies(q0, reps2, self.time, end));
                let states2 = states.push(self.clients@);
                assert forall|x: int| 0 <= x < d + 1 implies #[trigger] delivery_step(
                    old(self).ids(),
                    states2[x],
                    states2[x + 1],
                    q0[x],
                    reps2[x],
                ) by {
                    if x < d {
                        assert(states2[x] == states[x] && states2[x + 1] == states[x + 1] && reps2[x] == reps[x]);
                    }
                }
                assert forall|j: int|
                    0 <= j < self.clients@.len() && (forall|x: int|
                        0 <= x < d + 1 ==> (#[trigger] q0[x]).to_id != self.node_ids@[j]) implies (
                #[trigger] self.clients@[j]) == old(self).clients@[j] by {
                    assert(q0[d].to_id != self.node_ids@[j]);
                    assert(self.clients@[j] == clients0[j]);
                }
                states = states2;
                reps = reps2;
                d = d + 1;
            }
        }
        assert(delivered_all(*old(self), *self, q0, states, reps));
    }

    /// Advances simulated time by `dt`. First every client whose timer is due
    /// fires, by deadline and then by index, and gets a new timer started now;
    /// then every envelope of the queue that was due by now leaves it and is handed
    /// over, by due time and then by queue order. What is sent meanwhile is queued,
    /// sent now, and waits for a later tick.
    #[verifier::loop_isolation(false)]
    pub fn tick(&mut self, dt: u64)
        requires
            old(self).wf(),
            old(self).now() + dt + old(self).settings().message_delay
                + old(self).settings().client_timer + old(self).settings().client_timer_random
                <= u64::MAX,
        ensures
            final(self).wf(),
            final(self).ids_are_clients(),
            final(self).now() == old(self).now() + dt,
            final(self).ids() == old(self).ids(),
            final(self).settings() == old(self).settings(),
            final(self).clients_view().len() == old(self).clients_view().len(),
            forall|i: int|
                0 <= i < final(self).timers().len() ==> if old(self).timers()[i].1 <= final(self).now() {
                    in_window(old(self).settings(), final(self).now(), #[trigger] final(self).timers()[i])
                } else {
                    final(self).timers()[i] == old(self).timers()[i]
                },
            exists|
                n: int,
                order: Seq<usize>,
                outs: Seq<Seq<(u128, GossipMsg<N>)>>,
                replies: Seq<GossipSimulatorMessage<N>>,
                states: Seq<Seq<GossipProtocolClient<N>>>,
                reps: Seq<Option<(u128, GossipMsg<N>)>>,
            | #[trigger] tick_outcome(*old(self), *final(self), n, order, outs, replies, states, reps),
    {
        self.time = self.time + dt;
        let ghost q0 = self.messages@;
        let ghost end = (self.time + self.options.message_delay) as u64;
        let mut n: usize = 0;
        while n < self.messages.len() && self.messages[n].end <= self.time
            invariant
                n <= self.messages@.len(),
                forall|q: int| 0 <= q < n ==> (#[trigger] self.messages@[q]).end <= self.time,
            decreases self.messages@.len() - n,
        {
            n += 1;
        }
        assert forall|q: int| n <= q < q0.len() implies (#[trigger] q0[q]).end > self.time by {
            if q > n {
                assert(q0[n as int].end <= q0[q].end);
            }
        }
        let ghost timers0 = self.client_timers@;
        let order = fire_order(&self.client_timers, self.time);
        let ghost mut outs: Seq<Seq<(u128, GossipMsg<N>)>> = Seq::empty();
        let mut k: usize = 0;
        while k < order.len()
            invariant
                self.wf(),
                k <= order@.len(),
                outs.len() == k,
                self.now() == old(self).now() + dt,
                self.ids() == old(self).ids(),
                self.settings() == old(self).settings(),
                self.clients@ == old(self).clients@,
                self.client_timers@.len() == timers0.len(),
                end == self.time + self.options.message_delay,
                self.messages@ == q0 + timer_sends(old(self).ids(), order@, outs, self.time, end),
                forall|x: int|
                    0 <= x < k ==> #[trigger] fired_pushes(
                        old(self).clients_view()[order@[x] as int],
                        old(self).ids(),
                        outs[x],
                    ),
                forall|j: usize|
                    j < timers0.len() ==> if exists|x: int| 0 <= x < k && #[trigger] order@[x] == j {
                        in_window(self.options, self.time, #[trigger] self.client_timers@[j as int])
                    } else {
                        self.client_timers@[j as int] == timers0[j as int]
                    },
            decreases order@.len() - k,
        {
            let i = order[k];
            let out = self.clients[i].on_send(&self.node_ids, &mut self.rng);
            let ghost sent = out@;
            let from = self.node_ids[i];
            self.send_all(from, out);
            proof {
                let outs2 = outs.push(sent);
                assert(outs2.drop_last() =~= outs);
                assert(timer_sends(old(self).ids(), order@, outs2, self.time, end) == timer_sends(
                    old(self).ids(),
                    order@,
                    outs,
                    self.time,
                    end,
                ) + envelopes_from(old(self).ids()[i as int], sent, self.time, end));
                assert(self.messages@ =~= q0 + timer_sends(old(self).ids(), order@, outs2, self.time, end));
                outs = outs2;
            }
            let timer = Self::generate_client_timer(&self.options, &mut self.rng, self.time);
            self.client_timers.set(i, timer);
            assert forall|j: usize|
                j < timers0.len() implies if exists|x: int| 0 <= x < k + 1 && #[trigger] order@[x] == j {
                in_window(self.options, self.time, #[trigger] self.client_timers@[j as int])
            } else {
                self.client_timers@[j as int] == timers0[j as int]
            } by {
                if j == i {
                    assert(order@[k as int] == i);
                } else if exists|x: int| 0 <= x < k + 1 && #[trigger] order@[x] == j {
                    let x = choose|x: int| 0 <= x < k + 1 && #[trigger] order@[x] == j;
                    assert(x < k);
                }
            }
            k += 1;
        }
        let timer_count = self.client_timers.len();
        assert forall|j: int| 0 <= j < self.client_timers@.len() implies if timers0[j].1 <= self.time {
            in_window(self.options, self.time, #[trigger] self.client_timers@[j])
        } else {
            self.client_timers@[j] == timers0[j]
        } by {
            let ju = j as usize;
            assert(ju as int == j);
            if timers0[j].1 <= self.time {
                assert(order@.contains(ju));
                let x = choose|x: int| 0 <= x < order@.len() && order@[x] == ju;
                assert(order@[x] == ju);
            } else if exists|x: int| 0 <= x < order@.len() && #[trigger] order@[x] == ju {
                let x = choose|x: int| 0 <= x < order@.len() && #[trigger] order@[x] == ju;
                assert(order@.contains(ju));
            }
        }
        let ghost sends = timer_sends(old(self).ids(), order@, outs, self.time, end);
        let ghost base = q0.subrange(n as int, q0.len() as int) + sends;
        let mut arrived = self.messages.split_off(n);
        std::mem::swap(&mut arrived, &mut self.messages);
        assert(self.messages@ =~= base);
        assert(arrived@ =~= q0.subrange(0, n as int));
        let ghost mid = *self;
        assert forall|q: int| 0 <= q < arrived@.len() implies self.ids().contains((#[trigger] arrived@[q]).from_id)
            && self.ids().contains(arrived@[q].to_id) by {
            assert(arrived@[q] == q0[q]);
            assert(old(self).queue().contains(q0[q]));
        }
        self.deliver_all(arrived);
        let ghost (states, reps) = choose|
            states: Seq<Seq<GossipProtocolClient<N>>>,
            reps: Seq<Option<(u128, GossipMsg<N>)>>,
        | #[trigger] delivered_all(mid, *self, q0.subrange(0, n as int), states, reps);
        let ghost replies = all_replies(q0.subrange(0, n as int), reps, self.time, end);
        assert(self.messages@ =~= base + replies);
        assert forall|r: int| 0 <= r < replies.len() implies (#[trigger] replies[r]).start == self.time by {
            lemma_replies_sent_at(q0.subrange(0, n as int), reps, self.time, end);
        }
        assert(tick_outcome(*old(self), *self, n as int, order@, outs, replies, states, reps));
    }

    /// A snapshot: the time, every envelope in flight in queue order, and every
    /// client in order with its node's summary and its timer.
    pub fn debug(&self) -> (r: GossipSimulatorDebug<N>)
        requires
            self.wf(),
        ensures
            self.ids_are_clients(),
            r.time == self.now(),
            r.messages@.len() == self.queue().len(),
            forall|k: int|
                0 <= k < r.messages@.len() ==> shows_message(
                    #[trigger] r.messages@[k],
                    self.queue()[k],
                ),
            r.clients@.len() == self.clients_view().len(),
            forall|k: int|
                0 <= k < r.clients@.len() ==> {
                    &&& (#[trigger] r.clients@[k]).id == self.ids()[k]
                    &&& self.clients_view()[k].node.prepared(r.clients@[k].summary)
                    &&& r.clients@[k].timer_start == self.timers()[k].0
                    &&& r.clients@[k].timer_end == self.timers()[k].1
                },
    {
        let mut messages: Vec<GossipSimulatorMessageDebug> = Vec::new();
        let mut k: usize = 0;
        while k < self.messages.len()
            invariant
                k <= self.messages@.len(),
                messages@.len() == k,
                forall|q: int|
                    0 <= q < k ==> shows_message(#[trigger] messages@[q], self.messages@[q]),
            decreases self.messages@.len() - k,
        {
            let m = &self.messages[k];
            messages.push(
                GossipSimulatorMessageDebug {
                    from: m.from_id,
                    to: m.to_id,
                    start: m.start,
                    end: m.end,
                    kind: m.msg.kind(),
                },
            );
            k += 1;
        }
        let mut clients: Vec<GossipSimulatorClientDebug<N>> = Vec::new();
        let mut c: usize = 0;
        while c < self.clients.len()
            invariant
                self.wf(),
                c <= self.clients@.len(),
                clients@.len() == c,
                forall|q: int|
                    0 <= q < c ==> {
                        &&& (#[trigger] clients@[q]).id == self.node_ids@[q]
                        &&& self.clients@[q].node.prepared(clients@[q].summary)
                        &&& clients@[q].timer_start == self.client_timers@[q].0
                        &&& clients@[q].timer_end == self.client_timers@[q].1
                    },
            decreases self.clients@.len() - c,
        {
            let timer = self.client_timers[c];
            clients.push(
                GossipSimulatorClientDebug {
                    id: self.clients[c].id(),
                    summary: self.clients[c].node.prepare(),
                    timer_start: timer.0,
                    timer_end: timer.1,
                },
            );
            c += 1;
        }
        GossipSimulatorDebug { time: self.time, messages, clients }
    }

    /// A client drawn at random pushes its summary now, as if its timer fired;
    /// its envelopes are queued.
    pub fn round(&mut self)
        requires
            old(self).wf(),
            old(self).now() + old(self).settings().message_delay <= u64::MAX,
        ensures
            final(self).wf(),
            final(self).clients_view() == old(self).clients_view(),
            final(self).ids() == old(self).ids(),
            final(self).timers() == old(self).timers(),
            final(self).now() == old(self).now(),
            final(self).settings() == old(self).settings(),
            old(self).queue().len() <= final(self).queue().len(),
            final(self).ids_are_clients(),
            old(self).ids().len() > 0 ==> exists|i: int, out: Seq<(u128, GossipMsg<N>)>|
                0 <= i < old(self).ids().len() && #[trigger] fired_pushes(
                    old(self).clients_view()[i],
                    old(self).ids(),
                    out,
                ) && final(self).queue() == old(self).queue() + envelopes_from(
                    old(self).ids()[i],
                    out,
                    old(self).now(),
                    (old(self).now() + old(self).settings().message_delay) as u64,
                ),
    {
        let n = self.clients.len();
        if n == 0 {
            return;
        }
        let i = draw_in_range(&mut self.rng, 0, n as u64) as usize;
        let out = self.clients[i].on_send(&self.node_ids, &mut self.rng);
        let ghost sent = out@;
        let from = self.node_ids[i];
        self.send_all(from, out);
        assert(fired_pushes(old(self).clients_view()[i as int], old(self).ids(), sent));
    }
}

impl GossipSimulator<KvNode> {
    /// Writes `value` under `key` on the client with id `id`.
    pub fn set_kv(&mut self, id: u128, key: String, value: String)
        requires
            old(self).wf(),
            old(self).ids().contains(id),
        ensures
            final(self).wf(),
            final(self).ids_are_clients(),
            final(self).ids() == old(self).ids(),
            final(self).timers() == old(self).timers(),
            final(self).now() == old(self).now(),
            final(self).settings() == old(self).settings(),
            final(self).queue() == old(self).queue(),
            final(self).clients_view().len() == old(self).clients_view().len(),
            exists|i: int|
                0 <= i < old(self).ids().len() && old(self).ids()[i] == id && update_spec(
                    old(self).clients_view()[i].node,
                    #[trigger] final(self).clients_view()[i].node,
                    key@,
                    value@,
                ) && forall|j: int|
                    0 <= j < old(self).ids().len() && j != i ==> final(self).clients_view()[j]
                        == old(self).clients_view()[j],
    {
        if let Some(idx) = self.index_of(id) {
            self.clients[idx].update(key, value);
            assert forall|i: int| 0 <= i < self.clients@.len() implies (
            #[trigger] self.clients@[i]).node.gossip_id() == self.node_ids@[i] by {
                if i != idx {
                    assert(self.clients@[i] == old(self).clients@[i]);
                }
            }
            assert(self.clients_view()[idx as int].node == self.clients@[idx as int].node);
        }
    }
    /// The entries of the node with id `id`, for display; the id must be known.
    pub fn debug_client(&self, id: u128) -> (r: Vec<(String, KvValue)>)
        requires
            self.wf(),
            self.ids().contains(id),
        ensures
            self.ids_are_clients(),
            exists|i: int|
                0 <= i < self.ids().len() && self.ids()[i] == id && shows_entries(
                    r@,
                    #[trigger] self.clients_view()[i].node.contents(),
                ),
    {
        match self.index_of(id) {
            Some(i) => {
                let v = self.clients[i].debug_state();
                assert(self.clients_view()[i as int] == self.clients@[i as int]);
                v
            },
            None => Vec::new(),
        }
    }
}

/// What a client needs of the runtime that carries its envelopes: the ids of
/// the nodes it can reach, and a way to hand an envelope over.
pub trait GossipRuntime<N: GossipNode> {
    /// Whether an envelope from `from_id` to `to_id` can be handed over now.
    spec fn can_send(&self, from_id: u128, to_id: u128) -> bool;

    fn reachable_node_ids(&self) -> &Vec<u128>;

    fn send(&mut self, from_id: u128, to_id: u128, msg: GossipMsg<N>)
        requires
            old(self).can_send(from_id, to_id),
    ;
}

impl<N: GossipNode> GossipRuntime<N> for GossipSimulator<N> {
    open spec fn can_send(&self, from_id: u128, to_id: u128) -> bool {
        &&& self.wf()
        &&& self.ids().contains(from_id)
        &&& self.ids().contains(to_id)
        &&& self.now() + self.settings().message_delay <= u64::MAX
    }

    fn reachable_node_ids(&self) -> &Vec<u128> {
        GossipSimulator::reachable_node_ids(self)
    }

    fn send(&mut self, from_id: u128, to_id: u128, msg: GossipMsg<N>) {
        GossipSimulator::send(self, from_id, to_id, msg)
    }
}

/// Every answer queued while envelopes are handed over is sent at `start`.
proof fn lemma_replies_sent_at<N: GossipNode>(
    q: Seq<GossipSimulatorMessage<N>>,
    reps: Seq<Option<(u128, GossipMsg<N>)>>,
    start: u64,
    end: u64,
)
    ensures
        forall|r: int| 0 <= r < all_replies(q, reps, start, end).len() ==> (#[trigger] all_replies(q, reps, start, end)[r]).start == start,
    decreases reps.len(),
{
    if reps.len() > 0 {
        lemma_replies_sent_at(q, reps.drop_last(), start, end);
    }
}

} // verus!
