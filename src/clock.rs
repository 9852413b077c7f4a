use vstd::prelude::*;

verus! {

/// The larger of two counters.
pub open spec fn max_nat(x: nat, y: nat) -> nat {
    if x >= y {
        x
    } else {
        y
    }
}

/// The join of two clocks: each actor counts as far as the further of the two.
pub open spec fn clock_join(c: Map<u128, u64>, d: Map<u128, u64>) -> Map<u128, u64> {
    Map::new(
        |a: u128| c.contains_key(a) || count_of(d, a) > 0,
        |a: u128| max_nat(count_of(c, a), count_of(d, a)) as u64,
    )
}

/// One event of one actor: the actor's id and the counter it reached.
#[derive(Clone, Copy, Debug, PartialEq, Eq, Structural)]
pub struct Dot {
    pub actor: u128,
    pub counter: u64,
}

/// The counter that a clock gives an actor; an actor that is absent counts 0.
pub open spec fn count_of(c: Map<u128, u64>, a: u128) -> nat {
    if c.contains_key(a) {
        c[a] as nat
    } else {
        0
    }
}

/// `a` is causally at or before `b`: no actor counts further in `a` than in `b`.
pub open spec fn clock_le(a: Map<u128, u64>, b: Map<u128, u64>) -> bool {
    forall|x: u128| #[trigger] count_of(a, x) <= count_of(b, x)
}

/// `a` strictly follows `b`.
pub open spec fn clock_gt(a: Map<u128, u64>, b: Map<u128, u64>) -> bool {
    clock_le(b, a) && !clock_le(a, b)
}

/// Neither clock is at or before the other.
pub open spec fn clock_concurrent(a: Map<u128, u64>, b: Map<u128, u64>) -> bool {
    !clock_le(a, b) && !clock_le(b, a)
}

/// The clock after it has observed the dot `d`: the actor's counter is raised to
/// the dot's when the dot is newer, and nothing changes otherwise.
pub open spec fn clock_with_dot(c: Map<u128, u64>, d: Dot) -> Map<u128, u64> {
    if count_of(c, d.actor) < d.counter {
        c.insert(d.actor, d.counter)
    } else {
        c
    }
}

/// `entries` lists the actors of `model`, each once, with their positive counters.
spec fn entries_match(entries: Seq<Dot>, model: Map<u128, u64>) -> bool {
    &&& forall|i: int, j: int| 0 <= i < j < entries.len() ==> entries[i].actor != entries[j].actor
    &&& forall|i: int|
        0 <= i < entries.len() ==> {
            &&& model.contains_key(#[trigger] entries[i].actor)
            &&& model[entries[i].actor] == entries[i].counter
            &&& entries[i].counter > 0
        }
    &&& forall|a: u128|
        #[trigger] model.contains_key(a) ==> exists|i: int| 0 <= i < entries.len() && entries[i].actor == a
}

/// A vector clock: for each actor the highest counter observed from it.
///
/// Only actors with a positive counter are stored, each once.
pub struct VectorClock {
    entries: Vec<Dot>,
    model: Ghost<Map<u128, u64>>,
}

impl View for VectorClock {
    type V = Map<u128, u64>;

    closed spec fn view(&self) -> Map<u128, u64> {
        self.model@
    }
}

impl VectorClock {
    #[verifier::type_invariant]
    closed spec fn inv(self) -> bool {
        entries_match(self.entries@, self.model@)
    }

    /// The clock that has observed nothing.
    pub fn new() -> (r: VectorClock)
        ensures
            r@ == Map::<u128, u64>::empty(),
    {
        VectorClock { entries: Vec::new(), model: Ghost(Map::empty()) }
    }

    /// The counter of `actor`, 0 when the clock has none.
    #[verifier::loop_isolation(false)]
    pub fn get(&self, actor: u128) -> (r: u64)
        ensures
            r == count_of(self@, actor),
    {
        proof {
            use_type_invariant(self);
        }
        let mut i: usize = 0;
        while i < self.entries.len()
            invariant
                i <= self.entries@.len(),
                forall|k: int| 0 <= k < i ==> self.entries@[k].actor != actor,
            decreases self.entries@.len() - i,
        {
            if self.entries[i].actor == actor {
                assert(self.model@.contains_key(self.entries@[i as int].actor));
                return self.entries[i].counter;
            }
            i += 1;
        }
        0
    }

    /// The dot that the clock holds for `actor` (counter 0 when it has none).
    pub fn dot(&self, actor: u128) -> (r: Dot)
        ensures
            r.actor == actor,
            r.counter == count_of(self@, actor),
    {
        Dot { actor, counter: self.get(actor) }
    }

    /// Whether this clock is at or before `other`.
    #[verifier::loop_isolation(false)]
    pub fn le(&self, other: &VectorClock) -> (r: bool)
        ensures
            r == clock_le(self@, other@),
    {
        proof {
            use_type_invariant(self);
        }
        let mut i: usize = 0;
        while i < self.entries.len()
            invariant
                i <= self.entries@.len(),
                forall|k: int|
                    0 <= k < i ==> self.entries@[k].counter <= count_of(
                        other@,
                        #[trigger] self.entries@[k].actor,
                    ),
            decreases self.entries@.len() - i,
        {
            let e = self.entries[i];
            assert(e == self.entries@[i as int]);
            if other.get(e.actor) < e.counter {
                assert(self.model@.contains_key(self.entries@[i as int].actor));
                assert(count_of(self@, e.actor) > count_of(other@, e.actor));
                return false;
            }
            i += 1;
        }
        assert forall|x: u128| #[trigger] count_of(self@, x) <= count_of(other@, x) by {
            if self@.contains_key(x) {
                let k = choose|k: int| 0 <= k < self.entries@.len() && self.entries@[k].actor == x;
                assert(self.model@.contains_key(self.entries@[k].actor));
            }
        }
        true
    }

    /// Whether this clock strictly follows `other`.
    pub fn gt(&self, other: &VectorClock) -> (r: bool)
        ensures
            r == clock_gt(self@, other@),
    {
        other.le(self) && !self.le(other)
    }

    /// Whether neither clock is at or before the other.
    pub fn concurrent(&self, other: &VectorClock) -> (r: bool)
        ensures
            r == clock_concurrent(self@, other@),
    {
        !self.le(other) && !other.le(self)
    }

    /// Observes the dot `d`: raises the actor's counter to the dot's when the dot is newer.
    #[verifier::loop_isolation(false)]
    pub fn apply(&mut self, d: Dot)
        ensures
            final(self)@ == clock_with_dot(old(self)@, d),
    {
        proof {
            use_type_invariant(&*self);
        }
        let current = self.get(d.actor);
        if current >= d.counter {
            return;
        }
        let ghost before = self.model@;
        let ghost after = before.insert(d.actor, d.counter);
        let mut entries: Vec<Dot> = Vec::new();
        let mut i: usize = 0;
        while i < self.entries.len()
            invariant
                i <= self.entries@.len(),
                entries@.len() == i,
                forall|k: int|
                    0 <= k < i ==> #[trigger] entries@[k] == (if self.entries@[k].actor == d.actor {
                        d
                    } else {
                        self.entries@[k]
                    }),
            decreases self.entries@.len() - i,
        {
            let e = self.entries[i];
            if e.actor == d.actor {
                entries.push(d);
            } else {
                entries.push(e);
            }
            i += 1;
        }
        if current == 0 {
            assert(!before.contains_key(d.actor)) by {
                if before.contains_key(d.actor) {
                    let k = choose|k: int|
                        0 <= k < self.entries@.len() && self.entries@[k].actor == d.actor;
                    assert(self.model@.contains_key(self.entries@[k].actor));
                }
            }
            entries.push(d);
        }
        assert forall|a: u128| #[trigger] after.contains_key(a) implies exists|k: int|
            0 <= k < entries@.len() && entries@[k].actor == a by {
            if a != d.actor {
                let k = choose|k: int| 0 <= k < self.entries@.len() && self.entries@[k].actor == a;
                assert(entries@[k].actor == a);
            } else if current == 0 {
                assert(entries@[self.entries@.len() as int].actor == a);
            } else {
                let k = choose|k: int| 0 <= k < self.entries@.len() && self.entries@[k].actor == a;
                assert(entries@[k].actor == a);
            }
        }
        assert(entries_match(entries@, after));
        *self = VectorClock { entries, model: Ghost(after) };
    }

    /// A copy of this clock.
    #[verifier::loop_isolation(false)]
    pub fn duplicate(&self) -> (r: VectorClock)
        ensures
            r@ == self@,
    {
        proof {
            use_type_invariant(self);
        }
        let mut entries: Vec<Dot> = Vec::new();
        let mut i: usize = 0;
        while i < self.entries.len()
            invariant
                i <= self.entries@.len(),
                entries@ == self.entries@.subrange(0, i as int),
            decreases self.entries@.len() - i,
        {
            entries.push(self.entries[i]);
            i += 1;
        }
        assert(entries@ == self.entries@);
        assert(entries_match(entries@, self.model@));
        VectorClock { entries, model: Ghost(self.model@) }
    }

    /// The stored dots, one per actor with a positive counter.
    pub fn dots(&self) -> (r: Vec<Dot>)
        ensures
            forall|i: int, j: int| 0 <= i < j < r@.len() ==> r@[i].actor != r@[j].actor,
            forall|i: int|
                0 <= i < r@.len() ==> self@.contains_key(#[trigger] r@[i].actor) && self@[r@[i].actor]
                    == r@[i].counter && r@[i].counter > 0,
            forall|a: u128|
                #[trigger] self@.contains_key(a) ==> exists|i: int| 0 <= i < r@.len() && r@[i].actor == a,
    {
        proof {
            use_type_invariant(self);
        }
        let c = self.duplicate();
        proof {
            use_type_invariant(&c);
        }
        c.entries
    }
    /// Joins `other` into this clock: each actor counts as far as the further of the two.
    #[verifier::loop_isolation(false)]
    pub fn merge(&mut self, other: &VectorClock)
        ensures
            final(self)@ == clock_join(old(self)@, other@),
    {
        let dots = other.dots();
        let ghost start = self@;
        let mut i: usize = 0;
        while i < dots.len()
            invariant
                i <= dots@.len(),
                forall|a: u128|
                    #![trigger self@.contains_key(a)]
                    #![trigger count_of(self@, a)]
                    (self@.contains_key(a) == (start.contains_key(a) || exists|j: int|
                        0 <= j < i && dots@[j].actor == a)) && count_of(self@, a) == (if exists|j: int|
                        0 <= j < i && dots@[j].actor == a {
                        max_nat(count_of(start, a), count_of(other@, a))
                    } else {
                        count_of(start, a)
                    }),
            decreases dots@.len() - i,
        {
            let d = dots[i];
            assert(d == dots@[i as int]);
            let ghost before = self@;
            self.apply(d);
            assert forall|a: u128|
                #![trigger self@.contains_key(a)]
                #![trigger count_of(self@, a)]
                (self@.contains_key(a) == (start.contains_key(a) || exists|j: int|
                    0 <= j < i + 1 && dots@[j].actor == a)) && count_of(self@, a) == (if exists|j: int|
                    0 <= j < i + 1 && dots@[j].actor == a {
                    max_nat(count_of(start, a), count_of(other@, a))
                } else {
                    count_of(start, a)
                }) by {
                assert(count_of(before, a) == count_of(self@, a) || a == d.actor);
                if a == d.actor {
                    assert(dots@[i as int].actor == a);
                    assert(!exists|j: int| 0 <= j < i && dots@[j].actor == a);
                }
                if exists|j: int| 0 <= j < i + 1 && dots@[j].actor == a {
                    if a != d.actor {
                        let j = choose|j: int| 0 <= j < i + 1 && dots@[j].actor == a;
                        assert(j < i);
                    }
                }
            }
            i += 1;
        }
        assert forall|a: u128| #[trigger] count_of(other@, a) > 0 implies exists|j: int|
            0 <= j < dots@.len() && dots@[j].actor == a by {
        }
        assert forall|a: u128| (exists|j: int| 0 <= j < dots@.len() && dots@[j].actor == a) implies #[trigger] count_of(other@, a) > 0 by {
            let j = choose|j: int| 0 <= j < dots@.len() && dots@[j].actor == a;
            assert(other@.contains_key(dots@[j].actor));
        }
        assert(self@ =~= clock_join(start, other@)) by {
            assert forall|a: u128| self@.contains_key(a) implies self@[a] == clock_join(start, other@)[a] by {
                assert(count_of(self@, a) == self@[a]);
                if !(exists|j: int| 0 <= j < dots@.len() && dots@[j].actor == a) {
                    assert(count_of(other@, a) == 0);
                }
            }
            assert forall|a: u128| self@.contains_key(a) == clock_join(start, other@).contains_key(a) by {
                assert(self@.contains_key(a) == (start.contains_key(a) || exists|j: int|
                    0 <= j < dots@.len() && dots@[j].actor == a));
            }
        }
    }
}

} // verus!
