//! Relays: responses that go through other nodes as well.

use crate::action::{Action, Coordinator};
use crate::endpoint::{Endpoint, Machine};
use crate::entropy::draw_below;
use crate::event::{Event, RelayDropped, Report};
use crate::id::{Id, Value};
use crate::members::{MemberState, MemberStatus};
use crate::octets;
use crate::octets::{bytes_len, share};
use crate::typed::{Node, RelayMessage};
use crate::vecmap;
use bytes::Bytes;
use vstd::prelude::*;

verus! {

/// The members in a list that can relay: alive, and not the local one.
pub open spec fn able<I, A>(list: Seq<I>, states: Map<I, MemberState<I, A>>, local: I) -> Seq<I>
    decreases list.len(),
{
    if list.len() == 0 {
        Seq::empty()
    } else {
        let rest = able(list.drop_last(), states, local);
        if list.last() != local && states[list.last()].member.status is Alive {
            rest.push(list.last())
        } else {
            rest
        }
    }
}

/// The list after its elements at `i` and `j` changed places. A place beyond the list
/// changes nothing.
pub open spec fn swapped<T>(s: Seq<T>, i: int, j: int) -> Seq<T> {
    if 0 <= i < s.len() && 0 <= j < s.len() {
        s.update(i, s[j]).update(j, s[i])
    } else {
        s
    }
}

/// The list after the first `k` draws of a shuffle: the element at each of the first
/// `k` places changed places with one that was drawn.
pub open spec fn shuffled<T>(s: Seq<T>, draws: Seq<usize>, k: nat) -> Seq<T>
    decreases k,
{
    if k == 0 {
        s
    } else {
        let t = shuffled(s, draws, (k - 1) as nat);
        if k - 1 < draws.len() {
            swapped(t, k - 1, draws[k - 1] as int)
        } else {
            t
        }
    }
}

/// Whether the draws are those of a shuffle of the first `k` of `n` places: each is
/// made among the places that are left.
pub open spec fn fair_draws(draws: Seq<usize>, n: nat, k: nat) -> bool {
    &&& draws.len() == k
    &&& forall|i: int| 0 <= i < k ==> i <= #[trigger] draws[i] < n
}

/// The smaller of two numbers.
pub open spec fn at_most(k: nat, n: nat) -> nat {
    if k <= n {
        k
    } else {
        n
    }
}

proof fn swapped_keeps<T>(s: Seq<T>, i: int, j: int)
    ensures
        swapped(s, i, j).len() == s.len(),
        forall|x: T| swapped(s, i, j).contains(x) <==> s.contains(x),
        s.no_duplicates() ==> swapped(s, i, j).no_duplicates(),
{
    let t = swapped(s, i, j);
    if 0 <= i < s.len() && 0 <= j < s.len() {
        assert forall|x: T| t.contains(x) <==> s.contains(x) by {
            if s.contains(x) {
                let a = choose|a: int| 0 <= a < s.len() && s[a] == x;
                let b = if a == i {
                    j
                } else if a == j {
                    i
                } else {
                    a
                };
                assert(t[b] == x);
            }
            if t.contains(x) {
                let a = choose|a: int| 0 <= a < t.len() && t[a] == x;
                let b = if a == i {
                    j
                } else if a == j {
                    i
                } else {
                    a
                };
                assert(s[b] == x);
            }
        }
    }
}

/// A shuffle loses nothing and invents nothing.
pub proof fn shuffle_keeps<T>(s: Seq<T>, draws: Seq<usize>, k: nat)
    ensures
        shuffled(s, draws, k).len() == s.len(),
        forall|x: T| shuffled(s, draws, k).contains(x) <==> s.contains(x),
        s.no_duplicates() ==> shuffled(s, draws, k).no_duplicates(),
    decreases k,
{
    if k > 0 {
        shuffle_keeps(s, draws, (k - 1) as nat);
        let t = shuffled(s, draws, (k - 1) as nat);
        if k - 1 < draws.len() {
            swapped_keeps(t, k - 1, draws[k - 1] as int);
        }
    }
}

impl<I: Id, A, G> Machine<I, A, G> {
    /// The members that can relay, in the order of the wire forms of their ids.
    pub open spec fn relay_candidates(self, local: I) -> Seq<I> {
        able(vecmap::in_wire_order(self.states.dom()), self.states, local)
    }

    /// How many nodes relay, where `factor` are asked for.
    pub open spec fn relay_count(self, local: I, factor: u8) -> nat {
        at_most(factor as nat, self.relay_candidates(local).len())
    }

    /// The members that relay, where the draws of a shuffle are given.
    pub open spec fn relay_peers(self, local: I, factor: u8, draws: Seq<usize>) -> Seq<I> {
        let k = self.relay_count(local, factor);
        shuffled(self.relay_candidates(local), draws, k).take(k as int)
    }

    /// Whether a frame is small enough to be relayed.
    pub open spec fn relay_fits(self, frame: Bytes) -> bool {
        octets::octets(frame).len() <= self.opts.query_response_size_limit
    }

    /// Whether it is drawn who relays a frame, where `factor` nodes are asked for.
    pub open spec fn draws_relays(self, frame: Bytes, factor: u8) -> bool {
        self.relays(factor) && self.relay_fits(frame)
    }

    /// Whether the draws can be those for as many relays as `factor`.
    pub open spec fn may_draw(self, local: I, factor: u8, draws: Seq<usize>) -> bool {
        self.relays(factor) ==> fair_draws(
            draws,
            self.relay_candidates(local).len(),
            self.relay_count(local, factor),
        )
    }

    /// Whether relays are asked for, and there are enough members.
    pub open spec fn relays(self, factor: u8) -> bool {
        factor > 0 && self.states.dom().len() >= factor + 1
    }

    /// The machine that asks for a response to be relayed. One that is too large is
    /// reported as dropped.
    pub open spec fn relaying(
        self,
        local: I,
        querier: Node<I, A>,
        frame: Bytes,
        factor: u8,
        draws: Seq<usize>,
    ) -> Self {
        if !self.relays(factor) {
            self
        } else if !self.relay_fits(frame) {
            self.reporting(Report::RelayDropped(querier.addr))
        } else {
            let peers = self.relay_peers(local, factor, draws);
            Machine {
                actions: self.actions + Seq::new(
                    peers.len(),
                    |i: int|
                        Action::Relay {
                            to: self.states[peers[i]].member.node.addr,
                            message: RelayMessage { destination: querier, payload: frame },
                        },
                ),
                ..self
            }
        }
    }
}

/// The nodes that relay a response are members that are alive, none is the local
/// node, and none is asked twice. There are as many as were asked for, if there are
/// so many.
pub proof fn relay_peers_are_distinct<I: Id, A, G>(
    m: Machine<I, A, G>,
    local: I,
    factor: u8,
    draws: Seq<usize>,
)
    requires
        m.states.dom().finite(),
    ensures
        m.relay_peers(local, factor, draws).no_duplicates(),
        m.relay_peers(local, factor, draws).len() == at_most(
            factor as nat,
            m.relay_candidates(local).len(),
        ),
        forall|id: I|
            #[trigger] m.relay_peers(local, factor, draws).contains(id) ==> m.knows(id) && id
                != local && m.states[id].member.status is Alive,
{
    let order = vecmap::in_wire_order(m.states.dom());
    vecmap::wire_order_exists(m.states.dom());
    vecmap::wire_sorted_has_no_duplicates(order);
    able_keeps(order, m.states, local);
    let all = m.relay_candidates(local);
    let k = m.relay_count(local, factor);
    let s = shuffled(all, draws, k);
    shuffle_keeps(all, draws, k);
    let peers = s.take(k as int);
    assert forall|id: I| #[trigger] peers.contains(id) implies m.knows(id) && id != local
        && m.states[id].member.status is Alive by {
        let i = choose|i: int| 0 <= i < peers.len() && peers[i] == id;
        assert(s[i] == id);
        assert(all.contains(id));
    }
}

proof fn able_keeps<I, A>(list: Seq<I>, states: Map<I, MemberState<I, A>>, local: I)
    ensures
        forall|id: I|
            #[trigger] able(list, states, local).contains(id) <==> list.contains(id) && id != local
                && states[id].member.status is Alive,
        list.no_duplicates() ==> able(list, states, local).no_duplicates(),
        able(list, states, local).len() <= list.len(),
    decreases list.len(),
{
    if list.len() > 0 {
        let rest = list.drop_last();
        let last = list.last();
        able_keeps(rest, states, local);
        let some = able(rest, states, local);
        let all = able(list, states, local);
        assert forall|id: I| #[trigger] all.contains(id) <==> list.contains(id) && id != local
            && states[id].member.status is Alive by {
            if list.contains(id) && id != last {
                let i = choose|i: int| 0 <= i < list.len() && list[i] == id;
                assert(rest[i] == id);
            }
            if rest.contains(id) {
                let i = choose|i: int| 0 <= i < rest.len() && rest[i] == id;
                assert(list[i] == id);
            }
            assert(list[list.len() - 1] == last);
            if some.contains(id) {
                let i = choose|i: int| 0 <= i < some.len() && some[i] == id;
                assert(all[i] == id);
            }
            if all.contains(id) && !some.contains(id) {
                let i = choose|i: int| 0 <= i < all.len() && all[i] == id;
                if i < some.len() {
                    assert(some[i] == id);
                }
            }
            if all.len() > some.len() {
                assert(all[some.len() as int] == last);
            }
        }
        if list.no_duplicates() {
            assert(rest.no_duplicates());
            if some.contains(last) {
                let i = choose|i: int| 0 <= i < rest.len() && rest[i] == last;
                assert(list[i] == list[list.len() - 1]);
            }
        }
    }
}

/// A member that is alive and not the local one can relay.
pub proof fn the_able_are_found<I, A>(
    list: Seq<I>,
    states: Map<I, MemberState<I, A>>,
    local: I,
    id: I,
)
    ensures
        able(list, states, local).contains(id) <==> list.contains(id) && id != local
            && states[id].member.status is Alive,
{
    able_keeps(list, states, local);
}

/// There are always draws for as many relays as `factor`.
pub proof fn draws_exist<I: Id, A, G>(m: Machine<I, A, G>, local: I, factor: u8) -> (draws: Seq<
    usize,
>)
    ensures
        m.may_draw(local, factor, draws),
{
    let draws = Seq::new(m.relay_count(local, factor), |i: int| i as usize);
    draws
}

impl<I: Id, A: Value, G> Endpoint<I, A, G> {
    fn relay_candidates(&self, local: &I) -> (r: Vec<I>)
        ensures
            r@ == self@.relay_candidates(*local),
            forall|id: I| #[trigger] r@.contains(id) ==> self@.knows(id),
    {
        let ghost order = vecmap::in_wire_order(self@.states.dom());
        let mut r: Vec<I> = Vec::new();
        let n: usize = self.members.states.len();
        let mut i: usize = 0;
        while i < n
            invariant
                i <= n,
                n == order.len(),
                order == self.members.states.keys(),
                r@ == able(order.take(i as int), self@.states, *local),
            decreases n - i,
        {
            assert(order.take(i + 1).drop_last() =~= order.take(i as int));
            let entry = self.members.states.entry_at(i);
            if !entry.0.same(local) && matches!(entry.1.member.status, MemberStatus::Alive) {
                r.push(entry.0.dup());
            }
            i += 1;
        }
        assert(order.take(i as int) =~= order);
        proof {
            able_keeps(order, self@.states, *local);
        }
        r
    }

    fn enough_to_relay(&self, factor: u8) -> (r: bool)
        ensures
            r == self@.relays(factor),
    {
        factor > 0 && self.members.states.len() >= factor as usize + 1
    }

    /// Draws which nodes are to relay a response, for as many as `factor`. Nothing is
    /// drawn for a frame that is too large.
    pub fn draw_relays(&mut self, c: &Coordinator<I, A>, frame: &Bytes, factor: u8) -> (r: Vec<
        usize,
    >)
        ensures
            final(self)@ == old(self)@.drawing(final(self)@.rng),
            old(self)@.relay_fits(*frame) ==> old(self)@.may_draw(c.local.id, factor, r@),
            !old(self)@.draws_relays(*frame, factor) ==> r@.len() == 0 && final(self)@
                == old(self)@,
    {
        let mut draws: Vec<usize> = Vec::new();
        if !self.enough_to_relay(factor) || bytes_len(frame)
            > self.opts.query_response_size_limit {
            return draws;
        }
        let n: usize = self.relay_candidates(&c.local.id).len();
        let k: usize = if factor as usize <= n {
            factor as usize
        } else {
            n
        };
        let ghost before = self@;
        let mut i: usize = 0;
        while i < k
            invariant
                i <= k <= n,
                draws@.len() == i,
                self@ == before.drawing(self@.rng),
                forall|j: int| 0 <= j < i ==> j <= #[trigger] draws@[j] < n,
            decreases k - i,
        {
            draws.push(draw_below(&mut self.rng, i, n));
            i += 1;
        }
        draws
    }

    /// Asks for a response to be relayed through as many nodes as `factor`, where the
    /// draws of a shuffle are given.
    pub fn relay_response(
        &mut self,
        c: &Coordinator<I, A>,
        querier: &Node<I, A>,
        frame: &Bytes,
        factor: u8,
        draws: &Vec<usize>,
    )
        ensures
            final(self)@ == old(self)@.relaying(c.local.id, *querier, *frame, factor, draws@),
    {
        let ghost before = self@;
        if !self.enough_to_relay(factor) {
            return;
        }
        if bytes_len(frame) > self.opts.query_response_size_limit {
            self.report(Event::RelayDropped(RelayDropped { destination: querier.addr.dup() }));
            return;
        }
        let mut peers: Vec<I> = self.relay_candidates(&c.local.id);
        let ghost all = peers@;
        let n: usize = peers.len();
        let k: usize = if factor as usize <= n {
            factor as usize
        } else {
            n
        };
        let mut i: usize = 0;
        while i < k
            invariant
                i <= k <= n,
                n == all.len(),
                peers@ == shuffled(all, draws@, i as nat),
                peers@.len() == n,
            decreases k - i,
        {
            if i < draws.len() {
                let j: usize = draws[i];
                if j < n {
                    let a = peers[i].dup();
                    let b = peers[j].dup();
                    peers.set(i, b);
                    peers.set(j, a);
                }
            }
            i += 1;
        }
        let ghost chosen = before.relay_peers(c.local.id, factor, draws@);
        assert(chosen =~= peers@.take(k as int));
        let ghost asked = Seq::new(
            chosen.len(),
            |i: int|
                Action::Relay {
                    to: before.states[chosen[i]].member.node.addr,
                    message: RelayMessage { destination: *querier, payload: *frame },
                },
        );
        proof {
            shuffle_keeps(all, draws@, k as nat);
        }
        assert forall|j: int| 0 <= j < k implies before.knows(#[trigger] chosen[j]) by {
            assert(peers@[j] == chosen[j]);
            assert(peers@.contains(chosen[j]));
            assert(all.contains(chosen[j]));
        }
        assert(self@.actions =~= before.actions + asked.take(0));
        let mut i: usize = 0;
        while i < k
            invariant
                i <= k <= peers@.len(),
                k == chosen.len(),
                chosen == peers@.take(k as int),
                asked.len() == k,
                forall|j: int|
                    0 <= j < k ==> #[trigger] asked[j] == (Action::Relay {
                        to: before.states[chosen[j]].member.node.addr,
                        message: RelayMessage { destination: *querier, payload: *frame },
                    }),
                forall|j: int| 0 <= j < k ==> before.knows(#[trigger] chosen[j]),
                self@ == (Machine { actions: before.actions + asked.take(i as int), ..before }),
            decreases k - i,
        {
            assert(chosen[i as int] == peers@[i as int]);
            assert(asked.take(i + 1) =~= asked.take(i as int).push(asked[i as int]));
            match self.members.states.get(&peers[i]) {
                Some(ms) => {
                    let to = ms.member.node.addr.dup();
                    self.ask(
                        Action::Relay {
                            to,
                            message: RelayMessage {
                                destination: querier.dup(),
                                payload: share(frame),
                            },
                        },
                    );
                    assert(self@.actions =~= before.actions + asked.take(i + 1));
                },
                None => {},
            }
            i += 1;
        }
        assert(asked.take(i as int) =~= asked);
        assert(self@ =~= before.relaying(c.local.id, *querier, *frame, factor, draws@));
    }

    /// Takes in that a frame could not be sent on to `destination`.
    pub fn relay_failed(&mut self, destination: A)
        ensures
            final(self)@ == old(self)@.reporting(Report::RelayDropped(destination)),
    {
        self.report(Event::RelayDropped(RelayDropped { destination }));
    }

    /// Passes a frame on to where it is to go. One for this node itself is reported as
    /// dropped.
    pub fn handle_relay(&mut self, c: &Coordinator<I, A>, relay: RelayMessage<I, A>)
        ensures
            final(self)@ == old(self)@.passing_on(c.local.id, relay),
    {
        if relay.destination.id.same(&c.local.id) {
            self.report(
                Event::RelayDropped(RelayDropped { destination: relay.destination.addr }),
            );
            return;
        }
        self.ask(Action::Forward { to: relay.destination.addr, payload: relay.payload });
    }
}

impl<I, A, G> Machine<I, A, G> {
    /// The machine after it was asked to pass a frame on.
    pub open spec fn passing_on(self, local: I, relay: RelayMessage<I, A>) -> Self {
        if relay.destination.id == local {
            self.reporting(Report::RelayDropped(relay.destination.addr))
        } else {
            self.asking(Action::Forward { to: relay.destination.addr, payload: relay.payload })
        }
    }
}

} // verus!
