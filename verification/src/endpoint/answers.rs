//! What a response does: which query it counts for, how it is counted, and what is reported
//! of a query in the end.

use crate::clock::LamportTime;
use crate::endpoint::{membership, responses, Machine};
use crate::event::{QueryAck, QueryResponse, Report};
use crate::octets;
use crate::query::{Error, Pending, QueryId, Tally};
use crate::time::Instant;
use crate::typed::{AnyMessage, KeyResponseMessage, Node, QueryResponseMessage, SecretKey};
use bytes::Bytes;
use vstd::prelude::*;

verus! {

/// How often a key was counted.
pub open spec fn count_of(counts: Map<SecretKey, usize>, key: SecretKey) -> nat {
    if counts.dom().contains(key) {
        counts[key] as nat
    } else {
        0
    }
}

/// A count that stands at the largest number from there on.
pub open spec fn up_to_the_most(n: nat) -> nat {
    if n <= usize::MAX {
        n
    } else {
        usize::MAX as nat
    }
}

proof fn counted_as_often<T>(keys: Seq<T>, key: T)
    requires
        keys.len() > 0,
    ensures
        keys.to_multiset().count(key) == keys.drop_last().to_multiset().count(key) + if keys.last()
            == key {
            1nat
        } else {
            0nat
        },
{
    broadcast use vstd::multiset::group_multiset_axioms;

    keys.drop_last().to_multiset_ensures();
    assert(keys =~= keys.drop_last().push(keys.last()));
}

/// To count the keys of a list raises the count of each by as often as it stands there, and
/// leaves all other counts alone.
pub proof fn keys_are_counted_as_often_as_named(
    counts: Map<SecretKey, usize>,
    keys: Seq<SecretKey>,
    key: SecretKey,
)
    ensures
        count_of(responses::counting_all(counts, keys), key) == up_to_the_most(
            count_of(counts, key) + keys.to_multiset().count(key),
        ),
        responses::counting_all(counts, keys).dom().contains(key) <==> counts.dom().contains(key)
            || keys.contains(key),
    decreases keys.len(),
{
    broadcast use vstd::multiset::group_multiset_axioms;

    if keys.len() > 0 {
        let rest = keys.drop_last();
        keys_are_counted_as_often_as_named(counts, rest, key);
        counted_as_often(keys, key);
        if rest.contains(key) {
            let i = choose|i: int| 0 <= i < rest.len() && rest[i] == key;
            assert(keys[i] == key);
        }
        if keys.contains(key) && keys.last() != key {
            let i = choose|i: int| 0 <= i < keys.len() && keys[i] == key;
            assert(rest[i] == key);
        }
        assert(keys[keys.len() - 1] == keys.last());
    } else {
        keys.to_multiset_ensures();
    }
}

/// Whether a tally differs from another by one answer: the primary key that the answer names
/// counts one more and no other does, each key that it lists counts as often more as it is
/// listed, a failure counts as one, and what it says is kept under the node that failed.
pub open spec fn one_answer_more<I>(
    before: Tally<I>,
    after: Tally<I>,
    from: I,
    msg: KeyResponseMessage,
) -> bool {
    &&& forall|k: SecretKey| #[trigger]
        count_of(after.primary_keys, k) == up_to_the_most(
            count_of(before.primary_keys, k) + if msg.primary_key == Some(k) {
                1nat
            } else {
                0nat
            },
        )
    &&& forall|k: SecretKey| #[trigger]
        after.primary_keys.dom().contains(k) <==> before.primary_keys.dom().contains(k)
            || msg.primary_key == Some(k)
    &&& forall|k: SecretKey| #[trigger]
        count_of(after.keys, k) == up_to_the_most(
            count_of(before.keys, k) + msg.keys@.to_multiset().count(k),
        )
    &&& forall|k: SecretKey| #[trigger]
        after.keys.dom().contains(k) <==> before.keys.dom().contains(k) || msg.keys@.contains(k)
    &&& msg.result ==> after.num_err == before.num_err && after.messages == before.messages
    &&& !msg.result && before.num_err < usize::MAX ==> after.num_err == before.num_err + 1
    &&& !msg.result && before.num_err == usize::MAX ==> after.num_err == usize::MAX
    &&& !msg.result && msg.message@.len() == 0 ==> after.messages == before.messages
    &&& !msg.result && msg.message@.len() > 0 ==> {
        &&& after.messages.dom() == before.messages.dom().insert(from)
        &&& after.messages[from] == msg.message
        &&& forall|x: I| x != from ==> #[trigger] after.messages[x] == before.messages[x]
    }
}

/// A tally takes one more answer as one answer more.
pub proof fn answers_are_tallied<I>(t: Tally<I>, from: I, msg: KeyResponseMessage)
    ensures
        one_answer_more(t, t.adding(from, msg), from, msg),
{
    let after = t.adding(from, msg);
    assert forall|k: SecretKey| #[trigger] count_of(after.keys, k) == up_to_the_most(
        count_of(t.keys, k) + msg.keys@.to_multiset().count(k),
    ) by {
        keys_are_counted_as_often_as_named(t.keys, msg.keys@, k);
    }
    assert forall|k: SecretKey| #[trigger]
        after.keys.dom().contains(k) <==> t.keys.dom().contains(k) || msg.keys@.contains(k) by {
        keys_are_counted_as_often_as_named(t.keys, msg.keys@, k);
    }
}

/// The tally of a list of answers, each with the node that gave it.
pub open spec fn tally_of<I>(answers: Seq<(I, KeyResponseMessage)>) -> Tally<I>
    decreases answers.len(),
{
    if answers.len() == 0 {
        Tally::empty()
    } else {
        tally_of(answers.drop_last()).adding(answers.last().0, answers.last().1)
    }
}

/// How often the answers list a key.
pub open spec fn times_listed<I>(answers: Seq<(I, KeyResponseMessage)>, key: SecretKey) -> nat
    decreases answers.len(),
{
    if answers.len() == 0 {
        0
    } else {
        times_listed(answers.drop_last(), key) + answers.last().1.keys@.to_multiset().count(key)
    }
}

/// After any answers, the count of a primary key is how many of them name it as theirs, and a
/// key has a count exactly if some answer names it. The count of a key is how often they list
/// it, the count of failures how many of them failed, and a node has a message exactly if
/// some answer of it failed with one.
pub proof fn tallies_count_the_answers<I>(answers: Seq<(I, KeyResponseMessage)>)
    requires
        answers.len() <= usize::MAX,
    ensures
        forall|k: SecretKey| #[trigger]
            count_of(tally_of(answers).primary_keys, k) == answers.filter(
                |a: (I, KeyResponseMessage)| a.1.primary_key == Some(k),
            ).len(),
        forall|k: SecretKey| #[trigger]
            count_of(tally_of(answers).keys, k) == up_to_the_most(times_listed(answers, k)),
        tally_of(answers).num_err == answers.filter(
            |a: (I, KeyResponseMessage)| !a.1.result,
        ).len(),
        forall|x: I| #[trigger]
            tally_of(answers).messages.dom().contains(x) <==> exists|i: int|
                0 <= i < answers.len() && (#[trigger] answers[i]).0 == x && !answers[i].1.result
                    && answers[i].1.message@.len() > 0,
    decreases answers.len(),
{
    reveal(Seq::filter);
    let all = tally_of(answers);
    if answers.len() > 0 {
        let rest = answers.drop_last();
        let (from, msg) = answers.last();
        let some = tally_of(rest);
        tallies_count_the_answers(rest);
        answers_are_tallied(some, from, msg);
        assert forall|k: SecretKey| #[trigger] count_of(all.primary_keys, k) == answers.filter(
            |a: (I, KeyResponseMessage)| a.1.primary_key == Some(k),
        ).len() by {
            let named = |a: (I, KeyResponseMessage)| a.1.primary_key == Some(k);
            assert(count_of(some.primary_keys, k) == rest.filter(named).len());
            rest.lemma_filter_len(named);
        }
        assert forall|k: SecretKey| #[trigger] count_of(all.keys, k) == up_to_the_most(
            times_listed(answers, k),
        ) by {
            assert(count_of(some.keys, k) == up_to_the_most(times_listed(rest, k)));
        }
        rest.lemma_filter_len(|a: (I, KeyResponseMessage)| !a.1.result);
        assert forall|x: I| #[trigger] all.messages.dom().contains(x) <==> exists|i: int|
            0 <= i < answers.len() && (#[trigger] answers[i]).0 == x && !answers[i].1.result
                && answers[i].1.message@.len() > 0 by {
            if some.messages.dom().contains(x) {
                let i = choose|i: int|
                    0 <= i < rest.len() && (#[trigger] rest[i]).0 == x && !rest[i].1.result
                        && rest[i].1.message@.len() > 0;
                assert(answers[i] == rest[i]);
            }
            assert(answers[answers.len() - 1] == (from, msg));
            if exists|i: int|
                0 <= i < answers.len() && (#[trigger] answers[i]).0 == x && !answers[i].1.result
                    && answers[i].1.message@.len() > 0 {
                let i = choose|i: int|
                    0 <= i < answers.len() && (#[trigger] answers[i]).0 == x && !answers[i].1.result
                        && answers[i].1.message@.len() > 0;
                if i < rest.len() {
                    assert(rest[i] == answers[i]);
                }
            }
        }
    }
}

/// Whether the first query that waits with the id of a response stands at a place.
pub open spec fn stands_at<I>(pending: Seq<Pending<I>>, ltime: LamportTime, id: u32, i: int) -> bool {
    &&& 0 <= i < pending.len()
    &&& pending[i].query_id.ltime == ltime
    &&& pending[i].query_id.id == id
    &&& forall|j: int|
        0 <= j < i ==> !((#[trigger] pending[j]).query_id.ltime == ltime && pending[j].query_id.id
            == id)
}

proof fn the_query_is_found<I, A>(
    pending: Seq<Pending<I>>,
    msg: QueryResponseMessage<I, A>,
    i: int,
)
    requires
        stands_at(pending, msg.ltime, msg.id, i),
    ensures
        responses::query_at(pending, responses::response_to(msg)) == Some(i),
{
    let id = responses::response_to(msg);
    assert(responses::is_query_at(pending, id, i));
    let k = choose|k: int| #[trigger] responses::is_query_at(pending, id, k);
    assert(k == i) by {
        if k < i {
            assert(pending[k].query_id != id);
        }
        if i < k {
            assert(pending[i].query_id != id);
        }
    }
}

/// Whether only one of the queries that wait differs, and of it only what responses change.
pub open spec fn one_query_changed<I, A, G>(
    before: Machine<I, A, G>,
    after: Machine<I, A, G>,
    i: int,
) -> bool {
    let p = before.pending[i];
    let r = after.pending[i];
    &&& after.pending == before.pending.update(i, r)
    &&& r == (Pending {
        responses: r.responses,
        acks: r.acks,
        conflict_matching: r.conflict_matching,
        tally: r.tally,
        ..p
    })
    &&& after == (Machine { pending: after.pending, reports: after.reports, ..before })
}

/// A response to no query that waits, or one that comes after the deadline, changes nothing.
/// Neither does a second one of the same node, nor, where the machine asked by itself, one of
/// a node that is no member.
pub proof fn uncalled_responses_change_nothing<I, A, G>(
    m: Machine<I, A, G>,
    local: Node<I, A>,
    msg: QueryResponseMessage<I, A>,
    nested: Option<(AnyMessage<I, A>, usize)>,
    i: int,
)
    ensures
        (forall|j: int|
            0 <= j < m.pending.len() ==> !((#[trigger] m.pending[j]).query_id.ltime == msg.ltime
                && m.pending[j].query_id.id == msg.id)) ==> m.after_response(local, msg, nested)
            == m,
        stands_at(m.pending, msg.ltime, msg.id, i) && m.drain_now > m.pending[i].deadline
            ==> m.after_response(local, msg, nested) == m,
        stands_at(m.pending, msg.ltime, msg.id, i) && msg.flags.ack && (!m.pending[i].request_ack
            || m.pending[i].acks.contains(msg.from.id)) ==> m.after_response(local, msg, nested)
            == m,
        stands_at(m.pending, msg.ltime, msg.id, i) && !msg.flags.ack
            && m.pending[i].responses.contains(msg.from.id) ==> m.after_response(
            local,
            msg,
            nested,
        ) == m,
        stands_at(m.pending, msg.ltime, msg.id, i) && !msg.flags.ack && !(
        m.pending[i].kind is App) && !m.states.dom().contains(msg.from.id) ==> m.after_response(
            local,
            msg,
            nested,
        ) == m,
{
    if stands_at(m.pending, msg.ltime, msg.id, i) {
        the_query_is_found(m.pending, msg, i);
    }
    if forall|j: int|
        0 <= j < m.pending.len() ==> !((#[trigger] m.pending[j]).query_id.ltime == msg.ltime
            && m.pending[j].query_id.id == msg.id) {
        assert(responses::query_at(m.pending, responses::response_to(msg)) is None) by {
            let id = responses::response_to(msg);
            if exists|k: int| #[trigger] responses::is_query_at(m.pending, id, k) {
                let k = choose|k: int| #[trigger] responses::is_query_at(m.pending, id, k);
                assert(m.pending[k].query_id == id);
            }
        }
    }
}

/// The first acknowledgement of a node, where acknowledgements were asked for and the
/// deadline has not passed, is counted and reported, and does not count as a response.
pub proof fn an_acknowledgement_is_counted<I, A, G>(
    m: Machine<I, A, G>,
    local: Node<I, A>,
    msg: QueryResponseMessage<I, A>,
    nested: Option<(AnyMessage<I, A>, usize)>,
    i: int,
)
    requires
        stands_at(m.pending, msg.ltime, msg.id, i),
        m.drain_now <= m.pending[i].deadline,
        msg.flags.ack,
        m.pending[i].request_ack,
        !m.pending[i].acks.contains(msg.from.id),
    ensures
        ({
            let after = m.after_response(local, msg, nested);
            &&& one_query_changed(m, after, i)
            &&& after.pending[i].acks == m.pending[i].acks.push(msg.from.id)
            &&& after.pending[i].responses == m.pending[i].responses
            &&& after.pending[i].tally == m.pending[i].tally
            &&& after.pending[i].conflict_matching == m.pending[i].conflict_matching
            &&& after.reports == m.reports.push(
                Report::QueryAck(QueryAck { id: msg.id, from: msg.from }),
            )
        }),
{
    the_query_is_found(m.pending, msg, i);
}

/// What the first response of a node does that comes in time. To a query of the application
/// it is reported as it came. To one about keys it is one answer more, and to a vote one vote
/// more, which is for this node exactly if it gives the address of this node. A payload that
/// is not one message of the right kind from end to end counts for nothing, and its node may
/// respond again.
pub proof fn a_response_is_counted<I, A, G>(
    m: Machine<I, A, G>,
    local: Node<I, A>,
    msg: QueryResponseMessage<I, A>,
    nested: Option<(AnyMessage<I, A>, usize)>,
    i: int,
)
    requires
        stands_at(m.pending, msg.ltime, msg.id, i),
        m.drain_now <= m.pending[i].deadline,
        !msg.flags.ack,
        m.pending[i].kind is App || m.states.dom().contains(msg.from.id),
        !m.pending[i].responses.contains(msg.from.id),
    ensures
        ({
            let after = m.after_response(local, msg, nested);
            let p = m.pending[i];
            let r = after.pending[i];
            let len = octets::octets(msg.payload).len();
            &&& p.kind is App ==> {
                &&& one_query_changed(m, after, i)
                &&& r.responses == p.responses.push(msg.from.id)
                &&& r.tally == p.tally
                &&& after.reports == m.reports.push(
                    Report::QueryResponse(
                        QueryResponse { id: msg.id, from: msg.from, payload: msg.payload },
                    ),
                )
            }
            &&& p.kind is Conflict ==> match nested {
                Some((AnyMessage::ConflictResponse(vote), n)) => {
                    &&& n == len ==> {
                        &&& one_query_changed(m, after, i)
                        &&& r.responses == p.responses.push(msg.from.id)
                        &&& after.reports == m.reports
                        &&& vote.member.addr != local.addr ==> r.conflict_matching
                            == p.conflict_matching
                        &&& vote.member.addr == local.addr && p.conflict_matching < usize::MAX
                            ==> r.conflict_matching == p.conflict_matching + 1
                    }
                    &&& n != len ==> after == m
                },
                _ => after == m,
            }
            &&& p.kind is Key ==> match nested {
                Some((AnyMessage::KeyResponse(answer), n)) => {
                    &&& n == len ==> {
                        &&& one_query_changed(m, after, i)
                        &&& r.responses == p.responses.push(msg.from.id)
                        &&& after.reports == m.reports
                        &&& r.conflict_matching == p.conflict_matching
                        &&& p.tally matches Some(t) ==> (r.tally matches Some(u)
                            && one_answer_more(t, u, msg.from.id, answer))
                        &&& p.tally is None ==> r.tally is None
                    }
                    &&& n != len ==> after == m
                },
                _ => after == m,
            }
            &&& r.acks == p.acks
        }),
{
    the_query_is_found(m.pending, msg, i);
    if let Some((AnyMessage::KeyResponse(answer), _)) = nested {
        if let Some(t) = m.pending[i].tally {
            answers_are_tallied(t, msg.from.id, answer);
        }
    }
}

/// A vote is lost if someone voted and at most half of the votes were for this node.
pub proof fn half_the_votes_are_not_enough<I>(p: Pending<I>)
    ensures
        p.is_lost() <==> p.responses.len() > 0 && 2 * p.conflict_matching <= p.responses.len(),
{
}

/// What the answers about keys came to says how many members there were, how many answered
/// and what they add up to.
pub proof fn key_outcomes_say_it_all<I>(p: Pending<I>)
    ensures
        p.key_outcome().num_nodes == p.num_nodes,
        p.key_outcome().num_resp == p.responses.len(),
        p.tally matches Some(t) ==> {
            &&& p.key_outcome().num_err == t.num_err
            &&& p.key_outcome().keys == t.keys
            &&& p.key_outcome().primary_keys == t.primary_keys
            &&& p.key_outcome().messages == t.messages
        },
{
}

/// A wish to respond is refused by a node that was shut down, where the bytes are longer than
/// allowed, where no such query waits, and where there are no bytes, in this order. Where it
/// is not, the response names the query, comes from this node and carries the bytes. It may
/// be sent until the deadline, to where the query came from.
pub proof fn responses_are_allowed_in_order<I, A, G>(
    m: Machine<I, A, G>,
    local: Node<I, A>,
    ltime: LamportTime,
    id: u32,
    bytes: Bytes,
    now: Instant,
)
    requires
        octets::octets(bytes).len() <= usize::MAX,
    ensures
        ({
            let q = QueryId { ltime, id };
            let waits = m.received.dom().contains(q);
            let limit = m.opts.query_response_size_limit;
            let down = m.state is Shutdown;
            let large = octets::octets(bytes).len() > limit;
            &&& down ==> m.respond_verdict(q, Some(bytes)) == Err::<(), Error>(Error::Shutdown)
                && m.respond_verdict(q, None) == Err::<(), Error>(Error::Shutdown)
            &&& !down && large ==> (m.respond_verdict(q, Some(bytes)) matches Err(
                Error::RespondTooLarge(n, most),
            ) && n == octets::octets(bytes).len() && most == limit)
            &&& !down && !large && !waits ==> m.respond_verdict(q, Some(bytes)) == Err::<(), Error>(
                Error::AlreadyResponded,
            )
            &&& !down && !waits ==> m.respond_verdict(q, None) == Err::<(), Error>(
                Error::AlreadyResponded,
            )
            &&& !down && waits ==> m.respond_verdict(q, None) == Err::<(), Error>(
                Error::RespondEncode,
            )
            &&& !down && !large && waits ==> {
                &&& m.respond_verdict(q, Some(bytes)) is Ok
                &&& m.response_made(local, ltime, id, Some(bytes)) matches Ok(r) && {
                    &&& r.ltime == ltime
                    &&& r.id == id
                    &&& r.from == local
                    &&& !r.flags.ack
                    &&& !r.flags.no_broadcast
                    &&& r.payload == bytes
                }
                &&& now <= m.received[q].deadline ==> m.send_verdict(q, Some(bytes), now) == Ok::<
                    A,
                    Error,
                >(m.received[q].from)
                &&& now > m.received[q].deadline ==> m.send_verdict(q, Some(bytes), now) == Err::<
                    A,
                    Error,
                >(Error::RespondAfterDeadline)
            }
            &&& m.response_made(local, ltime, id, Some(bytes)) is Ok <==> m.respond_verdict(
                q,
                Some(bytes),
            ) is Ok
            &&& m.send_verdict(q, Some(bytes), now) is Ok ==> m.respond_verdict(
                q,
                Some(bytes),
            ) is Ok
            &&& m.respond_verdict(q, Some(bytes)) matches Err(e) ==> m.send_verdict(
                q,
                Some(bytes),
                now,
            ) == Err::<A, Error>(e) && m.response_made(local, ltime, id, Some(bytes)) == Err::<
                QueryResponseMessage<I, A>,
                Error,
            >(e)
        }),
{
}

/// A query that was responded to waits no longer, and every other does.
pub proof fn a_response_ends_the_wait<I, A, G>(m: Machine<I, A, G>, q: QueryId)
    ensures
        !m.answered(q).received.dom().contains(q),
        forall|x: QueryId|
            x != q ==> (#[trigger] m.answered(q).received.dom().contains(x)
                == m.received.dom().contains(x)),
        forall|x: QueryId| x != q ==> #[trigger] m.answered(q).received[x] == m.received[x],
        m.answered(q) == (Machine { received: m.answered(q).received, ..m }),
{
}

/// A machine that shuts down says so last, and drops what it held back.
pub proof fn a_shutdown_drops_what_was_held_back<I, A, G>(m: Machine<I, A, G>)
    ensures
        ({
            let after = m.shutting_down();
            &&& after.state is Shutdown
            &&& after.reports == m.reports.push(Report::Shutdown)
            &&& m.batch is None ==> after.batch is None
            &&& m.batch is Some ==> (after.batch matches Some(b) && b.changes.len() == 0
                && b.window.cap is None && b.window.quiet is None)
            &&& m.backlog is None ==> after.backlog is None
            &&& m.backlog is Some ==> (after.backlog matches Some(b) && b.events.len() == 0
                && b.window.cap is None && b.window.quiet is None)
            &&& after == (Machine {
                state: after.state,
                reports: after.reports,
                batch: after.batch,
                backlog: after.backlog,
                ..m
            })
        }),
{
}

/// What the end of a query does: one of the application ends without a word, one about keys
/// with its outcome, and a lost vote with a shutdown.
pub proof fn queries_end_by_purpose<I, A, G>(m: Machine<I, A, G>, p: Pending<I>)
    ensures
        p.kind is App ==> m.closing(p) == m,
        p.kind is Key ==> m.closing(p) == (Machine {
            reports: m.reports.push(Report::KeyResponse(p.key_outcome())),
            ..m
        }),
        p.kind is Conflict && p.responses.len() < 2 * p.conflict_matching ==> m.closing(p) == m,
        p.kind is Conflict && p.responses.len() == 0 ==> m.closing(p) == m,
        p.kind is Conflict && p.responses.len() > 0 && p.responses.len() >= 2
            * p.conflict_matching ==> m.closing(p) == m.shutting_down(),
{
}

proof fn one_is_counted<T>(x: T, pred: spec_fn(T) -> bool)
    ensures
        seq![x].filter(pred).len() == if pred(x) {
            1nat
        } else {
            0nat
        },
{
    reveal_with_fuel(Seq::filter, 2);
    assert(seq![x].drop_last() =~= Seq::<T>::empty());
}

proof fn removed_is_counted<T>(s: Seq<T>, i: int, pred: spec_fn(T) -> bool)
    requires
        0 <= i < s.len(),
    ensures
        s.skip(i).filter(pred).len() == membership::swap_removed(s, i).skip(i).filter(pred).len()
            + if pred(s[i]) {
            1nat
        } else {
            0nat
        },
{
    let t = membership::swap_removed(s, i);
    let rest = s.skip(i + 1);
    assert(s.skip(i) =~= seq![s[i]] + rest);
    Seq::filter_distributes_over_add(seq![s[i]], rest, pred);
    one_is_counted(s[i], pred);
    if i == s.len() - 1 {
        assert(t.skip(i) =~= Seq::<T>::empty());
        assert(rest =~= Seq::<T>::empty());
    } else {
        let middle = s.subrange(i + 1, s.len() - 1);
        let last = s.last();
        assert(rest =~= middle + seq![last]);
        assert(t.skip(i) =~= seq![last] + middle);
        Seq::filter_distributes_over_add(middle, seq![last], pred);
        Seq::filter_distributes_over_add(seq![last], middle, pred);
    }
}

proof fn kept_is_counted<T>(s: Seq<T>, i: int, pred: spec_fn(T) -> bool)
    requires
        0 <= i < s.len(),
    ensures
        s.skip(i).filter(pred).len() == s.skip(i + 1).filter(pred).len() + if pred(s[i]) {
            1nat
        } else {
            0nat
        },
{
    assert(s.skip(i) =~= seq![s[i]] + s.skip(i + 1));
    Seq::filter_distributes_over_add(seq![s[i]], s.skip(i + 1), pred);
    one_is_counted(s[i], pred);
}

/// Whether the outcome of a query about keys whose deadline has come is among the reports.
pub open spec fn told_outcome<I, A>(
    reports: Seq<Report<I, A>>,
    pending: Seq<Pending<I>>,
    now: Instant,
) -> bool {
    forall|j: int|
        0 <= j < pending.len() && (#[trigger] pending[j]).kind is Key && pending[j].deadline <= now
            ==> reports.contains(Report::KeyResponse(pending[j].key_outcome()))
}

proof fn closing_counts<I, A, G>(m: Machine<I, A, G>, i: int, now: Instant)
    requires
        !(m.state is Shutdown),
        0 <= i <= m.pending.len(),
        forall|j: int| 0 <= j < i ==> now < (#[trigger] m.pending[j]).deadline,
        !(m.closing_due(i, now).state is Shutdown),
    ensures
        ({
            let after = m.closing_due(i, now);
            &&& after.pending.len() == i + m.pending.skip(i).filter(
                |p: Pending<I>| now < p.deadline,
            ).len()
            &&& after.reports.len() == m.reports.len() + m.pending.skip(i).filter(
                |p: Pending<I>| p.kind is Key && p.deadline <= now,
            ).len()
            &&& m.reports.is_prefix_of(after.reports)
            &&& told_outcome(after.reports, m.pending, now)
            &&& forall|j: int|
                0 <= j < m.pending.len() && now < (#[trigger] m.pending[j]).deadline
                    ==> after.pending.contains(m.pending[j])
            &&& forall|j: int|
                0 <= j < after.pending.len() ==> now < (#[trigger] after.pending[j]).deadline
                    && m.pending.contains(after.pending[j])
            &&& after == (Machine { pending: after.pending, reports: after.reports, ..m })
        }),
    decreases m.pending.len() - i,
{
    let open = |p: Pending<I>| now < p.deadline;
    let keyed = |p: Pending<I>| p.kind is Key && p.deadline <= now;
    let after = m.closing_due(i, now);
    if i >= m.pending.len() {
        reveal(Seq::filter);
        assert(m.pending.skip(i) =~= Seq::<Pending<I>>::empty());
        assert forall|j: int|
            0 <= j < m.pending.len() && now < (
            #[trigger] m.pending[j]).deadline implies after.pending.contains(m.pending[j]) by {}
    } else if now >= m.pending[i].deadline {
        let p = m.pending[i];
        let rest = membership::swap_removed(m.pending, i);
        let next = Machine { pending: rest, ..m }.closing(p);
        assert(after == if next.is_down() {
            next
        } else {
            next.closing_due(i, now)
        });
        assert forall|j: int| 0 <= j < i implies now < (#[trigger] next.pending[j]).deadline by {
            assert(next.pending[j] == m.pending[j]);
        }
        closing_counts(next, i, now);
        removed_is_counted(m.pending, i, open);
        removed_is_counted(m.pending, i, keyed);
        assert forall|j: int|
            0 <= j < m.pending.len() && (#[trigger] m.pending[j]).kind is Key
                && m.pending[j].deadline <= now implies after.reports.contains(
            Report::KeyResponse(m.pending[j].key_outcome()),
        ) by {
            let r = Report::<I, A>::KeyResponse(m.pending[j].key_outcome());
            if j == i {
                assert(next.reports[m.reports.len() as int] == r);
                assert(after.reports[m.reports.len() as int] == r);
            } else if j == m.pending.len() - 1 {
                assert(next.pending[i] == m.pending[j]);
            } else {
                assert(next.pending[j] == m.pending[j]);
            }
        }
        assert forall|j: int|
            0 <= j < m.pending.len() && now < (
            #[trigger] m.pending[j]).deadline implies after.pending.contains(m.pending[j]) by {
            if j == m.pending.len() - 1 {
                assert(next.pending[i] == m.pending[j]);
            } else {
                assert(next.pending[j] == m.pending[j]);
            }
        }
        assert forall|j: int| 0 <= j < after.pending.len() implies now < (
        #[trigger] after.pending[j]).deadline && m.pending.contains(after.pending[j]) by {
            let k = choose|k: int|
                0 <= k < next.pending.len() && next.pending[k] == after.pending[j];
            if k == i {
                assert(m.pending[m.pending.len() - 1] == after.pending[j]);
            } else {
                assert(m.pending[k] == after.pending[j]);
            }
        }
    } else {
        closing_counts(m, i + 1, now);
        kept_is_counted(m.pending, i, open);
        kept_is_counted(m.pending, i, keyed);
    }
}

/// Whether a vote that was lost is among the queries from a place on whose deadline has come.
pub open spec fn lost_vote_from<I>(pending: Seq<Pending<I>>, i: int, now: Instant) -> bool {
    exists|j: int|
        i <= j < pending.len() && (#[trigger] pending[j]).kind is Conflict && pending[j].deadline
            <= now && pending[j].responses.len() > 0 && 2 * pending[j].conflict_matching
            <= pending[j].responses.len()
}

proof fn lost_votes_end_it_from<I, A, G>(m: Machine<I, A, G>, i: int, now: Instant)
    requires
        !(m.state is Shutdown),
        0 <= i <= m.pending.len(),
    ensures
        m.closing_due(i, now).state is Shutdown <==> lost_vote_from(m.pending, i, now),
    decreases m.pending.len() - i,
{
    if i < m.pending.len() {
        let p = m.pending[i];
        if now >= p.deadline {
            let rest = membership::swap_removed(m.pending, i);
            let next = Machine { pending: rest, ..m }.closing(p);
            if !(next.state is Shutdown) {
                lost_votes_end_it_from(next, i, now);
                if lost_vote_from(m.pending, i, now) {
                    let j = choose|j: int|
                        i <= j < m.pending.len() && (#[trigger] m.pending[j]).kind is Conflict
                            && m.pending[j].deadline <= now && m.pending[j].responses.len() > 0 && 2
                            * m.pending[j].conflict_matching <= m.pending[j].responses.len();
                    if j == m.pending.len() - 1 {
                        assert(rest[i] == m.pending[j]);
                    } else {
                        assert(rest[j] == m.pending[j]);
                    }
                }
                if lost_vote_from(rest, i, now) {
                    let j = choose|j: int|
                        i <= j < rest.len() && (#[trigger] rest[j]).kind is Conflict
                            && rest[j].deadline <= now && rest[j].responses.len() > 0 && 2
                            * rest[j].conflict_matching <= rest[j].responses.len();
                    if j == i {
                        assert(m.pending[m.pending.len() - 1] == rest[j]);
                    } else {
                        assert(m.pending[j] == rest[j]);
                    }
                }
            } else {
                assert(m.pending[i].kind is Conflict);
            }
        } else {
            lost_votes_end_it_from(m, i + 1, now);
            if lost_vote_from(m.pending, i, now) {
                let j = choose|j: int|
                    i <= j < m.pending.len() && (#[trigger] m.pending[j]).kind is Conflict
                        && m.pending[j].deadline <= now && m.pending[j].responses.len() > 0 && 2
                        * m.pending[j].conflict_matching <= m.pending[j].responses.len();
                assert(j != i);
            }
        }
    }
}

/// The machine shuts down when the deadline of a vote has come at which at most half of the
/// votes were for it, if there were any; nothing else that is due shuts it down.
pub proof fn lost_votes_end_it<I, A, G>(m: Machine<I, A, G>, now: Instant)
    requires
        !(m.state is Shutdown),
    ensures
        m.closing_due(0, now).state is Shutdown <==> lost_vote_from(m.pending, 0, now),
{
    lost_votes_end_it_from(m, 0, now);
}

/// The queries whose deadline has come end, and no others: all of the others still wait.
/// Exactly those about keys are reported, each once, unless a vote is lost.
pub proof fn due_queries_end<I, A, G>(m: Machine<I, A, G>, now: Instant)
    requires
        !(m.state is Shutdown),
        !(m.closing_due(0, now).state is Shutdown),
    ensures
        ({
            let after = m.closing_due(0, now);
            &&& after.pending.len() == m.pending.filter(
                |p: Pending<I>| now < p.deadline,
            ).len()
            &&& forall|p: Pending<I>| #[trigger]
                after.pending.contains(p) <==> m.pending.contains(p) && now < p.deadline
            &&& after.reports.len() == m.reports.len() + m.pending.filter(
                |p: Pending<I>| p.kind is Key && p.deadline <= now,
            ).len()
            &&& m.reports.is_prefix_of(after.reports)
            &&& told_outcome(after.reports, m.pending, now)
            &&& after == (Machine { pending: after.pending, reports: after.reports, ..m })
        }),
{
    closing_counts(m, 0, now);
    assert(m.pending.skip(0) =~= m.pending);
    let after = m.closing_due(0, now);
    assert forall|p: Pending<I>| #[trigger]
        after.pending.contains(p) <==> m.pending.contains(p) && now < p.deadline by {
        if m.pending.contains(p) && now < p.deadline {
            let j = choose|j: int| 0 <= j < m.pending.len() && m.pending[j] == p;
            assert(after.pending.contains(m.pending[j]));
        }
        if after.pending.contains(p) {
            let j = choose|j: int| 0 <= j < after.pending.len() && after.pending[j] == p;
            assert(now < after.pending[j].deadline);
        }
    }
}

} // verus!
