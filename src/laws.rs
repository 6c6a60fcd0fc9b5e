//! What holds of every interleaving of producer and consumer steps.
use vstd::prelude::*;

use crate::model::{is_prefix, BridgeView, Deposit, Pulled};

verus! {

/// One operation on a bridging queue, by either side.
pub enum Event<T> {
    /// The producer offers an item.
    Deposit(T),
    /// The producer reports the upstream sequence exhausted.
    Finish,
    /// The consumer asks for the next item.
    Pull,
    /// The consumer goes away.
    Abandon,
}

/// What one operation answered.
pub enum Reply<T> {
    Put(Deposit<T>),
    Took(Pulled<T>),
    Done,
}

/// One operation: the next state and the answer.
pub open spec fn step<T>(v: BridgeView<T>, e: Event<T>) -> (BridgeView<T>, Reply<T>) {
    match e {
        Event::Deposit(x) => (v.deposit_spec(x).0, Reply::Put(v.deposit_spec(x).1)),
        Event::Finish => (v.finish_spec(), Reply::Done),
        Event::Pull => (v.pull_spec().0, Reply::Took(v.pull_spec().1)),
        Event::Abandon => (v.abandon_spec(), Reply::Done),
    }
}

/// The state after the operations `es`, in order.
pub open spec fn run<T>(v: BridgeView<T>, es: Seq<Event<T>>) -> BridgeView<T>
    decreases es.len(),
{
    if es.len() == 0 {
        v
    } else {
        run(step(v, es[0]).0, es.drop_first())
    }
}

/// The answers to the operations `es`, in order.
pub open spec fn replies<T>(v: BridgeView<T>, es: Seq<Event<T>>) -> Seq<Reply<T>>
    decreases es.len(),
{
    if es.len() == 0 {
        Seq::empty()
    } else {
        seq![step(v, es[0]).1] + replies(step(v, es[0]).0, es.drop_first())
    }
}

/// The items that the consumer received, in order.
pub open spec fn received<T>(rs: Seq<Reply<T>>) -> Seq<T>
    decreases rs.len(),
{
    if rs.len() == 0 {
        Seq::empty()
    } else {
        let head = match rs[0] {
            Reply::Took(Pulled::Item(x)) => seq![x],
            _ => Seq::empty(),
        };
        head + received(rs.drop_first())
    }
}

/// The items that the queue accepted from the producer, in order.
pub open spec fn accepted<T>(es: Seq<Event<T>>, rs: Seq<Reply<T>>) -> Seq<T>
    decreases es.len(),
{
    if es.len() == 0 || rs.len() == 0 {
        Seq::empty()
    } else {
        let head = match (es[0], rs[0]) {
            (Event::Deposit(x), Reply::Put(Deposit::Delivered)) => seq![x],
            _ => Seq::empty(),
        };
        head + accepted(es.drop_first(), rs.drop_first())
    }
}

/// `k` pulls by the consumer.
pub open spec fn pulls<T>(k: nat) -> Seq<Event<T>> {
    Seq::new(k, |i: int| Event::Pull)
}

/// Every operation keeps the queue in a reachable state, and moves items
/// into `sent` and `delivered` exactly as its answer says.
pub proof fn lemma_step<T>(v: BridgeView<T>, e: Event<T>)
    requires
        v.wf(),
    ensures
        step(v, e).0.wf(),
        step(v, e).0.bound == v.bound,
        step(v, e).0.delivered == v.delivered + received(seq![step(v, e).1]),
        step(v, e).0.sent == v.sent + accepted(seq![e], seq![step(v, e).1]),
{
    let s = step(v, e);
    let r = s.1;
    reveal_with_fuel(received, 2);
    reveal_with_fuel(accepted, 2);
    assert(seq![r].drop_first() =~= Seq::<Reply<T>>::empty());
    assert(seq![e].drop_first() =~= Seq::<Event<T>>::empty());
    match e {
        Event::Deposit(x) => {
            if r == Reply::<T>::Put(Deposit::Delivered) {
                assert(s.0.sent =~= v.delivered + s.0.buffered);
                assert(s.0.sent.take(v.delivered.len() as int) =~= v.delivered);
                assert(s.0.sent =~= v.sent + seq![x]);
            } else {
                assert(v.sent =~= v.sent + Seq::<T>::empty());
            }
            assert(v.delivered =~= v.delivered + Seq::<T>::empty());
        },
        Event::Pull => {
            if v.receiver_open && v.buffered.len() > 0 {
                let x = v.buffered[0];
                assert(v.delivered.push(x) + v.buffered.drop_first() =~= v.delivered + v.buffered);
                assert(s.0.sent.take(s.0.delivered.len() as int) =~= s.0.delivered);
                assert(s.0.delivered =~= v.delivered + seq![x]);
            } else {
                assert(v.delivered =~= v.delivered + Seq::<T>::empty());
            }
            assert(v.sent =~= v.sent + Seq::<T>::empty());
        },
        _ => {
            assert(v.delivered =~= v.delivered + Seq::<T>::empty());
            assert(v.sent =~= v.sent + Seq::<T>::empty());
        },
    }
}

/// Over any run of operations the queue stays in a reachable state, the
/// consumer receives exactly what moved into `delivered`, and the queue
/// accepts exactly what moved into `sent`.
pub proof fn lemma_run<T>(v: BridgeView<T>, es: Seq<Event<T>>)
    requires
        v.wf(),
    ensures
        run(v, es).wf(),
        run(v, es).bound == v.bound,
        replies(v, es).len() == es.len(),
        run(v, es).delivered == v.delivered + received(replies(v, es)),
        run(v, es).sent == v.sent + accepted(es, replies(v, es)),
    decreases es.len(),
{
    if es.len() > 0 {
        let (w, r) = step(v, es[0]);
        let rest = es.drop_first();
        lemma_step(v, es[0]);
        lemma_run(w, rest);
        let rs = replies(v, es);
        assert(rs.drop_first() =~= replies(w, rest));
        assert(rs[0] == r);
        reveal_with_fuel(received, 2);
        reveal_with_fuel(accepted, 2);
        assert(seq![r].drop_first() =~= Seq::<Reply<T>>::empty());
        assert(seq![es[0]].drop_first() =~= Seq::<Event<T>>::empty());
        assert(received(rs) =~= received(seq![r]) + received(replies(w, rest)));
        assert(accepted(es, rs) =~= accepted(seq![es[0]], seq![r]) + accepted(rest, replies(w, rest)));
        assert(run(v, es).delivered =~= v.delivered + received(rs));
        assert(run(v, es).sent =~= v.sent + accepted(es, rs));
    } else {
        assert(v.delivered =~= v.delivered + Seq::<T>::empty());
        assert(v.sent =~= v.sent + Seq::<T>::empty());
    }
}

/// Strict FIFO: whatever the capacity and however the two sides interleave,
/// the consumer receives the items that the queue accepted, in the same
/// order, with none lost, repeated or reordered; while the consumer is there,
/// what it has not received yet is exactly what is buffered.
pub proof fn lemma_order_preserved<T>(bound: Option<nat>, es: Seq<Event<T>>)
    requires
        bound matches Some(n) ==> n >= 1,
    ensures
        is_prefix(
            received(replies(BridgeView::initial(bound), es)),
            accepted(es, replies(BridgeView::initial(bound), es)),
        ),
        run(BridgeView::initial(bound), es).receiver_open ==> accepted(
            es,
            replies(BridgeView::initial(bound), es),
        ) == received(replies(BridgeView::initial(bound), es)) + run(
            BridgeView::initial(bound),
            es,
        ).buffered,
{
    let v = BridgeView::<T>::initial(bound);
    assert(v.wf()) by {
        assert(v.delivered + v.buffered =~= v.sent);
        assert(v.sent.take(0) =~= v.delivered);
    }
    lemma_run(v, es);
    let rs = replies(v, es);
    assert(run(v, es).delivered =~= received(rs));
    assert(run(v, es).sent =~= accepted(es, rs));
}

/// Once the producer has finished, pulling `k` times hands the consumer
/// every buffered item in order and then signals the end on every further
/// pull; after as many pulls as there were buffered items, every item the
/// queue accepted has been delivered.
pub proof fn lemma_drain<T>(v: BridgeView<T>, k: nat)
    requires
        v.wf(),
        v.receiver_open,
        !v.sender_open,
    ensures
        replies(v, pulls(k)).len() == k,
        forall|i: int|
            0 <= i < k && i < v.buffered.len() ==> replies(v, pulls(k))[i] == Reply::Took(
                Pulled::Item(v.buffered[i]),
            ),
        forall|i: int|
            v.buffered.len() <= i < k ==> replies(v, pulls(k))[i] == Reply::<T>::Took(
                Pulled::Ended,
            ),
        k >= v.buffered.len() ==> received(replies(v, pulls(k))) == v.buffered,
        k >= v.buffered.len() ==> run(v, pulls(k)).delivered == run(v, pulls(k)).sent,
    decreases k,
{
    let es = pulls::<T>(k);
    if k == 0 {
        if v.buffered.len() == 0 {
            assert(v.delivered + v.buffered =~= v.delivered);
            assert(received(replies(v, es)) =~= v.buffered);
        }
    } else {
        let w = v.pull_spec().0;
        let r = Reply::Took(v.pull_spec().1);
        lemma_step(v, Event::Pull);
        assert(es.drop_first() =~= pulls::<T>((k - 1) as nat));
        assert(es[0] == Event::<T>::Pull);
        lemma_drain(w, (k - 1) as nat);
        let rs = replies(v, es);
        let rest = replies(w, pulls::<T>((k - 1) as nat));
        assert(rs =~= seq![r] + rest);
        assert(rs.drop_first() =~= rest);
        if v.buffered.len() == 0 {
            assert(w == v);
            assert forall|i: int| v.buffered.len() <= i < k implies rs[i] == Reply::<T>::Took(
                Pulled::Ended,
            ) by {
                if i > 0 {
                    assert(rs[i] == rest[i - 1]);
                }
            }
            assert(received(rs) == received(rest));
        } else {
            let b = v.buffered;
            assert(w.buffered =~= b.drop_first());
            assert forall|i: int| 0 <= i < k && i < b.len() implies rs[i] == Reply::Took(
                Pulled::Item(b[i]),
            ) by {
                if i > 0 {
                    assert(rs[i] == rest[i - 1]);
                    assert(w.buffered[i - 1] == b[i]);
                }
            }
            assert forall|i: int| b.len() <= i < k implies rs[i] == Reply::<T>::Took(
                Pulled::Ended,
            ) by {
                assert(rs[i] == rest[i - 1]);
            }
            if k >= b.len() {
                assert(received(rs) == seq![b[0]] + received(rest));
                assert(seq![b[0]] + b.drop_first() =~= b);
            }
        }
    }
}

/// Without pulls, the deposits that keep the queue's record of accepted
/// items within `n` keep it there.
proof fn lemma_no_pull<T>(v: BridgeView<T>, es: Seq<Event<T>>, n: nat)
    requires
        v.wf(),
        v.bound == Some(n),
        v.delivered.len() == 0,
        v.sent.len() <= n,
        forall|i: int| 0 <= i < es.len() ==> !(es[i] is Pull),
    ensures
        run(v, es).delivered.len() == 0,
        run(v, es).sent.len() <= n,
    decreases es.len(),
{
    if es.len() > 0 {
        let w = step(v, es[0]).0;
        lemma_step(v, es[0]);
        assert(!(es[0] is Pull));
        assert(w.delivered == v.delivered);
        assert(w.sent.len() <= n);
        let rest = es.drop_first();
        assert forall|i: int| 0 <= i < rest.len() implies !(rest[i] is Pull) by {
            assert(rest[i] == es[i + 1]);
        }
        lemma_no_pull(w, rest, n);
    }
}

/// Backpressure: with a bound of `n` and a consumer that never pulls, the
/// queue accepts at most `n` items, and never holds more than `n`.
pub proof fn lemma_backpressure<T>(n: nat, es: Seq<Event<T>>)
    requires
        n >= 1,
        forall|i: int| 0 <= i < es.len() ==> !(es[i] is Pull),
    ensures
        accepted(es, replies(BridgeView::initial(Some(n)), es)).len() <= n,
        run(BridgeView::initial(Some(n)), es).buffered.len() <= n,
{
    let v = BridgeView::<T>::initial(Some(n));
    assert(v.wf()) by {
        assert(v.delivered + v.buffered =~= v.sent);
        assert(v.sent.take(0) =~= v.delivered);
    }
    lemma_run(v, es);
    lemma_no_pull(v, es, n);
    assert(run(v, es).sent =~= accepted(es, replies(v, es)));
}

/// Cancellation: once the consumer is gone, every deposit finds the queue
/// closed, so the producer stops at its next attempt; every pull signals the
/// end, and the queue accepts nothing more.
pub proof fn lemma_cancellation<T>(v: BridgeView<T>, es: Seq<Event<T>>)
    requires
        v.wf(),
        !v.receiver_open,
    ensures
        forall|i: int|
            0 <= i < es.len() && es[i] is Deposit ==> replies(v, es)[i] == Reply::<T>::Put(
                Deposit::Closed,
            ),
        forall|i: int|
            0 <= i < es.len() && es[i] is Pull ==> replies(v, es)[i] == Reply::<T>::Took(
                Pulled::Ended,
            ),
        accepted(es, replies(v, es)).len() == 0,
        !run(v, es).receiver_open,
        run(v, es).sent == v.sent,
    decreases es.len(),
{
    lemma_run(v, es);
    if es.len() > 0 {
        let w = step(v, es[0]).0;
        let rest = es.drop_first();
        lemma_step(v, es[0]);
        lemma_cancellation(w, rest);
        let rs = replies(v, es);
        assert(rs.drop_first() =~= replies(w, rest));
        assert forall|i: int| 0 <= i < es.len() && es[i] is Deposit implies rs[i]
            == Reply::<T>::Put(Deposit::Closed) by {
            if i > 0 {
                assert(rs[i] == replies(w, rest)[i - 1]);
                assert(es[i] == rest[i - 1]);
            }
        }
        assert forall|i: int| 0 <= i < es.len() && es[i] is Pull implies rs[i]
            == Reply::<T>::Took(Pulled::Ended) by {
            if i > 0 {
                assert(rs[i] == replies(w, rest)[i - 1]);
                assert(es[i] == rest[i - 1]);
            }
        }
    }
    assert(v.sent + accepted(es, replies(v, es)) == v.sent);
    assert((v.sent + accepted(es, replies(v, es))).len() == v.sent.len() + accepted(es, replies(v, es)).len());
}

/// Running `a` then `b` is running `a + b`.
proof fn lemma_run_split<T>(v: BridgeView<T>, a: Seq<Event<T>>, b: Seq<Event<T>>)
    ensures
        run(v, a + b) == run(run(v, a), b),
        replies(v, a + b) == replies(v, a) + replies(run(v, a), b),
    decreases a.len(),
{
    if a.len() == 0 {
        assert(a + b =~= b);
        assert(replies(v, a) + replies(v, b) =~= replies(v, b));
    } else {
        let w = step(v, a[0]).0;
        assert((a + b).drop_first() =~= a.drop_first() + b);
        assert((a + b)[0] == a[0]);
        lemma_run_split(w, a.drop_first(), b);
        assert(replies(v, a + b) =~= replies(v, a) + replies(run(v, a), b));
    }
}

/// What the consumer received over two runs of answers, one after the other.
proof fn lemma_received_split<T>(a: Seq<Reply<T>>, b: Seq<Reply<T>>)
    ensures
        received(a + b) == received(a) + received(b),
    decreases a.len(),
{
    if a.len() == 0 {
        assert(a + b =~= b);
        assert(received(a) + received(b) =~= received(b));
    } else {
        assert((a + b).drop_first() =~= a.drop_first() + b);
        assert((a + b)[0] == a[0]);
        lemma_received_split(a.drop_first(), b);
        let head = match a[0] {
            Reply::Took(Pulled::Item(x)) => seq![x],
            _ => Seq::empty(),
        };
        assert(received(a + b) =~= head + (received(a.drop_first()) + received(b)));
        assert(received(a + b) =~= received(a) + received(b));
    }
}

/// Completeness: from a fresh queue, once the producer has finished and the
/// consumer is still there, pulling until the end hands the consumer exactly
/// the items the queue accepted, in order, and every pull from then on
/// signals the end.
pub proof fn lemma_completeness<T>(bound: Option<nat>, es: Seq<Event<T>>, k: nat)
    requires
        bound matches Some(n) ==> n >= 1,
        !run(BridgeView::initial(bound), es).sender_open,
        run(BridgeView::initial(bound), es).receiver_open,
        k >= run(BridgeView::initial(bound), es).buffered.len(),
    ensures
        received(replies(BridgeView::initial(bound), es + pulls(k))) == accepted(
            es,
            replies(BridgeView::initial(bound), es),
        ),
        forall|i: int|
            es.len() + run(BridgeView::initial(bound), es).buffered.len() <= i < es.len() + k
                ==> replies(BridgeView::initial(bound), es + pulls(k))[i] == Reply::<T>::Took(
                Pulled::Ended,
            ),
{
    let v = BridgeView::<T>::initial(bound);
    let s = run(v, es);
    lemma_order_preserved(bound, es);
    assert(v.wf()) by {
        assert(v.delivered + v.buffered =~= v.sent);
        assert(v.sent.take(0) =~= v.delivered);
    }
    lemma_run(v, es);
    lemma_drain(s, k);
    lemma_run_split(v, es, pulls(k));
    let rs1 = replies(v, es);
    let rs2 = replies(s, pulls::<T>(k));
    lemma_received_split(rs1, rs2);
    assert forall|i: int| es.len() + s.buffered.len() <= i < es.len() + k implies (rs1 + rs2)[i]
        == Reply::<T>::Took(Pulled::Ended) by {
        assert((rs1 + rs2)[i] == rs2[i - es.len()]);
    }
}

} // verus!
