//! The clients waiting for new-frame signals.
use vstd::prelude::*;

verus! {

/// What happened when a client was signalled about a new frame.
#[derive(Clone, Copy)]
pub enum Delivery {
    /// The client's channel was closed; it was not signalled.
    Closed,
    /// Sending the signal failed.
    Failed,
    /// The signal was delivered.
    Delivered,
}

/// The clients of `listeners` that were signalled successfully, in their order.
pub open spec fn still_listening<T>(listeners: Seq<T>, outcomes: Seq<Delivery>) -> Seq<T>
    decreases listeners.len(),
{
    if listeners.len() == 0 {
        Seq::empty()
    } else {
        let rest = still_listening(listeners.drop_first(), outcomes.drop_first());
        if outcomes[0] is Delivered {
            seq![listeners[0]].add(rest)
        } else {
            rest
        }
    }
}

/// The clients of `listeners` that are signalled: those whose channel is open.
pub open spec fn signalled<T>(listeners: Seq<T>, outcomes: Seq<Delivery>) -> Seq<T>
    decreases listeners.len(),
{
    if listeners.len() == 0 {
        Seq::empty()
    } else {
        let rest = signalled(listeners.drop_first(), outcomes.drop_first());
        if outcomes[0] is Closed {
            rest
        } else {
            seq![listeners[0]].add(rest)
        }
    }
}

/// Only clients of the list are kept or signalled, and a client whose
/// channel is closed is neither.
pub proof fn lemma_kept_and_signalled_are_listeners<T>(
    listeners: Seq<T>,
    outcomes: Seq<Delivery>,
    x: T,
)
    ensures
        still_listening(listeners, outcomes).contains(x) ==> listeners.contains(x),
        signalled(listeners, outcomes).contains(x) ==> listeners.contains(x),
        still_listening(listeners, outcomes).contains(x) ==> signalled(listeners, outcomes).contains(x),
    decreases listeners.len(),
{
    if listeners.len() > 0 {
        let rest = listeners.drop_first();
        let orest = outcomes.drop_first();
        lemma_kept_and_signalled_are_listeners(rest, orest, x);
        let kept = still_listening(listeners, outcomes);
        let sig = signalled(listeners, outcomes);
        let kept_rest = still_listening(rest, orest);
        let sig_rest = signalled(rest, orest);
        if kept.contains(x) {
            let i = choose|i: int| 0 <= i < kept.len() && kept[i] == x;
            if outcomes[0] is Delivered {
                if i == 0 {
                    assert(listeners[0] == x);
                    assert(sig[0] == x);
                } else {
                    assert(kept_rest[i - 1] == x);
                    let j = choose|j: int| 0 <= j < rest.len() && rest[j] == x;
                    assert(listeners[j + 1] == x);
                    let k = choose|k: int| 0 <= k < sig_rest.len() && sig_rest[k] == x;
                    assert(sig[k + 1] == x);
                }
            } else {
                assert(kept_rest[i] == x);
                let j = choose|j: int| 0 <= j < rest.len() && rest[j] == x;
                assert(listeners[j + 1] == x);
                let k = choose|k: int| 0 <= k < sig_rest.len() && sig_rest[k] == x;
                if outcomes[0] is Closed {
                    assert(sig[k] == x);
                } else {
                    assert(sig[k + 1] == x);
                }
            }
        }
        if sig.contains(x) {
            let i = choose|i: int| 0 <= i < sig.len() && sig[i] == x;
            if !(outcomes[0] is Closed) {
                if i == 0 {
                    assert(listeners[0] == x);
                } else {
                    assert(sig_rest[i - 1] == x);
                    let j = choose|j: int| 0 <= j < rest.len() && rest[j] == x;
                    assert(listeners[j + 1] == x);
                }
            } else {
                assert(sig_rest[i] == x);
                let j = choose|j: int| 0 <= j < rest.len() && rest[j] == x;
                assert(listeners[j + 1] == x);
            }
        }
    }
}

/// The number of clients among the first `n` whose signal was delivered.
pub open spec fn delivered_count(outcomes: Seq<Delivery>, n: int) -> nat
    decreases n,
{
    if n <= 0 {
        0
    } else {
        delivered_count(outcomes, n - 1) + if outcomes[n - 1] is Delivered {
            1nat
        } else {
            0nat
        }
    }
}

/// Counting from the second client on, one delivery fewer is counted when
/// the first one was delivered.
proof fn lemma_delivered_count_drop_first(outcomes: Seq<Delivery>, n: int)
    requires
        1 <= n <= outcomes.len(),
    ensures
        delivered_count(outcomes, n) == delivered_count(outcomes.drop_first(), n - 1) + if outcomes[0] is Delivered {
            1nat
        } else {
            0nat
        },
    decreases n,
{
    if n > 1 {
        lemma_delivered_count_drop_first(outcomes, n - 1);
        assert(outcomes.drop_first()[n - 2] == outcomes[n - 1]);
    } else {
        assert(delivered_count(outcomes, 0) == 0);
        assert(delivered_count(outcomes.drop_first(), 0) == 0);
    }
}

/// Counting deliveries only grows with the number of clients counted.
proof fn lemma_delivered_count_monotone(outcomes: Seq<Delivery>, m: int, n: int)
    requires
        0 <= m <= n,
    ensures
        delivered_count(outcomes, m) <= delivered_count(outcomes, n),
    decreases n - m,
{
    if m < n {
        lemma_delivered_count_monotone(outcomes, m, n - 1);
    }
}

/// The clients kept are exactly those whose signal was delivered, each once
/// and in their order: as many as there were deliveries, and the client at
/// index `i`, when delivered, is kept at the position given by the number of
/// deliveries before it.
pub proof fn lemma_kept_are_the_delivered<T>(listeners: Seq<T>, outcomes: Seq<Delivery>)
    requires
        outcomes.len() == listeners.len(),
    ensures
        still_listening(listeners, outcomes).len() == delivered_count(outcomes, listeners.len() as int),
        forall|i: int|
            0 <= i < listeners.len() && #[trigger] outcomes[i] is Delivered ==> still_listening(
                listeners,
                outcomes,
            )[delivered_count(outcomes, i) as int] == listeners[i],
    decreases listeners.len(),
{
    if listeners.len() > 0 {
        let rest = listeners.drop_first();
        let orest = outcomes.drop_first();
        lemma_kept_are_the_delivered(rest, orest);
        lemma_delivered_count_drop_first(outcomes, listeners.len() as int);
        let kept = still_listening(listeners, outcomes);
        let kept_rest = still_listening(rest, orest);
        assert forall|i: int|
            0 <= i < listeners.len() && #[trigger] outcomes[i] is Delivered implies kept[delivered_count(
                outcomes,
                i,
            ) as int] == listeners[i] by {
            if i == 0 {
                assert(delivered_count(outcomes, 0) == 0);
            } else {
                lemma_delivered_count_drop_first(outcomes, i);
                assert(orest[i - 1] == outcomes[i]);
                assert(rest[i - 1] == listeners[i]);
                lemma_delivered_count_monotone(orest, i - 1, rest.len() as int);
                lemma_delivered_count_monotone(orest, i, rest.len() as int);
                assert(kept_rest[delivered_count(orest, i - 1) as int] == rest[i - 1]);
            }
        }
    }
}

/// Keeps the clients that were signalled successfully, in their order;
/// `outcomes[i]` is what happened to `listeners[i]`.
pub fn retain_delivered<T>(listeners: Vec<T>, outcomes: &Vec<Delivery>) -> (kept: Vec<T>)
    requires
        outcomes@.len() == listeners@.len(),
    ensures
        kept@ == still_listening(listeners@, outcomes@),
        kept@.len() == delivered_count(outcomes@, listeners@.len() as int),
        forall|i: int|
            0 <= i < listeners@.len() && #[trigger] outcomes@[i] is Delivered ==> kept@[delivered_count(
                outcomes@,
                i,
            ) as int] == listeners@[i],
{
    let ghost all = listeners@;
    let total = listeners.len();
    let mut rest = listeners;
    let mut kept: Vec<T> = Vec::new();
    let mut i: usize = 0;
    proof {
        assert(all.skip(0) =~= all);
        assert(outcomes@.skip(0) =~= outcomes@);
        assert(kept@ + still_listening(all, outcomes@) =~= still_listening(all, outcomes@));
    }
    while rest.len() > 0
        invariant
            i + rest@.len() == all.len(),
            all.len() == total,
            outcomes@.len() == all.len(),
            rest@ == all.skip(i as int),
            kept@ + still_listening(rest@, outcomes@.skip(i as int)) == still_listening(
                all,
                outcomes@,
            ),
        decreases rest@.len(),
    {
        let ghost before = rest@;
        let listener = rest.remove(0);
        proof {
            assert(before.drop_first() =~= rest@);
            assert(outcomes@.skip(i as int).drop_first() =~= outcomes@.skip(i + 1));
            assert(rest@ =~= all.skip(i + 1));
            assert(outcomes@.skip(i as int)[0] == outcomes@[i as int]);
        }
        match outcomes[i] {
            Delivery::Delivered => {
                let ghost k = kept@;
                kept.push(listener);
                proof {
                    assert(k.push(before[0]) + still_listening(rest@, outcomes@.skip(i + 1)) =~= k
                        + (seq![before[0]] + still_listening(rest@, outcomes@.skip(i + 1))));
                }
            },
            _ => {},
        }
        i = i + 1;
    }
    proof {
        assert(kept@ + Seq::<T>::empty() =~= kept@);
        lemma_kept_are_the_delivered(all, outcomes@);
    }
    kept
}

} // verus!
