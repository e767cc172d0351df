//! One pass of the capture loop, and what follows over many passes.
//!
//! A pass captures a frame and prepares it.  If the frame does not pass
//! validation, the pass ends there.  Otherwise the frame is published under
//! the store's next stamp, at most one newly registered client joins the
//! list, every client whose channel is open is signalled, and the list keeps
//! exactly the clients that received the signal.
//!
//! The steps that decide are `start_pass` (validate and publish),
//! `admit_listener` (join the new client) and `retain_delivered` (keep the
//! clients signalled); between the last two the caller signals the clients,
//! which takes waiting on channels.  Their contracts are stated over the
//! model of a pass below, whose laws are proved here.
use vstd::prelude::*;
use crate::listeners::Delivery;
use crate::listeners::lemma_kept_and_signalled_are_listeners;
use crate::listeners::signalled;
use crate::listeners::still_listening;
use crate::capture::declared_sizes_in_range;
use crate::capture::frame_passes;
use crate::capture::jpeg_decodes;
use crate::store::FrameStore;

verus! {

/// What a pass of the capture loop does that others can see.
pub enum CaptureEvent<T> {
    /// The frame is stored under this stamp.
    Published(u64),
    /// This client is signalled about the new frame.
    Signalled(T),
}

/// What the outside world contributes to one pass: whether the frame passed
/// validation, the client that registered during it, if any, and what
/// happened to each client when it was signalled.
pub struct CapturePass<T> {
    pub passes: bool,
    pub registered: Option<T>,
    pub outcomes: Seq<Delivery>,
}

/// The clients of a pass: those kept from before, then the one that
/// registered during it.
pub open spec fn pass_listeners<T>(listeners: Seq<T>, registered: Option<T>) -> Seq<T> {
    match registered {
        Some(id) => listeners.push(id),
        None => listeners,
    }
}

/// Signals, as events, to the clients `ids`.
pub open spec fn signal_events<T>(ids: Seq<T>) -> Seq<CaptureEvent<T>> {
    Seq::new(ids.len(), |i: int| CaptureEvent::Signalled(ids[i]))
}

/// The events of a pass, given the number of frames published before it
/// and the clients kept from before.
pub open spec fn pass_events<T>(published: u64, listeners: Seq<T>, pass: CapturePass<T>) -> Seq<
    CaptureEvent<T>,
> {
    if pass.passes {
        seq![CaptureEvent::<T>::Published(published)] + signal_events(
            signalled(pass_listeners(listeners, pass.registered), pass.outcomes),
        )
    } else {
        Seq::empty()
    }
}

/// The clients kept after a pass.
pub open spec fn listeners_after<T>(listeners: Seq<T>, pass: CapturePass<T>) -> Seq<T> {
    if pass.passes {
        still_listening(pass_listeners(listeners, pass.registered), pass.outcomes)
    } else {
        listeners
    }
}

/// The number of frames published after a pass.
pub open spec fn published_after(published: u64, passes: bool) -> u64 {
    if passes {
        (published + 1) as u64
    } else {
        published
    }
}

/// The events of the passes `passes`, in order.
pub open spec fn run_events<T>(published: u64, listeners: Seq<T>, passes: Seq<CapturePass<T>>) -> Seq<
    CaptureEvent<T>,
>
    decreases passes.len(),
{
    if passes.len() == 0 {
        Seq::empty()
    } else {
        pass_events(published, listeners, passes[0]) + run_events(
            published_after(published, passes[0].passes),
            listeners_after(listeners, passes[0]),
            passes.drop_first(),
        )
    }
}

/// Within a pass the frame is published before any client is signalled;
/// only clients of the pass whose channel is open are signalled; a frame
/// that fails validation is neither published nor signalled and changes
/// neither the clients nor the stamps; a client that registered during a
/// pass is signalled in that same pass unless its channel is closed.
pub proof fn lemma_pass_order<T>(published: u64, listeners: Seq<T>, pass: CapturePass<T>, x: T)
    ensures
        pass.passes ==> pass_events(published, listeners, pass)[0] == CaptureEvent::<T>::Published(
            published,
        ),
        forall|i: int|
            1 <= i < pass_events(published, listeners, pass).len() ==> #[trigger] pass_events(
                published,
                listeners,
                pass,
            )[i] is Signalled,
        pass_events(published, listeners, pass).contains(CaptureEvent::Signalled(x))
            ==> pass_listeners(listeners, pass.registered).contains(x) && pass.passes,
        listeners_after(listeners, pass).contains(x) ==> pass_listeners(listeners, pass.registered).contains(
            x,
        ),
        !pass.passes ==> pass_events(published, listeners, pass).len() == 0 && listeners_after(
            listeners,
            pass,
        ) == listeners && published_after(published, pass.passes) == published,
        pass.passes && pass.registered == Some(x) && pass_listeners(listeners, pass.registered).len()
            == pass.outcomes.len() && !(pass.outcomes[pass_listeners(listeners, pass.registered).len()
            - 1] is Closed) ==> pass_events(published, listeners, pass).contains(
            CaptureEvent::Signalled(x),
        ),
{
    let events = pass_events(published, listeners, pass);
    let clients = pass_listeners(listeners, pass.registered);
    lemma_kept_and_signalled_are_listeners(clients, pass.outcomes, x);
    if listeners.contains(x) {
        let i = choose|i: int| 0 <= i < listeners.len() && listeners[i] == x;
        assert(clients[i] == x);
    }
    if pass.passes {
        let sig = signalled(clients, pass.outcomes);
        assert forall|i: int| 1 <= i < events.len() implies #[trigger] events[i] is Signalled by {
            assert(events[i] == signal_events(sig)[i - 1]);
        }
        if events.contains(CaptureEvent::Signalled(x)) {
            let i = choose|i: int| 0 <= i < events.len() && events[i] == CaptureEvent::Signalled(x);
            assert(i >= 1);
            assert(events[i] == signal_events(sig)[i - 1]);
            assert(sig[i - 1] == x);
        }
        if pass.registered == Some(x) && clients.len() == pass.outcomes.len() && !(
        pass.outcomes[clients.len() - 1] is Closed) {
            lemma_last_is_signalled(clients, pass.outcomes);
            let k = choose|k: int| 0 <= k < sig.len() && sig[k] == clients.last();
            assert(events[k + 1] == CaptureEvent::Signalled(x));
        }
    }
}

/// The last client of a list is signalled when its channel is open.
proof fn lemma_last_is_signalled<T>(clients: Seq<T>, outcomes: Seq<Delivery>)
    requires
        clients.len() > 0,
        clients.len() == outcomes.len(),
        !(outcomes[clients.len() - 1] is Closed),
    ensures
        signalled(clients, outcomes).contains(clients.last()),
    decreases clients.len(),
{
    let sig = signalled(clients, outcomes);
    if clients.len() == 1 {
        assert(sig[0] == clients[0]);
    } else {
        let rest = clients.drop_first();
        let orest = outcomes.drop_first();
        assert(orest[rest.len() - 1] == outcomes[clients.len() - 1]);
        lemma_last_is_signalled(rest, orest);
        let sig_rest = signalled(rest, orest);
        let k = choose|k: int| 0 <= k < sig_rest.len() && sig_rest[k] == rest.last();
        if outcomes[0] is Closed {
            assert(sig[k] == clients.last());
        } else {
            assert(sig[k + 1] == clients.last());
        }
    }
}

/// A client that is not in the list, and never registers again, is never
/// signalled in any later pass: once dropped, a client stays dropped.
pub proof fn lemma_dropped_client_stays_dropped<T>(
    published: u64,
    listeners: Seq<T>,
    passes: Seq<CapturePass<T>>,
    x: T,
)
    requires
        !listeners.contains(x),
        forall|i: int| 0 <= i < passes.len() ==> #[trigger] passes[i].registered != Some(x),
    ensures
        !run_events(published, listeners, passes).contains(CaptureEvent::Signalled(x)),
    decreases passes.len(),
{
    if passes.len() > 0 {
        let pass = passes[0];
        let rest = passes.drop_first();
        let clients = pass_listeners(listeners, pass.registered);
        assert(pass.registered != Some(x));
        assert(!clients.contains(x)) by {
            if clients.contains(x) {
                let i = choose|i: int| 0 <= i < clients.len() && clients[i] == x;
                if i < listeners.len() {
                    assert(listeners[i] == x);
                }
            }
        }
        lemma_pass_order(published, listeners, pass, x);
        assert forall|i: int| 0 <= i < rest.len() implies #[trigger] rest[i].registered != Some(
            x,
        ) by {
            assert(rest[i] == passes[i + 1]);
        }
        lemma_dropped_client_stays_dropped(
            published_after(published, pass.passes),
            listeners_after(listeners, pass),
            rest,
            x,
        );
        let first = pass_events(published, listeners, pass);
        let later = run_events(
            published_after(published, pass.passes),
            listeners_after(listeners, pass),
            rest,
        );
        let all = run_events(published, listeners, passes);
        assert(all =~= first + later);
        if all.contains(CaptureEvent::Signalled(x)) {
            let i = choose|i: int| 0 <= i < all.len() && all[i] == CaptureEvent::Signalled(x);
            if i < first.len() {
                assert(first[i] == all[i]);
            } else {
                assert(later[i - first.len()] == all[i]);
            }
        }
    }
}

/// Validates a prepared frame and, if it passes, publishes it: the first
/// step of a pass.  Returns whether the frame passed; a frame that does not
/// leaves the store as it was.
pub fn start_pass(validate: bool, frame: Vec<u8>, store: &mut FrameStore) -> (passes: bool)
    requires
        validate ==> declared_sizes_in_range(frame@),
        old(store)@.published < u64::MAX,
    ensures
        passes == (!validate || jpeg_decodes(frame@)),
        final(store)@.published == published_after(old(store)@.published, passes),
        passes ==> final(store)@.stamp == Some(old(store)@.published) && final(store)@.frame
            == frame@,
        !passes ==> final(store)@ == old(store)@,
        final(store)@.wf(),
{
    let passes = frame_passes(validate, frame.as_slice());
    if passes {
        store.publish(frame);
    }
    let _ = store.published();
    passes
}

/// Adds the client that registered during a pass, if any, after the
/// clients kept from before: the clients to signal in this pass.
pub fn admit_listener<T>(listeners: Vec<T>, registered: Option<T>) -> (clients: Vec<T>)
    ensures
        clients@ == pass_listeners(listeners@, registered),
{
    let mut clients = listeners;
    match registered {
        Some(listener) => {
            clients.push(listener);
        },
        None => {},
    }
    clients
}

} // verus!
