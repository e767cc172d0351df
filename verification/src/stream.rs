//! The per-client side of the MJPEG stream: which signalled frames are sent.
use vstd::prelude::*;
use crate::counter::FrameCounter;
use crate::counter::tick_outcome;
use crate::multipart::encode_part;
use crate::multipart::frame_part;
use crate::store::StoreView;

verus! {

/// What a client session does with the frame it was signalled about.
pub enum StreamStep {
    /// The frame carries no stamp; nothing is sent.
    MissingStamp,
    /// The frame is the one sent last; nothing is sent.
    Stale,
    /// The part to send, and the number of frames to report, if a report is due.
    Deliver { part: Vec<u8>, report: Option<u64> },
}

/// The state of one client of the stream.
pub struct StreamSession {
    /// Stamp of the last frame sent to this client.
    pub last_sent: Option<u64>,
    /// Frames sent since the last report.
    pub counter: FrameCounter,
}

/// A frame stamped `stamp` is sent to a client that last got `last_sent`
/// when it has a stamp, and the client did not get it already.
pub open spec fn is_fresh(last_sent: Option<u64>, stamp: Option<u64>) -> bool {
    stamp is Some && last_sent != stamp
}

impl StreamSession {
    /// A session that has sent nothing yet.
    pub fn new() -> (s: Self)
        ensures
            s.last_sent is None,
            s.counter.count == 0,
    {
        StreamSession { last_sent: None, counter: FrameCounter::new() }
    }

    /// Handles a signal that the store holds `frame` under `stamp`, when
    /// `secs_since_report` whole seconds have passed since the last report.
    pub fn on_frame(&mut self, stamp: Option<u64>, frame: &[u8], secs_since_report: u64) -> (step:
        StreamStep)
        requires
            old(self).counter.count < u64::MAX,
        ensures
            stamp is None ==> step is MissingStamp && *final(self) == *old(self),
            stamp is Some && !is_fresh(old(self).last_sent, stamp) ==> step is Stale && *final(self)
                == *old(self),
            is_fresh(old(self).last_sent, stamp) ==> {
                &&& step matches StreamStep::Deliver { part, report } && part@ == frame_part(frame@)
                    && report == tick_outcome(old(self).counter.count, secs_since_report).1
                &&& final(self).last_sent == stamp
                &&& final(self).last_sent == last_after(old(self).last_sent, stamp)
                &&& final(self).counter.count == tick_outcome(
                    old(self).counter.count,
                    secs_since_report,
                ).0
            },
    {
        let s = match stamp {
            None => {
                return StreamStep::MissingStamp;
            },
            Some(s) => s,
        };
        match self.last_sent {
            Some(last) => {
                if last == s {
                    return StreamStep::Stale;
                }
            },
            None => {},
        }
        let part = encode_part(frame);
        self.last_sent = stamp;
        let report = self.counter.tick(secs_since_report);
        StreamStep::Deliver { part, report }
    }
}

/// The stamp a client last got after a signal about a frame stamped `stamp`.
pub open spec fn last_after(last_sent: Option<u64>, stamp: Option<u64>) -> Option<u64> {
    if is_fresh(last_sent, stamp) {
        stamp
    } else {
        last_sent
    }
}

/// The stamps of the parts sent to a client that last got `last_sent`,
/// when it is signalled in turn about frames stamped `signals[0]`,
/// `signals[1]`, ...: each signal sends at most one part, the part of the
/// frame read after it, when that frame is fresh.
pub open spec fn parts_sent(last_sent: Option<u64>, signals: Seq<Option<u64>>) -> Seq<u64>
    decreases signals.len(),
{
    if signals.len() == 0 {
        Seq::empty()
    } else if is_fresh(last_sent, signals[0]) {
        seq![signals[0]->0] + parts_sent(signals[0], signals.drop_first())
    } else {
        parts_sent(last_sent, signals.drop_first())
    }
}

/// Over any sequence of signals a client gets at most one part per signal,
/// only parts of stamped frames that it was signalled about, never the
/// frame it got last, and never the same frame in two parts in a row.
pub proof fn lemma_parts_over_signals(last_sent: Option<u64>, signals: Seq<Option<u64>>)
    ensures
        parts_sent(last_sent, signals).len() <= signals.len(),
        forall|i: int|
            0 <= i < parts_sent(last_sent, signals).len() ==> exists|j: int|
                0 <= j < signals.len() && signals[j] == Some(#[trigger] parts_sent(last_sent, signals)[i]),
        forall|i: int|
            0 <= i < parts_sent(last_sent, signals).len() - 1 ==> #[trigger] parts_sent(
                last_sent,
                signals,
            )[i] != parts_sent(last_sent, signals)[i + 1],
        last_sent is Some && parts_sent(last_sent, signals).len() > 0 ==> parts_sent(
            last_sent,
            signals,
        )[0] != last_sent->0,
    decreases signals.len(),
{
    if signals.len() > 0 {
        let rest = signals.drop_first();
        let sent = parts_sent(last_sent, signals);
        if is_fresh(last_sent, signals[0]) {
            lemma_parts_over_signals(signals[0], rest);
            let tail = parts_sent(signals[0], rest);
            assert(sent =~= seq![signals[0]->0] + tail);
            assert forall|i: int| 0 <= i < sent.len() implies exists|j: int|
                0 <= j < signals.len() && signals[j] == Some(#[trigger] sent[i]) by {
                if i == 0 {
                    assert(signals[0] == Some(sent[0]));
                } else {
                    assert(sent[i] == tail[i - 1]);
                    let j = choose|j: int| 0 <= j < rest.len() && rest[j] == Some(tail[i - 1]);
                    assert(signals[j + 1] == rest[j]);
                }
            }
            assert forall|i: int| 0 <= i < sent.len() - 1 implies #[trigger] sent[i] != sent[i
                + 1] by {
                if i > 0 {
                    assert(sent[i] == tail[i - 1] && sent[i + 1] == tail[i]);
                }
            }
        } else {
            lemma_parts_over_signals(last_sent, rest);
            assert forall|i: int| 0 <= i < sent.len() implies exists|j: int|
                0 <= j < signals.len() && signals[j] == Some(#[trigger] sent[i]) by {
                let j = choose|j: int| 0 <= j < rest.len() && rest[j] == Some(sent[i]);
                assert(signals[j + 1] == rest[j]);
            }
        }
    }
}

/// Every newly published frame is fresh for every client whose last frame
/// came from the same store: its stamp differs from all earlier stamps.
pub proof fn lemma_published_frame_is_fresh(
    before: StoreView,
    after: StoreView,
    last_sent: Option<u64>,
)
    requires
        before.wf(),
        after.wf(),
        after.stamp == Some(before.published),
        last_sent matches Some(s) ==> s < before.published,
    ensures
        is_fresh(last_sent, after.stamp),
{
}

} // verus!
