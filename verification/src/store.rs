//! The latest camera frame, shared between the capture task and the clients.
use vstd::prelude::*;

verus! {

/// The most recently published frame, with the stamp that identifies it.
/// Every publication gets a new stamp, greater than all earlier ones; the
/// fields are private so that only publication can change them.
pub struct FrameStore {
    stamp: Option<u64>,
    frame: Vec<u8>,
    published: u64,
}

/// What a store holds: the stamp of its frame, or `None` before the first
/// publication; the frame; the number of frames published so far.
pub struct StoreView {
    pub stamp: Option<u64>,
    pub frame: Seq<u8>,
    pub published: u64,
}

impl StoreView {
    /// The stamp identifies the latest of the frames published so far.
    pub open spec fn wf(self) -> bool {
        match self.stamp {
            None => self.published == 0,
            Some(s) => s + 1 == self.published,
        }
    }
}

impl View for FrameStore {
    type V = StoreView;

    closed spec fn view(&self) -> StoreView {
        StoreView { stamp: self.stamp, frame: self.frame@, published: self.published }
    }
}

impl FrameStore {
    #[verifier::type_invariant]
    spec fn stamps_count_publications(self) -> bool {
        self@.wf()
    }

    /// A store that holds no frame yet.
    pub fn new() -> (store: Self)
        ensures
            store@.wf(),
            store@.stamp is None,
            store@.frame == Seq::<u8>::empty(),
            store@.published == 0,
    {
        FrameStore { stamp: None, frame: Vec::with_capacity(1024), published: 0 }
    }

    /// Replaces the held frame by `frame`, under a new stamp.
    pub fn publish(&mut self, frame: Vec<u8>)
        requires
            old(self)@.published < u64::MAX,
        ensures
            final(self)@.wf(),
            final(self)@.stamp == Some(old(self)@.published),
            final(self)@.frame == frame@,
            final(self)@.published == old(self)@.published + 1,
    {
        let published = self.published;
        *self = FrameStore { stamp: Some(published), frame, published: published + 1 };
    }

    /// The stamp of the frame held, or `None` before the first publication.
    pub fn stamp(&self) -> (r: Option<u64>)
        ensures
            r == self@.stamp,
            self@.wf(),
    {
        proof {
            use_type_invariant(self);
        }
        self.stamp
    }

    /// The frame held.
    pub fn frame(&self) -> (r: &[u8])
        ensures
            r@ == self@.frame,
    {
        self.frame.as_slice()
    }

    /// The number of frames published so far.
    pub fn published(&self) -> (r: u64)
        ensures
            r == self@.published,
            self@.wf(),
    {
        proof {
            use_type_invariant(self);
        }
        self.published
    }

    /// A copy of the frame held.
    pub fn copy_frame(&self) -> (frame: Vec<u8>)
        ensures
            frame@ == self@.frame,
    {
        vstd::slice::slice_to_vec(self.frame.as_slice())
    }
}

} // verus!
