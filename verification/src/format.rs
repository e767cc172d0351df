//! Choice of the camera's capture format.
//!
//! The camera is switched to MJPEG, and among the MJPEG frame sizes that it
//! offers, each one that is strictly smaller in both dimensions than the
//! active format is requested in turn; the device answers each request
//! with the format it actually adopted.
use vstd::prelude::*;

verus! {

/// The four-character code of Motion-JPEG, "MJPG".
pub const MJPG: [u8; 4] = [0x4d, 0x4a, 0x50, 0x47];

/// A capture format: frame size and pixel format code.
#[derive(Clone, Copy)]
pub struct FrameFormat {
    pub width: u32,
    pub height: u32,
    pub fourcc: [u8; 4],
}

/// Why the camera cannot be used.
pub enum SetupError {
    /// The device did not end up delivering Motion-JPEG.
    MjpgUnsupported,
}

impl SetupError {
    /// A description of the error.
    pub fn message(&self) -> (m: &'static str)
        ensures
            m@ == "mjpg-format not supported"@,
    {
        match self {
            SetupError::MjpgUnsupported => "mjpg-format not supported",
        }
    }
}

/// `code` is the code of Motion-JPEG.
pub open spec fn is_mjpg(code: Seq<u8>) -> bool {
    code == MJPG@
}

/// Whether the pixel format code `code` is Motion-JPEG.
pub fn fourcc_is_mjpg(code: &[u8; 4]) -> (r: bool)
    ensures
        r == is_mjpg(code@),
        r == (code@ == seq![0x4du8, 0x4au8, 0x50u8, 0x47u8]),
{
    let r = code[0] == 0x4d && code[1] == 0x4a && code[2] == 0x50 && code[3] == 0x47;
    proof {
        if r {
            assert(code@ =~= MJPG@);
        }
    }
    r
}

/// The format requested for a candidate frame size, when the active format
/// is `active`: Motion-JPEG at that size, if it is strictly smaller in both
/// dimensions.
pub open spec fn request(active: FrameFormat, width: u32, height: u32) -> Option<FrameFormat> {
    if width < active.width && height < active.height {
        Some(FrameFormat { width, height, fourcc: MJPG })
    } else {
        None
    }
}

/// The search for a capture format, holding the format the device has
/// adopted so far.
pub struct FormatSearch {
    pub active: FrameFormat,
}

impl FormatSearch {
    /// Starts from the format the device reports as active.
    pub fn new(active: FrameFormat) -> (s: Self)
        ensures
            s.active == active,
    {
        FormatSearch { active }
    }

    /// Whether the frame sizes of a format description with code `code`
    /// are considered: only those of Motion-JPEG are.
    pub fn considers(code: &[u8; 4]) -> (r: bool)
        ensures
            r == is_mjpg(code@),
            r == (code@ == seq![0x4du8, 0x4au8, 0x50u8, 0x47u8]),
    {
        fourcc_is_mjpg(code)
    }

    /// The format to request for the candidate frame size, if any.
    pub fn request_for(&self, width: u32, height: u32) -> (r: Option<FrameFormat>)
        ensures
            r == request(self.active, width, height),
            width < self.active.width && height < self.active.height ==> r == Some(
                FrameFormat { width, height, fourcc: [0x4d, 0x4a, 0x50, 0x47] },
            ),
            !(width < self.active.width && height < self.active.height) ==> r is None,
    {
        if width < self.active.width && height < self.active.height {
            Some(FrameFormat { width, height, fourcc: MJPG })
        } else {
            None
        }
    }

    /// Records the format the device adopted after a request.
    pub fn adopt(&mut self, active: FrameFormat)
        ensures
            final(self).active == active,
    {
        self.active = active;
    }

    /// The format to capture with: the active one, if it is Motion-JPEG.
    pub fn finish(&self) -> (r: Result<FrameFormat, SetupError>)
        ensures
            is_mjpg(self.active.fourcc@) ==> r == Ok::<FrameFormat, SetupError>(self.active),
            !is_mjpg(self.active.fourcc@) ==> r matches Err(SetupError::MjpgUnsupported),
            r is Ok <==> self.active.fourcc@ == seq![0x4du8, 0x4au8, 0x50u8, 0x47u8],
            r is Ok ==> r == Ok::<FrameFormat, SetupError>(self.active),
    {
        if fourcc_is_mjpg(&self.active.fourcc) {
            Ok(self.active)
        } else {
            Err(SetupError::MjpgUnsupported)
        }
    }
}

/// Motion-JPEG is the code "MJPG" and no other: the bytes 0x4d 0x4a 0x50
/// 0x47.
pub proof fn lemma_mjpg_is_only_mjpg(code: Seq<u8>)
    ensures
        is_mjpg(code) <==> code == seq![0x4du8, 0x4au8, 0x50u8, 0x47u8],
{
    assert(MJPG@ =~= seq![0x4du8, 0x4au8, 0x50u8, 0x47u8]);
}

/// A candidate size is requested exactly when it is strictly smaller than
/// the active format in both dimensions, and then as Motion-JPEG at that
/// very size; otherwise nothing is requested.
pub proof fn lemma_request_exactly_smaller(active: FrameFormat, width: u32, height: u32)
    ensures
        width < active.width && height < active.height ==> (request(active, width, height) matches Some(f)
            && f.width == width && f.height == height && f.fourcc@ == seq![0x4du8, 0x4au8, 0x50u8, 0x47u8]),
        request(active, width, height) is Some <==> width < active.width && height < active.height,
{
    assert(MJPG@ =~= seq![0x4du8, 0x4au8, 0x50u8, 0x47u8]);
}

/// Every requested format is Motion-JPEG and strictly smaller in both
/// dimensions than the format active when it is requested.
pub proof fn lemma_requests_shrink(active: FrameFormat, width: u32, height: u32)
    ensures
        request(active, width, height) matches Some(f) ==> is_mjpg(f.fourcc@) && f.width
            < active.width && f.height < active.height,
{
}

/// The frame sizes offered by the format descriptions `descs`, each a pixel
/// format code with its frame sizes, that the search considers: those of the
/// Motion-JPEG descriptions, in the order they are enumerated.
pub open spec fn considered_sizes(descs: Seq<(Seq<u8>, Seq<(u32, u32)>)>) -> Seq<(u32, u32)>
    decreases descs.len(),
{
    if descs.len() == 0 {
        Seq::empty()
    } else {
        let rest = considered_sizes(descs.drop_first());
        if is_mjpg(descs[0].0) {
            descs[0].1 + rest
        } else {
            rest
        }
    }
}

/// Some Motion-JPEG description of `descs` offers `size`.
pub open spec fn offered_as_mjpg(descs: Seq<(Seq<u8>, Seq<(u32, u32)>)>, size: (u32, u32)) -> bool {
    exists|d: int| 0 <= d < descs.len() && is_mjpg(descs[d].0) && #[trigger] descs[d].1.contains(size)
}

/// Every size the search considers is offered by a Motion-JPEG description.
pub proof fn lemma_only_mjpg_sizes_considered(descs: Seq<(Seq<u8>, Seq<(u32, u32)>)>)
    ensures
        forall|i: int|
            0 <= i < considered_sizes(descs).len() ==> offered_as_mjpg(
                descs,
                #[trigger] considered_sizes(descs)[i],
            ),
    decreases descs.len(),
{
    if descs.len() > 0 {
        let rest = descs.drop_first();
        lemma_only_mjpg_sizes_considered(rest);
        let all = considered_sizes(descs);
        let tail = considered_sizes(rest);
        assert forall|i: int| 0 <= i < all.len() implies offered_as_mjpg(descs, #[trigger] all[i]) by {
            if is_mjpg(descs[0].0) && i < descs[0].1.len() {
                assert(all[i] == descs[0].1[i]);
                assert(descs[0].1.contains(all[i]));
            } else {
                let k = if is_mjpg(descs[0].0) {
                    i - descs[0].1.len()
                } else {
                    i
                };
                assert(all[i] == tail[k]);
                assert(offered_as_mjpg(rest, tail[k]));
                let d = choose|d: int|
                    0 <= d < rest.len() && is_mjpg(rest[d].0) && #[trigger] rest[d].1.contains(
                        tail[k],
                    );
                assert(descs[d + 1] == rest[d]);
                assert(descs[d + 1].1.contains(all[i]));
            }
        }
    }
}

/// The format active after a candidate size, when the device adopts every
/// request exactly.
pub open spec fn adopted(active: FrameFormat, size: (u32, u32)) -> FrameFormat {
    match request(active, size.0, size.1) {
        Some(f) => f,
        None => active,
    }
}

/// The formats requested, in order, when the candidate sizes `sizes` are
/// offered in turn starting from `active`, and the device adopts every
/// request exactly.
pub open spec fn requests_made(active: FrameFormat, sizes: Seq<(u32, u32)>) -> Seq<FrameFormat>
    decreases sizes.len(),
{
    if sizes.len() == 0 {
        Seq::empty()
    } else {
        match request(active, sizes[0].0, sizes[0].1) {
            Some(f) => seq![f] + requests_made(f, sizes.drop_first()),
            None => requests_made(active, sizes.drop_first()),
        }
    }
}

/// The format active at the end of that negotiation.
pub open spec fn negotiate(active: FrameFormat, sizes: Seq<(u32, u32)>) -> FrameFormat
    decreases sizes.len(),
{
    if sizes.len() == 0 {
        active
    } else {
        negotiate(adopted(active, sizes[0]), sizes.drop_first())
    }
}

/// Over a whole negotiation in which the device adopts every request
/// exactly: every request is Motion-JPEG, the first is strictly smaller in
/// both dimensions than the initial format and each later one strictly
/// smaller than the one before; the final format is the last request, or
/// the initial format if none was made, so it is never larger than the
/// initial one.
pub proof fn lemma_negotiation_shrinks(active: FrameFormat, sizes: Seq<(u32, u32)>)
    ensures
        ({
            let reqs = requests_made(active, sizes);
            let last = negotiate(active, sizes);
            &&& reqs.len() <= sizes.len()
            &&& forall|i: int| 0 <= i < reqs.len() ==> is_mjpg(#[trigger] reqs[i].fourcc@)
            &&& reqs.len() > 0 ==> reqs[0].width < active.width && reqs[0].height < active.height
            &&& forall|i: int|
                0 <= i < reqs.len() - 1 ==> #[trigger] reqs[i + 1].width < reqs[i].width
                    && reqs[i + 1].height < reqs[i].height
            &&& reqs.len() == 0 ==> last == active
            &&& reqs.len() > 0 ==> last == reqs.last()
            &&& last.width <= active.width && last.height <= active.height
        }),
    decreases sizes.len(),
{
    if sizes.len() > 0 {
        let rest = sizes.drop_first();
        match request(active, sizes[0].0, sizes[0].1) {
            Some(f) => {
                lemma_negotiation_shrinks(f, rest);
                let tail = requests_made(f, rest);
                let reqs = requests_made(active, sizes);
                assert(reqs =~= seq![f] + tail);
                assert(f.fourcc@ =~= MJPG@);
                assert forall|i: int| 0 <= i < reqs.len() implies is_mjpg(#[trigger] reqs[i].fourcc@) by {
                    if i > 0 {
                        assert(reqs[i] == tail[i - 1]);
                    }
                }
                assert forall|i: int| 0 <= i < reqs.len() - 1 implies #[trigger] reqs[i + 1].width
                    < reqs[i].width && reqs[i + 1].height < reqs[i].height by {
                    assert(reqs[i + 1] == tail[i]);
                    if i > 0 {
                        assert(reqs[i] == tail[i - 1]);
                        assert(tail[(i - 1) + 1].width < tail[i - 1].width);
                    } else {
                        assert(reqs[0] == f);
                    }
                }
            },
            None => {
                lemma_negotiation_shrinks(active, rest);
            },
        }
    }
}

} // verus!
