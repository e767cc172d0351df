//! The capture side: preparing each camera frame before it is published.
use vstd::prelude::*;
use crate::counter::FrameCounter;
use crate::counter::tick_outcome;
use crate::huffman::finds_frame_start;
use crate::huffman::finds_huffman_table;
use crate::huffman::lemma_repair_idempotent;
use crate::huffman::HUFFMAN_TABLE_LEN;
use crate::huffman::insert_default_huffman;
use crate::huffman::scan_fits;
use crate::huffman::with_default_table;

verus! {

/// Whether the JPEG decoder of the jpeg-decoder crate decodes `data`
/// without error.
pub uninterp spec fn jpeg_decodes(data: Seq<u8>) -> bool;

/// The largest frame height and width that the decoder is given.
pub const DECODABLE_DIMENSION_LIMIT: u32 = 65528;

/// `code` is the second byte of a start-of-frame marker, of any coding
/// process: 0xc0 to 0xcf, except 0xc4 (DHT), 0xc8 (JPG) and 0xcc (DAC).
pub open spec fn is_sof_code(code: u8) -> bool {
    0xc0 <= code <= 0xcf && code != 0xc4 && code != 0xc8 && code != 0xcc
}

/// A complete frame header starts at index `p`: a start-of-frame marker
/// followed by its length, precision, height and width.
pub open spec fn frame_header_at(data: Seq<u8>, p: int) -> bool {
    0 <= p && p + 8 < data.len() && data[p] == 0xff && is_sof_code(data[p + 1])
}

/// The big-endian 16-bit number of the bytes `hi` and `lo`.
pub open spec fn be16(hi: u8, lo: u8) -> int {
    hi * 256 + lo
}

/// Every complete frame header in `data` declares a height and a width of
/// at most the limit.
pub open spec fn declared_sizes_in_range(data: Seq<u8>) -> bool {
    forall|p: int|
        #[trigger] frame_header_at(data, p) ==> be16(data[p + 5], data[p + 6])
            <= DECODABLE_DIMENSION_LIMIT && be16(data[p + 7], data[p + 8])
            <= DECODABLE_DIMENSION_LIMIT
}

/// Whether every complete frame header in `frame` declares a height and a
/// width of at most the limit.
pub fn frame_sizes_in_range(frame: &[u8]) -> (r: bool)
    ensures
        r == declared_sizes_in_range(frame@),
{
    let len = frame.len();
    let mut p: usize = 0;
    while p < len && len - p > 8
        invariant
            p <= len,
            len == frame@.len(),
            forall|q: int|
                0 <= q < p && #[trigger] frame_header_at(frame@, q) ==> be16(
                    frame@[q + 5],
                    frame@[q + 6],
                ) <= DECODABLE_DIMENSION_LIMIT && be16(frame@[q + 7], frame@[q + 8])
                    <= DECODABLE_DIMENSION_LIMIT,
        decreases len - p,
    {
        let code = frame[p + 1];
        if frame[p] == 0xff && 0xc0 <= code && code <= 0xcf && code != 0xc4 && code != 0xc8
            && code != 0xcc {
            let height = frame[p + 5] as u32 * 256 + frame[p + 6] as u32;
            let width = frame[p + 7] as u32 * 256 + frame[p + 8] as u32;
            if height > DECODABLE_DIMENSION_LIMIT || width > DECODABLE_DIMENSION_LIMIT {
                proof {
                    assert(frame_header_at(frame@, p as int));
                }
                return false;
            }
        }
        p += 1;
    }
    proof {
        assert forall|q: int| #[trigger] frame_header_at(frame@, q) implies be16(
            frame@[q + 5],
            frame@[q + 6],
        ) <= DECODABLE_DIMENSION_LIMIT && be16(frame@[q + 7], frame@[q + 8])
            <= DECODABLE_DIMENSION_LIMIT by {
            assert(q < p);
        }
    }
    true
}

/// Runs `jpeg_decoder::Decoder::decode` on `data` and tells whether it
/// succeeded.  The result is a function of the bytes alone; what makes a
/// stream decodable is the JPEG standard as that crate implements it, which
/// is not restated here.
///
/// The decoder's scan loop computes block-row offsets in 16-bit arithmetic,
/// `(mcu_y + 1) * 8` among them, which overflows for frames more than 65528
/// pixels high; where overflow checks are on, that is a panic.  The
/// `requires` keeps every declared frame size at or below 65528, where that
/// arithmetic stays in range.  It is taken that the decoder returns on such
/// input: its source reports malformed input as an error, and its panicking
/// match arms sit behind checks that exclude them.  Whether memory for the
/// decoded image can be allocated is not stated.
#[verifier::external_body]
fn decodes_as_jpeg(data: &[u8]) -> (ok: bool)
    requires
        declared_sizes_in_range(data@),
    ensures
        ok == jpeg_decodes(data@),
{
    jpeg_decoder::Decoder::new(data).decode().is_ok()
}

/// Whether a frame is published, given whether frames are validated and
/// whether this one decoded.
pub fn publish_verdict(validate: bool, decoded: bool) -> (publish: bool)
    ensures
        publish == (!validate || decoded),
{
    !validate || decoded
}

/// Whether a prepared frame is published: when frames are validated, only
/// one that decodes as a JPEG image is.
pub fn frame_passes(validate: bool, frame: &[u8]) -> (publish: bool)
    requires
        validate ==> declared_sizes_in_range(frame@),
    ensures
        publish == (!validate || jpeg_decodes(frame@)),
{
    if validate {
        let decoded = decodes_as_jpeg(frame);
        publish_verdict(validate, decoded)
    } else {
        publish_verdict(validate, false)
    }
}

/// The state that the capture loop keeps from one frame to the next.
pub struct CaptureState {
    /// A Huffman table was found in an earlier frame of this camera, so
    /// frames are no longer repaired.
    pub had_huffman: bool,
    /// Frames published since the last report.
    pub counter: FrameCounter,
}

/// Whether a frame is scanned and repaired.
pub open spec fn repairs(insert_table: bool, had_huffman: bool) -> bool {
    insert_table && !had_huffman
}

/// The frame published for the camera buffer `b` with `used` payload
/// bytes, and whether a Huffman table has been seen afterwards.
pub open spec fn prepared(insert_table: bool, had_huffman: bool, b: Seq<u8>, used: int) -> (
    Seq<u8>,
    bool,
) {
    if repairs(insert_table, had_huffman) {
        (with_default_table(b, used), finds_huffman_table(b))
    } else {
        (b, had_huffman)
    }
}

impl CaptureState {
    /// The state before the first frame.
    pub fn new() -> (s: Self)
        ensures
            !s.had_huffman,
            s.counter.count == 0,
    {
        CaptureState { had_huffman: false, counter: FrameCounter::new() }
    }

    /// Prepares the camera buffer `buffer`, of which the first `used` bytes
    /// are payload.  When `insert_table` is set and no Huffman table was seen
    /// before, the payload is repaired (see `insert_default_huffman`);
    /// otherwise the whole buffer is copied.
    pub fn prepare_frame(&mut self, insert_table: bool, buffer: &[u8], used: usize) -> (frame: Vec<
        u8,
    >)
        requires
            repairs(insert_table, old(self).had_huffman) ==> scan_fits(buffer@, used as int),
        ensures
            final(self).counter == old(self).counter,
            (frame@, final(self).had_huffman) == prepared(
                insert_table,
                old(self).had_huffman,
                buffer@,
                used as int,
            ),
    {
        if insert_table && !self.had_huffman {
            let (frame, found) = insert_default_huffman(buffer, used);
            if found {
                self.had_huffman = true;
            }
            frame
        } else {
            vstd::slice::slice_to_vec(buffer)
        }
    }

    /// Counts a published frame, `secs_since_report` whole seconds after the
    /// last report; returns the number of frames to report when one is due.
    pub fn frame_published(&mut self, secs_since_report: u64) -> (report: Option<u64>)
        requires
            old(self).counter.count < u64::MAX,
        ensures
            final(self).had_huffman == old(self).had_huffman,
            (final(self).counter.count, report) == tick_outcome(
                old(self).counter.count,
                secs_since_report,
            ),
    {
        self.counter.tick(secs_since_report)
    }
}

/// Once a Huffman table has been seen it stays seen, and every later frame
/// is published as the camera delivered it.
pub proof fn lemma_table_seen_is_permanent(insert_table: bool, b: Seq<u8>, used: int)
    ensures
        prepared(insert_table, true, b, used) == (b, true),
{
}

/// A repaired frame, prepared again, comes out unchanged and marks the
/// table as seen.
pub proof fn lemma_prepare_repaired_frame(b: Seq<u8>, used: int)
    requires
        scan_fits(b, used),
        finds_frame_start(b),
    ensures
        prepared(true, false, prepared(true, false, b, used).0, used + HUFFMAN_TABLE_LEN) == (
            prepared(true, false, b, used).0,
            true,
        ),
{
    lemma_repair_idempotent(b, used);
}

} // verus!
