//! Insertion of the default JPEG Huffman table into camera frames.
//!
//! Many webcams emit MJPEG frames without a DHT (define Huffman table)
//! segment, which most JPEG decoders need.  Such a frame is repaired by
//! inserting the standard table right before the baseline start-of-frame
//! marker, provided no table is found first within the scanned window.
use vstd::prelude::*;

verus! {

/// Number of leading bytes of a frame that are searched for markers.
pub const SCAN_LIMIT: usize = 2048;

/// First byte of every JPEG marker.
pub const MARKER_PREFIX: u8 = 0xff;

/// Second byte of the define-Huffman-table marker.
pub const DHT_MARKER: u8 = 0xc4;

/// Second byte of the baseline start-of-frame marker.
pub const SOF0_MARKER: u8 = 0xc0;

/// Length of the default Huffman table segment, marker included.
pub const HUFFMAN_TABLE_LEN: usize = 420;

/// The standard JPEG Huffman tables (ITU T.81, Annex K.3) as one DHT segment.
pub const DEFAULT_HUFFMAN_TABLE: [u8; 420] = [0xff, 0xc4, 0x01, 0xa2, 0x00, 0x00, 0x01, 0x05, 0x01, 0x01, 0x01, 0x01, 0x01, 0x01, 0x00, 0x00, 0x00, 0x00, 0x00, 0x00, 0x00, 0x00, 0x01, 0x02, 0x03, 0x04, 0x05, 0x06, 0x07, 0x08, 0x09, 0x0a, 0x0b, 0x01, 0x00, 0x03, 0x01, 0x01, 0x01, 0x01, 0x01, 0x01, 0x01, 0x01, 0x01, 0x00, 0x00, 0x00, 0x00, 0x00, 0x00, 0x01, 0x02, 0x03, 0x04, 0x05, 0x06, 0x07, 0x08, 0x09, 0x0a, 0x0b, 0x10, 0x00, 0x02, 0x01, 0x03, 0x03, 0x02, 0x04, 0x03, 0x05, 0x05, 0x04, 0x04, 0x00, 0x00, 0x01, 0x7d, 0x01, 0x02, 0x03, 0x00, 0x04, 0x11, 0x05, 0x12, 0x21, 0x31, 0x41, 0x06, 0x13, 0x51, 0x61, 0x07, 0x22, 0x71, 0x14, 0x32, 0x81, 0x91, 0xa1, 0x08, 0x23, 0x42, 0xb1, 0xc1, 0x15, 0x52, 0xd1, 0xf0, 0x24, 0x33, 0x62, 0x72, 0x82, 0x09, 0x0a, 0x16, 0x17, 0x18, 0x19, 0x1a, 0x25, 0x26, 0x27, 0x28, 0x29, 0x2a, 0x34, 0x35, 0x36, 0x37, 0x38, 0x39, 0x3a, 0x43, 0x44, 0x45, 0x46, 0x47, 0x48, 0x49, 0x4a, 0x53, 0x54, 0x55, 0x56, 0x57, 0x58, 0x59, 0x5a, 0x63, 0x64, 0x65, 0x66, 0x67, 0x68, 0x69, 0x6a, 0x73, 0x74, 0x75, 0x76, 0x77, 0x78, 0x79, 0x7a, 0x83, 0x84, 0x85, 0x86, 0x87, 0x88, 0x89, 0x8a, 0x92, 0x93, 0x94, 0x95, 0x96, 0x97, 0x98, 0x99, 0x9a, 0xa2, 0xa3, 0xa4, 0xa5, 0xa6, 0xa7, 0xa8, 0xa9, 0xaa, 0xb2, 0xb3, 0xb4, 0xb5, 0xb6, 0xb7, 0xb8, 0xb9, 0xba, 0xc2, 0xc3, 0xc4, 0xc5, 0xc6, 0xc7, 0xc8, 0xc9, 0xca, 0xd2, 0xd3, 0xd4, 0xd5, 0xd6, 0xd7, 0xd8, 0xd9, 0xda, 0xe1, 0xe2, 0xe3, 0xe4, 0xe5, 0xe6, 0xe7, 0xe8, 0xe9, 0xea, 0xf1, 0xf2, 0xf3, 0xf4, 0xf5, 0xf6, 0xf7, 0xf8, 0xf9, 0xfa, 0x11, 0x00, 0x02, 0x01, 0x02, 0x04, 0x04, 0x03, 0x04, 0x07, 0x05, 0x04, 0x04, 0x00, 0x01, 0x02, 0x77, 0x00, 0x01, 0x02, 0x03, 0x11, 0x04, 0x05, 0x21, 0x31, 0x06, 0x12, 0x41, 0x51, 0x07, 0x61, 0x71, 0x13, 0x22, 0x32, 0x81, 0x08, 0x14, 0x42, 0x91, 0xa1, 0xb1, 0xc1, 0x09, 0x23, 0x33, 0x52, 0xf0, 0x15, 0x62, 0x72, 0xd1, 0x0a, 0x16, 0x24, 0x34, 0xe1, 0x25, 0xf1, 0x17, 0x18, 0x19, 0x1a, 0x26, 0x27, 0x28, 0x29, 0x2a, 0x35, 0x36, 0x37, 0x38, 0x39, 0x3a, 0x43, 0x44, 0x45, 0x46, 0x47, 0x48, 0x49, 0x4a, 0x53, 0x54, 0x55, 0x56, 0x57, 0x58, 0x59, 0x5a, 0x63, 0x64, 0x65, 0x66, 0x67, 0x68, 0x69, 0x6a, 0x73, 0x74, 0x75, 0x76, 0x77, 0x78, 0x79, 0x7a, 0x82, 0x83, 0x84, 0x85, 0x86, 0x87, 0x88, 0x89, 0x8a, 0x92, 0x93, 0x94, 0x95, 0x96, 0x97, 0x98, 0x99, 0x9a, 0xa2, 0xa3, 0xa4, 0xa5, 0xa6, 0xa7, 0xa8, 0xa9, 0xaa, 0xb2, 0xb3, 0xb4, 0xb5, 0xb6, 0xb7, 0xb8, 0xb9, 0xba, 0xc2, 0xc3, 0xc4, 0xc5, 0xc6, 0xc7, 0xc8, 0xc9, 0xca, 0xd2, 0xd3, 0xd4, 0xd5, 0xd6, 0xd7, 0xd8, 0xd9, 0xda, 0xe2, 0xe3, 0xe4, 0xe5, 0xe6, 0xe7, 0xe8, 0xe9, 0xea, 0xf2, 0xf3, 0xf4, 0xf5, 0xf6, 0xf7, 0xf8, 0xf9, 0xfa];

/// The default table as a sequence of bytes.
pub open spec fn huffman_table() -> Seq<u8> {
    DEFAULT_HUFFMAN_TABLE@
}

/// `b` holds the two-byte marker `0xff code` starting at index `i`.
pub open spec fn marker_at(b: Seq<u8>, i: int, code: u8) -> bool {
    &&& 0 <= i
    &&& i + 1 < b.len()
    &&& b[i] == MARKER_PREFIX
    &&& b[i + 1] == code
}

/// A Huffman-table or start-of-frame marker starts at index `i`.
pub open spec fn stop_marker_at(b: Seq<u8>, i: int) -> bool {
    marker_at(b, i, DHT_MARKER) || marker_at(b, i, SOF0_MARKER)
}

/// Where the scan that starts at `i` stops: the first index below the scan
/// limit that holds a stop marker, or the scan limit itself.
pub open spec fn scan_stop_from(b: Seq<u8>, i: int) -> int
    decreases SCAN_LIMIT - i,
{
    if i >= SCAN_LIMIT {
        SCAN_LIMIT as int
    } else if stop_marker_at(b, i) {
        i
    } else {
        scan_stop_from(b, i + 1)
    }
}

/// Where the scan of a whole frame stops.
pub open spec fn scan_stop(b: Seq<u8>) -> int {
    scan_stop_from(b, 0)
}

/// The scan found a Huffman table before any start-of-frame marker.
pub open spec fn finds_huffman_table(b: Seq<u8>) -> bool {
    scan_stop(b) < SCAN_LIMIT && marker_at(b, scan_stop(b), DHT_MARKER)
}

/// The scan found a start-of-frame marker before any Huffman table.
pub open spec fn finds_frame_start(b: Seq<u8>) -> bool {
    scan_stop(b) < SCAN_LIMIT && marker_at(b, scan_stop(b), SOF0_MARKER)
}

/// Index `j` is inside the frame, and so is the byte after it when `j`
/// holds `0xff`: the scan may visit `j` without reading past the end.
pub open spec fn reads_in_bounds(b: Seq<u8>, j: int) -> bool {
    j < b.len() && (b[j] == MARKER_PREFIX ==> j + 1 < b.len())
}

/// Every index that the scan visits is one it may visit.
pub open spec fn scan_reads_in_bounds(b: Seq<u8>) -> bool {
    forall|j: int| 0 <= j < SCAN_LIMIT && j <= scan_stop(b) ==> #[trigger] reads_in_bounds(b, j)
}

/// The scan only reads bytes inside the frame, and the copy of the rest of
/// the frame, which starts at the stop index, ends at `used` inside it.
pub open spec fn scan_fits(b: Seq<u8>, used: int) -> bool {
    &&& scan_reads_in_bounds(b)
    &&& scan_stop(b) <= used <= b.len()
}

/// The frame that is published for the camera bytes `b`, of which the
/// first `used` are payload: the default table is inserted before the
/// start-of-frame marker when the scan finds one; otherwise the payload
/// is kept as it is.
pub open spec fn with_default_table(b: Seq<u8>, used: int) -> Seq<u8> {
    if finds_frame_start(b) {
        b.subrange(0, scan_stop(b)) + huffman_table() + b.subrange(scan_stop(b), used)
    } else {
        b.subrange(0, used)
    }
}

/// The scan from `i` stops at `i` or later, and no stop marker lies
/// between `i` and the stop index.
pub proof fn lemma_scan_stop_from(b: Seq<u8>, i: int)
    requires
        0 <= i <= SCAN_LIMIT,
    ensures
        i <= scan_stop_from(b, i) <= SCAN_LIMIT,
        scan_stop_from(b, i) < SCAN_LIMIT ==> stop_marker_at(b, scan_stop_from(b, i)),
        forall|j: int| i <= j < scan_stop_from(b, i) ==> !#[trigger] stop_marker_at(b, j),
    decreases SCAN_LIMIT - i,
{
    if i < SCAN_LIMIT && !stop_marker_at(b, i) {
        lemma_scan_stop_from(b, i + 1);
    }
}

/// The scan from `i` stops at `s` when `s` holds the first stop marker at
/// or after `i`.
pub proof fn lemma_scan_stops_at(b: Seq<u8>, i: int, s: int)
    requires
        0 <= i <= s < SCAN_LIMIT,
        stop_marker_at(b, s),
        forall|j: int| i <= j < s ==> !#[trigger] stop_marker_at(b, j),
    ensures
        scan_stop_from(b, i) == s,
    decreases s - i,
{
    if i < s {
        lemma_scan_stops_at(b, i + 1, s);
    }
}

/// The scan stops at the first marker of either kind within the window:
/// no earlier byte of the window starts one.
pub proof fn lemma_scan_stops_at_first_marker(b: Seq<u8>)
    ensures
        0 <= scan_stop(b) <= SCAN_LIMIT,
        scan_stop(b) < SCAN_LIMIT ==> stop_marker_at(b, scan_stop(b)),
        forall|j: int| 0 <= j < scan_stop(b) ==> !#[trigger] stop_marker_at(b, j),
{
    lemma_scan_stop_from(b, 0);
}

/// A repaired frame carries the whole default table right before its
/// start-of-frame marker, and removing the table gives back the payload.
pub proof fn lemma_repair_inserts_table(b: Seq<u8>, used: int)
    requires
        scan_fits(b, used),
        finds_frame_start(b),
    ensures
        with_default_table(b, used).len() == used + HUFFMAN_TABLE_LEN,
        with_default_table(b, used).subrange(scan_stop(b), scan_stop(b) + HUFFMAN_TABLE_LEN)
            == huffman_table(),
        with_default_table(b, used).subrange(0, scan_stop(b)) + with_default_table(b, used).subrange(
            scan_stop(b) + HUFFMAN_TABLE_LEN,
            used + HUFFMAN_TABLE_LEN,
        ) == b.subrange(0, used),
{
    let s = scan_stop(b);
    let r = with_default_table(b, used);
    assert(r.subrange(s, s + HUFFMAN_TABLE_LEN) =~= huffman_table());
    assert(r.subrange(0, s) + r.subrange(s + HUFFMAN_TABLE_LEN, used + HUFFMAN_TABLE_LEN)
        =~= b.subrange(0, used));
}

/// Repairing is idempotent: in a repaired frame the scan finds the inserted
/// table, so preparing it again leaves it as it is.
pub proof fn lemma_repair_idempotent(b: Seq<u8>, used: int)
    requires
        scan_fits(b, used),
        finds_frame_start(b),
    ensures
        scan_fits(with_default_table(b, used), used + HUFFMAN_TABLE_LEN),
        finds_huffman_table(with_default_table(b, used)),
        with_default_table(with_default_table(b, used), used + HUFFMAN_TABLE_LEN)
            == with_default_table(b, used),
{
    let s = scan_stop(b);
    let r = with_default_table(b, used);
    lemma_scan_stop_from(b, 0);
    assert(r.len() == used + HUFFMAN_TABLE_LEN);
    assert(r[s] == MARKER_PREFIX && r[s + 1] == DHT_MARKER);
    assert(forall|k: int| 0 <= k < s ==> r[k] == b[k]);
    assert forall|j: int| 0 <= j < s implies !#[trigger] stop_marker_at(r, j) by {
        assert(!stop_marker_at(b, j));
        if j + 1 < s {
            assert(r[j] == b[j] && r[j + 1] == b[j + 1]);
        } else {
            assert(r[j + 1] == MARKER_PREFIX);
        }
    }
    assert(stop_marker_at(r, s));
    lemma_scan_stops_at(r, 0, s);
    assert(!marker_at(r, s, SOF0_MARKER));
    assert forall|j: int| 0 <= j < SCAN_LIMIT && j <= scan_stop(r) implies #[trigger] reads_in_bounds(
        r,
        j,
    ) by {}
    assert(r.subrange(0, used + HUFFMAN_TABLE_LEN) =~= r);
}

/// No byte `0xff` before the stop index is followed by `0xc0` or `0xc4`.
proof fn lemma_no_raw_marker_before_stop(b: Seq<u8>, i: int)
    requires
        0 <= i <= scan_stop(b),
    ensures
        forall|k: int|
            0 <= k < i && k + 1 < b.len() && #[trigger] b[k] == 0xff ==> b[k + 1] != 0xc0 && b[k
                + 1] != 0xc4,
{
    lemma_scan_stop_from(b, 0);
    assert forall|k: int|
        0 <= k < i && k + 1 < b.len() && #[trigger] b[k] == 0xff implies b[k + 1] != 0xc0 && b[k
            + 1] != 0xc4 by {
        assert(!stop_marker_at(b, k));
    }
}

/// The index where the scan of `buffer` stops, or `None` if the scan would
/// read past the end of the buffer first.
pub fn scan_stop_index(buffer: &[u8]) -> (r: Option<usize>)
    ensures
        r matches Some(s) ==> s == scan_stop(buffer@) && scan_reads_in_bounds(buffer@),
        r is None ==> !scan_reads_in_bounds(buffer@),
        r matches Some(s) ==> s <= SCAN_LIMIT && (forall|k: int|
            0 <= k < s && k + 1 < buffer@.len() && #[trigger] buffer@[k] == 0xff ==> buffer@[k
                + 1] != 0xc0 && buffer@[k + 1] != 0xc4),
        r matches Some(s) ==> s < SCAN_LIMIT ==> s + 1 < buffer@.len() && buffer@[s as int] == 0xff
            && (buffer@[s + 1] == 0xc0 || buffer@[s + 1] == 0xc4),
{
    let ghost b = buffer@;
    let len = buffer.len();
    let mut i: usize = 0;
    proof {
        lemma_scan_stop_from(b, 0);
    }
    while i < SCAN_LIMIT
        invariant
            i <= SCAN_LIMIT,
            i <= scan_stop(b),
            scan_stop_from(b, i as int) == scan_stop(b),
            b == buffer@,
            len == b.len(),
            forall|j: int| 0 <= j < i ==> #[trigger] reads_in_bounds(b, j),
        decreases SCAN_LIMIT - i,
    {
        if i >= len || (buffer[i] == 0xff && i + 1 >= len) {
            proof {
                assert(!reads_in_bounds(b, i as int));
            }
            return None;
        }
        proof {
            assert(reads_in_bounds(b, i as int));
        }
        if buffer[i] == 0xff && (buffer[i + 1] == 0xc4 || buffer[i + 1] == 0xc0) {
            proof {
                assert(stop_marker_at(b, i as int));
                assert forall|j: int| 0 <= j < SCAN_LIMIT && j <= scan_stop(b) implies #[trigger] reads_in_bounds(b, j) by {
                    assert(j <= i);
                }
                lemma_no_raw_marker_before_stop(b, i as int);
            }
            return Some(i);
        }
        proof {
            assert(!stop_marker_at(b, i as int));
            lemma_scan_stop_from(b, i + 1);
        }
        i += 1;
    }
    proof {
        lemma_no_raw_marker_before_stop(b, i as int);
    }
    Some(i)
}

/// Whether the scan of `buffer` stays inside it and the rest of the payload,
/// up to `used`, starts at or after the stop index: whether
/// `insert_default_huffman` may be applied.
pub fn frame_scan_fits(buffer: &[u8], used: usize) -> (r: bool)
    ensures
        r == scan_fits(buffer@, used as int),
{
    match scan_stop_index(buffer) {
        Some(stop) => stop <= used && used <= buffer.len(),
        None => false,
    }
}

/// Stated over the bytes themselves: when index `s` of the window holds
/// `0xff 0xc0` or `0xff 0xc4`, and no earlier byte `0xff` is followed by
/// `0xc0` or `0xc4`, then a start-of-frame marker there gets the default
/// table inserted right before it, whatever other markers come earlier, and
/// a Huffman-table marker there leaves the payload as it is and is reported.
pub proof fn lemma_repair_at_first_marker(b: Seq<u8>, used: int, s: int)
    requires
        0 <= s < SCAN_LIMIT,
        s + 1 < b.len(),
        b[s] == 0xff,
        b[s + 1] == 0xc0 || b[s + 1] == 0xc4,
        forall|k: int|
            0 <= k < s && k + 1 < b.len() && #[trigger] b[k] == 0xff ==> b[k + 1] != 0xc0 && b[k
                + 1] != 0xc4,
    ensures
        b[s + 1] == 0xc0 ==> with_default_table(b, used) == b.subrange(0, s)
            + DEFAULT_HUFFMAN_TABLE@ + b.subrange(s, used) && !finds_huffman_table(b),
        b[s + 1] == 0xc4 ==> with_default_table(b, used) == b.subrange(0, used)
            && finds_huffman_table(b),
{
    assert forall|k: int| 0 <= k < s implies !#[trigger] stop_marker_at(b, k) by {
        if k + 1 < b.len() && b[k] == 0xff {
            assert(b[k + 1] != 0xc0 && b[k + 1] != 0xc4);
        }
    }
    assert(stop_marker_at(b, s));
    lemma_scan_stops_at(b, 0, s);
}

/// Stated over the bytes themselves: when no byte `0xff` of the window is
/// followed by `0xc0` or `0xc4`, the payload is kept as it is and no
/// Huffman table is reported.
pub proof fn lemma_no_marker_in_window(b: Seq<u8>, used: int)
    requires
        forall|k: int|
            0 <= k < SCAN_LIMIT && k + 1 < b.len() && #[trigger] b[k] == 0xff ==> b[k + 1] != 0xc0
                && b[k + 1] != 0xc4,
    ensures
        with_default_table(b, used) == b.subrange(0, used),
        !finds_huffman_table(b),
        scan_stop(b) == SCAN_LIMIT,
{
    lemma_scan_stop_from(b, 0);
    if scan_stop(b) < SCAN_LIMIT {
        let k = scan_stop(b);
        assert(stop_marker_at(b, k));
        assert(b[k] == 0xff);
    }
}

/// Scans the first bytes of a camera frame for a Huffman table and inserts
/// the default one before the start-of-frame marker if none comes first.
/// Returns the repaired frame, and whether a Huffman table was found.
pub fn insert_default_huffman(buffer: &[u8], used: usize) -> (r: (Vec<u8>, bool))
    requires
        scan_fits(buffer@, used as int),
    ensures
        r.0@ == with_default_table(buffer@, used as int),
        r.1 == finds_huffman_table(buffer@),
        forall|s: int|
            0 <= s < SCAN_LIMIT && s + 1 < buffer@.len() && #[trigger] buffer@[s] == 0xff
                && buffer@[s + 1] == 0xc0 && (forall|k: int|
                0 <= k < s && k + 1 < buffer@.len() && #[trigger] buffer@[k] == 0xff ==> buffer@[k
                    + 1] != 0xc0 && buffer@[k + 1] != 0xc4) ==> r.0@ == buffer@.subrange(0, s)
                + DEFAULT_HUFFMAN_TABLE@ + buffer@.subrange(s, used as int) && !r.1,
        forall|s: int|
            0 <= s < SCAN_LIMIT && s + 1 < buffer@.len() && #[trigger] buffer@[s] == 0xff
                && buffer@[s + 1] == 0xc4 && (forall|k: int|
                0 <= k < s && k + 1 < buffer@.len() && #[trigger] buffer@[k] == 0xff ==> buffer@[k
                    + 1] != 0xc0 && buffer@[k + 1] != 0xc4) ==> r.0@ == buffer@.subrange(
                0,
                used as int,
            ) && r.1,
        (forall|k: int|
            0 <= k < SCAN_LIMIT && k + 1 < buffer@.len() && #[trigger] buffer@[k] == 0xff
                ==> buffer@[k + 1] != 0xc0 && buffer@[k + 1] != 0xc4) ==> r.0@ == buffer@.subrange(
            0,
            used as int,
        ) && !r.1,
{
    let ghost b = buffer@;
    let mut normalized: Vec<u8> = Vec::with_capacity(buffer.len());
    let mut i: usize = 0;
    let mut found_table = false;
    let mut inserted = false;
    proof {
        lemma_scan_stop_from(b, 0);
    }
    while i < SCAN_LIMIT
        invariant_except_break
            i <= scan_stop(b),
            scan_stop_from(b, i as int) == scan_stop(b),
            !found_table,
            !inserted,
        invariant
            i <= SCAN_LIMIT,
            b == buffer@,
            scan_fits(b, used as int),
            normalized@ == (if inserted {
                b.subrange(0, i as int) + huffman_table()
            } else {
                b.subrange(0, i as int)
            }),
        ensures
            i == scan_stop(b),
            found_table == finds_huffman_table(b),
            inserted == finds_frame_start(b),
        decreases SCAN_LIMIT - i,
    {
        assert(reads_in_bounds(b, i as int));
        if buffer[i] == 0xff && buffer[i + 1] == 0xc4 {
            found_table = true;
            break;
        }
        if buffer[i] == 0xff && buffer[i + 1] == 0xc0 {
            normalized.extend_from_slice(&DEFAULT_HUFFMAN_TABLE);
            inserted = true;
            proof {
                assert(normalized@ =~= b.subrange(0, i as int) + huffman_table());
            }
            break;
        }
        normalized.push(buffer[i]);
        proof {
            assert(!stop_marker_at(b, i as int));
            lemma_scan_stop_from(b, i + 1);
            assert(b.subrange(0, i as int).push(b[i as int]) =~= b.subrange(0, i + 1));
        }
        i += 1;
    }
    let rest = &buffer[i..used];
    normalized.extend_from_slice(rest);
    proof {
        if inserted {
            assert(normalized@ =~= b.subrange(0, i as int) + huffman_table() + b.subrange(
                i as int,
                used as int,
            ));
        } else {
            assert(normalized@ =~= b.subrange(0, used as int));
        }
        assert forall|s: int|
            0 <= s < SCAN_LIMIT && s + 1 < b.len() && #[trigger] b[s] == 0xff && (b[s + 1] == 0xc0
                || b[s + 1] == 0xc4) && (forall|k: int|
                0 <= k < s && k + 1 < b.len() && #[trigger] b[k] == 0xff ==> b[k + 1] != 0xc0
                    && b[k + 1] != 0xc4) implies (b[s + 1] == 0xc0 ==> normalized@ == b.subrange(
            0,
            s,
        ) + DEFAULT_HUFFMAN_TABLE@ + b.subrange(s, used as int) && !found_table) && (b[s + 1]
            == 0xc4 ==> normalized@ == b.subrange(0, used as int) && found_table) by {
            lemma_repair_at_first_marker(b, used as int, s);
        }
        if forall|k: int|
            0 <= k < SCAN_LIMIT && k + 1 < b.len() && #[trigger] b[k] == 0xff ==> b[k + 1] != 0xc0
                && b[k + 1] != 0xc4 {
            lemma_no_marker_in_window(b, used as int);
        }
    }
    (normalized, found_table)
}

} // verus!
