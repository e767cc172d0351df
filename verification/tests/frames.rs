use rusty_mjpg::capture::frame_passes;
use rusty_mjpg::capture::publish_verdict;
use rusty_mjpg::capture::frame_sizes_in_range;
use rusty_mjpg::capture::CaptureState;
use rusty_mjpg::capture::DECODABLE_DIMENSION_LIMIT;
use rusty_mjpg::capture_loop::admit_listener;
use rusty_mjpg::capture_loop::start_pass;
use rusty_mjpg::store::FrameStore;
use rusty_mjpg::huffman::frame_scan_fits;
use rusty_mjpg::huffman::insert_default_huffman;
use rusty_mjpg::huffman::scan_stop_index;
use rusty_mjpg::huffman::DEFAULT_HUFFMAN_TABLE;
use rusty_mjpg::huffman::HUFFMAN_TABLE_LEN;
use rusty_mjpg::huffman::SCAN_LIMIT;

/// An 8x8 grey baseline JPEG image without a Huffman table segment.
fn jpeg_without_table() -> Vec<u8> {
    let mut b = vec![0xff, 0xd8, 0xff, 0xdb, 0x00, 0x43, 0x00];
    b.extend_from_slice(&[1u8; 64]);
    b.extend_from_slice(&[0xff, 0xc0, 0x00, 0x0b, 0x08, 0x00, 0x08, 0x00, 0x08, 0x01, 0x01, 0x11, 0x00]);
    b.extend_from_slice(&[0xff, 0xda, 0x00, 0x08, 0x01, 0x01, 0x00, 0x00, 0x3f, 0x00]);
    b.extend_from_slice(&[0x2b, 0xff, 0xd9]);
    b
}

#[test]
fn table_is_inserted_before_frame_start() {
    let buffer = vec![0xff, 0xd8, 0xff, 0xc0, 0x01, 0x02];
    let (out, found) = insert_default_huffman(&buffer, 6);
    assert!(!found);
    let mut expected = vec![0xff, 0xd8];
    expected.extend_from_slice(&DEFAULT_HUFFMAN_TABLE);
    expected.extend_from_slice(&[0xff, 0xc0, 0x01, 0x02]);
    assert_eq!(out, expected);
    assert_eq!(out.len(), 6 + HUFFMAN_TABLE_LEN);
}

#[test]
fn table_found_leaves_payload_unchanged() {
    let buffer = vec![0xff, 0xd8, 0xff, 0xc4, 0x00, 0x02, 0xff, 0xc0, 0x09, 0x09, 0x09];
    let (out, found) = insert_default_huffman(&buffer, 9);
    assert!(found);
    assert_eq!(out, buffer[..9].to_vec());
}

#[test]
fn frame_without_markers_is_cut_to_payload() {
    let buffer = vec![0x11u8; 3000];
    assert!(frame_scan_fits(&buffer, 2500));
    let (out, found) = insert_default_huffman(&buffer, 2500);
    assert!(!found);
    assert_eq!(out, vec![0x11u8; 2500]);
}

#[test]
fn marker_past_the_window_is_ignored() {
    let mut buffer = vec![0u8; 2200];
    buffer[2100] = 0xff;
    buffer[2101] = 0xc0;
    assert_eq!(scan_stop_index(&buffer), Some(SCAN_LIMIT));
    let (out, found) = insert_default_huffman(&buffer, 2200);
    assert!(!found);
    assert_eq!(out, buffer);
}

#[test]
fn scan_stops_at_first_marker() {
    let buffer = vec![0x00, 0xff, 0x00, 0xff, 0xc0, 0xff, 0xc4];
    assert_eq!(scan_stop_index(&buffer), Some(3));
}

#[test]
fn scan_that_runs_off_the_buffer_does_not_fit() {
    assert_eq!(scan_stop_index(&[1, 2, 3]), None);
    assert!(!frame_scan_fits(&[1, 2, 3], 3));
    assert_eq!(scan_stop_index(&[0x00, 0xff]), None);
    assert!(!frame_scan_fits(&[0x00, 0xff, 0xc0], 0));
    assert!(frame_scan_fits(&[0x00, 0xff, 0xc0], 1));
    assert!(!frame_scan_fits(&[0x00, 0xff, 0xc0], 4));
}

#[test]
fn repaired_frame_is_left_alone() {
    let buffer = vec![0xff, 0xd8, 0xff, 0xc0, 0x01, 0x02];
    let (once, _) = insert_default_huffman(&buffer, 6);
    assert!(frame_scan_fits(&once, once.len()));
    let (twice, found) = insert_default_huffman(&once, once.len());
    assert!(found);
    assert_eq!(twice, once);
}

#[test]
fn repaired_frame_decodes() {
    let frame = jpeg_without_table();
    assert!(!frame_passes(true, &frame));
    assert!(frame_passes(false, &frame));
    let (repaired, found) = insert_default_huffman(&frame, frame.len());
    assert!(!found);
    assert!(frame_passes(true, &repaired));
}

#[test]
fn garbage_does_not_decode() {
    assert!(!frame_passes(true, &[0x00, 0x01, 0x02]));
    assert!(frame_passes(false, &[0x00, 0x01, 0x02]));
}

#[test]
fn verdict_follows_validation() {
    assert!(publish_verdict(false, false));
    assert!(publish_verdict(true, true));
    assert!(!publish_verdict(true, false));
}

#[test]
fn capture_repairs_until_a_table_is_seen() {
    let mut state = CaptureState::new();
    let without = vec![0xff, 0xc0, 0x07, 0x08];
    let first = state.prepare_frame(true, &without, 3);
    assert_eq!(first.len(), 3 + HUFFMAN_TABLE_LEN);
    assert!(!state.had_huffman);
    let with = vec![0xff, 0xc4, 0x05, 0x06];
    let second = state.prepare_frame(true, &with, 3);
    assert_eq!(second, vec![0xff, 0xc4, 0x05]);
    assert!(state.had_huffman);
    let third = state.prepare_frame(true, &without, 3);
    assert_eq!(third, without);
}

#[test]
fn capture_copies_whole_buffer_without_repair() {
    let mut state = CaptureState::new();
    let buffer = vec![0xff, 0xc0, 0x07, 0x08];
    let out = state.prepare_frame(false, &buffer, 2);
    assert_eq!(out, buffer);
    assert!(!state.had_huffman);
}

#[test]
fn capture_reports_frame_rate() {
    let mut state = CaptureState::new();
    assert_eq!(state.frame_published(0), None);
    assert_eq!(state.frame_published(3), None);
    assert_eq!(state.frame_published(4), Some(3));
    assert_eq!(state.counter.count, 0);
    assert_eq!(state.frame_published(1), None);
    assert_eq!(state.counter.count, 1);
}

#[test]
fn declared_sizes_are_checked() {
    let frame = jpeg_without_table();
    assert!(frame_sizes_in_range(&frame));
    let mut tall = frame.clone();
    // The frame header starts at byte 71; its height is at bytes 76 and 77.
    tall[76] = 0xff;
    tall[77] = 0xf9;
    assert!(!frame_sizes_in_range(&tall));
    tall[77] = 0xf8;
    assert_eq!(DECODABLE_DIMENSION_LIMIT, 0xfff8);
    assert!(frame_sizes_in_range(&tall));
    let mut wide = frame.clone();
    wide[78] = 0xff;
    wide[79] = 0xff;
    assert!(!frame_sizes_in_range(&wide));
    assert!(frame_sizes_in_range(&[0xff, 0xc0, 0, 11, 8, 0xff, 0xff]));
    assert!(frame_sizes_in_range(&[0xff, 0xc4, 0, 11, 8, 0xff, 0xff, 0xff, 0xff]));
    assert!(!frame_sizes_in_range(&[0xff, 0xc2, 0, 11, 8, 0xff, 0xff, 0x00, 0x08]));
}

#[test]
fn pass_publishes_only_frames_that_pass() {
    let mut store = FrameStore::new();
    assert!(!start_pass(true, vec![0, 1, 2], &mut store));
    assert_eq!(store.stamp(), None);
    assert_eq!(store.published(), 0);
    let (repaired, _) = insert_default_huffman(&jpeg_without_table(), jpeg_without_table().len());
    assert!(start_pass(true, repaired.clone(), &mut store));
    assert_eq!(store.stamp(), Some(0));
    assert_eq!(store.frame(), &repaired[..]);
    assert!(start_pass(false, vec![7], &mut store));
    assert_eq!(store.stamp(), Some(1));
    assert_eq!(store.frame(), &[7u8][..]);
}

#[test]
fn new_listener_joins_after_kept_ones() {
    assert_eq!(admit_listener(vec![1, 2], Some(3)), vec![1, 2, 3]);
    assert_eq!(admit_listener(vec![1, 2], None), vec![1, 2]);
}
