use rusty_mjpg::counter::FrameCounter;
use rusty_mjpg::decimal::push_decimal;
use rusty_mjpg::decimal::render_decimal;
use rusty_mjpg::format::FormatSearch;
use rusty_mjpg::format::FrameFormat;
use rusty_mjpg::format::MJPG;
use rusty_mjpg::listeners::retain_delivered;
use rusty_mjpg::listeners::Delivery;
use rusty_mjpg::multipart::content_type_header;
use rusty_mjpg::multipart::encode_part;
use rusty_mjpg::multipart::BOUNDARY;
use rusty_mjpg::multipart::LENGTH_FIELD_OFFSET;
use rusty_mjpg::reply::access_reply;
use rusty_mjpg::reply::snapshot_reply;
use rusty_mjpg::reply::stream_reply;
use rusty_mjpg::reply::ReplyBody;
use rusty_mjpg::store::FrameStore;
use rusty_mjpg::stream::StreamSession;
use rusty_mjpg::stream::StreamStep;

#[test]
fn decimal_renderings() {
    assert_eq!(render_decimal(0), b"0".to_vec());
    assert_eq!(render_decimal(7), b"7".to_vec());
    assert_eq!(render_decimal(1204), b"1204".to_vec());
    assert_eq!(render_decimal(usize::MAX), usize::MAX.to_string().into_bytes());
    let mut out = b"n=".to_vec();
    push_decimal(&mut out, 90);
    assert_eq!(out, b"n=90".to_vec());
}

#[test]
fn part_carries_header_and_frame() {
    let part = encode_part(&[1, 2, 3]);
    let mut expected = b"--mjpg-boundary\r\nContent-Type: image/jpeg\r\nContent-Length: 3\r\n\r\n".to_vec();
    expected.extend_from_slice(&[1, 2, 3]);
    assert_eq!(part, expected);
    assert_eq!(&part[LENGTH_FIELD_OFFSET..LENGTH_FIELD_OFFSET + 1], b"3");
}

#[test]
fn part_announces_length_of_large_frame() {
    let frame = vec![0xabu8; 12345];
    let part = encode_part(&frame);
    assert_eq!(&part[LENGTH_FIELD_OFFSET..LENGTH_FIELD_OFFSET + 5], b"12345");
    assert_eq!(&part[LENGTH_FIELD_OFFSET + 5..LENGTH_FIELD_OFFSET + 9], b"\r\n\r\n");
    assert_eq!(&part[LENGTH_FIELD_OFFSET + 9..], &frame[..]);
}

#[test]
fn stream_content_type_names_boundary() {
    assert_eq!(BOUNDARY, "mjpg-boundary");
    assert_eq!(content_type_header(), b"multipart/x-mixed-replace;boundary=mjpg-boundary".to_vec());
}

#[test]
fn counter_reports_after_interval() {
    let mut c = FrameCounter::new();
    assert_eq!(c.tick(3), None);
    assert_eq!(c.tick(2), None);
    assert_eq!(c.tick(10), Some(3));
    assert_eq!(c.count, 0);
}

#[test]
fn store_stamps_each_publication() {
    let mut store = FrameStore::new();
    assert_eq!(store.stamp(), None);
    assert!(store.copy_frame().is_empty());
    store.publish(vec![1, 2]);
    assert_eq!(store.stamp(), Some(0));
    store.publish(vec![3]);
    assert_eq!(store.stamp(), Some(1));
    assert_eq!(store.copy_frame(), vec![3]);
    assert_eq!(store.published(), 2);
}

#[test]
fn session_sends_each_frame_once() {
    let mut session = StreamSession::new();
    let frame = vec![9u8, 8, 7];
    assert!(matches!(session.on_frame(None, &frame, 0), StreamStep::MissingStamp));
    match session.on_frame(Some(4), &frame, 0) {
        StreamStep::Deliver { part, report } => {
            assert_eq!(part, encode_part(&frame));
            assert_eq!(report, None);
        }
        _ => panic!("first frame must be sent"),
    }
    assert!(matches!(session.on_frame(Some(4), &frame, 9), StreamStep::Stale));
    match session.on_frame(Some(5), &frame, 4) {
        StreamStep::Deliver { report, .. } => assert_eq!(report, Some(2)),
        _ => panic!("new frame must be sent"),
    }
    assert_eq!(session.last_sent, Some(5));
    assert_eq!(session.counter.count, 0);
}

#[test]
fn newly_published_frame_reaches_session() {
    let mut store = FrameStore::new();
    let mut session = StreamSession::new();
    store.publish(vec![1]);
    assert!(matches!(session.on_frame(store.stamp(), store.frame(), 0), StreamStep::Deliver { .. }));
    assert!(matches!(session.on_frame(store.stamp(), store.frame(), 0), StreamStep::Stale));
    store.publish(vec![2]);
    assert!(matches!(session.on_frame(store.stamp(), store.frame(), 0), StreamStep::Deliver { .. }));
}

#[test]
fn listeners_that_got_the_signal_stay() {
    let kept = retain_delivered(
        vec!['a', 'b', 'c', 'd'],
        &vec![Delivery::Delivered, Delivery::Closed, Delivery::Failed, Delivery::Delivered],
    );
    assert_eq!(kept, vec!['a', 'd']);
    let none: Vec<u32> = retain_delivered(Vec::new(), &Vec::new());
    assert!(none.is_empty());
}

#[test]
fn format_search_shrinks_mjpeg_sizes() {
    assert_eq!(&MJPG, b"MJPG");
    assert!(FormatSearch::considers(b"MJPG"));
    assert!(!FormatSearch::considers(b"YUYV"));
    let mut search = FormatSearch::new(FrameFormat { width: 1280, height: 720, fourcc: *b"YUYV" });
    assert!(search.request_for(1280, 480).is_none());
    assert!(search.request_for(1920, 1080).is_none());
    let req = search.request_for(640, 480).unwrap();
    assert_eq!((req.width, req.height, req.fourcc), (640, 480, *b"MJPG"));
    assert!(search.finish().is_err());
    assert_eq!(search.finish().err().unwrap().message(), "mjpg-format not supported");
    search.adopt(req);
    let done = search.finish().ok().unwrap();
    assert_eq!((done.width, done.height), (640, 480));
}

#[test]
fn replies_allow_any_origin() {
    let mut store = FrameStore::new();
    store.publish(vec![0xff, 0xd8, 0xff, 0xd9]);
    let snap = snapshot_reply(&store);
    assert_eq!(snap.status, 200);
    assert_eq!(snap.allow_origin, b"*".to_vec());
    assert_eq!(snap.content_type, Some(b"image/jpeg".to_vec()));
    assert!(matches!(snap.body, ReplyBody::Bytes(ref b) if *b == vec![0xff, 0xd8, 0xff, 0xd9]));
    let access = access_reply();
    assert_eq!(access.status, 200);
    assert_eq!(access.allow_origin, b"*".to_vec());
    assert!(access.content_type.is_none());
    assert!(matches!(access.body, ReplyBody::Text(ref t) if t.is_empty()));
    let stream = stream_reply();
    assert_eq!(stream.content_type, Some(b"multipart/x-mixed-replace;boundary=mjpg-boundary".to_vec()));
    assert!(matches!(stream.body, ReplyBody::Parts));
}

#[test]
fn negotiation_with_exact_device_shrinks() {
    let mut search = FormatSearch::new(FrameFormat { width: 1280, height: 720, fourcc: *b"YUYV" });
    let sizes = [(1920u32, 1080u32), (640, 480), (800, 600), (320, 240), (320, 100)];
    let mut requested = Vec::new();
    for (w, h) in sizes.iter() {
        if let Some(req) = search.request_for(*w, *h) {
            requested.push((req.width, req.height));
            search.adopt(req);
        }
    }
    assert_eq!(requested, vec![(640, 480), (320, 240)]);
    let done = search.finish().ok().unwrap();
    assert_eq!((done.width, done.height, done.fourcc), (320, 240, *b"MJPG"));
}

#[test]
fn dropped_listener_is_not_signalled_again() {
    let mut store = FrameStore::new();
    let mut listeners = vec![1u64, 2, 3];
    store.publish(vec![1]);
    listeners = retain_delivered(listeners, &vec![Delivery::Delivered, Delivery::Closed, Delivery::Delivered]);
    assert_eq!(listeners, vec![1, 3]);
    store.publish(vec![2]);
    listeners.push(4);
    listeners = retain_delivered(listeners, &vec![Delivery::Failed, Delivery::Delivered, Delivery::Delivered]);
    assert_eq!(listeners, vec![3, 4]);
    assert_eq!(store.stamp(), Some(1));
}
