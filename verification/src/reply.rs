//! The HTTP replies of the server's routes, as plain values.
use vstd::prelude::*;
use crate::multipart::ascii;
use crate::multipart::content_type_header;
use crate::multipart::push_ascii;
use crate::multipart::stream_content_type;
use crate::store::FrameStore;

verus! {

/// The status code of every reply.
pub const STATUS_OK: u16 = 200;

/// The body of a reply.
pub enum ReplyBody {
    /// A text body.
    Text(Vec<u8>),
    /// A body of raw bytes.
    Bytes(Vec<u8>),
    /// The multipart stream of frames, produced while the client is connected.
    Parts,
}

/// An HTTP reply: status, the value of the Access-Control-Allow-Origin
/// header, the value of the Content-Type header if it is set explicitly,
/// and the body.
pub struct Reply {
    pub status: u16,
    pub allow_origin: Vec<u8>,
    pub content_type: Option<Vec<u8>>,
    pub body: ReplyBody,
}

/// Any origin may read the replies.
pub open spec fn any_origin() -> Seq<u8> {
    ascii("*"@)
}

/// The media type of a single frame.
pub open spec fn jpeg_media_type() -> Seq<u8> {
    ascii("image/jpeg"@)
}

fn any_origin_value() -> (v: Vec<u8>)
    ensures
        v@ == any_origin(),
{
    let mut v: Vec<u8> = Vec::new();
    proof {
        reveal_strlit("*");
    }
    push_ascii(&mut v, "*");
    proof {
        assert(v@ =~= any_origin());
    }
    v
}

/// The reply to a request for the latest frame: that frame, as a JPEG image.
pub fn snapshot_reply(store: &FrameStore) -> (r: Reply)
    ensures
        r.status == STATUS_OK,
        r.allow_origin@ == any_origin(),
        r.content_type matches Some(t) && t@ == jpeg_media_type(),
        r.body matches ReplyBody::Bytes(b) && b@ == store@.frame,
{
    let mut media: Vec<u8> = Vec::new();
    proof {
        reveal_strlit("image/jpeg");
    }
    push_ascii(&mut media, "image/jpeg");
    proof {
        assert(media@ =~= jpeg_media_type());
    }
    Reply {
        status: STATUS_OK,
        allow_origin: any_origin_value(),
        content_type: Some(media),
        body: ReplyBody::Bytes(store.copy_frame()),
    }
}

/// The reply to a HEAD or OPTIONS request: an empty text body that any
/// origin may read.
pub fn access_reply() -> (r: Reply)
    ensures
        r.status == STATUS_OK,
        r.allow_origin@ == any_origin(),
        r.content_type is None,
        r.body matches ReplyBody::Text(t) && t@ == Seq::<u8>::empty(),
{
    Reply {
        status: STATUS_OK,
        allow_origin: any_origin_value(),
        content_type: None,
        body: ReplyBody::Text(Vec::new()),
    }
}

/// The reply that opens a stream: the multipart stream of frames.
pub fn stream_reply() -> (r: Reply)
    ensures
        r.status == STATUS_OK,
        r.allow_origin@ == any_origin(),
        r.content_type matches Some(t) && t@ == stream_content_type(),
        r.body is Parts,
{
    Reply {
        status: STATUS_OK,
        allow_origin: any_origin_value(),
        content_type: Some(content_type_header()),
        body: ReplyBody::Parts,
    }
}

} // verus!
