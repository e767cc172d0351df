//! Framing of JPEG frames as parts of a multipart/x-mixed-replace stream.
use vstd::prelude::*;
use vstd::string::is_ascii;
use vstd::string::is_ascii_spec_bytes;
use crate::decimal::all_digits;
use crate::decimal::decimal;
use crate::decimal::digits_value;
use crate::decimal::lemma_decimal_round_trip;
use crate::decimal::push_decimal;

verus! {

/// The boundary that separates the parts of the stream.
pub const BOUNDARY: &'static str = "mjpg-boundary";

/// The bytes of an ASCII text.
pub open spec fn ascii(s: Seq<char>) -> Seq<u8> {
    Seq::new(s.len(), |i: int| s[i] as u8)
}

/// Appends the bytes of an ASCII text to `out`.
pub fn push_ascii(out: &mut Vec<u8>, s: &str)
    requires
        is_ascii(s),
    ensures
        final(out)@ == old(out)@ + ascii(s@),
{
    let bytes = s.as_bytes();
    proof {
        is_ascii_spec_bytes(s);
    }
    out.extend_from_slice(bytes);
    proof {
        assert(out@ =~= old(out)@ + ascii(s@));
    }
}

/// The header of a part that carries a JPEG image of `len` bytes.
pub open spec fn part_header(len: nat) -> Seq<u8> {
    ascii("--"@) + ascii(BOUNDARY@) + ascii("\r\nContent-Type: image/jpeg\r\nContent-Length: "@)
        + decimal(len) + ascii("\r\n\r\n"@)
}

/// The part that carries the JPEG image `frame`: its header, then the image.
pub open spec fn frame_part(frame: Seq<u8>) -> Seq<u8> {
    part_header(frame.len()) + frame
}

/// Offset, within a part, of the value of its Content-Length header.
pub const LENGTH_FIELD_OFFSET: usize = 59;

/// Every part announces the length of the image it carries: the digits at
/// the Content-Length offset read back as that length, they are followed
/// by the blank line that ends the header, and the image fills the rest.
pub proof fn lemma_part_announces_length(frame: Seq<u8>)
    ensures
        ({
            let part = frame_part(frame);
            let digits = decimal(frame.len());
            let end = LENGTH_FIELD_OFFSET + digits.len();
            &&& all_digits(digits)
            &&& digits_value(digits) == frame.len()
            &&& part.subrange(LENGTH_FIELD_OFFSET as int, end) == digits
            &&& part.subrange(end, end + 4) == ascii("\r\n\r\n"@)
            &&& part.len() == end + 4 + frame.len()
            &&& part.subrange(end + 4, part.len() as int) == frame
        }),
{
    reveal_strlit("--");
    reveal_strlit("mjpg-boundary");
    reveal_strlit("\r\nContent-Type: image/jpeg\r\nContent-Length: ");
    reveal_strlit("\r\n\r\n");
    lemma_decimal_round_trip(frame.len());
    let part = frame_part(frame);
    let digits = decimal(frame.len());
    let end = LENGTH_FIELD_OFFSET + digits.len();
    let head = ascii("--"@) + ascii(BOUNDARY@) + ascii(
        "\r\nContent-Type: image/jpeg\r\nContent-Length: "@,
    );
    assert(head.len() == LENGTH_FIELD_OFFSET);
    assert(part =~= head + digits + ascii("\r\n\r\n"@) + frame);
    assert(part.subrange(LENGTH_FIELD_OFFSET as int, end) =~= digits);
    assert(part.subrange(end, end + 4) =~= ascii("\r\n\r\n"@));
    assert(part.subrange(end + 4, part.len() as int) =~= frame);
}

/// The value of the Content-Type header of the stream.
pub open spec fn stream_content_type() -> Seq<u8> {
    ascii("multipart/x-mixed-replace;boundary="@) + ascii(BOUNDARY@)
}

/// Encodes `frame` as one part of the stream.
pub fn encode_part(frame: &[u8]) -> (part: Vec<u8>)
    ensures
        part@ == frame_part(frame@),
{
    let mut part: Vec<u8> = Vec::new();
    proof {
        reveal_strlit("--");
        reveal_strlit("mjpg-boundary");
        reveal_strlit("\r\nContent-Type: image/jpeg\r\nContent-Length: ");
        reveal_strlit("\r\n\r\n");
    }
    push_ascii(&mut part, "--");
    push_ascii(&mut part, BOUNDARY);
    push_ascii(&mut part, "\r\nContent-Type: image/jpeg\r\nContent-Length: ");
    push_decimal(&mut part, frame.len());
    push_ascii(&mut part, "\r\n\r\n");
    part.extend_from_slice(frame);
    proof {
        assert(part@ =~= frame_part(frame@));
    }
    part
}

/// The Content-Type header value that announces the stream.
pub fn content_type_header() -> (value: Vec<u8>)
    ensures
        value@ == stream_content_type(),
{
    let mut value: Vec<u8> = Vec::new();
    proof {
        reveal_strlit("multipart/x-mixed-replace;boundary=");
        reveal_strlit("mjpg-boundary");
    }
    push_ascii(&mut value, "multipart/x-mixed-replace;boundary=");
    push_ascii(&mut value, BOUNDARY);
    proof {
        assert(value@ =~= stream_content_type());
    }
    value
}

} // verus!
