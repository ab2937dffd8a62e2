//! How frames look on the wire.

use crate::proto;
use crate::proto::{
    decode, encode, from_be32, parse, payload_of, Frame, FrameBuffer, FrameError, FrameView,
};
use vstd::bytes::*;
use vstd::prelude::*;

verus! {

/// A frame begins with the length of the rest in four bytes, the most significant first, and then
/// says what it is: 1 for a control message, whose text follows, and 2 for data, whose pane follows
/// in eight bytes, the least significant first, and then its bytes.
pub proof fn frames_have_their_form(f: FrameView)
    requires
        payload_of(f).len() <= u32::MAX,
    ensures
        ({
            let b = encode(f);
            &&& b.len() >= 5
            &&& b[0] * 0x100_0000 + b[1] * 0x1_0000 + b[2] * 0x100 + b[3] == b.len() - 4
            &&& f matches FrameView::Control(json) ==> b[4] == 1 && b.skip(5) == json
            &&& f matches FrameView::Data { pane, bytes } ==> b[4] == 2 && b.subrange(5, 13)
                == spec_u64_to_le_bytes(pane) && b.skip(13) == bytes
        }),
{
    let b = encode(f);
    let p = payload_of(f);
    crate::proto::length_round_trips(p.len() as u32);
    lemma_auto_spec_u64_to_from_le_bytes();
    match f {
        FrameView::Control(json) => {
            assert(b.skip(5) =~= json);
        },
        FrameView::Data { pane, bytes } => {
            assert(spec_u64_to_le_bytes(pane).len() == 8);
            assert(b.subrange(5, 13) =~= spec_u64_to_le_bytes(pane));
            assert(b.skip(13) =~= bytes);
        },
    }
}

/// A payload that carries nothing, is of an unknown kind, or is too short for its pane is no frame,
/// each for its own reason.
pub proof fn bad_payloads_are_told_apart(p: Seq<u8>)
    ensures
        p.len() == 0 ==> decode(p) == Err::<FrameView, FrameError>(FrameError::Empty),
        p.len() > 0 && p[0] != 1 && p[0] != 2 ==> decode(p) == Err::<FrameView, FrameError>(
            FrameError::UnknownTag(p[0]),
        ),
        0 < p.len() < 9 && p[0] == 2 ==> decode(p) == Err::<FrameView, FrameError>(
            FrameError::ShortData,
        ),
        p.len() > 0 && p[0] == 1 ==> decode(p) is Ok,
        p.len() >= 9 && p[0] == 2 ==> decode(p) is Ok,
{
}

/// A length of nothing, or of more than 16 MiB, is refused at once; a frame that is not whole yet is
/// waited for.
pub proof fn lengths_are_checked(s: Seq<u8>)
    ensures
        s.len() < 4 ==> parse(s) == Ok::<Option<(FrameView, int)>, FrameError>(None),
        s.len() >= 4 && (from_be32(s) == 0 || from_be32(s) > 16777216) ==> parse(s) == Err::<
            Option<(FrameView, int)>,
            FrameError,
        >(FrameError::BadLength(from_be32(s) as u32)),
        s.len() >= 4 && 0 < from_be32(s) <= 16777216 && s.len() < 4 + from_be32(s) ==> parse(s)
            == Ok::<Option<(FrameView, int)>, FrameError>(None),
        s.len() >= 4 && 0 < from_be32(s) <= 16777216 && s.len() >= 4 + from_be32(s) ==> !(parse(s)
            matches Ok(None)),
        s.len() >= 4 ==> from_be32(s) == s[0] * 0x100_0000 + s[1] * 0x1_0000 + s[2] * 0x100 + s[3],
{
}

/// A stream that ends inside a frame is cut off; one that ends between two is not.
pub proof fn streams_end_between_frames(b: FrameBuffer, r: Result<(), FrameError>)
    requires
        call_ensures(FrameBuffer::finish, (&b,), r),
    ensures
        r is Ok <==> b@.len() == 0,
        r matches Err(e) ==> e == FrameError::UnexpectedEof,
{
}

/// What was written is parsed, in fact.
pub proof fn written_frames_are_parsed(
    f: FrameView,
    rest: Seq<u8>,
    buf: &[u8],
    res: Result<Option<(Frame, usize)>, FrameError>,
)
    requires
        payload_of(f).len() <= 16777216,
        buf@ == encode(f) + rest,
        call_ensures(Frame::try_parse, (buf,), res),
    ensures
        res matches Ok(Some((g, n))) && g@ == f && n == encode(f).len(),
{
    crate::proto::write_then_read(f, rest);
}

/// A length is sent with its highest byte first.
pub proof fn lengths_are_big_endian(n: u32, s: Seq<u8>)
    requires
        s.len() == 4,
    ensures
        proto::be32(n).len() == 4,
        proto::be32(n)[0] * 0x100_0000 + proto::be32(n)[1] * 0x1_0000 + proto::be32(n)[2] * 0x100
            + proto::be32(n)[3] == n,
        proto::from_be32(s) == s[0] * 0x100_0000 + s[1] * 0x1_0000 + s[2] * 0x100 + s[3],
{
}

} // verus!
