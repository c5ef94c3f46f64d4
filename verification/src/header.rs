//! The head of a transfer frame: which session it belongs to, and where in the stream it stands.

use vstd::prelude::*;

verus! {

/// How many bytes the head of a transfer frame has.
pub const HEADER_LEN: usize = 20;

/// The two bytes that every transfer frame begins with.
pub const MAGIC_0: u8 = 0xd1;

pub const MAGIC_1: u8 = 0x0c;

/// The number that two bytes stand for, least significant first.
pub open spec fn le16(a: u8, b: u8) -> u16 {
    (a + 256 * b) as u16
}

/// The number that four bytes stand for, least significant first.
pub open spec fn le32(a: u8, b: u8, c: u8, d: u8) -> u32 {
    (a + 256 * b + 65536 * c + 16777216 * d) as u32
}

/// The session and the sequence number of a transfer frame; nothing where the payload is too short
/// for a head or does not begin with the magic bytes.
pub open spec fn frame_key(payload: Seq<u8>) -> Option<(u16, u32)> {
    if payload.len() < HEADER_LEN || payload[0] != MAGIC_0 || payload[1] != MAGIC_1 {
        None
    } else {
        Some(
            (
                le16(payload[2], payload[3]),
                le32(payload[4], payload[5], payload[6], payload[7]),
            ),
        )
    }
}

/// Reads the session and the sequence number out of a decoded payload.
pub fn frame_id(payload: &[u8]) -> (id: Option<(u16, u32)>)
    ensures
        id == frame_key(payload@),
{
    if payload.len() < HEADER_LEN || payload[0] != MAGIC_0 || payload[1] != MAGIC_1 {
        return None;
    }
    let session: u16 = payload[2] as u16 + 256 * payload[3] as u16;
    let seq: u32 = payload[4] as u32 + 256 * payload[5] as u32 + 65536 * payload[6] as u32
        + 16777216 * payload[7] as u32;
    Some((session, seq))
}

/// The first eight bytes of the head of a frame of a session.
pub open spec fn head_start(session: u16, seq: u32) -> Seq<u8> {
    seq![
        MAGIC_0,
        MAGIC_1,
        (session % 256) as u8,
        (session / 256) as u8,
        (seq % 256) as u8,
        (seq / 256 % 256) as u8,
        (seq / 65536 % 256) as u8,
        (seq / 16777216) as u8,
    ]
}

/// What a sender writes at the head of a frame is what is read back, whatever follows.
pub proof fn law_frame_key_reads_back(session: u16, seq: u32, rest: Seq<u8>)
    requires
        8 + rest.len() >= HEADER_LEN,
    ensures
        frame_key(head_start(session, seq) + rest) == Some((session, seq)),
{
    let p = head_start(session, seq) + rest;
    assert(p.take(8) =~= head_start(session, seq));
    assert(p[0] == p.take(8)[0] && p[1] == p.take(8)[1] && p[2] == p.take(8)[2] && p[3] == p.take(8)[3]
        && p[4] == p.take(8)[4] && p[5] == p.take(8)[5] && p[6] == p.take(8)[6] && p[7]
        == p.take(8)[7]);
}

/// Two frames are of one session and one place in the stream exactly when the first eight bytes of
/// their heads agree.
pub proof fn law_frame_key_is_the_head(a: Seq<u8>, b: Seq<u8>)
    requires
        frame_key(a) is Some,
        frame_key(b) is Some,
    ensures
        frame_key(a) == frame_key(b) <==> a.take(8) == b.take(8),
{
    if a.take(8) == b.take(8) {
        assert forall|i: int| 0 <= i < 8 implies a[i] == b[i] by {
            assert(a[i] == a.take(8)[i] && b[i] == b.take(8)[i]);
        }
    } else if frame_key(a) == frame_key(b) {
        assert(a[2] == b[2] && a[3] == b[3]);
        assert(a[4] == b[4] && a[5] == b[5] && a[6] == b[6] && a[7] == b[7]);
        assert(a.take(8) =~= b.take(8));
    }
}

/// A payload has a head exactly where it is at least twenty bytes long and begins with the bytes d1
/// and 0c. The session stands in the two bytes that follow and the sequence number in the next four,
/// both with their low bytes first; the rest of the payload has no part in them.
pub proof fn law_head_is_where_it_stands(payload: Seq<u8>)
    ensures
        frame_key(payload) is Some <==> payload.len() >= 20 && payload[0] == 0xd1 && payload[1]
            == 0x0c,
        frame_key(payload) matches Some((session, seq)) ==> {
            &&& session % 256 == payload[2]
            &&& session / 256 == payload[3]
            &&& seq % 256 == payload[4]
            &&& seq / 256 % 256 == payload[5]
            &&& seq / 65536 % 256 == payload[6]
            &&& seq / 16777216 == payload[7]
        },
{
}

} // verus!
