//! The packet header that opens every datagram of the game's format.
//!
//! The header occupies the first [`HEADER_LEN`] bytes of a datagram at
//! fixed little-endian offsets.  [`decode_header`] is total: any byte
//! string either yields a header or the `MalformedHeader` error, and the
//! contract says which, exactly.  [`encode_header`] is the companion
//! encoder, and the round trip is proved in [`lemma_header_round_trip`].

use vstd::prelude::*;

use crate::wire::le_u16;
use crate::wire::le_u32;
use crate::wire::le_u64;
use crate::wire::lemma_u16_round;
use crate::wire::lemma_u32_round;
use crate::wire::lemma_u64_round;
use crate::wire::push_u16;
use crate::wire::push_u32;
use crate::wire::push_u64;
use crate::wire::read_u16;
use crate::wire::read_u32;
use crate::wire::read_u64;
use crate::wire::u16_le_bytes;
use crate::wire::u32_le_bytes;
use crate::wire::u64_le_bytes;

verus! {

/// Size in bytes of the on-wire packet header.
pub const HEADER_LEN: usize = 29;

/// The decoded packet header.  `session_time_bits` carries the raw bits
/// of the on-wire 32-bit float; the core never interprets it as a
/// number, so it is kept bit-exact rather than narrowed or rounded.
#[derive(Clone, Copy, Debug, PartialEq, Eq, Structural)]
pub struct PacketHeader {
    pub packet_format: u16,
    pub game_year: u8,
    pub game_major_version: u8,
    pub game_minor_version: u8,
    pub packet_version: u8,
    pub packet_id: u8,
    pub session_uid: u64,
    pub session_time_bits: u32,
    pub frame_identifier: u32,
    pub overall_frame_identifier: u32,
    pub player_car_index: u8,
    pub secondary_player_car_index: u8,
}

/// Rejection of a datagram too short to hold a header.
#[derive(Clone, Copy, Debug, PartialEq, Eq, Structural)]
pub enum HeaderError {
    MalformedHeader,
}

/// The header read from the first [`HEADER_LEN`] bytes of `b`.
/// Meaningful only when `b.len() >= HEADER_LEN`.
pub open spec fn spec_header(b: Seq<u8>) -> PacketHeader {
    PacketHeader {
        packet_format: le_u16(b, 0),
        game_year: b[2],
        game_major_version: b[3],
        game_minor_version: b[4],
        packet_version: b[5],
        packet_id: b[6],
        session_uid: le_u64(b, 7),
        session_time_bits: le_u32(b, 15),
        frame_identifier: le_u32(b, 19),
        overall_frame_identifier: le_u32(b, 23),
        player_car_index: b[27],
        secondary_player_car_index: b[28],
    }
}

/// What [`decode_header`] returns on `b`: the header exactly when the
/// input is long enough, the error exactly otherwise.
pub open spec fn spec_decode_header(b: Seq<u8>) -> Result<PacketHeader, HeaderError> {
    if b.len() >= HEADER_LEN {
        Ok(spec_header(b))
    } else {
        Err(HeaderError::MalformedHeader)
    }
}

/// The [`HEADER_LEN`] bytes that encode `h`.
pub open spec fn spec_encode_header(h: PacketHeader) -> Seq<u8> {
    u16_le_bytes(h.packet_format) + seq![
        h.game_year,
        h.game_major_version,
        h.game_minor_version,
        h.packet_version,
        h.packet_id,
    ] + u64_le_bytes(h.session_uid) + u32_le_bytes(h.session_time_bits) + u32_le_bytes(
        h.frame_identifier,
    ) + u32_le_bytes(h.overall_frame_identifier) + seq![
        h.player_car_index,
        h.secondary_player_car_index,
    ]
}

/// Decodes the packet header from the front of a datagram.
///
/// Total over all byte strings: the result is `Ok` exactly when the
/// input holds at least [`HEADER_LEN`] bytes, and `MalformedHeader`
/// exactly otherwise.
pub fn decode_header(b: &Vec<u8>) -> (r: Result<PacketHeader, HeaderError>)
    ensures
        r == spec_decode_header(b@),
{
    if b.len() < HEADER_LEN {
        return Err(HeaderError::MalformedHeader);
    }
    Ok(
        PacketHeader {
            packet_format: read_u16(b, 0),
            game_year: b[2],
            game_major_version: b[3],
            game_minor_version: b[4],
            packet_version: b[5],
            packet_id: b[6],
            session_uid: read_u64(b, 7),
            session_time_bits: read_u32(b, 15),
            frame_identifier: read_u32(b, 19),
            overall_frame_identifier: read_u32(b, 23),
            player_car_index: b[27],
            secondary_player_car_index: b[28],
        },
    )
}

/// Encodes `h` as the [`HEADER_LEN`] header bytes.
pub fn encode_header(h: &PacketHeader) -> (r: Vec<u8>)
    ensures
        r@ == spec_encode_header(*h),
        r@.len() == HEADER_LEN,
{
    let mut out: Vec<u8> = Vec::new();
    push_u16(&mut out, h.packet_format);
    out.push(h.game_year);
    out.push(h.game_major_version);
    out.push(h.game_minor_version);
    out.push(h.packet_version);
    out.push(h.packet_id);
    push_u64(&mut out, h.session_uid);
    push_u32(&mut out, h.session_time_bits);
    push_u32(&mut out, h.frame_identifier);
    push_u32(&mut out, h.overall_frame_identifier);
    out.push(h.player_car_index);
    out.push(h.secondary_player_car_index);
    proof {
        assert(out@ =~= spec_encode_header(*h));
    }
    out
}

/// Header decoding is total: every byte string yields either a header
/// or `MalformedHeader`, and which one is decided by the length alone.
pub proof fn lemma_decode_header_total(b: Seq<u8>)
    ensures
        b.len() >= HEADER_LEN ==> spec_decode_header(b) == Ok::<
            PacketHeader,
            HeaderError,
        >(spec_header(b)),
        b.len() < HEADER_LEN ==> spec_decode_header(b) == Err::<
            PacketHeader,
            HeaderError,
        >(HeaderError::MalformedHeader),
{
}

/// Decoding an encoded header gives the header back.
pub proof fn lemma_header_round_trip(h: PacketHeader)
    ensures
        spec_decode_header(spec_encode_header(h)) == Ok::<PacketHeader, HeaderError>(h),
{
    let b = spec_encode_header(h);
    assert(b.len() == HEADER_LEN);
    assert(b.subrange(0, 2) =~= u16_le_bytes(h.packet_format));
    lemma_u16_round(h.packet_format, b, 0);
    assert(b.subrange(7, 15) =~= u64_le_bytes(h.session_uid));
    lemma_u64_round(h.session_uid, b, 7);
    assert(b.subrange(15, 19) =~= u32_le_bytes(h.session_time_bits));
    lemma_u32_round(h.session_time_bits, b, 15);
    assert(b.subrange(19, 23) =~= u32_le_bytes(h.frame_identifier));
    lemma_u32_round(h.frame_identifier, b, 19);
    assert(b.subrange(23, 27) =~= u32_le_bytes(h.overall_frame_identifier));
    lemma_u32_round(h.overall_frame_identifier, b, 23);
    assert(spec_header(b) == h);
}

} // verus!
