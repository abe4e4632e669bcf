//! Framing of outbound frames into one chunk message.
//!
//! Frames already encoded for the wire are batched into a single
//! protobuf message holding one repeated length-delimited field: for
//! each frame, the field-1 length-delimited tag byte, the frame's
//! length as a varint, then the frame's bytes.  [`spec_chunk`] is the
//! authoritative encoding; the encoder is proved to produce it.

use vstd::prelude::*;

verus! {

/// Tag byte of field 1 with the length-delimited wire type.
pub const CHUNK_FIELD_TAG: u8 = 0x0a;

/// The base-128 varint encoding of `n`, least significant group
/// first, continuation bit on every group but the last.
pub open spec fn spec_varint(n: nat) -> Seq<u8>
    decreases n,
{
    if n < 0x80 {
        seq![n as u8]
    } else {
        seq![((n % 0x80) + 0x80) as u8] + spec_varint(n / 0x80)
    }
}

/// One frame on the wire: tag, length, bytes.
pub open spec fn spec_framed(p: Seq<u8>) -> Seq<u8> {
    seq![CHUNK_FIELD_TAG] + spec_varint(p.len()) + p
}

/// The chunk message: every frame in order.
pub open spec fn spec_chunk(ps: Seq<Seq<u8>>) -> Seq<u8>
    decreases ps.len(),
{
    if ps.len() == 0 {
        Seq::empty()
    } else {
        spec_chunk(ps.drop_last()) + spec_framed(ps.last())
    }
}

/// Appends the varint encoding of `n`.
fn push_varint(out: &mut Vec<u8>, n: usize)
    ensures
        final(out)@ == old(out)@ + spec_varint(n as nat),
{
    let ghost base = out@;
    let mut v = n;
    while v >= 0x80
        invariant
            out@.len() >= base.len(),
            out@.take(base.len() as int) == base,
            out@.skip(base.len() as int) + spec_varint(v as nat) == spec_varint(n as nat),
        decreases v,
    {
        let ghost emitted = out@.skip(base.len() as int);
        out.push(((v % 0x80) + 0x80) as u8);
        proof {
            assert(out@.take(base.len() as int) =~= base);
            assert(out@.skip(base.len() as int) =~= emitted.push((((v as nat) % 0x80)
                + 0x80) as u8));
            assert(spec_varint(v as nat) == seq![((((v as nat) % 0x80) + 0x80)) as u8]
                + spec_varint((v as nat) / 0x80));
            assert(out@.skip(base.len() as int) + spec_varint(((v as nat) / 0x80))
                =~= emitted + spec_varint(v as nat));
        }
        v = v / 0x80;
    }
    let ghost emitted = out@.skip(base.len() as int);
    out.push(v as u8);
    proof {
        assert(out@.take(base.len() as int) =~= base);
        assert(out@.skip(base.len() as int) =~= emitted.push(v as u8));
        assert(spec_varint(v as nat) == seq![v as u8]);
        assert(out@.skip(base.len() as int) =~= emitted + spec_varint(v as nat));
        assert(out@ =~= out@.take(base.len() as int) + out@.skip(base.len() as int));
    }
}

/// Appends the bytes of `p`.
fn push_bytes(out: &mut Vec<u8>, p: &Vec<u8>)
    ensures
        final(out)@ == old(out)@ + p@,
{
    let ghost base = out@;
    let n = p.len();
    let mut j: usize = 0;
    while j < n
        invariant
            j <= n,
            n == p@.len(),
            out@ == base + p@.take(j as int),
        decreases n - j,
    {
        out.push(p[j]);
        proof {
            assert(out@ =~= base + p@.take(j + 1));
        }
        j = j + 1;
    }
    proof {
        assert(out@ =~= base + p@);
    }
}

/// Batches outbound frames into one chunk message.
pub struct ToProtoMessageBatched {}

impl ToProtoMessageBatched {
    /// Encodes the frames as the chunk message.  Always succeeds; the
    /// `Option` mirrors the batching interface its callers use.
    pub fn batched_encoded(packets: Vec<Vec<u8>>) -> (r: Option<Vec<u8>>)
        ensures
            r matches Some(out) ==> out@ == spec_chunk(
                packets@.map_values(|p: Vec<u8>| p@),
            ),
            r is Some,
    {
        let ghost views = packets@.map_values(|p: Vec<u8>| p@);
        let mut out: Vec<u8> = Vec::new();
        let n = packets.len();
        let mut i: usize = 0;
        proof {
            assert(views.take(0) =~= Seq::<Seq<u8>>::empty());
            assert(out@ =~= spec_chunk(views.take(0)));
        }
        while i < n
            invariant
                i <= n,
                n == packets@.len(),
                views == packets@.map_values(|p: Vec<u8>| p@),
                out@ == spec_chunk(views.take(i as int)),
            decreases n - i,
        {
            let ghost before = out@;
            out.push(CHUNK_FIELD_TAG);
            push_varint(&mut out, packets[i].len());
            push_bytes(&mut out, &packets[i]);
            proof {
                assert(views.take(i + 1).drop_last() =~= views.take(i as int));
                assert(views.take(i + 1).last() == views[i as int]);
                assert(views[i as int] == packets@[i as int]@);
                assert(out@ =~= before + spec_framed(views[i as int]));
                assert(out@ =~= spec_chunk(views.take(i + 1)));
            }
            i = i + 1;
        }
        proof {
            assert(views.take(n as int) =~= views);
        }
        Some(out)
    }
}

} // verus!
