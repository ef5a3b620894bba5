//! The wire frame around a record payload: a 2-byte big-endian length
//! field counting the magic and the payload (not itself), the 2-byte
//! magic, then the payload.  No checksum.

use vstd::prelude::*;

use crate::error::LinkError;

verus! {

/// First byte of the frame magic.
pub const MAGIC_HI: u8 = 0x96;

/// Second byte of the frame magic.
pub const MAGIC_LO: u8 = 0xFB;

/// The framed form of `payload`: big-endian 16-bit `payload.len() + 2`,
/// the magic, then the payload itself.
pub open spec fn frame_bytes(payload: Seq<u8>) -> Seq<u8>
    recommends
        payload.len() + 2 <= 0xFFFF,
{
    seq![
        (((payload.len() + 2) / 256) as u8),
        (((payload.len() + 2) % 256) as u8),
        MAGIC_HI,
        MAGIC_LO,
    ] + payload
}

/// Wrap a record payload in a wire frame.
pub fn encode_frame(payload: &Vec<u8>) -> (out: Vec<u8>)
    requires
        payload@.len() + 2 <= 0xFFFF,
    ensures
        out@ == frame_bytes(payload@),
        out@.len() == payload@.len() + 4,
        out@.skip(4) == payload@,
{
    let total: usize = payload.len() + 2;
    let mut out: Vec<u8> = Vec::new();
    out.push((total / 256) as u8);
    out.push((total % 256) as u8);
    out.push(MAGIC_HI);
    out.push(MAGIC_LO);
    let ghost hdr = out@;
    let mut i: usize = 0;
    while i < payload.len()
        invariant
            i <= payload@.len(),
            out@ == hdr + payload@.subrange(0, i as int),
        decreases payload@.len() - i,
    {
        out.push(payload[i]);
        i += 1;
        proof {
            assert(payload@.subrange(0, i as int) =~= payload@.subrange(0, i - 1).push(
                payload@[i - 1],
            ));
        }
    }
    proof {
        assert(payload@.subrange(0, payload@.len() as int) =~= payload@);
        assert(out@ =~= frame_bytes(payload@));
        assert(out@.skip(4) =~= payload@);
    }
    out
}

/// Unwrap a received frame: at least 9 bytes must have arrived, and
/// everything past the first 4 bytes (length field and magic) is the
/// payload.  The declared length field is not cross-checked against the
/// byte count actually received; this matches the wire contract as
/// observed on the device.
pub fn decode_frame(received: &Vec<u8>) -> (r: Result<Vec<u8>, LinkError>)
    ensures
        match r {
            Ok(p) => received@.len() >= 9 && p@ == received@.skip(4),
            Err(e) => received@.len() < 9 && e == LinkError::ShortFrame,
        },
{
    if received.len() < 9 {
        return Err(LinkError::ShortFrame);
    }
    let mut p: Vec<u8> = Vec::new();
    let mut i: usize = 4;
    while i < received.len()
        invariant
            4 <= i <= received@.len(),
            received@.len() >= 9,
            p@ == received@.subrange(4, i as int),
        decreases received@.len() - i,
    {
        p.push(received[i]);
        i += 1;
        proof {
            assert(received@.subrange(4, i as int) =~= received@.subrange(4, i - 1).push(
                received@[i - 1],
            ));
        }
    }
    proof {
        assert(received@.subrange(4, received@.len() as int) =~= received@.skip(4));
    }
    Ok(p)
}

} // verus!
