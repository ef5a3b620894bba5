//! The named device operations.  Each one is a fresh, non-retrying
//! micro-session: build a request frame, send it, await one reply, and
//! surface any failure at once.  The bytes of each exchange are built and
//! interpreted here; the socket work stays with the caller.

use vstd::prelude::*;
use vstd::string::StringSliceAdditionalSpecFns;

use crate::codec::{
    decode_map, encode_records, is_encoding_of, lemma_encode_decode_round_trip,
    lemma_encode_len_bound,
};
use crate::error::LinkError;
use crate::frame::{decode_frame, encode_frame, frame_bytes};
use crate::tlv::{map_of_records, small_values, unique_keys, Tlv, TlvKey};

verus! {

/// How long to wait for a reply, at every call site of this design.
pub const RESPONSE_TIMEOUT_MS: u64 = 2000;

/// The UTF-8 bytes of the message name sent by the idle operation, "IDL".
pub open spec fn msg_idl() -> Seq<u8> {
    seq![0x49u8, 0x44u8, 0x4Cu8]
}

/// The UTF-8 bytes of the message name sent by the disable operation, "DIS".
pub open spec fn msg_dis() -> Seq<u8> {
    seq![0x44u8, 0x49u8, 0x53u8]
}

/// The named operations a device client performs.
#[derive(Clone, Copy, PartialEq, Eq, Structural, Debug)]
pub enum DeviceOp {
    /// One isolated request/response exchange, usable with extra records.
    Idle,
    /// Switch the display off.
    Disable,
}

/// Every operation tears the link down before its exchange; only `Idle`
/// also tears it down afterwards.  `Disable` deliberately leaves the link
/// connected: the asymmetry is part of the observed behaviour, not an
/// accident to unify away.
pub open spec fn spec_disconnects_after(op: DeviceOp) -> bool {
    match op {
        DeviceOp::Idle => true,
        DeviceOp::Disable => false,
    }
}

/// Whether `op` disconnects after its exchange (it always does before).
pub fn disconnects_after(op: DeviceOp) -> (b: bool)
    ensures
        b == spec_disconnects_after(op),
{
    match op {
        DeviceOp::Idle => true,
        DeviceOp::Disable => false,
    }
}

/// Build the full wire frame of one request: `msg_name` stored under
/// `MsgName` on top of the given records, encoded and framed.
pub fn request_frame(msg_name: &str, tlv: Tlv) -> (out: Vec<u8>)
    requires
        tlv.wf(),
        msg_name.spec_bytes().len() <= 255,
    ensures
        out@.len() >= 4,
        out@ == frame_bytes(out@.skip(4)),
        is_encoding_of(out@.skip(4), tlv@.insert(TlvKey::MsgName, msg_name.spec_bytes())),
        decode_map(out@.skip(4)) == tlv@.insert(TlvKey::MsgName, msg_name.spec_bytes()),
{
    let mut t = tlv;
    t.set_str(TlvKey::MsgName, msg_name);
    proof {
        lemma_encode_len_bound(t.records());
        lemma_encode_decode_round_trip(t);
    }
    let payload = t.serialize();
    let out = encode_frame(&payload);
    proof {
        let s = t.records();
        assert(unique_keys(s) && small_values(s) && map_of_records(s) == t@ && out@.skip(4)
            == encode_records(s));
        assert(is_encoding_of(out@.skip(4), t@));
    }
    out
}

/// The frame the idle operation sends: any caller-supplied extra records,
/// with `MsgName = "IDL"` on top.
pub fn idle_request(extra: Option<Tlv>) -> (out: Vec<u8>)
    requires
        (extra matches Some(t) ==> t.wf()),
    ensures
        out@.len() >= 4,
        out@ == frame_bytes(out@.skip(4)),
        is_encoding_of(out@.skip(4), (match extra {
            Some(t) => t@,
            None => Map::<TlvKey, Seq<u8>>::empty(),
        }).insert(TlvKey::MsgName, msg_idl())),
        decode_map(out@.skip(4)) == (match extra {
            Some(t) => t@,
            None => Map::<TlvKey, Seq<u8>>::empty(),
        }).insert(TlvKey::MsgName, msg_idl()),
{
    let t = match extra {
        Some(t) => t,
        None => Tlv::new(),
    };
    proof {
        reveal_strlit("IDL");
        assert(vstd::utf8::is_ascii_chars("IDL"@));
        vstd::utf8::is_ascii_chars_encode_utf8("IDL"@);
        assert("IDL".spec_bytes() =~= msg_idl());
    }
    request_frame("IDL", t)
}

/// The frame the disable operation sends: `MsgName = "DIS"` and nothing
/// else.
pub fn disable_request() -> (out: Vec<u8>)
    ensures
        out@.len() >= 4,
        out@ == frame_bytes(out@.skip(4)),
        is_encoding_of(out@.skip(4), Map::<TlvKey, Seq<u8>>::empty().insert(
            TlvKey::MsgName,
            msg_dis(),
        )),
        decode_map(out@.skip(4)) == Map::<TlvKey, Seq<u8>>::empty().insert(
            TlvKey::MsgName,
            msg_dis(),
        ),
{
    proof {
        reveal_strlit("DIS");
        assert(vstd::utf8::is_ascii_chars("DIS"@));
        vstd::utf8::is_ascii_chars_encode_utf8("DIS"@);
        assert("DIS".spec_bytes() =~= msg_dis());
    }
    request_frame("DIS", Tlv::new())
}

/// The frame the show-QR operation sends: an idle exchange carrying the
/// text under `QrCodeData` beside `MsgName = "IDL"`.
pub fn show_qr_request(qr: &str) -> (out: Vec<u8>)
    requires
        qr.spec_bytes().len() <= 255,
    ensures
        out@.len() >= 4,
        out@ == frame_bytes(out@.skip(4)),
        is_encoding_of(out@.skip(4), Map::<TlvKey, Seq<u8>>::empty().insert(
            TlvKey::QrCodeData,
            qr.spec_bytes(),
        ).insert(TlvKey::MsgName, msg_idl())),
        decode_map(out@.skip(4)) == Map::<TlvKey, Seq<u8>>::empty().insert(
            TlvKey::QrCodeData,
            qr.spec_bytes(),
        ).insert(TlvKey::MsgName, msg_idl()),
{
    let mut t = Tlv::new();
    t.set_str(TlvKey::QrCodeData, qr);
    idle_request(Some(t))
}

/// Interpret the bytes one bounded read returned.  Fewer than 9 bytes is
/// a short frame and nothing is decoded; otherwise everything past the
/// 4-byte frame head is decoded as records.
pub fn parse_response(received: &Vec<u8>) -> (r: Result<Tlv, LinkError>)
    ensures
        match r {
            Ok(t) => received@.len() >= 9 && t.wf() && t@ == decode_map(received@.skip(4)),
            Err(e) => received@.len() < 9 && e == LinkError::ShortFrame,
        },
{
    match decode_frame(received) {
        Ok(payload) => Ok(Tlv::deserialize(&payload)),
        Err(e) => Err(e),
    }
}

} // verus!
