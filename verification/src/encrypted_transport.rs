//! Media packets under encryption: the header and the relay's report stay
//! readable, the payload does not.
use vstd::prelude::*;
use vstd::string::StringExecFns;

use crate::proto::{MediaPacket, PacketView};

verus! {

broadcast use vstd::string::group_string_axioms;

/// A packet with another payload.
pub open spec fn with_payload(packet: PacketView, payload: Seq<u8>) -> PacketView {
    PacketView { payload, ..packet }
}

/// The packet that is sent, from what the cipher made of its payload.
pub fn seal(packet: &MediaPacket, ciphertext: Result<Vec<u8>, String>) -> (r: Result<
    MediaPacket,
    String,
>)
    ensures
        match ciphertext {
            Ok(c) => r matches Ok(p) && p@ == with_payload(packet@, c@),
            Err(e) => r matches Err(m) && m@ == "encrypt: "@ + e@,
        },
{
    match ciphertext {
        Ok(payload) => Ok(
            MediaPacket { header: packet.header, payload, quality_report: packet.quality_report },
        ),
        Err(e) => {
            let mut m = String::from_str("encrypt: ");
            m.append(e.as_str());
            Err(m)
        },
    }
}

/// The packet that was meant, from what the cipher made of the payload that
/// came.
pub fn open(packet: &MediaPacket, plaintext: Result<Vec<u8>, String>) -> (r: Result<
    MediaPacket,
    String,
>)
    ensures
        match plaintext {
            Ok(p) => r matches Ok(q) && q@ == with_payload(packet@, p@),
            Err(e) => r matches Err(m) && m@ == "decrypt: "@ + e@,
        },
{
    match plaintext {
        Ok(payload) => Ok(
            MediaPacket { header: packet.header, payload, quality_report: packet.quality_report },
        ),
        Err(e) => {
            let mut m = String::from_str("decrypt: ");
            m.append(e.as_str());
            Err(m)
        },
    }
}

/// With a cipher that gives back what it was given, opening what was sealed
/// gives back the packet.
pub proof fn lemma_open_undoes_seal(packet: PacketView, ciphertext: Seq<u8>)
    ensures
        with_payload(with_payload(packet, ciphertext), packet.payload) == packet,
{
}

/// Only the payload changes: header and report stay readable.
pub proof fn lemma_header_stays(packet: PacketView, payload: Seq<u8>)
    ensures
        with_payload(packet, payload).payload == payload,
        with_payload(packet, payload).header == packet.header,
        with_payload(packet, payload).quality_report == packet.quality_report,
{
}

} // verus!
