//! The framed wire layer: a frame is
//! `DELIM  COBS( CBOR(envelope) || CRC16-ARC-LE(CBOR(envelope)) )  DELIM`
//! with `DELIM = 0x00`.
//!
//! The CBOR layer is verified in full; the CRC16-ARC checksum and the
//! COBS transform are outside calls whose results are named
//! ([`crc16_arc_of`], [`cobs_encoding_of`]) and trusted only as far as
//! their crates' documentation goes: the checksum and the encoding depend
//! on the input bytes alone, the encoding contains no zero byte, and
//! decoding inverts encoding.

use vstd::prelude::*;

use crate::cbor::envelope_bytes;
use crate::cbor::lemma_peel;
use crate::cbor::parse_envelope;
use crate::decode::decode_envelope;
use crate::cbor::encode_envelope;
use crate::topics::PacketFormat;
use crate::topics::PacketFormatView;

verus! {

/// The CRC16-ARC checksum (polynomial 0x8005, reflected, init 0, xorout
/// 0) of a byte sequence. Named, not written out: nothing but the crc16
/// crate computes it.
pub uninterp spec fn crc16_arc_of(data: Seq<u8>) -> u16;

/// The COBS encoding of a byte sequence with sentinel 0. Named, not
/// written out: nothing but the cobs crate computes it.
pub uninterp spec fn cobs_encoding_of(data: Seq<u8>) -> Seq<u8>;

/// Relies on crc16's `State::<ARC>::calculate`: the checksum is a
/// function of the input bytes alone.
#[verifier::external_body]
fn crc16_arc(data: &[u8]) -> (r: u16)
    ensures
        r == crc16_arc_of(data@),
{
    crc16::State::<crc16::ARC>::calculate(data)
}

/// Relies on cobs's `encode_vec`: the encoding is a function of the input
/// bytes alone, and it contains no zero byte, which is the point of COBS.
#[verifier::external_body]
fn cobs_encode(data: &[u8]) -> (r: Vec<u8>)
    ensures
        r@ == cobs_encoding_of(data@),
        forall|i: int| 0 <= i < r@.len() ==> r@[i] != 0u8,
{
    cobs::encode_vec(data)
}

/// The error type of cobs's decoder.
#[verifier::external_type_specification]
#[verifier::external_body]
pub struct ExCobsDecodeError(cobs::DecodeError);

/// Relies on cobs's `decode_vec`: decoding inverts encoding, so on the
/// encoding of any payload it succeeds and returns that payload.
#[verifier::external_body]
fn cobs_decode(data: &[u8]) -> (r: Result<Vec<u8>, cobs::DecodeError>)
    ensures
        forall|p: Seq<u8>| data@ == cobs_encoding_of(p) ==> r is Ok && r->Ok_0@ == p,
{
    cobs::decode_vec(data)
}

/// Why a packet could not be encoded.
#[derive(Clone, Copy, Debug, PartialEq, Eq, Structural)]
pub enum PacketEncodeErr {
    /// The envelope breaks the embedded string bounds and cannot be
    /// serialised.
    SerializationError,
    /// The destination buffer is too small for the encoded packet.
    BufferTooSmall,
}

/// Why a byte sequence could not be decoded into a packet.
#[derive(Clone, Copy, Debug, PartialEq, Eq, Structural)]
pub enum PacketDecodeErr {
    /// The bytes are not a COBS encoding.
    CobsDecodeError,
    /// Fewer than two bytes remained after COBS decoding.
    TooShort,
    /// The stored checksum does not match the payload.
    CrcMismatch,
    /// The checksummed payload is not a canonical encoding of a catalog
    /// envelope.
    DeserializationError,
}

/// The two checksum bytes, little endian.
pub open spec fn le16(n: u16) -> Seq<u8> {
    seq![(n % 256) as u8, (n / 256) as u8]
}

/// The checksummed payload of an envelope: its CBOR bytes followed by
/// their CRC16-ARC, little endian.
pub open spec fn payload_bytes(e: PacketFormatView) -> Seq<u8> {
    envelope_bytes(e) + le16(crc16_arc_of(envelope_bytes(e)))
}

/// The complete encoded packet of an envelope, before delimiters.
pub open spec fn encoded_packet_bytes(e: PacketFormatView) -> Seq<u8> {
    cobs_encoding_of(payload_bytes(e))
}

/// A COBS-decoded payload `p` carries the envelope `v`: it splits into a
/// body and a matching little-endian CRC16-ARC, and the body is the
/// canonical encoding of `v`.
pub open spec fn payload_carries(p: Seq<u8>, v: PacketFormatView) -> bool {
    &&& p.len() >= 2
    &&& le16(crc16_arc_of(p.subrange(0, p.len() - 2))) == p.subrange(p.len() - 2, p.len() as int)
    &&& parse_envelope(p.subrange(0, p.len() - 2)) == Some(v)
}

proof fn lemma_payload_split(e: PacketFormatView)
    ensures
        payload_bytes(e).len() >= 3,
        payload_bytes(e).subrange(0, payload_bytes(e).len() - 2) == envelope_bytes(e),
        payload_bytes(e)[payload_bytes(e).len() - 2] == (crc16_arc_of(envelope_bytes(e))
            % 256) as u8,
        payload_bytes(e)[payload_bytes(e).len() - 1] == (crc16_arc_of(envelope_bytes(e))
            / 256) as u8,
{
    let p = payload_bytes(e);
    let env = envelope_bytes(e);
    let c = le16(crc16_arc_of(env));
    assert(p.subrange(0, p.len() as int) =~= p);
    lemma_peel(p, 0, p.len() as int, env, c);
    assert(p.subrange(env.len() as int, p.len() as int)[0] == p[env.len() as int]);
    assert(p.subrange(env.len() as int, p.len() as int)[1] == p[env.len() as int + 1]);
}

/// Encode `message` into the front of `encode_buffer`, leaving the rest
/// of the buffer as it was, and return the encoded size; the buffer keeps
/// its length, as a fixed transmit buffer would.
pub fn encode_packet(message: &PacketFormat, encode_buffer: &mut Vec<u8>) -> (r: Result<
    usize,
    PacketEncodeErr,
>)
    ensures
        final(encode_buffer)@.len() == old(encode_buffer)@.len(),
        match r {
            Ok(n) => {
                &&& message.wf()
                &&& n == encoded_packet_bytes(message@).len()
                &&& n <= old(encode_buffer)@.len()
                &&& final(encode_buffer)@ == encoded_packet_bytes(message@) + old(
                    encode_buffer,
                )@.skip(n as int)
                &&& forall|i: int| 0 <= i < n ==> final(encode_buffer)@[i] != 0u8
            },
            Err(PacketEncodeErr::SerializationError) => !message.wf() && final(encode_buffer)@
                == old(encode_buffer)@,
            Err(PacketEncodeErr::BufferTooSmall) => {
                &&& message.wf()
                &&& encoded_packet_bytes(message@).len() > old(encode_buffer)@.len()
                &&& final(encode_buffer)@ == old(encode_buffer)@
            },
        },
{
    if !message.check_wf() {
        return Err(PacketEncodeErr::SerializationError);
    }
    let cbor = encode_envelope(message);
    let crc = crc16_arc(cbor.as_slice());
    let mut payload = cbor;
    payload.push((crc % 256) as u8);
    payload.push((crc / 256) as u8);
    assert(payload@ =~= payload_bytes(message@));
    let mut encoded = cobs_encode(payload.as_slice());
    let n = encoded.len();
    if n > encode_buffer.len() {
        return Err(PacketEncodeErr::BufferTooSmall);
    }
    let ghost enc_view = encoded@;
    let mut i: usize = n;
    while i < encode_buffer.len()
        invariant
            n <= i <= encode_buffer@.len(),
            encoded@ == enc_view + encode_buffer@.subrange(n as int, i as int),
        decreases encode_buffer@.len() - i,
    {
        let b = encode_buffer[i];
        encoded.push(b);
        proof {
            assert(encode_buffer@.subrange(n as int, i + 1) =~= encode_buffer@.subrange(
                n as int,
                i as int,
            ).push(encode_buffer@[i as int]));
            assert(encoded@ =~= enc_view + encode_buffer@.subrange(n as int, i + 1));
        }
        i = i + 1;
    }
    proof {
        assert(encode_buffer@.subrange(n as int, encode_buffer@.len() as int) =~= encode_buffer@.skip(
            n as int,
        ));
    }
    *encode_buffer = encoded;
    Ok(n)
}

/// Decode the COBS payload of one frame, delimiters already stripped.
/// Accepts exactly the canonical encodings: for every well-formed
/// envelope `e`, the bytes [`encoded_packet_bytes`]`(e)` decode to an
/// envelope equal to `e` in every field.
#[verifier::rlimit(100)]
pub fn decode_packet(data: &[u8]) -> (r: Result<PacketFormat, PacketDecodeErr>)
    ensures
        r matches Ok(m) ==> m.wf() && exists|p: Seq<u8>| #[trigger] payload_carries(p, m@),
        forall|e: PacketFormatView|
            e.wf() && data@ == #[trigger] encoded_packet_bytes(e) ==> (r matches Ok(m) && m@ == e),
{
    let decoded = match cobs_decode(data) {
        Ok(d) => d,
        Err(_) => {
            proof {
                assert forall|e: PacketFormatView|
                    e.wf() && data@ == #[trigger] encoded_packet_bytes(e) implies false by {}
            }
            return Err(PacketDecodeErr::CobsDecodeError);
        },
    };
    if decoded.len() < 2 {
        proof {
            assert forall|e: PacketFormatView|
                e.wf() && data@ == #[trigger] encoded_packet_bytes(e) implies false by {
                assert(decoded@ == payload_bytes(e));
                lemma_payload_split(e);
            }
        }
        return Err(PacketDecodeErr::TooShort);
    }
    let n = decoded.len();
    let body = vstd::slice::slice_subrange(decoded.as_slice(), 0, n - 2);
    let crc_lo = decoded[n - 2];
    let crc_hi = decoded[n - 1];
    let calculated = crc16_arc(body);
    let received_lo = (calculated % 256) as u8;
    let received_hi = (calculated / 256) as u8;
    if crc_lo != received_lo || crc_hi != received_hi {
        proof {
            assert forall|e: PacketFormatView|
                e.wf() && data@ == #[trigger] encoded_packet_bytes(e) implies false by {
                assert(decoded@ == payload_bytes(e));
                lemma_payload_split(e);
                assert(body@ == envelope_bytes(e));
            }
        }
        return Err(PacketDecodeErr::CrcMismatch);
    }
    match decode_envelope(body) {
        Some(m) => {
            proof {
                assert(payload_carries(decoded@, m@)) by {
                    assert(decoded@.subrange(0, decoded@.len() - 2) == body@);
                    assert(decoded@.subrange(decoded@.len() - 2, decoded@.len() as int) =~= le16(
                        calculated,
                    ));
                }
                assert forall|e: PacketFormatView|
                    e.wf() && data@ == #[trigger] encoded_packet_bytes(e) implies m@ == e by {
                    assert(decoded@ == payload_bytes(e));
                    lemma_payload_split(e);
                    assert(body@ == envelope_bytes(e));
                    crate::cbor::lemma_envelope_round_trip(e);
                }
            }
            Ok(m)
        },
        None => {
            proof {
                assert forall|e: PacketFormatView|
                    e.wf() && data@ == #[trigger] encoded_packet_bytes(e) implies false by {
                    assert(decoded@ == payload_bytes(e));
                    lemma_payload_split(e);
                    assert(body@ == envelope_bytes(e));
                    crate::cbor::lemma_envelope_round_trip(e);
                }
            }
            Err(PacketDecodeErr::DeserializationError)
        },
    }
}

/// Encode `message` as one complete frame: the delimited byte stream
/// `0x00 .. encoded packet .. 0x00`. The frame holds exactly two zero
/// bytes, its first and its last.
pub fn encode_frame(message: &PacketFormat) -> (r: Result<Vec<u8>, PacketEncodeErr>)
    ensures
        match r {
            Ok(v) => {
                &&& message.wf()
                &&& v@ == seq![0u8] + encoded_packet_bytes(message@) + seq![0u8]
                &&& v@.len() >= 2
                &&& v@[0] == 0u8
                &&& v@[v@.len() - 1] == 0u8
                &&& forall|i: int| 0 < i < v@.len() - 1 ==> v@[i] != 0u8
            },
            Err(e) => e == PacketEncodeErr::SerializationError && !message.wf(),
        },
{
    if !message.check_wf() {
        return Err(PacketEncodeErr::SerializationError);
    }
    let cbor = encode_envelope(message);
    let crc = crc16_arc(cbor.as_slice());
    let mut payload = cbor;
    payload.push((crc % 256) as u8);
    payload.push((crc / 256) as u8);
    assert(payload@ =~= payload_bytes(message@));
    let encoded = cobs_encode(payload.as_slice());
    let mut out: Vec<u8> = Vec::new();
    out.push(0x00);
    let mut i: usize = 0;
    while i < encoded.len()
        invariant
            i <= encoded@.len(),
            out@ == seq![0u8] + encoded@.take(i as int),
        decreases encoded@.len() - i,
    {
        let b = encoded[i];
        out.push(b);
        proof {
            assert(encoded@.take(i + 1) =~= encoded@.take(i as int).push(encoded@[i as int]));
            assert(out@ =~= seq![0u8] + encoded@.take(i + 1));
        }
        i = i + 1;
    }
    proof {
        assert(encoded@.take(encoded@.len() as int) =~= encoded@);
    }
    out.push(0x00);
    proof {
        assert(out@ =~= seq![0u8] + encoded_packet_bytes(message@) + seq![0u8]);
    }
    Ok(out)
}

} // verus!
