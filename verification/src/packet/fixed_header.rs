//! The fixed header present at the start of every control packet, and the
//! closed enumeration of packet types carried in its high nibble.

use vstd::prelude::*;

use crate::channel::{ByteReader, ByteWriter, SinkError};
use crate::error::Error;
use crate::packet::data_representation::{
    read_u8, read_variable_byte_integer, vbi_encoding, vbi_parse, write_u8,
    write_variable_byte_integer, VARIABLE_BYTE_INTEGER_MAX,
};

verus! {

/// The sixteen packet types, one per 4-bit code point.
#[derive(Debug, Clone, Copy, PartialEq, Eq, Structural)]
pub enum PacketType {
    Reserved,
    Connect,
    ConnAck,
    Publish,
    PubAck,
    PubRec,
    PubRel,
    PubComp,
    Subscribe,
    SubAck,
    Unsubscribe,
    UnsubAck,
    PingReq,
    PingResp,
    Disconnect,
    Auth,
}

/// The 4-bit code point of a packet type.
pub open spec fn packet_type_bits(t: PacketType) -> u8 {
    match t {
        PacketType::Reserved => 0,
        PacketType::Connect => 1,
        PacketType::ConnAck => 2,
        PacketType::Publish => 3,
        PacketType::PubAck => 4,
        PacketType::PubRec => 5,
        PacketType::PubRel => 6,
        PacketType::PubComp => 7,
        PacketType::Subscribe => 8,
        PacketType::SubAck => 9,
        PacketType::Unsubscribe => 10,
        PacketType::UnsubAck => 11,
        PacketType::PingReq => 12,
        PacketType::PingResp => 13,
        PacketType::Disconnect => 14,
        PacketType::Auth => 15,
    }
}

/// The packet type selected by the low nibble of `bits`; the high nibble is
/// ignored.
pub open spec fn packet_type_of_bits(bits: u8) -> PacketType {
    let low = bits % 16;
    if low == 0 { PacketType::Reserved }
    else if low == 1 { PacketType::Connect }
    else if low == 2 { PacketType::ConnAck }
    else if low == 3 { PacketType::Publish }
    else if low == 4 { PacketType::PubAck }
    else if low == 5 { PacketType::PubRec }
    else if low == 6 { PacketType::PubRel }
    else if low == 7 { PacketType::PubComp }
    else if low == 8 { PacketType::Subscribe }
    else if low == 9 { PacketType::SubAck }
    else if low == 10 { PacketType::Unsubscribe }
    else if low == 11 { PacketType::UnsubAck }
    else if low == 12 { PacketType::PingReq }
    else if low == 13 { PacketType::PingResp }
    else if low == 14 { PacketType::Disconnect }
    else { PacketType::Auth }
}

impl PacketType {
    /// Convert to the raw 4-bit unsigned value that represents the given type.
    pub fn to_bits(&self) -> (r: u8)
        ensures
            r == packet_type_bits(*self),
            r <= 15,
    {
        match self {
            PacketType::Reserved => 0,
            PacketType::Connect => 1,
            PacketType::ConnAck => 2,
            PacketType::Publish => 3,
            PacketType::PubAck => 4,
            PacketType::PubRec => 5,
            PacketType::PubRel => 6,
            PacketType::PubComp => 7,
            PacketType::Subscribe => 8,
            PacketType::SubAck => 9,
            PacketType::Unsubscribe => 10,
            PacketType::UnsubAck => 11,
            PacketType::PingReq => 12,
            PacketType::PingResp => 13,
            PacketType::Disconnect => 14,
            PacketType::Auth => 15,
        }
    }

    /// Get the [`PacketType`] that the given bits represent.
    ///
    /// Bits in the upper half of the given byte are discarded.
    pub fn from_bits(bits: u8) -> (r: PacketType)
        ensures
            r == packet_type_of_bits(bits),
    {
        let low = bits % 16;
        match low {
            0 => PacketType::Reserved,
            1 => PacketType::Connect,
            2 => PacketType::ConnAck,
            3 => PacketType::Publish,
            4 => PacketType::PubAck,
            5 => PacketType::PubRec,
            6 => PacketType::PubRel,
            7 => PacketType::PubComp,
            8 => PacketType::Subscribe,
            9 => PacketType::SubAck,
            10 => PacketType::Unsubscribe,
            11 => PacketType::UnsubAck,
            12 => PacketType::PingReq,
            13 => PacketType::PingResp,
            14 => PacketType::Disconnect,
            _ => PacketType::Auth,
        }
    }
}

/// The fixed header at the start of every control packet: the packet type
/// and flags packed in the control byte, then the remaining length as a
/// variable-length integer.
#[derive(Debug, Clone, Copy, PartialEq, Eq, Structural)]
pub struct FixedHeader {
    pub type_: PacketType,
    pub flags: u8,
    pub remaining_length: u32,
}

/// The control byte of a header: packet type in the high nibble, the low
/// nibble of the flags in the low nibble.
pub open spec fn control_byte_bits(h: FixedHeader) -> u8 {
    (packet_type_bits(h.type_) * 16 + (h.flags % 16)) as u8
}

/// The wire representation of a header: its control byte followed by the
/// encoding of its remaining length.
pub open spec fn header_bytes(h: FixedHeader) -> Seq<u8> {
    seq![control_byte_bits(h)] + vbi_encoding(h.remaining_length as nat)
}

/// Decodes a fixed header from the front of `s`: the header and the
/// number of bytes it occupies, or `None` when the bytes do not form one.
pub open spec fn header_parse(s: Seq<u8>) -> Option<(FixedHeader, nat)> {
    if s.len() == 0 {
        None
    } else {
        match vbi_parse(s.skip(1), 4) {
            Some(p) => Some((
                FixedHeader {
                    type_: packet_type_of_bits((s[0] / 16) as u8),
                    flags: (s[0] % 16) as u8,
                    remaining_length: p.0 as u32,
                },
                (1 + p.1) as nat,
            )),
            None => None,
        }
    }
}

impl FixedHeader {
    /// Reads a header: one control byte, then the remaining length.
    /// Fails with `MalformedPacketError` when the bytes run out or the
    /// remaining length is not a well-formed variable-length integer.
    pub fn read<E>(input: &mut ByteReader) -> (r: Result<FixedHeader, Error<E>>)
        ensures
            match header_parse(old(input)@) {
                Some(p) => r == Ok::<FixedHeader, Error<E>>(p.0)
                    && final(input)@ == old(input)@.skip(p.1 as int),
                None => r == Err::<FixedHeader, Error<E>>(Error::MalformedPacketError)
                    && final(input)@ == (if old(input)@.len() < 5 {
                        old(input)@.skip(old(input)@.len() as int)
                    } else {
                        old(input)@.skip(5)
                    }),
            },
    {
        let control_byte = match read_u8::<E>(input) {
            Ok(b) => b,
            Err(e) => {
                return Err(e);
            },
        };
        let type_ = PacketType::from_bits(control_byte / 16);
        let flags = control_byte % 16;
        let remaining_length = match read_variable_byte_integer::<E>(input) {
            Ok(v) => v,
            Err(e) => {
                proof {
                    let s = old(input)@;
                    if s.len() < 5 {
                        assert(s.skip(1).skip(s.len() - 1) =~= s.skip(s.len() as int));
                    } else {
                        assert(s.skip(1).skip(4) =~= s.skip(5));
                    }
                }
                return Err(e);
            },
        };
        proof {
            let s = old(input)@;
            let p = vbi_parse(s.skip(1), 4)->Some_0;
            assert(s.skip(1).skip(p.1 as int) =~= s.skip(1 + p.1 as int));
        }
        Ok(FixedHeader { type_, flags, remaining_length })
    }

    /// Writes the header: its control byte, then its remaining length.
    /// Only the low nibble of the flags is carried. Bytes already emitted
    /// stay written when the destination fills up mid-header.
    pub fn write(&self, output: &mut ByteWriter) -> (r: Result<(), Error<SinkError>>)
        requires
            self.remaining_length <= VARIABLE_BYTE_INTEGER_MAX,
            old(output).wf(),
        ensures
            final(output).wf(),
            final(output).spec_capacity() == old(output).spec_capacity(),
            old(output)@.len() + header_bytes(*self).len() <= old(output).spec_capacity()
                ==> r is Ok && final(output)@ == old(output)@ + header_bytes(*self),
            old(output)@.len() + header_bytes(*self).len() > old(output).spec_capacity()
                ==> r == Err::<(), Error<SinkError>>(Error::NetworkError(SinkError::Full))
                && final(output)@ == old(output)@ + header_bytes(*self).take(
                    old(output).spec_capacity() - old(output)@.len(),
                ),
    {
        let control_byte = self.type_.to_bits() * 16 + (self.flags % 16);
        match write_u8(control_byte, output) {
            Ok(()) => {},
            Err(e) => {
                proof {
                    assert(header_bytes(*self).take(0) =~= Seq::<u8>::empty());
                    assert(old(output)@ + header_bytes(*self).take(0) =~= old(output)@);
                }
                return Err(e);
            },
        }
        let ghost mid = output@;
        let r = write_variable_byte_integer(self.remaining_length, output);
        proof {
            let enc = vbi_encoding(self.remaining_length as nat);
            let hb = header_bytes(*self);
            assert(mid =~= old(output)@ + seq![control_byte_bits(*self)]);
            if mid.len() + enc.len() <= old(output).spec_capacity() {
                assert(output@ =~= old(output)@ + hb);
            } else {
                let space = old(output).spec_capacity() - old(output)@.len();
                assert(hb.take(space) =~= seq![control_byte_bits(*self)] + enc.take(space - 1));
                assert(output@ =~= old(output)@ + hb.take(space));
            }
        }
        r
    }
}

/// A header whose flags fit their four bits comes back unchanged from its
/// own wire representation, consuming exactly its bytes, whatever data
/// follows them.
pub proof fn lemma_header_round_trip(h: FixedHeader, rest: Seq<u8>)
    requires
        h.flags < 16,
        h.remaining_length <= VARIABLE_BYTE_INTEGER_MAX,
    ensures
        header_parse(header_bytes(h) + rest) == Some((h, header_bytes(h).len())),
{
    let s = header_bytes(h) + rest;
    let cb = control_byte_bits(h);
    let b = packet_type_bits(h.type_);
    assert(s[0] == cb);
    assert(s.skip(1) =~= vbi_encoding(h.remaining_length as nat) + rest);
    crate::packet::data_representation::lemma_vbi_round_trip(
        h.remaining_length as nat,
        rest,
    );
    assert(cb / 16 == b && cb % 16 == h.flags) by (nonlinear_arith)
        requires
            cb == b * 16 + h.flags,
            b <= 15,
            h.flags < 16,
    ;
    lemma_packet_type_bits_inverse(h.type_, cb);
}

/// The code-point mapping is a bijection between the sixteen packet types
/// and the sixteen 4-bit values, and `packet_type_of_bits` reads only the
/// low nibble of its input.
pub proof fn lemma_packet_type_bits_inverse(t: PacketType, bits: u8)
    ensures
        packet_type_of_bits(packet_type_bits(t)) == t,
        packet_type_bits(packet_type_of_bits(bits)) == bits % 16,
        packet_type_of_bits(bits) == packet_type_of_bits(bits % 16),
{
}

} // verus!

