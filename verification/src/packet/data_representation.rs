//! Readers and writers for the basic types present in a control packet:
//! big-endian unsigned 8/16/32-bit integers and the variable-length
//! integer encoding.
//!
//! A variable-length integer is carried as a little-endian sequence of
//! base-128 digits, one per byte; the top bit of each byte is a
//! continuation flag, set on every byte except the last. The encoding is
//! limited to four bytes, so the representable range is
//! [0, [`VARIABLE_BYTE_INTEGER_MAX`]].

use vstd::prelude::*;

use crate::channel::{ByteReader, ByteWriter, SinkError};
use crate::error::Error;

verus! {

/// Largest value a variable-length integer can carry: `128^4 - 1`.
pub const VARIABLE_BYTE_INTEGER_MAX: u32 = 268435455;

/// The minimal variable-length encoding of `v`: base-128 digits, least
/// significant first, the continuation bit set on all but the last.
pub open spec fn vbi_encoding(v: nat) -> Seq<u8>
    decreases v,
{
    if v < 128 {
        seq![v as u8]
    } else {
        seq![((v % 128) + 128) as u8] + vbi_encoding((v / 128) as nat)
    }
}

/// Decodes a variable-length integer from the front of `s`, reading at
/// most `max` bytes. Yields the value and the number of bytes consumed,
/// or `None` when `s` ends before a byte with a clear continuation bit,
/// or when no such byte appears within `max` bytes.
pub open spec fn vbi_parse(s: Seq<u8>, max: nat) -> Option<(nat, nat)>
    decreases max,
{
    if max == 0 || s.len() == 0 {
        None
    } else if s[0] < 128 {
        Some((s[0] as nat, 1))
    } else {
        match vbi_parse(s.skip(1), (max - 1) as nat) {
            Some(p) => Some((((s[0] - 128) + 128 * p.0) as nat, p.1 + 1)),
            None => None,
        }
    }
}

/// Whether a byte of a variable-length integer announces a further byte.
pub fn has_continuation_bit(b: u8) -> (r: bool)
    ensures
        r == (b >= 128),
{
    b >= 128
}

/// Reads exactly one byte.
pub fn read_u8<E>(input: &mut ByteReader) -> (r: Result<u8, Error<E>>)
    ensures
        old(input)@.len() >= 1 ==> r == Ok::<u8, Error<E>>(old(input)@[0])
            && final(input)@ == old(input)@.skip(1),
        old(input)@.len() == 0 ==> r == Err::<u8, Error<E>>(Error::MalformedPacketError)
            && final(input)@ == old(input)@,
{
    match input.read_byte() {
        Some(b) => Ok(b),
        None => Err(Error::MalformedPacketError),
    }
}

/// Reads exactly two bytes, big-endian.
pub fn read_u16<E>(input: &mut ByteReader) -> (r: Result<u16, Error<E>>)
    ensures
        old(input)@.len() >= 2 ==> r is Ok
            && r->Ok_0 == old(input)@[0] * 256 + old(input)@[1]
            && final(input)@ == old(input)@.skip(2),
        old(input)@.len() < 2 ==> r == Err::<u16, Error<E>>(Error::MalformedPacketError)
            && final(input)@ == Seq::<u8>::empty(),
{
    let b0 = match input.read_byte() {
        Some(b) => b,
        None => {
            return Err(Error::MalformedPacketError);
        },
    };
    let b1 = match input.read_byte() {
        Some(b) => b,
        None => {
            return Err(Error::MalformedPacketError);
        },
    };
    proof {
        assert(old(input)@.skip(1).skip(1) =~= old(input)@.skip(2));
    }
    Ok((b0 as u16) * 256 + (b1 as u16))
}

/// Reads exactly four bytes, big-endian.
pub fn read_u32<E>(input: &mut ByteReader) -> (r: Result<u32, Error<E>>)
    ensures
        old(input)@.len() >= 4 ==> r is Ok
            && r->Ok_0 == old(input)@[0] * 0x1000000 + old(input)@[1] * 0x10000
                + old(input)@[2] * 256 + old(input)@[3]
            && final(input)@ == old(input)@.skip(4),
        old(input)@.len() < 4 ==> r == Err::<u32, Error<E>>(Error::MalformedPacketError)
            && final(input)@ == Seq::<u8>::empty(),
{
    let b0 = match input.read_byte() {
        Some(b) => b,
        None => {
            return Err(Error::MalformedPacketError);
        },
    };
    let b1 = match input.read_byte() {
        Some(b) => b,
        None => {
            return Err(Error::MalformedPacketError);
        },
    };
    let b2 = match input.read_byte() {
        Some(b) => b,
        None => {
            return Err(Error::MalformedPacketError);
        },
    };
    let b3 = match input.read_byte() {
        Some(b) => b,
        None => {
            return Err(Error::MalformedPacketError);
        },
    };
    proof {
        assert(old(input)@.skip(1).skip(1).skip(1).skip(1) =~= old(input)@.skip(4));
    }
    Ok((b0 as u32) * 0x1000000 + (b1 as u32) * 0x10000 + (b2 as u32) * 256 + (b3 as u32))
}

/// Reads a variable-length integer: one byte per base-128 digit, least
/// significant first, until a byte with a clear continuation bit. Fails
/// with `MalformedPacketError` when the data ends mid-sequence or when a
/// fifth byte would be required.
pub fn read_variable_byte_integer<E>(input: &mut ByteReader) -> (r: Result<u32, Error<E>>)
    ensures
        match vbi_parse(old(input)@, 4) {
            Some(p) => r is Ok && r->Ok_0 == p.0 && p.0 <= VARIABLE_BYTE_INTEGER_MAX
                && 1 <= p.1 <= 4 && p.1 <= old(input)@.len()
                && final(input)@ == old(input)@.skip(p.1 as int),
            None => r == Err::<u32, Error<E>>(Error::MalformedPacketError)
                && final(input)@ == old(input)@.skip(
                    if old(input)@.len() < 4 { old(input)@.len() as int } else { 4 },
                ),
        },
{
    let ghost s = old(input)@;
    let ghost mut i: int = 0;

    let mut multiplier: u32 = 1;
    let mut value: u32 = 0;

    loop
        invariant
            0 <= i <= 3,
            i <= s.len(),
            (i == 0 && multiplier == 1) || (i == 1 && multiplier == 128)
                || (i == 2 && multiplier == 16384) || (i == 3 && multiplier == 2097152),
            value < multiplier,
            input@ == s.skip(i),
            s == old(input)@,
            vbi_parse(s, 4) == (match vbi_parse(s.skip(i), (4 - i) as nat) {
                Some(p) => Some::<(nat, nat)>(
                    ((value + multiplier * p.0) as nat, (i + p.1) as nat),
                ),
                None => None::<(nat, nat)>,
            }),
        decreases 4 - i,
    {
        let encoded_byte = match input.read_byte() {
            Some(b) => b,
            None => {
                // The stream ended while a digit was still announced.
                proof {
                    assert(s.skip(i).len() == 0);
                    assert(s.len() == i);
                    assert(vbi_parse(s.skip(i), (4 - i) as nat) is None);
                }
                return Err(Error::MalformedPacketError);
            },
        };
        let digit = encoded_byte % 128;
        proof {
            assert(digit * multiplier <= 127 * 2097152) by (nonlinear_arith)
                requires
                    digit <= 127,
                    multiplier <= 2097152,
            ;
            assert(value + digit * multiplier < 128 * multiplier) by (nonlinear_arith)
                requires
                    value < multiplier,
                    digit <= 127,
                    0 < multiplier,
            ;
        }
        value = value + (digit as u32) * multiplier;

        if encoded_byte < 128 {
            // Continuation bit is clear: this was the last digit.
            proof {
                assert(s.skip(i)[0] == encoded_byte);
                assert(vbi_parse(s.skip(i), (4 - i) as nat)
                    == Some((encoded_byte as nat, 1nat)));
                assert(input@ =~= s.skip(i + 1));
            }
            return Ok(value);
        }

        proof {
            // One more digit follows: peel it off the front of the parse.
            assert(s.skip(i)[0] == encoded_byte);
            assert(s.skip(i).skip(1) =~= s.skip(i + 1));
            assert(vbi_parse(s.skip(i), (4 - i) as nat)
                == (match vbi_parse(s.skip(i + 1), (3 - i) as nat) {
                    Some(p) => Some::<(nat, nat)>(
                        (((encoded_byte - 128) + 128 * p.0) as nat, (p.1 + 1) as nat),
                    ),
                    None => None::<(nat, nat)>,
                }));
        }

        multiplier = multiplier * 128;
        if multiplier > 2097152 {
            // This would announce a fifth byte; four is the maximum.
            proof {
                assert(vbi_parse(s.skip(3), 1nat) is None);
                assert(vbi_parse(s, 4) is None);
                assert(s.len() >= 4);
                assert(input@ =~= s.skip(4));
            }
            return Err(Error::MalformedPacketError);
        }

        proof {
            let m = multiplier as int;
            assert forall|p: (nat, nat)|
                vbi_parse(s.skip(i + 1), (3 - i) as nat) == Some(p) implies (value
                + multiplier * p.0) as nat == ((value - digit * (m / 128)) + (m / 128) * (
            (encoded_byte - 128) + 128 * p.0)) as nat by {
                assert((m / 128) * ((encoded_byte - 128) + 128 * p.0)
                    == (m / 128) * (encoded_byte - 128) + ((m / 128) * 128) * p.0)
                    by (nonlinear_arith);
            }
            i = i + 1;
        }
    }
}

/// Writes one byte.
pub fn write_u8(num: u8, output: &mut ByteWriter) -> (r: Result<(), Error<SinkError>>)
    requires
        old(output).wf(),
    ensures
        final(output).wf(),
        final(output).spec_capacity() == old(output).spec_capacity(),
        old(output)@.len() + 1 <= old(output).spec_capacity() ==> r is Ok
            && final(output)@ == old(output)@.push(num),
        old(output)@.len() + 1 > old(output).spec_capacity()
            ==> r == Err::<(), Error<SinkError>>(Error::NetworkError(SinkError::Full))
            && final(output)@ == old(output)@,
{
    match output.write_byte(num) {
        Ok(()) => Ok(()),
        Err(e) => Err(Error::NetworkError(e)),
    }
}

/// The big-endian byte representation of a 16-bit integer.
pub open spec fn be_bytes_u16(v: u16) -> Seq<u8> {
    seq![(v / 256) as u8, (v % 256) as u8]
}

/// The big-endian byte representation of a 32-bit integer.
pub open spec fn be_bytes_u32(v: u32) -> Seq<u8> {
    seq![
        (v / 0x1000000) as u8,
        ((v / 0x10000) % 256) as u8,
        ((v / 256) % 256) as u8,
        (v % 256) as u8,
    ]
}

/// Writes two bytes, big-endian. Writes nothing when the destination
/// cannot take both.
pub fn write_u16(num: u16, output: &mut ByteWriter) -> (r: Result<(), Error<SinkError>>)
    requires
        old(output).wf(),
    ensures
        final(output).wf(),
        final(output).spec_capacity() == old(output).spec_capacity(),
        old(output)@.len() + 2 <= old(output).spec_capacity() ==> r is Ok
            && final(output)@ == old(output)@ + be_bytes_u16(num),
        old(output)@.len() + 2 > old(output).spec_capacity()
            ==> r == Err::<(), Error<SinkError>>(Error::NetworkError(SinkError::Full))
            && final(output)@ == old(output)@,
{
    if output.capacity() - output.bytes().len() >= 2 {
        let _ = output.write_byte((num / 256) as u8);
        let _ = output.write_byte((num % 256) as u8);
        proof {
            assert(output@ =~= old(output)@ + be_bytes_u16(num));
        }
        Ok(())
    } else {
        Err(Error::NetworkError(SinkError::Full))
    }
}

/// Writes four bytes, big-endian. Writes nothing when the destination
/// cannot take all four.
pub fn write_u32(num: u32, output: &mut ByteWriter) -> (r: Result<(), Error<SinkError>>)
    requires
        old(output).wf(),
    ensures
        final(output).wf(),
        final(output).spec_capacity() == old(output).spec_capacity(),
        old(output)@.len() + 4 <= old(output).spec_capacity() ==> r is Ok
            && final(output)@ == old(output)@ + be_bytes_u32(num),
        old(output)@.len() + 4 > old(output).spec_capacity()
            ==> r == Err::<(), Error<SinkError>>(Error::NetworkError(SinkError::Full))
            && final(output)@ == old(output)@,
{
    if output.capacity() - output.bytes().len() >= 4 {
        let _ = output.write_byte((num / 0x1000000) as u8);
        let _ = output.write_byte(((num / 0x10000) % 256) as u8);
        let _ = output.write_byte(((num / 256) % 256) as u8);
        let _ = output.write_byte((num % 256) as u8);
        proof {
            assert(output@ =~= old(output)@ + be_bytes_u32(num));
        }
        Ok(())
    } else {
        Err(Error::NetworkError(SinkError::Full))
    }
}

/// Writes the minimal variable-length encoding of `num`, least significant
/// digit first, the continuation bit set on every byte except the last.
/// When the destination fills up mid-sequence, the bytes already emitted
/// stay written and the write fails.
pub fn write_variable_byte_integer(num: u32, output: &mut ByteWriter) -> (r: Result<
    (),
    Error<SinkError>,
>)
    requires
        num <= VARIABLE_BYTE_INTEGER_MAX,
        old(output).wf(),
    ensures
        final(output).wf(),
        final(output).spec_capacity() == old(output).spec_capacity(),
        old(output)@.len() + vbi_encoding(num as nat).len() <= old(output).spec_capacity()
            ==> r is Ok && final(output)@ == old(output)@ + vbi_encoding(num as nat),
        old(output)@.len() + vbi_encoding(num as nat).len() > old(output).spec_capacity()
            ==> r == Err::<(), Error<SinkError>>(Error::NetworkError(SinkError::Full))
            && final(output)@ == old(output)@ + vbi_encoding(num as nat).take(
                old(output).spec_capacity() - old(output)@.len(),
            ),
{
    let ghost base = old(output)@;
    let ghost cap = old(output).spec_capacity();
    let mut n: u32 = num;

    while n >= 128
        invariant
            base == old(output)@,
            cap == old(output).spec_capacity(),
            output.wf(),
            output.spec_capacity() == cap,
            base.len() <= output@.len(),
            base =~= output@.take(base.len() as int),
            vbi_encoding(num as nat) == output@.skip(base.len() as int)
                + vbi_encoding(n as nat),
        decreases n,
    {
        let encoded_byte: u8 = (n % 128) as u8 + 128;
        proof {
            assert(vbi_encoding(n as nat) == seq![encoded_byte]
                + vbi_encoding((n as nat / 128) as nat));
            assert(n / 128 < n) by (nonlinear_arith)
                requires
                    n >= 128,
            ;
        }
        let ghost prev = output@;
        match output.write_byte(encoded_byte) {
            Ok(()) => {},
            Err(_) => {
                proof {
                    lemma_partial_write(base, output@, vbi_encoding(num as nat),
                        vbi_encoding(n as nat));
                }
                return Err(Error::NetworkError(SinkError::Full));
            },
        }
        proof {
            assert(output@.skip(base.len() as int)
                =~= prev.skip(base.len() as int) + seq![encoded_byte]);
            assert(output@.skip(base.len() as int) + vbi_encoding((n / 128) as nat)
                =~= prev.skip(base.len() as int) + vbi_encoding(n as nat));
            assert(base =~= output@.take(base.len() as int));
        }
        n = n / 128;
    }

    let last: u8 = n as u8;
    proof {
        assert(vbi_encoding(n as nat) == seq![last]);
    }
    let ghost prev = output@;
    match output.write_byte(last) {
        Ok(()) => {},
        Err(_) => {
            proof {
                lemma_partial_write(base, output@, vbi_encoding(num as nat),
                    vbi_encoding(n as nat));
            }
            return Err(Error::NetworkError(SinkError::Full));
        },
    }
    proof {
        assert(output@.skip(base.len() as int)
            =~= prev.skip(base.len() as int) + seq![last]);
        assert(output@ =~= base + output@.skip(base.len() as int));
        assert(output@ =~= base + vbi_encoding(num as nat));
    }
    Ok(())
}

/// A value below 128 is encoded as the single byte holding it, and the
/// encoding of any representable value takes exactly one byte per base-128
/// digit: one byte below 128, two below 128^2, three below 128^3, and
/// four up to [`VARIABLE_BYTE_INTEGER_MAX`].
pub proof fn lemma_vbi_encoding_length(v: nat)
    requires
        v <= VARIABLE_BYTE_INTEGER_MAX,
    ensures
        v < 128 ==> vbi_encoding(v) == seq![v as u8],
        v < 128 ==> vbi_encoding(v).len() == 1,
        128 <= v < 16384 ==> vbi_encoding(v).len() == 2,
        16384 <= v < 2097152 ==> vbi_encoding(v).len() == 3,
        2097152 <= v ==> vbi_encoding(v).len() == 4,
{
    if v < 128 {
    } else {
        let v1 = v / 128;
        assert(vbi_encoding(v).len() == 1 + vbi_encoding(v1).len());
        if v < 16384 {
            assert(1 <= v1 < 128) by (nonlinear_arith)
                requires
                    128 <= v < 16384,
                    v1 == v / 128,
            ;
            assert(vbi_encoding(v1).len() == 1);
        } else {
            let v2 = v1 / 128;
            if v < 2097152 {
                assert(128 <= v1 < 16384) by (nonlinear_arith)
                    requires
                        16384 <= v < 2097152,
                        v1 == v / 128,
                ;
                assert(1 <= v2 < 128) by (nonlinear_arith)
                    requires
                        128 <= v1 < 16384,
                        v2 == v1 / 128,
                ;
                assert(vbi_encoding(v1).len() == 1 + vbi_encoding(v2).len());
                assert(vbi_encoding(v2).len() == 1);
            } else {
                assert(16384 <= v1 < 2097152) by (nonlinear_arith)
                    requires
                        2097152 <= v <= 268435455,
                        v1 == v / 128,
                ;
                assert(128 <= v2 < 16384) by (nonlinear_arith)
                    requires
                        16384 <= v1 < 2097152,
                        v2 == v1 / 128,
                ;
                let v3 = v2 / 128;
                assert(1 <= v3 < 128) by (nonlinear_arith)
                    requires
                        128 <= v2 < 16384,
                        v3 == v2 / 128,
                ;
                assert(vbi_encoding(v1).len() == 1 + vbi_encoding(v2).len());
                assert(vbi_encoding(v2).len() == 1 + vbi_encoding(v3).len());
                assert(vbi_encoding(v3).len() == 1);
            }
        }
    }
}

/// Decoding reads back exactly the value that was encoded, consuming
/// exactly the encoding's bytes, whatever data follows them.
pub proof fn lemma_vbi_round_trip(v: nat, rest: Seq<u8>)
    requires
        v <= VARIABLE_BYTE_INTEGER_MAX,
    ensures
        vbi_parse(vbi_encoding(v) + rest, 4) == Some((v, vbi_encoding(v).len())),
{
    lemma_vbi_encoding_length(v);
    lemma_vbi_encoding_parse(v, rest, 4);
}

/// Parsing the encoding of `v` from the front of a stream yields `v`
/// whenever the byte budget covers the encoding.
proof fn lemma_vbi_encoding_parse(v: nat, rest: Seq<u8>, max: nat)
    requires
        vbi_encoding(v).len() <= max,
    ensures
        vbi_parse(vbi_encoding(v) + rest, max) == Some((v, vbi_encoding(v).len())),
    decreases v,
{
    let enc = vbi_encoding(v);
    let s = enc + rest;
    if v < 128 {
        assert(s[0] == v as u8);
    } else {
        assert(v / 128 < v) by (nonlinear_arith)
            requires
                v >= 128,
        ;
        assert(s[0] == ((v % 128) + 128) as u8);
        assert(s.skip(1) =~= vbi_encoding((v / 128) as nat) + rest);
        lemma_vbi_encoding_parse((v / 128) as nat, rest, (max - 1) as nat);
        vstd::arithmetic::div_mod::lemma_fundamental_div_mod(v as int, 128);
    }
}

/// No value terminates a stream whose first `max` available bytes all
/// carry the continuation bit: parsing fails.
proof fn lemma_vbi_parse_no_terminator(s: Seq<u8>, max: nat)
    requires
        forall|i: int| 0 <= i < s.len() && i < max ==> s[i] >= 128,
    ensures
        vbi_parse(s, max) is None,
    decreases max,
{
    if max == 0 || s.len() == 0 {
    } else {
        assert(s[0] >= 128);
        assert forall|i: int| 0 <= i < s.skip(1).len() && i < max - 1 implies s.skip(1)[i]
            >= 128 by {
            assert(s.skip(1)[i] == s[i + 1]);
        }
        lemma_vbi_parse_no_terminator(s.skip(1), (max - 1) as nat);
    }
}

/// A sequence whose first four bytes all carry the continuation bit is
/// rejected, whatever its bytes hold: a fifth byte would be required.
pub proof fn lemma_vbi_rejects_overlong(s: Seq<u8>)
    requires
        s.len() >= 4,
        forall|i: int| 0 <= i < 4 ==> s[i] >= 128,
    ensures
        vbi_parse(s, 4) is None,
{
    lemma_vbi_parse_no_terminator(s, 4);
}

/// A sequence that ends while every byte so far still announced another
/// digit is rejected: the terminating byte never arrived.
pub proof fn lemma_vbi_rejects_truncated(s: Seq<u8>)
    requires
        s.len() < 4,
        forall|i: int| 0 <= i < s.len() ==> s[i] >= 128,
    ensures
        vbi_parse(s, 4) is None,
{
    lemma_vbi_parse_no_terminator(s, 4);
}

/// When a write fails mid-encoding, the bytes already emitted are exactly
/// the longest prefix of the encoding that the destination could take.
proof fn lemma_partial_write(base: Seq<u8>, cur: Seq<u8>, enc: Seq<u8>, rest: Seq<u8>)
    requires
        base.len() <= cur.len(),
        base =~= cur.take(base.len() as int),
        enc == cur.skip(base.len() as int) + rest,
        rest.len() >= 1,
    ensures
        cur =~= base + enc.take(cur.len() - base.len()),
        base.len() + enc.len() > cur.len(),
{
    assert(enc.take(cur.len() - base.len()) =~= cur.skip(base.len() as int));
    assert(cur =~= base + cur.skip(base.len() as int));
}

} // verus!

