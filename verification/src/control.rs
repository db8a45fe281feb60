//! ICMP headers and the messages a traceroute receives: the IP header they
//! arrive in, the ICMP header, and the payload, which for error messages
//! quotes the datagram that caused the error.

use vstd::prelude::*;
use vstd::slice::{slice_subrange, slice_to_vec};

use crate::message_types::{
    code_description, parse_code_spec, type_from_value, type_value, DstUnreachableCode, MessageError,
    MessageCode, MessageType,
};
use crate::words::{be_u16, be_word, lemma_word_sum_update, byte_weight, hi_byte, lo_byte, u16_from_be, u16_to_be, word_sum, word_sum_u32};

verus! {

/// Length of the ICMP header.
pub const HEADER_LENGTH: usize = 8;

/// Sums above 16 bits have their carries added back in until they fit.
pub open spec fn fold_carries(x: nat) -> nat
    decreases x,
{
    if x > 0xFFFF {
        proof {
            assert(x / 0x10000 + x % 0x10000 < x) by (nonlinear_arith)
                requires
                    x > 0xFFFF,
            ;
        }
        fold_carries(x / 0x10000 + x % 0x10000)
    } else {
        x
    }
}

/// The ICMP checksum of a byte sequence: the complement of its word sum
/// wrapped to 32 bits, with the carries folded in.
pub open spec fn internet_checksum(s: Seq<u8>) -> u16 {
    (0xFFFF - fold_carries(word_sum(s) % 0x1_0000_0000)) as u16
}

proof fn lemma_fold_carries_bound(x: nat)
    ensures
        fold_carries(x) <= 0xFFFF,
    decreases x,
{
    if x > 0xFFFF {
        assert(x / 0x10000 + x % 0x10000 < x) by (nonlinear_arith)
            requires
                x > 0xFFFF,
        ;
        lemma_fold_carries_bound(x / 0x10000 + x % 0x10000);
    }
}

/// The ICMP checksum of a byte sequence.
pub fn checksum(slice: &[u8]) -> (c: u16)
    ensures
        c == internet_checksum(slice@),
{
    let mut sum = word_sum_u32(slice);
    while sum > 0xFFFF
        invariant
            fold_carries(sum as nat) == fold_carries(word_sum(slice@) % 0x1_0000_0000),
        decreases sum,
    {
        assert((sum >> 16u32) == sum / 0x10000 && (sum & 0xFFFFu32) == sum % 0x10000) by (bit_vector);
        assert(sum / 0x10000 + sum % 0x10000 < sum) by (nonlinear_arith)
            requires
                sum > 0xFFFF,
        ;
        sum = (sum >> 16u32) + (sum & 0xFFFFu32);
    }
    proof {
        lemma_fold_carries_bound(word_sum(slice@) % 0x1_0000_0000);
    }
    0xFFFFu16 - sum as u16
}

/// The length of an IP header whose first byte is `byte`.
pub open spec fn ip_length(byte: u8) -> nat {
    (byte % 16) as nat * 4
}

/// The length of an IP header whose first byte is `byte`.
pub fn parse_ip_length(byte: u8) -> (n: usize)
    ensures
        n == ip_length(byte),
{
    assert(byte & 0xfu8 == byte % 16) by (bit_vector);
    ((byte & 0xfu8) as usize) * 4
}

#[derive(PartialEq, Eq, Structural, Clone, Copy, Debug)]
pub struct IcmpHeader {
    pub typ: MessageType,
    pub code: MessageCode,
    pub id: u16,
    pub seq: u16,
}

/// Whether reading an ICMP header from `d` runs without running off the end
/// of `d`: there is a type byte, a code byte once the type is known, and the
/// checksum once the code is known.
pub open spec fn header_parse_defined(d: Seq<u8>) -> bool {
    &&& d.len() >= 1
    &&& type_from_value(d[0]) is Some ==> d.len() >= 2
    &&& (type_from_value(d[0]) matches Some(t) && parse_code_spec(t, d[1]) is Ok) ==> d.len() >= 4
}

/// What reading an ICMP header from `d` gives.
pub open spec fn parse_header_spec(d: Seq<u8>) -> Result<IcmpHeader, MessageError> {
    match type_from_value(d[0]) {
        None => Err(MessageError::UnknownMessageType(d[0])),
        Some(t) => match parse_code_spec(t, d[1]) {
            Err(e) => Err(e),
            Ok(c) => if d.len() < HEADER_LENGTH {
                Err(MessageError::UnexpectedEnd)
            } else {
                Ok(
                    IcmpHeader {
                        typ: t,
                        code: c,
                        id: be_u16(d[4], d[5]),
                        seq: be_u16(d[6], d[7]),
                    },
                )
            },
        },
    }
}

/// Whether a message of this type reports that an earlier datagram failed.
pub open spec fn is_failure(t: MessageType) -> bool {
    t == MessageType::DestinationUnreachable || t == MessageType::TimeExceeded
}

/// The bytes of an ICMP header as it is written out: the type, a zero code,
/// a zero checksum field, the identifier and the sequence number.
pub open spec fn header_bytes(typ: MessageType, id: u16, seq: u16) -> Seq<u8> {
    seq![
        type_value(typ),
        0u8,
        0u8,
        0u8,
        (id / 256) as u8,
        (id % 256) as u8,
        (seq / 256) as u8,
        (seq % 256) as u8,
    ]
}

/// A whole ICMP message as it is written out: the header and the payload,
/// with the checksum of both stored in bytes 2 and 3.
pub open spec fn message_bytes(typ: MessageType, id: u16, seq: u16, data: Seq<u8>) -> Seq<u8> {
    let zeroed = header_bytes(typ, id, seq) + data;
    let c = internet_checksum(zeroed);
    zeroed.update(2, (c / 256) as u8).update(3, (c % 256) as u8)
}

/// The text that describes why a message with this header failed.
pub open spec fn error_text(typ: MessageType, code: MessageCode) -> Seq<char> {
    match code {
        MessageCode::DestinationUnreachable(c) => code_description(c),
        MessageCode::NoCode => if typ == MessageType::TimeExceeded {
            "Time to Live exceeded in Transit."@
        } else {
            "Request timed out."@
        },
    }
}

/// Writes a big-endian word at `at` and `at + 1`.
pub fn put_u16(buffer: &mut Vec<u8>, at: usize, w: u16)
    requires
        at + 2 <= old(buffer)@.len(),
    ensures
        final(buffer)@ == old(buffer)@.update(at as int, (w / 256) as u8).update(at + 1, (w % 256) as u8),
{
    let (hi, lo) = u16_to_be(w);
    let _n = buffer.len();
    buffer.set(at, hi);
    buffer.set(at + 1, lo);
}

/// Describes why a message with this header failed.
pub fn show_error_text(typ: MessageType, code: MessageCode) -> (s: String)
    ensures
        s@ == error_text(typ, code),
{
    match code {
        MessageCode::DestinationUnreachable(c) => String::from_str(c.description()),
        MessageCode::NoCode => {
            if typ == MessageType::TimeExceeded {
                String::from_str("Time to Live exceeded in Transit.")
            } else {
                String::from_str("Request timed out.")
            }
        },
    }
}

/// Whether `data` can be read as an ICMP header without running off its
/// end (see `header_parse_defined`).
pub fn header_can_parse(data: &[u8]) -> (b: bool)
    ensures
        b == header_parse_defined(data@),
{
    if data.len() < 1 {
        return false;
    }
    match MessageType::from_repr(data[0]) {
        None => true,
        Some(t) => {
            if data.len() < 2 {
                return false;
            }
            match MessageCode::parse(t, data[1]) {
                Ok(_) => data.len() >= 4,
                Err(_) => true,
            }
        },
    }
}

impl IcmpHeader {
    pub fn parse(data: &[u8]) -> (r: Result<IcmpHeader, MessageError>)
        requires
            header_parse_defined(data@),
        ensures
            r == parse_header_spec(data@),
    {
        let typ = MessageType::parse(data[0])?;
        let code = MessageCode::parse(typ, data[1])?;
        if data.len() < HEADER_LENGTH {
            return Err(MessageError::UnexpectedEnd);
        }
        let id = u16_from_be(data[4], data[5]);
        let seq = u16_from_be(data[6], data[7]);
        Ok(IcmpHeader { typ, code, id, seq })
    }

    /// Replaces the contents of `buffer` with the header, its code and
    /// checksum left zero.
    pub fn write(&self, buffer: &mut Vec<u8>) -> (r: Result<(), MessageError>)
        ensures
            r is Ok,
            final(buffer)@ == header_bytes(self.typ, self.id, self.seq),
    {
        buffer.clear();
        buffer.push(self.typ.to_byte());
        buffer.push(0);
        buffer.push(0);
        buffer.push(0);
        let (id_hi, id_lo) = u16_to_be(self.id);
        let (seq_hi, seq_lo) = u16_to_be(self.seq);
        buffer.push(id_hi);
        buffer.push(id_lo);
        buffer.push(seq_hi);
        buffer.push(seq_lo);
        proof {
            assert(buffer@ =~= header_bytes(self.typ, self.id, self.seq));
        }
        Ok(())
    }
}

/// Appends `data` to `buffer`, stores the checksum of the whole in bytes 2
/// and 3.
pub fn seal(buffer: &mut Vec<u8>, data: &[u8])
    requires
        old(buffer)@.len() == HEADER_LENGTH,
    ensures
        final(buffer)@ == ({
            let zeroed = old(buffer)@ + data@;
            let c = internet_checksum(zeroed);
            zeroed.update(2, (c / 256) as u8).update(3, (c % 256) as u8)
        }),
{
    let ghost start = buffer@;
    buffer.extend_from_slice(data);
    proof {
        assert forall|i: int| 0 <= i < buffer@.len() implies #[trigger] buffer@[i] == (start + data@)[i] by {
            if i >= start.len() {
                assert(cloned::<u8>(data@[i - start.len()], buffer@[i]));
            }
        }
        assert(buffer@ =~= start + data@);
    }
    let c = checksum(buffer.as_slice());
    put_u16(buffer, 2, c);
}

proof fn lemma_fold_carries_mod(x: nat)
    ensures
        fold_carries(x) % 0xFFFF == x % 0xFFFF,
        x >= 1 ==> fold_carries(x) >= 1,
    decreases x,
{
    if x > 0xFFFF {
        let q = x / 0x10000;
        let r = x % 0x10000;
        assert(q + r < x && (q + r) % 0xFFFF == x % 0xFFFF && q + r >= 1) by (nonlinear_arith)
            requires
                x > 0xFFFF,
                q == x / 0x10000,
                r == x % 0x10000,
        ;
        lemma_fold_carries_mod(q + r);
    }
}

/// A message as `seal` leaves it checks out: its checksum, taken again over
/// the whole message with the stored checksum in place, is zero, as long as
/// its word sum does not wrap around 32 bits.
pub proof fn lemma_sealed_message_checksum_zero(header: Seq<u8>, data: Seq<u8>)
    requires
        header.len() == HEADER_LENGTH,
        header[2] == 0,
        header[3] == 0,
        word_sum(header + data) + 0xFFFF < 0x1_0000_0000,
    ensures
        ({
            let zeroed = header + data;
            let c = internet_checksum(zeroed);
            internet_checksum(zeroed.update(2, (c / 256) as u8).update(3, (c % 256) as u8)) == 0
        }),
{
    let z = header + data;
    let c = internet_checksum(z);
    let z1 = z.update(2, (c / 256) as u8);
    let m = z1.update(3, (c % 256) as u8);
    let s = word_sum(z);
    lemma_fold_carries_bound(s);
    lemma_fold_carries_mod(s);
    assert(s % 0x1_0000_0000 == s);
    let f = fold_carries(s);
    assert(c == 0xFFFF - f);
    lemma_word_sum_update(z, 2, (c / 256) as u8);
    lemma_word_sum_update(z1, 3, (c % 256) as u8);
    assert(byte_weight(2, z.len() as int) == 256);
    assert(byte_weight(3, z1.len() as int) == 1);
    assert(z[2] == 0 && z1[3] == 0);
    assert(word_sum(m) == s + c);
    let t: nat = s + c as nat;
    assert(t % 0x1_0000_0000 == t);
    lemma_fold_carries_mod(t);
    lemma_fold_carries_bound(t);
    assert(t >= 1);
    assert(t % 0xFFFF == 0) by (nonlinear_arith)
        requires
            t == s + 0xFFFF - f,
            f % 0xFFFF == s % 0xFFFF,
            f <= 0xFFFF,
    ;
    assert(fold_carries(t) == 0xFFFF);
}

} // verus!
