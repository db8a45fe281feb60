//! The messages a ping client sends and receives: echo requests out, echo
//! replies or error reports back.

use vstd::prelude::*;
use vstd::string::{StringExecFns, StringSliceAdditionalSpecFns};
use vstd::slice::{slice_subrange, slice_to_vec};

use crate::control::{
    error_text, header_parse_defined, ip_length, is_failure, message_bytes, parse_header_spec,
    parse_ip_length, seal, show_error_text, IcmpHeader, HEADER_LENGTH,
};
use crate::message_types::{type_from_value, MessageCode, MessageError, MessageType};
use crate::words::be_u16;

verus! {

/// What follows an IP header of `n` bytes in `d`.
pub open spec fn after_ip_bytes(d: Seq<u8>, n: nat) -> Seq<u8> {
    d.skip(n as int)
}

/// What follows the ICMP header in `d`.
pub open spec fn payload_of(d: Seq<u8>) -> Seq<u8> {
    d.skip(HEADER_LENGTH as int)
}

/// Whether reading a message from `d` runs without indexing past its end:
/// there is a first byte, the IP header length it gives fits, the ICMP
/// header can be read, and so can the quoted datagram of an error report.
pub open spec fn parse_defined(d: Seq<u8>) -> bool
    decreases d.len(),
{
    &&& d.len() >= 1
    &&& ip_length(d[0]) <= d.len()
    &&& header_parse_defined(after_ip_bytes(d, ip_length(d[0])))
    &&& (parse_header_spec(after_ip_bytes(d, ip_length(d[0]))) matches Ok(h) && is_failure(h.typ))
        ==> {
        &&& after_ip_bytes(d, ip_length(d[0])).len() >= HEADER_LENGTH
        &&& parse_defined(payload_of(after_ip_bytes(d, ip_length(d[0]))))
    }
}

/// What reading a message from `d` gives: its ICMP header and payload. For
/// an error report the identifier and sequence number are those of the
/// quoted request.
pub open spec fn parse_spec(d: Seq<u8>) -> Result<(IcmpHeader, Seq<u8>), MessageError>
    decreases d.len(),
{
    if d.len() < 1 || ip_length(d[0]) > d.len() {
        Err(MessageError::UnexpectedEnd)
    } else {
        let rest = after_ip_bytes(d, ip_length(d[0]));
        match parse_header_spec(rest) {
            Err(e) => Err(e),
            Ok(h) => {
                if rest.len() < HEADER_LENGTH {
                    Err(MessageError::UnexpectedEnd)
                } else {
                    let payload = payload_of(rest);
                    if is_failure(h.typ) {
                        match parse_spec(payload) {
                            Err(e) => Err(e),
                            Ok(inner) => Ok((IcmpHeader { id: inner.0.id, seq: inner.0.seq, ..h }, payload)),
                        }
                    } else {
                        Ok((h, payload))
                    }
                }
            },
        }
    }
}

#[derive(Clone)]
pub struct Message {
    pub typ: MessageType,
    pub code: MessageCode,
    pub id: u16,
    pub seq: u16,
    pub data: Vec<u8>,
}

impl View for Message {
    type V = (IcmpHeader, Seq<u8>);

    open spec fn view(&self) -> (IcmpHeader, Seq<u8>) {
        (IcmpHeader { typ: self.typ, code: self.code, id: self.id, seq: self.seq }, self.data@)
    }
}

impl Message {
    pub fn new(typ: MessageType, code: MessageCode, id: u16, seq: u16, data: Vec<u8>) -> (m: Self)
        ensures
            m@ == (IcmpHeader { typ, code, id, seq }, data@),
    {
        Self { typ, code, id, seq, data }
    }

    /// Reads a received datagram: IP header, ICMP header, payload.
    pub fn parse(data: &[u8]) -> (r: Result<Self, MessageError>)
        requires
            parse_defined(data@),
        ensures
            match r {
                Ok(m) => parse_spec(data@) == Ok::<(IcmpHeader, Seq<u8>), MessageError>(m@),
                Err(e) => parse_spec(data@) == Err::<(IcmpHeader, Seq<u8>), MessageError>(e),
            },
        decreases data@.len(),
    {
        let n = parse_ip_length(data[0]);
        let rest = slice_subrange(data, n, data.len());
        proof {
            assert(rest@ =~= after_ip_bytes(data@, ip_length(data@[0])));
        }
        let header = IcmpHeader::parse(rest)?;
        let payload = slice_to_vec(slice_subrange(rest, HEADER_LENGTH, rest.len()));
        proof {
            assert(payload@ =~= payload_of(rest@));
        }
        let mut message = Self {
            typ: header.typ,
            code: header.code,
            id: header.id,
            seq: header.seq,
            data: payload,
        };
        if message.failure() {
            let inner = Self::parse(message.data.as_slice())?;
            message.id = inner.id;
            message.seq = inner.seq;
        }
        Ok(message)
    }

    /// Replaces the contents of `buffer` with the message: its ICMP header
    /// with the checksum, then the payload.
    /// Whether `data` can be read as a message without running off its end
    /// (see `parse_defined`); the reader is meant for such data only.
    pub fn can_parse(data: &[u8]) -> (b: bool)
        ensures
            b == parse_defined(data@),
        decreases data@.len(),
    {
        if data.len() < 1 {
            return false;
        }
        let n = parse_ip_length(data[0]);
        if n > data.len() {
            return false;
        }
        let rest = slice_subrange(data, n, data.len());
        proof {
            assert(rest@ =~= crate::words::skip_bytes(data@, n));
        }
        if !crate::control::header_can_parse(rest) {
            return false;
        }
        match IcmpHeader::parse(rest) {
            Ok(h) => {
                if h.typ == MessageType::DestinationUnreachable || h.typ == MessageType::TimeExceeded {
                    if rest.len() < HEADER_LENGTH {
                        return false;
                    }
                    let inner = slice_subrange(rest, HEADER_LENGTH, rest.len());
                    proof {
                        assert(inner@ =~= payload_of(rest@));
                    }
                    Self::can_parse(inner)
                } else {
                    true
                }
            },
            Err(_) => true,
        }
    }

    pub fn write(&self, buffer: &mut Vec<u8>) -> (r: Result<(), MessageError>)
        ensures
            r is Ok,
            final(buffer)@ == message_bytes(self.typ, self.id, self.seq, self.data@),
    {
        let header = IcmpHeader { typ: self.typ, code: MessageCode::NoCode, id: self.id, seq: self.seq };
        let _ = header.write(buffer);
        seal(buffer, self.data.as_slice());
        Ok(())
    }

    /// Length of the payload.
    pub fn len(&self) -> (n: usize)
        ensures
            n == self.data@.len(),
    {
        self.data.len()
    }

    /// Whether this is the answer to the request with `id` and `seq`.
    pub fn ours(&self, id: u16, seq: u16) -> (b: bool)
        ensures
            b == (self.id == id && self.seq == seq),
    {
        self.id == id && self.seq == seq
    }

    /// Whether the message reports that the request failed on the way.
    pub fn failure(&self) -> (b: bool)
        ensures
            b == is_failure(self.typ),
    {
        self.typ.unreachable() || self.typ.time_exceeded()
    }

    pub fn show_error(&self) -> (s: String)
        ensures
            s@ == error_text(self.typ, self.code),
    {
        show_error_text(self.typ, self.code)
    }
}

/// A reply written by `write` and received behind an IP header reads back
/// as the type, identifier, sequence number and payload it was written with.
pub proof fn lemma_written_reply_parses(
    ip: Seq<u8>,
    typ: MessageType,
    id: u16,
    seq: u16,
    data: Seq<u8>,
)
    requires
        ip.len() >= 1,
        ip_length(ip[0]) == ip.len(),
        !is_failure(typ),
    ensures
        parse_defined(ip + message_bytes(typ, id, seq, data)),
        parse_spec(ip + message_bytes(typ, id, seq, data)) == Ok::<(IcmpHeader, Seq<u8>), MessageError>(
            (IcmpHeader { typ, code: MessageCode::NoCode, id, seq }, data),
        ),
{
    let m = message_bytes(typ, id, seq, data);
    let d = ip + m;
    assert(d[0] == ip[0]);
    assert(after_ip_bytes(d, ip_length(d[0])) =~= m);
    assert(m.len() == HEADER_LENGTH + data.len());
    assert(type_from_value(m[0]) == Some(typ));
    assert(m[1] == 0);
    assert(be_u16(m[4], m[5]) == id);
    assert(be_u16(m[6], m[7]) == seq);
    assert(payload_of(m) =~= data);
}

/// The size of the data an echo request carries.
pub const BYTES: usize = 64;

/// The data of an echo request: `prefix`, then stars up to `BYTES` bytes.
pub fn ping_message(prefix: &str) -> (s: String)
    requires
        prefix.spec_bytes().len() <= BYTES,
    ensures
        s@ == prefix@ + Seq::new((BYTES - prefix.spec_bytes().len()) as nat, |i: int| '*'),
{
    let fill = BYTES - prefix.len();
    let mut s = String::from_str(prefix);
    let mut k: usize = 0;
    while k < fill
        invariant
            k <= fill,
            fill == BYTES - prefix.spec_bytes().len(),
            s@ == prefix@ + Seq::new(k as nat, |i: int| '*'),
        decreases fill - k,
    {
        proof {
            reveal_strlit("*");
        }
        s.append("*");
        k = k + 1;
        proof {
            assert(s@ =~= prefix@ + Seq::new(k as nat, |i: int| '*'));
        }
    }
    s
}

} // verus!
