//! The messages a traceroute sends and receives: echo requests out, and
//! back either echo replies or error reports from the routers on the way.

use vstd::prelude::*;
use vstd::slice::{slice_subrange, slice_to_vec};

use crate::control::{
    error_text, header_bytes, header_parse_defined, ip_length, is_failure, parse_header_spec,
    parse_ip_length, seal, show_error_text, IcmpHeader, HEADER_LENGTH,
};
use crate::message_types::{MessageCode, MessageError, MessageType};
use crate::words::{be_word, u16_from_be};

verus! {

/// Where the IPv4 source address starts in an IP header.
pub const IP_SOURCE_OFFSET: usize = 12;

#[derive(PartialEq, Eq, Structural, Clone, Copy, Debug)]
pub struct IpHeader {
    /// Length of the IP header in bytes.
    pub length: usize,
    /// The IPv4 source address, most significant octet first.
    pub source: u32,
}

/// Four bytes read as a big-endian 32-bit number.
pub open spec fn be_u32(a: u8, b: u8, c: u8, d: u8) -> nat {
    be_word(a, b) * 0x10000 + be_word(c, d)
}

/// What reading an IP header from `d` gives.
pub open spec fn parse_ip_spec(d: Seq<u8>) -> Result<IpHeader, MessageError> {
    if d.len() < 16 {
        Err(MessageError::IpHeaderTooShort)
    } else {
        Ok(
            IpHeader {
                length: ip_length(d[0]) as usize,
                source: be_u32(d[12], d[13], d[14], d[15]) as u32,
            },
        )
    }
}

impl IpHeader {
    pub fn new() -> (h: Self)
        ensures
            h.length == 0,
            h.source == 0,
    {
        Self { length: 0, source: 0 }
    }

    pub fn parse(data: &[u8]) -> (r: Result<IpHeader, MessageError>)
        requires
            data@.len() >= IP_SOURCE_OFFSET,
        ensures
            r == parse_ip_spec(data@),
    {
        let length = parse_ip_length(data[0]);
        if data.len() < 16 {
            return Err(MessageError::IpHeaderTooShort);
        }
        let high = u16_from_be(data[12], data[13]);
        let low = u16_from_be(data[14], data[15]);
        let source = (high as u32) * 0x10000 + (low as u32);
        Ok(IpHeader { length, source })
    }
}

/// What follows the IP header in `d`.
pub open spec fn after_ip(d: Seq<u8>, ip: IpHeader) -> Seq<u8> {
    d.skip(ip.length as int)
}

/// What follows the ICMP header in `d`.
pub open spec fn after_header(d: Seq<u8>) -> Seq<u8> {
    d.skip(HEADER_LENGTH as int)
}

/// Whether reading a message from `d` runs without indexing past its end:
/// the IP header reaches the source address, the length it gives fits, the
/// ICMP header can be read, and so can the quoted datagram of an error
/// report.
pub open spec fn parse_defined(d: Seq<u8>) -> bool
    decreases d.len(),
{
    &&& d.len() >= IP_SOURCE_OFFSET
    &&& d.len() >= 16 ==> {
        let n = ip_length(d[0]) as int;
        &&& n <= d.len()
        &&& header_parse_defined(d.skip(n))
        &&& (parse_header_spec(d.skip(n)) matches Ok(h) && is_failure(h.typ)) ==> {
            &&& d.skip(n).len() >= HEADER_LENGTH
            &&& parse_defined(d.skip(n).skip(HEADER_LENGTH as int))
        }
    }
}

/// What reading a message from `d` gives: its IP header, its ICMP header and
/// its payload. For an error report the identifier and sequence number are
/// those of the quoted request.
pub open spec fn parse_spec(d: Seq<u8>) -> Result<(IpHeader, IcmpHeader, Seq<u8>), MessageError>
    decreases d.len(),
{
    match parse_ip_spec(d) {
        Err(e) => Err(e),
        Ok(ip) => {
            if ip.length > d.len() {
                Err(MessageError::UnexpectedEnd)
            } else {
                let rest = after_ip(d, ip);
                match parse_header_spec(rest) {
                    Err(e) => Err(e),
                    Ok(h) => {
                        if rest.len() < HEADER_LENGTH {
                            Err(MessageError::UnexpectedEnd)
                        } else {
                            let payload = after_header(rest);
                            if is_failure(h.typ) {
                                match parse_spec(payload) {
                                    Err(e) => Err(e),
                                    Ok(inner) => Ok(
                                        (ip, IcmpHeader { id: inner.1.id, seq: inner.1.seq, ..h }, payload),
                                    ),
                                }
                            } else {
                                Ok((ip, h, payload))
                            }
                        }
                    },
                }
            }
        },
    }
}

pub struct Message {
    pub ip: IpHeader,
    pub header: IcmpHeader,
    pub data: Vec<u8>,
}

impl View for Message {
    type V = (IpHeader, IcmpHeader, Seq<u8>);

    open spec fn view(&self) -> (IpHeader, IcmpHeader, Seq<u8>) {
        (self.ip, self.header, self.data@)
    }
}

impl Message {
    /// A message to send, with no IP header read.
    pub fn new(typ: MessageType, code: MessageCode, id: u16, seq: u16, data: Vec<u8>) -> (m: Self)
        ensures
            m@ == (IpHeader { length: 0, source: 0 }, IcmpHeader { typ, code, id, seq }, data@),
    {
        Self { ip: IpHeader::new(), header: IcmpHeader { typ, code, id, seq }, data }
    }

    /// Reads a received datagram: IP header, ICMP header, payload.
    pub fn parse(data: &[u8]) -> (r: Result<Message, MessageError>)
        requires
            parse_defined(data@),
        ensures
            match r {
                Ok(m) => parse_spec(data@) == Ok::<(IpHeader, IcmpHeader, Seq<u8>), MessageError>(m@),
                Err(e) => parse_spec(data@) == Err::<(IpHeader, IcmpHeader, Seq<u8>), MessageError>(e),
            },
        decreases data@.len(),
    {
        let ip = IpHeader::parse(data)?;
        let rest = slice_subrange(data, ip.length, data.len());
        proof {
            assert(rest@ =~= after_ip(data@, ip));
        }
        let header = IcmpHeader::parse(rest)?;
        let payload = slice_to_vec(slice_subrange(rest, HEADER_LENGTH, rest.len()));
        proof {
            assert(payload@ =~= after_header(rest@));
        }
        let mut message = Message { ip, header, data: payload };
        if message.failure() {
            let inner = Self::parse(message.data.as_slice())?;
            message.header.id = inner.header.id;
            message.header.seq = inner.header.seq;
        }
        Ok(message)
    }

    /// Whether `data` can be read as a message without running off its end
    /// (see `parse_defined`); the reader is meant for such data only.
    pub fn can_parse(data: &[u8]) -> (b: bool)
        ensures
            b == parse_defined(data@),
        decreases data@.len(),
    {
        if data.len() < IP_SOURCE_OFFSET {
            return false;
        }
        if data.len() < 16 {
            return true;
        }
        let n = parse_ip_length(data[0]);
        if n > data.len() {
            return false;
        }
        let rest = slice_subrange(data, n, data.len());
        proof {
            assert(rest@ =~= crate::words::skip_bytes(data@, n));
        }
        if !crate::control::header_can_parse(rest) {
            return false;
        }
        match IcmpHeader::parse(rest) {
            Ok(h) => {
                if h.typ.unreachable() || h.typ.time_exceeded() {
                    if rest.len() < HEADER_LENGTH {
                        return false;
                    }
                    let inner = slice_subrange(rest, HEADER_LENGTH, rest.len());
                    proof {
                        assert(inner@ =~= after_header(rest@));
                    }
                    Self::can_parse(inner)
                } else {
                    true
                }
            },
            Err(_) => true,
        }
    }

    /// Writes the message without IP header into `buffer`: its ICMP header
    /// with the checksum, then the payload.
    pub fn write(&self, buffer: &mut Vec<u8>) -> (r: Result<(), MessageError>)
        ensures
            r is Ok,
            final(buffer)@ == crate::control::message_bytes(
                self.header.typ,
                self.header.id,
                self.header.seq,
                self.data@,
            ),
    {
        let _ = self.header.write(buffer);
        seal(buffer, self.data.as_slice());
        Ok(())
    }

    /// Whether this is the answer to the request with `id` and `seq`.
    pub fn ours(&self, id: u16, seq: u16) -> (b: bool)
        ensures
            b == (self.header.id == id && self.header.seq == seq),
    {
        self.header.id == id && self.header.seq == seq
    }

    /// Whether the message reports that the request failed on the way.
    pub fn failure(&self) -> (b: bool)
        ensures
            b == is_failure(self.header.typ),
    {
        self.rejected() || self.header.typ.time_exceeded()
    }

    /// Whether the message reports the destination unreachable.
    pub fn rejected(&self) -> (b: bool)
        ensures
            b == (self.header.typ == MessageType::DestinationUnreachable),
    {
        self.header.typ.unreachable()
    }

    pub fn show_error(&self) -> (s: String)
        ensures
            s@ == error_text(self.header.typ, self.header.code),
    {
        show_error_text(self.header.typ, self.header.code)
    }

    /// The IPv4 source address, most significant octet first.
    pub fn source(&self) -> (a: u32)
        ensures
            a == self.ip.source,
    {
        self.ip.source
    }
}

} // verus!
