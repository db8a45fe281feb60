//! ICMP message types and codes as they appear on the wire.

use vstd::prelude::*;
use crate::text::{decimal, decimal_text};

verus! {

#[derive(PartialEq, Eq, Structural, Clone, Copy, Debug)]
pub enum MessageType {
    EchoReply,
    DestinationUnreachable,
    Echo,
    TimeExceeded,
}

/// The wire value of a message type.
pub open spec fn type_value(t: MessageType) -> u8 {
    match t {
        MessageType::EchoReply => 0,
        MessageType::DestinationUnreachable => 3,
        MessageType::Echo => 8,
        MessageType::TimeExceeded => 11,
    }
}

/// The message type with wire value `v`, if any.
pub open spec fn type_from_value(v: u8) -> Option<MessageType> {
    if v == 0 {
        Some(MessageType::EchoReply)
    } else if v == 3 {
        Some(MessageType::DestinationUnreachable)
    } else if v == 8 {
        Some(MessageType::Echo)
    } else if v == 11 {
        Some(MessageType::TimeExceeded)
    } else {
        None
    }
}

/// Why a received ICMP message could not be read.
#[derive(PartialEq, Eq, Structural, Clone, Copy, Debug)]
pub enum MessageError {
    /// The type byte names no known message type.
    UnknownMessageType(u8),
    /// The code byte names no known code for the message type.
    UnknownMessageCode(MessageType, u8),
    /// The message ends inside its header.
    UnexpectedEnd,
    /// The IP header ends before the source address.
    IpHeaderTooShort,
}

impl MessageError {
    /// The message that tells the user why.
    pub open spec fn message(self) -> Seq<char> {
        match self {
            MessageError::UnknownMessageType(t) => "Unknown message type: "@ + decimal(t as nat),
            MessageError::UnknownMessageCode(t, c) => "Unknown message code for "@
                + message_type_name(t) + ": "@ + decimal(c as nat),
            MessageError::UnexpectedEnd => "failed to fill whole buffer"@,
            MessageError::IpHeaderTooShort => "IP header too short"@,
        }
    }

    /// The message that tells the user why.
    pub fn text(&self) -> (s: String)
        ensures
            s@ == self.message(),
    {
        match self {
            MessageError::UnknownMessageType(t) => {
                let mut s = String::from_str("Unknown message type: ");
                let d = decimal_text(*t as u128);
                s.append(d.as_str());
                s
            },
            MessageError::UnknownMessageCode(t, c) => {
                let mut s = String::from_str("Unknown message code for ");
                s.append(t.name());
                s.append(": ");
                let d = decimal_text(*c as u128);
                s.append(d.as_str());
                s
            },
            MessageError::UnexpectedEnd => String::from_str("failed to fill whole buffer"),
            MessageError::IpHeaderTooShort => String::from_str("IP header too short"),
        }
    }
}

impl MessageType {
    pub fn to_byte(self) -> (b: u8)
        ensures
            b == type_value(self),
    {
        match self {
            MessageType::EchoReply => 0,
            MessageType::DestinationUnreachable => 3,
            MessageType::Echo => 8,
            MessageType::TimeExceeded => 11,
        }
    }

    pub fn from_repr(typ: u8) -> (t: Option<MessageType>)
        ensures
            t == type_from_value(typ),
    {
        match typ {
            0 => Some(MessageType::EchoReply),
            3 => Some(MessageType::DestinationUnreachable),
            8 => Some(MessageType::Echo),
            11 => Some(MessageType::TimeExceeded),
            _ => None,
        }
    }

    pub fn parse(typ: u8) -> (r: Result<MessageType, MessageError>)
        ensures
            r == (match type_from_value(typ) {
                Some(t) => Ok::<MessageType, MessageError>(t),
                None => Err(MessageError::UnknownMessageType(typ)),
            }),
    {
        match MessageType::from_repr(typ) {
            Some(t) => Ok(t),
            None => Err(MessageError::UnknownMessageType(typ)),
        }
    }

    pub fn unreachable(&self) -> (b: bool)
        ensures
            b == (*self == MessageType::DestinationUnreachable),
    {
        *self == MessageType::DestinationUnreachable
    }

    pub fn time_exceeded(&self) -> (b: bool)
        ensures
            b == (*self == MessageType::TimeExceeded),
    {
        *self == MessageType::TimeExceeded
    }

    /// The name of the message type as it is shown to users.
    pub fn name(&self) -> (s: &'static str)
        ensures
            s@ == message_type_name(*self),
    {
        match self {
            MessageType::EchoReply => "Echo Reply",
            MessageType::DestinationUnreachable => "Destination Unreachable",
            MessageType::Echo => "Echo",
            MessageType::TimeExceeded => "Time Exceeded",
        }
    }
}

/// The name of a message type as it is shown to users.
pub open spec fn message_type_name(t: MessageType) -> Seq<char> {
    match t {
        MessageType::EchoReply => "Echo Reply"@,
        MessageType::DestinationUnreachable => "Destination Unreachable"@,
        MessageType::Echo => "Echo"@,
        MessageType::TimeExceeded => "Time Exceeded"@,
    }
}

#[derive(PartialEq, Eq, Structural, Clone, Copy, Debug)]
pub enum DstUnreachableCode {
    NetworkUnreachable,
    HostUnreachable,
    ProtoUnreachable,
    PortUnreachable,
    FragmentationNeeded,
    SourceRouteFailed,
    DestinationNetworkUnknown,
    DestinationHostUnknown,
    SourceHostIsolated,
    NetworkProhibited,
    HostProhibited,
    NetworkUnreachForTypeOfService,
    HostUnreachableForTypeOfService,
    CommunicationProhibited,
    HostPrecedenceViolation,
    PrecedenceCutoffInEffect,
}

/// The wire value of a destination-unreachable code.
pub open spec fn code_value(c: DstUnreachableCode) -> u8 {
    match c {
        DstUnreachableCode::NetworkUnreachable => 0,
        DstUnreachableCode::HostUnreachable => 1,
        DstUnreachableCode::ProtoUnreachable => 2,
        DstUnreachableCode::PortUnreachable => 3,
        DstUnreachableCode::FragmentationNeeded => 4,
        DstUnreachableCode::SourceRouteFailed => 5,
        DstUnreachableCode::DestinationNetworkUnknown => 6,
        DstUnreachableCode::DestinationHostUnknown => 7,
        DstUnreachableCode::SourceHostIsolated => 8,
        DstUnreachableCode::NetworkProhibited => 9,
        DstUnreachableCode::HostProhibited => 10,
        DstUnreachableCode::NetworkUnreachForTypeOfService => 11,
        DstUnreachableCode::HostUnreachableForTypeOfService => 12,
        DstUnreachableCode::CommunicationProhibited => 13,
        DstUnreachableCode::HostPrecedenceViolation => 14,
        DstUnreachableCode::PrecedenceCutoffInEffect => 15,
    }
}

/// The destination-unreachable code with wire value `v`, if any.
pub open spec fn code_from_value(v: u8) -> Option<DstUnreachableCode> {
    if v == 0 {
        Some(DstUnreachableCode::NetworkUnreachable)
    } else if v == 1 {
        Some(DstUnreachableCode::HostUnreachable)
    } else if v == 2 {
        Some(DstUnreachableCode::ProtoUnreachable)
    } else if v == 3 {
        Some(DstUnreachableCode::PortUnreachable)
    } else if v == 4 {
        Some(DstUnreachableCode::FragmentationNeeded)
    } else if v == 5 {
        Some(DstUnreachableCode::SourceRouteFailed)
    } else if v == 6 {
        Some(DstUnreachableCode::DestinationNetworkUnknown)
    } else if v == 7 {
        Some(DstUnreachableCode::DestinationHostUnknown)
    } else if v == 8 {
        Some(DstUnreachableCode::SourceHostIsolated)
    } else if v == 9 {
        Some(DstUnreachableCode::NetworkProhibited)
    } else if v == 10 {
        Some(DstUnreachableCode::HostProhibited)
    } else if v == 11 {
        Some(DstUnreachableCode::NetworkUnreachForTypeOfService)
    } else if v == 12 {
        Some(DstUnreachableCode::HostUnreachableForTypeOfService)
    } else if v == 13 {
        Some(DstUnreachableCode::CommunicationProhibited)
    } else if v == 14 {
        Some(DstUnreachableCode::HostPrecedenceViolation)
    } else if v == 15 {
        Some(DstUnreachableCode::PrecedenceCutoffInEffect)
    } else {
        None
    }
}

/// How a destination-unreachable code is described to users.
pub open spec fn code_description(c: DstUnreachableCode) -> Seq<char> {
    match c {
        DstUnreachableCode::NetworkUnreachable => "Network Unreachable"@,
        DstUnreachableCode::HostUnreachable => "Host Unreachable"@,
        DstUnreachableCode::ProtoUnreachable => "Protocol Unreachable"@,
        DstUnreachableCode::PortUnreachable => "Port Unreachable"@,
        DstUnreachableCode::FragmentationNeeded => "Fragmentation Needed and Don't Fragment was Set"@,
        DstUnreachableCode::SourceRouteFailed => "Source Route Failed"@,
        DstUnreachableCode::DestinationNetworkUnknown => "Destination Network Unknown"@,
        DstUnreachableCode::DestinationHostUnknown => "Destination Host Unknown"@,
        DstUnreachableCode::SourceHostIsolated => "Source Host Isolated"@,
        DstUnreachableCode::NetworkProhibited => "Communication with Destination Network is Administratively Prohibited"@,
        DstUnreachableCode::HostProhibited => "Communication with Destination Host is Administratively Prohibited"@,
        DstUnreachableCode::NetworkUnreachForTypeOfService => "Destination Network Unreachable for Type of Service"@,
        DstUnreachableCode::HostUnreachableForTypeOfService => "Destination Host Unreachable for Type of Service"@,
        DstUnreachableCode::CommunicationProhibited => "Communication Administratively Prohibited"@,
        DstUnreachableCode::HostPrecedenceViolation => "Host Precedence Violation"@,
        DstUnreachableCode::PrecedenceCutoffInEffect => "Precedence cutoff in effect"@,
    }
}

impl DstUnreachableCode {
    pub fn from_repr(code: u8) -> (c: Option<DstUnreachableCode>)
        ensures
            c == code_from_value(code),
    {
        match code {
            0 => Some(DstUnreachableCode::NetworkUnreachable),
            1 => Some(DstUnreachableCode::HostUnreachable),
            2 => Some(DstUnreachableCode::ProtoUnreachable),
            3 => Some(DstUnreachableCode::PortUnreachable),
            4 => Some(DstUnreachableCode::FragmentationNeeded),
            5 => Some(DstUnreachableCode::SourceRouteFailed),
            6 => Some(DstUnreachableCode::DestinationNetworkUnknown),
            7 => Some(DstUnreachableCode::DestinationHostUnknown),
            8 => Some(DstUnreachableCode::SourceHostIsolated),
            9 => Some(DstUnreachableCode::NetworkProhibited),
            10 => Some(DstUnreachableCode::HostProhibited),
            11 => Some(DstUnreachableCode::NetworkUnreachForTypeOfService),
            12 => Some(DstUnreachableCode::HostUnreachableForTypeOfService),
            13 => Some(DstUnreachableCode::CommunicationProhibited),
            14 => Some(DstUnreachableCode::HostPrecedenceViolation),
            15 => Some(DstUnreachableCode::PrecedenceCutoffInEffect),
            _ => None,
        }
    }

    pub fn to_byte(self) -> (b: u8)
        ensures
            b == code_value(self),
    {
        match self {
            DstUnreachableCode::NetworkUnreachable => 0,
            DstUnreachableCode::HostUnreachable => 1,
            DstUnreachableCode::ProtoUnreachable => 2,
            DstUnreachableCode::PortUnreachable => 3,
            DstUnreachableCode::FragmentationNeeded => 4,
            DstUnreachableCode::SourceRouteFailed => 5,
            DstUnreachableCode::DestinationNetworkUnknown => 6,
            DstUnreachableCode::DestinationHostUnknown => 7,
            DstUnreachableCode::SourceHostIsolated => 8,
            DstUnreachableCode::NetworkProhibited => 9,
            DstUnreachableCode::HostProhibited => 10,
            DstUnreachableCode::NetworkUnreachForTypeOfService => 11,
            DstUnreachableCode::HostUnreachableForTypeOfService => 12,
            DstUnreachableCode::CommunicationProhibited => 13,
            DstUnreachableCode::HostPrecedenceViolation => 14,
            DstUnreachableCode::PrecedenceCutoffInEffect => 15,
        }
    }

    /// How the code is described to users.
    pub fn description(&self) -> (s: &'static str)
        ensures
            s@ == code_description(*self),
    {
        match self {
            DstUnreachableCode::NetworkUnreachable => "Network Unreachable",
            DstUnreachableCode::HostUnreachable => "Host Unreachable",
            DstUnreachableCode::ProtoUnreachable => "Protocol Unreachable",
            DstUnreachableCode::PortUnreachable => "Port Unreachable",
            DstUnreachableCode::FragmentationNeeded => "Fragmentation Needed and Don't Fragment was Set",
            DstUnreachableCode::SourceRouteFailed => "Source Route Failed",
            DstUnreachableCode::DestinationNetworkUnknown => "Destination Network Unknown",
            DstUnreachableCode::DestinationHostUnknown => "Destination Host Unknown",
            DstUnreachableCode::SourceHostIsolated => "Source Host Isolated",
            DstUnreachableCode::NetworkProhibited => "Communication with Destination Network is Administratively Prohibited",
            DstUnreachableCode::HostProhibited => "Communication with Destination Host is Administratively Prohibited",
            DstUnreachableCode::NetworkUnreachForTypeOfService => "Destination Network Unreachable for Type of Service",
            DstUnreachableCode::HostUnreachableForTypeOfService => "Destination Host Unreachable for Type of Service",
            DstUnreachableCode::CommunicationProhibited => "Communication Administratively Prohibited",
            DstUnreachableCode::HostPrecedenceViolation => "Host Precedence Violation",
            DstUnreachableCode::PrecedenceCutoffInEffect => "Precedence cutoff in effect",
        }
    }
}

#[derive(PartialEq, Eq, Structural, Clone, Copy, Debug)]
pub enum MessageCode {
    DestinationUnreachable(DstUnreachableCode),
    NoCode,
}

/// What reading the code byte of a message of type `typ` gives.
/// Destination-unreachable codes and their wire values match one to one:
/// the values are 0 to 15 in the order of RFC 792 and RFC 1812 (network
/// unreachable is 0, host unreachable 1, ..., precedence cutoff 15), reading
/// a code's value gives the code back, a value names at most the code that
/// has it, and only 0 to 15 name a code. A received destination-unreachable
/// message with a code's value parses to that code.
pub proof fn lemma_code_values_round_trip(c: DstUnreachableCode, v: u8)
    ensures
        code_from_value(code_value(c)) == Some(c),
        code_from_value(v) matches Some(d) ==> code_value(d) == v,
        code_from_value(v) is Some <==> v <= 15,
        parse_code_spec(MessageType::DestinationUnreachable, code_value(c))
            == Ok::<MessageCode, MessageError>(MessageCode::DestinationUnreachable(c)),
        code_value(DstUnreachableCode::NetworkUnreachable) == 0,
        code_value(DstUnreachableCode::HostUnreachable) == 1,
        code_value(DstUnreachableCode::ProtoUnreachable) == 2,
        code_value(DstUnreachableCode::PortUnreachable) == 3,
        code_value(DstUnreachableCode::FragmentationNeeded) == 4,
        code_value(DstUnreachableCode::SourceRouteFailed) == 5,
        code_value(DstUnreachableCode::DestinationNetworkUnknown) == 6,
        code_value(DstUnreachableCode::DestinationHostUnknown) == 7,
        code_value(DstUnreachableCode::SourceHostIsolated) == 8,
        code_value(DstUnreachableCode::NetworkProhibited) == 9,
        code_value(DstUnreachableCode::HostProhibited) == 10,
        code_value(DstUnreachableCode::NetworkUnreachForTypeOfService) == 11,
        code_value(DstUnreachableCode::HostUnreachableForTypeOfService) == 12,
        code_value(DstUnreachableCode::CommunicationProhibited) == 13,
        code_value(DstUnreachableCode::HostPrecedenceViolation) == 14,
        code_value(DstUnreachableCode::PrecedenceCutoffInEffect) == 15,
{
}

/// Message types and their wire values match one to one: echo reply 0,
/// destination unreachable 3, echo 8, time exceeded 11; reading a type's
/// value gives the type back, and a value names at most the type that has
/// it.
pub proof fn lemma_type_values_round_trip(t: MessageType, v: u8)
    ensures
        type_from_value(type_value(t)) == Some(t),
        type_from_value(v) matches Some(u) ==> type_value(u) == v,
        type_from_value(v) is Some <==> (v == 0 || v == 3 || v == 8 || v == 11),
        type_value(MessageType::EchoReply) == 0,
        type_value(MessageType::DestinationUnreachable) == 3,
        type_value(MessageType::Echo) == 8,
        type_value(MessageType::TimeExceeded) == 11,
{
}

pub open spec fn parse_code_spec(typ: MessageType, code: u8) -> Result<MessageCode, MessageError> {
    if typ == MessageType::DestinationUnreachable {
        match code_from_value(code) {
            Some(c) => Ok(MessageCode::DestinationUnreachable(c)),
            None => Err(MessageError::UnknownMessageCode(typ, code)),
        }
    } else {
        Ok(MessageCode::NoCode)
    }
}

impl MessageCode {
    pub fn parse(typ: MessageType, code: u8) -> (r: Result<MessageCode, MessageError>)
        ensures
            r == parse_code_spec(typ, code),
    {
        match typ {
            MessageType::DestinationUnreachable => match DstUnreachableCode::from_repr(code) {
                Some(c) => Ok(MessageCode::DestinationUnreachable(c)),
                None => Err(MessageError::UnknownMessageCode(typ, code)),
            },
            _ => Ok(MessageCode::NoCode),
        }
    }
}

} // verus!
