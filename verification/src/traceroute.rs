//! The decisions of a traceroute: what each probe's answer means, how a
//! hop's line is written, and when the trace is over.

use vstd::prelude::*;
use vstd::string::StringExecFns;
use crate::control::{error_text, is_failure};
use crate::message_types::MessageType;
use crate::text::{decimal, decimal_text, pad_left, right_aligned};
use crate::trace::Message;

verus! {

/// The size of the data every probe carries.
pub const BYTES: usize = 64;

/// The data every probe carries: `BYTES` stars.
pub fn message() -> (s: String)
    ensures
        s@ == Seq::new(BYTES as nat, |i: int| '*'),
{
    let mut s = String::new();
    let mut k: usize = 0;
    while k < BYTES
        invariant
            k <= BYTES,
            s@ == Seq::new(k as nat, |i: int| '*'),
        decreases BYTES - k,
    {
        proof {
            reveal_strlit("*");
        }
        s.append("*");
        k = k + 1;
        proof {
            assert(s@ =~= Seq::new(k as nat, |i: int| '*'));
        }
    }
    s
}

/// The answer to one probe.
pub enum Response {
    /// No usable answer; the text says why.
    Lost(String),
    /// An answer after this many milliseconds.
    Received(u128, Message),
}

impl Response {
    pub fn rtt(&self) -> (r: Option<u128>)
        ensures
            r == (match self {
                Response::Lost(_) => None,
                Response::Received(t, _) => Some(*t),
            }),
    {
        match self {
            Response::Lost(_) => None,
            Response::Received(t, _) => Some(*t),
        }
    }

    /// The address that answered, if any.
    pub fn addr(&self) -> (r: Option<u32>)
        ensures
            r == (match self {
                Response::Lost(_) => None,
                Response::Received(_, m) => Some(m.ip.source),
            }),
    {
        match self {
            Response::Lost(_) => None,
            Response::Received(_, m) => Some(m.source()),
        }
    }

    /// Whether the target itself answered (not a router on the way).
    pub fn is_target(&self) -> (r: bool)
        ensures
            r == (match self {
                Response::Lost(_) => false,
                Response::Received(_, m) => !is_failure(m.header.typ),
            }),
    {
        match self {
            Response::Lost(_) => false,
            Response::Received(_, m) => !m.failure(),
        }
    }

    /// Why nothing usable came back.
    pub fn unwrap_err(&self) -> (s: String)
        requires
            self is Lost,
        ensures
            s@ == self->Lost_0@,
    {
        match self {
            Response::Lost(e) => e.clone(),
            Response::Received(_, _) => String::new(),
        }
    }
}

/// What a probe's answer means: none in time, a refusal, or an answer
/// after `elapsed_millis`.
pub fn classify(reply: Option<Message>, elapsed_millis: u128) -> (r: Response)
    ensures
        match reply {
            None => r matches Response::Lost(t) && t@ == "Request timed out."@,
            Some(m) => if m.header.typ == MessageType::DestinationUnreachable {
                r matches Response::Lost(t) && t@ == error_text(m.header.typ, m.header.code)
            } else {
                r matches Response::Received(t, m2) && t == elapsed_millis && m2@ == m@
            },
        },
{
    match reply {
        None => Response::Lost(String::from_str("Request timed out.")),
        Some(m) => {
            if m.rejected() {
                Response::Lost(m.show_error())
            } else {
                Response::Received(elapsed_millis, m)
            }
        },
    }
}

/// The sequence number of retry `retry` at `hops` hops.
pub fn sequence_number(hops: u16, retries: u16, retry: u16) -> (seq: u16)
    requires
        hops * retries + retry <= u16::MAX,
    ensures
        seq == hops * retries + retry,
{
    proof {
        assert(hops * retries <= u16::MAX) by (nonlinear_arith)
            requires
                hops * retries + retry <= u16::MAX,
                retry >= 0,
        ;
    }
    hops * retries + retry
}

/// The column of one probe: its round-trip time, or a star.
pub open spec fn rtt_text(rtt: Option<u128>) -> Seq<char> {
    pad_left(
        match rtt {
            Some(t) => decimal(t as nat) + " ms"@,
            None => "*   "@,
        },
        9,
    )
}

pub fn rtt_column(rtt: Option<u128>) -> (s: String)
    ensures
        s@ == rtt_text(rtt),
{
    let inner = match rtt {
        Some(t) => {
            let mut s = decimal_text(t);
            s.append(" ms");
            s
        },
        None => String::from_str("*   "),
    };
    right_aligned(inner.as_str(), 9)
}

/// The target itself answered this probe.
pub open spec fn target_answered(r: Response) -> bool {
    match r {
        Response::Lost(_) => false,
        Response::Received(_, m) => !is_failure(m.header.typ),
    }
}

/// The address that answered this probe, if any.
pub open spec fn answered_from(r: Response) -> Option<u32> {
    match r {
        Response::Lost(_) => None,
        Response::Received(_, m) => Some(m.ip.source),
    }
}

/// Whether the target answered one of the probes.
pub fn reached(responses: &[Response]) -> (r: bool)
    ensures
        r == exists|i: int| 0 <= i < responses@.len() && target_answered(#[trigger] responses@[i]),
{
    let mut i: usize = 0;
    while i < responses.len()
        invariant
            i <= responses@.len(),
            forall|j: int| 0 <= j < i ==> !target_answered(#[trigger] responses@[j]),
        decreases responses@.len() - i,
    {
        if responses[i].is_target() {
            return true;
        }
        i = i + 1;
    }
    false
}

/// What a hop's line ends with: the first address that answered, or why
/// the last probe got nothing.
pub enum HopHost {
    Addr(u32),
    Error(String),
}

pub fn report_host(responses: &[Response]) -> (h: HopHost)
    requires
        responses@.len() > 0,
    ensures
        h matches HopHost::Addr(a) ==> exists|i: int|
            0 <= i < responses@.len() && answered_from(#[trigger] responses@[i]) == Some(a) && forall|j: int|
                0 <= j < i ==> #[trigger] responses@[j] is Lost,
        h matches HopHost::Error(e) ==> (forall|j: int| 0 <= j < responses@.len() ==> #[trigger] responses@[j] is Lost) && e@ == responses@.last()->Lost_0@,
        (forall|j: int| 0 <= j < responses@.len() ==> #[trigger] responses@[j] is Lost) <==> h is Error,
{
    let mut i: usize = 0;
    while i < responses.len()
        invariant
            i <= responses@.len(),
            forall|j: int| 0 <= j < i ==> #[trigger] responses@[j] is Lost,
        decreases responses@.len() - i,
    {
        match responses[i].addr() {
            Some(a) => {
                return HopHost::Addr(a);
            },
            None => {},
        }
        i = i + 1;
    }
    HopHost::Error(responses[responses.len() - 1].unwrap_err())
}

/// How the target is named in the first line: its name, followed by its
/// address in brackets when the name is not the address itself.
pub fn target_text(host: &str, ip: &str) -> (s: String)
    ensures
        host@ == ip@ ==> s@ == host@,
        host@ != ip@ ==> s@ == host@ + " ["@ + ip@ + "]"@,
{
    if crate::shell::str_eq(host, ip) {
        String::from_str(host)
    } else {
        let mut s = String::from_str(host);
        s.append(" [");
        s.append(ip);
        s.append("]");
        s
    }
}

} // verus!
