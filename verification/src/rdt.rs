//! The alternating-bit decisions of the reliable transfer protocol: which
//! segment goes out next, which received segment is accepted, and what is
//! sent again when a datagram is lost or damaged.

use vstd::prelude::*;
use vstd::slice::slice_to_vec;
use vstd::string::{StrSliceExecFns, StringExecFns};

use crate::segment::{
    checksum_correct, checksum_holds, encode_segment, parse_segment, ParsedRdtSegment,
    PreparedRdtSegment, RdtHeader, SegmentError, SegmentType, META_LENGTH,
};

verus! {

/// Size of the buffers that segments are assembled and received in.
pub const BUFFER_SIZE: usize = 32768;

pub struct RdtConfig {
    pub timeout_millis: u64,
}

impl RdtConfig {
    /// A configuration that waits `timeout_millis` for an acknowledgement
    /// before sending a segment again.
    pub fn new(timeout_millis: u64) -> (c: Self)
        ensures
            c.timeout_millis == timeout_millis,
    {
        Self { timeout_millis }
    }
}

/// Whether `bytes` is an intact segment of type `typ` with sequence number `seq`.
pub open spec fn is_intact(bytes: Seq<u8>, typ: SegmentType, seq: u8) -> bool {
    &&& parse_segment(bytes) is Ok
    &&& checksum_holds(bytes)
    &&& parse_segment(bytes)->Ok_0.header == RdtHeader { typ, seq }
}

/// The state one end of a connection keeps: the sequence bit it expects
/// next and the last datagram it sent, kept for sending again.
pub struct RdtState {
    seq: u8,
    prev: Vec<u8>,
}

impl View for RdtState {
    type V = (u8, Seq<u8>);

    closed spec fn view(&self) -> (u8, Seq<u8>) {
        (self.seq, self.prev@)
    }
}

impl RdtState {
    #[verifier::type_invariant]
    closed spec fn seq_is_bit(self) -> bool {
        self.seq <= 1
    }

    /// A fresh end of a connection: sequence bit 0, nothing sent yet.
    pub fn new() -> (s: Self)
        ensures
            s@.0 == 0,
            s@.1 == Seq::<u8>::empty(),
    {
        Self { seq: 0, prev: Vec::new() }
    }

    pub fn seq(&self) -> (b: u8)
        ensures
            b == self@.0,
            b <= 1,
    {
        proof {
            use_type_invariant(self);
        }
        self.seq
    }

    /// The datagram to send again when the last one was not answered as
    /// expected.
    pub fn retransmission(&self) -> (r: &[u8])
        ensures
            r@ == self@.1,
    {
        self.prev.as_slice()
    }

    /// Lays out the next data segment, with the current sequence bit, at the
    /// start of `out` and returns its length.
    pub fn outgoing(&self, data: Vec<u8>, out: &mut [u8]) -> (n: usize)
        requires
            old(out)@.len() >= META_LENGTH + data@.len(),
        ensures
            n == META_LENGTH + data@.len(),
            final(out)@.len() == old(out)@.len(),
            final(out)@.subrange(0, n as int) == encode_segment(
                RdtHeader { typ: SegmentType::Pkt, seq: self@.0 },
                data@,
            ),
    {
        let ghost bytes = data@;
        assert(out@.len() == out.len());
        let segment = PreparedRdtSegment::new(RdtHeader::new(SegmentType::Pkt, self.seq), data);
        assert(segment.data@ == bytes);
        assert(segment.header == RdtHeader { typ: SegmentType::Pkt, seq: self@.0 });
        let r = segment.write(out);
        assert(r == Ok::<usize, SegmentError>((META_LENGTH + bytes.len()) as usize));
        assert(out@.subrange(0, META_LENGTH + bytes.len()) == encode_segment(segment.header, bytes));
        match r {
            Ok(n) => n,
            Err(_) => 0,
        }
    }

    /// Whether a received datagram acknowledges the segment in flight.
    pub fn is_expected_ack(&self, received: &[u8]) -> (b: bool)
        ensures
            b == is_intact(received@, SegmentType::Ack, self@.0),
    {
        match ParsedRdtSegment::try_from(received) {
            Ok(segment) => checksum_correct(received) && segment.is_ack(self.seq),
            Err(_) => false,
        }
    }

    /// The received datagram as a segment, when it is the intact data segment
    /// expected next.
    pub fn accept_packet(&self, received: &[u8]) -> (r: Option<ParsedRdtSegment>)
        ensures
            r is Some <==> is_intact(received@, SegmentType::Pkt, self@.0),
            r matches Some(p) ==> parse_segment(received@) == Ok::<ParsedRdtSegment, SegmentError>(p),
    {
        match ParsedRdtSegment::try_from(received) {
            Ok(segment) => {
                if checksum_correct(received) && segment.is_pkt(self.seq) {
                    Some(segment)
                } else {
                    None
                }
            },
            Err(_) => None,
        }
    }

    /// The acknowledgement of the data segment with the current sequence bit.
    pub fn ack(&self) -> (a: Vec<u8>)
        ensures
            a@ == encode_segment(RdtHeader { typ: SegmentType::Ack, seq: self@.0 }, Seq::empty()),
    {
        let mut ack: Vec<u8> = Vec::new();
        ack.push(0);
        ack.push(0);
        ack.push(0);
        ack.push(0);
        let segment = PreparedRdtSegment::new(RdtHeader::new(SegmentType::Ack, self.seq), Vec::new());
        let _ = segment.write(ack.as_mut_slice());
        proof {
            assert(ack@.subrange(0, META_LENGTH as int) =~= ack@);
        }
        ack
    }

    /// The segment in flight was acknowledged: keep it for sending again
    /// and move to the other sequence bit.
    pub fn sent(&mut self, segment: &[u8])
        ensures
            final(self)@.0 == 1 - old(self)@.0,
            final(self)@.1 == segment@,
    {
        proof {
            use_type_invariant(&*self);
        }
        self.prev = slice_to_vec(segment);
        self.seq = 1 - self.seq;
    }

    /// The expected data segment was accepted and acknowledged: keep the
    /// acknowledgement for sending again and move to the other sequence bit.
    pub fn received(&mut self)
        ensures
            final(self)@.0 == 1 - old(self)@.0,
            final(self)@.1 == encode_segment(
                RdtHeader { typ: SegmentType::Ack, seq: old(self)@.0 },
                Seq::empty(),
            ),
    {
        proof {
            use_type_invariant(&*self);
        }
        let ack = self.ack();
        self.prev = ack;
        self.seq = 1 - self.seq;
    }
}

/// What the sender does after waiting for the acknowledgement of the
/// segment in flight.
#[derive(PartialEq, Eq, Structural, Clone, Copy, Debug)]
pub enum SendStep {
    /// The segment was acknowledged; the next one can go.
    Done,
    /// Nothing came in time: send the segment again and wait anew.
    Resend,
    /// Something else came: send the last datagram again, then the segment.
    RetryPrevious,
}

/// What the receiver does with a datagram.
pub enum RecvStep {
    /// The expected segment: send this acknowledgement and keep the data.
    Accept { ack: Vec<u8>, data: Vec<u8> },
    /// Anything else: send the last datagram again.
    Retry,
}

impl RdtState {
    /// The sender's decision once the wait for an acknowledgement of
    /// `segment` ends, with `received` the datagram that came (`None` when
    /// the time ran out). On the acknowledgement the segment is kept for
    /// sending again and the sequence bit moves on.
    pub fn after_wait(&mut self, received: Option<&[u8]>, segment: &[u8]) -> (step: SendStep)
        ensures
            match received {
                None => step == SendStep::Resend && *final(self) == *old(self),
                Some(r) => if is_intact(r@, SegmentType::Ack, old(self)@.0) {
                    step == SendStep::Done && final(self)@.0 == 1 - old(self)@.0 && final(self)@.1 == segment@
                } else {
                    step == SendStep::RetryPrevious && *final(self) == *old(self)
                },
            },
    {
        match received {
            None => SendStep::Resend,
            Some(r) => {
                if self.is_expected_ack(r) {
                    self.sent(segment);
                    SendStep::Done
                } else {
                    SendStep::RetryPrevious
                }
            },
        }
    }

    /// The receiver's decision on a datagram: the expected data segment is
    /// taken and acknowledged, and the sequence bit moves on; anything else
    /// asks for the last datagram to go again.
    pub fn on_datagram(&mut self, received: &[u8]) -> (step: RecvStep)
        ensures
            is_intact(received@, SegmentType::Pkt, old(self)@.0) ==> (step matches RecvStep::Accept { ack, data } && {
                &&& ack@ == encode_segment(RdtHeader { typ: SegmentType::Ack, seq: old(self)@.0 }, Seq::empty())
                &&& data@ == received@.subrange(META_LENGTH as int, received@.len() as int)
                &&& final(self)@.0 == 1 - old(self)@.0
                &&& final(self)@.1 == ack@
            }),
            !is_intact(received@, SegmentType::Pkt, old(self)@.0) ==> step is Retry && *final(self) == *old(self),
    {
        match self.accept_packet(received) {
            Some(segment) => {
                proof {
                    assert(received@.len() == received.len());
                    assert(segment.offset == META_LENGTH && segment.length == received@.len());
                }
                let data = slice_to_vec(segment.data(received));
                let ack = self.ack();
                self.received();
                RecvStep::Accept { ack, data }
            },
            None => RecvStep::Retry,
        }
    }
}

/// Whether a receiving end goes on after a segment of `bytes` payload bytes,
/// `total` bytes having been received before it: an empty segment ends the
/// transfer, unless nothing has been received yet.
pub fn keep_receiving(bytes: usize, total: usize) -> (b: bool)
    ensures
        b == (bytes > 0 || total == 0),
{
    bytes > 0 || total == 0
}

/// What a client asks the file server for.
pub enum Query {
    /// Send the file at this path.
    Download(String),
    /// Take a file and store it at this path.
    Upload(String),
    /// Anything else.
    Bad,
}

/// The request text for `query` about `param`: the two joined by a colon.
pub fn request(query: &str, param: &str) -> (s: String)
    ensures
        s@ == query@ + ":"@ + param@,
{
    let mut s = String::from_str(query);
    s.append(":");
    s.append(param);
    s
}

/// What a request text asks for: the text before its first colon names the
/// query, the text after it is the path.
pub fn parse_query(text: &str) -> (q: Query)
    ensures
        (forall|j: int| 0 <= j < text@.len() ==> text@[j] != ':') ==> q is Bad,
        forall|i: int|
            0 <= i < text@.len() && text@[i] == ':' && (forall|j: int| 0 <= j < i ==> text@[j] != ':')
                ==> {
                let name = text@.subrange(0, i);
                let path = text@.subrange(i + 1, text@.len() as int);
                &&& name == "download"@ ==> (q matches Query::Download(p) && p@ == path)
                &&& name == "upload"@ ==> (q matches Query::Upload(p) && p@ == path)
                &&& name != "download"@ && name != "upload"@ ==> q is Bad
            },
{
    proof {
        reveal_strlit("download");
        reveal_strlit("upload");
        assert("download"@.len() != "upload"@.len());
    }
    let n = text.unicode_len();
    match crate::mail::find_char(text, ':', 0) {
        None => Query::Bad,
        Some(i) => {
            let name = text.substring_char(0, i);
            let path = String::from_str(text.substring_char(i + 1, n));
            proof {
                assert forall|k: int|
                    0 <= k < text@.len() && text@[k] == ':' && (forall|j: int| 0 <= j < k ==> text@[j] != ':')
                        implies k == i by {
                    if k < i {
                        assert(text@[k] != ':');
                    }
                    if k > i {
                        assert(text@[i as int] != ':');
                    }
                }
            }
            if crate::shell::str_eq(name, "download") {
                Query::Download(path)
            } else if crate::shell::str_eq(name, "upload") {
                Query::Upload(path)
            } else {
                Query::Bad
            }
        },
    }
}

/// A data segment is accepted exactly by the end that expects its sequence
/// bit, so a segment sent again after a lost acknowledgement is not taken
/// twice.
pub proof fn lemma_packet_accepted_iff_expected(expected: u8, seq: u8, data: Seq<u8>)
    requires
        META_LENGTH + data.len() <= usize::MAX,
    ensures
        is_intact(encode_segment(RdtHeader { typ: SegmentType::Pkt, seq }, data), SegmentType::Pkt, expected)
            <==> expected == seq,
        !is_intact(encode_segment(RdtHeader { typ: SegmentType::Pkt, seq }, data), SegmentType::Ack, expected),
{
    crate::segment::lemma_written_segment_parses(RdtHeader { typ: SegmentType::Pkt, seq }, data);
    crate::segment::lemma_written_segment_checksum_holds(RdtHeader { typ: SegmentType::Pkt, seq }, data);
}

/// An acknowledgement is taken exactly by the sender whose segment in flight
/// carries the same sequence bit.
pub proof fn lemma_ack_accepted_iff_expected(expected: u8, seq: u8)
    ensures
        is_intact(encode_segment(RdtHeader { typ: SegmentType::Ack, seq }, Seq::empty()), SegmentType::Ack, expected)
            <==> expected == seq,
        !is_intact(encode_segment(RdtHeader { typ: SegmentType::Ack, seq }, Seq::empty()), SegmentType::Pkt, expected),
{
    crate::segment::lemma_written_segment_parses(RdtHeader { typ: SegmentType::Ack, seq }, Seq::empty());
    crate::segment::lemma_written_segment_checksum_holds(RdtHeader { typ: SegmentType::Ack, seq }, Seq::empty());
}

} // verus!
