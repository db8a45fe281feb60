//! Segments of the reliable transfer protocol: a big-endian checksum, a
//! type byte, a sequence byte, then the payload.

use vstd::prelude::*;

use vstd::slice::slice_subrange;
use crate::words::{be_word, lemma_word_sum_update_mod, u16_from_be, u16_to_be, word_sum, word_sum_u16};

verus! {

/// Bytes taken by the checksum at the head of each segment.
pub const CHECKSUM_LENGTH: usize = 2;

/// Bytes taken by the checksum and the header together.
pub const META_LENGTH: usize = 4;

#[derive(PartialEq, Eq, Structural, Clone, Copy, Debug)]
pub enum SegmentType {
    Ack,
    Pkt,
}

/// Why a received datagram is not a segment.
#[derive(PartialEq, Eq, Structural, Clone, Copy, Debug)]
pub enum SegmentError {
    /// The datagram ends before the header does.
    IncorrectHeader,
    /// The type byte names no segment type.
    UnknownSegmentType(u8),
}

impl SegmentType {
    /// The byte that stands for this type on the wire.
    pub open spec fn spec_byte(self) -> u8 {
        match self {
            SegmentType::Ack => 0,
            SegmentType::Pkt => 1,
        }
    }

    pub fn to_byte(self) -> (b: u8)
        ensures
            b == self.spec_byte(),
    {
        match self {
            SegmentType::Ack => 0,
            SegmentType::Pkt => 1,
        }
    }

    /// The type that a wire byte stands for.
    pub fn try_from(value: u8) -> (r: Result<SegmentType, SegmentError>)
        ensures
            value == 0 ==> r == Ok::<SegmentType, SegmentError>(SegmentType::Ack),
            value == 1 ==> r == Ok::<SegmentType, SegmentError>(SegmentType::Pkt),
            value > 1 ==> r == Err::<SegmentType, SegmentError>(SegmentError::UnknownSegmentType(value)),
            r matches Ok(t) ==> t.spec_byte() == value,
    {
        match value {
            0 => Ok(SegmentType::Ack),
            1 => Ok(SegmentType::Pkt),
            _ => Err(SegmentError::UnknownSegmentType(value)),
        }
    }
}

#[derive(PartialEq, Eq, Structural, Clone, Copy, Debug)]
pub struct RdtHeader {
    pub typ: SegmentType,
    pub seq: u8,
}

impl RdtHeader {
    pub fn new(typ: SegmentType, seq: u8) -> (h: Self)
        ensures
            h.typ == typ,
            h.seq == seq,
    {
        Self { typ, seq }
    }
}

/// Where the payload of a received segment lies in the buffer it came in.
#[derive(PartialEq, Eq, Structural, Clone, Copy, Debug)]
pub struct ParsedRdtSegment {
    pub header: RdtHeader,
    pub offset: usize,
    pub length: usize,
}

/// The checksum of a byte sequence: the complement of its 16-bit word sum.
pub open spec fn segment_checksum(s: Seq<u8>) -> u16 {
    (0xFFFF - word_sum(s) % 0x10000) as u16
}

/// Whether the first two bytes of `buffer` hold the checksum of the rest.
pub open spec fn checksum_holds(buffer: Seq<u8>) -> bool {
    be_word(buffer[0], buffer[1]) == segment_checksum(buffer.skip(2))
}

/// The header and payload as they follow the checksum on the wire.
pub open spec fn segment_body(header: RdtHeader, data: Seq<u8>) -> Seq<u8> {
    seq![header.typ.spec_byte(), header.seq] + data
}

/// The bytes of a whole segment: the checksum, taken over the segment with
/// a zero checksum field, then the body.
pub open spec fn encode_segment(header: RdtHeader, data: Seq<u8>) -> Seq<u8> {
    let c = segment_checksum(seq![0u8, 0u8] + segment_body(header, data));
    seq![(c / 256) as u8, (c % 256) as u8] + segment_body(header, data)
}

/// The segment type that a wire byte of 0 or 1 stands for.
pub open spec fn type_of_byte(b: u8) -> SegmentType {
    if b == 0 {
        SegmentType::Ack
    } else {
        SegmentType::Pkt
    }
}

/// What reading a segment header from `s` gives.
pub open spec fn parse_segment(s: Seq<u8>) -> Result<ParsedRdtSegment, SegmentError> {
    if s.len() < 3 {
        Err(SegmentError::IncorrectHeader)
    } else if s[2] > 1 {
        Err(SegmentError::UnknownSegmentType(s[2]))
    } else if s.len() < 4 {
        Err(SegmentError::IncorrectHeader)
    } else {
        Ok(
            ParsedRdtSegment {
                header: RdtHeader { typ: type_of_byte(s[2]), seq: s[3] },
                offset: META_LENGTH,
                length: s.len() as usize,
            },
        )
    }
}

impl ParsedRdtSegment {
    /// Reads the header of a received segment.
    pub fn try_from(value: &[u8]) -> (r: Result<ParsedRdtSegment, SegmentError>)
        ensures
            r == parse_segment(value@),
    {
        let header = read_meta(value)?;
        Ok(ParsedRdtSegment { header, offset: META_LENGTH, length: value.len() })
    }

    pub fn is_ack(&self, seq: u8) -> (b: bool)
        ensures
            b == (self.header.typ == SegmentType::Ack && self.header.seq == seq),
    {
        self.header.typ == SegmentType::Ack && self.header.seq == seq
    }

    pub fn is_pkt(&self, seq: u8) -> (b: bool)
        ensures
            b == (self.header.typ == SegmentType::Pkt && self.header.seq == seq),
    {
        self.header.typ == SegmentType::Pkt && self.header.seq == seq
    }

    /// Whether `buffer` holds the whole segment, so that `data` can cut the
    /// payload out of it.
    pub fn fits(&self, buffer: &[u8]) -> (b: bool)
        ensures
            b == (self.offset <= self.length <= buffer@.len()),
    {
        self.offset <= self.length && self.length <= buffer.len()
    }

    /// The payload, as it lies in the buffer that the segment was read from.
    pub fn data<'a>(&self, buffer: &'a [u8]) -> (d: &'a [u8])
        requires
            self.offset <= self.length <= buffer@.len(),
        ensures
            d@ == buffer@.subrange(self.offset as int, self.length as int),
    {
        slice_subrange(buffer, self.offset, self.length)
    }
}

fn read_meta(value: &[u8]) -> (r: Result<RdtHeader, SegmentError>)
    ensures
        r matches Ok(h) ==> parse_segment(value@) matches Ok(p) && p.header == h,
        r matches Err(e) ==> parse_segment(value@) == Err::<ParsedRdtSegment, SegmentError>(e),
        r is Ok <==> parse_segment(value@) is Ok,
{
    if value.len() < 3 {
        return Err(SegmentError::IncorrectHeader);
    }
    let typ = SegmentType::try_from(value[2])?;
    if value.len() < 4 {
        return Err(SegmentError::IncorrectHeader);
    }
    Ok(RdtHeader { typ, seq: value[3] })
}

#[derive(Clone)]
pub struct PreparedRdtSegment {
    pub header: RdtHeader,
    pub data: Vec<u8>,
}

impl PreparedRdtSegment {
    pub fn new(header: RdtHeader, data: Vec<u8>) -> (s: Self)
        ensures
            s.header == header,
            s.data@ == data@,
    {
        Self { header, data }
    }

    /// Writes the segment at the start of `buffer` and returns its length;
    /// the rest of `buffer` is left as it was.
    pub fn write(&self, buffer: &mut [u8]) -> (r: Result<usize, SegmentError>)
        requires
            old(buffer)@.len() >= META_LENGTH + self.data@.len(),
        ensures
            r == Ok::<usize, SegmentError>((META_LENGTH + self.data@.len()) as usize),
            final(buffer)@.len() == old(buffer)@.len(),
            final(buffer)@.subrange(0, META_LENGTH + self.data@.len()) == encode_segment(
                self.header,
                self.data@,
            ),
            final(buffer)@.skip(META_LENGTH + self.data@.len()) == old(buffer)@.skip(
                META_LENGTH + self.data@.len(),
            ),
    {
        let length = META_LENGTH + self.data.len();
        buffer[0] = 0;
        buffer[1] = 0;
        buffer[2] = self.header.typ.to_byte();
        buffer[3] = self.header.seq;
        let ghost start = buffer@;
        assert(start[0] == 0 && start[1] == 0 && start[2] == self.header.typ.spec_byte() && start[3] == self.header.seq);
        let mut i: usize = 0;
        while i < self.data.len()
            invariant
                length == META_LENGTH + self.data@.len(),
                buffer@.len() == start.len(),
                start.len() >= length,
                i <= self.data@.len(),
                buffer@.subrange(0, META_LENGTH as int) == start.subrange(0, META_LENGTH as int),
                buffer@.subrange(META_LENGTH as int, META_LENGTH + i) == self.data@.subrange(0, i as int),
                buffer@.skip(META_LENGTH + i) == start.skip(META_LENGTH + i),
            decreases self.data@.len() - i,
        {
            let ghost before = buffer@;
            buffer[META_LENGTH + i] = self.data[i];
            proof {
                assert(buffer@.subrange(0, META_LENGTH as int) =~= before.subrange(0, META_LENGTH as int));
                assert(buffer@.subrange(META_LENGTH as int, META_LENGTH + i + 1) =~= self.data@.subrange(0, i + 1));
                assert(buffer@.skip(META_LENGTH + i + 1) =~= before.skip(META_LENGTH + i + 1));
                assert(before.skip(META_LENGTH + i + 1) =~= before.skip(META_LENGTH + i).skip(1));
                assert(start.skip(META_LENGTH + i + 1) =~= start.skip(META_LENGTH + i).skip(1));
            }
            i = i + 1;
        }
        let ghost body = buffer@.subrange(0, length as int);
        proof {
            let expected = seq![0u8, 0u8] + segment_body(self.header, self.data@);
            assert forall|k: int| 0 <= k < length implies #[trigger] body[k] == expected[k] by {
                if k < META_LENGTH {
                    assert(buffer@.subrange(0, META_LENGTH as int)[k] == start.subrange(0, META_LENGTH as int)[k]);
                } else {
                    assert(buffer@.subrange(META_LENGTH as int, length as int)[k - META_LENGTH] == self.data@[k - META_LENGTH]);
                }
            }
            assert(body =~= expected);
        }
        let c = checksum(slice_subrange(buffer, 0, length));
        let (hi, lo) = u16_to_be(c);
        buffer[0] = hi;
        buffer[1] = lo;
        proof {
            assert(hi == (c / 256) as u8 && lo == (c % 256) as u8);
            let enc = encode_segment(self.header, self.data@);
            assert forall|k: int| 0 <= k < length implies #[trigger] buffer@.subrange(0, length as int)[k] == enc[k] by {
                if k >= 2 {
                    assert(body[k] == (seq![0u8, 0u8] + segment_body(self.header, self.data@))[k]);
                }
            }
            assert(buffer@.subrange(0, length as int) =~= enc);
            assert(buffer@.skip(length as int) =~= start.skip(length as int));
        }
        Ok(length)
    }
}

/// The checksum of a byte sequence.
pub fn checksum(slice: &[u8]) -> (c: u16)
    ensures
        c == segment_checksum(slice@),
{
    0xFFFFu16 - word_sum_u16(slice)
}

/// Whether the checksum that heads `buffer` matches the rest of it.
pub fn checksum_correct(buffer: &[u8]) -> (b: bool)
    requires
        buffer@.len() >= CHECKSUM_LENGTH,
    ensures
        b == checksum_holds(buffer@),
{
    let stored = u16_from_be(buffer[0], buffer[1]);
    let rest = slice_subrange(buffer, 2, buffer.len());
    proof {
        assert(rest@ =~= buffer@.skip(2));
    }
    checksum_matches(stored, rest)
}

/// Whether `stored` is the checksum of `buffer`.
pub fn checksum_matches(stored: u16, buffer: &[u8]) -> (b: bool)
    ensures
        b == (stored == segment_checksum(buffer@)),
{
    stored == checksum(buffer)
}

/// A segment as `write` lays it out passes `checksum_correct`.
pub proof fn lemma_written_segment_checksum_holds(header: RdtHeader, data: Seq<u8>)
    ensures
        checksum_holds(encode_segment(header, data)),
{
    let body = segment_body(header, data);
    let zeroed = seq![0u8, 0u8] + body;
    let seg = encode_segment(header, data);
    assert(zeroed.skip(2) =~= body);
    assert(seg.skip(2) =~= body);
    let c = segment_checksum(zeroed);
    assert(word_sum(zeroed) == word_sum(body));
    assert(be_word((c / 256) as u8, (c % 256) as u8) == c);
}

/// Reading back a segment as `write` lays it out gives the header it was
/// written with, and its payload lies between `offset` and `length`.
pub proof fn lemma_written_segment_parses(header: RdtHeader, data: Seq<u8>)
    requires
        META_LENGTH + data.len() <= usize::MAX,
    ensures
        parse_segment(encode_segment(header, data)) == Ok::<ParsedRdtSegment, SegmentError>(
            ParsedRdtSegment {
                header,
                offset: META_LENGTH,
                length: (META_LENGTH + data.len()) as usize,
            },
        ),
        encode_segment(header, data).subrange(META_LENGTH as int, META_LENGTH + data.len())
            == data,
{
    let seg = encode_segment(header, data);
    assert(seg[2] == header.typ.spec_byte());
    assert(seg[3] == header.seq);
    assert(type_of_byte(header.typ.spec_byte()) == header.typ);
    assert(seg.subrange(META_LENGTH as int, META_LENGTH + data.len()) =~= data);
}

/// Changing any single byte of a sequence changes its checksum.
pub proof fn lemma_checksum_detects_changed_byte(s: Seq<u8>, k: int, b: u8)
    requires
        0 <= k < s.len(),
        b != s[k],
    ensures
        segment_checksum(s.update(k, b)) != segment_checksum(s),
{
    lemma_word_sum_update_mod(s, k, b);
}

/// A segment whose checksum holds fails the check once any one of its bytes
/// is changed, the checksum bytes included.
pub proof fn lemma_damaged_segment_fails_check(s: Seq<u8>, k: int, b: u8)
    requires
        2 <= s.len(),
        0 <= k < s.len(),
        b != s[k],
        checksum_holds(s),
    ensures
        !checksum_holds(s.update(k, b)),
{
    let t = s.update(k, b);
    if k >= 2 {
        assert(t.skip(2) =~= s.skip(2).update(k - 2, b));
        lemma_word_sum_update_mod(s.skip(2), k - 2, b);
        assert(t[0] == s[0] && t[1] == s[1]);
    } else {
        assert(t.skip(2) =~= s.skip(2));
        if k == 0 {
            assert(be_word(t[0], t[1]) != be_word(s[0], s[1]));
        } else {
            assert(be_word(t[0], t[1]) != be_word(s[0], s[1]));
        }
    }
}

} // verus!
