//! The traffic that a speed test sends and how the receiving end measures
//! it: every datagram starts with a header giving when the test started,
//! how large each datagram is and how many are sent.

use vstd::prelude::*;
use vstd::slice::slice_subrange;
use rand::RngExt;

use crate::endian::{be_value, from_be_bytes, to_be_bytes};

verus! {

/// Length of the header that starts each datagram of a test.
pub const HEADER_SIZE: usize = 32;

/// Whether `buffer` starts with the header of a test that started at
/// `start` (milliseconds since the epoch) and sends `repeats` datagrams of
/// `size` bytes: three big-endian numbers of 16, 8 and 8 bytes.
pub open spec fn header_layout(buffer: Seq<u8>, start: u128, size: nat, repeats: nat) -> bool {
    &&& buffer.len() >= HEADER_SIZE
    &&& be_value(buffer.subrange(0, 16)) == start
    &&& be_value(buffer.subrange(16, 24)) == size
    &&& be_value(buffer.subrange(24, 32)) == repeats
}

/// Draws one byte from the thread-local generator of `rand`
/// (`rand::rng().random::<u8>()`). Nothing is claimed of its value.
#[verifier::external_body]
fn random_byte() -> u8 {
    rand::rng().random::<u8>()
}

/// Random traffic of datagrams of a fixed size.
pub struct RandomTraffic {
    size: usize,
    buffer: Vec<u8>,
}

impl View for RandomTraffic {
    type V = (nat, Seq<u8>);

    closed spec fn view(&self) -> (nat, Seq<u8>) {
        (self.size as nat, self.buffer@)
    }
}

impl RandomTraffic {
    /// Traffic of datagrams of `size` bytes, none filled yet.
    pub fn new(size: usize) -> (t: Self)
        ensures
            t@.0 == size,
            t@.1 == Seq::<u8>::empty(),
    {
        Self { size, buffer: Vec::with_capacity(size) }
    }

    /// The datagram filled last.
    pub fn datagram(&self) -> (d: &[u8])
        ensures
            d@ == self@.1,
    {
        self.buffer.as_slice()
    }

    /// Fills the next datagram: the header, then random bytes up to the
    /// datagram size (the header is kept whole if the size is smaller).
    pub fn fill(&mut self, start: u128, repeats: usize)
        ensures
            final(self)@.0 == old(self)@.0,
            final(self)@.1.len() == if old(self)@.0 > HEADER_SIZE {
                old(self)@.0
            } else {
                HEADER_SIZE as nat
            },
            header_layout(final(self)@.1, start, old(self)@.0, repeats as nat),
    {
        self.buffer.clear();
        self.write_header(start, repeats);
        let ghost header = self.buffer@;
        while self.buffer.len() < self.size
            invariant
                self.buffer@.len() >= HEADER_SIZE,
                self.buffer@.len() <= if self.size > HEADER_SIZE { self.size as nat } else { HEADER_SIZE as nat },
                self.buffer@.subrange(0, HEADER_SIZE as int) == header.subrange(0, HEADER_SIZE as int),
                header_layout(header, start, self.size as nat, repeats as nat),
            decreases self.size - self.buffer@.len(),
        {
            let b = random_byte();
            let ghost before = self.buffer@;
            self.buffer.push(b);
            proof {
                assert(self.buffer@.subrange(0, HEADER_SIZE as int) =~= before.subrange(0, HEADER_SIZE as int));
            }
        }
        proof {
            let f = self.buffer@;
            assert(f.subrange(0, 16) =~= header.subrange(0, HEADER_SIZE as int).subrange(0, 16));
            assert(header.subrange(0, 16) =~= header.subrange(0, HEADER_SIZE as int).subrange(0, 16));
            assert(f.subrange(16, 24) =~= header.subrange(0, HEADER_SIZE as int).subrange(16, 24));
            assert(header.subrange(16, 24) =~= header.subrange(0, HEADER_SIZE as int).subrange(16, 24));
            assert(f.subrange(24, 32) =~= header.subrange(0, HEADER_SIZE as int).subrange(24, 32));
            assert(header.subrange(24, 32) =~= header.subrange(0, HEADER_SIZE as int).subrange(24, 32));
        }
    }

    /// Appends the header of the test to the (empty) datagram.
    fn write_header(&mut self, start: u128, repeats: usize)
        requires
            old(self).buffer@.len() == 0,
        ensures
            final(self).size == old(self).size,
            final(self).buffer@.len() == HEADER_SIZE,
            header_layout(final(self).buffer@, start, old(self).size as nat, repeats as nat),
    {
        proof {
            crate::endian::lemma_pow256_16();
        }
        let s = to_be_bytes(start, 16);
        let z = to_be_bytes(self.size as u128, 8);
        let r = to_be_bytes(repeats as u128, 8);
        self.write(s.as_slice());
        self.write(z.as_slice());
        self.write(r.as_slice());
        proof {
            let b = self.buffer@;
            assert(b =~= s@ + z@ + r@);
            assert(b.subrange(0, 16) =~= s@);
            assert(b.subrange(16, 24) =~= z@);
            assert(b.subrange(24, 32) =~= r@);
        }
    }

    /// Appends bytes to the datagram.
    fn write(&mut self, bytes: &[u8])
        ensures
            final(self).size == old(self).size,
            final(self).buffer@ == old(self).buffer@ + bytes@,
    {
        let ghost start = self.buffer@;
        self.buffer.extend_from_slice(bytes);
        proof {
            assert forall|i: int| 0 <= i < self.buffer@.len() implies #[trigger] self.buffer@[i] == (start + bytes@)[i] by {
                if i >= start.len() {
                    assert(cloned::<u8>(bytes@[i - start.len()], self.buffer@[i]));
                }
            }
            assert(self.buffer@ =~= start + bytes@);
        }
    }
}

/// Why a test could not be measured.
#[derive(PartialEq, Eq, Structural, Clone, Copy, Debug)]
pub enum MeasureError {
    /// The datagram ends inside the header.
    UnexpectedEnd,
    /// The test claims to start later than now.
    ClockBehind,
}

impl MeasureError {
    /// The message that tells the user why.
    pub open spec fn message(self) -> Seq<char> {
        match self {
            MeasureError::UnexpectedEnd => "failed to fill whole buffer"@,
            MeasureError::ClockBehind => "second time provided was later than self"@,
        }
    }

    /// The message that tells the user why.
    pub fn text(&self) -> (s: String)
        ensures
            s@ == self.message(),
    {
        match self {
            MeasureError::UnexpectedEnd => String::from_str("failed to fill whole buffer"),
            MeasureError::ClockBehind => String::from_str("second time provided was later than self"),
        }
    }
}

/// A test as its header describes it.
#[derive(PartialEq, Eq, Structural, Clone, Copy, Debug)]
pub struct MeasureConfig {
    /// When the test started, in milliseconds since the epoch.
    pub start_millis: u64,
    pub size: usize,
    pub repeats: usize,
}

/// What reading a header from `raw` gives.
pub open spec fn parse_config_spec(raw: Seq<u8>) -> Result<MeasureConfig, MeasureError> {
    if raw.len() < HEADER_SIZE {
        Err(MeasureError::UnexpectedEnd)
    } else {
        Ok(
            MeasureConfig {
                start_millis: (be_value(raw.subrange(0, 16)) % 0x1_0000_0000_0000_0000) as u64,
                size: be_value(raw.subrange(16, 24)) as usize,
                repeats: be_value(raw.subrange(24, 32)) as usize,
            },
        )
    }
}

/// Milliseconds from `start` to `now`, cut to `usize` as a millisecond count
/// is.
pub open spec fn elapsed_spec(start: u64, now: u128) -> Result<usize, MeasureError> {
    if now < start {
        Err(MeasureError::ClockBehind)
    } else {
        Ok((now - start) as usize)
    }
}

impl MeasureConfig {
    /// Reads the header at the start of a datagram.
    pub fn parse(raw: &[u8]) -> (r: Result<Self, MeasureError>)
        ensures
            r == parse_config_spec(raw@),
    {
        if raw.len() < HEADER_SIZE {
            return Err(MeasureError::UnexpectedEnd);
        }
        let epoch = from_be_bytes(slice_subrange(raw, 0, 16));
        let size = from_be_bytes(slice_subrange(raw, 16, 24));
        let repeats = from_be_bytes(slice_subrange(raw, 24, 32));
        Ok(
            MeasureConfig {
                start_millis: (epoch % 0x1_0000_0000_0000_0000) as u64,
                size: size as usize,
                repeats: repeats as usize,
            },
        )
    }

    /// Milliseconds since the test started, `now_millis` being the time in
    /// milliseconds since the epoch.
    pub fn millis_elapsed(&self, now_millis: u128) -> (r: Result<usize, MeasureError>)
        ensures
            r == elapsed_spec(self.start_millis, now_millis),
    {
        if now_millis < self.start_millis as u128 {
            Err(MeasureError::ClockBehind)
        } else {
            Ok((now_millis - self.start_millis as u128) as usize)
        }
    }

    /// Length of the header.
    pub fn size() -> (n: usize)
        ensures
            n == HEADER_SIZE,
    {
        HEADER_SIZE
    }
}

/// What the receiving end shows while a test runs.
#[derive(PartialEq, Eq, Structural, Clone, Copy, Debug)]
pub struct MeasuringState {
    /// Bytes per second received so far.
    pub bps: usize,
    /// Bytes received so far.
    pub received: usize,
    /// Datagrams received so far.
    pub packets: usize,
    /// What the test is going to send in all.
    pub total: usize,
}

impl MeasuringState {
    pub fn new(bps: usize, received: usize, packets: usize, total: usize) -> (s: Self)
        ensures
            s == (MeasuringState { bps, received, packets, total }),
    {
        Self { bps, received, packets, total }
    }

    /// Starts a new test: nothing received yet.
    pub fn reset(&mut self)
        ensures
            *final(self) == (MeasuringState { bps: 0, received: 0, packets: 0, total: old(self).total }),
    {
        self.bps = 0;
        self.packets = 0;
        self.received = 0;
    }

    pub fn set_total(&mut self, total: usize)
        ensures
            *final(self) == (MeasuringState { total, ..*old(self) }),
    {
        self.total = total;
    }

    /// Counts a datagram of `bytes` bytes received at `now_millis` and
    /// updates the rate.
    pub fn received(&mut self, config: &MeasureConfig, bytes: usize, now_millis: u128) -> (r: Result<(), MeasureError>)
        requires
            old(self).received + bytes <= usize::MAX,
            old(self).packets + 1 <= usize::MAX,
            (old(self).received + bytes) * 1000 <= usize::MAX,
        ensures
            final(self).received == old(self).received + bytes,
            final(self).packets == old(self).packets + 1,
            final(self).total == old(self).total,
            r is Err <==> elapsed_spec(config.start_millis, now_millis) is Err,
            match elapsed_spec(config.start_millis, now_millis) {
                Ok(e) => final(self).bps == if e > 0 {
                    (final(self).received * 1000 / (e as int)) as usize
                } else {
                    old(self).bps
                },
                Err(_) => final(self).bps == old(self).bps,
            },
    {
        self.received = self.received + bytes;
        self.packets = self.packets + 1;
        let elapsed = config.millis_elapsed(now_millis)?;
        if elapsed > 0 {
            self.bps = self.received * 1000 / elapsed;
        }
        Ok(())
    }
}

/// The header that `fill` puts at the start of every datagram reads back,
/// at the receiving end, as the test it was written for; the start time is
/// cut to 64 bits as the receiver keeps it.
pub proof fn lemma_header_reads_back(buffer: Seq<u8>, start: u128, size: usize, repeats: usize)
    requires
        header_layout(buffer, start, size as nat, repeats as nat),
    ensures
        parse_config_spec(buffer) == Ok::<MeasureConfig, MeasureError>(
            MeasureConfig {
                start_millis: (start % 0x1_0000_0000_0000_0000) as u64,
                size,
                repeats,
            },
        ),
{
}

} // verus!
