//! What a ping client keeps of a session: which requests were answered and
//! how long the answers took.

use vstd::prelude::*;
use vstd::string::StringExecFns;
use crate::text::{decimal, decimal_text};

verus! {

/// The text every request carries.
pub fn message() -> (s: &'static str)
    ensures
        s@ == "Lorem ipsum dolor sit amet orci."@,
{
    "Lorem ipsum dolor sit amet orci."
}

/// The target of a ping session and the size of each request.
pub struct Session {
    /// The target's address as it is shown.
    pub addr: String,
    pub bytes: usize,
}

impl Session {
    pub fn new(addr: String, bytes: usize) -> (s: Self)
        ensures
            s.addr == addr,
            s.bytes == bytes,
    {
        Self { addr, bytes }
    }

    /// The line that opens a session.
    pub fn to_string(&self) -> (s: String)
        ensures
            s@ == "Pinging "@ + self.addr@ + " with "@ + decimal(self.bytes as nat) + " bytes of data:"@,
    {
        let mut s = String::from_str("Pinging ");
        s.append(self.addr.as_str());
        s.append(" with ");
        let n = decimal_text(self.bytes as u128);
        s.append(n.as_str());
        s.append(" bytes of data:");
        s
    }
}

#[derive(PartialEq, Eq, Structural, Clone, Copy, Debug)]
pub enum Outcome {
    Received,
    Lost,
}

/// An answered request.
pub struct Reply {
    /// The address the answer came from, as it is shown.
    pub addr: String,
    pub bytes: usize,
    /// Round-trip time in milliseconds.
    pub time: u128,
}

impl Reply {
    pub fn new(addr: String, bytes: usize, time_millis: u128) -> (r: Self)
        ensures
            r.addr == addr,
            r.bytes == bytes,
            r.time == time_millis,
    {
        Self { addr, bytes, time: time_millis }
    }

    /// The line shown for an answer.
    pub fn to_string(&self) -> (s: String)
        ensures
            s@ == "Reply from "@ + self.addr@ + ": bytes="@ + decimal(self.bytes as nat) + " time="@
                + decimal(self.time as nat) + "ms"@,
    {
        let mut s = String::from_str("Reply from ");
        s.append(self.addr.as_str());
        s.append(": bytes=");
        let n = decimal_text(self.bytes as u128);
        s.append(n.as_str());
        s.append(" time=");
        let t = decimal_text(self.time);
        s.append(t.as_str());
        s.append("ms");
        s
    }
}

/// How many entries of `s` equal `o`.
pub open spec fn count(s: Seq<Outcome>, o: Outcome) -> nat
    decreases s.len(),
{
    if s.len() == 0 {
        0
    } else {
        count(s.drop_last(), o) + if s.last() == o {
            1nat
        } else {
            0nat
        }
    }
}

/// The smallest of `s`, or 0 when `s` is empty.
pub open spec fn seq_min(s: Seq<u128>) -> u128
    decreases s.len(),
{
    if s.len() == 0 {
        0
    } else if s.len() == 1 {
        s[0]
    } else if s.last() < seq_min(s.drop_last()) {
        s.last()
    } else {
        seq_min(s.drop_last())
    }
}

/// The largest of `s`, or 0 when `s` is empty.
pub open spec fn seq_max(s: Seq<u128>) -> u128
    decreases s.len(),
{
    if s.len() == 0 {
        0
    } else if s.len() == 1 {
        s[0]
    } else if s.last() > seq_max(s.drop_last()) {
        s.last()
    } else {
        seq_max(s.drop_last())
    }
}

/// The sum of `s`.
pub open spec fn seq_sum(s: Seq<u128>) -> nat
    decreases s.len(),
{
    if s.len() == 0 {
        0
    } else {
        seq_sum(s.drop_last()) + s.last() as nat
    }
}

/// The round-trip times of `replies`, in order.
pub open spec fn times(replies: Seq<Reply>) -> Seq<u128> {
    replies.map_values(|r: Reply| r.time)
}

pub struct Stats {
    session: Session,
    lost: Vec<Outcome>,
    replies: Vec<Reply>,
}

impl View for Stats {
    /// The outcome of every request in order, and the answers received.
    type V = (Seq<Outcome>, Seq<Reply>);

    closed spec fn view(&self) -> (Seq<Outcome>, Seq<Reply>) {
        (self.lost@, self.replies@)
    }
}

impl Stats {
    /// Every answered request has its reply recorded, and nothing else does.
    pub closed spec fn wf(&self) -> bool {
        count(self.lost@, Outcome::Received) == self.replies@.len()
    }

    /// The session these statistics are about.
    pub closed spec fn session_view(&self) -> Session {
        self.session
    }

    pub fn session(&self) -> (s: &Session)
        ensures
            *s == self.session_view(),
    {
        &self.session
    }

    pub fn new(session: Session) -> (s: Self)
        ensures
            s.wf(),
            s.session_view() == session,
            s@.0 == Seq::<Outcome>::empty(),
            s@.1 == Seq::<Reply>::empty(),
    {
        Self { session, lost: Vec::new(), replies: Vec::new() }
    }

    /// Records a request that was not answered.
    pub fn lost(&mut self)
        requires
            old(self).wf(),
        ensures
            final(self).wf(),
            final(self).session_view() == old(self).session_view(),
            final(self)@.0 == old(self)@.0.push(Outcome::Lost),
            final(self)@.1 == old(self)@.1,
    {
        proof {
            assert(self.lost@.push(Outcome::Lost).drop_last() =~= self.lost@);
        }
        self.lost.push(Outcome::Lost);
    }

    /// Records an answer of `bytes` bytes from `addr` after `time_millis`.
    pub fn received(&mut self, bytes: usize, addr: String, time_millis: u128)
        requires
            old(self).wf(),
        ensures
            final(self).wf(),
            final(self).session_view() == old(self).session_view(),
            final(self)@.0 == old(self)@.0.push(Outcome::Received),
            final(self)@.1 == old(self)@.1.push(Reply { addr, bytes, time: time_millis }),
    {
        proof {
            assert(self.lost@.push(Outcome::Received).drop_last() =~= self.lost@);
        }
        self.lost.push(Outcome::Received);
        let reply = Reply::new(addr, bytes, time_millis);
        self.replies.push(reply);
    }

    pub fn sent_packets(&self) -> (n: usize)
        ensures
            n == self@.0.len(),
    {
        self.lost.len()
    }

    fn count_of(&self, o: Outcome) -> (n: usize)
        ensures
            n == count(self@.0, o),
    {
        let mut n: usize = 0;
        let mut i: usize = 0;
        while i < self.lost.len()
            invariant
                i <= self.lost@.len(),
                n == count(self.lost@.take(i as int), o),
                n <= i,
            decreases self.lost@.len() - i,
        {
            proof {
                assert(self.lost@.take(i + 1).drop_last() =~= self.lost@.take(i as int));
            }
            if self.lost[i] == o {
                n = n + 1;
            }
            i = i + 1;
        }
        proof {
            assert(self.lost@.take(i as int) =~= self.lost@);
        }
        n
    }

    pub fn received_packets(&self) -> (n: usize)
        requires
            self.wf(),
        ensures
            n == count(self@.0, Outcome::Received),
            n == self@.1.len(),
    {
        self.count_of(Outcome::Received)
    }

    pub fn lost_packets(&self) -> (n: usize)
        ensures
            n == count(self@.0, Outcome::Lost),
    {
        self.count_of(Outcome::Lost)
    }

    /// Percentage of requests lost, rounded down.
    pub fn loss(&self) -> (p: usize)
        requires
            self@.0.len() > 0,
        ensures
            p == count(self@.0, Outcome::Lost) * 100 / self@.0.len(),
    {
        let lost = self.lost_packets();
        proof {
            lemma_count_bound(self@.0, Outcome::Lost);
        }
        let sent = self.sent_packets();
        let wide: u128 = (lost as u128) * 100 / (sent as u128);
        proof {
            assert(wide <= 100) by (nonlinear_arith)
                requires
                    wide == (lost as int) * 100 / (sent as int),
                    lost <= sent,
                    sent > 0,
            ;
        }
        wide as usize
    }

    /// Shortest round-trip time, 0 when nothing was answered.
    pub fn minimum_rtt(&self) -> (t: u128)
        ensures
            t == seq_min(times(self@.1)),
    {
        let mut best: u128 = 0;
        let mut i: usize = 0;
        while i < self.replies.len()
            invariant
                i <= self.replies@.len(),
                best == seq_min(times(self.replies@.take(i as int))),
            decreases self.replies@.len() - i,
        {
            let t = self.replies[i].time;
            proof {
                let prefix = times(self.replies@.take(i + 1));
                assert(prefix.drop_last() =~= times(self.replies@.take(i as int)));
                assert(prefix.last() == t);
            }
            if i == 0 || t < best {
                best = t;
            }
            i = i + 1;
        }
        proof {
            assert(self.replies@.take(i as int) =~= self.replies@);
        }
        best
    }

    /// Longest round-trip time, 0 when nothing was answered.
    pub fn maximum_rtt(&self) -> (t: u128)
        ensures
            t == seq_max(times(self@.1)),
    {
        let mut best: u128 = 0;
        let mut i: usize = 0;
        while i < self.replies.len()
            invariant
                i <= self.replies@.len(),
                best == seq_max(times(self.replies@.take(i as int))),
            decreases self.replies@.len() - i,
        {
            let t = self.replies[i].time;
            proof {
                let prefix = times(self.replies@.take(i + 1));
                assert(prefix.drop_last() =~= times(self.replies@.take(i as int)));
                assert(prefix.last() == t);
            }
            if i == 0 || t > best {
                best = t;
            }
            i = i + 1;
        }
        proof {
            assert(self.replies@.take(i as int) =~= self.replies@);
        }
        best
    }

    /// Mean round-trip time rounded down, 0 when nothing was answered.
    pub fn average_rtt(&self) -> (t: u128)
        requires
            self.wf(),
            seq_sum(times(self@.1)) <= u128::MAX,
        ensures
            self@.1.len() == 0 ==> t == 0,
            self@.1.len() > 0 ==> t == seq_sum(times(self@.1)) / (self@.1.len() as nat),
    {
        let total = self.received_packets() as u128;
        if total == 0 {
            return 0;
        }
        let mut sum: u128 = 0;
        let mut i: usize = 0;
        while i < self.replies.len()
            invariant
                i <= self.replies@.len(),
                sum == seq_sum(times(self.replies@.take(i as int))),
                seq_sum(times(self.replies@)) <= u128::MAX,
            decreases self.replies@.len() - i,
        {
            proof {
                let prefix = times(self.replies@.take(i + 1));
                assert(prefix.drop_last() =~= times(self.replies@.take(i as int)));
                lemma_prefix_sum_bound(times(self.replies@), i + 1);
                assert(times(self.replies@).take(i + 1) =~= prefix);
            }
            sum = sum + self.replies[i].time;
            i = i + 1;
        }
        proof {
            assert(self.replies@.take(i as int) =~= self.replies@);
        }
        sum / total
    }

    /// The line that counts the requests.
    pub fn write_packets(&self) -> (s: String)
        requires
            self.wf(),
            self@.0.len() > 0,
        ensures
            s@ == "\tPackets: Sent = "@ + decimal(self@.0.len()) + ", Received = "@ + decimal(
                count(self@.0, Outcome::Received),
            ) + ", Lost = "@ + decimal(count(self@.0, Outcome::Lost)) + " ("@ + decimal(
                count(self@.0, Outcome::Lost) * 100 / self@.0.len(),
            ) + "% loss),\n"@,
    {
        let mut s = String::from_str("\tPackets: Sent = ");
        let t = decimal_text(self.sent_packets() as u128);
        s.append(t.as_str());
        s.append(", Received = ");
        let t = decimal_text(self.received_packets() as u128);
        s.append(t.as_str());
        s.append(", Lost = ");
        let t = decimal_text(self.lost_packets() as u128);
        s.append(t.as_str());
        s.append(" (");
        let t = decimal_text(self.loss() as u128);
        s.append(t.as_str());
        s.append("% loss),\n");
        s
    }

    /// The lines that give the round-trip times.
    pub fn write_rtts(&self) -> (s: String)
        requires
            self.wf(),
            seq_sum(times(self@.1)) <= u128::MAX,
            self@.1.len() > 0,
        ensures
            s@ == "Approximate round trip times in milli-seconds:\n"@ + "\tMinimum = "@ + decimal(
                seq_min(times(self@.1)) as nat,
            ) + "ms, Maximum = "@ + decimal(seq_max(times(self@.1)) as nat) + "ms, Average = "@
                + decimal(seq_sum(times(self@.1)) / (self@.1.len() as nat)) + "ms\n"@,
    {
        let mut s = String::from_str("Approximate round trip times in milli-seconds:\n");
        s.append("\tMinimum = ");
        let t = decimal_text(self.minimum_rtt());
        s.append(t.as_str());
        s.append("ms, Maximum = ");
        let t = decimal_text(self.maximum_rtt());
        s.append(t.as_str());
        s.append("ms, Average = ");
        let t = decimal_text(self.average_rtt());
        s.append(t.as_str());
        s.append("ms\n");
        s
    }

    /// The summary shown at the end of a session.
    pub fn to_string(&self) -> (s: String)
        requires
            self.wf(),
            seq_sum(times(self@.1)) <= u128::MAX,
            self@.0.len() > 0,
        ensures
            s@ == "\n"@ + "Ping statistics for "@ + self.session_view().addr@ + ":\n"@ + "\tPackets: Sent = "@
                + decimal(self@.0.len()) + ", Received = "@ + decimal(count(self@.0, Outcome::Received))
                + ", Lost = "@ + decimal(count(self@.0, Outcome::Lost)) + " ("@ + decimal(
                count(self@.0, Outcome::Lost) * 100 / self@.0.len(),
            ) + "% loss),\n"@ + (if self@.1.len() > 0 {
                "Approximate round trip times in milli-seconds:\n"@ + "\tMinimum = "@ + decimal(
                    seq_min(times(self@.1)) as nat,
                ) + "ms, Maximum = "@ + decimal(seq_max(times(self@.1)) as nat) + "ms, Average = "@
                    + decimal(seq_sum(times(self@.1)) / (self@.1.len() as nat)) + "ms\n"@
            } else {
                Seq::empty()
            }) + "\n"@,
    {
        let mut s = String::from_str("\n");
        s.append("Ping statistics for ");
        s.append(self.session.addr.as_str());
        s.append(":\n");
        let p = self.write_packets();
        s.append(p.as_str());
        if self.replies.len() > 0 {
            let r = self.write_rtts();
            s.append(r.as_str());
        }
        s.append("\n");
        proof {
            if self@.1.len() == 0 {
                assert(s@ =~= "\n"@ + "Ping statistics for "@ + self.session_view().addr@ + ":\n"@ + p@
                    + Seq::<char>::empty() + "\n"@);
            }
        }
        s
    }

    /// The answers received, in order.
    pub fn rtts(&self) -> (r: &[Reply])
        ensures
            r@ == self@.1,
    {
        self.replies.as_slice()
    }
}

proof fn lemma_count_bound(s: Seq<Outcome>, o: Outcome)
    ensures
        count(s, o) <= s.len(),
    decreases s.len(),
{
    if s.len() > 0 {
        lemma_count_bound(s.drop_last(), o);
    }
}

proof fn lemma_prefix_sum_bound(s: Seq<u128>, n: int)
    requires
        0 <= n <= s.len(),
    ensures
        seq_sum(s.take(n)) <= seq_sum(s),
    decreases s.len(),
{
    if n < s.len() {
        assert(s.drop_last().take(n) =~= s.take(n));
        lemma_prefix_sum_bound(s.drop_last(), n);
    } else {
        assert(s.take(n) =~= s);
    }
}

/// Every request is either answered or lost: the counts add up to the
/// number of requests sent.
pub proof fn lemma_sent_is_received_plus_lost(s: Seq<Outcome>)
    ensures
        count(s, Outcome::Received) + count(s, Outcome::Lost) == s.len(),
    decreases s.len(),
{
    if s.len() > 0 {
        lemma_sent_is_received_plus_lost(s.drop_last());
    }
}

/// The shortest round-trip time is no longer than the mean, and the mean
/// no longer than the longest.
pub proof fn lemma_rtt_order(s: Seq<u128>)
    requires
        s.len() > 0,
    ensures
        seq_min(s) as nat * s.len() <= seq_sum(s),
        seq_sum(s) <= seq_max(s) as nat * s.len(),
        seq_min(s) <= seq_sum(s) / s.len(),
        seq_sum(s) / s.len() <= seq_max(s),
    decreases s.len(),
{
    if s.len() == 1 {
        assert(s.drop_last().len() == 0);
        assert(s.last() == s[0]);
        assert(seq_sum(s) == s[0] as nat);
    } else {
        let p = s.drop_last();
        lemma_rtt_order(p);
        let n = p.len();
        assert(seq_min(s) <= seq_min(p) && seq_min(s) <= s.last());
        assert(seq_max(s) >= seq_max(p) && seq_max(s) >= s.last());
        assert(seq_min(s) as nat * s.len() <= seq_sum(s)) by (nonlinear_arith)
            requires
                seq_min(s) <= seq_min(p),
                seq_min(s) <= s.last(),
                seq_min(p) as nat * n <= seq_sum(p),
                seq_sum(s) == seq_sum(p) + s.last(),
                s.len() == n + 1,
        ;
        assert(seq_sum(s) <= seq_max(s) as nat * s.len()) by (nonlinear_arith)
            requires
                seq_max(s) >= seq_max(p),
                seq_max(s) >= s.last(),
                seq_sum(p) <= seq_max(p) as nat * n,
                seq_sum(s) == seq_sum(p) + s.last(),
                s.len() == n + 1,
        ;
    }
    let len = s.len();
    let lo = seq_min(s) as nat;
    let hi = seq_max(s) as nat;
    let total = seq_sum(s);
    assert(lo <= total / len) by (nonlinear_arith)
        requires
            lo * len <= total,
            len > 0,
    ;
    assert(total / len <= hi) by (nonlinear_arith)
        requires
            total <= hi * len,
            len > 0,
    ;
}

} // verus!
