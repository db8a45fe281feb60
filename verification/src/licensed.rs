//! Copies of a licensed program that find each other on a subnet: the
//! two-byte messages they exchange and the table of copies seen running.

use std::collections::HashMap;
use vstd::prelude::*;
use vstd::std_specs::hash::{group_hash_axioms, spec_keys_iter};
use vstd::std_specs::iter::IteratorSpec;
use crate::clients::{Endpoint, endpoint_key};

verus! {

broadcast use group_hash_axioms;

/// The first byte of every message.
pub const MAGIC: u8 = 0xD6;

#[derive(Clone, Copy, PartialEq, Eq, Structural, Debug)]
pub enum Message {
    Started,
    Running,
    Stopped,
}

pub open spec fn message_byte(m: Message) -> u8 {
    match m {
        Message::Started => 0,
        Message::Running => 1,
        Message::Stopped => 2,
    }
}

/// The message that `buffer` holds, if any.
pub open spec fn parse_spec(buffer: Seq<u8>) -> Option<Message> {
    if buffer.len() < 2 || buffer[0] != MAGIC {
        None
    } else if buffer[1] == 0 {
        Some(Message::Started)
    } else if buffer[1] == 1 {
        Some(Message::Running)
    } else if buffer[1] == 2 {
        Some(Message::Stopped)
    } else {
        None
    }
}

impl Message {
    pub fn to_byte(&self) -> (b: u8)
        ensures
            b == message_byte(*self),
    {
        match self {
            Message::Started => 0,
            Message::Running => 1,
            Message::Stopped => 2,
        }
    }

    pub fn parse(buffer: &[u8]) -> (m: Option<Message>)
        ensures
            m == parse_spec(buffer@),
    {
        if buffer.len() < 2 || buffer[0] != MAGIC {
            return None;
        }
        if buffer[1] == 0 {
            Some(Message::Started)
        } else if buffer[1] == 1 {
            Some(Message::Running)
        } else if buffer[1] == 2 {
            Some(Message::Stopped)
        } else {
            None
        }
    }

    /// Writes the message into the first two bytes of `buffer`.
    pub fn serialize(&self, buffer: &mut Vec<u8>)
        requires
            old(buffer)@.len() >= 2,
        ensures
            final(buffer)@ == old(buffer)@.update(0, MAGIC).update(1, message_byte(*self)),
    {
        buffer.set(0, MAGIC);
        buffer.set(1, self.to_byte());
    }
}

/// A written message reads back as itself.
pub proof fn lemma_serialized_parses(m: Message, buffer: Seq<u8>)
    requires
        buffer.len() >= 2,
    ensures
        parse_spec(buffer.update(0, MAGIC).update(1, message_byte(m))) == Some(m),
{
}

/// Whether a copy last heard from at `last` has been silent for more than
/// `timeout_millis` at `now` (instants in nanoseconds; a clock that went
/// back counts as no time passed).
pub open spec fn stale(last: u64, now: u64, timeout_millis: u64) -> bool {
    now > last && (now - last) > timeout_millis as nat * 1_000_000
}

/// The copies seen running, by key, with when each was last heard from.
pub struct KnownCopies {
    copies: HashMap<u64, u64>,
}

impl View for KnownCopies {
    type V = Map<u64, u64>;

    closed spec fn view(&self) -> Map<u64, u64> {
        self.copies@
    }
}

impl KnownCopies {
    pub fn new() -> (c: Self)
        ensures
            c@ == Map::<u64, u64>::empty(),
    {
        KnownCopies { copies: HashMap::new() }
    }

    /// Notes that `addr` runs, as of `now`.
    pub fn record_running(&mut self, addr: Endpoint, now: u64)
        ensures
            final(self)@ == old(self)@.insert(endpoint_key(addr), now),
    {
        self.copies.insert(addr.key(), now);
    }

    /// Whether `addr` is known to run.
    pub fn contains(&self, addr: Endpoint) -> (r: bool)
        ensures
            r == self@.contains_key(endpoint_key(addr)),
    {
        self.copies.contains_key(&addr.key())
    }

    /// Takes a message from `addr` at `now`, and returns the answer to send
    /// back, if any: a copy that starts is noted and told that this one
    /// runs; one that runs is noted; one that stops is forgotten.
    pub fn handle_message(&mut self, message: Message, addr: Endpoint, now: u64) -> (reply: Option<Message>)
        ensures
            message == Message::Started ==> reply == Some(Message::Running) && final(self)@ == old(
                self,
            )@.insert(endpoint_key(addr), now),
            message == Message::Running ==> reply is None && final(self)@ == old(self)@.insert(
                endpoint_key(addr),
                now,
            ),
            message == Message::Stopped ==> reply is None && final(self)@ == old(self)@.remove(
                endpoint_key(addr),
            ),
    {
        match message {
            Message::Started => {
                self.record_running(addr, now);
                Some(Message::Running)
            },
            Message::Running => {
                self.record_running(addr, now);
                None
            },
            Message::Stopped => {
                self.copies.remove(&addr.key());
                None
            },
        }
    }

    /// Forgets the copies silent for more than `timeout_millis` at `now`.
    pub fn prune(&mut self, now: u64, timeout_millis: u64)
        ensures
            forall|k: u64| #[trigger]
                final(self)@.contains_key(k) <==> old(self)@.contains_key(k) && !stale(
                    old(self)@[k],
                    now,
                    timeout_millis,
                ),
            forall|k: u64| #[trigger] final(self)@.contains_key(k) ==> final(self)@[k] == old(self)@[k],
    {
        let mut kept: HashMap<u64, u64> = HashMap::new();
        let ghost g_seq = spec_keys_iter(&self.copies).remaining();
        let ghost keys: Seq<u64> = g_seq.unref();
        let ghost mut g_idx: int = 0;
        let limit: u128 = (timeout_millis as u128) * 1_000_000;
        for k in it: self.copies.keys()
            invariant
                it.seq() == g_seq,
                keys == g_seq.unref(),
                g_idx == it.index(),
                keys.to_set() == self.copies@.dom(),
                limit == timeout_millis as nat * 1_000_000,
                forall|x: u64| #[trigger]
                    kept@.contains_key(x) <==> keys.take(g_idx).contains(x) && self.copies@.contains_key(x)
                        && !stale(self.copies@[x], now, timeout_millis),
                forall|x: u64| #[trigger] kept@.contains_key(x) ==> kept@[x] == self.copies@[x],
        {
            proof {
                assert(keys[g_idx] == *k);
                assert(keys.to_set().contains(*k));
                assert forall|x: u64| #[trigger] keys.take(g_idx + 1).contains(x) <==> keys.take(g_idx).contains(x) || x == *k by {
                    if keys.take(g_idx + 1).contains(x) {
                        let j = choose|j: int| 0 <= j < g_idx + 1 && #[trigger] keys.take(g_idx + 1)[j] == x;
                        if j < g_idx {
                            assert(keys.take(g_idx)[j] == x);
                        }
                    }
                    if keys.take(g_idx).contains(x) {
                        let j = choose|j: int| 0 <= j < g_idx && #[trigger] keys.take(g_idx)[j] == x;
                        assert(keys.take(g_idx + 1)[j] == x);
                    }
                    if x == *k {
                        assert(keys.take(g_idx + 1)[g_idx] == x);
                    }
                }
            }
            let last = *self.copies.get(k).unwrap();
            let is_stale = now > last && ((now - last) as u128) > limit;
            if !is_stale {
                kept.insert(*k, last);
            }
            proof {
                g_idx = g_idx + 1;
            }
        }
        proof {
            assert(g_idx == keys.len());
            assert(keys.take(g_idx) =~= keys);
            assert forall|x: u64| #[trigger] keys.contains(x) <==> self.copies@.contains_key(x) by {
                assert(keys.to_set().contains(x) <==> keys.contains(x));
            }
        }
        self.copies = kept;
    }
}

} // verus!
