//! What a ping server remembers of its clients: the last report of each,
//! which requests were lost in between, and which clients went silent.

use std::collections::HashMap;
use vstd::prelude::*;
use vstd::std_specs::hash::{group_hash_axioms, spec_keys_iter};
use vstd::std_specs::iter::IteratorSpec;

verus! {

broadcast use group_hash_axioms;

/// An instant as whole seconds since the Unix epoch and the nanoseconds
/// past that second (a leap second counts its nanoseconds from one
/// billion up).
#[derive(Clone, Copy, PartialEq, Eq, Structural, Debug)]
pub struct Timestamp {
    pub secs: i64,
    pub nanos: u32,
}

/// The whole seconds from `then` to `now`, as `chrono` counts them
/// (`None` where either instant is out of `chrono`'s range).
pub uninterp spec fn seconds_between(
    now_secs: i64,
    now_nanos: u32,
    then_secs: i64,
    then_nanos: u32,
) -> Option<i64>;

/// Builds both instants with `chrono::DateTime::<Utc>::from_timestamp` and
/// returns `(now - then).num_seconds()`, the whole seconds of the
/// difference rounded toward zero. The result is claimed to be the value
/// of `seconds_between` on the four numbers, and nothing more.
#[verifier::external_body]
fn whole_seconds_between(now: Timestamp, then: Timestamp) -> (r: Option<i64>)
    ensures
        r == seconds_between(now.secs, now.nanos, then.secs, then.nanos),
{
    let a = chrono::DateTime::<chrono::Utc>::from_timestamp(now.secs, now.nanos);
    let b = chrono::DateTime::<chrono::Utc>::from_timestamp(then.secs, then.nanos);
    match (a, b) {
        (Some(a), Some(b)) => Some((a - b).num_seconds()),
        _ => None,
    }
}

/// A client's UDP address: an IPv4 address and a port.
#[derive(Clone, Copy, PartialEq, Eq, Structural, Debug)]
pub struct Endpoint {
    pub ip: u32,
    pub port: u16,
}

/// The number under which a client is filed.
pub open spec fn endpoint_key(e: Endpoint) -> u64 {
    (e.ip as nat * 65536 + e.port as nat) as u64
}

impl Endpoint {
    pub fn key(&self) -> (k: u64)
        ensures
            k == endpoint_key(*self),
    {
        (self.ip as u64) * 65536 + (self.port as u64)
    }

    pub fn from_key(k: u64) -> (e: Endpoint)
        requires
            k < 0x1_0000_0000_0000,
        ensures
            endpoint_key(e) == k,
            e == key_endpoint(k),
    {
        Endpoint { ip: (k / 65536) as u32, port: (k % 65536) as u16 }
    }
}

/// What a client says with each request: its attempt number and when it
/// sent the request.
#[derive(Clone, Copy, PartialEq, Eq, Structural, Debug)]
pub struct Report {
    pub attempt: usize,
    pub time: Timestamp,
}

/// `a` comes before `b`: by attempt, then by time.
pub open spec fn report_before(a: Report, b: Report) -> bool {
    ||| a.attempt < b.attempt
    ||| a.attempt == b.attempt && a.time.secs < b.time.secs
    ||| a.attempt == b.attempt && a.time.secs == b.time.secs && a.time.nanos < b.time.nanos
}

/// Whether `a` comes before `b`: by attempt, then by time.
pub fn is_before(a: &Report, b: &Report) -> (r: bool)
    ensures
        r == report_before(*a, *b),
{
    if a.attempt != b.attempt {
        a.attempt < b.attempt
    } else if a.time.secs != b.time.secs {
        a.time.secs < b.time.secs
    } else {
        a.time.nanos < b.time.nanos
    }
}

/// Reports are strictly ordered: no report comes before itself, the order
/// is transitive, and of two different reports one comes first. So the
/// report a server keeps for a client is the latest of those it was given.
pub proof fn lemma_report_order(a: Report, b: Report, c: Report)
    ensures
        !report_before(a, a),
        report_before(a, b) && report_before(b, c) ==> report_before(a, c),
        report_before(a, b) ==> !report_before(b, a),
        a != b ==> report_before(a, b) || report_before(b, a),
{
}

/// The attempts strictly between the two reports' attempts, in order.
pub open spec fn attempts_between(previous: Report, report: Report) -> Seq<usize> {
    if previous.attempt < report.attempt {
        Seq::new(
            (report.attempt - previous.attempt - 1) as nat,
            |i: int| (previous.attempt + 1 + i) as usize,
        )
    } else {
        Seq::empty()
    }
}

/// The attempts that never reached the server between two reports.
pub fn lost_attempts(previous: &Report, report: &Report) -> (lost: Vec<usize>)
    ensures
        lost@ == attempts_between(*previous, *report),
{
    let mut lost: Vec<usize> = Vec::new();
    if previous.attempt < report.attempt {
        let mut a: usize = previous.attempt + 1;
        while a < report.attempt
            invariant
                previous.attempt < a <= report.attempt,
                lost@ == attempts_between(*previous, *report).take(a - previous.attempt - 1),
            decreases report.attempt - a,
        {
            lost.push(a);
            a = a + 1;
        }
    }
    proof {
        assert(lost@ =~= attempts_between(*previous, *report));
    }
    lost
}

/// How a report was taken.
#[derive(PartialEq, Eq, Debug)]
pub enum Reported {
    /// The first report of this client.
    NewClient,
    /// A report after the last one; it carries the attempts lost between.
    Newer(Vec<usize>),
    /// A report no later than the last one; it was dropped.
    Stale,
}

/// Whether a client whose last report is `r` has been silent for at least
/// `threshold` whole seconds at `now`.
pub open spec fn is_absent(r: Report, now: Timestamp, threshold: i64) -> bool {
    silent_long_enough(seconds_between(now.secs, now.nanos, r.time.secs, r.time.nanos), threshold)
}

/// Whether a client whose last report lies `seconds` whole seconds back
/// (`None` where the time could not be measured) counts as absent.
pub open spec fn silent_long_enough(seconds: Option<i64>, threshold: i64) -> bool {
    match seconds {
        Some(s) => s >= threshold,
        None => false,
    }
}

/// Whether a client whose last report lies `seconds` whole seconds back
/// (`None` where the time could not be measured) counts as absent: it does
/// when it was silent for at least `threshold` seconds.
pub fn absent_after(seconds: Option<i64>, threshold: i64) -> (b: bool)
    ensures
        b == silent_long_enough(seconds, threshold),
{
    match seconds {
        Some(s) => s >= threshold,
        None => false,
    }
}

pub struct Clients {
    known: HashMap<u64, Report>,
}

impl View for Clients {
    /// The last report of each client, by key.
    type V = Map<u64, Report>;

    closed spec fn view(&self) -> Map<u64, Report> {
        self.known@
    }
}

impl Clients {
    /// Every key is the key of an endpoint.
    pub closed spec fn wf(&self) -> bool {
        forall|k: u64| #[trigger] self.known@.contains_key(k) ==> k < 0x1_0000_0000_0000
    }

    pub fn new() -> (c: Self)
        ensures
            c.wf(),
            c@ == Map::<u64, Report>::empty(),
    {
        Clients { known: HashMap::new() }
    }

    /// Takes a report from `addr`: a new client is filed; a known one keeps
    /// the later of its last report and this one.
    pub fn reported(&mut self, addr: Endpoint, report: Report) -> (r: Reported)
        requires
            old(self).wf(),
        ensures
            final(self).wf(),
            !old(self)@.contains_key(endpoint_key(addr)) ==> {
                &&& r is NewClient
                &&& final(self)@ == old(self)@.insert(endpoint_key(addr), report)
            },
            old(self)@.contains_key(endpoint_key(addr)) && report_before(
                old(self)@[endpoint_key(addr)],
                report,
            ) ==> {
                &&& r matches Reported::Newer(lost) && lost@ == attempts_between(
                    old(self)@[endpoint_key(addr)],
                    report,
                )
                &&& final(self)@ == old(self)@.insert(endpoint_key(addr), report)
            },
            old(self)@.contains_key(endpoint_key(addr)) && !report_before(
                old(self)@[endpoint_key(addr)],
                report,
            ) ==> {
                &&& r is Stale
                &&& final(self)@ == old(self)@
            },
    {
        let key = addr.key();
        if !self.known.contains_key(&key) {
            self.known.insert(key, report);
            return Reported::NewClient;
        }
        match self.replace_previous(addr, report) {
            Some(lost) => Reported::Newer(lost),
            None => Reported::Stale,
        }
    }

    /// Keeps `report` for the known client `addr` if it comes after the
    /// last one, and returns the attempts lost in between; otherwise
    /// changes nothing and returns `None`.
    pub fn replace_previous(&mut self, addr: Endpoint, report: Report) -> (r: Option<Vec<usize>>)
        requires
            old(self).wf(),
            old(self)@.contains_key(endpoint_key(addr)),
        ensures
            final(self).wf(),
            report_before(old(self)@[endpoint_key(addr)], report) ==> {
                &&& r matches Some(lost) && lost@ == attempts_between(
                    old(self)@[endpoint_key(addr)],
                    report,
                )
                &&& final(self)@ == old(self)@.insert(endpoint_key(addr), report)
            },
            !report_before(old(self)@[endpoint_key(addr)], report) ==> {
                &&& r is None
                &&& final(self)@ == old(self)@
            },
    {
        let key = addr.key();
        let previous = *self.known.get(&key).unwrap();
        if is_before(&previous, &report) {
            let lost = lost_attempts(&previous, &report);
            self.known.insert(key, report);
            Some(lost)
        } else {
            None
        }
    }

    /// The clients silent for at least `threshold` whole seconds at `now`,
    /// each once, in no particular order.
    pub fn absent(&self, now: Timestamp, threshold: i64) -> (out: Vec<Endpoint>)
        requires
            self.wf(),
        ensures
            out@.no_duplicates(),
            forall|e: Endpoint| #[trigger]
                out@.contains(e) <==> self@.contains_key(endpoint_key(e)) && is_absent(
                    self@[endpoint_key(e)],
                    now,
                    threshold,
                ),
    {
        let mut out: Vec<Endpoint> = Vec::new();
        let ghost g_seq = spec_keys_iter(&self.known).remaining();
        let ghost keys: Seq<u64> = g_seq.unref();
        let ghost mut g_idx: int = 0;
        for k in it: self.known.keys()
            invariant
                it.seq() == g_seq,
                keys == g_seq.unref(),
                g_idx == it.index(),
                keys.to_set() == self.known@.dom(),
                keys.no_duplicates(),
                self.wf(),
                out@ == absent_from(keys.take(g_idx), self@, now, threshold),
        {
            proof {
                assert(keys[g_idx] == *k);
                assert(keys.to_set().contains(*k));
                assert(keys.take(g_idx + 1).drop_last() =~= keys.take(g_idx));
            }
            let r = *self.known.get(k).unwrap();
            if absent_after(whole_seconds_between(now, r.time), threshold) {
                out.push(Endpoint::from_key(*k));
            }
            proof {
                g_idx = g_idx + 1;
            }
        }
        proof {
            assert(g_idx == keys.len());
            assert(keys.take(g_idx) =~= keys);
            assert forall|i: int| 0 <= i < keys.len() implies #[trigger] keys[i] < 0x1_0000_0000_0000
                && self@.contains_key(keys[i]) by {
                assert(keys.to_set().contains(keys[i]));
            }
            lemma_absent_from_members(keys, self@, now, threshold);
            lemma_absent_from_distinct(keys, self@, now, threshold);
            assert forall|e: Endpoint|
                self@.contains_key(endpoint_key(e)) && is_absent(
                    self@[endpoint_key(e)],
                    now,
                    threshold,
                ) implies #[trigger] out@.contains(e) by {
                if self@.contains_key(endpoint_key(e)) {
                    assert(keys.to_set().contains(endpoint_key(e)));
                }
            }
        }
        out
    }

    /// Forgets every client silent for at least `threshold` whole seconds
    /// at `now`, and returns each with the attempt of its last report.
    pub fn check_abnormals(&mut self, now: Timestamp, threshold: i64) -> (gone: Vec<(Endpoint, usize)>)
        requires
            old(self).wf(),
        ensures
            final(self).wf(),
            forall|k: u64| #[trigger]
                final(self)@.contains_key(k) <==> old(self)@.contains_key(k) && !is_absent(
                    old(self)@[k],
                    now,
                    threshold,
                ),
            forall|k: u64| #[trigger] final(self)@.contains_key(k) ==> final(self)@[k] == old(self)@[k],
            gone@.len() == old(self)@.dom().len() - final(self)@.dom().len(),
            forall|e: Endpoint, a: usize| #[trigger]
                gone@.contains((e, a)) <==> old(self)@.contains_key(endpoint_key(e)) && is_absent(
                    old(self)@[endpoint_key(e)],
                    now,
                    threshold,
                ) && a == old(self)@[endpoint_key(e)].attempt,
    {
        let absent = self.absent(now, threshold);
        let ghost before = self@;
        let mut gone: Vec<(Endpoint, usize)> = Vec::new();
        let mut i: usize = 0;
        while i < absent.len()
            invariant
                0 <= i <= absent@.len(),
                absent@.no_duplicates(),
                forall|e: Endpoint| #[trigger]
                    absent@.contains(e) <==> before.contains_key(endpoint_key(e)) && is_absent(
                        before[endpoint_key(e)],
                        now,
                        threshold,
                    ),
                self.wf(),
                gone@.len() == i,
                forall|j: int| 0 <= j < i ==> #[trigger] gone@[j] == (absent@[j], before[endpoint_key(absent@[j])].attempt),
                forall|k: u64| #[trigger]
                    self@.contains_key(k) <==> before.contains_key(k) && !(exists|j: int|
                        0 <= j < i && endpoint_key(#[trigger] absent@[j]) == k),
                forall|k: u64| #[trigger] self@.contains_key(k) ==> self@[k] == before[k],
            decreases absent@.len() - i,
        {
            let e = absent[i];
            let key = e.key();
            proof {
                assert(absent@.contains(e));
                assert(!(exists|j: int| 0 <= j < i && endpoint_key(#[trigger] absent@[j]) == key)) by {
                    if exists|j: int| 0 <= j < i && endpoint_key(#[trigger] absent@[j]) == key {
                        let j = choose|j: int| 0 <= j < i && endpoint_key(#[trigger] absent@[j]) == key;
                        lemma_key_injective(absent@[j], e);
                    }
                }
                assert(self@.contains_key(key));
            }
            let ghost mid = self@;
            let r = self.known.remove(&key);
            let attempt = match r {
                Some(report) => report.attempt,
                None => 0,
            };
            proof {
                assert(attempt == before[key].attempt);
                assert forall|k: u64| #[trigger]
                    self@.contains_key(k) <==> before.contains_key(k) && !(exists|j: int|
                        0 <= j < i + 1 && endpoint_key(#[trigger] absent@[j]) == k) by {
                    if k == key {
                        assert(endpoint_key(absent@[i as int]) == k);
                    } else {
                        assert(self@.contains_key(k) == mid.contains_key(k));
                        if exists|j: int| 0 <= j < i + 1 && endpoint_key(#[trigger] absent@[j]) == k {
                            let j = choose|j: int| 0 <= j < i + 1 && endpoint_key(#[trigger] absent@[j]) == k;
                            assert(j < i);
                        }
                    }
                }
            }
            gone.push((e, attempt));
            i = i + 1;
        }
        proof {
            assert forall|k: u64| #[trigger] self@.contains_key(k) <==> before.contains_key(k) && !is_absent(before[k], now, threshold) by {
                if before.contains_key(k) && is_absent(before[k], now, threshold) {
                    let e = key_endpoint(k);
                    assert(absent@.contains(e));
                    let j = choose|j: int| 0 <= j < absent@.len() && absent@[j] == e;
                    assert(endpoint_key(absent@[j]) == k);
                }
                if !self@.contains_key(k) && before.contains_key(k) {
                    let j = choose|j: int| 0 <= j < i && endpoint_key(#[trigger] absent@[j]) == k;
                    assert(absent@.contains(absent@[j]));
                }
            }
            assert forall|e: Endpoint, a: usize| #[trigger]
                gone@.contains((e, a)) <==> before.contains_key(endpoint_key(e)) && is_absent(
                    before[endpoint_key(e)],
                    now,
                    threshold,
                ) && a == before[endpoint_key(e)].attempt by {
                if gone@.contains((e, a)) {
                    let j = choose|j: int| 0 <= j < gone@.len() && gone@[j] == (e, a);
                    assert(absent@.contains(absent@[j]));
                }
                if before.contains_key(endpoint_key(e)) && is_absent(before[endpoint_key(e)], now, threshold)
                    && a == before[endpoint_key(e)].attempt {
                    assert(absent@.contains(e));
                    let j = choose|j: int| 0 <= j < absent@.len() && absent@[j] == e;
                    assert(gone@[j] == (e, a));
                }
            }
            lemma_removed_count(before, self@, absent@);
        }
        gone
    }
}

/// The endpoint filed under `k`.
pub open spec fn key_endpoint(k: u64) -> Endpoint {
    Endpoint { ip: (k / 65536) as u32, port: (k % 65536) as u16 }
}

proof fn lemma_key_injective(a: Endpoint, b: Endpoint)
    requires
        endpoint_key(a) == endpoint_key(b),
    ensures
        a == b,
{
}

proof fn lemma_key_endpoint(e: Endpoint)
    ensures
        key_endpoint(endpoint_key(e)) == e,
{
}

/// The endpoints of the keys in `keys` whose clients are absent, in order.
pub open spec fn absent_from(keys: Seq<u64>, m: Map<u64, Report>, now: Timestamp, threshold: i64) -> Seq<Endpoint>
    decreases keys.len(),
{
    if keys.len() == 0 {
        Seq::empty()
    } else {
        let rest = absent_from(keys.drop_last(), m, now, threshold);
        if is_absent(m[keys.last()], now, threshold) {
            rest.push(key_endpoint(keys.last()))
        } else {
            rest
        }
    }
}

proof fn lemma_absent_from_members(keys: Seq<u64>, m: Map<u64, Report>, now: Timestamp, threshold: i64)
    requires
        forall|i: int| 0 <= i < keys.len() ==> #[trigger] keys[i] < 0x1_0000_0000_0000,
    ensures
        forall|e: Endpoint| #[trigger]
            absent_from(keys, m, now, threshold).contains(e) <==> keys.contains(endpoint_key(e))
                && is_absent(m[endpoint_key(e)], now, threshold),
    decreases keys.len(),
{
    if keys.len() > 0 {
        let p = keys.drop_last();
        assert forall|i: int| 0 <= i < p.len() implies #[trigger] p[i] < 0x1_0000_0000_0000 by {
            assert(p[i] == keys[i]);
        }
        lemma_absent_from_members(p, m, now, threshold);
        assert forall|e: Endpoint| #[trigger]
            absent_from(keys, m, now, threshold).contains(e) <==> keys.contains(endpoint_key(e))
                && is_absent(m[endpoint_key(e)], now, threshold) by {
            lemma_key_endpoint(e);
            let last = keys.last();
            assert(last < 0x1_0000_0000_0000);
            assert(endpoint_key(key_endpoint(last)) == last);
            if keys.contains(endpoint_key(e)) {
                let i = choose|i: int| 0 <= i < keys.len() && keys[i] == endpoint_key(e);
                if i < p.len() {
                    assert(p[i] == keys[i]);
                    assert(p.contains(endpoint_key(e)));
                }
            }
            if p.contains(endpoint_key(e)) {
                let i = choose|i: int| 0 <= i < p.len() && p[i] == endpoint_key(e);
                assert(keys[i] == p[i]);
            }
            let rest = absent_from(p, m, now, threshold);
            if is_absent(m[last], now, threshold) {
                assert(rest.push(key_endpoint(last)).contains(e) <==> rest.contains(e) || e == key_endpoint(last)) by {
                    if rest.push(key_endpoint(last)).contains(e) {
                        let j = choose|j: int| 0 <= j < rest.len() + 1 && rest.push(key_endpoint(last))[j] == e;
                        if j < rest.len() {
                            assert(rest[j] == e);
                        }
                    }
                    if rest.contains(e) {
                        let j = choose|j: int| 0 <= j < rest.len() && rest[j] == e;
                        assert(rest.push(key_endpoint(last))[j] == e);
                    }
                    assert(rest.push(key_endpoint(last))[rest.len() as int] == key_endpoint(last));
                }
            }
        }
    }
}

proof fn lemma_absent_from_distinct(keys: Seq<u64>, m: Map<u64, Report>, now: Timestamp, threshold: i64)
    requires
        forall|i: int| 0 <= i < keys.len() ==> #[trigger] keys[i] < 0x1_0000_0000_0000,
        keys.no_duplicates(),
    ensures
        absent_from(keys, m, now, threshold).no_duplicates(),
    decreases keys.len(),
{
    if keys.len() > 0 {
        let p = keys.drop_last();
        assert forall|i: int| 0 <= i < p.len() implies #[trigger] p[i] < 0x1_0000_0000_0000 by {
            assert(p[i] == keys[i]);
        }
        lemma_absent_from_distinct(p, m, now, threshold);
        lemma_absent_from_members(p, m, now, threshold);
        let last = keys.last();
        let rest = absent_from(p, m, now, threshold);
        if is_absent(m[last], now, threshold) {
            let e = key_endpoint(last);
            assert(endpoint_key(e) == last);
            assert(!p.contains(last)) by {
                if p.contains(last) {
                    let i = choose|i: int| 0 <= i < p.len() && p[i] == last;
                    assert(keys[i] == keys[keys.len() - 1]);
                }
            }
            assert(!rest.contains(e));
            assert forall|a: int, b: int| 0 <= a < b < rest.len() + 1 implies rest.push(e)[a] != rest.push(e)[b] by {
                if b == rest.len() {
                    assert(rest.contains(rest[a]));
                }
            }
        }
    }
}

proof fn lemma_removed_count(before: Map<u64, Report>, after: Map<u64, Report>, gone: Seq<Endpoint>)
    requires
        before.dom().finite(),
        gone.no_duplicates(),
        forall|e: Endpoint| #[trigger] gone.contains(e) ==> before.contains_key(endpoint_key(e)),
        forall|k: u64| #[trigger]
            after.contains_key(k) <==> before.contains_key(k) && !(exists|j: int|
                0 <= j < gone.len() && endpoint_key(#[trigger] gone[j]) == k),
    ensures
        gone.len() == before.dom().len() - after.dom().len(),
{
    let removed = gone.map_values(|e: Endpoint| endpoint_key(e));
    assert forall|a: int, b: int| 0 <= a < b < removed.len() implies removed[a] != removed[b] by {
        if removed[a] == removed[b] {
            lemma_key_injective(gone[a], gone[b]);
        }
    }
    assert(removed.no_duplicates());
    removed.unique_seq_to_set();
    assert(after.dom() =~= before.dom().difference(removed.to_set())) by {
        assert forall|k: u64| #[trigger] removed.to_set().contains(k) <==> exists|j: int|
            0 <= j < gone.len() && endpoint_key(#[trigger] gone[j]) == k by {
            if removed.to_set().contains(k) {
                let j = choose|j: int| 0 <= j < removed.len() && removed[j] == k;
                assert(endpoint_key(gone[j]) == k);
            }
            if exists|j: int| 0 <= j < gone.len() && endpoint_key(#[trigger] gone[j]) == k {
                let j = choose|j: int| 0 <= j < gone.len() && endpoint_key(#[trigger] gone[j]) == k;
                assert(removed[j] == k);
                assert(removed.contains(k));
            }
        }
    }
    assert(removed.to_set().subset_of(before.dom())) by {
        assert forall|k: u64| #[trigger] removed.to_set().contains(k) implies before.dom().contains(k) by {
            let j = choose|j: int| 0 <= j < removed.len() && removed[j] == k;
            assert(gone.contains(gone[j]));
        }
    }
    vstd::set_lib::lemma_set_difference_len(before.dom(), removed.to_set());
    assert(before.dom().intersect(removed.to_set()) =~= removed.to_set());
}


} // verus!
