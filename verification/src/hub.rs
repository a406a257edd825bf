//! Relay hub and presence watchdog: the server side. The hub assigns each
//! connection an identity at connect time, fans every published report out
//! to every subscribed connection (the sender included; echo suppression
//! is the client's business) with the sender's identity stamped into it,
//! and refreshes the sender's last-activity time on every inbound message.
//! A connection whose inbound side stays silent beyond the watchdog window
//! is evicted.

use vstd::prelude::*;
use crate::wire::{
    bytes_ok, bytes_eq, clone_bytes, decode_packet, spec_enc, wf_packet, ExtraValue, Packet,
    PacketV,
};

verus! {

/// Inbound silence beyond this window evicts the connection (5 minutes).
pub const WATCHDOG_TIMEOUT_MS: u64 = 300_000;

/// Bound on each subscriber's backlog; beyond it the oldest buffered
/// message is dropped rather than blocking publishers.
pub const SUBSCRIBER_BACKLOG: usize = 1024;

/// One subscribed connection: its relay-assigned identity, the reports
/// queued for its outbound loop, and its last inbound activity.
pub struct Connection {
    pub id: Vec<u8>,
    pub outbox: Vec<Packet>,
    pub last_seen_ms: u64,
}

/// The fan-out hub: every connection publishes to it and subscribes to it.
pub struct Hub {
    pub conns: Vec<Connection>,
}

/// The reports queued for a connection, as ghost values.
pub open spec fn outbox_view(c: Connection) -> Seq<PacketV> {
    c.outbox@.map_values(|p: Packet| p@)
}

/// A report with the sender's identity written over whatever it carried.
pub open spec fn spec_stamp(p: PacketV, id: Seq<u8>) -> PacketV {
    PacketV { id: id, ..p }
}

/// What publishing one report does to one subscriber's queue: appended,
/// with the oldest buffered report dropped first if the backlog is full.
pub open spec fn spec_deliver(q: Seq<PacketV>, m: PacketV) -> Seq<PacketV> {
    if q.len() < SUBSCRIBER_BACKLOG {
        q.push(m)
    } else {
        q.drop_first().push(m)
    }
}

impl Hub {
    /// Well-formed: identities are admissible strings, pairwise distinct,
    /// and every queued report is well-formed.
    pub open spec fn wf(&self) -> bool {
        &&& forall|i: int, j: int|
            0 <= i < j < self.conns@.len() ==> #[trigger] self.conns@[i].id@ != #[trigger] self.conns@[j].id@
        &&& forall|i: int| 0 <= i < self.conns@.len() ==> bytes_ok(#[trigger] self.conns@[i].id@)
        &&& forall|i: int, k: int|
            0 <= i < self.conns@.len() && 0 <= k < outbox_view(#[trigger] self.conns@[i]).len()
                ==> wf_packet(#[trigger] outbox_view(self.conns@[i])[k])
        &&& forall|i: int|
            0 <= i < self.conns@.len() ==> (#[trigger] self.conns@[i]).outbox@.len()
                <= SUBSCRIBER_BACKLOG
    }

    /// A hub with no connections.
    pub fn new() -> (r: Hub)
        ensures
            r.wf(),
            r.conns@.len() == 0,
    {
        Hub { conns: Vec::new() }
    }

    /// The number of subscribed connections.
    pub fn len(&self) -> (r: usize)
        ensures
            r == self.conns@.len(),
    {
        self.conns.len()
    }
}

/// Relies on `uuid::Uuid::new_v4` and `uuid::fmt::Hyphenated`: a fresh
/// random version-4 UUID rendered in the hyphenated form — 36 ASCII bytes
/// of lowercase hex digits and hyphens, so no quote or backslash. The
/// value itself is random; nothing more is assumed of it.
#[verifier::external_body]
fn new_session_id() -> (r: Vec<u8>)
    ensures
        r@.len() == 36,
        bytes_ok(r@),
{
    uuid::Uuid::new_v4().to_string().into_bytes()
}

/// A fresh copy of an extra value.
fn clone_value(v: &ExtraValue) -> (r: ExtraValue)
    ensures
        r@ == v@,
{
    match v {
        ExtraValue::Null => ExtraValue::Null,
        ExtraValue::Bool(b) => ExtraValue::Bool(*b),
        ExtraValue::Text(t) => ExtraValue::Text(clone_bytes(t)),
    }
}

/// A copy of a report with the given identity stamped into it.
fn stamp_packet(p: &Packet, id: &Vec<u8>) -> (r: Packet)
    ensures
        r@ == spec_stamp(p@, id@),
{
    let mut extra: Vec<(Vec<u8>, ExtraValue)> = Vec::new();
    let mut k: usize = 0;
    while k < p.extra.len()
        invariant
            k <= p.extra@.len(),
            extra@.len() == k,
            forall|m: int|
                0 <= m < k ==> #[trigger] extra@[m].0@ == p.extra@[m].0@ && extra@[m].1@
                    == p.extra@[m].1@,
        decreases p.extra@.len() - k,
    {
        let key = clone_bytes(&p.extra[k].0);
        let val = clone_value(&p.extra[k].1);
        extra.push((key, val));
        k = k + 1;
    }
    proof {
        assert(crate::wire::spec_extra_view(extra@) =~~= crate::wire::spec_extra_view(p.extra@));
    }
    let r = Packet {
        id: clone_bytes(id),
        color: clone_bytes(&p.color),
        x_per_myria: p.x_per_myria,
        y_per_myria: p.y_per_myria,
        extra,
    };
    proof {
        assert(r@ =~~= spec_stamp(p@, id@));
    }
    r
}

impl Hub {
    /// Subscribes a new connection under the given identity, with an
    /// empty backlog and a started activity clock: refused exactly when
    /// that identity is already live.
    pub fn subscribe(&mut self, id: Vec<u8>, now_ms: u64) -> (r: Option<usize>)
        requires
            old(self).wf(),
            bytes_ok(id@),
        ensures
            final(self).wf(),
            (r is None) <==> exists|j: int|
                0 <= j < old(self).conns@.len() && (#[trigger] old(self).conns@[j]).id@ == id@,
            match r {
                Some(i) => {
                    &&& i == old(self).conns@.len()
                    &&& final(self).conns@.len() == old(self).conns@.len() + 1
                    &&& forall|j: int|
                        0 <= j < old(self).conns@.len() ==> final(self).conns@[j] == old(
                            self,
                        ).conns@[j]
                    &&& final(self).conns@[i as int].outbox@.len() == 0
                    &&& final(self).conns@[i as int].last_seen_ms == now_ms
                    &&& final(self).conns@[i as int].id@ == id@
                },
                None => *final(self) == *old(self),
            },
    {
        let mut i: usize = 0;
        while i < self.conns.len()
            invariant
                self.conns@ == old(self).conns@,
                old(self).wf(),
                i <= self.conns@.len(),
                forall|j: int| 0 <= j < i ==> (#[trigger] self.conns@[j]).id@ != id@,
            decreases self.conns@.len() - i,
        {
            if bytes_eq(&self.conns[i].id, &id) {
                return None;
            }
            i = i + 1;
        }
        let idx = self.conns.len();
        self.conns.push(Connection { id, outbox: Vec::new(), last_seen_ms: now_ms });
        proof {
            assert(outbox_view(self.conns@[idx as int]) =~= Seq::<PacketV>::empty());
        }
        Some(idx)
    }

    /// Accepts a new connection: draws a fresh random identity and
    /// subscribes it. On an empty hub a connection is always accepted;
    /// `None` comes back exactly when `subscribe` refused the drawn
    /// identity because a live connection already carries it
    /// (vanishingly unlikely), and then nothing has changed.
    pub fn connect(&mut self, now_ms: u64) -> (r: Option<usize>)
        requires
            old(self).wf(),
        ensures
            final(self).wf(),
            old(self).conns@.len() == 0 ==> r is Some,
            match r {
                Some(i) => {
                    &&& i == old(self).conns@.len()
                    &&& final(self).conns@.len() == old(self).conns@.len() + 1
                    &&& forall|j: int|
                        0 <= j < old(self).conns@.len() ==> final(self).conns@[j] == old(
                            self,
                        ).conns@[j]
                    &&& final(self).conns@[i as int].outbox@.len() == 0
                    &&& final(self).conns@[i as int].last_seen_ms == now_ms
                    &&& final(self).conns@[i as int].id@.len() == 36
                },
                None => *final(self) == *old(self),
            },
    {
        let id = new_session_id();
        self.subscribe(id, now_ms)
    }

    /// The index currently holding the given identity, if it is live.
    pub fn index_of(&self, id: &Vec<u8>) -> (r: Option<usize>)
        ensures
            match r {
                Some(k) => k < self.conns@.len() && self.conns@[k as int].id@ == id@,
                None => forall|j: int|
                    0 <= j < self.conns@.len() ==> (#[trigger] self.conns@[j]).id@ != id@,
            },
    {
        let mut i: usize = 0;
        while i < self.conns.len()
            invariant
                i <= self.conns@.len(),
                forall|j: int| 0 <= j < i ==> (#[trigger] self.conns@[j]).id@ != id@,
            decreases self.conns@.len() - i,
        {
            if bytes_eq(&self.conns[i].id, id) {
                return Some(i);
            }
            i = i + 1;
        }
        None
    }

    /// Hands connection `i`'s queued reports to its outbound loop and
    /// leaves the queue empty; everything else stays put.
    pub fn drain_outbox(&mut self, i: usize) -> (r: Vec<Packet>)
        requires
            old(self).wf(),
            i < old(self).conns@.len(),
        ensures
            final(self).wf(),
            r@.map_values(|p: Packet| p@) == outbox_view(old(self).conns@[i as int]),
            final(self).conns@.len() == old(self).conns@.len(),
            forall|j: int|
                0 <= j < old(self).conns@.len() && j != i ==> #[trigger] final(self).conns@[j]
                    == old(self).conns@[j],
            final(self).conns@[i as int].id == old(self).conns@[i as int].id,
            final(self).conns@[i as int].last_seen_ms == old(self).conns@[i as int].last_seen_ms,
            final(self).conns@[i as int].outbox@.len() == 0,
    {
        let ghost orig = self.conns@;
        let mut c = self.conns.remove(i);
        let out = c.outbox;
        c.outbox = Vec::new();
        self.conns.insert(i, c);
        proof {
            assert(self.conns@ =~= orig.update(i as int, self.conns@[i as int]));
            assert(outbox_view(self.conns@[i as int]) =~= Seq::<PacketV>::empty());
        }
        out
    }

    /// Publishes one report from connection `from`:    /// Publishes one report from connection `from`: stamps the sender's
    /// identity into it, refreshes the sender's activity clock, and
    /// delivers the stamped report to every subscribed connection —
    /// the sender included. This is the relay fan-out: every connection
    /// observes the report, carrying exactly the identity assigned to
    /// the sender at connect time.
    pub fn publish(&mut self, from: usize, pkt: &Packet, now_ms: u64)
        requires
            old(self).wf(),
            from < old(self).conns@.len(),
            wf_packet(pkt@),
        ensures
            final(self).wf(),
            final(self).conns@.len() == old(self).conns@.len(),
            forall|j: int|
                0 <= j < final(self).conns@.len() ==> #[trigger] final(self).conns@[j].id@ == old(
                    self,
                ).conns@[j].id@,
            forall|j: int|
                0 <= j < final(self).conns@.len() ==> outbox_view(#[trigger] final(self).conns@[j])
                    == spec_deliver(
                    outbox_view(old(self).conns@[j]),
                    spec_stamp(pkt@, old(self).conns@[from as int].id@),
                ),
            final(self).conns@[from as int].last_seen_ms == now_ms,
            forall|j: int|
                0 <= j < final(self).conns@.len() && j != from
                    ==> #[trigger] final(self).conns@[j].last_seen_ms == old(
                    self,
                ).conns@[j].last_seen_ms,
    {
        let ghost orig = self.conns@;
        let ghost stamped_v = spec_stamp(pkt@, old(self).conns@[from as int].id@);
        proof {
            assert(wf_packet(stamped_v));
        }
        let sender_id = clone_bytes(&self.conns[from].id);
        let mut j: usize = 0;
        while j < self.conns.len()
            invariant
                j <= self.conns@.len(),
                self.conns@.len() == orig.len(),
                from < orig.len(),
                sender_id@ == orig[from as int].id@,
                wf_packet(pkt@),
                stamped_v == spec_stamp(pkt@, orig[from as int].id@),
                forall|m: int| j <= m < orig.len() ==> #[trigger] self.conns@[m] == orig[m],
                forall|m: int|
                    0 <= m < j ==> (#[trigger] self.conns@[m]).id@ == orig[m].id@
                        && self.conns@[m].last_seen_ms == orig[m].last_seen_ms && outbox_view(
                        self.conns@[m],
                    ) == spec_deliver(outbox_view(orig[m]), stamped_v),
            decreases self.conns@.len() - j,
        {
            let ghost pre = self.conns@;
            let ghost before = outbox_view(orig[j as int]);
            let stamped = stamp_packet(pkt, &sender_id);
            let mut c = self.conns.remove(j);
            proof {
                assert(c == orig[j as int]);
                assert(outbox_view(c) == before);
            }
            if c.outbox.len() >= SUBSCRIBER_BACKLOG {
                c.outbox.remove(0);
            }
            c.outbox.push(stamped);
            proof {
                assert(stamped@ == stamped_v);
                if before.len() < SUBSCRIBER_BACKLOG {
                    assert(outbox_view(c) =~~= before.push(stamped_v));
                } else {
                    assert(outbox_view(c) =~~= before.drop_first().push(stamped_v));
                }
                assert(outbox_view(c) == spec_deliver(before, stamped_v));
                assert(c.id@ == orig[j as int].id@);
                assert(c.last_seen_ms == orig[j as int].last_seen_ms);
            }
            self.conns.insert(j, c);
            proof {
                assert(self.conns@ =~= pre.update(j as int, c));
                assert forall|m: int|
                    0 <= m < j + 1 implies (#[trigger] self.conns@[m]).id@ == orig[m].id@
                    && self.conns@[m].last_seen_ms == orig[m].last_seen_ms && outbox_view(
                    self.conns@[m],
                ) == spec_deliver(outbox_view(orig[m]), stamped_v) by {
                    if m < j {
                        assert(self.conns@[m] == pre[m]);
                    } else {
                        assert(self.conns@[m] == c);
                    }
                }
            }
            j = j + 1;
        }
        // refresh the sender's activity clock
        let ghost mid = self.conns@;
        let mut c = self.conns.remove(from);
        c.last_seen_ms = now_ms;
        self.conns.insert(from, c);
        proof {
            assert(self.conns@ =~= mid.update(from as int, c));
            assert(forall|m: int|
                0 <= m < self.conns@.len() && m != from ==> #[trigger] self.conns@[m] == mid[m]);
            assert(self.conns@[from as int].id == mid[from as int].id);
            assert(self.conns@[from as int].outbox == mid[from as int].outbox);
            assert(outbox_view(self.conns@[from as int]) == outbox_view(mid[from as int]));
            assert forall|i2: int, k: int|
                0 <= i2 < self.conns@.len() && 0 <= k < outbox_view(
                    #[trigger] self.conns@[i2],
                ).len() implies wf_packet(#[trigger] outbox_view(self.conns@[i2])[k]) by {
                assert(outbox_view(self.conns@[i2]) == spec_deliver(
                    outbox_view(orig[i2]),
                    stamped_v,
                ));
            }
        }
    }

    /// One inbound message from connection `from`, exactly as the relay
    /// treats it: the sender's activity clock is refreshed whatever the
    /// bytes hold; a well-formed report is stamped and fanned out; a
    /// malformed payload is dropped silently, leaving every queue as it
    /// was.
    pub fn handle_inbound(&mut self, from: usize, raw: &Vec<u8>, now_ms: u64) -> (delivered: bool)
        requires
            old(self).wf(),
            from < old(self).conns@.len(),
        ensures
            final(self).wf(),
            final(self).conns@.len() == old(self).conns@.len(),
            forall|j: int|
                0 <= j < final(self).conns@.len() ==> #[trigger] final(self).conns@[j].id@ == old(
                    self,
                ).conns@[j].id@,
            final(self).conns@[from as int].last_seen_ms == now_ms,
            forall|j: int|
                0 <= j < final(self).conns@.len() && j != from
                    ==> #[trigger] final(self).conns@[j].last_seen_ms == old(
                    self,
                ).conns@[j].last_seen_ms,
            delivered == exists|qv: PacketV| wf_packet(qv) && raw@ == spec_enc(qv),
            delivered ==> forall|j: int|
                0 <= j < final(self).conns@.len() ==> outbox_view(#[trigger] final(self).conns@[j])
                    == spec_deliver(
                    outbox_view(old(self).conns@[j]),
                    spec_stamp(
                        choose|qv: PacketV| wf_packet(qv) && raw@ == spec_enc(qv),
                        old(self).conns@[from as int].id@,
                    ),
                ),
            !delivered ==> forall|j: int|
                0 <= j < final(self).conns@.len() ==> outbox_view(#[trigger] final(self).conns@[j])
                    == outbox_view(old(self).conns@[j]),
    {
        match decode_packet(raw) {
            Some(pkt) => {
                proof {
                    assert(wf_packet(pkt@) && raw@ == spec_enc(pkt@));
                    let qv = choose|qv: PacketV| wf_packet(qv) && raw@ == spec_enc(qv);
                    assert(spec_stamp(qv, old(self).conns@[from as int].id@) == spec_stamp(
                        pkt@,
                        old(self).conns@[from as int].id@,
                    ));
                }
                self.publish(from, &pkt, now_ms);
                true
            },
            None => {
                let ghost mid = self.conns@;
                let mut c = self.conns.remove(from);
                c.last_seen_ms = now_ms;
                self.conns.insert(from, c);
                proof {
                    assert(self.conns@ =~= mid.update(from as int, c));
                    assert(forall|m: int|
                        0 <= m < self.conns@.len() && m != from ==> #[trigger] self.conns@[m]
                            == mid[m]);
                    assert(self.conns@[from as int].id == mid[from as int].id);
                    assert(self.conns@[from as int].outbox == mid[from as int].outbox);
                    assert(outbox_view(self.conns@[from as int]) == outbox_view(
                        mid[from as int],
                    ));
                    if exists|qv: PacketV| wf_packet(qv) && raw@ == spec_enc(qv) {
                        let qv = choose|qv: PacketV| wf_packet(qv) && raw@ == spec_enc(qv);
                        assert(false);
                    }
                }
                false
            },
        }
    }

    /// Whether the watchdog evicts connection `i` at time `now_ms`:
    /// exactly when its inbound silence has exceeded the timeout window.
    pub fn watchdog_check(&self, i: usize, now_ms: u64) -> (evict: bool)
        requires
            i < self.conns@.len(),
            self.conns@[i as int].last_seen_ms <= now_ms,
        ensures
            evict == spec_should_evict(self.conns@[i as int].last_seen_ms, now_ms),
    {
        now_ms - self.conns[i].last_seen_ms > WATCHDOG_TIMEOUT_MS
    }

    /// Tears connection `i` down: eviction and a closed transport both
    /// end here.
    pub fn disconnect(&mut self, i: usize)
        requires
            old(self).wf(),
            i < old(self).conns@.len(),
        ensures
            final(self).wf(),
            final(self).conns@ == old(self).conns@.remove(i as int),
    {
        self.conns.remove(i);
        proof {
            assert forall|a: int, b: int|
                0 <= a < b < self.conns@.len() implies #[trigger] self.conns@[a].id@
                != #[trigger] self.conns@[b].id@ by {
                let oa = if a < i { a } else { a + 1 };
                let ob = if b < i { b } else { b + 1 };
                assert(self.conns@[a] == old(self).conns@[oa]);
                assert(self.conns@[b] == old(self).conns@[ob]);
            }
        }
    }
}

/// The eviction rule: silence longer than the watchdog window.
pub open spec fn spec_should_evict(last_seen_ms: u64, now_ms: u64) -> bool {
    now_ms - last_seen_ms > WATCHDOG_TIMEOUT_MS
}

/// Message times never decrease.
pub open spec fn times_sorted(msgs: Seq<u64>) -> bool {
    forall|i: int, j: int| 0 <= i <= j < msgs.len() ==> msgs[i] <= msgs[j]
}

/// No two consecutive messages are further apart than the watchdog window.
pub open spec fn gaps_within_window(msgs: Seq<u64>) -> bool {
    forall|i: int| 0 <= i < msgs.len() - 1 ==> #[trigger] msgs[i + 1] - msgs[i] <= WATCHDOG_TIMEOUT_MS
}

/// The last activity the watchdog sees at time `t`: the latest message
/// time not after `t`.
pub open spec fn spec_last_activity(msgs: Seq<u64>, t: u64) -> u64
    decreases msgs.len(),
{
    if msgs.len() == 0 {
        0u64
    } else if msgs.last() <= t {
        msgs.last()
    } else {
        spec_last_activity(msgs.drop_last(), t)
    }
}

/// A connection that sends at least one message within every watchdog
/// window is never evicted: at any check time from the first message to
/// one window past the last, the observed silence is within the window.
pub proof fn lemma_watchdog_liveness(msgs: Seq<u64>, t: u64)
    requires
        msgs.len() > 0,
        times_sorted(msgs),
        gaps_within_window(msgs),
        msgs[0] <= t,
        t <= msgs.last() + WATCHDOG_TIMEOUT_MS,
    ensures
        spec_last_activity(msgs, t) <= t,
        !spec_should_evict(spec_last_activity(msgs, t), t),
    decreases msgs.len(),
{
    if msgs.last() <= t {
    } else {
        assert(msgs.len() > 1);
        let shorter = msgs.drop_last();
        assert(shorter.len() == msgs.len() - 1);
        assert(forall|i: int|
            0 <= i < shorter.len() ==> #[trigger] shorter[i] == msgs[i]);
        let n = msgs.len() as int;
        assert(msgs[n - 2 + 1] - msgs[n - 2] <= WATCHDOG_TIMEOUT_MS);
        assert(msgs.last() == msgs[n - 2 + 1]);
        assert(t <= shorter.last() + WATCHDOG_TIMEOUT_MS);
        lemma_watchdog_liveness(shorter, t);
    }
}

/// A connection whose silence has outlasted the window is evicted at the
/// next check.
pub proof fn lemma_watchdog_eviction(last_seen_ms: u64, now_ms: u64)
    requires
        last_seen_ms <= now_ms,
        now_ms - last_seen_ms > WATCHDOG_TIMEOUT_MS,
    ensures
        spec_should_evict(last_seen_ms, now_ms),
{
}

} // verus!
