//! Client-side peer state: the last reported target position per remote
//! participant, the rendered position the interpolator advances, and the
//! self entity. Inbound reports land here; the per-frame tick moves every
//! rendered position toward its target and yields the audio parameters
//! for the self voice.

use vstd::prelude::*;
use crate::audio::{map_speed_to_audio, spec_frequency_milli_hz, spec_gain_milli, AudioParams};
use crate::motion::{
    in_bounds, interp_step, spec_interp_step, spec_speed_scalar, speed_scalar_milli, Pos,
    COORD_LIMIT_MILLI_PX,
};
use crate::trail::{spec_prune, Trail, TrailPoint};
use crate::wire::{bytes_eq, bytes_ok, wf_packet, Packet, COORD_UNIT_PER_MYRIA, COORD_WIRE_LIMIT};

verus! {

/// Viewports are kept within this many milli-pixels so that scaling a
/// wire coordinate stays on the surface.
pub const VIEWPORT_LIMIT_MILLI_PX: i64 = 0x400_0000;

/// One tracked remote participant.
pub struct PeerEntry {
    pub target: Pos,
    pub rendered: Pos,
    pub color: Vec<u8>,
}

/// Everything the client mutates between frames: the self entity, the
/// learned own identity, and the peer table keyed by identity.
pub struct ClientState {
    pub my_color: Vec<u8>,
    pub my_id: Option<Vec<u8>>,
    pub viewport_w_milli_px: i64,
    pub viewport_h_milli_px: i64,
    pub self_target: Pos,
    pub self_rendered: Pos,
    pub peers: Vec<(Vec<u8>, PeerEntry)>,
    pub trails: Vec<Trail>,
    pub my_trail: Trail,
    pub last_tick_ms: Option<u64>,
}

/// Every recorded point of the trail is from time `bound` or earlier.
pub open spec fn trail_times_at_most(t: Trail, bound: u64) -> bool {
    forall|i: int| 0 <= i < t@.len() ==> #[trigger] t@[i].t_ms <= bound
}

/// The time bound the next tick must respect: the last tick, or the dawn
/// of the session.
pub open spec fn spec_time_floor(last: Option<u64>) -> u64 {
    match last {
        Some(l) => l,
        None => 0u64,
    }
}

/// Elapsed time for a tick at `now`: zero on the very first tick.
pub open spec fn spec_dt(last: Option<u64>, now: u64) -> u64 {
    match last {
        Some(l) => (now - l) as u64,
        None => 0u64,
    }
}

impl ClientState {
    /// Well-formed: a sane viewport, positions on the surface, and one
    /// peer entry per identity.
    pub open spec fn wf(&self) -> bool {
        &&& bytes_ok(self.my_color@)
        &&& 0 < self.viewport_w_milli_px <= VIEWPORT_LIMIT_MILLI_PX
        &&& 0 < self.viewport_h_milli_px <= VIEWPORT_LIMIT_MILLI_PX
        &&& in_bounds(self.self_target)
        &&& in_bounds(self.self_rendered)
        &&& forall|k: int|
            0 <= k < self.peers@.len() ==> in_bounds((#[trigger] self.peers@[k]).1.target)
                && in_bounds(self.peers@[k].1.rendered)
        &&& forall|a: int, b: int|
            0 <= a < b < self.peers@.len() ==> (#[trigger] self.peers@[a]).0@ != (
            #[trigger] self.peers@[b]).0@
        &&& self.trails@.len() == self.peers@.len()
        &&& forall|k: int|
            0 <= k < self.trails@.len() ==> (#[trigger] self.trails@[k]).wf()
                && trail_times_at_most(self.trails@[k], spec_time_floor(self.last_tick_ms))
        &&& self.my_trail.wf()
        &&& trail_times_at_most(self.my_trail, spec_time_floor(self.last_tick_ms))
    }

    /// A fresh client: both self positions at the given start point, no
    /// identity learned, no peers.
    pub fn new(my_color: Vec<u8>, viewport_w_milli_px: i64, viewport_h_milli_px: i64, start: Pos)
        -> (r: ClientState)
        requires
            bytes_ok(my_color@),
            0 < viewport_w_milli_px <= VIEWPORT_LIMIT_MILLI_PX,
            0 < viewport_h_milli_px <= VIEWPORT_LIMIT_MILLI_PX,
            in_bounds(start),
        ensures
            r.wf(),
            r.my_color@ == my_color@,
            r.my_id is None,
            r.peers@.len() == 0,
            r.self_target == start,
            r.self_rendered == start,
            r.my_trail@.len() == 0,
            r.last_tick_ms is None,
    {
        let r = ClientState {
            my_color,
            my_id: None,
            viewport_w_milli_px,
            viewport_h_milli_px,
            self_target: start,
            self_rendered: start,
            peers: Vec::new(),
            trails: Vec::new(),
            my_trail: Trail::new(),
            last_tick_ms: None,
        };
        r
    }

    /// The index holding `id`, if any.
    fn find(&self, id: &Vec<u8>) -> (r: Option<usize>)
        ensures
            match r {
                Some(k) => k < self.peers@.len() && self.peers@[k as int].0@ == id@,
                None => forall|k: int|
                    0 <= k < self.peers@.len() ==> (#[trigger] self.peers@[k]).0@ != id@,
            },
    {
        let mut k: usize = 0;
        while k < self.peers.len()
            invariant
                k <= self.peers@.len(),
                forall|m: int| 0 <= m < k ==> (#[trigger] self.peers@[m]).0@ != id@,
            decreases self.peers@.len() - k,
        {
            if bytes_eq(&self.peers[k].0, id) {
                return Some(k);
            }
            k = k + 1;
        }
        None
    }
}

/// A wire coordinate scaled to the local viewport: `norm / 10000` of the
/// extent, rounded down.
pub open spec fn spec_to_local(norm: u64, extent_milli_px: i64) -> int {
    (norm * extent_milli_px) as int / (COORD_UNIT_PER_MYRIA as int)
}

/// Scales one wire coordinate to this viewport.
fn to_local(norm: u64, extent_milli_px: i64) -> (r: i64)
    requires
        norm < crate::wire::COORD_WIRE_LIMIT,
        0 < extent_milli_px <= VIEWPORT_LIMIT_MILLI_PX,
    ensures
        r == spec_to_local(norm, extent_milli_px),
        0 <= r <= COORD_LIMIT_MILLI_PX,
{
    proof {
        assert(norm * extent_milli_px <= 100_000 * 0x400_0000) by (nonlinear_arith)
            requires
                norm <= 100_000,
                0 < extent_milli_px <= 0x400_0000,
        ;
        assert(norm * extent_milli_px >= 0) by (nonlinear_arith)
            requires
                norm >= 0,
                extent_milli_px > 0,
        ;
        vstd::arithmetic::div_mod::lemma_div_is_ordered(
            norm * extent_milli_px,
            (100_000 * 0x400_0000) as int,
            10_000,
        );
        vstd::arithmetic::div_mod::lemma_div_pos_is_pos(norm * extent_milli_px, 10_000);
    }
    let wide: u64 = norm * (extent_milli_px as u64);
    let r: u64 = wide / COORD_UNIT_PER_MYRIA;
    r as i64
}


/// A local coordinate normalized to the sender's viewport, in wire units
/// of 1/10000, clamped into the encodable range.
pub open spec fn spec_normalize(x: int, extent_milli_px: int) -> u64 {
    if x <= 0 {
        0u64
    } else if x * (COORD_UNIT_PER_MYRIA as int) / extent_milli_px >= COORD_WIRE_LIMIT {
        (COORD_WIRE_LIMIT - 1) as u64
    } else {
        (x * (COORD_UNIT_PER_MYRIA as int) / extent_milli_px) as u64
    }
}

/// Normalizes one local coordinate for the wire.
fn normalize(x: i64, extent_milli_px: i64) -> (r: u64)
    requires
        -COORD_LIMIT_MILLI_PX <= x <= COORD_LIMIT_MILLI_PX,
        0 < extent_milli_px <= VIEWPORT_LIMIT_MILLI_PX,
    ensures
        r == spec_normalize(x as int, extent_milli_px as int),
        r < COORD_WIRE_LIMIT,
{
    if x <= 0 {
        return 0;
    }
    let wide: u64 = (x as u64) * COORD_UNIT_PER_MYRIA;
    let n: u64 = wide / (extent_milli_px as u64);
    if n >= COORD_WIRE_LIMIT {
        COORD_WIRE_LIMIT - 1
    } else {
        n
    }
}

/// The report teaches the client its own identity: no identity is known
/// yet and the reported color is the locally chosen one.
pub open spec fn spec_learns_self(s: ClientState, p: crate::wire::PacketV) -> bool {
    s.my_id is None && p.color == s.my_color@
}

/// The report is the client's own echo: an identity is known and the
/// report carries it.
pub open spec fn spec_own_echo(s: ClientState, p: crate::wire::PacketV) -> bool {
    &&& !spec_learns_self(s, p)
    &&& match s.my_id {
        Some(m) => m@ == p.id,
        None => false,
    }
}

/// The reported identity already has a peer entry.
pub open spec fn spec_tracked(s: ClientState, p: crate::wire::PacketV) -> bool {
    exists|k: int| 0 <= k < s.peers@.len() && (#[trigger] s.peers@[k]).0@ == p.id
}

/// What one inbound report does to the client state.
pub enum ReportOutcome {
    /// The report's color matched the local color before any identity was
    /// known: the client learns its own relay-assigned identity from it.
    LearnedSelf,
    /// The report carries the client's own identity: ignored for peer
    /// tracking.
    OwnEcho,
    /// An already-tracked peer: its target and color were overwritten.
    UpdatedPeer,
    /// A first report from an unseen identity: a new entry, rendered
    /// position initialized at the target so the first frame does not
    /// sweep in from an undefined origin.
    NewPeer,
}

impl ClientState {
    /// Feeds one decoded report into the peer table, exactly as the
    /// render loop's message callback does: learn the own identity by
    /// color match once, drop own echoes, and otherwise insert or
    /// overwrite that identity's target, scaled to this viewport.
    pub fn on_report(&mut self, pkt: &Packet) -> (outcome: ReportOutcome)
        requires
            old(self).wf(),
            wf_packet(pkt@),
        ensures
            final(self).wf(),
            final(self).my_color@ == old(self).my_color@,
            final(self).viewport_w_milli_px == old(self).viewport_w_milli_px,
            final(self).viewport_h_milli_px == old(self).viewport_h_milli_px,
            final(self).self_target == old(self).self_target,
            final(self).self_rendered == old(self).self_rendered,
            final(self).my_trail == old(self).my_trail,
            final(self).last_tick_ms == old(self).last_tick_ms,
            (outcome is LearnedSelf) <==> spec_learns_self(*old(self), pkt@),
            (outcome is OwnEcho) <==> spec_own_echo(*old(self), pkt@),
            (outcome is UpdatedPeer) <==> (!spec_learns_self(*old(self), pkt@) && !spec_own_echo(
                *old(self),
                pkt@,
            ) && spec_tracked(*old(self), pkt@)),
            (outcome is NewPeer) <==> (!spec_learns_self(*old(self), pkt@) && !spec_own_echo(
                *old(self),
                pkt@,
            ) && !spec_tracked(*old(self), pkt@)),
            match outcome {
                ReportOutcome::LearnedSelf => {
                    &&& old(self).my_id is None
                    &&& pkt.color@ == old(self).my_color@
                    &&& final(self).my_id matches Some(id) && id@ == pkt.id@
                    &&& final(self).peers@ == old(self).peers@
                    &&& final(self).trails@ == old(self).trails@
                },
                ReportOutcome::OwnEcho => {
                    &&& old(self).my_id matches Some(id) && id@ == pkt.id@
                    &&& final(self).my_id == old(self).my_id
                    &&& final(self).peers@ == old(self).peers@
                    &&& final(self).trails@ == old(self).trails@
                },
                ReportOutcome::UpdatedPeer => {
                    &&& final(self).my_id == old(self).my_id
                    &&& final(self).trails@ == old(self).trails@
                    &&& final(self).peers@.len() == old(self).peers@.len()
                    &&& exists|k: int|
                        0 <= k < old(self).peers@.len() && (#[trigger] old(self).peers@[k]).0@
                            == pkt.id@ && (forall|m: int|
                            0 <= m < old(self).peers@.len() && m != k
                                ==> #[trigger] final(self).peers@[m] == old(self).peers@[m])
                            && final(self).peers@[k].0 == old(self).peers@[k].0
                            && final(self).peers@[k].1.rendered == old(self).peers@[k].1.rendered
                            && final(self).peers@[k].1.color@ == pkt.color@
                            && final(self).peers@[k].1.target == (
                        Pos {
                            x_milli_px: spec_to_local(
                                pkt.x_per_myria,
                                old(self).viewport_w_milli_px,
                            ) as i64,
                            y_milli_px: spec_to_local(
                                pkt.y_per_myria,
                                old(self).viewport_h_milli_px,
                            ) as i64,
                        })
                },
                ReportOutcome::NewPeer => {
                    &&& final(self).my_id == old(self).my_id
                    &&& final(self).trails@.len() == old(self).trails@.len() + 1
                    &&& forall|k: int|
                        0 <= k < old(self).trails@.len() ==> #[trigger] final(self).trails@[k]
                            == old(self).trails@[k]
                    &&& final(self).trails@.last()@.len() == 0
                    &&& (forall|k: int|
                        0 <= k < old(self).peers@.len() ==> (#[trigger] old(self).peers@[k]).0@
                            != pkt.id@)
                    &&& final(self).peers@.len() == old(self).peers@.len() + 1
                    &&& forall|k: int|
                        0 <= k < old(self).peers@.len() ==> #[trigger] final(self).peers@[k]
                            == old(self).peers@[k]
                    &&& final(self).peers@.last().0@ == pkt.id@
                    &&& final(self).peers@.last().1.color@ == pkt.color@
                    &&& final(self).peers@.last().1.rendered == final(self).peers@.last().1.target
                    &&& final(self).peers@.last().1.target == (Pos {
                        x_milli_px: spec_to_local(
                            pkt.x_per_myria,
                            old(self).viewport_w_milli_px,
                        ) as i64,
                        y_milli_px: spec_to_local(
                            pkt.y_per_myria,
                            old(self).viewport_h_milli_px,
                        ) as i64,
                    })
                },
            },
    {
        let learned = match &self.my_id {
            None => bytes_eq(&pkt.color, &self.my_color),
            Some(_) => false,
        };
        if learned {
            self.my_id = Some(crate::wire::clone_bytes(&pkt.id));
            return ReportOutcome::LearnedSelf;
        }
        let own = match &self.my_id {
            Some(mine) => bytes_eq(mine, &pkt.id),
            None => false,
        };
        if own {
            return ReportOutcome::OwnEcho;
        }
        let target = Pos {
            x_milli_px: to_local(pkt.x_per_myria, self.viewport_w_milli_px),
            y_milli_px: to_local(pkt.y_per_myria, self.viewport_h_milli_px),
        };
        match self.find(&pkt.id) {
            Some(k) => {
                let ghost pre = self.peers@;
                let entry = self.peers.remove(k);
                let (key, e) = entry;
                let updated = PeerEntry {
                    target,
                    rendered: e.rendered,
                    color: crate::wire::clone_bytes(&pkt.color),
                };
                self.peers.insert(k, (key, updated));
                proof {
                    assert(self.peers@ =~= pre.update(k as int, self.peers@[k as int]));
                    assert((#[trigger] pre[k as int]).0@ == pkt.id@);
                    assert(forall|m: int|
                        0 <= m < pre.len() && m != k ==> #[trigger] self.peers@[m] == pre[m]);
                }
                ReportOutcome::UpdatedPeer
            },
            None => {
                let id = crate::wire::clone_bytes(&pkt.id);
                let color = crate::wire::clone_bytes(&pkt.color);
                self.peers.push((id, PeerEntry { target, rendered: target, color }));
                self.trails.push(Trail::new());
                ReportOutcome::NewPeer
            },
        }
    }

    /// One animation tick at time `now_ms`: every peer's rendered
    /// position, then the self entity's, advances toward its target by
    /// the motion law over the time elapsed since the previous tick
    /// (zero on the very first tick); every entity's trail records the
    /// new rendered position and sheds its expired points; targets,
    /// colors and identities stay put. Returns the oscillator parameters
    /// for the self voice, derived from the self entity's remaining
    /// distance as the speed scalar.
    pub fn tick(&mut self, now_ms: u64) -> (audio: AudioParams)
        requires
            old(self).wf(),
            now_ms >= spec_time_floor(old(self).last_tick_ms),
        ensures
            final(self).wf(),
            final(self).my_color@ == old(self).my_color@,
            final(self).my_id == old(self).my_id,
            final(self).viewport_w_milli_px == old(self).viewport_w_milli_px,
            final(self).viewport_h_milli_px == old(self).viewport_h_milli_px,
            final(self).self_target == old(self).self_target,
            final(self).last_tick_ms == Some(now_ms),
            final(self).peers@.len() == old(self).peers@.len(),
            final(self).trails@.len() == old(self).trails@.len(),
            forall|k: int|
                0 <= k < old(self).peers@.len() ==> (#[trigger] final(self).peers@[k]).0
                    == old(self).peers@[k].0 && final(self).peers@[k].1.color
                    == old(self).peers@[k].1.color && final(self).peers@[k].1.target == old(
                    self,
                ).peers@[k].1.target,
            forall|k: int|
                0 <= k < old(self).peers@.len() ==> (#[trigger] final(self).peers@[k]).1.rendered
                    == spec_interp_step(
                    old(self).peers@[k].1.rendered,
                    old(self).peers@[k].1.target,
                    spec_dt(old(self).last_tick_ms, now_ms),
                ),
            final(self).self_rendered == spec_interp_step(
                old(self).self_rendered,
                old(self).self_target,
                spec_dt(old(self).last_tick_ms, now_ms),
            ),
            forall|k: int|
                0 <= k < old(self).trails@.len() ==> (#[trigger] final(self).trails@[k])@
                    == spec_prune(
                    old(self).trails@[k]@.push(
                        TrailPoint {
                            x_milli_px: final(self).peers@[k].1.rendered.x_milli_px,
                            y_milli_px: final(self).peers@[k].1.rendered.y_milli_px,
                            t_ms: now_ms,
                        },
                    ),
                    now_ms,
                ),
            final(self).my_trail@ == spec_prune(
                old(self).my_trail@.push(
                    TrailPoint {
                        x_milli_px: final(self).self_rendered.x_milli_px,
                        y_milli_px: final(self).self_rendered.y_milli_px,
                        t_ms: now_ms,
                    },
                ),
                now_ms,
            ),
            audio.gain_milli == spec_gain_milli(
                spec_speed_scalar(
                    old(self).self_rendered,
                    old(self).self_target,
                    spec_dt(old(self).last_tick_ms, now_ms),
                ) as nat,
            ),
            audio.frequency_milli_hz == spec_frequency_milli_hz(
                spec_speed_scalar(
                    old(self).self_rendered,
                    old(self).self_target,
                    spec_dt(old(self).last_tick_ms, now_ms),
                ) as nat,
            ),
    {
        let dt_ms: u64 = match self.last_tick_ms {
            Some(l) => now_ms - l,
            None => 0,
        };
        let ghost orig = self.peers@;
        let mut k: usize = 0;
        while k < self.peers.len()
            invariant
                old(self).wf(),
                k <= orig.len(),
                self.peers@.len() == orig.len(),
                orig == old(self).peers@,
                dt_ms == spec_dt(old(self).last_tick_ms, now_ms),
                self.my_color@ == old(self).my_color@,
                self.my_id == old(self).my_id,
                self.viewport_w_milli_px == old(self).viewport_w_milli_px,
                self.viewport_h_milli_px == old(self).viewport_h_milli_px,
                self.self_target == old(self).self_target,
                self.self_rendered == old(self).self_rendered,
                self.trails@ == old(self).trails@,
                self.my_trail == old(self).my_trail,
                self.last_tick_ms == old(self).last_tick_ms,
                forall|m: int| k <= m < orig.len() ==> #[trigger] self.peers@[m] == orig[m],
                forall|m: int|
                    0 <= m < k ==> (#[trigger] self.peers@[m]).0 == orig[m].0
                        && self.peers@[m].1.color == orig[m].1.color && self.peers@[m].1.target
                        == orig[m].1.target && self.peers@[m].1.rendered == spec_interp_step(
                        orig[m].1.rendered,
                        orig[m].1.target,
                        dt_ms,
                    ),
                forall|m: int|
                    0 <= m < self.peers@.len() ==> in_bounds(
                        (#[trigger] self.peers@[m]).1.target,
                    ) && in_bounds(self.peers@[m].1.rendered),
            decreases orig.len() - k,
        {
            let ghost pre = self.peers@;
            let entry = self.peers.remove(k);
            let (key, e) = entry;
            let next = interp_step(e.rendered, e.target, dt_ms);
            self.peers.insert(
                k,
                (key, PeerEntry { target: e.target, rendered: next, color: e.color }),
            );
            proof {
                assert(self.peers@ =~= pre.update(k as int, self.peers@[k as int]));
            }
            k = k + 1;
        }
        let speed = speed_scalar_milli(self.self_rendered, self.self_target, dt_ms);
        self.self_rendered = interp_step(self.self_rendered, self.self_target, dt_ms);

        let ghost peers_after = self.peers@;
        let ghost trails_orig = self.trails@;
        let mut k2: usize = 0;
        while k2 < self.trails.len()
            invariant
                old(self).wf(),
                now_ms >= spec_time_floor(old(self).last_tick_ms),
                k2 <= trails_orig.len(),
                self.trails@.len() == trails_orig.len(),
                trails_orig == old(self).trails@,
                trails_orig.len() == peers_after.len(),
                self.peers@ == peers_after,
                self.my_color@ == old(self).my_color@,
                self.my_id == old(self).my_id,
                self.viewport_w_milli_px == old(self).viewport_w_milli_px,
                self.viewport_h_milli_px == old(self).viewport_h_milli_px,
                self.self_target == old(self).self_target,
                self.self_rendered == spec_interp_step(
                    old(self).self_rendered,
                    old(self).self_target,
                    spec_dt(old(self).last_tick_ms, now_ms),
                ),
                self.my_trail == old(self).my_trail,
                self.last_tick_ms == old(self).last_tick_ms,
                forall|m: int| k2 <= m < trails_orig.len() ==> #[trigger] self.trails@[m]
                    == trails_orig[m],
                forall|m: int|
                    0 <= m < k2 ==> (#[trigger] self.trails@[m]).wf() && trail_times_at_most(
                        self.trails@[m],
                        now_ms,
                    ) && self.trails@[m]@ == spec_prune(
                        trails_orig[m]@.push(
                            TrailPoint {
                                x_milli_px: peers_after[m].1.rendered.x_milli_px,
                                y_milli_px: peers_after[m].1.rendered.y_milli_px,
                                t_ms: now_ms,
                            },
                        ),
                        now_ms,
                    ),
            decreases trails_orig.len() - k2,
        {
            let pr_x = self.peers[k2].1.rendered.x_milli_px;
            let pr_y = self.peers[k2].1.rendered.y_milli_px;
            let ghost pre = self.trails@;
            let mut t = self.trails.remove(k2);
            let _dropped = t.record(pr_x, pr_y, now_ms);
            self.trails.insert(k2, t);
            proof {
                assert(self.trails@ =~= pre.update(k2 as int, self.trails@[k2 as int]));
            }
            k2 = k2 + 1;
        }
        let _dropped = self.my_trail.record(
            self.self_rendered.x_milli_px,
            self.self_rendered.y_milli_px,
            now_ms,
        );
        self.last_tick_ms = Some(now_ms);
        map_speed_to_audio(speed)
    }

    /// The outbound report for the local pointer target, as the pointer
    /// handler sends it: identity left empty for the relay to fill, the
    /// local color, the target normalized to this viewport, no extras.
    pub fn make_self_report(&self) -> (r: Packet)
        requires
            self.wf(),
        ensures
            wf_packet(r@),
            r@.id.len() == 0,
            r@.color == self.my_color@,
            r@.extra.len() == 0,
            r.x_per_myria == spec_normalize(
                self.self_target.x_milli_px as int,
                self.viewport_w_milli_px as int,
            ),
            r.y_per_myria == spec_normalize(
                self.self_target.y_milli_px as int,
                self.viewport_h_milli_px as int,
            ),
    {
        Packet {
            id: Vec::new(),
            color: crate::wire::clone_bytes(&self.my_color),
            x_per_myria: normalize(self.self_target.x_milli_px, self.viewport_w_milli_px),
            y_per_myria: normalize(self.self_target.y_milli_px, self.viewport_h_milli_px),
            extra: Vec::new(),
        }
    }
}

} // verus!
