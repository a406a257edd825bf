//! Trail manager: per entity, a time-bounded FIFO of past rendered
//! positions. Every tick appends the current rendered position and prunes
//! from the front every point older than the trail lifetime, so the trail
//! reads as a comet fading to nothing at the lifetime boundary.

use vstd::prelude::*;

verus! {

/// Lifetime of a trail point in milliseconds.
pub const TRAIL_LIFE_MS: u64 = 1_000;

/// Radius of a fully opaque trail disc, in milli-pixels (20 px).
pub const TRAIL_RADIUS_MILLI_PX: u64 = 20_000;

/// One past rendered position with the tick time it was recorded at.
#[derive(Clone, Copy, PartialEq, Eq, Structural, Debug)]
pub struct TrailPoint {
    pub x_milli_px: i64,
    pub y_milli_px: i64,
    pub t_ms: u64,
}

/// Oldest-first sequence of recent rendered positions for one entity.
pub struct Trail {
    points: Vec<TrailPoint>,
}

/// Timestamps never decrease from front to back.
pub open spec fn sorted_by_time(s: Seq<TrailPoint>) -> bool {
    forall|i: int, j: int| 0 <= i <= j < s.len() ==> s[i].t_ms <= s[j].t_ms
}

/// Drops points from the front as long as the front one's age exceeds the
/// trail lifetime at time `now`.
pub open spec fn spec_prune(s: Seq<TrailPoint>, now: u64) -> Seq<TrailPoint>
    decreases s.len(),
{
    if s.len() == 0 {
        s
    } else if now - s[0].t_ms > TRAIL_LIFE_MS {
        spec_prune(s.drop_first(), now)
    } else {
        s
    }
}

/// Pruning at time `now` keeps exactly a suffix: every dropped point had
/// exceeded the lifetime, every kept point is within it, and the
/// oldest-first order is preserved.
pub proof fn lemma_prune_correct(s: Seq<TrailPoint>, now: u64)
    requires
        sorted_by_time(s),
        forall|i: int| 0 <= i < s.len() ==> #[trigger] s[i].t_ms <= now,
    ensures
        spec_prune(s, now).len() <= s.len(),
        spec_prune(s, now) == s.skip(s.len() - spec_prune(s, now).len()),
        sorted_by_time(spec_prune(s, now)),
        forall|j: int|
            0 <= j < s.len() - spec_prune(s, now).len() ==> now - #[trigger] s[j].t_ms
                > TRAIL_LIFE_MS,
        forall|i: int|
            0 <= i < spec_prune(s, now).len() ==> now - #[trigger] spec_prune(s, now)[i].t_ms
                <= TRAIL_LIFE_MS,
    decreases s.len(),
{
    let r = spec_prune(s, now);
    if s.len() == 0 {
        assert(r == s.skip(0));
    } else if now - s[0].t_ms > TRAIL_LIFE_MS {
        lemma_prune_correct(s.drop_first(), now);
        assert(s.drop_first().skip(s.len() - 1 - r.len()) == s.skip(s.len() - r.len()));
        assert(forall|j: int|
            1 <= j < s.len() - r.len() ==> #[trigger] s[j].t_ms == s.drop_first()[j - 1].t_ms);
    } else {
        assert(r == s.skip(0));
        assert(forall|i: int| 0 <= i < r.len() ==> s[0].t_ms <= #[trigger] r[i].t_ms);
    }
}

impl Trail {
    /// The sequence of recorded points, oldest first.
    pub closed spec fn view(&self) -> Seq<TrailPoint> {
        self.points@
    }

    /// Well-formed: ordered oldest-first by timestamp.
    pub open spec fn wf(&self) -> bool {
        sorted_by_time(self@)
    }

    /// An empty trail.
    pub fn new() -> (r: Trail)
        ensures
            r.wf(),
            r@ =~= Seq::<TrailPoint>::empty(),
    {
        Trail { points: Vec::new() }
    }

    /// The number of points currently held.
    pub fn len(&self) -> (r: usize)
        ensures
            r == self@.len(),
    {
        self.points.len()
    }

    /// The point at position `i`, oldest first.
    pub fn point_at(&self, i: usize) -> (r: TrailPoint)
        requires
            i < self@.len(),
        ensures
            r == self@[i as int],
    {
        self.points[i]
    }

    /// One tick's trail work for this entity: append the current rendered
    /// position at time `now`, then prune every point whose age exceeds
    /// the lifetime. Time never runs backwards within one trail.
    pub fn record(&mut self, x_milli_px: i64, y_milli_px: i64, now: u64) -> (n_dropped: usize)
        requires
            old(self).wf(),
            forall|i: int| 0 <= i < old(self)@.len() ==> #[trigger] old(self)@[i].t_ms <= now,
        ensures
            final(self).wf(),
            final(self)@ == spec_prune(
                old(self)@.push(TrailPoint { x_milli_px, y_milli_px, t_ms: now }),
                now,
            ),
            final(self)@.len() + n_dropped == old(self)@.len() + 1,
            forall|i: int|
                0 <= i < final(self)@.len() ==> now - #[trigger] final(self)@[i].t_ms
                    <= TRAIL_LIFE_MS,
            forall|i: int| 0 <= i < final(self)@.len() ==> #[trigger] final(self)@[i].t_ms <= now,
    {
        let pt = TrailPoint { x_milli_px, y_milli_px, t_ms: now };
        self.points.push(pt);
        let ghost pushed = self.points@;
        proof {
            assert(sorted_by_time(pushed));
            lemma_prune_correct(pushed, now);
        }
        let total: usize = self.points.len();
        while self.points.len() > 0 && now - self.points[0].t_ms > TRAIL_LIFE_MS
            invariant
                sorted_by_time(self.points@),
                forall|i: int| 0 <= i < self.points@.len() ==> #[trigger] self.points@[i].t_ms <= now,
                spec_prune(self.points@, now) == spec_prune(pushed, now),
                self.points@.len() <= total,
                total == pushed.len(),
            decreases self.points@.len(),
        {
            self.points.remove(0);
        }
        proof {
            lemma_prune_correct(self.points@, now);
            assert(spec_prune(self.points@, now) =~= self.points@);
        }
        total - self.points.len()
    }
}

/// Opacity of a trail point of age `now - t_ms`, in per-mille: fades
/// linearly from 1000 at age zero to 0 at the lifetime boundary.
pub open spec fn spec_alpha_per_mille(t_ms: u64, now: u64) -> u64
    recommends
        t_ms <= now,
{
    if now - t_ms >= TRAIL_LIFE_MS {
        0u64
    } else {
        (1000 - (1000 * (now - t_ms)) / TRAIL_LIFE_MS as int) as u64
    }
}

/// Computes a trail point's opacity from its age.
pub fn alpha_per_mille(t_ms: u64, now: u64) -> (r: u64)
    requires
        t_ms <= now,
    ensures
        r == spec_alpha_per_mille(t_ms, now),
        r <= 1000,
{
    let age = now - t_ms;
    if age >= TRAIL_LIFE_MS {
        0
    } else {
        assert(1000 * age <= 1000 * TRAIL_LIFE_MS) by (nonlinear_arith)
            requires
                age <= TRAIL_LIFE_MS,
        ;
        assert((1000 * age) / (TRAIL_LIFE_MS as int) <= 1000) by (nonlinear_arith)
            requires
                age < TRAIL_LIFE_MS,
        ;
        1000 - (1000 * age) / TRAIL_LIFE_MS
    }
}

/// Radius in milli-pixels of a trail disc with the given opacity: shrinks
/// in proportion to the fade.
pub fn trail_radius_milli_px(alpha_per_mille_v: u64) -> (r: u64)
    requires
        alpha_per_mille_v <= 1000,
    ensures
        r == (TRAIL_RADIUS_MILLI_PX * alpha_per_mille_v) / 1000,
        r <= TRAIL_RADIUS_MILLI_PX,
{
    (TRAIL_RADIUS_MILLI_PX * alpha_per_mille_v) / 1000
}

} // verus!
