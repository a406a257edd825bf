use copresence::audio::{
    map_speed_to_audio, BASE_FREQUENCY_MILLI_HZ, GAIN_CEILING_MILLI, MAX_VOLUME_MILLI,
};
use copresence::motion::{euclid_dist_milli, interp_step, isqrt, Pos};
use copresence::trail::{alpha_per_mille, trail_radius_milli_px, Trail, TRAIL_LIFE_MS};

fn pos(x: i64, y: i64) -> Pos {
    Pos { x_milli_px: x, y_milli_px: y }
}

#[test]
fn isqrt_exact_values() {
    assert_eq!(isqrt(0), 0);
    assert_eq!(isqrt(1), 1);
    assert_eq!(isqrt(99), 9);
    assert_eq!(isqrt(100), 10);
    assert_eq!(isqrt(10_000_000_000), 100_000);
    assert_eq!(isqrt(u64::MAX), 0xFFFF_FFFF);
}

#[test]
fn interpolation_concrete_case() {
    // rendered at (0,0), target at (100,0) px, speed factor 0.01, dt = 10 ms
    // -> step = min(100 * 0.01 * 10, 100) = 10 px
    let cur = pos(0, 0);
    let tgt = pos(100_000, 0);
    let next = interp_step(cur, tgt, 10);
    assert_eq!(next.x_milli_px, 10_000);
    assert_eq!(next.y_milli_px, 0);
}

#[test]
fn interpolation_caps_at_target() {
    // a huge dt never steps past the target
    let cur = pos(-5_000, 2_000);
    let tgt = pos(1_000, -3_000);
    let next = interp_step(cur, tgt, 1_000_000);
    assert_eq!(next.x_milli_px, tgt.x_milli_px);
    assert_eq!(next.y_milli_px, tgt.y_milli_px);
}

#[test]
fn interpolation_never_overshoots() {
    let tgt = pos(100_000, 40_000);
    let mut cur = pos(-20_000, 90_000);
    let mut last = euclid_dist_milli(cur, tgt);
    for _ in 0..200 {
        cur = interp_step(cur, tgt, 16);
        let d = euclid_dist_milli(cur, tgt);
        assert!(d <= last, "distance to target grew");
        last = d;
    }
}

#[test]
fn interpolation_idle_cases() {
    let cur = pos(7, 9);
    let tgt = pos(500, 500);
    // dt == 0: no movement
    let still = interp_step(cur, tgt, 0);
    assert_eq!(still.x_milli_px, 7);
    assert_eq!(still.y_milli_px, 9);
    // already at target: no movement
    let parked = interp_step(cur, cur, 100);
    assert_eq!(parked.x_milli_px, 7);
    assert_eq!(parked.y_milli_px, 9);
}

#[test]
fn trail_prune_concrete_case() {
    // trail_life = 1000; points at t = 0, 500, 1100, 1600; at t = 1600 the
    // first two have expired, 1100 (age 500) and 1600 (age 0) remain
    let mut trail = Trail::new();
    trail.record(0, 0, 0);
    trail.record(1, 1, 500);
    // pruning runs on every append: the t = 0 point expires at t = 1100,
    // the t = 500 point at t = 1600; points at 0 and 500 are both gone
    let dropped_at_1100 = trail.record(2, 2, 1100);
    let dropped_at_1600 = trail.record(3, 3, 1600);
    assert_eq!(dropped_at_1100 + dropped_at_1600, 2);
    assert_eq!(trail.len(), 2);
    assert_eq!(trail.point_at(0).t_ms, 1100);
    assert_eq!(trail.point_at(1).t_ms, 1600);
}

#[test]
fn trail_stays_ordered_and_fresh() {
    let mut trail = Trail::new();
    let times = [0u64, 3, 3, 700, 701, 1500, 2600, 2600, 2700];
    for (i, t) in times.iter().enumerate() {
        trail.record(i as i64, 0, *t);
        let now = *t;
        let mut prev = 0u64;
        for k in 0..trail.len() {
            let p = trail.point_at(k);
            assert!(now - p.t_ms <= TRAIL_LIFE_MS, "an expired point survived");
            assert!(p.t_ms >= prev, "trail out of order");
            prev = p.t_ms;
        }
    }
}

#[test]
fn trail_alpha_fades_linearly() {
    assert_eq!(alpha_per_mille(1000, 1000), 1000);
    assert_eq!(alpha_per_mille(500, 1000), 500);
    assert_eq!(alpha_per_mille(0, 1000), 0);
    assert_eq!(alpha_per_mille(0, 5000), 0);
    assert_eq!(trail_radius_milli_px(1000), 20_000);
    assert_eq!(trail_radius_milli_px(500), 10_000);
    assert_eq!(trail_radius_milli_px(0), 0);
}

#[test]
fn audio_gain_clamped_for_any_speed() {
    // even absurd speeds stay at the design ceiling, under the volume clamp
    for speed in [0u64, 1, 49, 50, 51, 1_000, 1_000_000, u64::MAX] {
        let a = map_speed_to_audio(speed);
        assert!(a.gain_milli <= GAIN_CEILING_MILLI);
        assert!(a.gain_milli <= MAX_VOLUME_MILLI);
    }
    assert_eq!(map_speed_to_audio(1_000_000).gain_milli, GAIN_CEILING_MILLI);
    assert_eq!(map_speed_to_audio(u64::MAX).gain_milli, GAIN_CEILING_MILLI);
}

#[test]
fn audio_exact_mapping() {
    let rest = map_speed_to_audio(0);
    assert_eq!(rest.frequency_milli_hz, BASE_FREQUENCY_MILLI_HZ);
    assert_eq!(rest.gain_milli, 0);
    let slow = map_speed_to_audio(10);
    assert_eq!(slow.frequency_milli_hz, 200_000 + 10 * 800);
    assert_eq!(slow.gain_milli, 20);
    let fast = map_speed_to_audio(60);
    assert_eq!(fast.gain_milli, GAIN_CEILING_MILLI);
}
