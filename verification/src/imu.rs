// First-generation smash detector for the QMI8658 IMU: the gravity direction is learned
// over 256 quiet samples and then gates smashes by their projection onto it.
use vstd::prelude::*;
pub use crate::qmi8658_imu::{
    ImuError, ImuSample, DEFAULT_I2C_ADDR, REG_ACC_START, REG_CTRL1, REG_CTRL2, REG_CTRL7,
    REG_CTRL8, REG_WHO_AM_I, WHO_AM_I_ALT, WHO_AM_I_FALLBACK,
};
use crate::qmi8658_imu::{
    abs_i, axis_dominates, clamp_i64, dot3, gmag_sq3, lemma_mag_bound, mag_sq3, max3, min3, sat_diff, sq, tdiv,
};

verus! {

pub struct SmashDetector {
    pub threshold_sq: i64,
    pub rise_threshold_sq: i64,
    pub freefall_sq: i64,
    pub gyro_limit_sq: i64,
    /// Require one axis to dominate the others (rejects noisy multi-axis swings).
    pub axis_ratio_num: i32,
    pub axis_ratio_den: i32,
    /// Minimum projection onto gravity; 0 disables the check until gravity is learned.
    pub axis_bias_min_dot: i64,
    pub cooldown_ms: u32,
    pub last_mag_sq: i64,
    pub last_freefall: bool,
    pub last_trigger_ms: u64,
    pub gravity_dir: [i32; 3],
    pub gravity_samples: u16,
    pub baseline_mag_sq: i64,
}

/// The gravity estimate after a sample: averaged in while the magnitude is near 1-2 g; at
/// 256 samples the projection check is enabled at 49% of the squared gravity length.
pub open spec fn learn_gravity_spec(s: SmashDetector, accel: [i16; 3]) -> SmashDetector {
    let m = mag_sq3(accel);
    if s.gravity_samples < u16::MAX && 600_000 < m < 4_000_000 {
        let n = s.gravity_samples as int;
        let g = [
            tdiv(s.gravity_dir@[0] * n + accel@[0], n + 1) as i32,
            tdiv(s.gravity_dir@[1] * n + accel@[1], n + 1) as i32,
            tdiv(s.gravity_dir@[2] * n + accel@[2], n + 1) as i32,
        ];
        let n2 = if n < 256 { (n + 1) as u16 } else { n as u16 };
        if n2 == 256 && s.axis_bias_min_dot == 0 {
            SmashDetector {
                gravity_dir: g,
                gravity_samples: n2,
                axis_bias_min_dot: (gmag_sq3(g) * 49 / 100) as i64,
                ..s
            }
        } else {
            SmashDetector { gravity_dir: g, gravity_samples: n2, ..s }
        }
    } else {
        s
    }
}

/// The baseline magnitude: an EMA (alpha 1/16) of quiet samples near 1 g.
pub open spec fn baseline_spec(base: i64, mag: int, gyro: int) -> i64 {
    if gyro < 10_000 && 500_000 < mag < 2_500_000 {
        if base == 0 {
            mag as i64
        } else {
            ((base * 15 + mag) / 16) as i64
        }
    } else {
        base
    }
}

/// Dominant axis: the largest absolute component is at least num/den times each other one.
pub open spec fn ratio_ok_spec(s: SmashDetector, accel: [i16; 3]) -> bool {
    if s.axis_ratio_num > 0 {
        let x = abs_i(accel@[0] as int);
        let y = abs_i(accel@[1] as int);
        let z = abs_i(accel@[2] as int);
        let mx = max3(x, y, z);
        let lo = min3(x, y, z);
        let mid = x + y + z - mx - lo;
        mx * s.axis_ratio_den >= mid * s.axis_ratio_num && mx * s.axis_ratio_den >= lo
            * s.axis_ratio_num
    } else {
        true
    }
}

/// One detector step: the new state and whether a smash was detected.
pub open spec fn update_spec(s: SmashDetector, now_ms: u64, sample: ImuSample) -> (SmashDetector, bool) {
    let m = mag_sq3(sample.accel);
    let gy = mag_sq3(sample.gyro);
    let in_cooldown = sat_diff(now_ms as int, s.last_trigger_ms as int) < s.cooldown_ms;
    let freefall_guard = s.last_freefall;
    let rising_fast = clamp_i64(m - s.last_mag_sq) >= s.rise_threshold_sq;
    let s1 = SmashDetector { last_freefall: m < s.freefall_sq, last_mag_sq: m as i64, ..s };
    let s2 = learn_gravity_spec(s1, sample.accel);
    let axis_ok = if s2.axis_bias_min_dot > 0 {
        dot3(sample.accel, s2.gravity_dir) >= s2.axis_bias_min_dot
    } else {
        true
    };
    let s3 = SmashDetector { baseline_mag_sq: baseline_spec(s2.baseline_mag_sq, m, gy), ..s2 };
    let ratio_ok = ratio_ok_spec(s3, sample.accel);
    let gyro_ok = if m > clamp_i64(s3.threshold_sq * 4) {
        true
    } else {
        gy < s3.gyro_limit_sq
    };
    let jump_ok = if s3.baseline_mag_sq > 0 {
        m > clamp_i64(s3.baseline_mag_sq * 3)
    } else {
        true
    };
    let hit = !in_cooldown && !freefall_guard && m >= s3.threshold_sq && rising_fast && gyro_ok
        && axis_ok && ratio_ok && jump_ok;
    (if hit { SmashDetector { last_trigger_ms: now_ms, ..s3 } } else { s3 }, hit)
}

fn sat_sub_i64(a: i64, b: i64) -> (r: i64)
    ensures
        r == clamp_i64(a - b),
{
    match a.checked_sub(b) {
        Some(v) => v,
        None => if b < 0 {
            i64::MAX
        } else {
            i64::MIN
        },
    }
}

fn sat_mul_i64(a: i64, b: i64) -> (r: i64)
    ensures
        r == clamp_i64(a * b),
{
    match a.checked_mul(b) {
        Some(v) => v,
        None => {
            if (a > 0) == (b > 0) {
                assert(a * b > i64::MAX) by (nonlinear_arith)
                    requires
                        a * b > i64::MAX || a * b < i64::MIN,
                        (a > 0) == (b > 0),
                ;
                i64::MAX
            } else {
                assert(a * b < i64::MIN) by (nonlinear_arith)
                    requires
                        a * b > i64::MAX || a * b < i64::MIN,
                        (a > 0) != (b > 0),
                ;
                i64::MIN
            }
        },
    }
}

fn abs_i16(x: i16) -> (r: i32)
    requires
        x != i16::MIN,
    ensures
        r == abs_i(x as int),
{
    if x < 0 {
        -(x as i32)
    } else {
        x as i32
    }
}

fn sort3(a: i32, b: i32, c: i32) -> (r: (i32, i32, i32))
    ensures
        r.0 <= r.1 <= r.2,
        r.2 == max3(a as int, b as int, c as int),
        r.0 == min3(a as int, b as int, c as int),
        r.0 + r.1 + r.2 == a + b + c,
{
    let (mut x, mut y, mut z) = (a, b, c);
    if x > y {
        let t = x;
        x = y;
        y = t;
    }
    if y > z {
        let t = y;
        y = z;
        z = t;
    }
    if x > y {
        let t = x;
        x = y;
        y = t;
    }
    (x, y, z)
}

proof fn lemma_component_bounds(accel: [i16; 3])
    requires
        mag_sq3(accel) < 4_000_000,
    ensures
        forall|j: int| 0 <= j < 3 ==> -1999 <= #[trigger] accel@[j] <= 1999,
{
    assert forall|j: int| 0 <= j < 3 implies -1999 <= #[trigger] accel@[j] <= 1999 by {
        let x = accel@[j] as int;
        assert(0 <= sq(accel@[0] as int)) by (nonlinear_arith);
        assert(0 <= sq(accel@[1] as int)) by (nonlinear_arith);
        assert(0 <= sq(accel@[2] as int)) by (nonlinear_arith);
        assert(sq(x) < 4_000_000);
        if x > 1999 {
            assert(x * x >= 4_000_000) by (nonlinear_arith)
                requires
                    x >= 2000,
            ;
        } else if x < -1999 {
            assert(x * x >= 4_000_000) by (nonlinear_arith)
                requires
                    x <= -2000,
            ;
        }
    }
}

proof fn lemma_average_bound(g: int, n: int, a: int, b: int)
    requires
        0 <= n,
        0 <= b,
        -b <= g <= b,
        -b <= a <= b,
    ensures
        -b <= tdiv(g * n + a, n + 1) <= b,
{
    assert(-(b * (n + 1)) <= g * n + a <= b * (n + 1)) by (nonlinear_arith)
        requires
            0 <= n,
            -b <= g <= b,
            -b <= a <= b,
    ;
    let x = g * n + a;
    if x >= 0 {
        assert(0 <= x / (n + 1) <= b) by (nonlinear_arith)
            requires
                0 <= x <= b * (n + 1),
                n + 1 > 0,
        ;
    } else {
        assert(0 <= (-x) / (n + 1) <= b) by (nonlinear_arith)
            requires
                0 <= -x <= b * (n + 1),
                n + 1 > 0,
        ;
    }
}

proof fn lemma_products(a: [i16; 3], g: [i32; 3])
    requires
        forall|i: int| 0 <= i < 3 ==> -1999 <= #[trigger] g@[i] <= 1999,
    ensures
        -196_509_696 <= dot3(a, g) <= 196_509_696,
        -65_503_232 <= (a@[0] as int) * (g@[0] as int) <= 65_503_232,
        -65_503_232 <= (a@[1] as int) * (g@[1] as int) <= 65_503_232,
        -65_503_232 <= (a@[2] as int) * (g@[2] as int) <= 65_503_232,
        0 <= gmag_sq3(g) <= 11_988_003,
        (g@[0] as int) * (g@[0] as int) == sq(g@[0] as int),
        0 <= (g@[0] as int) * (g@[0] as int) <= 3_996_001,
        0 <= (g@[1] as int) * (g@[1] as int) <= 3_996_001,
        0 <= (g@[2] as int) * (g@[2] as int) <= 3_996_001,
{
    let (a0, a1, a2) = (a@[0] as int, a@[1] as int, a@[2] as int);
    let (x0, x1, x2) = (g@[0] as int, g@[1] as int, g@[2] as int);
    assert(-1999 <= g@[0] <= 1999);
    assert(-1999 <= g@[1] <= 1999);
    assert(-1999 <= g@[2] <= 1999);
    assert(-65_503_232 <= a0 * x0 <= 65_503_232) by (nonlinear_arith)
        requires -32768 <= a0 <= 32767, -1999 <= x0 <= 1999;
    assert(-65_503_232 <= a1 * x1 <= 65_503_232) by (nonlinear_arith)
        requires -32768 <= a1 <= 32767, -1999 <= x1 <= 1999;
    assert(-65_503_232 <= a2 * x2 <= 65_503_232) by (nonlinear_arith)
        requires -32768 <= a2 <= 32767, -1999 <= x2 <= 1999;
    assert(0 <= x0 * x0 <= 3_996_001) by (nonlinear_arith)
        requires -1999 <= x0 <= 1999;
    assert(0 <= x1 * x1 <= 3_996_001) by (nonlinear_arith)
        requires -1999 <= x1 <= 1999;
    assert(0 <= x2 * x2 <= 3_996_001) by (nonlinear_arith)
        requires -1999 <= x2 <= 1999;
}

impl SmashDetector {
    /// The learned state stays in the ranges that keep the detector's arithmetic exact.
    pub open spec fn wf(&self) -> bool {
        &&& self.gravity_samples <= 256
        &&& forall|i: int| 0 <= i < 3 ==> -1999 <= #[trigger] self.gravity_dir@[i] <= 1999
        &&& 0 <= self.baseline_mag_sq < 2_500_000
        &&& 0 <= self.axis_bias_min_dot <= 11_988_003
        &&& 0 <= self.last_mag_sq <= 3_221_225_472
    }

    pub fn new(threshold_raw: i32, rise_raw: i32, gyro_limit_raw: i32, freefall_raw: i32, cooldown_ms: u32) -> (r: Self)
        ensures
            r.wf(),
            r.threshold_sq == threshold_raw * threshold_raw,
            r.rise_threshold_sq == rise_raw * rise_raw,
            r.freefall_sq == freefall_raw * freefall_raw,
            r.gyro_limit_sq == gyro_limit_raw * gyro_limit_raw,
            r.axis_ratio_num == 0,
            r.axis_ratio_den == 1,
            r.axis_bias_min_dot == 0,
            r.cooldown_ms == cooldown_ms,
            r.last_mag_sq == 0,
            !r.last_freefall,
            r.last_trigger_ms == 0,
            r.gravity_dir == [0i32, 0i32, 0i32],
            r.gravity_samples == 0,
            r.baseline_mag_sq == 0,
    {
        proof {
            let (t, q, g, f) = (threshold_raw as int, rise_raw as int, gyro_limit_raw as int, freefall_raw as int);
            assert(0 <= t * t <= 0x4000_0000_0000_0000) by (nonlinear_arith)
                requires i32::MIN <= t <= i32::MAX;
            assert(0 <= q * q <= 0x4000_0000_0000_0000) by (nonlinear_arith)
                requires i32::MIN <= q <= i32::MAX;
            assert(0 <= g * g <= 0x4000_0000_0000_0000) by (nonlinear_arith)
                requires i32::MIN <= g <= i32::MAX;
            assert(0 <= f * f <= 0x4000_0000_0000_0000) by (nonlinear_arith)
                requires i32::MIN <= f <= i32::MAX;
        }
        Self {
            threshold_sq: (threshold_raw as i64) * (threshold_raw as i64),
            rise_threshold_sq: (rise_raw as i64) * (rise_raw as i64),
            freefall_sq: (freefall_raw as i64) * (freefall_raw as i64),
            gyro_limit_sq: (gyro_limit_raw as i64) * (gyro_limit_raw as i64),
            axis_ratio_num: 0,
            axis_ratio_den: 1,
            axis_bias_min_dot: 0,
            cooldown_ms,
            last_mag_sq: 0,
            last_freefall: false,
            last_trigger_ms: 0,
            gravity_dir: [0;3],
            gravity_samples: 0,
            baseline_mag_sq: 0,
        }
    }

    /// Default rough profile: ~1.8 g threshold, ~0.7 g rise, gyro gate ~60k, 160 ms
    /// cooldown, a dominant axis of at least 2:1; the gravity check starts disabled.
    pub fn default_rough() -> (r: Self)
        ensures
            r.wf(),
            r.threshold_sq == 1_800 * 1_800,
            r.rise_threshold_sq == 700 * 700,
            r.gyro_limit_sq == 60_000 * 60_000,
            r.freefall_sq == 200 * 200,
            r.cooldown_ms == 160,
            r.axis_ratio_num == 2,
            r.axis_ratio_den == 1,
            r.axis_bias_min_dot == 0,
            r.last_mag_sq == 0,
            !r.last_freefall,
            r.last_trigger_ms == 0,
            r.gravity_dir == [0i32, 0i32, 0i32],
            r.gravity_samples == 0,
            r.baseline_mag_sq == 0,
    {
        let mut s = Self::new(1_800, 700, 60_000, 200, 160);
        s.axis_ratio_num = 2;
        s.axis_ratio_den = 1;
        s.axis_bias_min_dot = 0;
        s
    }

    fn learn_gravity(&mut self, accel: [i16; 3], mag_sq: i64)
        requires
            old(self).wf(),
            mag_sq == mag_sq3(accel),
        ensures
            final(self).wf(),
            *final(self) == learn_gravity_spec(*old(self), accel),
    {
        if self.gravity_samples < u16::MAX {
            if mag_sq > 600_000 && mag_sq < 4_000_000 {
                proof {
                    lemma_component_bounds(accel);
                }
                let n = self.gravity_samples as i64;
                let k = n + 1;
                let ghost g_old = self.gravity_dir;
                let mut i: usize = 0;
                while i < 3
                    invariant
                        i <= 3,
                        n == old(self).gravity_samples,
                        k == n + 1,
                        0 <= n <= 256,
                        g_old == old(self).gravity_dir,
                        forall|j: int| 0 <= j < 3 ==> -1999 <= #[trigger] g_old@[j] <= 1999,
                        forall|j: int| 0 <= j < 3 ==> -1999 <= #[trigger] accel@[j] <= 1999,
                        forall|j: int| 0 <= j < i ==> #[trigger] self.gravity_dir@[j] == tdiv(g_old@[j] * n + accel@[j], n + 1),
                        forall|j: int| i <= j < 3 ==> #[trigger] self.gravity_dir@[j] == g_old@[j],
                        forall|j: int| 0 <= j < 3 ==> -1999 <= #[trigger] self.gravity_dir@[j] <= 1999,
                        self.gravity_samples == old(self).gravity_samples,
                        self.axis_bias_min_dot == old(self).axis_bias_min_dot,
                        self.threshold_sq == old(self).threshold_sq,
                        self.rise_threshold_sq == old(self).rise_threshold_sq,
                        self.freefall_sq == old(self).freefall_sq,
                        self.gyro_limit_sq == old(self).gyro_limit_sq,
                        self.axis_ratio_num == old(self).axis_ratio_num,
                        self.axis_ratio_den == old(self).axis_ratio_den,
                        self.cooldown_ms == old(self).cooldown_ms,
                        self.last_mag_sq == old(self).last_mag_sq,
                        self.last_freefall == old(self).last_freefall,
                        self.last_trigger_ms == old(self).last_trigger_ms,
                        self.baseline_mag_sq == old(self).baseline_mag_sq,
                    decreases 3 - i,
                {
                    proof {
                        lemma_average_bound(g_old@[i as int] as int, n as int, accel@[i as int] as int, 1999);
                        assert(-1999 * 256 <= g_old@[i as int] * n <= 1999 * 256) by (nonlinear_arith)
                            requires
                                -1999 <= g_old@[i as int] <= 1999,
                                0 <= n <= 256,
                        ;
                    }
                    let v = ((self.gravity_dir[i] as i64) * n + accel[i] as i64) / k;
                    self.gravity_dir[i] = v as i32;
                    i = i + 1;
                }
                if self.gravity_samples < 256 {
                    self.gravity_samples = self.gravity_samples + 1;
                }
                if self.gravity_samples == 256 && self.axis_bias_min_dot == 0 {
                    // Require at least ~70% alignment with gravity: 0.49 * |g|^2.
                    let g = self.gravity_dir;
                    proof {
                        lemma_products(accel, g);
                    }
                    let (g0, g1, g2) = (g[0] as i64, g[1] as i64, g[2] as i64);
                    let gmag_sq: i64 = g0 * g0 + g1 * g1 + g2 * g2;
                    self.axis_bias_min_dot = (gmag_sq as i128 * 49 / 100) as i64;
                }
                assert(self.gravity_dir == learn_gravity_spec(*old(self), accel).gravity_dir);
            }
        }
    }

    fn ratio_ok(&self, accel: [i16; 3]) -> (ok: bool)
        requires
            self.axis_ratio_num > 0 ==> forall|i: int| 0 <= i < 3 ==> accel@[i] != i16::MIN,
        ensures
            ok == ratio_ok_spec(*self, accel),
    {
        if self.axis_ratio_num > 0 {
            let (lo, mid, max) = sort3(abs_i16(accel[0]), abs_i16(accel[1]), abs_i16(accel[2]));
            let max = max as i64;
            let mid = mid as i64;
            let lo = lo as i64;
            let num = self.axis_ratio_num as i64;
            let den = self.axis_ratio_den as i64;
            proof {
                assert(-0x4000_0000_0000 <= max * den <= 0x4000_0000_0000) by (nonlinear_arith)
                    requires 0 <= max <= 32768, i32::MIN <= den <= i32::MAX;
                assert(-0x4000_0000_0000 <= mid * num <= 0x4000_0000_0000) by (nonlinear_arith)
                    requires 0 <= mid <= 32768, i32::MIN <= num <= i32::MAX;
                assert(-0x4000_0000_0000 <= lo * num <= 0x4000_0000_0000) by (nonlinear_arith)
                    requires 0 <= lo <= 32768, i32::MIN <= num <= i32::MAX;
            }
            max * den >= mid * num && max * den >= lo * num
        } else {
            true
        }
    }

    /// Feed one sample; returns true when a smash is detected (and starts the cooldown).
    pub fn update(&mut self, now_ms: u64, sample: &ImuSample) -> (hit: bool)
        requires
            old(self).wf(),
            old(self).axis_ratio_num > 0 ==> forall|i: int| 0 <= i < 3 ==> sample.accel@[i] != i16::MIN,
        ensures
            final(self).wf(),
            (*final(self), hit) == update_spec(*old(self), now_ms, *sample),
    {
        let mag_sq = sample.accel_mag_sq();
        let gyro_sq = sample.gyro_mag_sq();
        let in_cooldown = now_ms.saturating_sub(self.last_trigger_ms) < self.cooldown_ms as u64;

        // Freefall guard: if the previous sample was near zero-g, treat the spike as a drop.
        let freefall_guard = self.last_freefall;
        self.last_freefall = mag_sq < self.freefall_sq;

        let rising_fast = sat_sub_i64(mag_sq, self.last_mag_sq) >= self.rise_threshold_sq;
        self.last_mag_sq = mag_sq;

        // Learn the gravity direction during early samples, while movement is small.
        self.learn_gravity(sample.accel, mag_sq);

        // Axis bias check: the projection onto gravity must be large and point the same way.
        let mut axis_ok = true;
        if self.axis_bias_min_dot > 0 {
            proof {
                lemma_products(sample.accel, self.gravity_dir);
            }
            let dot: i64 = (sample.accel[0] as i64 * self.gravity_dir[0] as i64)
                + (sample.accel[1] as i64 * self.gravity_dir[1] as i64)
                + (sample.accel[2] as i64 * self.gravity_dir[2] as i64);
            axis_ok = dot >= self.axis_bias_min_dot;
        }

        // Baseline magnitude EMA for shake rejection: only while the gyro is quiet.
        if gyro_sq < 10_000 && mag_sq > 500_000 && mag_sq < 2_500_000 {
            if self.baseline_mag_sq == 0 {
                self.baseline_mag_sq = mag_sq;
            } else {
                self.baseline_mag_sq = ((self.baseline_mag_sq * 15) + mag_sq) / 16;
            }
        }

        let ratio_ok = self.ratio_ok(sample.accel);

        let gyro_ok = if mag_sq > sat_mul_i64(self.threshold_sq, 4) {
            true
        } else {
            gyro_sq < self.gyro_limit_sq
        };

        // Require a sharp jump over the baseline (3x) to reject slow wiggles.
        let mut jump_ok = true;
        if self.baseline_mag_sq > 0 {
            jump_ok = mag_sq > sat_mul_i64(self.baseline_mag_sq, 3);
        }

        let hit = !in_cooldown && !freefall_guard && mag_sq >= self.threshold_sq && rising_fast
            && gyro_ok && axis_ok && ratio_ok && jump_ok;

        if hit {
            self.last_trigger_ms = now_ms;
        }
        hit
    }
}

/// The detector after feeding it `events` (time and sample, oldest first), starting
/// from `d0`.
pub open spec fn run_spec(d0: SmashDetector, events: Seq<(u64, ImuSample)>) -> SmashDetector
    decreases events.len(),
{
    if events.len() == 0 {
        d0
    } else {
        update_spec(run_spec(d0, events.drop_last()), events.last().0, events.last().1).0
    }
}

/// Time of the last of `events` that reported a smash, or `d0.last_trigger_ms` when none
/// did (0 for a new detector).
pub open spec fn last_hit_time(d0: SmashDetector, events: Seq<(u64, ImuSample)>) -> u64
    decreases events.len(),
{
    if events.len() == 0 {
        d0.last_trigger_ms
    } else if update_spec(run_spec(d0, events.drop_last()), events.last().0, events.last().1).1 {
        events.last().0
    } else {
        last_hit_time(d0, events.drop_last())
    }
}

/// Squared acceleration of the sample fed last, or `d0.last_mag_sq` before any (0 for a
/// new detector).
pub open spec fn previous_mag_sq(d0: SmashDetector, events: Seq<(u64, ImuSample)>) -> int {
    if events.len() == 0 {
        d0.last_mag_sq as int
    } else {
        mag_sq3(events.last().1.accel)
    }
}

/// Whether the sample fed last was in free fall, or `d0.last_freefall` before any (false
/// for a new detector).
pub open spec fn previous_freefall(d0: SmashDetector, events: Seq<(u64, ImuSample)>) -> bool {
    if events.len() == 0 {
        d0.last_freefall
    } else {
        mag_sq3(events.last().1.accel) < d0.freefall_sq
    }
}

/// Feeding samples never changes the detector's settings; it remembers the time of the
/// last smash and the magnitude and free fall of the last sample.
pub proof fn lemma_run_history(d0: SmashDetector, events: Seq<(u64, ImuSample)>)
    ensures
        ({
            let s = run_spec(d0, events);
            &&& s.threshold_sq == d0.threshold_sq
            &&& s.rise_threshold_sq == d0.rise_threshold_sq
            &&& s.freefall_sq == d0.freefall_sq
            &&& s.gyro_limit_sq == d0.gyro_limit_sq
            &&& s.axis_ratio_num == d0.axis_ratio_num
            &&& s.axis_ratio_den == d0.axis_ratio_den
            &&& s.cooldown_ms == d0.cooldown_ms
            &&& s.last_trigger_ms == last_hit_time(d0, events)
            &&& s.last_mag_sq == previous_mag_sq(d0, events)
            &&& s.last_freefall == previous_freefall(d0, events)
        }),
    decreases events.len(),
{
    if events.len() > 0 {
        lemma_run_history(d0, events.drop_last());
        let (now, sample) = events.last();
        lemma_mag_bound(sample.accel);
    }
}

/// A smash is reported only for a sample at or above the threshold, and never sooner than
/// the cooldown after the previous smash: two smashes are at least `cooldown_ms` apart.
pub proof fn lemma_hit_threshold_cooldown(
    d0: SmashDetector,
    events: Seq<(u64, ImuSample)>,
    now_ms: u64,
    sample: ImuSample,
)
    ensures
        update_spec(run_spec(d0, events), now_ms, sample).1 ==> {
            &&& mag_sq3(sample.accel) >= d0.threshold_sq
            &&& sat_diff(now_ms as int, last_hit_time(d0, events) as int) >= d0.cooldown_ms
        },
{
    lemma_run_history(d0, events);
}

/// A smash needs the previous sample out of free fall and a rise from its magnitude of at
/// least the rise threshold.
pub proof fn lemma_hit_needs_rise(d0: SmashDetector, events: Seq<(u64, ImuSample)>, now_ms: u64, sample: ImuSample)
    requires
        d0.wf(),
    ensures
        update_spec(run_spec(d0, events), now_ms, sample).1 ==> {
            &&& !previous_freefall(d0, events)
            &&& mag_sq3(sample.accel) - previous_mag_sq(d0, events) >= d0.rise_threshold_sq
        },
{
    lemma_run_history(d0, events);
    lemma_mag_bound(sample.accel);
    if events.len() > 0 {
        lemma_mag_bound(events.last().1.accel);
    }
}

/// With the dominant-axis check on, a smash needs one axis whose magnitude, times the
/// ratio's denominator, is at least the numerator times the magnitude of each other axis
/// (with 2:1, the largest axis at least twice each other one).
pub proof fn lemma_hit_dominant_axis(s: SmashDetector, now_ms: u64, sample: ImuSample)
    requires
        s.axis_ratio_num > 0,
    ensures
        update_spec(s, now_ms, sample).1 ==> exists|k: int|
            0 <= k < 3 && #[trigger] axis_dominates(sample.accel, k, s.axis_ratio_num as int, s.axis_ratio_den as int),
{
    let a = sample.accel;
    let x = abs_i(a@[0] as int);
    let y = abs_i(a@[1] as int);
    let z = abs_i(a@[2] as int);
    let num = s.axis_ratio_num as int;
    let den = s.axis_ratio_den as int;
    let mx = max3(x, y, z);
    let lo = min3(x, y, z);
    let mid = x + y + z - mx - lo;
    if update_spec(s, now_ms, sample).1 {
        assert(mx * den >= mid * num && mx * den >= lo * num);
        if x >= y && x >= z {
            assert(forall|j: int| 0 <= j < 3 && j != 0 ==> abs_i(a@[j] as int) == mid || abs_i(a@[j] as int) == lo);
            assert(forall|j: int| 0 <= j < 3 && j != 0 ==> abs_i(a@[0] as int) * den >= #[trigger] abs_i(a@[j] as int) * num);
            assert(axis_dominates(a, 0, num, den));
        } else if y >= z {
            assert(forall|j: int| 0 <= j < 3 && j != 1 ==> abs_i(a@[j] as int) == mid || abs_i(a@[j] as int) == lo);
            assert(forall|j: int| 0 <= j < 3 && j != 1 ==> abs_i(a@[1] as int) * den >= #[trigger] abs_i(a@[j] as int) * num);
            assert(axis_dominates(a, 1, num, den));
        } else {
            assert(forall|j: int| 0 <= j < 3 && j != 2 ==> abs_i(a@[j] as int) == mid || abs_i(a@[j] as int) == lo);
            assert(forall|j: int| 0 <= j < 3 && j != 2 ==> abs_i(a@[2] as int) * den >= #[trigger] abs_i(a@[j] as int) * num);
            assert(axis_dominates(a, 2, num, den));
        }
    }
}

} // verus!
