// QMI8658 IMU data handling and the "smash" gesture detector.
// The register values are conservative defaults for the Waveshare ESP32-S3
// Touch AMOLED 1.43" board (QMI8658 on the touch I2C bus); the bus transfers
// themselves are done by the driver around this module.
use vstd::prelude::*;

verus! {

/// AD0 pulled high on the Waveshare board.
pub const DEFAULT_I2C_ADDR: u8 = 0x6B;
pub const REG_WHO_AM_I: u8 = 0x00;
/// Accelerometer configuration.
pub const REG_CTRL1: u8 = 0x02;
/// Gyroscope configuration.
pub const REG_CTRL2: u8 = 0x03;
/// Power / enable.
pub const REG_CTRL7: u8 = 0x08;
/// Reset / power settings.
pub const REG_CTRL8: u8 = 0x09;
/// First data register (AX_L .. GZ_H).
pub const REG_ACC_START: u8 = 0x35;
/// INT1_ENABLE (0x08) | INT2_ENABLE (0x10).
pub const INT_ENABLE_BITS: u8 = 0x18;
/// Route data-ready to INT1.
pub const CTRL8_DATAVALID_INT1: u8 = 0x40;
/// Chip identifiers reported by the QMI8658 revisions.
pub const WHO_AM_I_FALLBACK: u8 = 0x05;
pub const WHO_AM_I_ALT: u8 = 0x0F;

/// One reading: accelerometer and gyroscope, raw counts per axis.
#[derive(Clone, Copy, Debug)]
pub struct ImuSample {
    pub accel: [i16; 3],
    pub gyro: [i16; 3],
}

/// Errors of the driver: a bus error, or an unexpected chip identifier.
#[derive(Debug)]
pub enum ImuError<E> {
    Bus(E),
    BadWhoAmI(u8),
}

pub open spec fn sq(x: int) -> int {
    x * x
}

/// Squared length of a three-axis vector.
pub open spec fn mag_sq3(v: [i16; 3]) -> int {
    sq(v@[0] as int) + sq(v@[1] as int) + sq(v@[2] as int)
}

/// Squared length of the learned gravity vector.
pub open spec fn gmag_sq3(g: [i32; 3]) -> int {
    sq(g@[0] as int) + sq(g@[1] as int) + sq(g@[2] as int)
}

/// Dot product of a sample with the learned gravity vector.
pub open spec fn dot3(a: [i16; 3], g: [i32; 3]) -> int {
    a@[0] * g@[0] + a@[1] * g@[1] + a@[2] * g@[2]
}

/// Division rounded toward zero (the rounding of Rust's integer `/`).
pub open spec fn tdiv(x: int, d: int) -> int {
    if x >= 0 {
        x / d
    } else {
        -((-x) / d)
    }
}

/// `a - b`, or 0 when `b > a` (unsigned saturating subtraction).
pub open spec fn sat_diff(a: int, b: int) -> int {
    if a >= b {
        a - b
    } else {
        0
    }
}

/// Clamp to the `i64` range (signed saturating arithmetic).
pub open spec fn clamp_i64(x: int) -> int {
    if x > i64::MAX {
        i64::MAX as int
    } else if x < i64::MIN {
        i64::MIN as int
    } else {
        x
    }
}

pub open spec fn abs_i(x: int) -> int {
    if x < 0 {
        -x
    } else {
        x
    }
}

pub open spec fn max3(a: int, b: int, c: int) -> int {
    if a >= b && a >= c {
        a
    } else if b >= c {
        b
    } else {
        c
    }
}

pub open spec fn min3(a: int, b: int, c: int) -> int {
    if a <= b && a <= c {
        a
    } else if b <= c {
        b
    } else {
        c
    }
}

/// Little-endian two's-complement value of the byte pair (lo, hi).
pub open spec fn le_i16_spec(lo: u8, hi: u8) -> int {
    if hi < 128 {
        hi * 256 + lo
    } else {
        hi * 256 + lo - 65536
    }
}

/// The chip identifier is one that the QMI8658 reports.
pub open spec fn who_am_i_ok(who: u8) -> bool {
    who == WHO_AM_I_FALLBACK || who == WHO_AM_I_ALT
}

/// The sample decoded from the 12 data registers (accel x,y,z then gyro x,y,z, little endian).
pub open spec fn sample_from_regs(buf: [u8; 12]) -> ImuSample {
    ImuSample {
        accel: [
            le_i16_spec(buf@[0], buf@[1]) as i16,
            le_i16_spec(buf@[2], buf@[3]) as i16,
            le_i16_spec(buf@[4], buf@[5]) as i16,
        ],
        gyro: [
            le_i16_spec(buf@[6], buf@[7]) as i16,
            le_i16_spec(buf@[8], buf@[9]) as i16,
            le_i16_spec(buf@[10], buf@[11]) as i16,
        ],
    }
}

proof fn lemma_sq_bound(x: i16)
    ensures
        0 <= sq(x as int) <= 1073741824,
        (x as int) * (x as int) == sq(x as int),
{
    assert(0 <= (x as int) * (x as int) <= 1073741824) by (nonlinear_arith)
        requires
            -32768 <= x <= 32767,
    ;
}

/// A component whose square lies below 4 000 000 is between -1999 and 1999.
proof fn lemma_small_component(x: int)
    requires
        sq(x) < 4_000_000,
    ensures
        -1999 <= x <= 1999,
{
    if x > 1999 {
        assert(x * x >= 2000 * 2000) by (nonlinear_arith)
            requires
                x >= 2000,
        ;
    } else if x < -1999 {
        assert(x * x >= 2000 * 2000) by (nonlinear_arith)
            requires
                x <= -2000,
        ;
    }
}

/// Averaging a bounded value into a bounded running average keeps it bounded.
proof fn lemma_average_bound(g: int, n: int, a: int, b: int)
    requires
        0 <= n,
        0 <= b,
        -b <= g <= b,
        -b <= a <= b,
    ensures
        -b <= tdiv(g * n + a, n + 1) <= b,
{
    assert(-(b * (n + 1)) <= g * n + a <= b * (n + 1)) by (nonlinear_arith)
        requires
            0 <= n,
            -b <= g <= b,
            -b <= a <= b,
    ;
    let x = g * n + a;
    if x >= 0 {
        assert(x / (n + 1) <= b) by (nonlinear_arith)
            requires
                0 <= x <= b * (n + 1),
                n + 1 > 0,
        ;
        assert(x / (n + 1) >= 0) by (nonlinear_arith)
            requires
                0 <= x,
                n + 1 > 0,
        ;
    } else {
        assert((-x) / (n + 1) <= b) by (nonlinear_arith)
            requires
                0 <= -x <= b * (n + 1),
                n + 1 > 0,
        ;
        assert((-x) / (n + 1) >= 0) by (nonlinear_arith)
            requires
                0 <= -x,
                n + 1 > 0,
        ;
    }
}

proof fn lemma_dot_bound(a: [i16; 3], g: [i32; 3])
    requires
        forall|i: int| 0 <= i < 3 ==> -1999 <= #[trigger] g@[i] <= 1999,
    ensures
        -196_509_696 <= dot3(a, g) <= 196_509_696,
{
    assert forall|i: int| 0 <= i < 3 implies -65_503_232 <= #[trigger] (a@[i] * g@[i]) <= 65_503_232 by {
        let x = a@[i] as int;
        let y = g@[i] as int;
        assert(-65_503_232 <= x * y <= 65_503_232) by (nonlinear_arith)
            requires
                -32768 <= x <= 32767,
                -1999 <= y <= 1999,
        ;
    }
    assert(-65_503_232 <= a@[0] * g@[0] <= 65_503_232);
    assert(-65_503_232 <= a@[1] * g@[1] <= 65_503_232);
    assert(-65_503_232 <= a@[2] * g@[2] <= 65_503_232);
}

proof fn lemma_gmag_bound(g: [i32; 3])
    requires
        forall|i: int| 0 <= i < 3 ==> -1999 <= #[trigger] g@[i] <= 1999,
    ensures
        0 <= gmag_sq3(g) <= 11_988_003,
{
    assert forall|i: int| 0 <= i < 3 implies 0 <= #[trigger] sq(g@[i] as int) <= 3_996_001 by {
        let x = g@[i] as int;
        assert(0 <= x * x <= 3_996_001) by (nonlinear_arith)
            requires
                -1999 <= x <= 1999,
        ;
    }
    assert(0 <= sq(g@[0] as int) <= 3_996_001);
    assert(0 <= sq(g@[1] as int) <= 3_996_001);
    assert(0 <= sq(g@[2] as int) <= 3_996_001);
}

impl ImuSample {
    /// Squared magnitude of the acceleration.
    #[inline]
    pub fn accel_mag_sq(&self) -> (r: i64)
        ensures
            r == mag_sq3(self.accel),
            0 <= r <= 3_221_225_472,
    {
        mag_sq_i64(self.accel)
    }

    /// Squared magnitude of the angular rate.
    #[inline]
    pub fn gyro_mag_sq(&self) -> (r: i64)
        ensures
            r == mag_sq3(self.gyro),
            0 <= r <= 3_221_225_472,
    {
        mag_sq_i64(self.gyro)
    }

    /// Decode the 12 data registers read from `REG_ACC_START` onwards.
    pub fn from_registers(buf: &[u8; 12]) -> (r: ImuSample)
        ensures
            r == sample_from_regs(*buf),
    {
        ImuSample {
            accel: [le_i16(buf[0], buf[1]), le_i16(buf[2], buf[3]), le_i16(buf[4], buf[5])],
            gyro: [le_i16(buf[6], buf[7]), le_i16(buf[8], buf[9]), le_i16(buf[10], buf[11])],
        }
    }
}

fn mag_sq_i64(v: [i16; 3]) -> (r: i64)
    ensures
        r == mag_sq3(v),
        0 <= r <= 3_221_225_472,
{
    proof {
        lemma_sq_bound(v@[0]);
        lemma_sq_bound(v@[1]);
        lemma_sq_bound(v@[2]);
    }
    let a = v[0] as i64;
    let b = v[1] as i64;
    let c = v[2] as i64;
    a * a + b * b + c * c
}

/// Little-endian two's-complement decoding of a register pair.
pub fn le_i16(lo: u8, hi: u8) -> (r: i16)
    ensures
        r == le_i16_spec(lo, hi),
{
    if hi < 128 {
        (hi as i16) * 256 + lo as i16
    } else {
        ((hi as i32) * 256 + lo as i32 - 65536) as i16
    }
}

/// The chip identifier is accepted by the initialisation.
pub fn who_am_i_accepted(who: u8) -> (r: bool)
    ensures
        r == who_am_i_ok(who),
{
    who == WHO_AM_I_FALLBACK || who == WHO_AM_I_ALT
}

/// The sensor on its bus at `address`. Register transfers go through the bus, which the
/// caller reaches with `bus_mut`; what is written and how readings decode is here.
pub struct Qmi8658<I2C> {
    i2c: I2C,
    address: u8,
}

impl<I2C> Qmi8658<I2C> {
    pub closed spec fn bus(&self) -> I2C {
        self.i2c
    }

    pub closed spec fn addr(&self) -> u8 {
        self.address
    }

    /// The sensor at `address`, not yet configured (see `init_writes`).
    pub fn attach(i2c: I2C, address: u8) -> (r: Self)
        ensures
            r.bus() == i2c,
            r.addr() == address,
    {
        Qmi8658 { i2c, address }
    }

    pub fn address(&self) -> (r: u8)
        ensures
            r == self.addr(),
    {
        self.address
    }

    pub fn bus_mut(&mut self) -> (r: &mut I2C)
        ensures
            *r == old(self).bus(),
            final(self).bus() == *final(r),
            final(self).addr() == old(self).addr(),
    {
        &mut self.i2c
    }

    /// Gives the bus back.
    pub fn into_inner(self) -> (r: I2C)
        ensures
            r == self.bus(),
    {
        self.i2c
    }
}

/// Register writes that configure the sensor after its identifier was accepted, in
/// order, as (register, value, whether a failed write fails the initialisation):
/// soft reset, accelerometer at +/-8 g and about 1 kHz with both interrupts enabled,
/// gyroscope at +/-512 dps and about 1 kHz, both enabled, data-ready routed to INT1.
pub fn init_writes() -> (r: [(u8, u8, bool); 5])
    ensures
        r@ == seq![
            (REG_CTRL8, 0x10u8, false),
            (REG_CTRL1, 0x78u8, false),
            (REG_CTRL2, 0x64u8, false),
            (REG_CTRL7, 0x03u8, true),
            (REG_CTRL8, CTRL8_DATAVALID_INT1, false),
        ],
{
    let accel_cfg: u8 = 0x60 | INT_ENABLE_BITS;
    assert(accel_cfg == 0x78) by (bit_vector)
        requires
            accel_cfg == 0x60u8 | 0x18u8,
    ;
    let r = [
        (REG_CTRL8, 0x10u8, false),
        (REG_CTRL1, accel_cfg, false),
        (REG_CTRL2, 0x64u8, false),
        (REG_CTRL7, 0x03u8, true),
        (REG_CTRL8, CTRL8_DATAVALID_INT1, false),
    ];
    assert(r@ =~= seq![
        (REG_CTRL8, 0x10u8, false),
        (REG_CTRL1, 0x78u8, false),
        (REG_CTRL2, 0x64u8, false),
        (REG_CTRL7, 0x03u8, true),
        (REG_CTRL8, CTRL8_DATAVALID_INT1, false),
    ]);
    r
}

/// Detector of a sharp "smash" of the watch, from acceleration magnitude, its rise, the
/// learned gravity direction and the angular rate.
pub struct SmashDetector {
    pub threshold_sq: i64,
    pub rise_threshold_sq: i64,
    pub freefall_sq: i64,
    pub gyro_limit_sq: i64,
    /// Require one axis to dominate the others (rejects noisy multi-axis swings).
    pub axis_ratio_num: i32,
    pub axis_ratio_den: i32,
    pub cooldown_ms: u32,
    pub last_mag_sq: i64,
    pub last_freefall: bool,
    pub last_trigger_ms: u64,
    pub gravity_dir: [i32; 3],
    pub gravity_samples: u16,
    pub baseline_mag_sq: i64,
    pub gravity_mag_sq: i64,
    pub baseline_dot: i64,
    pub last_dot: i64,
}

/// The gravity estimate after a sample: averaged in while the magnitude is near 1-2 g; after
/// 8 such samples its squared length becomes the reference projection.
pub open spec fn learn_gravity_spec(s: SmashDetector, accel: [i16; 3]) -> SmashDetector {
    let m = mag_sq3(accel);
    if s.gravity_samples < u16::MAX && 600_000 < m < 4_000_000 {
        let n = s.gravity_samples as int;
        let g = [
            tdiv(s.gravity_dir@[0] * n + accel@[0], n + 1) as i32,
            tdiv(s.gravity_dir@[1] * n + accel@[1], n + 1) as i32,
            tdiv(s.gravity_dir@[2] * n + accel@[2], n + 1) as i32,
        ];
        let n2 = if n < 64 { (n + 1) as u16 } else { n as u16 };
        if n2 >= 8 && s.gravity_mag_sq == 0 {
            let gm = gmag_sq3(g) as i64;
            SmashDetector {
                gravity_dir: g,
                gravity_samples: n2,
                gravity_mag_sq: gm,
                baseline_dot: gm,
                last_dot: gm,
                ..s
            }
        } else {
            SmashDetector { gravity_dir: g, gravity_samples: n2, ..s }
        }
    } else {
        s
    }
}

/// Axis check against the learned gravity: the projection must point along gravity, exceed
/// the reference by half a g² and rise by half the rise threshold since the previous sample.
/// Returns the check and the state with the new last projection.
pub open spec fn axis_check_spec(s: SmashDetector, accel: [i16; 3]) -> (bool, SmashDetector) {
    if s.gravity_mag_sq > 0 {
        let dot = dot3(accel, s.gravity_dir);
        let delta = clamp_i64(dot - s.baseline_dot);
        let ok = dot * s.baseline_dot > 0 && delta >= s.gravity_mag_sq / 2 && dot - s.last_dot
            >= tdiv(s.rise_threshold_sq as int, 2);
        (ok, SmashDetector { last_dot: dot as i64, ..s })
    } else {
        (true, s)
    }
}

/// The baseline magnitude: an EMA (alpha 1/16) of quiet samples near 1 g.
pub open spec fn baseline_spec(base: i64, mag: int, gyro: int) -> i64 {
    if gyro < 10_000 && 500_000 < mag < 2_500_000 {
        if base == 0 {
            mag as i64
        } else {
            ((base * 15 + mag) / 16) as i64
        }
    } else {
        base
    }
}

/// Dominant axis: the largest absolute component is at least num/den times each other one.
pub open spec fn ratio_ok_spec(s: SmashDetector, accel: [i16; 3]) -> bool {
    if s.axis_ratio_num > 0 {
        let x = abs_i(accel@[0] as int);
        let y = abs_i(accel@[1] as int);
        let z = abs_i(accel@[2] as int);
        let mx = max3(x, y, z);
        let lo = min3(x, y, z);
        let mid = x + y + z - mx - lo;
        mx * s.axis_ratio_den >= mid * s.axis_ratio_num && mx * s.axis_ratio_den >= lo
            * s.axis_ratio_num
    } else {
        true
    }
}

/// One detector step: the new state and whether a smash was detected.
pub open spec fn update_spec(s: SmashDetector, now_ms: u64, sample: ImuSample) -> (SmashDetector, bool) {
    let m = mag_sq3(sample.accel);
    let gy = mag_sq3(sample.gyro);
    let in_cooldown = sat_diff(now_ms as int, s.last_trigger_ms as int) < s.cooldown_ms;
    let freefall_guard = s.last_freefall;
    let rising_fast = clamp_i64(m - s.last_mag_sq) >= s.rise_threshold_sq;
    let s1 = SmashDetector { last_freefall: m < s.freefall_sq, last_mag_sq: m as i64, ..s };
    let s2 = learn_gravity_spec(s1, sample.accel);
    let (axis_ok, s3) = axis_check_spec(s2, sample.accel);
    let s4 = SmashDetector { baseline_mag_sq: baseline_spec(s3.baseline_mag_sq, m, gy), ..s3 };
    let ratio_ok = ratio_ok_spec(s4, sample.accel);
    let gyro_ok = if m > clamp_i64(s4.threshold_sq * 4) {
        true
    } else {
        gy < s4.gyro_limit_sq
    };
    let jump_ok = if s4.baseline_mag_sq > 0 {
        m > clamp_i64(s4.baseline_mag_sq * 4)
    } else {
        true
    };
    let hit = !in_cooldown && !freefall_guard && m >= s4.threshold_sq && rising_fast && gyro_ok
        && axis_ok && ratio_ok && jump_ok;
    (if hit { SmashDetector { last_trigger_ms: now_ms, ..s4 } } else { s4 }, hit)
}

/// Saturating `i64` subtraction.
fn sat_sub_i64(a: i64, b: i64) -> (r: i64)
    ensures
        r == clamp_i64(a - b),
{
    match a.checked_sub(b) {
        Some(v) => v,
        None => if b < 0 {
            i64::MAX
        } else {
            i64::MIN
        },
    }
}

/// Saturating `i64` multiplication.
fn sat_mul_i64(a: i64, b: i64) -> (r: i64)
    ensures
        r == clamp_i64(a * b),
{
    match a.checked_mul(b) {
        Some(v) => v,
        None => {
            if (a > 0) == (b > 0) {
                assert(a * b > i64::MAX) by (nonlinear_arith)
                    requires
                        a * b > i64::MAX || a * b < i64::MIN,
                        (a > 0) == (b > 0),
                ;
                i64::MAX
            } else {
                assert(a * b < i64::MIN) by (nonlinear_arith)
                    requires
                        a * b > i64::MAX || a * b < i64::MIN,
                        (a > 0) != (b > 0),
                ;
                i64::MIN
            }
        },
    }
}

fn abs_i16(x: i16) -> (r: i32)
    requires
        x != i16::MIN,
    ensures
        r == abs_i(x as int),
{
    if x < 0 {
        -(x as i32)
    } else {
        x as i32
    }
}

/// Sort three values ascending.
fn sort3(a: i32, b: i32, c: i32) -> (r: (i32, i32, i32))
    ensures
        r.0 <= r.1 <= r.2,
        r.2 == max3(a as int, b as int, c as int),
        r.0 == min3(a as int, b as int, c as int),
        r.0 + r.1 + r.2 == a + b + c,
{
    let (mut x, mut y, mut z) = (a, b, c);
    if x > y {
        let t = x;
        x = y;
        y = t;
    }
    if y > z {
        let t = y;
        y = z;
        z = t;
    }
    if x > y {
        let t = x;
        x = y;
        y = t;
    }
    (x, y, z)
}

impl SmashDetector {
    /// The learned state stays in the ranges that keep the detector's arithmetic exact:
    /// the gravity estimate is an average of components of samples below 2 g.
    pub open spec fn wf(&self) -> bool {
        &&& self.gravity_samples <= 64
        &&& forall|i: int| 0 <= i < 3 ==> -1999 <= #[trigger] self.gravity_dir@[i] <= 1999
        &&& 0 <= self.baseline_mag_sq < 2_500_000
        &&& 0 <= self.gravity_mag_sq <= 11_988_003
        &&& -11_988_003 <= self.baseline_dot <= 11_988_003
        &&& -196_509_696 <= self.last_dot <= 196_509_696
        &&& 0 <= self.last_mag_sq <= 3_221_225_472
    }

    pub fn new(
        threshold_raw: i32,
        rise_raw: i32,
        gyro_limit_raw: i32,
        freefall_raw: i32,
        cooldown_ms: u32,
    ) -> (r: Self)
        ensures
            r.wf(),
            r.threshold_sq == threshold_raw * threshold_raw,
            r.rise_threshold_sq == rise_raw * rise_raw,
            r.freefall_sq == freefall_raw * freefall_raw,
            r.gyro_limit_sq == gyro_limit_raw * gyro_limit_raw,
            r.axis_ratio_num == 0,
            r.axis_ratio_den == 1,
            r.cooldown_ms == cooldown_ms,
            r.last_mag_sq == 0,
            !r.last_freefall,
            r.last_trigger_ms == 0,
            r.gravity_dir == [0i32, 0i32, 0i32],
            r.gravity_samples == 0,
            r.baseline_mag_sq == 0,
            r.gravity_mag_sq == 0,
            r.baseline_dot == 0,
            r.last_dot == 0,
    {
        proof {
            let (t, q, g, f) = (threshold_raw as int, rise_raw as int, gyro_limit_raw as int, freefall_raw as int);
            assert(0 <= t * t <= 0x4000_0000_0000_0000) by (nonlinear_arith)
                requires
                    i32::MIN <= t <= i32::MAX,
            ;
            assert(0 <= q * q <= 0x4000_0000_0000_0000) by (nonlinear_arith)
                requires
                    i32::MIN <= q <= i32::MAX,
            ;
            assert(0 <= g * g <= 0x4000_0000_0000_0000) by (nonlinear_arith)
                requires
                    i32::MIN <= g <= i32::MAX,
            ;
            assert(0 <= f * f <= 0x4000_0000_0000_0000) by (nonlinear_arith)
                requires
                    i32::MIN <= f <= i32::MAX,
            ;
        }
        Self {
            threshold_sq: (threshold_raw as i64) * (threshold_raw as i64),
            rise_threshold_sq: (rise_raw as i64) * (rise_raw as i64),
            freefall_sq: (freefall_raw as i64) * (freefall_raw as i64),
            gyro_limit_sq: (gyro_limit_raw as i64) * (gyro_limit_raw as i64),
            axis_ratio_num: 0,
            axis_ratio_den: 1,
            cooldown_ms,
            last_mag_sq: 0,
            last_freefall: false,
            last_trigger_ms: 0,
            gravity_dir: [0;3],
            gravity_samples: 0,
            baseline_mag_sq: 0,
            gravity_mag_sq: 0,
            baseline_dot: 0,
            last_dot: 0,
        }
    }

    /// Default rough profile, tuned for ~1000 counts per g (8 g range): ~1.8 g threshold,
    /// ~0.7 g rise, gyro gate ~60k, 160 ms cooldown, and a dominant axis of at least 2:1.
    pub fn default_rough() -> (r: Self)
        ensures
            r.wf(),
            r.threshold_sq == 1_800 * 1_800,
            r.rise_threshold_sq == 700 * 700,
            r.gyro_limit_sq == 60_000 * 60_000,
            r.freefall_sq == 200 * 200,
            r.cooldown_ms == 160,
            r.axis_ratio_num == 2,
            r.axis_ratio_den == 1,
            r.last_mag_sq == 0,
            !r.last_freefall,
            r.last_trigger_ms == 0,
            r.gravity_dir == [0i32, 0i32, 0i32],
            r.gravity_samples == 0,
            r.baseline_mag_sq == 0,
            r.gravity_mag_sq == 0,
            r.baseline_dot == 0,
            r.last_dot == 0,
    {
        let mut s = Self::new(1_800, 700, 60_000, 200, 160);
        s.axis_ratio_num = 2;
        s.axis_ratio_den = 1;
        s
    }

    fn learn_gravity(&mut self, accel: [i16; 3], mag_sq: i64)
        requires
            old(self).wf(),
            mag_sq == mag_sq3(accel),
        ensures
            final(self).wf(),
            *final(self) == learn_gravity_spec(*old(self), accel),
    {
        if self.gravity_samples < u16::MAX {
            if mag_sq > 600_000 && mag_sq < 4_000_000 {
                proof {
                    lemma_sq_bound(accel@[0]);
                    lemma_sq_bound(accel@[1]);
                    lemma_sq_bound(accel@[2]);
                    lemma_small_component(accel@[0] as int);
                    lemma_small_component(accel@[1] as int);
                    lemma_small_component(accel@[2] as int);
                }
                let n = self.gravity_samples as i64;
                let k = n + 1;
                let ghost g_old = self.gravity_dir;
                let mut i: usize = 0;
                while i < 3
                    invariant
                        i <= 3,
                        n == old(self).gravity_samples,
                        k == n + 1,
                        0 <= n <= 64,
                        g_old == old(self).gravity_dir,
                        forall|j: int| 0 <= j < 3 ==> -1999 <= #[trigger] g_old@[j] <= 1999,
                        forall|j: int| 0 <= j < 3 ==> -1999 <= #[trigger] accel@[j] <= 1999,
                        forall|j: int| 0 <= j < i ==> #[trigger] self.gravity_dir@[j] == tdiv(g_old@[j] * n + accel@[j], n + 1),
                        forall|j: int| i <= j < 3 ==> #[trigger] self.gravity_dir@[j] == g_old@[j],
                        forall|j: int| 0 <= j < 3 ==> -1999 <= #[trigger] self.gravity_dir@[j] <= 1999,
                        self.gravity_samples == old(self).gravity_samples,
                        self.gravity_mag_sq == old(self).gravity_mag_sq,
                        self.baseline_dot == old(self).baseline_dot,
                        self.last_dot == old(self).last_dot,
                        self.threshold_sq == old(self).threshold_sq,
                        self.rise_threshold_sq == old(self).rise_threshold_sq,
                        self.freefall_sq == old(self).freefall_sq,
                        self.gyro_limit_sq == old(self).gyro_limit_sq,
                        self.axis_ratio_num == old(self).axis_ratio_num,
                        self.axis_ratio_den == old(self).axis_ratio_den,
                        self.cooldown_ms == old(self).cooldown_ms,
                        self.last_mag_sq == old(self).last_mag_sq,
                        self.last_freefall == old(self).last_freefall,
                        self.last_trigger_ms == old(self).last_trigger_ms,
                        self.baseline_mag_sq == old(self).baseline_mag_sq,
                    decreases 3 - i,
                {
                    proof {
                        lemma_average_bound(g_old@[i as int] as int, n as int, accel@[i as int] as int, 1999);
                        assert(-1999 * 64 <= g_old@[i as int] * n <= 1999 * 64) by (nonlinear_arith)
                            requires
                                -1999 <= g_old@[i as int] <= 1999,
                                0 <= n <= 64,
                        ;
                    }
                    let v = ((self.gravity_dir[i] as i64) * n + accel[i] as i64) / k;
                    self.gravity_dir[i] = v as i32;
                    i = i + 1;
                }
                if self.gravity_samples < 64 {
                    self.gravity_samples = self.gravity_samples + 1;
                }
                if self.gravity_samples >= 8 && self.gravity_mag_sq == 0 {
                    let g = self.gravity_dir;
                    proof {
                        lemma_gmag_bound(g);
                        lemma_sq_bound_i32(g@[0]);
                        lemma_sq_bound_i32(g@[1]);
                        lemma_sq_bound_i32(g@[2]);
                    }
                    let (g0, g1, g2) = (g[0] as i64, g[1] as i64, g[2] as i64);
                    self.gravity_mag_sq = g0 * g0 + g1 * g1 + g2 * g2;
                    self.baseline_dot = self.gravity_mag_sq;
                    self.last_dot = self.baseline_dot;
                }
                assert(self.gravity_dir == learn_gravity_spec(*old(self), accel).gravity_dir);
            }
        }
    }

    fn axis_check(&mut self, accel: [i16; 3]) -> (ok: bool)
        requires
            old(self).wf(),
        ensures
            final(self).wf(),
            (ok, *final(self)) == axis_check_spec(*old(self), accel),
    {
        if self.gravity_mag_sq > 0 {
            proof {
                lemma_dot_bound(accel, self.gravity_dir);
                let (a0, a1, a2) = (accel@[0] as int, accel@[1] as int, accel@[2] as int);
                let (x0, x1, x2) = (self.gravity_dir@[0] as int, self.gravity_dir@[1] as int, self.gravity_dir@[2] as int);
                assert(-65_503_232 <= a0 * x0 <= 65_503_232) by (nonlinear_arith)
                    requires -32768 <= a0 <= 32767, -1999 <= x0 <= 1999;
                assert(-65_503_232 <= a1 * x1 <= 65_503_232) by (nonlinear_arith)
                    requires -32768 <= a1 <= 32767, -1999 <= x1 <= 1999;
                assert(-65_503_232 <= a2 * x2 <= 65_503_232) by (nonlinear_arith)
                    requires -32768 <= a2 <= 32767, -1999 <= x2 <= 1999;
            }
            let dot: i64 = (accel[0] as i64 * self.gravity_dir[0] as i64) + (accel[1] as i64
                * self.gravity_dir[1] as i64) + (accel[2] as i64 * self.gravity_dir[2] as i64);
            proof {
                let (d, b) = (dot as int, self.baseline_dot as int);
                assert(-2_400_000_000_000_000 <= d * b <= 2_400_000_000_000_000) by (nonlinear_arith)
                    requires
                        -196_509_696 <= d <= 196_509_696,
                        -11_988_003 <= b <= 11_988_003,
                ;
            }
            let delta = sat_sub_i64(dot, self.baseline_dot);
            let rise_min = self.gravity_mag_sq / 2;
            let dot_rise_min = self.rise_threshold_sq / 2;
            let ok = (dot * self.baseline_dot) > 0 && delta >= rise_min && (dot - self.last_dot)
                >= dot_rise_min;
            self.last_dot = dot;
            ok
        } else {
            true
        }
    }

    fn ratio_ok(&self, accel: [i16; 3]) -> (ok: bool)
        requires
            self.axis_ratio_num > 0 ==> forall|i: int| 0 <= i < 3 ==> accel@[i] != i16::MIN,
        ensures
            ok == ratio_ok_spec(*self, accel),
    {
        if self.axis_ratio_num > 0 {
            let (lo, mid, max) = sort3(abs_i16(accel[0]), abs_i16(accel[1]), abs_i16(accel[2]));
            let max = max as i64;
            let mid = mid as i64;
            let lo = lo as i64;
            let num = self.axis_ratio_num as i64;
            let den = self.axis_ratio_den as i64;
            proof {
                assert(-0x4000_0000_0000 <= max * den <= 0x4000_0000_0000) by (nonlinear_arith)
                    requires
                        0 <= max <= 32768,
                        i32::MIN <= den <= i32::MAX,
                ;
                assert(-0x4000_0000_0000 <= mid * num <= 0x4000_0000_0000) by (nonlinear_arith)
                    requires
                        0 <= mid <= 32768,
                        i32::MIN <= num <= i32::MAX,
                ;
                assert(-0x4000_0000_0000 <= lo * num <= 0x4000_0000_0000) by (nonlinear_arith)
                    requires
                        0 <= lo <= 32768,
                        i32::MIN <= num <= i32::MAX,
                ;
            }
            max * den >= mid * num && max * den >= lo * num
        } else {
            true
        }
    }

    /// Feed one sample; returns true when a smash is detected (and starts the cooldown).
    pub fn update(&mut self, now_ms: u64, sample: &ImuSample) -> (hit: bool)
        requires
            old(self).wf(),
            old(self).axis_ratio_num > 0 ==> forall|i: int| 0 <= i < 3 ==> sample.accel@[i] != i16::MIN,
        ensures
            final(self).wf(),
            (*final(self), hit) == update_spec(*old(self), now_ms, *sample),
    {
        let mag_sq = sample.accel_mag_sq();
        let gyro_sq = sample.gyro_mag_sq();
        let in_cooldown = now_ms.saturating_sub(self.last_trigger_ms) < self.cooldown_ms as u64;

        // Freefall guard: if the previous sample was near zero-g, treat the spike as a drop.
        let freefall_guard = self.last_freefall;
        self.last_freefall = mag_sq < self.freefall_sq;

        let rising_fast = sat_sub_i64(mag_sq, self.last_mag_sq) >= self.rise_threshold_sq;
        self.last_mag_sq = mag_sq;

        // Learn the gravity direction quickly while movement is small.
        self.learn_gravity(sample.accel, mag_sq);

        // Projection must move further along gravity than the baseline (smash down).
        let axis_ok = self.axis_check(sample.accel);

        // Baseline magnitude EMA for shake rejection: only while the gyro is quiet.
        if gyro_sq < 10_000 && mag_sq > 500_000 && mag_sq < 2_500_000 {
            if self.baseline_mag_sq == 0 {
                self.baseline_mag_sq = mag_sq;
            } else {
                self.baseline_mag_sq = ((self.baseline_mag_sq * 15) + mag_sq) / 16;
            }
        }

        // Dominant axis check: max axis at least ratio over the others.
        let ratio_ok = self.ratio_ok(sample.accel);

        // Gyro check: allow a high rate if the acceleration is very high.
        let gyro_ok = if mag_sq > sat_mul_i64(self.threshold_sq, 4) {
            true
        } else {
            gyro_sq < self.gyro_limit_sq
        };

        // Require a sharp jump over the baseline to reject slow wiggles (4x).
        let mut jump_ok = true;
        if self.baseline_mag_sq > 0 {
            jump_ok = mag_sq > sat_mul_i64(self.baseline_mag_sq, 4);
        }

        let hit = !in_cooldown && !freefall_guard && mag_sq >= self.threshold_sq && rising_fast
            && gyro_ok && axis_ok && ratio_ok && jump_ok;

        if hit {
            self.last_trigger_ms = now_ms;
        }
        hit
    }

    /// Dot product of the sample's acceleration with the learned gravity direction.
    pub fn gravity_dot(&self, sample: &ImuSample) -> (r: i64)
        requires
            self.wf(),
        ensures
            r == dot3(sample.accel, self.gravity_dir),
    {
        proof {
            lemma_dot_bound(sample.accel, self.gravity_dir);
            let (a0, a1, a2) = (sample.accel@[0] as int, sample.accel@[1] as int, sample.accel@[2] as int);
            let (x0, x1, x2) = (self.gravity_dir@[0] as int, self.gravity_dir@[1] as int, self.gravity_dir@[2] as int);
            assert(-65_503_232 <= a0 * x0 <= 65_503_232) by (nonlinear_arith)
                requires -32768 <= a0 <= 32767, -1999 <= x0 <= 1999;
            assert(-65_503_232 <= a1 * x1 <= 65_503_232) by (nonlinear_arith)
                requires -32768 <= a1 <= 32767, -1999 <= x1 <= 1999;
            assert(-65_503_232 <= a2 * x2 <= 65_503_232) by (nonlinear_arith)
                requires -32768 <= a2 <= 32767, -1999 <= x2 <= 1999;
        }
        (sample.accel[0] as i64 * self.gravity_dir[0] as i64) + (sample.accel[1] as i64
            * self.gravity_dir[1] as i64) + (sample.accel[2] as i64 * self.gravity_dir[2] as i64)
    }
}

proof fn lemma_sq_bound_i32(x: i32)
    requires
        -1999 <= x <= 1999,
    ensures
        (x as int) * (x as int) == sq(x as int),
        0 <= sq(x as int) <= 3_996_001,
{
    assert(0 <= (x as int) * (x as int) <= 3_996_001) by (nonlinear_arith)
        requires
            -1999 <= x <= 1999,
    ;
}

/// The detector after feeding it `events` (time and sample, oldest first), starting
/// from `d0`.
pub open spec fn run_spec(d0: SmashDetector, events: Seq<(u64, ImuSample)>) -> SmashDetector
    decreases events.len(),
{
    if events.len() == 0 {
        d0
    } else {
        update_spec(run_spec(d0, events.drop_last()), events.last().0, events.last().1).0
    }
}

/// Time of the last of `events` that reported a smash, or `d0.last_trigger_ms` when none
/// did (0 for a new detector).
pub open spec fn last_hit_time(d0: SmashDetector, events: Seq<(u64, ImuSample)>) -> u64
    decreases events.len(),
{
    if events.len() == 0 {
        d0.last_trigger_ms
    } else if update_spec(run_spec(d0, events.drop_last()), events.last().0, events.last().1).1 {
        events.last().0
    } else {
        last_hit_time(d0, events.drop_last())
    }
}

/// Squared acceleration of the sample fed last, or `d0.last_mag_sq` before any (0 for a
/// new detector).
pub open spec fn previous_mag_sq(d0: SmashDetector, events: Seq<(u64, ImuSample)>) -> int {
    if events.len() == 0 {
        d0.last_mag_sq as int
    } else {
        mag_sq3(events.last().1.accel)
    }
}

/// Whether the sample fed last was in free fall, or `d0.last_freefall` before any (false
/// for a new detector).
pub open spec fn previous_freefall(d0: SmashDetector, events: Seq<(u64, ImuSample)>) -> bool {
    if events.len() == 0 {
        d0.last_freefall
    } else {
        mag_sq3(events.last().1.accel) < d0.freefall_sq
    }
}

/// Feeding samples never changes the detector's settings; it remembers the time of the
/// last smash and the magnitude and free fall of the last sample.
pub proof fn lemma_run_history(d0: SmashDetector, events: Seq<(u64, ImuSample)>)
    ensures
        ({
            let s = run_spec(d0, events);
            &&& s.threshold_sq == d0.threshold_sq
            &&& s.rise_threshold_sq == d0.rise_threshold_sq
            &&& s.freefall_sq == d0.freefall_sq
            &&& s.gyro_limit_sq == d0.gyro_limit_sq
            &&& s.axis_ratio_num == d0.axis_ratio_num
            &&& s.axis_ratio_den == d0.axis_ratio_den
            &&& s.cooldown_ms == d0.cooldown_ms
            &&& s.last_trigger_ms == last_hit_time(d0, events)
            &&& s.last_mag_sq == previous_mag_sq(d0, events)
            &&& s.last_freefall == previous_freefall(d0, events)
        }),
    decreases events.len(),
{
    if events.len() > 0 {
        lemma_run_history(d0, events.drop_last());
        let (now, sample) = events.last();
        lemma_mag_bound(sample.accel);
    }
}

/// A smash is reported only for a sample at or above the threshold, and never sooner than
/// the cooldown after the previous smash: two smashes are at least `cooldown_ms` apart.
pub proof fn lemma_hit_threshold_cooldown(
    d0: SmashDetector,
    events: Seq<(u64, ImuSample)>,
    now_ms: u64,
    sample: ImuSample,
)
    ensures
        update_spec(run_spec(d0, events), now_ms, sample).1 ==> {
            &&& mag_sq3(sample.accel) >= d0.threshold_sq
            &&& sat_diff(now_ms as int, last_hit_time(d0, events) as int) >= d0.cooldown_ms
        },
{
    lemma_run_history(d0, events);
}

/// A smash needs the previous sample out of free fall and a rise from its magnitude of at
/// least the rise threshold.
pub proof fn lemma_hit_needs_rise(d0: SmashDetector, events: Seq<(u64, ImuSample)>, now_ms: u64, sample: ImuSample)
    requires
        d0.wf(),
    ensures
        update_spec(run_spec(d0, events), now_ms, sample).1 ==> {
            &&& !previous_freefall(d0, events)
            &&& mag_sq3(sample.accel) - previous_mag_sq(d0, events) >= d0.rise_threshold_sq
        },
{
    lemma_run_history(d0, events);
    lemma_mag_bound(sample.accel);
    if events.len() > 0 {
        lemma_mag_bound(events.last().1.accel);
    }
}

/// A squared sample magnitude lies between 0 and three times 32768².
pub(crate) proof fn lemma_mag_bound(v: [i16; 3])
    ensures
        0 <= mag_sq3(v) <= 3_221_225_472,
{
    lemma_sq_bound(v[0]);
    lemma_sq_bound(v[1]);
    lemma_sq_bound(v[2]);
}

/// Axis `k` of `a` dominates at ratio `num`:`den`: its magnitude times `den` is at least
/// `num` times the magnitude of each other axis.
pub open spec fn axis_dominates(a: [i16; 3], k: int, num: int, den: int) -> bool {
    forall|j: int| 0 <= j < 3 && j != k ==> abs_i(a@[k] as int) * den >= #[trigger] abs_i(a@[j] as int) * num
}

/// With the dominant-axis check on, a smash needs one axis whose magnitude, times the
/// ratio's denominator, is at least the numerator times the magnitude of each other axis
/// (with 2:1, the largest axis at least twice each other one).
pub proof fn lemma_hit_dominant_axis(s: SmashDetector, now_ms: u64, sample: ImuSample)
    requires
        s.axis_ratio_num > 0,
    ensures
        update_spec(s, now_ms, sample).1 ==> exists|k: int|
            0 <= k < 3 && #[trigger] axis_dominates(sample.accel, k, s.axis_ratio_num as int, s.axis_ratio_den as int),
{
    let a = sample.accel;
    let x = abs_i(a@[0] as int);
    let y = abs_i(a@[1] as int);
    let z = abs_i(a@[2] as int);
    let num = s.axis_ratio_num as int;
    let den = s.axis_ratio_den as int;
    let mx = max3(x, y, z);
    let lo = min3(x, y, z);
    let mid = x + y + z - mx - lo;
    if update_spec(s, now_ms, sample).1 {
        assert(mx * den >= mid * num && mx * den >= lo * num);
        if x >= y && x >= z {
            assert(forall|j: int| 0 <= j < 3 && j != 0 ==> abs_i(a@[j] as int) == mid || abs_i(a@[j] as int) == lo);
            assert(forall|j: int| 0 <= j < 3 && j != 0 ==> abs_i(a@[0] as int) * den >= #[trigger] abs_i(a@[j] as int) * num);
            assert(axis_dominates(a, 0, num, den));
        } else if y >= z {
            assert(forall|j: int| 0 <= j < 3 && j != 1 ==> abs_i(a@[j] as int) == mid || abs_i(a@[j] as int) == lo);
            assert(forall|j: int| 0 <= j < 3 && j != 1 ==> abs_i(a@[1] as int) * den >= #[trigger] abs_i(a@[j] as int) * num);
            assert(axis_dominates(a, 1, num, den));
        } else {
            assert(forall|j: int| 0 <= j < 3 && j != 2 ==> abs_i(a@[j] as int) == mid || abs_i(a@[j] as int) == lo);
            assert(forall|j: int| 0 <= j < 3 && j != 2 ==> abs_i(a@[2] as int) * den >= #[trigger] abs_i(a@[j] as int) * num);
            assert(axis_dominates(a, 2, num, den));
        }
    }
}

/// A register pair decodes to the one `i16` whose two's-complement bytes are the pair,
/// low byte first.
pub proof fn lemma_le_i16_bytes(lo: u8, hi: u8)
    ensures
        i16::MIN <= le_i16_spec(lo, hi) <= i16::MAX,
        (le_i16_spec(lo, hi) + 65536) % 65536 == lo + 256 * hi,
{
}

/// Each component of a decoded sample is the little-endian value of its own register
/// pair, in register order: acceleration x, y, z in bytes 0 to 5, then angular rate x,
/// y, z in bytes 6 to 11.
pub proof fn lemma_sample_components(buf: [u8; 12])
    ensures
        forall|i: int|
            0 <= i < 3 ==> (#[trigger] sample_from_regs(buf).accel@[i] + 65536) % 65536 == buf@[2 * i] + 256
                * buf@[2 * i + 1],
        forall|i: int|
            0 <= i < 3 ==> (#[trigger] sample_from_regs(buf).gyro@[i] + 65536) % 65536 == buf@[6 + 2 * i] + 256
                * buf@[7 + 2 * i],
{
    let r = sample_from_regs(buf);
    assert forall|i: int| 0 <= i < 3 implies (#[trigger] r.accel@[i] + 65536) % 65536 == buf@[2 * i] + 256 * buf@[2 * i + 1] by {
        lemma_le_i16_bytes(buf@[2 * i], buf@[2 * i + 1]);
    }
    assert forall|i: int| 0 <= i < 3 implies (#[trigger] r.gyro@[i] + 65536) % 65536 == buf@[6 + 2 * i] + 256 * buf@[7 + 2 * i] by {
        lemma_le_i16_bytes(buf@[6 + 2 * i], buf@[7 + 2 * i]);
    }
}

} // verus!
