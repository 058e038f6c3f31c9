// Register format of the PCF85063 real-time clock and calendar/Unix-time conversion.
//
// The time registers start at 0x04: seconds, minutes, hours, day, weekday, month,
// year, each in BCD. Bit 7 of the seconds register is the "clock integrity lost" flag.
use vstd::prelude::*;
use crate::qmi8658_imu::tdiv;

verus! {

/// I2C address of the clock.
pub const PCF85063_ADDR: u8 = 0x51;
/// First time register (seconds).
pub const REG_SECONDS: u8 = 0x04;

#[derive(Copy, Clone, Debug, PartialEq, Eq, Structural)]
pub struct DateTime {
    /// Full year, e.g. 2024.
    pub year: u16,
    /// 1 to 12.
    pub month: u8,
    /// 1 to 31.
    pub day: u8,
    /// 0 to 23.
    pub hour: u8,
    /// 0 to 59.
    pub minute: u8,
    /// 0 to 59.
    pub second: u8,
}

/// Value of a BCD byte: low nibble plus ten times the high nibble.
pub open spec fn bcd_value(v: u8) -> int {
    (v % 16) + (v / 16) * 10
}

/// BCD byte of `v` below 100: tens in the high nibble, units in the low one.
pub open spec fn bcd_byte(v: int) -> int {
    (v / 10) * 16 + v % 10
}

pub fn bcd_decode(v: u8) -> (r: u8)
    ensures
        r == bcd_value(v),
{
    let lo = v & 0x0F;
    let hi = v >> 4;
    assert(lo == v % 16 && hi == v / 16) by (bit_vector)
        requires
            lo == v & 0x0F,
            hi == v >> 4,
    ;
    lo + hi * 10
}

/// Encodes `v` as BCD. Values of 100 and more do not fit in two digits; their tens
/// digit is shifted past the byte and cut off.
pub fn bcd_encode(v: u8) -> (r: u8)
    ensures
        v < 100 ==> r == bcd_byte(v as int),
        r == ((((v / 10) as u8) << 4u8) | ((v % 10) as u8)),
{
    let t = v / 10;
    let u = v % 10;
    let r = (t << 4u8) | u;
    proof {
        if v < 100 {
            assert(t < 10 && u < 10);
            assert(r == t * 16 + u) by (bit_vector)
                requires
                    t < 10,
                    u < 10,
                    r == (t << 4u8) | u,
            ;
        }
    }
    r
}

/// What the clock registers say: the date and time, and whether the integrity flag
/// is set (the time is unreliable after a power loss).
pub open spec fn decode_spec(regs: [u8; 7]) -> (DateTime, bool) {
    let month_raw = regs[5];
    let century_bit = month_raw >= 128;
    (
        DateTime {
            year: (if century_bit { 1900 + bcd_value(regs[6]) } else { 2000 + bcd_value(regs[6]) }) as u16,
            month: bcd_value(month_raw % 32) as u8,
            day: bcd_value(regs[3] % 64) as u8,
            hour: bcd_value(regs[2] % 64) as u8,
            minute: bcd_value(regs[1] % 128) as u8,
            second: bcd_value(regs[0] % 128) as u8,
        },
        regs[0] >= 128,
    )
}

/// Decodes the seven time registers read from 0x04 onward.
pub fn decode_datetime(regs: &[u8; 7]) -> (r: (DateTime, bool))
    ensures
        r == decode_spec(*regs),
{
    let b0 = regs[0];
    let b1 = regs[1];
    let b2 = regs[2];
    let b3 = regs[3];
    let b5 = regs[5];
    let b6 = regs[6];
    let vl = (b0 & 0x80) != 0;
    let m0 = b0 & 0x7F;
    let m1 = b1 & 0x7F;
    let m2 = b2 & 0x3F;
    let m3 = b3 & 0x3F;
    let m5 = b5 & 0x1F;
    let century = (b5 & 0x80) != 0;
    proof {
        assert(vl == (b0 >= 128) && m0 == b0 % 128) by (bit_vector)
            requires
                vl == ((b0 & 0x80) != 0),
                m0 == b0 & 0x7F,
        ;
        assert(m1 == b1 % 128 && m2 == b2 % 64 && m3 == b3 % 64 && m5 == b5 % 32) by (bit_vector)
            requires
                m1 == b1 & 0x7F,
                m2 == b2 & 0x3F,
                m3 == b3 & 0x3F,
                m5 == b5 & 0x1F,
        ;
        assert(century == (b5 >= 128)) by (bit_vector)
            requires
                century == ((b5 & 0x80) != 0),
        ;
    }
    let sec = bcd_decode(m0);
    let min = bcd_decode(m1);
    let hour = bcd_decode(m2);
    let day = bcd_decode(m3);
    let month = bcd_decode(m5);
    let yv = bcd_decode(b6) as u16;
    let year = if century { 1900u16 + yv } else { 2000u16 + yv };
    (DateTime { year, month, day, hour, minute: min, second: sec }, vl)
}

/// The eight bytes written to set the clock: the start register, then seconds,
/// minutes, hours, day, weekday (unused, 0), month and the year within its century.
pub fn encode_datetime(dt: &DateTime) -> (r: [u8; 8])
    ensures
        r[0] == REG_SECONDS,
        dt.second < 100 ==> r[1] == bcd_byte(dt.second as int),
        dt.minute < 100 ==> r[2] == bcd_byte(dt.minute as int),
        dt.hour < 100 ==> r[3] == bcd_byte(dt.hour as int),
        dt.day < 100 ==> r[4] == bcd_byte(dt.day as int),
        r[5] == 0,
        dt.month < 100 ==> r[6] == bcd_byte(dt.month as int),
        r[7] == bcd_byte((dt.year % 100) as int),
{
    let yr = (dt.year % 100) as u8;
    [
        REG_SECONDS,
        bcd_encode(dt.second),
        bcd_encode(dt.minute),
        bcd_encode(dt.hour),
        bcd_encode(dt.day),
        0,
        bcd_encode(dt.month),
        bcd_encode(yr),
    ]
}

/// Day number of a date counted from 1970-01-01 (proleptic Gregorian calendar, with
/// March as the first month of the counting year).
pub open spec fn days_from_civil(year: int, month: int, day: int) -> int {
    let y1 = if month <= 2 { year - 1 } else { year };
    let m1 = if month <= 2 { month + 12 } else { month };
    let era = tdiv(y1, 400);
    let yoe = y1 - era * 400;
    let doy = tdiv(153 * (m1 + 1), 5) + day - 123;
    let doe = yoe * 365 + tdiv(yoe, 4) - tdiv(yoe, 100) + doy;
    era * 146097 + doe - 719468
}

/// Days since 1970-01-01, as a `u32` (dates before 1970 wrap around).
fn days_since_unix(year: u16, month: u8, day: u8) -> (r: u32)
    ensures
        r == days_from_civil(year as int, month as int, day as int) % 0x1_0000_0000,
{
    let y = year as i32;
    let m = month as i32;
    let d = day as i32;
    let (y1, m1): (i32, i32) = if m <= 2 { (y - 1, m + 12) } else { (y, m) };
    let era = y1 / 400;
    let yoe = y1 - era * 400;
    let doy = 153 * (m1 + 1) / 5 + d - 123;
    let doe = yoe * 365 + yoe / 4 - yoe / 100 + doy;
    let v: i32 = era * 146097 + doe - 719468;
    let r = v as u32;
    assert((v >= 0 ==> r as i64 == v as i64) && (v < 0 ==> r as i64 == v as i64 + 0x1_0000_0000i64)) by (bit_vector)
        requires
            r == v as u32,
    ;
    r
}

/// Seconds of a date and time since 1970-01-01 00:00:00, saturating at `u32::MAX`.
pub open spec fn to_unix_spec(dt: DateTime) -> int {
    let days = days_from_civil(dt.year as int, dt.month as int, dt.day as int) % 0x1_0000_0000;
    let s = days * 86400 + dt.hour * 3600 + dt.minute * 60 + dt.second;
    if s > u32::MAX { u32::MAX as int } else { s }
}

pub fn datetime_to_unix(dt: &DateTime) -> (r: u32)
    ensures
        r == to_unix_spec(*dt),
{
    let days = days_since_unix(dt.year, dt.month, dt.day) as u64;
    let secs = days * 86_400 + (dt.hour as u64) * 3600 + (dt.minute as u64) * 60 + (dt.second as u64);
    if secs > 0xFFFF_FFFFu64 {
        0xFFFF_FFFFu32
    } else {
        secs as u32
    }
}

/// Plausibility of a decoded time: years 2020 to 2099 and fields in their ranges
/// (the day is not checked against the month's length).
pub open spec fn is_valid_spec(dt: DateTime) -> bool {
    &&& 2020 <= dt.year <= 2099
    &&& 1 <= dt.month <= 12
    &&& 1 <= dt.day <= 31
    &&& dt.hour < 24
    &&& dt.minute < 60
    &&& dt.second < 60
}

pub fn datetime_is_valid(dt: &DateTime) -> (r: bool)
    ensures
        r == is_valid_spec(*dt),
{
    2020 <= dt.year && dt.year <= 2099 && 1 <= dt.month && dt.month <= 12 && 1 <= dt.day && dt.day <= 31
        && dt.hour < 24 && dt.minute < 60 && dt.second < 60
}

/// The calendar date of day number `days` (counted from 1970-01-01), as
/// (year, month, day).
pub open spec fn civil_from_days(days: int) -> (int, int, int) {
    let z = days + 719468;
    let era = z / 146097;
    let doe = z - era * 146097;
    let yoe = tdiv(doe - tdiv(doe, 1460) + tdiv(doe, 36524) - tdiv(doe, 146096), 365);
    let y = yoe + era * 400;
    let doy = doe - (365 * yoe + tdiv(yoe, 4) - tdiv(yoe, 100));
    let mp = tdiv(5 * doy + 2, 153);
    let day = doy - tdiv(153 * mp + 2, 5) + 1;
    let month = if mp < 10 { mp + 3 } else { mp - 9 };
    let year = if month <= 2 { y + 1 } else { y };
    (year, month, day)
}

pub open spec fn from_unix_spec(ts: u32) -> DateTime {
    let (y, mo, d) = civil_from_days((ts / 86400) as int);
    let rem = ts % 86400;
    DateTime {
        year: y as u16,
        month: mo as u8,
        day: d as u8,
        hour: (rem / 3600) as u8,
        minute: ((rem % 3600) / 60) as u8,
        second: (rem % 60) as u8,
    }
}

/// Calendar date and time of a Unix timestamp.
pub fn unix_to_datetime(ts: u32) -> (r: DateTime)
    ensures
        r == from_unix_spec(ts),
{
    let days = ts / 86400;
    let rem = ts % 86400;
    let hour = (rem / 3600) as u8;
    let rem2 = rem % 3600;
    let minute = (rem2 / 60) as u8;
    let second = (rem2 % 60) as u8;
    proof {
        vstd::arithmetic::div_mod::lemma_mod_mod(rem as int, 60, 60);
        assert(rem % 60 == (rem % 3600) % 60);
    }
    let z: i32 = days as i32 + 719468;
    let era: i32 = if z >= 0 { z / 146097 } else { (z - 146096) / 146097 };
    let doe = z - era * 146097;
    let yoe = (doe - doe / 1460 + doe / 36524 - doe / 146096) / 365;
    let y = yoe + era * 400;
    let doy = doe - (365 * yoe + yoe / 4 - yoe / 100);
    let mp = (5 * doy + 2) / 153;
    let day = doy - (153 * mp + 2) / 5 + 1;
    let month = mp + if mp < 10 { 3 } else { -9 };
    let year = y + if month <= 2 { 1 } else { 0 };
    DateTime { year: year as u16, month: month as u8, day: day as u8, hour, minute, second }
}

/// The clock chip on its bus. Register access goes through the bus, which the caller
/// reaches with `bus_mut`; the register formats are `decode_datetime` and `encode_datetime`.
pub struct Pcf85063<I2C> {
    i2c: I2C,
}

impl<I2C> Pcf85063<I2C> {
    pub closed spec fn bus(&self) -> I2C {
        self.i2c
    }

    pub fn new(i2c: I2C) -> (r: Self)
        ensures
            r.bus() == i2c,
    {
        Pcf85063 { i2c }
    }

    /// Gives the bus back.
    pub fn into_inner(self) -> (r: I2C)
        ensures
            r == self.bus(),
    {
        self.i2c
    }

    pub fn bus_mut(&mut self) -> (r: &mut I2C)
        ensures
            *r == old(self).bus(),
            final(self).bus() == *final(r),
    {
        &mut self.i2c
    }
}

/// The Unix time to start the clock from after reading the chip: none when the read
/// failed, the integrity flag is set, or the time is implausible.
pub fn rtc_seconds_from_read(read: Option<(DateTime, bool)>) -> (r: Option<u32>)
    ensures
        r == (match read {
            Some((dt, vl)) => if !vl && is_valid_spec(dt) { Some(to_unix_spec(dt) as u32) } else { None },
            None => None,
        }),
{
    match read {
        Some((dt, vl)) => {
            if vl {
                None
            } else if datetime_is_valid(&dt) {
                Some(datetime_to_unix(&dt))
            } else {
                None
            }
        },
        None => None,
    }
}

/// Number of times the chip is read before giving up.
pub const RTC_READ_ATTEMPTS: u32 = 3;

/// Pause after failed read number `attempt` (from 0): 10 ms longer each time.
pub fn rtc_retry_delay_ms(attempt: u32) -> (r: u32)
    requires
        attempt < RTC_READ_ATTEMPTS,
    ensures
        r == 10 + attempt * 10,
{
    10 + attempt * 10
}

/// The seven time registers that hold `dt` (weekday 0, century bit clear).
pub open spec fn time_registers(dt: DateTime) -> [u8; 7] {
    [
        bcd_byte(dt.second as int) as u8,
        bcd_byte(dt.minute as int) as u8,
        bcd_byte(dt.hour as int) as u8,
        bcd_byte(dt.day as int) as u8,
        0u8,
        bcd_byte(dt.month as int) as u8,
        bcd_byte((dt.year % 100) as int) as u8,
    ]
}

proof fn lemma_bcd_roundtrip(v: int)
    requires
        0 <= v < 100,
    ensures
        0 <= bcd_byte(v) <= 0x99,
        bcd_byte(v) % 16 == v % 10,
        bcd_byte(v) / 16 == v / 10,
        bcd_value(bcd_byte(v) as u8) == v,
{
    let t = v / 10;
    let u = v % 10;
    assert(0 <= t < 10 && 0 <= u < 10);
    assert((16 * t + u) % 16 == u && (16 * t + u) / 16 == t) by (nonlinear_arith)
        requires
            0 <= u < 10,
            0 <= t,
    {
        vstd::arithmetic::div_mod::lemma_fundamental_div_mod_converse(16 * t + u, 16, t, u);
    }
    assert(v == 10 * t + u);
}

/// Setting the clock to a plausible time and reading the registers back gives the same
/// time, with the integrity flag clear.
pub proof fn lemma_register_roundtrip(dt: DateTime)
    requires
        is_valid_spec(dt),
    ensures
        decode_spec(time_registers(dt)) == (dt, false),
        forall|i: int| 0 <= i < 7 ==> #[trigger] time_registers(dt)[i] == encode_spec_byte(dt, i + 1),
{
    let regs = time_registers(dt);
    lemma_bcd_roundtrip(dt.second as int);
    lemma_bcd_roundtrip(dt.minute as int);
    lemma_bcd_roundtrip(dt.hour as int);
    lemma_bcd_roundtrip(dt.day as int);
    lemma_bcd_roundtrip(dt.month as int);
    lemma_bcd_roundtrip((dt.year % 100) as int);
    assert(regs[0] % 128 == regs[0]);
    assert(regs[1] % 128 == regs[1]);
    assert(regs[2] % 64 == regs[2]);
    assert(regs[3] % 64 == regs[3]);
    assert(regs[5] % 32 == regs[5]);
    assert(dt.year == 2000 + dt.year % 100);
}

/// Byte `i` of what `encode_datetime` writes for a time whose fields are below 100.
pub open spec fn encode_spec_byte(dt: DateTime, i: int) -> u8 {
    if i == 0 {
        REG_SECONDS
    } else if i == 5 {
        0
    } else {
        let v = if i == 1 { dt.second as int } else if i == 2 { dt.minute as int } else if i == 3 {
            dt.hour as int
        } else if i == 4 { dt.day as int } else if i == 6 { dt.month as int } else { (dt.year % 100) as int };
        bcd_byte(v) as u8
    }
}

/// Year of era and day of year found from a day of the 400-year era stay in range.
#[verifier::spinoff_prover]
#[verifier::rlimit(100)]
proof fn lemma_era_day_bounds(doe: int)
    requires
        0 <= doe <= 146096,
    ensures
        ({
            let yoe = (doe - doe / 1460 + doe / 36524 - doe / 146096) / 365;
            let doy = doe - (365 * yoe + yoe / 4 - yoe / 100);
            &&& 0 <= yoe <= 399
            &&& 0 <= doy <= 365
        }),
{
    let a = doe / 1460;
    let b = doe / 36524;
    let c = doe / 146096;
    let n = doe - a + b - c;
    let yoe = n / 365;
    let p = yoe / 4;
    let q = yoe / 100;
    assert(1460 * a <= doe < 1460 * a + 1460);
    assert(36524 * b <= doe < 36524 * b + 36524);
    assert(146096 * c <= doe < 146096 * c + 146096);
    assert(0 <= n);
    assert(365 * yoe <= n < 365 * yoe + 365);
    assert(4 * p <= yoe < 4 * p + 4);
    assert(100 * q <= yoe < 100 * q + 100);
    assert(0 <= yoe <= 399);
    assert(0 <= doe - (365 * yoe + p - q) <= 365);
}

/// Converting a day number (up to 2106-02-07) to a calendar date and back gives the
/// same day number, and the date's fields are in range.
#[verifier::spinoff_prover]
proof fn lemma_civil_roundtrip(d: int)
    requires
        0 <= d <= 49710,
    ensures
        ({
            let (y, m, dd) = civil_from_days(d);
            &&& 1970 <= y <= 2106
            &&& 1 <= m <= 12
            &&& 1 <= dd <= 31
            &&& days_from_civil(y, m, dd) == d
        }),
{
    let z = d + 719468;
    let era = z / 146097;
    let doe = z - era * 146097;
    assert(146097 * era <= z < 146097 * era + 146097);
    assert(4 <= era <= 5);
    assert(0 <= doe <= 146096);
    lemma_era_day_bounds(doe);
    let yoe = (doe - doe / 1460 + doe / 36524 - doe / 146096) / 365;
    assert(tdiv(doe - tdiv(doe, 1460) + tdiv(doe, 36524) - tdiv(doe, 146096), 365) == yoe);
    let y = yoe + era * 400;
    let doy = doe - (365 * yoe + yoe / 4 - yoe / 100);
    assert(tdiv(yoe, 4) == yoe / 4 && tdiv(yoe, 100) == yoe / 100);
    let mp = (5 * doy + 2) / 153;
    assert(153 * mp <= 5 * doy + 2 < 153 * mp + 153);
    assert(0 <= mp <= 11);
    assert(tdiv(5 * doy + 2, 153) == mp);
    let k = (153 * mp + 2) / 5;
    assert(5 * k <= 153 * mp + 2 < 5 * k + 5);
    assert(tdiv(153 * mp + 2, 5) == k);
    let day = doy - k + 1;
    assert(1 <= day <= 31);
    let month = if mp < 10 { mp + 3 } else { mp - 9 };
    let year = if month <= 2 { y + 1 } else { y };
    assert(civil_from_days(d) == (year, month, day));
    let y1 = if month <= 2 { year - 1 } else { year };
    let m1 = if month <= 2 { month + 12 } else { month };
    assert(y1 == y && m1 == mp + 3);
    assert((y1 - 400 * era) / 400 == 0);
    assert(y1 / 400 == era) by {
        vstd::arithmetic::div_mod::lemma_fundamental_div_mod_converse(y1, 400, era, yoe);
    }
    assert(tdiv(y1, 400) == era);
    let k2 = (153 * (m1 + 1)) / 5;
    assert(5 * k2 <= 153 * (m1 + 1) < 5 * k2 + 5);
    assert(k2 == k + 122);
    assert(tdiv(153 * (m1 + 1), 5) == k2);
}

/// Turning a Unix timestamp into a date and time and back gives the same timestamp,
/// for every `u32` timestamp (up to 2106-02-07 06:28:15).
#[verifier::spinoff_prover]
#[verifier::rlimit(50)]
pub proof fn lemma_unix_roundtrip(ts: u32)
    ensures
        to_unix_spec(from_unix_spec(ts)) == ts,
{
    let days = ts / 86400;
    let rem = ts % 86400;
    assert(0 <= days <= 49710);
    lemma_civil_roundtrip(days as int);
    let (y, mo, d) = civil_from_days(days as int);
    let dt = from_unix_spec(ts);
    assert(dt.year == y && dt.month == mo && dt.day == d);
    let h = rem / 3600;
    let r2 = rem % 3600;
    assert(dt.hour == h && dt.minute == r2 / 60 && dt.second == rem % 60);
    vstd::arithmetic::div_mod::lemma_mod_mod(rem as int, 60, 60);
    assert(rem == h * 3600 + r2);
    assert(r2 == (r2 / 60) * 60 + r2 % 60);
    assert(r2 % 60 == rem % 60);
    assert(days_from_civil(dt.year as int, dt.month as int, dt.day as int) == days);
    assert((days as int) % 0x1_0000_0000 == days);
    assert(ts == days * 86400 + rem);
}


/// Saving the clock to the chip and reading it back restores it: for every timestamp
/// whose date the chip's register format holds (2020 to 2099), the registers written
/// for it decode to a plausible time with the integrity flag clear, and that time is
/// the same timestamp.
pub proof fn lemma_rtc_save_restore(ts: u32)
    requires
        is_valid_spec(from_unix_spec(ts)),
    ensures
        ({
            let (dt, vl) = decode_spec(time_registers(from_unix_spec(ts)));
            &&& !vl
            &&& is_valid_spec(dt)
            &&& to_unix_spec(dt) == ts
        }),
{
    lemma_register_roundtrip(from_unix_spec(ts));
    lemma_unix_roundtrip(ts);
}


/// Gregorian leap year.
pub open spec fn is_leap_year(y: int) -> bool {
    y % 4 == 0 && (y % 100 != 0 || y % 400 == 0)
}

/// Number of days of month `m` (1 to 12) of year `y`.
pub open spec fn days_in_month(y: int, m: int) -> int {
    if m == 2 {
        if is_leap_year(y) { 29 } else { 28 }
    } else if m == 4 || m == 6 || m == 9 || m == 11 {
        30
    } else {
        31
    }
}

/// Within a 400-year era, the March-based year `yoe` starts at day
/// `365 * yoe + yoe / 4 - yoe / 100`; every day of that year is mapped back to `yoe`.
#[verifier::spinoff_prover]
#[verifier::rlimit(100)]
proof fn lemma_year_of_era(yoe: int, doy: int)
    requires
        0 <= yoe <= 399,
        0 <= doy,
        doy <= 364 || (doy == 365 && yoe % 4 == 3 && (yoe % 100 != 99 || yoe == 399)),
    ensures
        ({
            let doe = 365 * yoe + yoe / 4 - yoe / 100 + doy;
            &&& 0 <= doe <= 146096
            &&& (doe - doe / 1460 + doe / 36524 - doe / 146096) / 365 == yoe
        }),
{
    let q4 = yoe / 4;
    let q100 = yoe / 100;
    assert(4 * q4 <= yoe < 4 * q4 + 4);
    assert(100 * q100 <= yoe < 100 * q100 + 100);
    let doe = 365 * yoe + q4 - q100 + doy;
    let a = doe / 1460;
    let b = doe / 36524;
    let c = doe / 146096;
    assert(1460 * a <= doe < 1460 * a + 1460);
    assert(36524 * b <= doe < 36524 * b + 36524);
    assert(146096 * c <= doe < 146096 * c + 146096);
    let n = doe - a + b - c;
    assert(365 * yoe <= n < 365 * yoe + 365);
    vstd::arithmetic::div_mod::lemma_fundamental_div_mod_converse(n, 365, yoe, n - 365 * yoe);
}

/// Within a March-based year, day `d` of month number `mp` (0 = March) lies
/// `(153 * mp + 2) / 5 + d - 1` days after March 1, and is mapped back to `mp` and `d`.
proof fn lemma_month_of_year(mp: int, d: int, feb_len: int)
    requires
        0 <= mp <= 11,
        1 <= d,
        28 <= feb_len <= 29,
        d <= (if mp == 11 { feb_len } else if mp == 1 || mp == 3 || mp == 6 || mp == 8 { 30 } else { 31 }),
    ensures
        ({
            let doy = (153 * mp + 2) / 5 + d - 1;
            &&& (5 * doy + 2) / 153 == mp
            &&& doy - (153 * mp + 2) / 5 + 1 == d
            &&& 0 <= doy <= 336 + feb_len
        }),
{
    let k = (153 * mp + 2) / 5;
    assert(5 * k <= 153 * mp + 2 < 5 * k + 5);
    let doy = k + d - 1;
    let q = (5 * doy + 2) / 153;
    assert(153 * q <= 5 * doy + 2 < 153 * q + 153);
    if mp == 0 { assert(k == 0); } else if mp == 1 { assert(k == 31); } else if mp == 2 { assert(k == 61); }
    else if mp == 3 { assert(k == 92); } else if mp == 4 { assert(k == 122); } else if mp == 5 { assert(k == 153); }
    else if mp == 6 { assert(k == 184); } else if mp == 7 { assert(k == 214); } else if mp == 8 { assert(k == 245); }
    else if mp == 9 { assert(k == 275); } else if mp == 10 { assert(k == 306); } else { assert(k == 337); }
    assert(q == mp);
}

/// Converting a date that exists (1970 to 2106) to its day number and back gives the
/// same date.
#[verifier::spinoff_prover]
#[verifier::rlimit(50)]
proof fn lemma_days_roundtrip(y: int, m: int, d: int)
    requires
        1970 <= y <= 2106,
        1 <= m <= 12,
        1 <= d <= days_in_month(y, m),
    ensures
        civil_from_days(days_from_civil(y, m, d)) == (y, m, d),
{
    let y1 = if m <= 2 { y - 1 } else { y };
    let m1 = if m <= 2 { m + 12 } else { m };
    let mp = m1 - 3;
    let era = y1 / 400;
    let yoe = y1 % 400;
    assert(era == 4 || era == 5);
    assert(y1 == 400 * era + yoe);
    assert(tdiv(y1, 400) == era);
    let feb_len = if is_leap_year(y1 + 1) { 29 } else { 28 };
    lemma_month_of_year(mp, d, feb_len);
    let k = (153 * mp + 2) / 5;
    let doy = k + d - 1;
    assert(153 * (m1 + 1) == 153 * mp + 2 + 610);
    assert(tdiv(153 * (m1 + 1), 5) == k + 122);
    assert(doy == tdiv(153 * (m1 + 1), 5) + d - 123);
    assert((y1 + 1) % 4 == 0 <==> yoe % 4 == 3);
    assert((y1 + 1) % 100 == 0 <==> yoe % 100 == 99);
    assert((y1 + 1) % 400 == 0 <==> yoe == 399);
    lemma_year_of_era(yoe, doy);
    assert(tdiv(yoe, 4) == yoe / 4 && tdiv(yoe, 100) == yoe / 100);
    let doe = 365 * yoe + yoe / 4 - yoe / 100 + doy;
    let days = days_from_civil(y, m, d);
    assert(days == era * 146097 + doe - 719468);
    let z = days + 719468;
    vstd::arithmetic::div_mod::lemma_fundamental_div_mod_converse(z, 146097, era, doe);
    let n = doe - doe / 1460 + doe / 36524 - doe / 146096;
    assert(tdiv(n, 365) == yoe);
    assert(tdiv(doe, 1460) == doe / 1460 && tdiv(doe, 36524) == doe / 36524 && tdiv(doe, 146096) == doe / 146096);
    assert(tdiv(5 * doy + 2, 153) == mp);
    assert(tdiv(153 * mp + 2, 5) == k);
}

/// A date and time that exists on the Gregorian calendar, in the years 1970 to 2105
/// (the years whose every instant a `u32` timestamp reaches).
pub open spec fn is_calendar_datetime(dt: DateTime) -> bool {
    &&& 1970 <= dt.year <= 2105
    &&& 1 <= dt.month <= 12
    &&& 1 <= dt.day <= days_in_month(dt.year as int, dt.month as int)
    &&& dt.hour < 24
    &&& dt.minute < 60
    &&& dt.second < 60
}

/// Day number of the first day of month `m` of year `y`.
pub open spec fn month_start(y: int, m: int) -> int {
    days_from_civil(y, m, 1)
}

/// The month that follows month `m` of year `y`.
pub open spec fn next_month(y: int, m: int) -> (int, int) {
    if m == 12 { (y + 1, 1) } else { (y, m + 1) }
}

/// Month `m1` of year `y1` comes before month `m2` of year `y2`.
pub open spec fn month_before(y1: int, m1: int, y2: int, m2: int) -> bool {
    y1 < y2 || (y1 == y2 && m1 < m2)
}

/// Calendar order of date-times: by year, then month, day, hour, minute and second.
pub open spec fn datetime_before(a: DateTime, b: DateTime) -> bool {
    if a.year != b.year {
        a.year < b.year
    } else if a.month != b.month {
        a.month < b.month
    } else if a.day != b.day {
        a.day < b.day
    } else if a.hour != b.hour {
        a.hour < b.hour
    } else if a.minute != b.minute {
        a.minute < b.minute
    } else {
        a.second < b.second
    }
}

/// Day `d` of a month lies `d - 1` days after the month's first day.
proof fn lemma_day_offset(y: int, m: int, d: int)
    ensures
        days_from_civil(y, m, d) == month_start(y, m) + d - 1,
{
}

/// Start of the March-based year `y` within the day count (before the shift to 1970).
spec fn march_year_start(y: int) -> int {
    let era = tdiv(y, 400);
    let yoe = y - era * 400;
    era * 146097 + yoe * 365 + tdiv(yoe, 4) - tdiv(yoe, 100)
}

/// The March-based year that ends before March of `y` has 366 days when `y` is a leap
/// year and 365 otherwise.
#[verifier::spinoff_prover]
proof fn lemma_year_length(y: int)
    requires
        1 <= y,
    ensures
        march_year_start(y) - march_year_start(y - 1) == if is_leap_year(y) { 366int } else { 365int },
{
    let era = y / 400;
    let r = y % 400;
    assert(tdiv(y, 400) == era);
    assert(y == 400 * era + r);
    if r == 0 {
        vstd::arithmetic::div_mod::lemma_fundamental_div_mod_converse(y - 1, 400, era - 1, 399);
        assert(tdiv(y - 1, 400) == era - 1);
        assert(y % 4 == 0 && y % 100 == 0);
    } else {
        vstd::arithmetic::div_mod::lemma_fundamental_div_mod_converse(y - 1, 400, era, r - 1);
        assert(tdiv(y - 1, 400) == era);
        assert(tdiv(r, 4) == r / 4 && tdiv(r - 1, 4) == (r - 1) / 4);
        assert(tdiv(r, 100) == r / 100 && tdiv(r - 1, 100) == (r - 1) / 100);
        vstd::arithmetic::div_mod::lemma_fundamental_div_mod_converse(y, 4, 100 * era + r / 4, r % 4);
        vstd::arithmetic::div_mod::lemma_fundamental_div_mod_converse(y, 100, 4 * era + r / 100, r % 100);
        assert(y % 400 != 0);
    }
}

/// The first day of a month plus the month's length is the first day of the next month.
#[verifier::spinoff_prover]
proof fn lemma_month_step(y: int, m: int)
    requires
        1970 <= y,
        1 <= m <= 12,
    ensures
        month_start(y, m) + days_in_month(y, m) == month_start(next_month(y, m).0, next_month(y, m).1),
{
    let (ny, nm) = next_month(y, m);
    if m == 2 {
        lemma_year_length(y);
        assert(month_start(y, 2) == march_year_start(y - 1) + 337 - 719468);
        assert(month_start(y, 3) == march_year_start(y) - 719468);
    } else if m == 1 {
        assert(month_start(y, 1) == march_year_start(y - 1) + tdiv(2142, 5) - 122 - 719468);
        assert(month_start(y, 2) == march_year_start(y - 1) + tdiv(2295, 5) - 122 - 719468);
    } else if m == 12 {
        assert(month_start(y, 12) == march_year_start(y) + tdiv(1989, 5) - 122 - 719468);
        assert(month_start(y + 1, 1) == march_year_start(y) + tdiv(2142, 5) - 122 - 719468);
    } else {
        assert(month_start(y, m) == march_year_start(y) + tdiv(153 * (m + 1), 5) - 122 - 719468);
        assert(month_start(y, m + 1) == march_year_start(y) + tdiv(153 * (m + 2), 5) - 122 - 719468);
    }
}

/// A month that comes before another ends no later than the other begins.
#[verifier::spinoff_prover]
proof fn lemma_month_order(y1: int, m1: int, y2: int, m2: int)
    requires
        1970 <= y1,
        1 <= m1 <= 12,
        1 <= m2 <= 12,
        month_before(y1, m1, y2, m2),
    ensures
        month_start(y1, m1) + days_in_month(y1, m1) <= month_start(y2, m2),
    decreases 12 * y2 + m2 - 12 * y1 - m1,
{
    lemma_month_step(y1, m1);
    let (ny, nm) = next_month(y1, m1);
    if !(ny == y2 && nm == m2) {
        lemma_month_order(ny, nm, y2, m2);
    }
}

/// Day numbers follow calendar order: a date that exists comes before every later
/// date.
#[verifier::spinoff_prover]
proof fn lemma_day_order(y1: int, m1: int, d1: int, y2: int, m2: int, d2: int)
    requires
        1970 <= y1,
        1 <= m1 <= 12,
        1 <= m2 <= 12,
        1 <= d1 <= days_in_month(y1, m1),
        1 <= d2,
        month_before(y1, m1, y2, m2) || (y1 == y2 && m1 == m2 && d1 < d2),
    ensures
        days_from_civil(y1, m1, d1) < days_from_civil(y2, m2, d2),
{
    lemma_day_offset(y1, m1, d1);
    lemma_day_offset(y2, m2, d2);
    if month_before(y1, m1, y2, m2) {
        lemma_month_order(y1, m1, y2, m2);
    }
}

/// The day number of a date that exists in the years 1970 to 2105 lies between
/// 1970-01-01 (day 0) and 2105-12-31 (day 49672).
proof fn lemma_day_number_range(y: int, m: int, d: int)
    requires
        1970 <= y <= 2105,
        1 <= m <= 12,
        1 <= d <= days_in_month(y, m),
    ensures
        0 <= days_from_civil(y, m, d) <= 49672,
{
    assert(days_from_civil(1970, 1, 1) == 0);
    assert(days_from_civil(2106, 1, 1) == 49673);
    if !(y == 1970 && m == 1 && d == 1) {
        lemma_day_order(1970, 1, 1, y, m, d);
    }
    lemma_day_order(y, m, d, 2106, 1, 1);
}

/// Seconds of a date and time that exists in the years 1970 to 2105: its day number
/// times a day's length plus the seconds into that day, with no saturation.
proof fn lemma_calendar_seconds(dt: DateTime)
    requires
        is_calendar_datetime(dt),
    ensures
        to_unix_spec(dt) == days_from_civil(dt.year as int, dt.month as int, dt.day as int) * 86400
            + dt.hour * 3600 + dt.minute * 60 + dt.second,
        to_unix_spec(dt) <= 49672 * 86400 + 86399,
{
    let days = days_from_civil(dt.year as int, dt.month as int, dt.day as int);
    lemma_day_number_range(dt.year as int, dt.month as int, dt.day as int);
    assert(days % 0x1_0000_0000 == days);
}

/// A date and time that exists on the calendar (1970 to 2105) survives the trip to a
/// Unix timestamp and back.
#[verifier::spinoff_prover]
pub proof fn lemma_datetime_roundtrip(dt: DateTime)
    requires
        is_calendar_datetime(dt),
    ensures
        from_unix_spec(to_unix_spec(dt) as u32) == dt,
{
    let days = days_from_civil(dt.year as int, dt.month as int, dt.day as int);
    lemma_days_roundtrip(dt.year as int, dt.month as int, dt.day as int);
    lemma_calendar_seconds(dt);
    let rem = dt.hour * 3600 + dt.minute * 60 + dt.second;
    let s = days * 86400 + rem;
    assert(0 <= rem < 86400);
    assert(to_unix_spec(dt) == s);
    let ts = s as u32;
    vstd::arithmetic::div_mod::lemma_fundamental_div_mod_converse(s, 86400, days, rem);
    assert(ts / 86400 == days && ts % 86400 == rem);
    vstd::arithmetic::div_mod::lemma_fundamental_div_mod_converse(rem, 3600, dt.hour as int, dt.minute * 60 + dt.second);
    vstd::arithmetic::div_mod::lemma_fundamental_div_mod_converse(rem % 3600, 60, dt.minute as int, dt.second as int);
    vstd::arithmetic::div_mod::lemma_fundamental_div_mod_converse(rem, 60, dt.hour * 60 + dt.minute, dt.second as int);
}

/// Every timestamp decodes to a date and time that exists on the calendar, in the
/// years 1970 to 2106.
#[verifier::spinoff_prover]
pub proof fn lemma_decoded_datetime_exists(ts: u32)
    ensures
        ({
            let dt = from_unix_spec(ts);
            &&& 1970 <= dt.year <= 2106
            &&& 1 <= dt.month <= 12
            &&& 1 <= dt.day <= days_in_month(dt.year as int, dt.month as int)
            &&& dt.hour < 24
            &&& dt.minute < 60
            &&& dt.second < 60
        }),
{
    let d = (ts / 86400) as int;
    lemma_civil_roundtrip(d);
    let (y, m, dd) = civil_from_days(d);
    let dt = from_unix_spec(ts);
    assert(dt.year == y && dt.month == m && dt.day == dd);
    if dd > days_in_month(y, m) {
        // The same day number would then also be a day of the next month.
        let (ny, nm) = next_month(y, m);
        let nd = dd - days_in_month(y, m);
        lemma_month_step(y, m);
        lemma_day_offset(y, m, dd);
        lemma_day_offset(ny, nm, nd);
        assert(days_from_civil(ny, nm, nd) == d);
        assert(ny <= 2106) by {
            if y == 2106 {
                assert(days_from_civil(2106, 3, 1) == 49732);
                if m >= 3 {
                    lemma_day_offset(2106, 3, 1);
                    lemma_day_order(2106, 3, 1, y, m, dd);
                }
            }
        }
        lemma_days_roundtrip(ny, nm, nd);
        assert(false);
    }
}

/// A date and time that exists on the calendar and comes after 2106-02-07 06:28:15, the
/// last instant a `u32` timestamp holds, converts to `u32::MAX`.
#[verifier::spinoff_prover]
pub proof fn lemma_unix_saturates(dt: DateTime)
    requires
        1970 <= dt.year,
        1 <= dt.month <= 12,
        1 <= dt.day <= days_in_month(dt.year as int, dt.month as int),
        dt.hour < 24,
        dt.minute < 60,
        dt.second < 60,
        datetime_before((DateTime { year: 2106, month: 2, day: 7, hour: 6, minute: 28, second: 15 }), dt),
    ensures
        to_unix_spec(dt) == u32::MAX,
{
    let (y, m, dd) = (dt.year as int, dt.month as int, dt.day as int);
    let d = days_from_civil(y, m, dd);
    assert(days_from_civil(2106, 2, 7) == 49710);
    assert(days_from_civil(65536, 1, 1) < 0x1_0000_0000);
    lemma_day_order(y, m, dd, 65536, 1, 1);
    if !(y == 2106 && m == 2 && dd == 7) {
        lemma_day_order(2106, 2, 7, y, m, dd);
        assert(d * 86400 >= 49711 * 86400);
    }
    assert(d % 0x1_0000_0000 == d);
}

/// Timestamps follow calendar order: of two date-times that exist on the calendar
/// (1970 to 2105), the earlier one has the smaller timestamp.
#[verifier::spinoff_prover]
pub proof fn lemma_unix_order(a: DateTime, b: DateTime)
    requires
        is_calendar_datetime(a),
        is_calendar_datetime(b),
        datetime_before(a, b),
    ensures
        to_unix_spec(a) < to_unix_spec(b),
{
    lemma_calendar_seconds(a);
    lemma_calendar_seconds(b);
    let da = days_from_civil(a.year as int, a.month as int, a.day as int);
    let db = days_from_civil(b.year as int, b.month as int, b.day as int);
    if a.year != b.year || a.month != b.month || a.day != b.day {
        lemma_day_order(a.year as int, a.month as int, a.day as int, b.year as int, b.month as int, b.day as int);
        assert(da + 1 <= db);
        assert(da * 86400 + 86400 <= db * 86400);
    }
}

/// Exactly the timestamps from 2020-01-01 00:00:00 up to, not including,
/// 2100-01-01 00:00:00 decode to a plausible time.
#[verifier::spinoff_prover]
pub proof fn lemma_valid_timestamps(ts: u32)
    ensures
        is_valid_spec(from_unix_spec(ts)) == (1577836800 <= ts < 4102444800),
{
    let d = (ts / 86400) as int;
    let rem = ts % 86400;
    lemma_civil_roundtrip(d);
    let (y, m, dd) = civil_from_days(d);
    let dt = from_unix_spec(ts);
    assert(dt.year == y && dt.month == m && dt.day == dd);
    assert(dt.hour < 24 && dt.minute < 60 && dt.second < 60);
    lemma_day_offset(y, m, dd);
    assert(month_start(2020, 1) == 18262);
    assert(month_start(2100, 1) == 47482);
    lemma_month_step(2019, 12);
    lemma_month_step(2099, 12);
    // From 2020 on, the day number is at least that of 2020-01-01.
    if y >= 2020 && !(y == 2020 && m == 1) {
        lemma_month_order(2020, 1, y, m);
    }
    // Up to 2019, it is below that of 2020-01-01.
    if y <= 2019 && !(y == 2019 && m == 12) {
        lemma_month_order(y, m, 2019, 12);
    }
    if y >= 2100 && !(y == 2100 && m == 1) {
        lemma_month_order(2100, 1, y, m);
    }
    if y <= 2099 && !(y == 2099 && m == 12) {
        lemma_month_order(y, m, 2099, 12);
    }
    assert(y >= 2020 <==> d >= 18262);
    assert(y <= 2099 <==> d < 47482);
}

} // verus!
