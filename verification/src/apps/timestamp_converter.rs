//! The timestamp converter: which unit an epoch number is in and the
//! moment it names, and which of the accepted forms a typed date-time
//! takes. Placing a wall-clock time in the local time zone is left to the
//! caller.
use vstd::prelude::*;

use crate::apps::workouts::{parse_day, parsed_day};
use crate::instant::UtcInstant;
use crate::text::{chars_of, push_all, trim, trim_range, string_of};

verus! {

/// Timestamp converter state.
pub struct TimestampConverter {
    pub input: String,
}

impl Default for TimestampConverter {
    /// An empty input.
    fn default() -> (t: Self)
        ensures
            t.input@ == Seq::<char>::empty(),
    {
        TimestampConverter { input: String::new() }
    }
}

/// What an input to convert holds: nothing, an integer (a Unix epoch
/// count), or other text (a date-time to parse).
pub enum InputKind {
    Empty,
    Epoch(i128),
    Text(String),
}

/// The value of a run of ASCII decimal digits.
pub open spec fn digits_value(d: Seq<char>) -> int
    decreases d.len(),
{
    if d.len() == 0 {
        0
    } else {
        digits_value(d.drop_last()) * 10 + (d.last() as int - '0' as int)
    }
}

/// `d` is one or more ASCII decimal digits.
pub open spec fn all_digits(d: Seq<char>) -> bool {
    d.len() > 0 && forall|i: int| 0 <= i < d.len() ==> '0' <= #[trigger] d[i] <= '9'
}

/// The integer `str::parse::<i128>` reads from `s`, if it reads one: an
/// optional `+` or `-`, then one or more ASCII digits, with a value in
/// the range of `i128`.
pub open spec fn parsed_i128(s: Seq<char>) -> Option<int> {
    let (neg, d) = if s.len() > 0 && s[0] == '-' {
        (true, s.drop_first())
    } else if s.len() > 0 && s[0] == '+' {
        (false, s.drop_first())
    } else {
        (false, s)
    };
    if all_digits(d) {
        let v = if neg {
            -digits_value(d)
        } else {
            digits_value(d)
        };
        if i128::MIN <= v <= i128::MAX {
            Some(v)
        } else {
            None
        }
    } else {
        None
    }
}

/// Reads an integer the way `str::parse::<i128>` does: an optional `+`
/// or `-`, then one or more ASCII digits, with a value in the range of
/// `i128`.
fn parse_i128(s: &str) -> (r: Option<i128>)
    ensures
        match r {
            Some(v) => parsed_i128(s@) == Some(v as int),
            None => parsed_i128(s@) is None,
        },
{
    let cv = chars_of(s);
    let n = cv.len();
    let mut start: usize = 0;
    let mut neg = false;
    if n > 0 && cv[0] == '-' {
        neg = true;
        start = 1;
    } else if n > 0 && cv[0] == '+' {
        start = 1;
    }
    let ghost d = cv@.subrange(start as int, n as int);
    assert(start == 1 ==> d =~= s@.drop_first());
    assert(start == 0 ==> d =~= s@);
    if start == n {
        return None;
    }
    // 2^127: the magnitude of `i128::MIN`, and a tenth of it rounded down.
    let cap: u128 = 170141183460469231731687303715884105728;
    let tenth: u128 = 17014118346046923173168730371588410572;
    let mut acc: u128 = 0;
    let mut over = false;
    let mut j: usize = start;
    assert(cv@.subrange(start as int, start as int) =~= Seq::<char>::empty());
    while j < n
        invariant
            cv@ == s@,
            n == cv@.len(),
            start <= j <= n,
            start < n,
            d == cv@.subrange(start as int, n as int),
            start == 1 ==> d == s@.drop_first(),
            start == 0 ==> d == s@,
            start <= 1,
            neg <==> (s@.len() > 0 && s@[0] == '-'),
            start == 1 <==> (s@.len() > 0 && (s@[0] == '-' || s@[0] == '+')),
            cap == 170141183460469231731687303715884105728u128,
            tenth == 17014118346046923173168730371588410572u128,
            forall|i: int| start <= i < j ==> '0' <= #[trigger] cv@[i] <= '9',
            !over ==> acc as int == digits_value(cv@.subrange(start as int, j as int)) && acc <= cap,
            over ==> digits_value(cv@.subrange(start as int, j as int)) > cap,
        decreases n - j,
    {
        let c = cv[j];
        if c < '0' || c > '9' {
            assert(d[j - start] == c);
            assert(!all_digits(d));
            return None;
        }
        let dig: u128 = (c as u32 - '0' as u32) as u128;
        let ghost before = cv@.subrange(start as int, j as int);
        assert(cv@.subrange(start as int, j + 1).drop_last() =~= before);
        assert(digits_value(cv@.subrange(start as int, j + 1)) == digits_value(before) * 10 + dig);
        if !over {
            if acc <= tenth {
                let nv = acc * 10 + dig;
                if nv <= cap {
                    acc = nv;
                } else {
                    over = true;
                }
            } else {
                over = true;
            }
        }
        j = j + 1;
    }
    assert(cv@.subrange(start as int, n as int) == d);
    assert(all_digits(d));
    if over {
        return None;
    }
    if neg {
        if acc == cap {
            Some(i128::MIN)
        } else {
            let m: i128 = acc as i128;
            Some(-m)
        }
    } else if acc == cap {
        None
    } else {
        Some(acc as i128)
    }
}

/// Sorts the trimmed input: empty, an integer, or text.
pub fn classify_input(input: &str) -> (r: InputKind)
    ensures
        match r {
            InputKind::Empty => trim(input@).len() == 0,
            InputKind::Epoch(v) => trim(input@).len() != 0 && parsed_i128(trim(input@)) == Some(v as int),
            InputKind::Text(t) => trim(input@).len() != 0 && parsed_i128(trim(input@)) is None && t@ == trim(input@),
        },
{
    let cv = chars_of(input);
    let (a, b) = trim_range(cv.as_slice(), 0, cv.len());
    assert(cv@.subrange(0, cv@.len() as int) =~= input@);
    if a == b {
        return InputKind::Empty;
    }
    let t = string_of(&cv.as_slice()[a..b]);
    match parse_i128(t.as_str()) {
        Some(v) => InputKind::Epoch(v),
        None => InputKind::Text(t),
    }
}

/// The unit an epoch count is taken to be in, by its magnitude: at least
/// 10^18 nanoseconds, 10^15 microseconds, 10^12 milliseconds, else
/// seconds; with the number of units per second and of nanoseconds per
/// unit.
pub open spec fn epoch_unit(v: int) -> (int, int, Seq<char>) {
    let a = if v < 0 {
        -v
    } else {
        v
    };
    if a >= 1_000_000_000_000_000_000 {
        (1_000_000_000, 1, "nanoseconds"@)
    } else if a >= 1_000_000_000_000_000 {
        (1_000_000, 1_000, "microseconds"@)
    } else if a >= 1_000_000_000_000 {
        (1_000, 1_000_000, "milliseconds"@)
    } else {
        (1, 1_000_000_000, "seconds"@)
    }
}

/// The whole seconds of an epoch count (rounded down) and the
/// nanoseconds past them.
pub open spec fn epoch_parts(v: int) -> (int, int) {
    let (per, scale, _) = epoch_unit(v);
    (v / per, (v % per) * scale)
}

/// Whether `DateTime::<Utc>::from_timestamp(secs, nanos)` gives a moment.
pub uninterp spec fn utc_representable(secs: int, nanos: int) -> bool;

/// `DateTime::<Utc>::from_timestamp` succeeds. Only named here
/// (`utc_representable`); chrono's date range is not restated.
#[verifier::external_body]
fn representable(secs: i64, nanos: u32) -> (r: bool)
    ensures
        r == utc_representable(secs as int, nanos as int),
{
    chrono::DateTime::from_timestamp(secs, nanos).is_some()
}

/// The error for an epoch count out of range.
pub open spec fn range_error(unit: Seq<char>) -> Seq<char> {
    "Timestamp is outside the supported "@ + unit + " range."@
}

/// The moment `seconds` and `nanos` past the epoch name, with `unit`;
/// an error when the seconds do not fit in `i64` or chrono has no such
/// moment.
pub fn datetime_from_parts(seconds: i128, nanos: u32, unit: &'static str) -> (r: Result<(UtcInstant, &'static str), String>)
    ensures
        match r {
            Ok((t, u)) => i64::MIN <= seconds <= i64::MAX && utc_representable(seconds as int, nanos as int)
                && t.seconds == seconds && t.nanos == nanos && u == unit,
            Err(e) => !(i64::MIN <= seconds <= i64::MAX && utc_representable(seconds as int, nanos as int))
                && e@ == range_error(unit@),
        },
{
    if seconds < i64::MIN as i128 || seconds > i64::MAX as i128 || !representable(seconds as i64, nanos) {
        let mut e = "Timestamp is outside the supported ".to_owned();
        push_all(&mut e, &chars_of(unit));
        push_all(&mut e, &chars_of(" range."));
        return Err(e);
    }
    Ok((UtcInstant { seconds: seconds as i64, nanos }, unit))
}

/// The moment an epoch count names: its unit is guessed from its
/// magnitude (see `epoch_unit`), and it is split into seconds and
/// nanoseconds, rounding toward earlier times.
pub fn epoch_to_datetime(value: i128) -> (r: Result<(UtcInstant, &'static str), String>)
    requires
        value > i128::MIN,
    ensures
        ({
            let (secs, nanos) = epoch_parts(value as int);
            let unit = epoch_unit(value as int).2;
            match r {
                Ok((t, u)) => i64::MIN <= secs <= i64::MAX && utc_representable(secs, nanos)
                    && t.seconds == secs && t.nanos == nanos && u@ == unit,
                Err(e) => !(i64::MIN <= secs <= i64::MAX && utc_representable(secs, nanos))
                    && e@ == range_error(unit),
            }
        }),
{
    let abs: i128 = if value < 0 {
        -value
    } else {
        value
    };
    if abs >= 1_000_000_000_000_000_000 {
        split_epoch(value, 1_000_000_000, 1, "nanoseconds")
    } else if abs >= 1_000_000_000_000_000 {
        split_epoch(value, 1_000_000, 1_000, "microseconds")
    } else if abs >= 1_000_000_000_000 {
        split_epoch(value, 1_000, 1_000_000, "milliseconds")
    } else {
        split_epoch(value, 1, 1_000_000_000, "seconds")
    }
}

/// The moment `value` units past the epoch name, `per` units making a
/// second and `scale` nanoseconds a unit.
fn split_epoch(value: i128, per: i128, scale: i128, unit: &'static str) -> (r: Result<(UtcInstant, &'static str), String>)
    requires
        value > i128::MIN,
        1 <= per <= 1_000_000_000,
        1 <= scale <= 1_000_000_000,
        per * scale == 1_000_000_000,
    ensures
        ({
            let secs = value as int / per as int;
            let nanos = (value as int % per as int) * scale;
            match r {
                Ok((t, u)) => i64::MIN <= secs <= i64::MAX && utc_representable(secs, nanos)
                    && t.seconds == secs && t.nanos == nanos && u == unit,
                Err(e) => !(i64::MIN <= secs <= i64::MAX && utc_representable(secs, nanos))
                    && e@ == range_error(unit@),
            }
        }),
{
    let (q, m) = div_floor(value, per);
    assert(0 <= m * scale < 1_000_000_000) by (nonlinear_arith)
        requires
            0 <= m < per,
            per * scale == 1_000_000_000,
            scale > 0,
    ;
    let nanos: i128 = m * scale;
    datetime_from_parts(q, nanos as u32, unit)
}

/// Euclidean division by a positive divisor: the quotient rounded down
/// and the remainder in `0..d`.
fn div_floor(v: i128, d: i128) -> (r: (i128, i128))
    requires
        v > i128::MIN,
        1 <= d <= 1_000_000_000,
    ensures
        r.0 == v as int / d as int,
        r.1 == v as int % d as int,
        0 <= r.1 < d,
{
    if v >= 0 {
        let q = v / d;
        let m = v % d;
        (q, m)
    } else {
        let a: i128 = -v;
        let q0 = a / d;
        let m0 = a % d;
        proof {
            vstd::arithmetic::div_mod::lemma_fundamental_div_mod(a as int, d as int);
        }
        assert(a == q0 * d + m0) by (nonlinear_arith)
            requires
                a == d * q0 + m0,
        ;
        if m0 == 0 {
            assert(v == (-q0) * d) by (nonlinear_arith)
                requires
                    a == q0 * d,
                    v == -a,
            ;
            proof {
                vstd::arithmetic::div_mod::lemma_fundamental_div_mod_converse(v as int, d as int, -q0 as int, 0);
            }
            (-q0, 0)
        } else {
            assert(v == (-q0 - 1) * d + (d - m0)) by (nonlinear_arith)
                requires
                    a == q0 * d + m0,
                    v == -a,
            ;
            proof {
                vstd::arithmetic::div_mod::lemma_fundamental_div_mod_converse(v as int, d as int, -q0 - 1, d - m0);
            }
            (-q0 - 1, d - m0)
        }
    }
}

/// Nanoseconds since the epoch.
pub fn timestamp_nanos(t: UtcInstant) -> (r: i128)
    ensures
        r == t.seconds * 1_000_000_000 + t.nanos,
{
    (t.seconds as i128) * 1_000_000_000 + (t.nanos as i128)
}

// ---------- typed date-times ----------

/// A date and time on a wall clock, with no time zone: seconds since
/// 1970-01-01 00:00:00 on the same clock, and nanoseconds past them.
#[derive(Debug, Clone, Copy, PartialEq, Eq)]
pub struct WallClock {
    pub seconds: i64,
    pub nanos: u32,
}

/// The moment (seconds and nanoseconds since the epoch) that
/// `DateTime::parse_from_rfc3339` reads from `s`, if it reads one.
pub uninterp spec fn rfc3339_moment(s: Seq<char>) -> Option<(i64, u32)>;

/// The moment that `DateTime::parse_from_str(s, format)` reads, if any.
pub uninterp spec fn offset_moment(s: Seq<char>, format: Seq<char>) -> Option<(i64, u32)>;

/// The wall-clock time that `NaiveDateTime::parse_from_str(s, format)`
/// reads, if any.
pub uninterp spec fn wall_clock_time(s: Seq<char>, format: Seq<char>) -> Option<(i64, u32)>;

/// The wall-clock time at the start of day number `day`, if it has one.
pub uninterp spec fn day_start(day: int) -> Option<(i64, u32)>;

/// `DateTime::parse_from_rfc3339`, the moment given by its timestamp.
/// Only named here (`rfc3339_moment`).
#[verifier::external_body]
fn parse_rfc3339(s: &str) -> (r: Option<UtcInstant>)
    ensures
        match r {
            Some(t) => rfc3339_moment(s@) == Some((t.seconds, t.nanos)),
            None => rfc3339_moment(s@) is None,
        },
{
    chrono::DateTime::parse_from_rfc3339(s).ok().map(|d| UtcInstant { seconds: d.timestamp(), nanos: d.timestamp_subsec_nanos() })
}

/// `DateTime::parse_from_str`, the moment given by its timestamp. Only
/// named here (`offset_moment`).
#[verifier::external_body]
fn parse_with_offset(s: &str, format: &str) -> (r: Option<UtcInstant>)
    ensures
        match r {
            Some(t) => offset_moment(s@, format@) == Some((t.seconds, t.nanos)),
            None => offset_moment(s@, format@) is None,
        },
{
    chrono::DateTime::parse_from_str(s, format).ok().map(|d| UtcInstant { seconds: d.timestamp(), nanos: d.timestamp_subsec_nanos() })
}

/// `NaiveDateTime::parse_from_str`, the time read as seconds on its own
/// clock (`and_utc().timestamp()`). Only named here (`wall_clock_time`).
#[verifier::external_body]
fn parse_wall_clock(s: &str, format: &str) -> (r: Option<WallClock>)
    ensures
        match r {
            Some(w) => wall_clock_time(s@, format@) == Some((w.seconds, w.nanos)),
            None => wall_clock_time(s@, format@) is None,
        },
{
    chrono::NaiveDateTime::parse_from_str(s, format).ok().map(|n| WallClock { seconds: n.and_utc().timestamp(), nanos: n.and_utc().timestamp_subsec_nanos() })
}

/// `NaiveDate::from_num_days_from_ce_opt(day)`, then `and_hms_opt(0, 0, 0)`,
/// read as seconds on its own clock. Only named here (`day_start`).
#[verifier::external_body]
fn start_of_day(day: i32) -> (r: Option<WallClock>)
    ensures
        match r {
            Some(w) => day_start(day as int) == Some((w.seconds, w.nanos)),
            None => day_start(day as int) is None,
        },
{
    chrono::NaiveDate::from_num_days_from_ce_opt(day).and_then(|d| d.and_hms_opt(0, 0, 0)).map(|n| WallClock { seconds: n.and_utc().timestamp(), nanos: n.and_utc().timestamp_subsec_nanos() })
}

/// How a typed date-time reads.
#[derive(Debug, Clone, Copy, PartialEq, Eq)]
pub enum Reading {
    /// A moment: the text carried its UTC offset.
    Moment(i64, u32),
    /// A wall-clock time, to be placed in the local time zone.
    Wall(i64, u32),
    /// A date whose start could not be formed.
    NoMidnight,
    /// None of the accepted forms.
    Unreadable,
}

/// The first of two readings that succeeded.
pub open spec fn or_else(a: Option<(i64, u32)>, b: Option<(i64, u32)>) -> Option<(i64, u32)> {
    if a is Some {
        a
    } else {
        b
    }
}

/// The accepted forms, tried in order: RFC 3339; then with a UTC offset
/// `%Y-%m-%d %H:%M:%S %z`, `%Y-%m-%d %H:%M %z`, `%Y-%m-%d %H:%M:%S%.f %z`,
/// `%Y-%m-%dT%H:%M:%S%z`, `%Y-%m-%dT%H:%M:%S%.f%z`; then on the wall clock
/// `%Y-%m-%d %H:%M:%S`, `%Y-%m-%d %H:%M`, `%Y-%m-%dT%H:%M:%S`,
/// `%Y-%m-%dT%H:%M:%S%.f`; then a bare date `%Y-%m-%d`, at its midnight.
pub open spec fn spec_reading(s: Seq<char>) -> Reading {
    let offset = or_else(
        rfc3339_moment(s),
        or_else(
            offset_moment(s, "%Y-%m-%d %H:%M:%S %z"@),
            or_else(
                offset_moment(s, "%Y-%m-%d %H:%M %z"@),
                or_else(
                    offset_moment(s, "%Y-%m-%d %H:%M:%S%.f %z"@),
                    or_else(offset_moment(s, "%Y-%m-%dT%H:%M:%S%z"@), offset_moment(s, "%Y-%m-%dT%H:%M:%S%.f%z"@)),
                ),
            ),
        ),
    );
    let wall = or_else(
        wall_clock_time(s, "%Y-%m-%d %H:%M:%S"@),
        or_else(
            wall_clock_time(s, "%Y-%m-%d %H:%M"@),
            or_else(wall_clock_time(s, "%Y-%m-%dT%H:%M:%S"@), wall_clock_time(s, "%Y-%m-%dT%H:%M:%S%.f"@)),
        ),
    );
    match offset {
        Some((a, b)) => Reading::Moment(a, b),
        None => match wall {
            Some((a, b)) => Reading::Wall(a, b),
            None => match parsed_day(s) {
                Some(d) => match day_start(d) {
                    Some((a, b)) => Reading::Wall(a, b),
                    None => Reading::NoMidnight,
                },
                None => Reading::Unreadable,
            },
        },
    }
}

/// The first offset form that reads `s`.
fn read_offset(s: &str) -> (r: Option<UtcInstant>)
    ensures
        match r {
            Some(t) => Some((t.seconds, t.nanos)) == or_else(
                offset_moment(s@, "%Y-%m-%d %H:%M:%S %z"@),
                or_else(
                    offset_moment(s@, "%Y-%m-%d %H:%M %z"@),
                    or_else(
                        offset_moment(s@, "%Y-%m-%d %H:%M:%S%.f %z"@),
                        or_else(offset_moment(s@, "%Y-%m-%dT%H:%M:%S%z"@), offset_moment(s@, "%Y-%m-%dT%H:%M:%S%.f%z"@)),
                    ),
                ),
            ),
            None => or_else(
                offset_moment(s@, "%Y-%m-%d %H:%M:%S %z"@),
                or_else(
                    offset_moment(s@, "%Y-%m-%d %H:%M %z"@),
                    or_else(
                        offset_moment(s@, "%Y-%m-%d %H:%M:%S%.f %z"@),
                        or_else(offset_moment(s@, "%Y-%m-%dT%H:%M:%S%z"@), offset_moment(s@, "%Y-%m-%dT%H:%M:%S%.f%z"@)),
                    ),
                ),
            ) is None,
        },
{
    if let Some(t) = parse_with_offset(s, "%Y-%m-%d %H:%M:%S %z") {
        return Some(t);
    }
    if let Some(t) = parse_with_offset(s, "%Y-%m-%d %H:%M %z") {
        return Some(t);
    }
    if let Some(t) = parse_with_offset(s, "%Y-%m-%d %H:%M:%S%.f %z") {
        return Some(t);
    }
    if let Some(t) = parse_with_offset(s, "%Y-%m-%dT%H:%M:%S%z") {
        return Some(t);
    }
    parse_with_offset(s, "%Y-%m-%dT%H:%M:%S%.f%z")
}

/// The first wall-clock form that reads `s`.
fn read_wall_clock(s: &str) -> (r: Option<WallClock>)
    ensures
        match r {
            Some(w) => Some((w.seconds, w.nanos)) == or_else(
                wall_clock_time(s@, "%Y-%m-%d %H:%M:%S"@),
                or_else(
                    wall_clock_time(s@, "%Y-%m-%d %H:%M"@),
                    or_else(wall_clock_time(s@, "%Y-%m-%dT%H:%M:%S"@), wall_clock_time(s@, "%Y-%m-%dT%H:%M:%S%.f"@)),
                ),
            ),
            None => or_else(
                wall_clock_time(s@, "%Y-%m-%d %H:%M:%S"@),
                or_else(
                    wall_clock_time(s@, "%Y-%m-%d %H:%M"@),
                    or_else(wall_clock_time(s@, "%Y-%m-%dT%H:%M:%S"@), wall_clock_time(s@, "%Y-%m-%dT%H:%M:%S%.f"@)),
                ),
            ) is None,
        },
{
    if let Some(w) = parse_wall_clock(s, "%Y-%m-%d %H:%M:%S") {
        return Some(w);
    }
    if let Some(w) = parse_wall_clock(s, "%Y-%m-%d %H:%M") {
        return Some(w);
    }
    if let Some(w) = parse_wall_clock(s, "%Y-%m-%dT%H:%M:%S") {
        return Some(w);
    }
    parse_wall_clock(s, "%Y-%m-%dT%H:%M:%S%.f")
}

/// How `s` reads as a date-time (see `spec_reading`).
pub fn read_datetime(s: &str) -> (r: Reading)
    ensures
        r == spec_reading(s@),
{
    if let Some(t) = parse_rfc3339(s) {
        return Reading::Moment(t.seconds, t.nanos);
    }
    if let Some(t) = read_offset(s) {
        return Reading::Moment(t.seconds, t.nanos);
    }
    if let Some(w) = read_wall_clock(s) {
        return Reading::Wall(w.seconds, w.nanos);
    }
    match parse_day(s) {
        Some(d) => match start_of_day(d) {
            Some(w) => Reading::Wall(w.seconds, w.nanos),
            None => Reading::NoMidnight,
        },
        None => Reading::Unreadable,
    }
}

/// Reads a typed date-time in one of the accepted forms (see
/// `spec_reading`): a form with a UTC offset gives its moment; a
/// wall-clock form, or a bare date at its midnight, is placed in the local
/// time zone by `local_to_utc`; anything else is an error.
pub fn parse_human_datetime<L: Fn(WallClock) -> Result<UtcInstant, String>>(input: &str, local_to_utc: &L) -> (r: Result<
    UtcInstant,
    String,
>)
    requires
        forall|w: WallClock| call_requires(*local_to_utc, (w,)),
    ensures
        match spec_reading(input@) {
            Reading::Moment(a, b) => r == Ok::<UtcInstant, String>(UtcInstant { seconds: a, nanos: b }),
            Reading::Wall(a, b) => call_ensures(*local_to_utc, (WallClock { seconds: a, nanos: b },), r),
            Reading::NoMidnight => r matches Err(e) && e@ == "Date could not be converted to midnight."@,
            Reading::Unreadable => r matches Err(e) && e@
                == "Enter an epoch number or a date like 2024-05-15T00:00:00Z."@,
        },
{
    match read_datetime(input) {
        Reading::Moment(a, b) => Ok(UtcInstant { seconds: a, nanos: b }),
        Reading::Wall(a, b) => local_to_utc(WallClock { seconds: a, nanos: b }),
        Reading::NoMidnight => Err("Date could not be converted to midnight.".to_string()),
        Reading::Unreadable => Err("Enter an epoch number or a date like 2024-05-15T00:00:00Z.".to_string()),
    }
}

} // verus!
