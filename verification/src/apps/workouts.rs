//! The workout log: sessions grouped by day, and the calendar grid of
//! its heat map (weeks as columns, Sunday to Saturday as rows, month
//! labels along the top).
use vstd::prelude::*;

use crate::text::{byte_len, char_width, chars_of, lemma_byte_len_prefix_mono, lemma_byte_len_push, string_of};

verus! {

pub open spec fn spec_month_short(m: u32) -> Seq<char> {
    if m == 1 {
        "Jan"@
    } else if m == 2 {
        "Feb"@
    } else if m == 3 {
        "Mar"@
    } else if m == 4 {
        "Apr"@
    } else if m == 5 {
        "May"@
    } else if m == 6 {
        "Jun"@
    } else if m == 7 {
        "Jul"@
    } else if m == 8 {
        "Aug"@
    } else if m == 9 {
        "Sep"@
    } else if m == 10 {
        "Oct"@
    } else if m == 11 {
        "Nov"@
    } else if m == 12 {
        "Dec"@
    } else {
        ""@
    }
}

/// Three-letter month name for months 1 to 12; empty otherwise.
pub fn month_short(m: u32) -> (r: &'static str)
    ensures
        r@ == spec_month_short(m),
{
    match m {
        1 => "Jan",
        2 => "Feb",
        3 => "Mar",
        4 => "Apr",
        5 => "May",
        6 => "Jun",
        7 => "Jul",
        8 => "Aug",
        9 => "Sep",
        10 => "Oct",
        11 => "Nov",
        12 => "Dec",
        _ => "",
    }
}

// ---------- sessions by day ----------

/// A logged workout session: its date text, name, duration and
/// exercises (carried through unread).
pub struct WorkoutSession<E> {
    pub date: String,
    pub name: Option<String>,
    pub duration: Option<String>,
    pub exercises: Vec<E>,
}

/// The sessions logged in one month.
pub struct WorkoutMonth<E> {
    pub sessions: Vec<WorkoutSession<E>>,
}

/// A session as the day view shows it.
pub struct SessionDetail<E> {
    pub name: String,
    pub duration: Option<String>,
    pub exercises: Vec<E>,
}

/// The sessions of one day; `date` is the day's number
/// (`NaiveDate::num_days_from_ce`).
pub struct DayEntry<E> {
    pub date: i32,
    pub sessions: Vec<SessionDetail<E>>,
}

/// The day number of the date `NaiveDate::parse_from_str(s, "%Y-%m-%d")`
/// reads from `s`, if it reads one.
pub uninterp spec fn parsed_day(s: Seq<char>) -> Option<int>;

/// `NaiveDate::parse_from_str` with the format `%Y-%m-%d`, the date given
/// by its day number (`num_days_from_ce`). Only named here (`parsed_day`).
#[verifier::external_body]
pub(crate) fn parse_day(s: &str) -> (r: Option<i32>)
    ensures
        match r {
            Some(d) => parsed_day(s@) == Some(d as int),
            None => parsed_day(s@) is None,
        },
{
    chrono::NaiveDate::parse_from_str(s, "%Y-%m-%d").ok().map(|d| chrono::Datelike::num_days_from_ce(&d))
}

/// The date part of a session's date text: its first ten bytes when they
/// end on a character boundary, else the whole text.
pub open spec fn date_text(s: Seq<char>) -> Seq<char> {
    if exists|k: int| 0 <= k <= s.len() && byte_len(s.take(k)) == 10 {
        s.take(choose|k: int| 0 <= k <= s.len() && byte_len(s.take(k)) == 10)
    } else {
        s
    }
}

/// The day a session was logged on, if its date reads as one.
pub open spec fn session_day<E>(s: WorkoutSession<E>) -> Option<int> {
    parsed_day(date_text(s.date@))
}

/// All sessions of the months, in order.
pub open spec fn all_sessions<E>(months: Seq<WorkoutMonth<E>>) -> Seq<WorkoutSession<E>>
    decreases months.len(),
{
    if months.len() == 0 {
        Seq::empty()
    } else {
        all_sessions(months.drop_last()) + months.last().sessions@
    }
}

/// The sessions logged on day `d`, in order.
pub open spec fn on_day<E>(ss: Seq<WorkoutSession<E>>, d: int) -> Seq<WorkoutSession<E>>
    decreases ss.len(),
{
    if ss.len() == 0 {
        Seq::empty()
    } else if session_day(ss.last()) == Some(d) {
        on_day(ss.drop_last(), d).push(ss.last())
    } else {
        on_day(ss.drop_last(), d)
    }
}

/// Detail `d` shows session `s`: its name ("session" when it has none),
/// its duration and its exercises.
pub open spec fn shows_session<E>(d: SessionDetail<E>, s: WorkoutSession<E>) -> bool {
    &&& d.name@ == match s.name {
        Some(n) => n@,
        None => seq!['s', 'e', 's', 's', 'i', 'o', 'n'],
    }
    &&& d.duration == s.duration
    &&& d.exercises == s.exercises
}

/// `days` groups the sessions `ss` by day: one entry per day on which
/// some session was logged, in date order, each listing that day's
/// sessions in order. Sessions whose date does not read are left out.
pub open spec fn grouped<E>(days: Seq<DayEntry<E>>, ss: Seq<WorkoutSession<E>>) -> bool {
    &&& forall|a: int, b: int| 0 <= a < b < days.len() ==> days[a].date < days[b].date
    &&& forall|a: int| #![trigger days[a]] 0 <= a < days.len() ==> {
        let group = on_day(ss, days[a].date as int);
        &&& days[a].sessions@.len() == group.len()
        &&& forall|i: int| 0 <= i < group.len() ==> shows_session(#[trigger] days[a].sessions@[i], group[i])
    }
    &&& forall|i: int| #![trigger ss[i]] 0 <= i < ss.len() && session_day(ss[i]) is Some ==> exists|a: int|
        0 <= a < days.len() && days[a].date == session_day(ss[i]).unwrap()
}

/// The date part of `s` (see `date_text`).
fn date_part(s: &str) -> (r: String)
    ensures
        r@ == date_text(s@),
{
    let cv = chars_of(s);
    let mut k: usize = 0;
    let mut w: usize = 0;
    assert(s@.take(0) =~= Seq::<char>::empty());
    assert(byte_len(Seq::<char>::empty()) == 0) by {
        assert(vstd::utf8::encode_utf8(Seq::<char>::empty()) =~= Seq::<u8>::empty());
    }
    while k < cv.len() && w < 10
        invariant
            cv@ == s@,
            k <= cv@.len(),
            w == byte_len(s@.take(k as int)),
            forall|j: int| 0 <= j < k ==> byte_len(s@.take(j)) < 10,
        decreases cv@.len() - k,
    {
        proof {
            assert(s@.take(k + 1) =~= s@.take(k as int).push(cv@[k as int]));
            lemma_byte_len_push(s@.take(k as int), cv@[k as int]);
        }
        w = w + char_width(cv[k]);
        k = k + 1;
    }
    proof {
        assert forall|j: int| 0 <= j <= s@.len() && byte_len(s@.take(j)) == 10 implies j == k by {
            if j < k {
            } else if j > k {
                lemma_byte_len_prefix_mono(s@, k as int, j);
            }
        }
    }
    if w == 10 {
        let r = string_of(&cv.as_slice()[0..k]);
        assert(cv@.subrange(0, k as int) =~= s@.take(k as int));
        r
    } else {
        proof {
            if exists|j: int| 0 <= j <= s@.len() && byte_len(s@.take(j)) == 10 {
                let j = choose|j: int| 0 <= j <= s@.len() && byte_len(s@.take(j)) == 10;
                assert(j == k);
            }
        }
        string_of(cv.as_slice())
    }
}

proof fn lemma_on_day_push<E>(ss: Seq<WorkoutSession<E>>, s: WorkoutSession<E>, d: int)
    ensures
        on_day(ss.push(s), d) == if session_day(s) == Some(d) {
            on_day(ss, d).push(s)
        } else {
            on_day(ss, d)
        },
{
    assert(ss.push(s).drop_last() =~= ss);
}

proof fn lemma_on_day_empty<E>(ss: Seq<WorkoutSession<E>>, d: int)
    requires
        forall|i: int| 0 <= i < ss.len() ==> session_day(#[trigger] ss[i]) != Some(d),
    ensures
        on_day(ss, d).len() == 0,
    decreases ss.len(),
{
    if ss.len() > 0 {
        assert(session_day(ss[ss.len() - 1]) != Some(d));
        lemma_on_day_empty(ss.drop_last(), d);
    }
}

/// Adds one session to the days grouped so far.
fn add_session<E>(days: &mut Vec<DayEntry<E>>, s: WorkoutSession<E>, Ghost(ss): Ghost<Seq<WorkoutSession<E>>>)
    requires
        grouped(old(days)@, ss),
    ensures
        grouped(final(days)@, ss.push(s)),
{
    let ghost s0 = s;
    let text = date_part(s.date.as_str());
    let day = match parse_day(text.as_str()) {
        None => {
            proof {
                assert forall|d: int| on_day(ss.push(s0), d) == on_day(ss, d) by {
                    lemma_on_day_push(ss, s0, d);
                }
                assert forall|i: int| #![trigger ss.push(s0)[i]]
                    0 <= i < ss.push(s0).len() && session_day(ss.push(s0)[i]) is Some implies exists|a: int|
                    0 <= a < days@.len() && days@[a].date == session_day(ss.push(s0)[i]).unwrap() by {
                    assert(ss.push(s0)[i] == ss[i]);
                }
            }
            return;
        },
        Some(d) => d,
    };
    let name = match s.name {
        Some(n) => n,
        None => "session".to_owned(),
    };
    proof {
        reveal_strlit("session");
    }
    let detail = SessionDetail { name, duration: s.duration, exercises: s.exercises };
    assert(detail.name@ == match s0.name {
        Some(n) => n@,
        None => seq!['s', 'e', 's', 's', 'i', 'o', 'n'],
    });
    assert(detail.duration == s0.duration);
    assert(detail.exercises == s0.exercises);
    assert(shows_session(detail, s0));
    let ghost old_days = days@;
    let mut j: usize = 0;
    while j < days.len() && days[j].date < day
        invariant
            j <= days@.len(),
            days@ == old_days,
            forall|a: int| 0 <= a < j ==> days@[a].date < day,
        decreases days@.len() - j,
    {
        j = j + 1;
    }
    let ghost ss2 = ss.push(s0);
    proof {
        assert forall|d: int| d != day implies on_day(ss2, d) == on_day(ss, d) by {
            lemma_on_day_push(ss, s0, d);
        }
        lemma_on_day_push(ss, s0, day as int);
    }
    if j < days.len() && days[j].date == day {
        days[j].sessions.push(detail);
        proof {
            let nd = days@;
            assert forall|a: int| #![trigger nd[a]] 0 <= a < nd.len() implies {
                let group = on_day(ss2, nd[a].date as int);
                &&& nd[a].sessions@.len() == group.len()
                &&& forall|i: int| 0 <= i < group.len() ==> shows_session(#[trigger] nd[a].sessions@[i], group[i])
            } by {
                if a == j {
                    let group = on_day(ss2, nd[a].date as int);
                    assert forall|i: int| 0 <= i < group.len() implies shows_session(#[trigger] nd[a].sessions@[i], group[i]) by {
                        if i < group.len() - 1 {
                            assert(nd[a].sessions@[i] == old_days[a].sessions@[i]);
                        }
                    }
                } else {
                    assert(nd[a] == old_days[a]);
                }
            }
            assert forall|i: int| #![trigger ss2[i]] 0 <= i < ss2.len() && session_day(ss2[i]) is Some implies exists|a: int|
                0 <= a < nd.len() && nd[a].date == session_day(ss2[i]).unwrap() by {
                if i < ss.len() {
                    assert(ss2[i] == ss[i]);
                    let a = choose|a: int| 0 <= a < old_days.len() && old_days[a].date == session_day(ss[i]).unwrap();
                    assert(nd[a].date == old_days[a].date);
                } else {
                    assert(nd[j as int].date == day);
                }
            }
        }
    } else {
        let mut v: Vec<SessionDetail<E>> = Vec::new();
        v.push(detail);
        let entry = DayEntry { date: day, sessions: v };
        days.insert(j, entry);
        proof {
            let nd = days@;
            assert(nd == old_days.insert(j as int, entry));
            // `day` is new: no session so far was on it.
            assert forall|i: int| 0 <= i < ss.len() implies session_day(#[trigger] ss[i]) != Some(day as int) by {
                if session_day(ss[i]) == Some(day as int) {
                    let a = choose|a: int| 0 <= a < old_days.len() && old_days[a].date == session_day(ss[i]).unwrap();
                    if a < j {
                    } else if a > j {
                        assert(old_days[j as int].date < old_days[a].date);
                    }
                }
            }
            lemma_on_day_empty(ss, day as int);
            assert forall|a: int, b: int| 0 <= a < b < nd.len() implies nd[a].date < nd[b].date by {
                if a < j && b > j {
                    assert(nd[b] == old_days[b - 1]);
                    if b - 1 > j {
                        assert(old_days[j as int].date < old_days[b - 1].date);
                    }
                } else if a == j && b > j {
                    assert(nd[b] == old_days[b - 1]);
                    if b - 1 > j {
                        assert(old_days[j as int].date < old_days[b - 1].date);
                    }
                } else if a > j {
                    assert(nd[a] == old_days[a - 1]);
                    assert(nd[b] == old_days[b - 1]);
                }
            }
            assert forall|a: int| #![trigger nd[a]] 0 <= a < nd.len() implies {
                let group = on_day(ss2, nd[a].date as int);
                &&& nd[a].sessions@.len() == group.len()
                &&& forall|i: int| 0 <= i < group.len() ==> shows_session(#[trigger] nd[a].sessions@[i], group[i])
            } by {
                if a == j {
                    assert(on_day(ss, day as int).len() == 0);
                    assert(on_day(ss2, day as int) =~= seq![s0]);
                } else if a < j {
                    assert(nd[a] == old_days[a]);
                } else {
                    assert(nd[a] == old_days[a - 1]);
                }
            }
            assert forall|i: int| #![trigger ss2[i]] 0 <= i < ss2.len() && session_day(ss2[i]) is Some implies exists|a: int|
                0 <= a < nd.len() && nd[a].date == session_day(ss2[i]).unwrap() by {
                if i < ss.len() {
                    assert(ss2[i] == ss[i]);
                    let a = choose|a: int| 0 <= a < old_days.len() && old_days[a].date == session_day(ss[i]).unwrap();
                    if a < j {
                        assert(nd[a] == old_days[a]);
                    } else {
                        assert(nd[a + 1] == old_days[a]);
                    }
                } else {
                    assert(nd[j as int].date == day);
                }
            }
        }
    }
}

/// The sessions of all months grouped by day, in date order; sessions
/// whose date does not read are skipped.
pub fn flatten_days<E>(months: Vec<WorkoutMonth<E>>) -> (days: Vec<DayEntry<E>>)
    ensures
        grouped(days@, all_sessions(months@)),
{
    let ghost ms = months@;
    let mut months = months;
    let mut days: Vec<DayEntry<E>> = Vec::new();
    let ghost mut mi: int = 0;
    let ghost mut done: Seq<WorkoutSession<E>> = Seq::empty();
    while months.len() > 0
        invariant
            0 <= mi <= ms.len(),
            months@ == ms.skip(mi),
            done == all_sessions(ms.take(mi)),
            grouped(days@, done),
        decreases months@.len(),
    {
        assert(ms.take(mi + 1).drop_last() =~= ms.take(mi));
        let month = months.remove(0);
        assert(ms.take(mi + 1).last() == month);
        let ghost target = done + month.sessions@;
        let mut sessions = month.sessions;
        let ghost sv = sessions@;
        let ghost mut si: int = 0;
        while sessions.len() > 0
            invariant
                0 <= si <= sv.len(),
                sessions@ == sv.skip(si),
                grouped(days@, done + sv.take(si)),
            decreases sessions@.len(),
        {
            let s = sessions.remove(0);
            assert(sv.take(si + 1) =~= sv.take(si).push(s));
            assert(done + sv.take(si + 1) =~= (done + sv.take(si)).push(s));
            add_session(&mut days, s, Ghost(done + sv.take(si)));
            proof {
                si = si + 1;
                assert(sv.skip(si) =~= sv.skip(si - 1).drop_first());
            }
        }
        proof {
            assert(sv.take(si) =~= sv);
            done = done + sv;
            mi = mi + 1;
            assert(ms.skip(mi) =~= ms.skip(mi - 1).drop_first());
        }
    }
    assert(ms.take(mi) =~= ms);
    days
}

// ---------- heat-map calendar ----------

/// Days of the week.
#[derive(Clone, Copy, Debug, PartialEq, Eq, Structural)]
pub enum Weekday {
    Mon,
    Tue,
    Wed,
    Thu,
    Fri,
    Sat,
    Sun,
}

/// Day numbers chrono's `NaiveDate` covers: January 1 of 262144 BCE
/// (year -262143) through December 31 of 262142 CE, counted with
/// January 1 of year 1 as day 1.
pub open spec fn is_calendar_day(day: int) -> bool {
    -95746129 <= day <= 95745399
}

/// The weekday whose heat-map row (Sunday 0) is `i`, for `i` in 0 to 6.
pub open spec fn weekday_at(i: int) -> Weekday {
    if i == 0 {
        Weekday::Sun
    } else if i == 1 {
        Weekday::Mon
    } else if i == 2 {
        Weekday::Tue
    } else if i == 3 {
        Weekday::Wed
    } else if i == 4 {
        Weekday::Thu
    } else if i == 5 {
        Weekday::Fri
    } else {
        Weekday::Sat
    }
}

/// The weekday of day number `day`, `None` where it is not a date. Day 1
/// (January 1 of year 1, proleptic Gregorian) is a Monday and weekdays
/// repeat every seven days, so the weekday's row (Sunday 0) is the day
/// number modulo 7.
pub open spec fn day_weekday(day: int) -> Option<Weekday> {
    if is_calendar_day(day) {
        Some(weekday_at(day % 7))
    } else {
        None
    }
}

/// The month (1 to 12) of day number `day` in the proleptic Gregorian
/// calendar: days are counted from March 1 of year 0 (day -305) in
/// 400-year cycles of 146097 days, a year of the cycle runs from March,
/// and its months have 31, 30, 31, 30, 31 days in groups of 153.
pub open spec fn calendar_month(day: int) -> int {
    let doe = (day + 305) % 146097;
    let yoe = (doe - doe / 1460 + doe / 36524 - doe / 146096) / 365;
    let doy = doe - (365 * yoe + yoe / 4 - yoe / 100);
    let mp = (5 * doy + 2) / 153;
    if mp < 10 {
        mp + 3
    } else {
        mp - 9
    }
}

/// The month (1 to 12) of day number `day`, `None` where it is not a date.
pub open spec fn day_month(day: int) -> Option<int> {
    if is_calendar_day(day) {
        Some(calendar_month(day))
    } else {
        None
    }
}

/// The weekday of a day number: `NaiveDate::from_num_days_from_ce_opt`,
/// which is `None` outside the dates chrono covers, then
/// `Datelike::weekday`.
#[verifier::external_body]
fn weekday_of(day: i32) -> (r: Option<Weekday>)
    ensures
        r == day_weekday(day as int),
{
    match chrono::NaiveDate::from_num_days_from_ce_opt(day) {
        Some(d) => Some(match chrono::Datelike::weekday(&d) {
            chrono::Weekday::Mon => Weekday::Mon,
            chrono::Weekday::Tue => Weekday::Tue,
            chrono::Weekday::Wed => Weekday::Wed,
            chrono::Weekday::Thu => Weekday::Thu,
            chrono::Weekday::Fri => Weekday::Fri,
            chrono::Weekday::Sat => Weekday::Sat,
            chrono::Weekday::Sun => Weekday::Sun,
        }),
        None => None,
    }
}

/// The month of a day number: `NaiveDate::from_num_days_from_ce_opt`,
/// which is `None` outside the dates chrono covers, then
/// `Datelike::month`, which chrono documents as 1 to 12.
#[verifier::external_body]
fn month_of(day: i32) -> (r: Option<u32>)
    ensures
        match r {
            Some(m) => day_month(day as int) == Some(m as int) && 1 <= m <= 12,
            None => day_month(day as int) is None,
        },
{
    chrono::NaiveDate::from_num_days_from_ce_opt(day).map(|d| chrono::Datelike::month(&d))
}

/// Heat-map row of a weekday: Sunday 0 through Saturday 6.
pub open spec fn spec_weekday_index(w: Weekday) -> int {
    match w {
        Weekday::Sun => 0,
        Weekday::Mon => 1,
        Weekday::Tue => 2,
        Weekday::Wed => 3,
        Weekday::Thu => 4,
        Weekday::Fri => 5,
        Weekday::Sat => 6,
    }
}

/// Sun=0 … Sat=6, the heat map's row order.
pub fn weekday_index(w: Weekday) -> (r: usize)
    ensures
        r == spec_weekday_index(w),
        r < 7,
{
    match w {
        Weekday::Sun => 0,
        Weekday::Mon => 1,
        Weekday::Tue => 2,
        Weekday::Wed => 3,
        Weekday::Thu => 4,
        Weekday::Fri => 5,
        Weekday::Sat => 6,
    }
}

/// The Sunday on or before `day`, where `day` is a date and the result
/// fits an `i32`.
pub open spec fn sunday_before(day: int) -> Option<int> {
    match day_weekday(day) {
        Some(w) => if day - spec_weekday_index(w) >= i32::MIN {
            Some(day - spec_weekday_index(w))
        } else {
            None
        },
        None => None,
    }
}

/// The Saturday on or after `day`, where `day` is a date and the result
/// fits an `i32`.
pub open spec fn saturday_after(day: int) -> Option<int> {
    match day_weekday(day) {
        Some(w) => if day + 6 - spec_weekday_index(w) <= i32::MAX {
            Some(day + 6 - spec_weekday_index(w))
        } else {
            None
        },
        None => None,
    }
}

/// The Sunday on or before day `day`.
pub fn align_to_sunday(day: i32) -> (r: Option<i32>)
    ensures
        match r {
            Some(x) => sunday_before(day as int) == Some(x as int),
            None => sunday_before(day as int) is None,
        },
{
    match weekday_of(day) {
        Some(w) => {
            let back = weekday_index(w);
            if day >= i32::MIN + back as i32 {
                Some(day - back as i32)
            } else {
                None
            }
        },
        None => None,
    }
}

/// The Saturday on or after day `day`.
pub fn align_to_saturday(day: i32) -> (r: Option<i32>)
    ensures
        match r {
            Some(x) => saturday_after(day as int) == Some(x as int),
            None => saturday_after(day as int) is None,
        },
{
    match weekday_of(day) {
        Some(w) => {
            let fwd = 6 - weekday_index(w);
            if day <= i32::MAX - fwd as i32 {
                Some(day + fwd as i32)
            } else {
                None
            }
        },
        None => None,
    }
}

/// The heat map's extent: whole weeks from the Sunday on or before the
/// first logged day to the Saturday on or after the last.
pub struct HeatmapSpan {
    /// Day number of the first cell (a Sunday).
    pub start: i32,
    /// Number of cells.
    pub total_days: usize,
    /// Number of week columns.
    pub weeks: usize,
}

/// The span from day `first` to day `last`, where both align and the
/// cell count fits a `usize`.
pub open spec fn spec_span(first: int, last: int) -> Option<(int, int, int)> {
    match (sunday_before(first), saturday_after(last)) {
        (Some(s), Some(e)) => if e - s + 1 <= usize::MAX {
            Some((s, e - s + 1, (e - s + 1 + 6) / 7))
        } else {
            None
        },
        _ => None,
    }
}

/// The grid for logged days from `first` to `last`.
#[verifier::spinoff_prover]
pub fn heatmap_span(first: i32, last: i32) -> (r: Option<HeatmapSpan>)
    requires
        first <= last,
    ensures
        match r {
            Some(g) => spec_span(first as int, last as int) == Some(
                (g.start as int, g.total_days as int, g.weeks as int),
            ),
            None => spec_span(first as int, last as int) is None,
        },
{
    let start = match align_to_sunday(first) {
        Some(s) => s,
        None => return None,
    };
    let end = match align_to_saturday(last) {
        Some(e) => e,
        None => return None,
    };
    let total: i64 = end as i64 - start as i64 + 1;
    if total as u64 > usize::MAX as u64 {
        return None;
    }
    let weeks: i64 = (total + 6) / 7;
    assert(0 <= weeks <= total);
    Some(HeatmapSpan { start, total_days: total as usize, weeks: weeks as usize })
}

/// One cell of the heat map: its day, week column and weekday row.
pub struct HeatCell {
    pub day: i32,
    pub col: usize,
    pub row: usize,
}

/// Cell `i` of a grid starting at `start` shows day `start + i` in column
/// `i / 7`, in the row of its weekday.
pub open spec fn cell_at(c: HeatCell, start: int, i: int) -> bool {
    &&& c.day == start + i
    &&& c.col == i / 7
    &&& day_weekday(start + i) matches Some(w) && c.row == spec_weekday_index(w)
}

/// Every day of the grid is a date.
pub open spec fn all_dated(start: int, n: int) -> bool {
    forall|i: int| 0 <= i < n ==> (#[trigger] day_weekday(start + i)) is Some
}

/// The cells of a grid, in day order; `None` where some day of the grid
/// is not a date.
pub fn heat_cells(span: &HeatmapSpan) -> (r: Option<Vec<HeatCell>>)
    requires
        span.start + span.total_days - 1 <= i32::MAX,
    ensures
        match r {
            Some(cells) => all_dated(span.start as int, span.total_days as int) && cells@.len()
                == span.total_days && forall|i: int|
                0 <= i < cells@.len() ==> cell_at(#[trigger] cells@[i], span.start as int, i),
            None => !all_dated(span.start as int, span.total_days as int),
        },
{
    let mut cells: Vec<HeatCell> = Vec::new();
    let mut i: usize = 0;
    while i < span.total_days
        invariant
            i <= span.total_days,
            span.start + span.total_days - 1 <= i32::MAX,
            cells@.len() == i,
            forall|k: int| 0 <= k < i ==> cell_at(#[trigger] cells@[k], span.start as int, k),
        decreases span.total_days - i,
    {
        let day = (span.start as i64 + i as i64) as i32;
        match weekday_of(day) {
            Some(w) => {
                cells.push(HeatCell { day, col: i / 7, row: weekday_index(w) });
            },
            None => {
                assert(day_weekday(span.start + i as int) is None);
                return None;
            },
        }
        i = i + 1;
    }
    proof {
        assert forall|k: int| 0 <= k < span.total_days implies (#[trigger] day_weekday(span.start + k)) is Some by {
            assert(cell_at(cells@[k], span.start as int, k));
        }
    }
    Some(cells)
}

/// Month labels over the first `w` week columns from `start`: a label
/// `(column, month)` wherever the month of the column's first day differs
/// from the last label's month (none before the first), with the month of
/// the last label (0 before any); `None` where some column is not dated.
pub open spec fn labels_upto(start: int, w: nat) -> Option<(Seq<(int, int)>, int)>
    decreases w,
{
    if w == 0 {
        Some((Seq::empty(), 0))
    } else {
        match labels_upto(start, (w - 1) as nat) {
            Some(acc) => match day_month(start + 7 * (w - 1)) {
                Some(m) => if m != acc.1 {
                    Some((acc.0.push(((w - 1) as int, m)), m))
                } else {
                    Some(acc)
                },
                None => None,
            },
            None => None,
        }
    }
}

/// Once a column is not dated, no longer run of labels is either.
proof fn lemma_labels_stay_none(start: int, w: nat, n: nat)
    requires
        w <= n,
        labels_upto(start, w) is None,
    ensures
        labels_upto(start, n) is None,
    decreases n - w,
{
    if w < n {
        lemma_labels_stay_none(start, w + 1, n);
    }
}

/// The labels as numbers.
pub open spec fn label_view(v: Seq<(usize, u32)>) -> Seq<(int, int)> {
    v.map_values(|l: (usize, u32)| (l.0 as int, l.1 as int))
}

/// The month labels along the top of a grid.
pub fn month_labels(span: &HeatmapSpan) -> (r: Option<Vec<(usize, u32)>>)
    requires
        span.start + 7 * span.weeks <= i32::MAX + 7,
    ensures
        match r {
            Some(v) => labels_upto(span.start as int, span.weeks as nat) matches Some(acc) && label_view(v@)
                == acc.0,
            None => labels_upto(span.start as int, span.weeks as nat) is None,
        },
{
    let mut out: Vec<(usize, u32)> = Vec::new();
    let mut last: u32 = 0;
    let mut w: usize = 0;
    while w < span.weeks
        invariant
            w <= span.weeks,
            span.start + 7 * span.weeks <= i32::MAX + 7,
            labels_upto(span.start as int, w as nat) == Some((label_view(out@), last as int)),
        decreases span.weeks - w,
    {
        let ghost before = out@;
        let day = (span.start as i64 + 7 * (w as i64)) as i32;
        match month_of(day) {
            Some(m) => {
                if m != last {
                    out.push((w, m));
                    assert(label_view(out@) =~= label_view(before).push((w as int, m as int)));
                    last = m;
                }
            },
            None => {
                proof {
                    lemma_labels_stay_none(span.start as int, (w + 1) as nat, span.weeks as nat);
                }
                return None;
            },
        }
        w = w + 1;
    }
    Some(out)
}

/// The most sessions logged on one day, the heat map's full intensity;
/// 1 when nothing is logged.
pub open spec fn spec_max_sessions<E>(days: Seq<DayEntry<E>>) -> int
    decreases days.len(),
{
    if days.len() == 0 {
        1
    } else if days.len() == 1 {
        days[0].sessions@.len() as int
    } else {
        let m = spec_max_sessions(days.drop_last());
        let x = days.last().sessions@.len() as int;
        if x > m {
            x
        } else {
            m
        }
    }
}

/// The most sessions logged on one day (1 for an empty log).
pub fn max_sessions<E>(days: &Vec<DayEntry<E>>) -> (r: usize)
    ensures
        r == spec_max_sessions(days@),
{
    if days.len() == 0 {
        return 1;
    }
    let mut m: usize = days[0].sessions.len();
    let mut i: usize = 1;
    while i < days.len()
        invariant
            1 <= i <= days@.len(),
            m == spec_max_sessions(days@.take(i as int)),
        decreases days@.len() - i,
    {
        proof {
            assert(days@.take(i + 1).drop_last() =~= days@.take(i as int));
        }
        let x = days[i].sessions.len();
        if x > m {
            m = x;
        }
        i = i + 1;
    }
    assert(days@.take(days@.len() as int) =~= days@);
    m
}

/// Everything the heat map draws from: its extent, its cells, the month
/// labels and the full-intensity session count.
pub struct Heatmap {
    pub span: HeatmapSpan,
    pub cells: Vec<HeatCell>,
    pub month_labels: Vec<(usize, u32)>,
    pub max_sessions: usize,
}

/// The heat map of a log whose days are in date order: `None` for an
/// empty log, or where the grid leaves the calendar.
pub fn heatmap<E>(days: &Vec<DayEntry<E>>) -> (r: Option<Heatmap>)
    requires
        forall|a: int, b: int| 0 <= a < b < days@.len() ==> days@[a].date < days@[b].date,
    ensures
        days@.len() == 0 ==> r is None,
        days@.len() > 0 ==> match spec_span(days@[0].date as int, days@.last().date as int) {
            Some(sp) => match r {
                Some(h) => {
                    &&& h.span.start == sp.0 && h.span.total_days == sp.1 && h.span.weeks == sp.2
                    &&& all_dated(sp.0, sp.1)
                    &&& h.cells@.len() == sp.1
                    &&& forall|i: int| 0 <= i < h.cells@.len() ==> cell_at(#[trigger] h.cells@[i], sp.0, i)
                    &&& labels_upto(sp.0, sp.2 as nat) matches Some(acc) && label_view(h.month_labels@) == acc.0
                    &&& h.max_sessions == spec_max_sessions(days@)
                },
                None => !all_dated(sp.0, sp.1) || labels_upto(sp.0, sp.2 as nat) is None,
            },
            None => r is None,
        },
{
    if days.len() == 0 {
        return None;
    }
    let first = days[0].date;
    let last = days[days.len() - 1].date;
    proof {
        if days@.len() > 1 {
            assert(days@[0].date < days@[days@.len() - 1].date);
        }
    }
    let span = match heatmap_span(first, last) {
        Some(sp) => sp,
        None => return None,
    };
    let cells = match heat_cells(&span) {
        Some(c) => c,
        None => return None,
    };
    let month_labels = match month_labels(&span) {
        Some(l) => l,
        None => return None,
    };
    let max_sessions = max_sessions(days);
    Some(Heatmap { span, cells, month_labels, max_sessions })
}

} // verus!
