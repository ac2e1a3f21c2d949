use chrono::{Datelike, NaiveDate};

use digital_garden::apps::workouts::{
    align_to_saturday, align_to_sunday, flatten_days, heat_cells, heatmap, heatmap_span,
    month_labels, weekday_index, DayEntry, HeatmapSpan, SessionDetail, Weekday, WorkoutMonth,
    WorkoutSession,
};

#[derive(Debug, Clone)]
struct WorkoutSet {
    weight: f32,
    reps: u32,
    rpe: Option<f32>,
}

#[derive(Debug, Clone)]
struct WorkoutExercise {
    name: String,
    sets: Vec<WorkoutSet>,
}

fn session(date: &str, name: &str) -> WorkoutSession<WorkoutExercise> {
    WorkoutSession { date: date.into(), name: Some(name.into()), duration: None, exercises: Vec::new() }
}

fn day_number(y: i32, m: u32, d: u32) -> i32 {
    NaiveDate::from_ymd_opt(y, m, d).unwrap().num_days_from_ce()
}

fn get<'a, E>(days: &'a [DayEntry<E>], date: i32) -> Option<&'a DayEntry<E>> {
    days.iter().find(|d| d.date == date)
}

#[test]
fn flatten_days_groups_by_date() {
    let months = vec![WorkoutMonth {
        sessions: vec![
            session("2022-05-11 04:20:50", "ppl"),
            session("2022-05-11 18:00:00", "cardio"),
            session("2022-05-12 08:00:00", "legs"),
        ],
    }];
    let days = flatten_days(months);
    assert_eq!(days.len(), 2);
    let may11 = day_number(2022, 5, 11);
    assert_eq!(get(&days, may11).unwrap().sessions.len(), 2);
}

#[test]
fn flatten_days_skips_bad_dates() {
    let months = vec![WorkoutMonth {
        sessions: vec![WorkoutSession::<WorkoutExercise> {
            date: "garbage".into(),
            name: None,
            duration: None,
            exercises: Vec::new(),
        }],
    }];
    assert!(flatten_days(months).is_empty());
}

#[test]
fn flatten_days_preserves_exercise_details() {
    let months = vec![WorkoutMonth {
        sessions: vec![WorkoutSession {
            date: "2026-04-17 06:00:00".into(),
            name: Some("upper".into()),
            duration: Some("45m".into()),
            exercises: vec![WorkoutExercise {
                name: "Bench Press".into(),
                sets: vec![
                    WorkoutSet { weight: 185.0, reps: 5, rpe: Some(8.0) },
                    WorkoutSet { weight: 185.0, reps: 5, rpe: Some(8.5) },
                ],
            }],
        }],
    }];
    let days = flatten_days(months);
    let date = day_number(2026, 4, 17);
    let day = get(&days, date).unwrap();
    assert_eq!(day.sessions.len(), 1);
    let session = &day.sessions[0];
    assert_eq!(session.name, "upper");
    assert_eq!(session.duration.as_deref(), Some("45m"));
    assert_eq!(session.exercises.len(), 1);
    assert_eq!(session.exercises[0].sets.len(), 2);
    assert_eq!(session.exercises[0].name, "Bench Press");
    assert_eq!(session.exercises[0].sets[1].reps, 5);
    assert_eq!(session.exercises[0].sets[0].weight, 185.0);
    assert_eq!(session.exercises[0].sets[1].rpe, Some(8.5));
}

#[test]
fn days_come_in_date_order_across_months() {
    let months = vec![
        WorkoutMonth { sessions: vec![session("2022-06-01", "late"), session("bad", "skip")] },
        WorkoutMonth {
            sessions: vec![
                session("2022-05-30 07:00", "early"),
                WorkoutSession { date: "2022-06-01x".into(), name: None, duration: None, exercises: Vec::new() },
            ],
        },
    ];
    let days = flatten_days(months);
    let dates: Vec<i32> = days.iter().map(|d| d.date).collect();
    assert_eq!(dates, vec![day_number(2022, 5, 30), day_number(2022, 6, 1)]);
    let june = &days[1].sessions;
    let names: Vec<&str> = june.iter().map(|s| s.name.as_str()).collect();
    // The first ten bytes of "2022-06-01x" are the date; an unnamed
    // session is called "session".
    assert_eq!(names, vec!["late", "session"]);
}

#[test]
fn sunday_alignment() {
    // 2022-05-11 was a Wednesday → back to 2022-05-08 (Sunday).
    let d = NaiveDate::from_ymd_opt(2022, 5, 11).unwrap();
    assert_eq!(
        align_to_sunday(d.num_days_from_ce()),
        Some(NaiveDate::from_ymd_opt(2022, 5, 8).unwrap().num_days_from_ce())
    );
}

#[test]
fn saturday_alignment() {
    let d = NaiveDate::from_ymd_opt(2022, 5, 11).unwrap();
    assert_eq!(
        align_to_saturday(d.num_days_from_ce()),
        Some(NaiveDate::from_ymd_opt(2022, 5, 14).unwrap().num_days_from_ce())
    );
}

#[test]
fn alignment_keeps_sundays_and_saturdays() {
    let sunday = day_number(2022, 5, 8);
    let saturday = day_number(2022, 5, 14);
    assert_eq!(align_to_sunday(sunday), Some(sunday));
    assert_eq!(align_to_saturday(saturday), Some(saturday));
    // Outside chrono's calendar there is no weekday.
    assert_eq!(align_to_sunday(200_000_000), None);
    assert_eq!(weekday_index(Weekday::Sun), 0);
    assert_eq!(weekday_index(Weekday::Sat), 6);
}

#[test]
fn heatmap_span_covers_whole_weeks() {
    let span = heatmap_span(day_number(2022, 5, 11), day_number(2022, 5, 24)).unwrap();
    assert_eq!(span.start, day_number(2022, 5, 8));
    assert_eq!(span.total_days, 21);
    assert_eq!(span.weeks, 3);
    let cells = heat_cells(&span).unwrap();
    assert_eq!(cells.len(), 21);
    assert_eq!((cells[0].day, cells[0].col, cells[0].row), (day_number(2022, 5, 8), 0, 0));
    assert_eq!((cells[10].day, cells[10].col, cells[10].row), (day_number(2022, 5, 18), 1, 3));
}

#[test]
fn month_labels_mark_the_first_week_of_each_month() {
    // 2022-04-24 is a Sunday; columns start Apr 24, May 1, May 8, May 15, May 22, May 29, Jun 5.
    let span = HeatmapSpan { start: day_number(2022, 4, 24), total_days: 49, weeks: 7 };
    assert_eq!(month_labels(&span).unwrap(), vec![(0, 4), (1, 5), (6, 6)]);
}

#[test]
fn heatmap_of_a_log() {
    let detail = |n: &str| SessionDetail::<WorkoutExercise> {
        name: n.to_string(),
        duration: None,
        exercises: Vec::new(),
    };
    let days = vec![
        DayEntry { date: day_number(2022, 5, 11), sessions: vec![detail("a")] },
        DayEntry { date: day_number(2022, 5, 12), sessions: vec![detail("b"), detail("c")] },
    ];
    let h = heatmap(&days).unwrap();
    assert_eq!(h.span.start, day_number(2022, 5, 8));
    assert_eq!(h.span.weeks, 1);
    assert_eq!(h.cells.len(), 7);
    assert_eq!(h.month_labels, vec![(0, 5)]);
    assert_eq!(h.max_sessions, 2);
    assert!(heatmap::<WorkoutExercise>(&Vec::new()).is_none());
}

#[test]
fn calendar_days_run_from_262144_bce_to_262142_ce() {
    let last = 95_745_399;
    let first = -95_746_129;
    assert_eq!(NaiveDate::from_num_days_from_ce_opt(last), NaiveDate::from_ymd_opt(262_142, 12, 31));
    assert_eq!(NaiveDate::from_num_days_from_ce_opt(first), NaiveDate::from_ymd_opt(-262_143, 1, 1));
    // Day 95745399 is a Monday (row 1), day -95746129 a Thursday (row 4).
    assert_eq!(align_to_sunday(last), Some(last - 1));
    assert_eq!(align_to_sunday(last + 1), None);
    assert_eq!(align_to_sunday(first), Some(first - 4));
    assert_eq!(align_to_sunday(first - 1), None);
    let one = |start: i32| month_labels(&HeatmapSpan { start, total_days: 7, weeks: 1 });
    assert_eq!(one(last), Some(vec![(0, 12)]));
    assert_eq!(one(last + 1), None);
    assert_eq!(one(first), Some(vec![(0, 1)]));
    assert_eq!(one(first - 1), None);
}

#[test]
fn month_labels_follow_the_calendar_across_centuries() {
    // Every fourth week over two 400-year cycles around year 0, against chrono.
    let mut day = NaiveDate::from_ymd_opt(-400, 3, 1).unwrap().num_days_from_ce();
    let end = NaiveDate::from_ymd_opt(400, 3, 1).unwrap().num_days_from_ce();
    while day < end {
        let month = NaiveDate::from_num_days_from_ce_opt(day).unwrap().month();
        assert_eq!(month_labels(&HeatmapSpan { start: day, total_days: 7, weeks: 1 }), Some(vec![(0usize, month)]));
        day += 27;
    }
}
