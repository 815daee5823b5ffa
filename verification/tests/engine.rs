use sleepy::average::average;
use sleepy::log::{EventLog, Kind, LogError, TimeEntry};
use sleepy::rank::{normalize, rank_spans, rank_times, RankedEntry};
use sleepy::spans::{derive_spans, Span};
use sleepy::stats::{compute_statistics, Stats};
use sleepy::text::fmt_time_12h;
use sleepy::timestamp::Timestamp;
use sleepy::window::{compute_display_windows, expand};

const DAY: u64 = 86400;

fn entry(secs: u64, estimated: bool) -> TimeEntry {
    TimeEntry { time: Timestamp { secs }, estimated }
}

fn hm(day: u64, hour: u64, minute: u64) -> u64 {
    day * DAY + hour * 3600 + minute * 60
}

fn ranked(v: &[RankedEntry]) -> Vec<(u64, String)> {
    v.iter().map(|e| (e.date, e.text.clone())).collect()
}

fn stats_fields(s: &Stats) -> Vec<Vec<(u64, String)>> {
    vec![
        ranked(&s.longest_awake),
        ranked(&s.shortest_awake),
        ranked(&s.longest_asleep),
        ranked(&s.shortest_asleep),
        ranked(&s.earliest_wake),
        ranked(&s.earliest_sleep),
        ranked(&s.latest_wake),
        ranked(&s.latest_sleep),
    ]
}

#[test]
fn spans_count_and_alternation() {
    let entries = vec![
        entry(hm(0, 23, 0), false),
        entry(hm(1, 7, 0), false),
        entry(hm(1, 23, 30), true),
        entry(hm(2, 7, 10), false),
    ];
    let spans = derive_spans(Kind::Sleep, &entries).unwrap();
    assert_eq!(spans.len(), entries.len() - 1);
    for pair in spans.windows(2) {
        assert_ne!(pair[0].asleep, pair[1].asleep);
    }
    assert!(spans[0].asleep);
    assert_eq!(spans[0].duration, 8 * 3600);
    assert_eq!(spans[0].date, 0);
    assert!(!spans[1].asleep);
    assert_eq!(spans[1].duration, 16 * 3600 + 30 * 60);
    assert!(spans[2].asleep);
    assert_eq!(spans[2].duration, 7 * 3600 + 40 * 60);
}

#[test]
fn derive_rejects_non_monotonic() {
    let entries = vec![entry(100, false), entry(50, false)];
    assert_eq!(derive_spans(Kind::Wake, &entries), Err(LogError::NonMonotonic));
}

#[test]
fn derive_empty_and_single() {
    let none: Vec<TimeEntry> = Vec::new();
    assert_eq!(derive_spans(Kind::Wake, &none), Ok(Vec::new()));
    let one = vec![entry(10, false)];
    assert_eq!(derive_spans(Kind::Wake, &one), Ok(Vec::new()));
}

#[test]
fn rank_directions_mirror() {
    // Distinct durations: the two directions list the same spans and the
    // first of one is the last of the other.
    let spans = vec![
        Span { date: 1, duration: 300, asleep: true },
        Span { date: 2, duration: 100, asleep: true },
        Span { date: 3, duration: 200, asleep: true },
    ];
    let up = ranked(&rank_spans(&spans, true, false));
    let down = ranked(&rank_spans(&spans, true, true));
    assert_eq!(up.len(), 3);
    assert_eq!(down.len(), 3);
    let mut up_sorted = up.clone();
    up_sorted.sort();
    let mut down_sorted = down.clone();
    down_sorted.sort();
    assert_eq!(up_sorted, down_sorted);
    assert_eq!(up.first(), down.last());
    assert_eq!(up.last(), down.first());
    assert_eq!(up[0].0, 2);
    assert_eq!(down[0].0, 1);
}

#[test]
fn rank_ties_keep_chronological_order() {
    let spans = vec![
        Span { date: 1, duration: 100, asleep: true },
        Span { date: 2, duration: 100, asleep: true },
        Span { date: 3, duration: 100, asleep: true },
    ];
    let up = ranked(&rank_spans(&spans, true, false));
    let down = ranked(&rank_spans(&spans, true, true));
    assert_eq!(up.iter().map(|e| e.0).collect::<Vec<_>>(), vec![1, 2, 3]);
    assert_eq!(down.iter().map(|e| e.0).collect::<Vec<_>>(), vec![1, 2, 3]);
    // Mixed keys: the two tied spans stay in chronological order in both
    // directions.
    let mixed = vec![
        Span { date: 1, duration: 100, asleep: true },
        Span { date: 2, duration: 200, asleep: true },
        Span { date: 3, duration: 100, asleep: true },
    ];
    let up = ranked(&rank_spans(&mixed, true, false));
    let down = ranked(&rank_spans(&mixed, true, true));
    assert_eq!(up.iter().map(|e| e.0).collect::<Vec<_>>(), vec![1, 3, 2]);
    assert_eq!(down.iter().map(|e| e.0).collect::<Vec<_>>(), vec![2, 1, 3]);
}

#[test]
fn rank_takes_top_five_only() {
    let mut spans = Vec::new();
    for i in 0..7u64 {
        spans.push(Span { date: i, duration: 100 * (i + 1), asleep: false });
    }
    let down = ranked(&rank_spans(&spans, false, true));
    assert_eq!(down.len(), 5);
    assert_eq!(down[0].0, 6);
    assert_eq!(down[4].0, 2);
    let empty = rank_spans(&Vec::new(), false, true);
    assert!(empty.is_empty());
}

#[test]
fn normalize_shifts_pre_dawn_sleep_only() {
    // A 01:00 sleep event sorts after a 23:00 one; a 01:00 wake event
    // sorts before a 23:00 one.
    let one_am = 3600;
    let eleven_pm = 23 * 3600;
    assert!(normalize(one_am, true) > normalize(eleven_pm, true));
    assert!(normalize(one_am, false) < normalize(eleven_pm, false));
    assert_eq!(normalize(one_am, true), DAY + 3600);
    assert_eq!(normalize(one_am, false), 3600);
    // The boundary: 06:00 itself is not shifted.
    assert_eq!(normalize(6 * 3600, true), 6 * 3600);
    assert_eq!(normalize(6 * 3600 - 1, true), DAY + 6 * 3600 - 1);
}

#[test]
fn rank_times_displays_unshifted_time() {
    // Sleep at 01:00 ranks as latest, but still displays as "1:00 am".
    let entries = vec![
        entry(hm(0, 23, 0), false),
        entry(hm(1, 7, 0), false),
        entry(hm(2, 1, 0), false),
        entry(hm(2, 9, 0), false),
    ];
    let latest = ranked(&rank_times(Kind::Sleep, &entries, Kind::Sleep, true));
    assert_eq!(latest, vec![(2, String::from("1:00 am")), (0, String::from("11:00 pm"))]);
    let earliest = ranked(&rank_times(Kind::Sleep, &entries, Kind::Sleep, false));
    assert_eq!(earliest, vec![(0, String::from("11:00 pm")), (2, String::from("1:00 am"))]);
}

#[test]
fn twelve_hour_clock_rendering() {
    assert_eq!(fmt_time_12h(0), "12:00 am");
    assert_eq!(fmt_time_12h(12 * 3600), "12:00 pm");
    assert_eq!(fmt_time_12h(8 * 3600 + 5 * 60), "8:05 am");
    assert_eq!(fmt_time_12h(23 * 3600 + 59 * 60), "11:59 pm");
    assert_eq!(fmt_time_12h(10 * 3600), "10:00 am");
    assert_eq!(fmt_time_12h(13 * 3600 + 7 * 60), "1:07 pm");
}

#[test]
fn average_rounds_down_never_up() {
    let spans = vec![Span { date: 0, duration: 7 * 3600 + 32 * 60 + 59, asleep: true }];
    assert_eq!(average(&spans, true), Some(String::from("7h 32m")));
}

#[test]
fn average_of_two_spans_is_exact() {
    let spans = vec![
        Span { date: 0, duration: 600, asleep: false },
        Span { date: 0, duration: 90, asleep: true },
        Span { date: 1, duration: 1200, asleep: false },
    ];
    assert_eq!(average(&spans, false), Some(String::from("15m")));
    // One 90 s span rounds down to a whole minute.
    assert_eq!(average(&spans, true), Some(String::from("1m")));
}

#[test]
fn average_of_no_spans_is_none() {
    let spans = vec![Span { date: 0, duration: 600, asleep: false }];
    assert_eq!(average(&spans, true), None);
    assert_eq!(average(&Vec::new(), false), None);
}

#[test]
fn expand_uncertainty_windows() {
    // Non-estimated: five minutes each way; estimated: twenty.
    let eight = entry(hm(5, 8, 0), false);
    let (lo, hi) = expand(&eight);
    assert_eq!(lo.secs, hm(5, 7, 55));
    assert_eq!(hi.secs, hm(5, 8, 5));
    let eight_est = entry(hm(5, 8, 0), true);
    let (lo, hi) = expand(&eight_est);
    assert_eq!(lo.secs, hm(5, 7, 40));
    assert_eq!(hi.secs, hm(5, 8, 20));
}

#[test]
fn display_windows_flat_and_ordered() {
    let entries = vec![entry(hm(1, 8, 0), false), entry(hm(1, 22, 0), true)];
    let windows = compute_display_windows(&entries);
    assert_eq!(windows.len(), 4);
    assert_eq!(windows[0].secs, hm(1, 7, 55));
    assert_eq!(windows[1].secs, hm(1, 8, 5));
    assert_eq!(windows[2].secs, hm(1, 21, 40));
    assert_eq!(windows[3].secs, hm(1, 22, 20));
}

#[test]
fn append_accepts_equal_timestamp() {
    // The comparison is non-strict: an event at exactly the last event's
    // timestamp is accepted.
    let mut log = EventLog::new(Kind::Wake);
    assert_eq!(log.append(entry(1000, false)), Ok(()));
    assert_eq!(log.append(entry(1000, true)), Ok(()));
    assert_eq!(log.entries.len(), 2);
}

#[test]
fn append_rejects_earlier_timestamp() {
    let mut log = EventLog::new(Kind::Wake);
    assert_eq!(log.append(entry(1000, false)), Ok(()));
    assert_eq!(log.append(entry(999, false)), Err(LogError::OutOfOrder));
    assert_eq!(log.entries.len(), 1);
}

#[test]
fn remove_last_pops_and_tolerates_empty() {
    let mut log = EventLog::new(Kind::Wake);
    assert_eq!(log.remove_last(), None);
    log.append(entry(5, false)).unwrap();
    log.append(entry(9, true)).unwrap();
    assert_eq!(log.remove_last(), Some(entry(9, true)));
    assert_eq!(log.entries.len(), 1);
}

#[test]
fn from_entries_validates_storage() {
    let good = vec![entry(1, false), entry(2, false)];
    let log = EventLog::from_entries(Kind::Sleep, good).unwrap();
    assert_eq!(log.entries.len(), 2);
    let bad = vec![entry(2, false), entry(1, false)];
    assert_eq!(
        EventLog::from_entries(Kind::Sleep, bad).err(),
        Some(LogError::NonMonotonic)
    );
}

#[test]
fn statistics_end_to_end() {
    let mut log = EventLog::new(Kind::Sleep);
    log.append(entry(hm(0, 23, 0), false)).unwrap();
    log.append(entry(hm(1, 7, 0), false)).unwrap();
    log.append(entry(hm(1, 23, 30), true)).unwrap();
    log.append(entry(hm(2, 7, 10), false)).unwrap();
    let stats = compute_statistics(&log);
    assert_eq!(stats.avg_asleep, "7h 50m");
    assert_eq!(stats.avg_awake, "16h 30m");
    assert_eq!(
        ranked(&stats.longest_asleep),
        vec![(0, String::from("8h")), (1, String::from("7h 40m"))]
    );
    assert_eq!(
        ranked(&stats.shortest_asleep),
        vec![(1, String::from("7h 40m")), (0, String::from("8h"))]
    );
    assert_eq!(ranked(&stats.longest_awake), vec![(1, String::from("16h 30m"))]);
    assert_eq!(
        ranked(&stats.earliest_wake),
        vec![(1, String::from("7:00 am")), (2, String::from("7:10 am"))]
    );
    assert_eq!(
        ranked(&stats.latest_sleep),
        vec![(1, String::from("11:30 pm")), (0, String::from("11:00 pm"))]
    );
}

#[test]
fn statistics_short_log_is_placeholder() {
    let log = EventLog::new(Kind::Wake);
    let stats = compute_statistics(&log);
    for field in stats_fields(&stats) {
        assert!(field.is_empty());
    }
    assert_eq!(stats.avg_awake, "");
    assert_eq!(stats.avg_asleep, "");
    let mut one = EventLog::new(Kind::Wake);
    one.append(entry(100, false)).unwrap();
    let stats = compute_statistics(&one);
    for field in stats_fields(&stats) {
        assert!(field.is_empty());
    }
}

#[test]
fn statistics_two_events_have_one_sided_average() {
    // Two events make one span: the other polarity's average is empty.
    let mut log = EventLog::new(Kind::Sleep);
    log.append(entry(hm(0, 23, 0), false)).unwrap();
    log.append(entry(hm(1, 7, 0), false)).unwrap();
    let stats = compute_statistics(&log);
    assert_eq!(stats.avg_asleep, "8h");
    assert_eq!(stats.avg_awake, "");
    assert_eq!(ranked(&stats.longest_asleep), vec![(0, String::from("8h"))]);
    assert!(stats.longest_awake.is_empty());
}

#[test]
fn statistics_idempotent() {
    let mut log = EventLog::new(Kind::Sleep);
    log.append(entry(hm(0, 23, 0), false)).unwrap();
    log.append(entry(hm(1, 7, 0), true)).unwrap();
    log.append(entry(hm(1, 22, 45), false)).unwrap();
    let a = compute_statistics(&log);
    let b = compute_statistics(&log);
    assert_eq!(stats_fields(&a), stats_fields(&b));
    assert_eq!(a.avg_awake, b.avg_awake);
    assert_eq!(a.avg_asleep, b.avg_asleep);
}
