use birthbot::birthday::Birthday;
use birthbot::model::MemberRecord;
use birthbot::schedule::{due_for_announcement, sorted_by_birth_instant, upcoming};

fn bd(year: i32, month: u8, day: u8, hour: u8, minute: u8, second: u8, offset: i16) -> Birthday {
    Birthday {
        year,
        month,
        day,
        hour,
        minute,
        second,
        offset_minutes: offset,
    }
}

fn rec(user_id: u64, b: Birthday) -> MemberRecord {
    MemberRecord {
        user_id,
        guild_id: 1,
        birthday: b,
    }
}

fn users(records: &[MemberRecord]) -> Vec<u64> {
    records.iter().map(|r| r.user_id).collect()
}

const HALF_DAY: i64 = 12 * 3600;

#[test]
fn window_membership() {
    // now = 2024-06-15T00:00:00+00:00, half-window = 12h: the window is
    // [2024-06-14T12:00:00Z, 2024-06-15T12:00:00Z], both ends included.
    let now = bd(2024, 6, 15, 0, 0, 0, 0).instant_of();
    let inside = rec(1, bd(1990, 6, 15, 6, 0, 0, 0));
    let day_after = rec(2, bd(1990, 6, 16, 6, 0, 0, 0));
    // 2024-06-14T11:00:00Z is thirteen hours before "now": one hour below
    // the window's lower bound.
    let hour_short = rec(3, bd(1990, 6, 14, 11, 0, 0, 0));
    let records = vec![inside, day_after, hour_short];
    let hits = due_for_announcement(now, HALF_DAY, &records);
    assert_eq!(users(&hits), vec![1]);
}

#[test]
fn window_bounds_are_inclusive() {
    let now = bd(2024, 6, 15, 0, 0, 0, 0).instant_of();
    let at_lower = rec(1, bd(1990, 6, 14, 12, 0, 0, 0));
    let below_lower = rec(2, bd(1990, 6, 14, 11, 59, 59, 0));
    let at_upper = rec(3, bd(1990, 6, 15, 12, 0, 0, 0));
    let above_upper = rec(4, bd(1990, 6, 15, 12, 0, 1, 0));
    let records = vec![at_lower, below_lower, at_upper, above_upper];
    let hits = due_for_announcement(now, HALF_DAY, &records);
    assert_eq!(users(&hits), vec![1, 3]);
}

#[test]
fn window_respects_offsets() {
    let now = bd(2024, 6, 15, 0, 0, 0, 0).instant_of();
    // 06:00 at +09:00 is 21:00 UTC of the previous day: 3h before now.
    let east = rec(1, bd(1990, 6, 15, 6, 0, 0, 540));
    let hits = due_for_announcement(now, HALF_DAY, &vec![east]);
    assert_eq!(users(&hits), vec![1]);
}

#[test]
fn empty_snapshot() {
    let now = bd(2024, 6, 15, 0, 0, 0, 0).instant_of();
    let none: Vec<MemberRecord> = Vec::new();
    assert!(due_for_announcement(now, HALF_DAY, &none).is_empty());
    assert!(upcoming(now, &none, 5).is_empty());
}

#[test]
fn upcoming_orders_by_next_occurrence_and_wraps() {
    // Occurrences this year around day-of-year 10, 200 and 50, with "now"
    // near day 100: the day-10 and day-50 occurrences have passed.
    let now = bd(2024, 4, 10, 0, 0, 0, 0).instant_of();
    let jan = rec(10, bd(1990, 1, 10, 0, 0, 0, 0));
    let jul = rec(200, bd(1990, 7, 19, 0, 0, 0, 0));
    let feb = rec(50, bd(1990, 2, 19, 0, 0, 0, 0));
    let records = vec![jan, jul, feb];

    let two = upcoming(now, &records, 2);
    assert_eq!(users(&two), vec![200, 10]);

    let five = upcoming(now, &records, 5);
    assert_eq!(users(&five), vec![200, 10, 50, 200, 10]);
}

#[test]
fn upcoming_single_record_repeats() {
    let now = bd(2024, 4, 10, 0, 0, 0, 0).instant_of();
    let only = rec(7, bd(1999, 12, 24, 0, 0, 0, 0));
    let three = upcoming(now, &vec![only], 3);
    assert_eq!(users(&three), vec![7, 7, 7]);
}

#[test]
fn upcoming_today_counts_as_next() {
    // An occurrence exactly at "now" is this year's, not next year's.
    let now = bd(2024, 6, 15, 0, 0, 0, 0).instant_of();
    let today = rec(1, bd(1990, 6, 15, 0, 0, 0, 0));
    let tomorrow = rec(2, bd(1990, 6, 16, 0, 0, 0, 0));
    let got = upcoming(now, &vec![tomorrow, today], 2);
    assert_eq!(users(&got), vec![1, 2]);
}

#[test]
fn upcoming_tie_break_is_stable() {
    let now = bd(2024, 4, 10, 0, 0, 0, 0).instant_of();
    let b = bd(1990, 7, 19, 12, 0, 0, 0);
    let first = rec(1, b);
    let second = rec(2, b);
    let records = vec![first, second];
    let got = upcoming(now, &records, 4);
    assert_eq!(users(&got), vec![1, 2, 1, 2]);
    // Deterministic across repeated calls on the same snapshot.
    let again = upcoming(now, &records, 4);
    assert_eq!(got, again);
}

#[test]
fn upcoming_year_rollover() {
    // Every occurrence this year has passed: all move to next year, sorted
    // by their next-year instants.
    let now = bd(2024, 12, 30, 0, 0, 0, 0).instant_of();
    let jan = rec(1, bd(1990, 1, 5, 0, 0, 0, 0));
    let mar = rec(3, bd(1990, 3, 5, 0, 0, 0, 0));
    let got = upcoming(now, &vec![mar, jan], 2);
    assert_eq!(users(&got), vec![1, 3]);
}

#[test]
fn ordering_compares_utc_instants_not_wall_clocks() {
    let now = bd(2024, 6, 1, 0, 0, 0, 0).instant_of();
    // 12:00 at +09:00 is 03:00 UTC; 10:00 at +00:00 is 10:00 UTC. The
    // eastern record's occurrence is the earlier instant although its
    // wall-clock time is later.
    let east = rec(1, bd(1990, 7, 1, 12, 0, 0, 540));
    let west = rec(2, bd(1990, 7, 1, 10, 0, 0, 0));
    let got = upcoming(now, &vec![west, east], 2);
    assert_eq!(users(&got), vec![1, 2]);
    let listed = sorted_by_birth_instant(&vec![west, east]);
    assert_eq!(users(&listed), vec![1, 2]);
}

#[test]
fn sorted_listing_is_chronological_and_stable() {
    let older = rec(1, bd(1980, 5, 1, 0, 0, 0, 0));
    let younger = rec(2, bd(1990, 5, 1, 0, 0, 0, 0));
    let tied = rec(3, bd(1990, 5, 1, 0, 0, 0, 0));
    let records = vec![younger, older, tied];
    let got = sorted_by_birth_instant(&records);
    assert_eq!(users(&got), vec![1, 2, 3]);
}
