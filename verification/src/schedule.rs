//! The pre-warming schedule: times of day, and the instance floor in effect.

use crate::text::chars_of;
use vstd::prelude::*;

verus! {

/// Minutes in a day.
pub const DAY_MINUTES: u32 = 1440;

/// A schedule of instance floors over the day.
#[derive(Debug, Clone)]
pub struct ScheduleConfig {
    pub entries: Vec<ScheduleEntry>,
}

/// One floor and the time of day at which it takes effect.
#[derive(Debug, Clone)]
pub struct ScheduleEntry {
    /// 24h "HH:MM", evaluated against local server time.
    pub at: String,
    pub instances: u32,
}

/// The number that two digits stand for.
pub open spec fn pair(tens: char, ones: char) -> nat {
    crate::text::digit_value(tens) * 10 + crate::text::digit_value(ones)
}

/// Whether a text has the form "HH:MM": two digits, a colon and two digits.
pub open spec fn is_hhmm(text: Seq<char>) -> bool {
    &&& text.len() == 5
    &&& crate::text::is_digit(text[0])
    &&& crate::text::is_digit(text[1])
    &&& text[2] == ':'
    &&& crate::text::is_digit(text[3])
    &&& crate::text::is_digit(text[4])
}

/// The minutes since midnight that "HH:MM" stands for: an hour below 24 and a
/// minute below 60.
pub open spec fn hhmm(text: Seq<char>) -> Option<u32> {
    let hour = pair(text[0], text[1]);
    let minute = pair(text[3], text[4]);
    if is_hhmm(text) && hour < 24 && minute < 60 {
        Some((hour * 60 + minute) as u32)
    } else {
        None
    }
}

/// Reads one digit.
fn read_digit(c: char) -> (digit: Option<u32>)
    ensures
        match digit {
            Some(d) => crate::text::is_digit(c) && d == crate::text::digit_value(c),
            None => !crate::text::is_digit(c),
        },
{
    if '0' <= c && c <= '9' {
        Some(c as u32 - '0' as u32)
    } else {
        None
    }
}

/// Reads two digits.
fn read_pair(tens: char, ones: char) -> (number: Option<u32>)
    ensures
        match number {
            Some(n) => crate::text::is_digit(tens) && crate::text::is_digit(ones) && n == pair(
                tens,
                ones,
            ) && n < 100,
            None => !crate::text::is_digit(tens) || !crate::text::is_digit(ones),
        },
{
    match (read_digit(tens), read_digit(ones)) {
        (Some(t), Some(o)) => Some(t * 10 + o),
        _ => None,
    }
}

/// Parses "HH:MM" into minutes since midnight. Returns `None` if malformed.
pub fn parse_hhmm(s: &str) -> (minutes: Option<u32>)
    ensures
        minutes == hhmm(s@),
        minutes matches Some(m) ==> m < DAY_MINUTES,
{
    let chars: Vec<char> = chars_of(s);
    if chars.len() != 5 || chars[2] != ':' {
        return None;
    }
    match (read_pair(chars[0], chars[1]), read_pair(chars[3], chars[4])) {
        (Some(h), Some(m)) => if h < 24 && m < 60 {
            Some(h * 60 + m)
        } else {
            None
        },
        _ => None,
    }
}

impl ScheduleEntry {
    /// When the entry takes effect; an entry whose time is malformed counts as
    /// midnight.
    pub open spec fn minute(self) -> u32 {
        match hhmm(self.at@) {
            Some(m) => m,
            None => 0,
        }
    }
}

/// Whether entry `i` takes effect after entry `j` in the course of a day, or is
/// entry `j`. Entries for the same minute take effect in the order of the list.
pub open spec fn supersedes(entries: Seq<ScheduleEntry>, i: int, j: int) -> bool {
    entries[j].minute() < entries[i].minute() || (entries[j].minute() == entries[i].minute() && j
        <= i)
}

/// Whether entry `i` has already taken effect today.
pub open spec fn fired(entries: Seq<ScheduleEntry>, now: u32, i: int) -> bool {
    0 <= i < entries.len() && entries[i].minute() <= now
}

/// Whether entry `i` may be in effect: it has taken effect today, or nothing has
/// and the day before still counts.
pub open spec fn eligible(entries: Seq<ScheduleEntry>, now: u32, i: int) -> bool {
    0 <= i < entries.len() && ((exists|j: int| fired(entries, now, j)) ==> fired(entries, now, i))
}

/// Whether entry `i` is the one in effect at minute `now`: the last one that
/// took effect today, or, before the first of the day, the last one of the day
/// before.
pub open spec fn standing(entries: Seq<ScheduleEntry>, now: u32, i: int) -> bool {
    &&& eligible(entries, now, i)
    &&& forall|j: int| #[trigger] eligible(entries, now, j) ==> supersedes(entries, i, j)
}

/// The floor that a schedule puts in effect at minute `now`.
pub open spec fn scheduled_floor(entries: Seq<ScheduleEntry>, now: u32) -> Option<u32> {
    if entries.len() == 0 {
        None
    } else {
        Some(entries[choose|i: int| standing(entries, now, i)].instances)
    }
}

/// Given a schedule and the current time (minutes since midnight, local server
/// time), returns the instance floor that should currently be in effect, or
/// `None` if the schedule has no entries.
///
/// A schedule entry is a standing floor, not a one-shot trigger. The entry that
/// most recently took effect (the latest `at` that is `<= now`) wins. If `now`
/// is earlier than every entry today, the last entry of the day still applies:
/// it took effect yesterday and has not been superseded yet.
pub fn current_scheduled_floor(schedule: &ScheduleConfig, now_minutes: u32) -> (floor: Option<u32>)
    ensures
        floor == scheduled_floor(schedule.entries@, now_minutes),
        floor is None <==> schedule.entries@.len() == 0,
        forall|i: int| #[trigger]
            standing(schedule.entries@, now_minutes, i) ==> floor == Some(
                schedule.entries@[i].instances,
            ),
{
    let ghost entries = schedule.entries@;
    if schedule.entries.len() == 0 {
        return None;
    }
    let mut latest: usize = 0;
    let mut latest_minute: u32 = 0;
    let mut found: Option<usize> = None;
    let mut found_minute: u32 = 0;
    let mut i: usize = 0;
    while i < schedule.entries.len()
        invariant
            entries == schedule.entries@,
            i <= entries.len(),
            i > 0 ==> latest < i && latest_minute == entries[latest as int].minute(),
            i == 0 ==> latest_minute == 0,
            forall|j: int| 0 <= j < i ==> #[trigger] supersedes(entries, latest as int, j),
            match found {
                Some(f) => {
                    &&& f < i
                    &&& fired(entries, now_minutes, f as int)
                    &&& found_minute == entries[f as int].minute()
                    &&& forall|j: int|
                        j < i && #[trigger] fired(entries, now_minutes, j) ==> supersedes(
                            entries,
                            f as int,
                            j,
                        )
                },
                None => {
                    &&& found_minute == 0
                    &&& forall|j: int| j < i ==> !#[trigger] fired(entries, now_minutes, j)
                },
            },
        decreases entries.len() - i,
    {
        let minute: u32 = match parse_hhmm(schedule.entries[i].at.as_str()) {
            Some(m) => m,
            None => 0,
        };
        assert(minute == entries[i as int].minute());
        if minute >= latest_minute {
            proof {
                assert forall|j: int| 0 <= j < i implies #[trigger] supersedes(
                    entries,
                    i as int,
                    j,
                ) by {
                    assert(supersedes(entries, latest as int, j));
                }
            }
            latest = i;
            latest_minute = minute;
        }
        if minute <= now_minutes && minute >= found_minute {
            found = Some(i);
            found_minute = minute;
        }
        i = i + 1;
    }
    let winner: usize = match found {
        Some(f) => f,
        None => latest,
    };
    proof {
        assert(standing(entries, now_minutes, winner as int));
        assert forall|k: int| #[trigger] standing(entries, now_minutes, k) implies k == winner by {
            law_one_standing_entry(entries, now_minutes, k, winner as int);
        }
    }
    Some(schedule.entries[winner].instances)
}

/// A number below 100 as two digits.
pub open spec fn two_digits(n: nat) -> Seq<char> {
    seq![crate::text::digit_char(n / 10), crate::text::digit_char(n % 10)]
}

/// Every time of day can be written as "HH:MM" and is read back: two digits of
/// the hour, a colon and two digits of the minute stand for that minute of the day.
pub proof fn law_time_of_day_reads_back(hour: u32, minute: u32)
    requires
        hour < 24,
        minute < 60,
    ensures
        hhmm(two_digits(hour as nat) + seq![':'] + two_digits(minute as nat)) == Some(
            (hour * 60 + minute) as u32,
        ),
{
    let text: Seq<char> = two_digits(hour as nat) + seq![':'] + two_digits(minute as nat);
    assert(pair(text[0], text[1]) == hour);
    assert(pair(text[3], text[4]) == minute);
}

/// Only times of day are read: a text that stands for a minute is the hour and
/// the minute of that minute, in two digits each.
pub proof fn law_only_times_of_day_are_read(text: Seq<char>)
    requires
        hhmm(text) is Some,
    ensures
        text == two_digits((hhmm(text)->Some_0 / 60) as nat) + seq![':'] + two_digits(
            (hhmm(text)->Some_0 % 60) as nat,
        ),
{
    let minutes: u32 = hhmm(text)->Some_0;
    let hour: nat = pair(text[0], text[1]);
    let minute: nat = pair(text[3], text[4]);
    assert(minutes / 60 == hour && minutes % 60 == minute);
    assert(text =~= two_digits(hour) + seq![':'] + two_digits(minute));
}

/// At most one entry is in effect at a time.
pub proof fn law_one_standing_entry(entries: Seq<ScheduleEntry>, now: u32, i: int, k: int)
    requires
        standing(entries, now, i),
        standing(entries, now, k),
    ensures
        i == k,
{
    assert(eligible(entries, now, i) && eligible(entries, now, k));
}

/// In a schedule with entries, some entry is in effect at every minute.
pub proof fn law_some_standing_entry(entries: Seq<ScheduleEntry>, now: u32) -> (i: int)
    requires
        entries.len() > 0,
    ensures
        standing(entries, now, i),
{
    if exists|j: int| fired(entries, now, j) {
        let j: int = choose|j: int| fired(entries, now, j);
        assert(eligible(entries, now, j));
    } else {
        assert(eligible(entries, now, 0));
    }
    lemma_last_eligible(entries, now, entries.len() as int)
}

/// Among the first `n` entries, the eligible ones have a last one.
proof fn lemma_last_eligible(entries: Seq<ScheduleEntry>, now: u32, n: int) -> (i: int)
    requires
        0 <= n <= entries.len(),
        exists|j: int| j < n && #[trigger] eligible(entries, now, j),
    ensures
        i < n,
        eligible(entries, now, i),
        forall|j: int| j < n && #[trigger] eligible(entries, now, j) ==> supersedes(entries, i, j),
    decreases n,
{
    let last: int = n - 1;
    if exists|j: int| j < last && #[trigger] eligible(entries, now, j) {
        let before: int = lemma_last_eligible(entries, now, last);
        if eligible(entries, now, last) && supersedes(entries, last, before) {
            last
        } else {
            before
        }
    } else {
        last
    }
}

/// Between entries nothing changes: if no entry takes effect after `now` and up
/// to `later`, the same floor is in effect at both minutes.
pub proof fn law_floor_holds_between_entries(entries: Seq<ScheduleEntry>, now: u32, later: u32)
    requires
        now <= later,
        forall|j: int|
            0 <= j < entries.len() ==> !(now < (#[trigger] entries[j]).minute() <= later),
    ensures
        scheduled_floor(entries, now) == scheduled_floor(entries, later),
{
    assert forall|j: int| #[trigger] fired(entries, now, j) == fired(entries, later, j) by {}
    if exists|j: int| fired(entries, later, j) {
        let j: int = choose|j: int| fired(entries, later, j);
        assert(fired(entries, now, j));
    }
    assert forall|j: int| #[trigger] eligible(entries, now, j) == eligible(entries, later, j) by {
        assert(fired(entries, now, j) == fired(entries, later, j));
    }
    if entries.len() > 0 {
        lemma_same_floor(entries, now, later);
    }
}

/// A floor set in the evening still holds the next morning: before the first
/// entry of the day the floor is the one that was in effect at the end of the day.
pub proof fn law_floor_holds_overnight(entries: Seq<ScheduleEntry>, now: u32)
    requires
        forall|j: int| 0 <= j < entries.len() ==> now < (#[trigger] entries[j]).minute(),
    ensures
        scheduled_floor(entries, now) == scheduled_floor(entries, (DAY_MINUTES - 1) as u32),
{
    let end: u32 = (DAY_MINUTES - 1) as u32;
    assert forall|j: int| #[trigger] eligible(entries, now, j) == eligible(entries, end, j) by {
        if 0 <= j < entries.len() {
            lemma_minute_in_day(entries[j]);
            assert(fired(entries, end, j));
        }
        assert(!(exists|k: int| fired(entries, now, k)));
    }
    if entries.len() > 0 {
        lemma_same_floor(entries, now, end);
    }
}

/// The order of the entries in the list does not matter where their times differ:
/// only the latest time that has come decides.
pub proof fn law_latest_fired_entry_wins(entries: Seq<ScheduleEntry>, now: u32, i: int)
    requires
        fired(entries, now, i),
        forall|j: int|
            j != i && #[trigger] fired(entries, now, j) ==> entries[j].minute()
                < entries[i].minute(),
    ensures
        scheduled_floor(entries, now) == Some(entries[i].instances),
{
    assert(eligible(entries, now, i));
    assert forall|j: int| #[trigger] eligible(entries, now, j) implies supersedes(entries, i, j) by {
        assert(fired(entries, now, j));
    }
    assert(standing(entries, now, i));
    law_one_standing_entry(entries, now, i, choose|k: int| standing(entries, now, k));
}

/// Minutes at which the same entries are eligible have the same floor.
proof fn lemma_same_floor(entries: Seq<ScheduleEntry>, a: u32, b: u32)
    requires
        entries.len() > 0,
        forall|j: int| #[trigger] eligible(entries, a, j) == eligible(entries, b, j),
    ensures
        scheduled_floor(entries, a) == scheduled_floor(entries, b),
{
    let i: int = law_some_standing_entry(entries, a);
    assert(eligible(entries, a, i));
    assert forall|j: int| #[trigger] eligible(entries, b, j) implies supersedes(entries, i, j) by {
        assert(eligible(entries, a, j));
    }
    assert(standing(entries, b, i));
    law_one_standing_entry(entries, a, i, choose|k: int| standing(entries, a, k));
    law_one_standing_entry(entries, b, i, choose|k: int| standing(entries, b, k));
}

/// Every time of day lies within the day.
proof fn lemma_minute_in_day(entry: ScheduleEntry)
    ensures
        entry.minute() < DAY_MINUTES,
{
}

/// How a time is read, by its characters: five of them, two digits, a colon and two
/// digits, for an hour below 24 and a minute below 60, and nothing else.
pub proof fn law_time_of_day_by_characters(text: &str, minutes: Option<u32>)
    requires
        call_ensures(parse_hhmm, (text,), minutes),
    ensures
        ({
            let hour = (text@[0] as int - '0' as int) * 10 + (text@[1] as int - '0' as int);
            let minute = (text@[3] as int - '0' as int) * 10 + (text@[4] as int - '0' as int);
            &&& minutes is Some <==> {
                &&& text@.len() == 5
                &&& '0' <= text@[0] <= '9'
                &&& '0' <= text@[1] <= '9'
                &&& text@[2] == ':'
                &&& '0' <= text@[3] <= '9'
                &&& '0' <= text@[4] <= '9'
                &&& hour < 24
                &&& minute < 60
            }
            &&& minutes matches Some(m) ==> m == hour * 60 + minute
            &&& minutes == hhmm(text@)
        }),
{
}

/// When an entry takes effect: at the time that its text says, or at midnight if it
/// says none.
pub proof fn law_entry_takes_effect_at_its_time(entry: ScheduleEntry, hour: nat, minute: nat)
    requires
        hour < 24,
        minute < 60,
    ensures
        entry.at@ == seq![
            ('0' as int + hour / 10) as char,
            ('0' as int + hour % 10) as char,
            ':',
            ('0' as int + minute / 10) as char,
            ('0' as int + minute % 10) as char,
        ] ==> entry.minute() == hour * 60 + minute,
        hhmm(entry.at@) is None ==> entry.minute() == 0,
{
}

/// Which floor is in effect, by the times that the entries say: that of the entry
/// with the latest time that has come, and before the first one that of the entry
/// with the latest time of all; of two with the same time the later one of the list.
/// `times` are the minutes of the entries, midnight for one that says none.
pub proof fn law_latest_time_decides(
    schedule: &ScheduleConfig,
    now: u32,
    floor: Option<u32>,
    times: Seq<u32>,
    i: int,
)
    requires
        call_ensures(current_scheduled_floor, (schedule, now), floor),
        times.len() == schedule.entries@.len(),
        forall|j: int|
            0 <= j < times.len() ==> #[trigger] times[j] == match hhmm(schedule.entries@[j].at@) {
                Some(m) => m,
                None => 0,
            },
    ensures
        times.len() == 0 ==> floor is None,
        0 <= i < times.len() && times[i] <= now && (forall|j: int|
            0 <= j < times.len() && #[trigger] times[j] <= now ==> times[j] < times[i] || times[j]
                == times[i] && j <= i) ==> floor == Some(schedule.entries@[i].instances),
        0 <= i < times.len() && (forall|j: int|
            0 <= j < times.len() ==> #[trigger] times[j] > now && (times[j] < times[i] || times[j]
                == times[i] && j <= i)) ==> floor == Some(schedule.entries@[i].instances),
        floor == scheduled_floor(schedule.entries@, now),
{
    let entries: Seq<ScheduleEntry> = schedule.entries@;
    assert forall|j: int| 0 <= j < times.len() implies #[trigger] times[j]
        == entries[j].minute() by {}
    if 0 <= i < times.len() && times[i] <= now && (forall|j: int|
        0 <= j < times.len() && #[trigger] times[j] <= now ==> times[j] < times[i] || times[j]
            == times[i] && j <= i) {
        assert(fired(entries, now, i));
        assert forall|j: int| #[trigger] eligible(entries, now, j) implies supersedes(
            entries,
            i,
            j,
        ) by {
            assert(fired(entries, now, j));
            assert(times[j] <= now);
        }
        assert(standing(entries, now, i));
    }
    if 0 <= i < times.len() && (forall|j: int|
        0 <= j < times.len() ==> #[trigger] times[j] > now && (times[j] < times[i] || times[j]
            == times[i] && j <= i)) {
        assert forall|j: int| !fired(entries, now, j) by {
            if 0 <= j < entries.len() {
                assert(times[j] > now);
            }
        }
        assert forall|j: int| #[trigger] eligible(entries, now, j) implies supersedes(
            entries,
            i,
            j,
        ) by {
            assert(times[j] > now);
        }
        assert(standing(entries, now, i));
    }
}

} // verus!
