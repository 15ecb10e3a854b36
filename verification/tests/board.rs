//! The board's labels, counts and filters.

use iz::board::{
    day_label, deadline_is_overdue, fold, BoardMeta, BoardView, Column, ColumnView, DeadlineState,
    Person, TagChip, TaskCard,
};
use iz::clock::{Date, OffsetDateTime};

fn date(year: i32, month: u8, day: u8) -> Date {
    Date::new(year, month, day).unwrap()
}

/// The instant of a day at an hour, in UTC.
fn at(day: Date, hour: u8) -> OffsetDateTime {
    let month = time::Month::try_from(day.month()).unwrap();
    let date = time::Date::from_calendar_date(day.year(), month, day.day()).unwrap();
    let seconds = date.with_hms(hour, 0, 0).unwrap().assume_utc().unix_timestamp();
    OffsetDateTime::new(seconds, 0, 0).unwrap()
}

/// The board's "now": mid-afternoon on the 15th.
fn now() -> OffsetDateTime {
    at(date(2026, 9, 15), 15)
}

fn card(
    deadline: Option<Date>,
    clock_at: Option<OffsetDateTime>,
    done_at: Option<OffsetDateTime>,
) -> TaskCard {
    TaskCard {
        id: String::new(),
        task_key: String::new(),
        title: String::new(),
        column_id: String::new(),
        deadline,
        clock_at,
        done_at,
        position: 0,
        assignees: Vec::new(),
        comment_count: 0,
        blocked_by: Vec::new(),
        blocks: Vec::new(),
        subtask_total: 0,
        subtask_done: 0,
        tag: None,
    }
}

fn titled(key: &str, title: &str) -> TaskCard {
    TaskCard {
        task_key: key.to_string(),
        title: title.to_string(),
        ..card(None, None, None)
    }
}

fn person(id: &str, name: &str) -> Person {
    Person {
        id: id.to_string(),
        display_name: name.to_string(),
        photo_version: 0,
    }
}

fn column(cards: Vec<TaskCard>) -> ColumnView {
    ColumnView {
        column: Column {
            id: String::new(),
            name: String::new(),
            position: 0,
            is_done: false,
        },
        cards,
    }
}

fn board(columns: Vec<ColumnView>) -> BoardView {
    BoardView {
        board: BoardMeta {
            id: String::new(),
            name: String::new(),
            task_prefix: String::new(),
        },
        columns,
    }
}

fn keys(view: &BoardView) -> Vec<String> {
    view.cards().iter().map(|card| card.task_key.clone()).collect()
}

#[test]
fn day_only_deadlines_follow_the_day() {
    let now = now();
    // Yesterday is overdue, today is not yet, tomorrow is not.
    assert!(deadline_is_overdue(false, Some(date(2026, 9, 14)), None, now));
    assert!(!deadline_is_overdue(false, Some(date(2026, 9, 15)), None, now));
    assert!(!deadline_is_overdue(false, Some(date(2026, 9, 16)), None, now));
    // No deadline is never overdue.
    assert!(!deadline_is_overdue(false, None, None, now));
}

#[test]
fn the_clock_wins_and_the_instant_decides() {
    let now = now();
    // Earlier today: the instant has passed.
    assert!(deadline_is_overdue(
        false,
        Some(date(2026, 9, 15)),
        Some(at(date(2026, 9, 15), 9)),
        now
    ));
    // Later today: it has not.
    assert!(!deadline_is_overdue(
        false,
        Some(date(2026, 9, 15)),
        Some(at(date(2026, 9, 15), 18)),
        now
    ));
    // The exact instant counts as reached.
    assert!(deadline_is_overdue(false, Some(date(2026, 9, 15)), Some(now), now));
    // A past day whose clock is still ahead waits for the clock.
    assert!(!deadline_is_overdue(
        false,
        Some(date(2026, 9, 13)),
        Some(at(date(2026, 9, 16), 9)),
        now
    ));
    // A past day with a past clock is overdue.
    assert!(deadline_is_overdue(
        false,
        Some(date(2026, 9, 13)),
        Some(at(date(2026, 9, 13), 18)),
        now
    ));
    // A future day is not, whatever the clock says.
    assert!(!deadline_is_overdue(
        false,
        Some(date(2026, 9, 16)),
        Some(at(date(2026, 9, 16), 18)),
        now
    ));
}

#[test]
fn done_is_never_overdue() {
    let now = now();
    let done_at = Some(at(date(2026, 9, 14), 12));
    assert!(!deadline_is_overdue(
        true,
        Some(date(2026, 9, 13)),
        Some(at(date(2026, 9, 13), 18)),
        now
    ));
    let finished = card(Some(date(2026, 9, 13)), Some(at(date(2026, 9, 13), 18)), done_at);
    assert!(!finished.is_overdue(now));
    // The card's Done arm: the chip says done, not overdue.
    assert_eq!(
        finished.deadline_parts(now).map(|parts| parts.state),
        Some(DeadlineState::Done)
    );
}

#[test]
fn card_and_detail_agree_on_the_same_facts() {
    let now = now();
    let facts = [
        (Some(date(2026, 9, 14)), None),
        (Some(date(2026, 9, 15)), None),
        (Some(date(2026, 9, 15)), Some(at(date(2026, 9, 15), 9))),
        (Some(date(2026, 9, 15)), Some(at(date(2026, 9, 15), 18))),
        (Some(date(2026, 9, 13)), Some(at(date(2026, 9, 13), 18))),
        (None, None),
    ];
    for (deadline, clock_at) in facts {
        // The decision a task's own page shares with its card.
        let overdue = deadline_is_overdue(false, deadline, clock_at, now);
        assert_eq!(
            card(deadline, clock_at, None).is_overdue(now),
            overdue,
            "{deadline:?} at {clock_at:?}"
        );
        let card_parts = card(deadline, clock_at, None).deadline_parts(now);
        assert_eq!(
            card_parts.map(|parts| parts.state == DeadlineState::Overdue),
            deadline.map(|_| overdue),
            "{deadline:?} at {clock_at:?}"
        );
    }
}

#[test]
fn labels_stay_day_grain_but_borrow_the_boolean() {
    let now = now();
    // A passed clock prints the day, not the time; only `overdue` is new.
    let clocked = card(
        Some(date(2026, 9, 15)),
        Some(at(date(2026, 9, 15), 9)),
        None,
    );
    assert_eq!(clocked.deadline_label(now), "Sep 15 · overdue");
    // A clock still ahead prints the bare day.
    let waiting = card(
        Some(date(2026, 9, 15)),
        Some(at(date(2026, 9, 15), 18)),
        None,
    );
    assert_eq!(waiting.deadline_label(now), "Sep 15");
    // A finished task never wears the word.
    let finished = card(
        Some(date(2026, 9, 13)),
        Some(at(date(2026, 9, 13), 18)),
        Some(at(date(2026, 9, 14), 12)),
    );
    assert_eq!(finished.deadline_label(now), "done Sep 14");
    assert_eq!(day_label(date(2026, 9, 13)), "Sep 13");
}

#[test]
fn the_filter_chip_counts_the_same_decision() {
    let now = now();
    let view = board(vec![column(vec![
        // Overdue: yesterday.
        card(Some(date(2026, 9, 14)), None, None),
        // Overdue: the clock passed earlier today.
        card(
            Some(date(2026, 9, 15)),
            Some(at(date(2026, 9, 15), 9)),
            None,
        ),
        // Not overdue: the clock is still ahead.
        card(
            Some(date(2026, 9, 15)),
            Some(at(date(2026, 9, 15), 18)),
            None,
        ),
        // Not overdue: done.
        card(
            Some(date(2026, 9, 13)),
            Some(at(date(2026, 9, 13), 18)),
            Some(at(date(2026, 9, 14), 12)),
        ),
    ])]);
    assert_eq!(view.overdue_count(now), 2);
}

#[test]
fn overdue_is_read_off_the_local_day() {
    // Half past eleven in the evening of the 14th in UTC is the 15th three
    // hours ahead.
    let late = at(date(2026, 9, 14), 23).unix_timestamp() + 1800;
    let there = OffsetDateTime::new(late, 0, 3 * 3600).unwrap();
    assert_eq!(there.date(), date(2026, 9, 15));
    assert!(deadline_is_overdue(false, Some(date(2026, 9, 14)), None, there));
    let here = OffsetDateTime::new(late, 0, 0).unwrap();
    assert!(!deadline_is_overdue(false, Some(date(2026, 9, 14)), None, here));
    // The instant is the same, and what is overdue stays so.
    assert!(here == there);
    assert!(deadline_is_overdue(
        false,
        Some(date(2026, 9, 14)),
        None,
        at(date(2026, 9, 15), 0)
    ));
}

#[test]
fn a_card_without_a_deadline_says_so() {
    let bare = card(None, None, None);
    assert_eq!(bare.deadline_label(now()), "no deadline");
    assert!(bare.deadline_parts(now()).is_none());
    let due = card(Some(date(2026, 10, 2)), None, None);
    let parts = due.deadline_parts(now()).unwrap();
    assert_eq!(parts.date, "Oct 02");
    assert_eq!(parts.state, DeadlineState::OnTime);
}

#[test]
fn every_month_has_its_three_letters() {
    let names = [
        "Jan", "Feb", "Mar", "Apr", "May", "Jun", "Jul", "Aug", "Sep", "Oct", "Nov", "Dec",
    ];
    for (i, name) in names.iter().enumerate() {
        assert_eq!(day_label(date(2024, i as u8 + 1, 9)), format!("{name} 09"));
        assert_eq!(day_label(date(2024, i as u8 + 1, 28)), format!("{name} 28"));
    }
}

#[test]
fn initials_are_the_first_two_opening_letters() {
    assert_eq!(person("1", "Mert Deniz").initials(), "MD");
    assert_eq!(person("1", "  ada   lovelace  king ").initials(), "AL");
    assert_eq!(person("1", "grace").initials(), "G");
    assert_eq!(person("1", "(bot) 7 seas").initials(), "7S");
    assert_eq!(person("1", "şule ünal").initials(), "ŞÜ");
    assert_eq!(person("1", "ß").initials(), "SS");
    assert_eq!(person("1", "ß ö").initials(), "SSÖ");
    assert_eq!(person("1", "— !").initials(), "?");
    assert_eq!(person("1", "").initials(), "?");
}

#[test]
fn a_card_tells_its_parts_and_what_holds_it() {
    let mut task = titled("DZ-1", "Plan");
    assert_eq!(task.subtask_label(), None);
    assert!(!task.holds_on_subtasks());
    task.subtask_total = 5;
    task.subtask_done = 2;
    assert_eq!(task.subtask_label().as_deref(), Some("2/5"));
    assert!(task.holds_on_subtasks());
    task.subtask_done = 5;
    assert!(!task.holds_on_subtasks());
    assert!(!task.is_blocked());
    task.blocked_by = vec!["DZ-2".to_string()];
    assert!(task.is_blocked());
    task.done_at = Some(now());
    assert!(task.is_done());
    assert!(!task.is_blocked());
    task.assignees = vec![person("u1", "Ada"), person("u2", "Grace")];
    assert!(task.is_assigned_to("u2"));
    assert!(!task.is_assigned_to("u3"));
}

#[test]
fn folding_collapses_turkish_letters() {
    assert_eq!(fold("İş Planı Teslimi"), "is plani teslimi");
    assert_eq!(fold("IıİŞşÇçĞğÜüÖö"), "iiissccgguuoo");
    assert_eq!(fold("DZ-14"), "dz-14");
    assert_eq!(fold("Ärger"), "ärger");
}

#[test]
fn folding_folds_once_and_joins() {
    let texts = ["", "DZ-14 ", "IıİŞşÇçĞğÜüÖö", "Kapı: Ödeme & Test"];
    for text in texts {
        let once = fold(text);
        assert_eq!(fold(&once), once);
        assert!(!once.chars().any(|c| c.is_ascii_uppercase() || "ıİŞşÇçĞğÜüÖö".contains(c)));
        for other in texts {
            assert_eq!(fold(&format!("{text}{other}")), format!("{once}{}", fold(other)));
        }
    }
}

#[test]
fn a_search_finds_keys_and_fragments_in_any_case() {
    let whole = || {
        board(vec![
            column(vec![titled("DZ-14", "İş Planı Teslimi"), titled("DZ-2", "Budget")]),
            column(vec![titled("AB-1", "100% sure")]),
        ])
    };
    for query in ["iş", "İŞ", "is", "İS"] {
        let mut view = whole();
        view.searching(query);
        assert_eq!(keys(&view), vec!["DZ-14"], "{query}");
    }
    let mut view = whole();
    view.searching("dZ-2");
    assert_eq!(keys(&view), vec!["DZ-2"]);
    let mut view = whole();
    view.searching("% s");
    assert_eq!(keys(&view), vec!["AB-1"]);
    let mut view = whole();
    view.searching("%");
    assert_eq!(view.task_count(), 1);
    let mut view = whole();
    view.searching("");
    assert_eq!(view.task_count(), 3);
    let mut view = whole();
    view.searching("nowhere");
    assert!(view.is_empty());
    assert_eq!(view.columns.len(), 2);
}

#[test]
fn filters_keep_what_they_name_and_nothing_without_a_name() {
    let mut tagged = titled("DZ-1", "one");
    tagged.tag = Some(TagChip {
        id: "t1".to_string(),
        name: "Site".to_string(),
    });
    tagged.assignees = vec![person("u1", "Ada")];
    let mut mine = titled("DZ-2", "two");
    mine.assignees = vec![person("u2", "Grace"), person("u1", "Ada")];
    let free = titled("DZ-3", "three");
    let whole = board(vec![column(vec![tagged, mine, free])]);

    let mut view = whole.clone();
    view.tagged(Some("t1"));
    assert_eq!(keys(&view), vec!["DZ-1"]);
    let mut view = whole.clone();
    view.tagged(None);
    assert_eq!(view.task_count(), 3);

    let mut view = whole.clone();
    view.assigned(Some("u1"));
    assert_eq!(keys(&view), vec!["DZ-1", "DZ-2"]);
    let mut view = whole.clone();
    view.assigned(Some("none"));
    assert_eq!(keys(&view), vec!["DZ-3"]);
    let mut view = whole.clone();
    view.assigned(None);
    assert_eq!(view.task_count(), 3);

    // The passes commute.
    let mut one = whole.clone();
    one.assigned(Some("u1"));
    one.searching("tw");
    let mut other = whole.clone();
    other.searching("tw");
    other.assigned(Some("u1"));
    assert_eq!(keys(&one), keys(&other));
    assert_eq!(keys(&one), vec!["DZ-2"]);
    assert_eq!(one.blocked_count(), 0);
}

#[test]
fn blocked_cards_are_counted_once_each() {
    let mut blocked = titled("DZ-1", "one");
    blocked.blocked_by = vec!["DZ-2".to_string(), "DZ-3".to_string()];
    let mut finished = blocked.clone();
    finished.done_at = Some(now());
    let view = board(vec![column(vec![blocked, finished]), column(vec![titled("DZ-2", "two")])]);
    assert_eq!(view.blocked_count(), 1);
    assert_eq!(view.task_count(), 3);
}
