//! The process's arguments, the mail sweep and the faces it serves.

use iz::avatar::{portrait, refusal_status, require_session, serve, stamped_version, whose_photo, AvatarRow, Refused};
use iz::boot::{command_of, Command};
use iz::clock::{Duration, OffsetDateTime};
use iz::sweep::{
    queue_touched, sweep_line, sweep_wait, Heard, Line, Sweep, SweepEvent, SweepReport,
};

fn args(words: &[&str]) -> Vec<String> {
    words.iter().map(|word| word.to_string()).collect()
}

#[test]
fn arguments_name_a_command() {
    assert_eq!(command_of(&args(&[])), Command::Serve);
    assert_eq!(command_of(&args(&["iz"])), Command::Serve);
    assert_eq!(command_of(&args(&["iz", "--dry-run"])), Command::Serve);
    assert_eq!(
        command_of(&args(&["iz", "reconcile"])),
        Command::Reconcile {
            dry_run: false,
            yes: false
        }
    );
    assert_eq!(
        command_of(&args(&["iz", "reconcile", "--yes", "--dry-run", "--yes"])),
        Command::Reconcile {
            dry_run: true,
            yes: true
        }
    );
    assert_eq!(
        command_of(&args(&["iz", "reconcile", "--yes", "-n", "-m"])),
        Command::Unknown("iz reconcile: unknown option -n".to_string())
    );
}

fn at(seconds: i64, nanos: u32) -> OffsetDateTime {
    OffsetDateTime::new(seconds, nanos, 0).unwrap()
}

#[test]
fn the_sweep_sleeps_until_the_next_mail() {
    let now = at(1_000, 500_000_000);
    let wait = |due: Option<OffsetDateTime>| {
        let wait = sweep_wait(due, now);
        (wait.as_secs(), wait.subsec_nanos())
    };
    assert_eq!(wait(None), (3_600, 0));
    assert_eq!(wait(Some(at(1_002, 250_000_000))), (1, 750_000_000));
    assert_eq!(wait(Some(at(1_000, 500_000_001))), (0, 1));
    assert_eq!(wait(Some(at(4_600, 499_999_999))), (3_599, 999_999_999));
    assert_eq!(wait(Some(at(4_600, 500_000_000))), (3_600, 0));
    assert_eq!(wait(Some(at(1_000_000, 0))), (3_600, 0));
    // Due already: a short re-check, not the idle hour.
    assert_eq!(wait(Some(now)), (60, 0));
    assert_eq!(wait(Some(at(0, 0))), (60, 0));
}

#[test]
fn a_pass_tells_what_it_did() {
    let report = |sent, failed, abandoned| SweepReport {
        sent,
        failed,
        abandoned,
    };
    assert_eq!(sweep_line(report(0, 0, 0)), None);
    assert_eq!(
        sweep_line(report(3, 1, 20)).as_deref(),
        Some("iz mail  sweep: 3 sent, 1 to retry, 20 given up on")
    );
    assert!(sweep_line(report(0, 0, u32::MAX)).is_some());
}

#[test]
fn only_the_queue_wakes_the_sweep() {
    assert_eq!(queue_touched(Heard::Queue), Some(true));
    assert_eq!(queue_touched(Heard::Lagged), Some(true));
    assert_eq!(queue_touched(Heard::Closed), Some(false));
    assert_eq!(queue_touched(Heard::Other), None);
}

#[test]
fn the_first_stamp_of_a_query_counts() {
    assert_eq!(stamped_version("v=7"), Some(7));
    assert_eq!(stamped_version("a=1&v=18446744073709551615"), Some(u64::MAX));
    assert_eq!(stamped_version("v=+3"), Some(3));
    assert_eq!(stamped_version("v&v=4"), Some(4));
    assert_eq!(stamped_version("v=x&v=4"), None);
    assert_eq!(stamped_version("v=18446744073709551616"), None);
    assert_eq!(stamped_version("v=1=2"), None);
    assert_eq!(stamped_version("vv=1&=2"), None);
    assert_eq!(stamped_version("v="), None);
    assert_eq!(stamped_version(""), None);
    assert_eq!(stamped_version("&&v=2"), Some(2));
}

#[test]
fn a_stranger_is_refused_and_a_missing_face_not_found() {
    assert_eq!(require_session(false), Err(Refused::Unauthorized));
    assert_eq!(require_session(true), Ok(()));
    assert_eq!(whose_photo(None), Err(Refused::NotFound));
    let row = |sub: Option<&str>| AvatarRow {
        oidc_sub: sub.map(str::to_string),
        photo_version: 4,
    };
    assert_eq!(whose_photo(Some(row(None))), Err(Refused::NotFound));
    assert_eq!(whose_photo(Some(row(Some("s1")))), Ok(("s1".to_string(), 4)));
    assert_eq!(refusal_status(Refused::Unauthorized), 401);
    assert_eq!(refusal_status(Refused::NotFound), 404);
}

#[test]
fn a_face_is_kept_under_its_own_stamp() {
    let face = portrait(4, Some(4), None, "image/png", vec![1, 2]);
    assert_eq!(face.status, 200);
    assert_eq!(face.etag, "\"p4\"");
    assert_eq!(face.cache_control, "private, max-age=31536000, immutable");
    assert_eq!(face.content_type, "image/png");
    assert_eq!(face.body, vec![1, 2]);
    let held = portrait(4, None, Some("\"p4\""), "image/png", vec![1, 2]);
    assert_eq!(held.status, 304);
    assert_eq!(held.cache_control, "private, no-cache");
    assert!(held.body.is_empty());
    let stale = portrait(5, Some(4), Some("\"p4\""), "image/p\u{1}ng", vec![3]);
    assert_eq!((stale.status, stale.body), (200, vec![3]));
    assert_eq!(stale.etag, "\"p5\"");
    assert_eq!(stale.cache_control, "private, no-cache");
    assert_eq!(stale.content_type, "application/octet-stream");
    // What a header can carry is what the header type takes.
    for mime in ["image/png", "a\tb", "ş", "\u{7f}", "a\nb", "", "\u{1f}", "~"] {
        let kept = portrait(1, None, None, mime, vec![]).content_type == mime;
        assert_eq!(kept, reqwest::header::HeaderValue::from_str(mime).is_ok(), "{mime:?}");
    }
}

#[test]
fn a_face_is_sent_again_only_when_it_changed() {
    let photo = || Some((vec![1, 2, 3], "image/png".to_string()));
    assert_eq!(serve(None, 4, Some(4), None), Err(Refused::NotFound));
    let sent = serve(photo(), 4, Some(4), None).unwrap();
    assert_eq!((sent.status, sent.body.len()), (200, 3));
    let again = serve(photo(), 4, Some(4), Some(&sent.etag)).unwrap();
    assert_eq!((again.status, again.body.len()), (304, 0));
    let changed = serve(photo(), 5, Some(4), Some(&sent.etag)).unwrap();
    assert_eq!((changed.status, changed.body.len()), (200, 3));
    assert_eq!(changed.cache_control, "private, no-cache");
}

#[test]
fn the_sweep_delivers_asks_and_sleeps() {
    let report = SweepReport { sent: 1, failed: 0, abandoned: 2 };
    let told = "iz mail  sweep: 1 sent, 0 to retry, 2 given up on".to_string();
    let start = Sweep::start();
    assert_eq!(
        start.step(SweepEvent::Delivered(report)),
        (Sweep::Ask, Some(Line::Say(told)))
    );
    let nothing = SweepReport { sent: 0, failed: 0, abandoned: 0 };
    assert_eq!(start.step(SweepEvent::Delivered(nothing)), (Sweep::Ask, None));
    let complaint = "iz mail  sweep could not read the ledger: locked".to_string();
    assert_eq!(
        start.step(SweepEvent::NotDelivered("locked".to_string())),
        (Sweep::Ask, Some(Line::Complain(complaint.clone())))
    );
    let idle = Sweep::Sleep { wait: Duration::from_secs(3600) };
    assert_eq!(
        Sweep::Ask.step(SweepEvent::NotRead("locked".to_string())),
        (idle, Some(Line::Complain(complaint)))
    );
    assert_eq!(
        Sweep::Ask.step(SweepEvent::Due(Some(at(100, 0)), at(70, 0))),
        (Sweep::Sleep { wait: Duration::from_secs(30) }, None)
    );
    assert_eq!(
        Sweep::Ask.step(SweepEvent::Due(Some(at(100, 0)), at(100, 0))),
        (Sweep::Sleep { wait: Duration::from_secs(60) }, None)
    );
    assert_eq!(idle.step(SweepEvent::Woke), (Sweep::Deliver, None));
    assert_eq!(idle.step(SweepEvent::Stirred(true)), (Sweep::Deliver, None));
    assert_eq!(idle.step(SweepEvent::Stirred(false)), (Sweep::Over, None));
}
