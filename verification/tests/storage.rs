//! The Files service: its answers, its health and the drain.

use iz::clock::{Duration, Moment};
use iz::drain::{Cycle, Drain, Event, LocalAttachment, StorageBackend, DRAIN_BATCH};
use iz::storage::{
    bearer, file_url, files_url, human_bytes, in_of, may_push, probe_url, problem_word,
    push_answer, push_check, read_delete, read_fetch, read_push, status_url, Answer,
    FamilyService, Status, StorageHealth, StorageProblem,
};

fn moment(secs: u64) -> Moment {
    Moment::at(Duration::from_secs(secs))
}

fn key() -> Option<String> {
    Some("k".to_string())
}

fn other(words: &str) -> StorageProblem {
    StorageProblem::Other(words.to_string())
}

fn answer(success: bool, status: &str) -> Option<Answer> {
    Some(Answer {
        success,
        status: status.to_string(),
    })
}

#[test]
fn a_push_takes_a_key_and_a_media_type() {
    assert_eq!(bearer(&None).unwrap_err(), other("no key"));
    assert_eq!(bearer(&key()).unwrap(), "k");
    assert!(may_push(&key(), "image/png").is_ok());
    assert_eq!(may_push(&None, "image/png").unwrap_err(), other("no key"));
    assert_eq!(may_push(&key(), "not a type").unwrap_err(), other("mime \"not a type\""));
    assert!(push_check(&key(), "not a type", true).is_ok());
    assert_eq!(push_check(&None, "x", false).unwrap_err(), other("no key"));
}

#[test]
fn a_push_answers_with_the_files_id_or_a_problem() {
    assert_eq!(read_push(b"{\"ok\":\"a1\"}", "?").unwrap(), "a1");
    assert_eq!(
        read_push(b"{\"ok\":\"a1\",\"err\":\"QuotaExceeded\"}", "?").unwrap(),
        "a1"
    );
    assert_eq!(
        read_push(b"{\"err\":\"QuotaExceeded\"}", "?").unwrap_err(),
        StorageProblem::Quota
    );
    assert_eq!(read_push(b"{\"err\":\"Locked\"}", "?").unwrap_err(), other("Locked"));
    assert_eq!(read_push(b"{\"ok\":7}", "?").unwrap_err(), other("unusable answer"));
    assert_eq!(read_push(b"[]", "?").unwrap_err(), other("unusable answer"));
    assert_eq!(read_push(b"<html>", "no JSON").unwrap_err(), other("no JSON"));
    assert_eq!(push_answer(None, "no JSON").unwrap_err(), other("no JSON"));
    assert_eq!(
        push_answer(Some((None, Some("QuotaExceeded".to_string()))), "").unwrap_err(),
        StorageProblem::Quota
    );
}

#[test]
fn fetches_and_deletes_tell_what_was_answered() {
    assert_eq!(read_fetch(answer(true, "200 OK"), Some(vec![1, 2])).unwrap(), vec![1, 2]);
    assert_eq!(
        read_fetch(answer(false, "404 Not Found"), Some(vec![])).unwrap_err(),
        other("fetch answered 404 Not Found")
    );
    assert_eq!(read_fetch(None, None).unwrap_err(), StorageProblem::Unreachable);
    assert_eq!(
        read_fetch(answer(true, "200 OK"), None).unwrap_err(),
        StorageProblem::Unreachable
    );
    assert!(read_delete(answer(true, "204 No Content")).is_ok());
    assert_eq!(
        read_delete(answer(false, "403 Forbidden")).unwrap_err(),
        other("delete answered 403 Forbidden")
    );
    assert_eq!(read_delete(None).unwrap_err(), StorageProblem::Unreachable);
}

#[test]
fn a_problem_is_one_word_on_the_card() {
    assert_eq!(problem_word(&StorageProblem::Unreachable), "unreachable");
    assert_eq!(problem_word(&StorageProblem::Quota), "quota");
    assert_eq!(problem_word(&other("short")), "short");
    assert_eq!(problem_word(&other(&"ş".repeat(50))), "ş".repeat(40));
}

#[test]
fn addresses_are_built_from_the_services_own() {
    assert_eq!(probe_url("http://in"), "http://in/healthz");
    assert_eq!(status_url("http://in"), "http://in/api/service/status");
    assert_eq!(files_url("http://in"), "http://in/api/service/files");
    assert_eq!(file_url("http://in", "a1"), "http://in/api/service/file/a1");
}

fn service(key: &str, name: &str) -> FamilyService {
    FamilyService {
        key: key.to_string(),
        name: name.to_string(),
        url: format!("http://{name}"),
    }
}

#[test]
fn the_files_service_is_the_first_keyed_in() {
    let family = vec![service("im", "who"), service("in", "files"), service("in", "later")];
    assert_eq!(
        in_of(&family),
        Some(("files".to_string(), "http://files".to_string()))
    );
    assert_eq!(in_of(&vec![service("inn", "x")]), None);
    assert_eq!(in_of(&vec![]), None);
}

#[test]
fn the_card_reads_what_the_beat_wrote() {
    let mut health = StorageHealth::new();
    let blank = health.snapshot(moment(1));
    assert!(!blank.has_service && !blank.connected);
    assert!(blank.used.is_none() && blank.quota.is_none() && blank.migrating.is_none());
    assert!(blank.ok_age.is_none() && blank.problem_age.is_none() && blank.problem_word.is_none());

    health.seen("http://in", "Files");
    health.reachable(Some(5), Some(9), moment(10));
    health.migrating(1, 4);
    let card = health.snapshot(moment(12));
    assert!(card.has_service && card.connected);
    assert_eq!((card.used, card.quota, card.migrating), (Some(5), Some(9), Some((1, 4))));
    assert_eq!(card.ok_age.unwrap().as_secs(), 2);

    health.problem("quota", moment(13));
    health.drained();
    let card = health.snapshot(moment(20));
    assert!(card.has_service && !card.connected);
    assert_eq!(card.problem_word.as_deref(), Some("quota"));
    assert_eq!(card.problem_age.unwrap().as_secs(), 7);
    assert_eq!(card.used, Some(5));
    assert_eq!(card.migrating, None);
    assert_eq!(health.counter(), None);

    health.unlisted();
    assert!(!health.snapshot(moment(20)).has_service);
}

fn row(id: &str) -> LocalAttachment {
    LocalAttachment {
        id: id.to_string(),
        file_name: format!("{id}.png"),
        mime_type: "image/png".to_string(),
    }
}

/// Runs one cycle against a store with these rows, every push landing unless it
/// is the refused one, and says what was asked for.
fn run(
    health: &mut StorageHealth,
    rows: &mut Vec<String>,
    refused: Option<(&str, StorageProblem)>,
) -> Vec<String> {
    let mut asked = Vec::new();
    let mut cycle = Cycle::start();
    loop {
        let event = match &cycle {
            Cycle::Locate => {
                asked.push("locate".to_string());
                Event::Located(Some(("Files".to_string(), "http://in".to_string())))
            }
            Cycle::Probe { url } => {
                asked.push(format!("probe {url}"));
                Event::Probed(true)
            }
            Cycle::Report { .. } => {
                asked.push("report".to_string());
                Event::Reported(Some(Status {
                    quota_bytes: 9,
                    used_bytes: 5,
                }))
            }
            Cycle::Choose { .. } => Event::Chosen(Some(StorageBackend::In)),
            Cycle::Count { .. } => Event::Counted(Some(rows.len() as u64)),
            Cycle::List { .. } => Event::Listed(Some(
                rows.iter().take(DRAIN_BATCH as usize).map(|id| row(id)).collect(),
            )),
            Cycle::Load { drain } => {
                asked.push(format!("load {}", drain.rows[drain.at].id));
                Event::Loaded(Some(vec![1]))
            }
            Cycle::Push { drain, bytes } => {
                assert_eq!(bytes, &vec![1]);
                let id = &drain.rows[drain.at].id;
                match &refused {
                    Some((refused, problem)) if refused == id => {
                        Event::Pushed(Err(problem.clone()))
                    }
                    _ => Event::Pushed(Ok(id.clone())),
                }
            }
            Cycle::Mark { drain } => {
                let id = drain.rows[drain.at].id.clone();
                asked.push(format!("mark {id}"));
                rows.retain(|row| row != &id);
                Event::Marked(true)
            }
            Cycle::Recount { .. } | Cycle::Close => Event::Counted(Some(rows.len() as u64)),
            Cycle::Announce => {
                asked.push("announce".to_string());
                Event::Announced
            }
            Cycle::Over => return asked,
        };
        cycle = cycle.step(event, health, moment(100));
    }
}

#[test]
fn a_backlog_drains_a_batch_a_beat() {
    let mut health = StorageHealth::new();
    let mut rows: Vec<String> = (1..=6).map(|i| format!("a{i}")).collect();
    let asked = run(&mut health, &mut rows, None);
    assert_eq!(asked[..3], ["locate", "probe http://in", "report"]);
    assert_eq!(rows, vec!["a5", "a6"]);
    assert_eq!(health.counter(), Some((4, 6)));
    assert!(!asked.contains(&"announce".to_string()));
    // More rows arrive; the total is not captured again.
    rows.push("a7".to_string());
    let asked = run(&mut health, &mut rows, None);
    assert!(rows.is_empty());
    assert_eq!(asked.last().map(String::as_str), Some("announce"));
    assert_eq!(health.counter(), None);
    // Nothing is left: nothing is listed or announced.
    let asked = run(&mut health, &mut rows, None);
    assert_eq!(asked, vec!["locate", "probe http://in", "report"]);
}

#[test]
fn a_refused_push_ends_the_cycle_and_is_told() {
    let mut health = StorageHealth::new();
    let mut rows: Vec<String> = vec!["a1".to_string(), "a2".to_string()];
    run(&mut health, &mut rows, Some(("a2", StorageProblem::Quota)));
    assert_eq!(rows, vec!["a2"]);
    let card = health.snapshot(moment(101));
    assert!(!card.connected);
    assert_eq!(card.problem_word.as_deref(), Some("quota"));
    assert_eq!(card.migrating, Some((1, 2)));
}

#[test]
fn a_counter_without_a_drain_is_cleared() {
    let url = || "http://in".to_string();
    let drain = || Drain {
        url: url(),
        total: 10,
        rows: vec![row("a1")],
        at: 0,
    };
    let step = |cycle: Cycle, event: Event| {
        let mut health = StorageHealth::new();
        health.migrating(4, 10);
        let next = cycle.step(event, &mut health, moment(2));
        (next, health.counter())
    };
    let count = || Cycle::Count { url: url() };
    // The rows left by other means, or the workspace went back to its own disk.
    assert_eq!(step(count(), Event::Counted(Some(0))), (Cycle::Over, None));
    assert_eq!(
        step(Cycle::Choose { url: url() }, Event::Chosen(Some(StorageBackend::Local))),
        (Cycle::Over, None)
    );
    assert_eq!(step(Cycle::Close, Event::Counted(Some(0))), (Cycle::Announce, None));
    // What could not be had changes nothing.
    assert_eq!(step(count(), Event::Counted(None)), (Cycle::Over, Some((4, 10))));
    assert_eq!(
        step(Cycle::Choose { url: url() }, Event::Chosen(None)),
        (Cycle::Over, Some((4, 10)))
    );
    assert_eq!(step(Cycle::Close, Event::Counted(None)), (Cycle::Over, Some((4, 10))));
    // A count that was had moves the counter on; without one, the row that moved
    // is one more.
    assert_eq!(
        step(Cycle::Recount { drain: drain() }, Event::Counted(Some(3))).1,
        Some((7, 10))
    );
    assert_eq!(
        step(Cycle::Recount { drain: drain() }, Event::Counted(None)),
        (Cycle::Close, Some((5, 10)))
    );
    let uncounted = |before: Option<(u64, u64)>| {
        let mut health = StorageHealth::new();
        if let Some((gone, total)) = before {
            health.migrating(gone, total);
        }
        Cycle::Recount { drain: drain() }.step(Event::Counted(None), &mut health, moment(2));
        health.counter()
    };
    assert_eq!(uncounted(None), Some((1, 10)));
    assert_eq!(uncounted(Some((10, 10))), Some((10, 10)));
}

#[test]
fn every_step_of_a_cycle_can_end_it() {
    let url = || "http://in".to_string();
    let step = |cycle: Cycle, event: Event| {
        let mut health = StorageHealth::new();
        health.seen("http://in", "Files");
        health.reachable(Some(1), Some(2), moment(1));
        let next = cycle.step(event, &mut health, moment(2));
        let card = health.snapshot(moment(2));
        (next, card.connected, card.problem_word)
    };
    let drain = || Drain {
        url: url(),
        total: 1,
        rows: vec![row("a1")],
        at: 0,
    };
    assert_eq!(step(Cycle::Locate, Event::Located(None)), (Cycle::Over, false, None));
    let told = |word: &str| (Cycle::Over, false, Some(word.to_string()));
    assert_eq!(step(Cycle::Probe { url: url() }, Event::Probed(false)), told("unreachable"));
    assert_eq!(step(Cycle::Report { url: url() }, Event::Reported(None)), told("status"));
    assert_eq!(
        step(Cycle::List { url: url(), total: 1 }, Event::Listed(None)),
        told("store")
    );
    assert_eq!(step(Cycle::Load { drain: drain() }, Event::Loaded(None)), told("store"));
    assert_eq!(
        step(
            Cycle::Push { drain: drain(), bytes: vec![] },
            Event::Pushed(Err(other("odd")))
        ),
        told("odd")
    );
    assert_eq!(step(Cycle::Mark { drain: drain() }, Event::Marked(false)), told("store"));
    for backend in [None, Some(StorageBackend::Local)] {
        assert_eq!(
            step(Cycle::Choose { url: url() }, Event::Chosen(backend)),
            (Cycle::Over, true, None)
        );
    }
    assert_eq!(
        step(Cycle::Count { url: url() }, Event::Counted(None)),
        (Cycle::Over, true, None)
    );
    assert_eq!(
        step(Cycle::Close, Event::Counted(Some(3))),
        (Cycle::Over, true, None)
    );
    assert_eq!(
        step(Cycle::List { url: url(), total: 1 }, Event::Listed(Some(vec![]))),
        (Cycle::Close, true, None)
    );
}

/// Bytes in human units, worked out in doubles.
fn by_doubles(bytes: u64) -> String {
    let units = ["B", "KiB", "MiB", "GiB", "TiB"];
    let mut value = bytes as f64;
    let mut unit = 0;
    while value >= 1024.0 && unit + 1 < units.len() {
        value /= 1024.0;
        unit += 1;
    }
    if unit == 0 {
        format!("{bytes} {}", units[unit])
    } else {
        format!("{value:.1} {}", units[unit])
    }
}

#[test]
fn bytes_read_in_human_units() {
    assert_eq!(human_bytes(0), "0 B");
    assert_eq!(human_bytes(512), "512 B");
    assert_eq!(human_bytes(1023), "1023 B");
    assert_eq!(human_bytes(1024), "1.0 KiB");
    assert_eq!(human_bytes(1536), "1.5 KiB");
    assert_eq!(human_bytes(2 * 1024 * 1024 * 1024), "2.0 GiB");
    assert_eq!(human_bytes(1024 * 1024 - 1), "1024.0 KiB");
    assert_eq!(human_bytes(u64::MAX), "16777216.0 TiB");
}

#[test]
fn bytes_read_as_they_do_in_doubles() {
    let mut seed: u64 = 0x9e37_79b9_7f4a_7c15;
    for shift in 0..64u32 {
        for _ in 0..200 {
            seed = seed.wrapping_mul(6364136223846793005).wrapping_add(1442695040888963407);
            let bytes = seed >> shift;
            assert_eq!(human_bytes(bytes), by_doubles(bytes), "{bytes}");
        }
        for near in 0..64u64 {
            let bytes = (1u64 << shift).wrapping_add(near).wrapping_sub(32);
            assert_eq!(human_bytes(bytes), by_doubles(bytes), "{bytes}");
        }
    }
    // Ties between two tenths: a quarter and three quarters of a tenth's pair.
    for k in 0..4096u64 {
        let bytes = k * 256;
        assert_eq!(human_bytes(bytes), by_doubles(bytes), "{bytes}");
    }
}
