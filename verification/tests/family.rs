//! The family: its health, its switcher, the mirror and the members it carries.

use iz::beat::{
    family_origin, registration, sync_complaint, Beat, BeatEvent, Registration,
};
use iz::clock::{Duration, Moment};
use iz::directory::{age_text, default_timezone, member_frame, revoked_frame, DirectoryHealth, Errand, Outcome, StreamFrame, StreamMember};
use iz::health::{cached_round, escape, new_round, read_probe, switcher_marks, Probe};
use iz::mirror::{frame_event, Stream, StreamEvent};

fn moment(secs: u64) -> Moment {
    Moment::at(Duration::from_secs(secs))
}

fn up() -> Probe {
    Probe::Up {
        body: "ok 1".to_string(),
        ms: 3,
    }
}

#[test]
fn a_reading_is_up_when_its_body_begins_ok() {
    assert_eq!(
        read_probe(true, "  ok abc123\n", 12),
        Probe::Up {
            body: "ok abc123".to_string(),
            ms: 12
        }
    );
    assert_eq!(read_probe(true, "okay", 0), Probe::Up { body: "okay".to_string(), ms: 0 });
    assert_eq!(read_probe(true, "OK", 1), Probe::Down);
    assert_eq!(read_probe(true, "", 1), Probe::Down);
    assert_eq!(read_probe(false, "ok", 1), Probe::Down);
    let long = format!("ok {}", "ş".repeat(100));
    match read_probe(true, &long, 1) {
        Probe::Up { body, .. } => {
            assert_eq!(body.chars().count(), 64);
            assert!(long.starts_with(&body));
        }
        Probe::Down => panic!("a standing service read as down"),
    }
}

#[test]
fn a_round_stands_in_for_half_a_minute() {
    let urls = |names: &[&str]| names.iter().map(|name| name.to_string()).collect::<Vec<_>>();
    let (round, probes) = new_round(urls(&["a", "b"]), vec![Some(up()), None], moment(100));
    assert_eq!(probes, vec![up(), Probe::Down]);
    let kept = Some(round);
    assert_eq!(
        cached_round(&kept, &urls(&["a", "b"]), moment(129)),
        Some(vec![up(), Probe::Down])
    );
    assert_eq!(cached_round(&kept, &urls(&["a", "b"]), moment(130)), None);
    assert_eq!(cached_round(&kept, &urls(&["b", "a"]), moment(101)), None);
    assert_eq!(cached_round(&kept, &urls(&["a"]), moment(101)), None);
    assert_eq!(cached_round(&None, &urls(&["a", "b"]), moment(101)), None);
}

#[test]
fn marks_are_plain_links_with_dots() {
    let marks = switcher_marks(vec![
        ("iz", "Board", "http://iz", up()),
        ("im", "Who & <you>", "http://im/?a=\"b\"", up()),
        ("in", "Fil'es", "http://in", Probe::Down),
    ]);
    assert_eq!(
        marks,
        "<a class=\"service-mark\" href=\"http://im/?a=&quot;b&quot;\" \
         title=\"Who &amp; &lt;you&gt;\" data-hard=\"\">\
         <span class=\"health-dot health-on\"></span>im</a>\
         <span class=\"service-sep\">·</span>\
         <a class=\"service-mark\" href=\"http://in\" title=\"Fil&#39;es\" data-hard=\"\">\
         <span class=\"health-dot health-off\"></span>in</a>"
    );
    assert_eq!(switcher_marks(vec![("iz", "Board", "http://iz", Probe::Down)]), "");
    assert_eq!(switcher_marks(vec![]), "");
}

#[test]
fn escaping_leaves_nothing_that_breaks_out() {
    assert_eq!(escape("<a href='x'>\"&amp;\""), "&lt;a href=&#39;x&#39;&gt;&quot;&amp;amp;&quot;");
    assert_eq!(escape("plain text · ş"), "plain text · ş");
}

/// The five entities read back, every other character as it stands.
fn read_back(markup: &str) -> String {
    let entities = [
        ("&amp;", '&'),
        ("&lt;", '<'),
        ("&gt;", '>'),
        ("&quot;", '"'),
        ("&#39;", '\''),
    ];
    let mut rest = markup;
    let mut text = String::new();
    while let Some(next) = rest.chars().next() {
        match entities.iter().find(|(entity, _)| rest.starts_with(entity)) {
            Some((entity, c)) => {
                text.push(*c);
                rest = &rest[entity.len()..];
            }
            None => {
                assert_ne!(next, '&', "{markup}");
                text.push(next);
                rest = &rest[next.len_utf8()..];
            }
        }
    }
    text
}

#[test]
fn escaped_text_reads_back_and_joins() {
    let texts = ["", "a & b", "&amp;", "&&#39;", "<a href='x'>\"&lt;\"", "· ş"];
    for text in texts {
        assert_eq!(read_back(&escape(text)), text);
        for other in texts {
            let joined = format!("{text}{other}");
            assert_eq!(escape(&joined), format!("{}{}", escape(text), escape(other)));
        }
    }
}

#[test]
fn ages_read_as_short_numbers() {
    assert_eq!(age_text(None), "");
    assert_eq!(age_text(Some(Duration::from_secs(0))), "0s");
    assert_eq!(age_text(Some(Duration::new(59, 999_999_999))), "59s");
    assert_eq!(age_text(Some(Duration::from_secs(60))), "1m");
    assert_eq!(age_text(Some(Duration::from_secs(3 * 3600 + 59))), "180m");
}

#[test]
fn the_card_reads_the_mirrors_facts() {
    let mut health = DirectoryHealth::new();
    let blank = health.snapshot(moment(5));
    assert!(!blank.connected && blank.event_age.is_none() && blank.pass_age.is_none());
    health.pass(moment(10));
    health.connected(moment(11));
    health.event(moment(12));
    let card = health.snapshot(moment(20));
    assert!(card.connected);
    assert_eq!(card.event_age.unwrap().as_secs(), 8);
    assert_eq!(card.pass_age.unwrap().as_secs(), 10);
    health.reconnecting();
    let card = health.snapshot(moment(21));
    assert!(!card.connected);
    assert_eq!(card.event_age.unwrap().as_secs(), 9);
}

fn member(disabled: bool) -> StreamMember {
    StreamMember {
        sub: "s1".to_string(),
        email: "a@iz.sh".to_string(),
        name: "A".to_string(),
        admin: false,
        photo_version: 0,
        timezone: default_timezone(),
        disabled,
    }
}

#[test]
fn a_profile_is_synced_and_its_row_follows_it() {
    let first = Errand::first(StreamFrame::Profile(member(true)));
    assert_eq!(first, Errand::Sync(member(true)));
    let (find, line) = first.next(Outcome::Failed("busy".to_string()));
    assert_eq!(find, Errand::Find(member(true)));
    assert_eq!(line.as_deref(), Some("directory stream: a@iz.sh: busy"));
    let (flip, line) = find.next(Outcome::Found(Some(("u1".to_string(), false))));
    assert_eq!(
        flip,
        Errand::Flip {
            member: member(true),
            id: "u1".to_string()
        }
    );
    assert_eq!(line, None);
    let (done, line) = flip.next(Outcome::Failed("refused".to_string()));
    assert_eq!(done, Errand::Done);
    assert_eq!(line.as_deref(), Some("directory stream: a@iz.sh: refused"));
    // The homecoming flips the other way, and agreement flips nothing.
    let (flip, _) =
        Errand::Find(member(false)).next(Outcome::Found(Some(("u1".to_string(), true))));
    assert!(matches!(flip, Errand::Flip { .. }));
    for found in [None, Some(("u1".to_string(), false))] {
        let (next, _) = Errand::Find(member(false)).next(Outcome::Found(found));
        assert_eq!(next, Errand::Done);
    }
    let (next, line) = Errand::Find(member(false)).next(Outcome::Failed("x".to_string()));
    assert_eq!((next, line.is_some()), (Errand::Done, true));
}

#[test]
fn a_revocation_only_announces() {
    let first = Errand::first(StreamFrame::Revoked {
        sub: "s1".to_string(),
    });
    assert_eq!(first, Errand::Announce);
    assert_eq!(first.next(Outcome::Done), (Errand::Done, None));
    assert_eq!(default_timezone(), "UTC+03:00");
}

#[test]
fn a_revocation_is_no_profile_to_the_stream() {
    let frame = StreamFrame::Revoked { sub: "s1".to_string() };
    assert_eq!(frame_event(&frame), StreamEvent::Revoked);
    assert_eq!(frame_event(&StreamFrame::Profile(member(false))), StreamEvent::Profile);

    let mut health = DirectoryHealth::new();
    let (dialling, _) = Stream::start().step(StreamEvent::Passed, &mut health, moment(1));
    let (reading, _) = dialling.step(StreamEvent::Opened, &mut health, moment(2));
    let before = health.snapshot(moment(9));
    let (after, line) = reading.step(frame_event(&frame), &mut health, moment(5));
    assert_eq!((after, line), (reading, None));
    assert_eq!(health.snapshot(moment(9)), before);
    assert!(before.connected && before.event_age.is_none());
}

#[test]
fn a_dead_stream_is_waited_out_ever_longer() {
    let mut health = DirectoryHealth::new();
    let mut stream = Stream::start();
    let mut waits = Vec::new();
    for _ in 0..7 {
        let (next, line) = stream.step(StreamEvent::Passed, &mut health, moment(1));
        assert_eq!(line, None);
        let refused = StreamEvent::Refused("503".to_string());
        let (next, line) = next.step(refused, &mut health, moment(2));
        assert_eq!(line.as_deref(), Some("directory stream: im did not answer (503)"));
        match next {
            Stream::Waiting { backoff } => waits.push(backoff),
            other => panic!("{other:?}"),
        }
        stream = next.step(StreamEvent::Waited, &mut health, moment(3)).0;
    }
    assert_eq!(waits, vec![1, 2, 4, 8, 16, 30, 30]);
    assert!(!health.snapshot(moment(3)).connected);

    let no_pass = StreamEvent::NoPass("down".to_string());
    let (opening, line) = stream.step(no_pass, &mut health, moment(4));
    assert_eq!(
        line.as_deref(),
        Some("directory sync: im did not answer (down); keeping the rows there are")
    );
    let (reading, _) = opening.step(StreamEvent::Opened, &mut health, moment(5));
    assert_eq!(reading, Stream::Reading { backoff: 1 });
    assert!(health.snapshot(moment(5)).connected);
    let (reading, _) = reading.step(StreamEvent::Profile, &mut health, moment(6));
    assert_eq!(health.snapshot(moment(8)).event_age.unwrap().as_secs(), 2);
    let broke = StreamEvent::Broke("reset".to_string());
    let (waiting, line) = reading.step(broke, &mut health, moment(7));
    assert_eq!(waiting, Stream::Waiting { backoff: 1 });
    assert_eq!(line.as_deref(), Some("directory stream: reset; re-listing"));
    assert!(!health.snapshot(moment(7)).connected);
    let closed = Stream::Reading { backoff: 1 }.step(StreamEvent::Closed, &mut health, moment(8));
    assert_eq!(closed, (Stream::Waiting { backoff: 1 }, None));
}

#[test]
fn the_stored_address_wins_over_the_configured_one() {
    let stored = |address: &str| Some(address.to_string());
    assert_eq!(family_origin(stored(" https://iz.sh// "), "https://other"), "https://iz.sh");
    assert_eq!(family_origin(stored("  "), " https://other/ "), "https://other");
    assert_eq!(family_origin(None, "https://other"), "https://other");
    assert_eq!(family_origin(None, " / "), "");
}

#[test]
fn a_missing_address_is_said_once() {
    let mut said = false;
    assert_eq!(
        registration("https://iz.sh".to_string(), &mut said),
        Registration::Register("https://iz.sh".to_string())
    );
    assert!(!said);
    assert_eq!(
        registration(String::new(), &mut said),
        Registration::Say(
            "family: no public address to register; set base_url or the Server rail's public address"
        )
    );
    assert_eq!(registration(String::new(), &mut said), Registration::Silence);
    assert!(said);
}

#[test]
fn an_unreadable_frame_is_a_line_in_the_log() {
    assert_eq!(
        member_frame(Ok(member(true))),
        Ok(StreamFrame::Profile(member(true)))
    );
    assert_eq!(
        member_frame(Err("missing field `sub`".to_string())),
        Err("directory stream: unreadable profile frame (missing field `sub`)".to_string())
    );
    assert_eq!(
        revoked_frame(Ok("s9".to_string())),
        Ok(StreamFrame::Revoked { sub: "s9".to_string() })
    );
    assert_eq!(
        revoked_frame(Err("no".to_string())),
        Err("directory stream: unreadable revoked frame (no)".to_string())
    );
}

#[test]
fn a_beat_goes_round_whatever_is_refused() {
    let mut health = DirectoryHealth::new();
    let mut lines = Vec::new();
    let mut beat = Beat::start();
    for event in [
        BeatEvent::NoPass("down".to_string()),
        BeatEvent::Stored(None),
        BeatEvent::Unanswered,
        BeatEvent::Woke,
        BeatEvent::Passed,
        BeatEvent::Stored(Some(" ".to_string())),
        BeatEvent::Unwritable("no".to_string()),
        BeatEvent::Woke,
        BeatEvent::Passed,
        BeatEvent::Stored(Some("https://iz.sh/".to_string())),
    ] {
        let (next, line) = beat.step(event, "", &mut health, moment(9));
        beat = next;
        lines.extend(line);
    }
    assert_eq!(
        beat,
        Beat::Register { said: true, origin: "https://iz.sh".to_string() }
    );
    for event in [
        BeatEvent::NotRegistered("refused".to_string()),
        BeatEvent::Listed("[]".to_string()),
    ] {
        let (next, line) = beat.step(event, "", &mut health, moment(9));
        beat = next;
        lines.extend(line);
    }
    assert_eq!(beat, Beat::Keep { said: true, json: "[]".to_string() });
    let kept = beat.clone().step(BeatEvent::Kept, "", &mut health, moment(9));
    assert_eq!(kept, (Beat::Sleep { said: true }, None));
    let (beat, line) = beat.step(
        BeatEvent::NotKept("full".to_string()),
        "",
        &mut health,
        moment(9),
    );
    lines.extend(line);
    assert_eq!(beat, Beat::Sleep { said: true });
    assert_eq!(
        lines,
        vec![
            "directory sync: im did not answer (down); keeping the rows there are",
            "family: no public address to register; set base_url or the Server rail's public address",
            "family sync: im did not answer; keeping the list there is",
            "family sync: no",
            "family register: refused",
            "family sync: full",
        ]
    );
    assert_eq!(age_text(health.snapshot(moment(10)).pass_age), "1s");
    let registered = Beat::Register { said: false, origin: "x".to_string() };
    let after = registered.step(BeatEvent::Registered, "", &mut health, moment(9));
    assert_eq!(after, (Beat::Family { said: false }, None));
    assert_eq!(sync_complaint("a@iz.sh", "locked"), "directory sync: a@iz.sh: locked");
}
