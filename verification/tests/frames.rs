//! The event-stream reader, read by read.

use iz::directory::{default_timezone, StreamFrame, StreamMember};
use iz::frames::{split_lines, FrameReader, Payload};
use serde_json::Value;

/// Decodes a payload the way the wire's consumer does: unknown fields are
/// ignored, missing ones read as their defaults, a payload that does not decode
/// is dropped.
fn decoded(payload: Payload) -> Option<StreamFrame> {
    match payload {
        Payload::Member(data) => {
            let row: Value = serde_json::from_str(&data).ok()?;
            let text = |key: &str| row.get(key).and_then(Value::as_str).map(str::to_string);
            Some(StreamFrame::Profile(StreamMember {
                sub: text("sub")?,
                email: text("email")?,
                name: text("name")?,
                admin: row.get("admin").and_then(Value::as_bool).unwrap_or(false),
                photo_version: row.get("photo_version").and_then(Value::as_u64).unwrap_or(0),
                timezone: text("timezone").unwrap_or_else(default_timezone),
                disabled: row.get("disabled").and_then(Value::as_bool).unwrap_or(false),
            }))
        }
        Payload::Revocation(data) => {
            let row: Value = serde_json::from_str(&data).ok()?;
            let sub = row.get("sub").and_then(Value::as_str)?.to_string();
            Some(StreamFrame::Revoked { sub })
        }
    }
}

fn raw(reader: &mut FrameReader) -> Vec<Payload> {
    let mut seen = Vec::new();
    while let Some(payload) = reader.next() {
        seen.push(payload);
    }
    seen
}

fn drained(reader: &mut FrameReader) -> Vec<StreamFrame> {
    raw(reader).into_iter().filter_map(decoded).collect()
}

fn frames(wire: &str) -> Vec<StreamFrame> {
    let mut reader = FrameReader::new();
    reader.feed(wire.as_bytes());
    drained(&mut reader)
}

fn member(sub: &str, email: &str, name: &str, disabled: bool) -> StreamMember {
    StreamMember {
        sub: sub.into(),
        email: email.into(),
        name: name.into(),
        admin: false,
        photo_version: 0,
        timezone: "UTC+03:00".into(),
        disabled,
    }
}

/// A kind this build has never heard of is skipped where it stands: the frames
/// on either side of it still land, and the reader is alive for the next bytes.
#[test]
fn an_unknown_event_kind_is_skipped_and_the_stream_lives_on() {
    let wire = [
        ": keep-alive\n",
        "event: profile\n",
        "data: {\"sub\":\"s1\",\"email\":\"a@iz.sh\",\"name\":\"A\"}\n",
        "\n",
        "event: logrollover\n",
        "data: {\"whatever\":true}\n",
        "\n",
        "event: revoked\n",
        "data: {\"sub\":\"s1\"}\n",
        "\n",
        "event: profile\n",
        "data: {\"sub\":\"s2\",\"email\":\"b@iz.sh\",\"name\":\"B\",\"disabled\":true}\n",
        "\n",
    ]
    .concat();
    assert_eq!(
        frames(&wire),
        vec![
            StreamFrame::Profile(member("s1", "a@iz.sh", "A", false)),
            StreamFrame::Revoked { sub: "s1".into() },
            StreamFrame::Profile(member("s2", "b@iz.sh", "B", true)),
        ]
    );
}

/// Bare member frames, without an `event:` field; unknown fields on a known
/// frame are ignored.
#[test]
fn a_bare_frame_from_an_older_im_still_parses() {
    let wire = [
        "data: {\"sub\":\"s1\",\"email\":\"a@iz.sh\",\"name\":\"A\",\"voltage\":9}\n",
        "\n",
    ]
    .concat();
    let seen = frames(&wire);
    assert_eq!(
        seen,
        vec![StreamFrame::Profile(member("s1", "a@iz.sh", "A", false))]
    );
}

/// A frame cut in the middle of its JSON is held until its rest arrives;
/// nothing is lost and nothing is dispatched early.
#[test]
fn a_frame_straddling_two_reads_is_not_lost() {
    let mut reader = FrameReader::new();
    reader.feed(b"event: revoked\ndata: {\"su");
    assert!(raw(&mut reader).is_empty());
    reader.feed(b"b\":\"s9\"}\n\n");
    assert_eq!(
        drained(&mut reader),
        vec![StreamFrame::Revoked { sub: "s9".into() }]
    );
}

/// A `\r\n` pair split across two reads stays one terminator.
#[test]
fn a_crlf_pair_split_across_reads_is_one_terminator() {
    let mut reader = FrameReader::new();
    reader.feed(b"data: {\"sub\":\"s1\",\"email\":\"a@iz.sh\",\"name\":\"A\"}\r");
    assert!(raw(&mut reader).is_empty(), "a cut terminator dispatched early");
    reader.feed(b"\n\r\n");
    assert_eq!(
        drained(&mut reader),
        vec![StreamFrame::Profile(member("s1", "a@iz.sh", "A", false))]
    );
}

/// The same hold with a named kind: the `\r` after `event: revoked` is a field
/// line's end, not the frame's.
#[test]
fn a_trailing_cr_after_the_event_field_does_not_burn_the_frame() {
    let mut reader = FrameReader::new();
    reader.feed(b"event: revoked\r");
    assert!(raw(&mut reader).is_empty());
    reader.feed(b"\ndata: {\"sub\":\"s9\"}\r\n\r\n");
    assert_eq!(
        drained(&mut reader),
        vec![StreamFrame::Revoked { sub: "s9".into() }]
    );
}

#[test]
fn the_three_terminators_end_a_line() {
    let lines = |block: &[u8]| {
        split_lines(block)
            .into_iter()
            .map(|line| String::from_utf8(line).unwrap())
            .collect::<Vec<_>>()
    };
    assert_eq!(lines(b"a\nb\r\nc\rd\n"), vec!["a", "b", "c", "d"]);
    assert_eq!(lines(b"a\n\nb\r\r\n"), vec!["a", "", "b", ""]);
    assert_eq!(lines(b"\n\r\n\r"), vec!["", "", ""]);
    assert_eq!(lines(b"a\nrest"), vec!["a", "rest"]);
    assert!(lines(b"").is_empty());
}

#[test]
fn the_wire_may_cut_a_stream_anywhere() {
    let wire: &[u8] = "event: profile\r\ndata: {\"ş\":1}\r\ndata:  two\r\n\r\n: note\nid: 7\ndata\n\nevent:revoked\rdata: x\r\r".as_bytes();
    let mut whole = FrameReader::new();
    whole.feed(wire);
    let expected = raw(&mut whole);
    assert_eq!(
        expected,
        vec![
            Payload::Member("{\"ş\":1}\n two".to_string()),
            Payload::Member(String::new()),
            Payload::Revocation("x".to_string()),
        ]
    );
    for cut in 1..wire.len() {
        let mut reader = FrameReader::new();
        reader.feed(&wire[..cut]);
        reader.feed(&wire[cut..]);
        assert_eq!(raw(&mut reader), expected, "cut at {cut}");
        let mut reader = FrameReader::new();
        reader.feed(&wire[..cut]);
        reader.feed(&[]);
        reader.feed(&wire[cut..]);
        assert_eq!(raw(&mut reader), expected, "cut at {cut}, with a read of nothing");
    }
    let mut reader = FrameReader::new();
    for byte in wire {
        reader.feed(&[*byte]);
    }
    assert_eq!(raw(&mut reader), expected);
}

#[test]
fn a_feed_that_goes_on_after_a_cr_keeps_its_next_line_feed() {
    // The `\r` inside the first read has long been passed when it ends.
    let mut reader = FrameReader::new();
    reader.feed(b"event: revoked\rdata: a");
    reader.feed(b"\n\n");
    assert_eq!(raw(&mut reader), vec![Payload::Revocation("a".to_string())]);
}

#[test]
fn a_read_of_nothing_keeps_the_cr() {
    let mut reader = FrameReader::new();
    reader.feed(b"data: a\r");
    reader.feed(b"");
    reader.feed(b"\n");
    assert!(raw(&mut reader).is_empty(), "the pair was taken for two terminators");
    reader.feed(b"\r");
    reader.feed(b"");
    assert_eq!(raw(&mut reader), vec![Payload::Member("a".to_string())]);
    reader.feed(b"");
    reader.feed(b"\n");
    assert!(raw(&mut reader).is_empty());
}

#[test]
fn data_lines_join_with_a_line_feed_between_them() {
    let data = |wire: &[u8]| {
        let mut reader = FrameReader::new();
        reader.feed(wire);
        raw(&mut reader)
    };
    let member = |text: &str| vec![Payload::Member(text.to_string())];
    assert_eq!(data(b"data:\ndata: x\n\n"), member("\nx"));
    assert_eq!(data(b"data\ndata\n\n"), member("\n"));
    assert_eq!(data(b"data: x\ndata:\n\n"), member("x\n"));
    assert_eq!(data(b"data:\n\n"), member(""));
    assert_eq!(data(b"data: x\ndata:\ndata: y\n\n"), member("x\n\ny"));
}

#[test]
fn bytes_that_are_no_text_are_repaired() {
    let mut reader = FrameReader::new();
    reader.feed(b"data: a\xffb\n\n");
    assert_eq!(
        raw(&mut reader),
        vec![Payload::Member("a\u{fffd}b".to_string())]
    );
}
