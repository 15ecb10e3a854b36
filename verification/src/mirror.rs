//! The loop that keeps the member list a live mirror of the directory: a full
//! pass, the stream, and the wait behind a stream that ended.

use crate::clock::Moment;
use crate::directory::{DirectoryHealth, Facts, StreamFrame};
use crate::text;
use vstd::prelude::*;

verus! {

// ---------------------------------------------------------------------------
// The live stream
// ---------------------------------------------------------------------------

/// The shortest and the longest a dead stream is waited out, in seconds.
pub const SHORTEST_BACKOFF: u64 = 1;

pub const LONGEST_BACKOFF: u64 = 30;

/// Where the stream loop stands, with the seconds the next wait takes.
#[derive(Debug, Clone, Copy, PartialEq, Eq, Structural)]
pub enum Stream {
    /// A full pass of the roster.
    Passing { backoff: u64 },
    /// Dialling the stream.
    Opening { backoff: u64 },
    /// Waiting for the stream's next event.
    Reading { backoff: u64 },
    /// Waiting a dead stream out.
    Waiting { backoff: u64 },
}

/// What happened to the stream loop.
#[derive(Debug, Clone, PartialEq, Eq)]
pub enum StreamEvent {
    /// The pass was through every row.
    Passed,
    /// The directory did not answer the pass, in words.
    NoPass(String),
    /// The stream is open.
    Opened,
    /// The stream was refused, in words.
    Refused(String),
    /// A profile came off the stream.
    Profile,
    /// A revocation came off the stream: a session fact, no profile.
    Revoked,
    /// The stream broke, in words.
    Broke(String),
    /// The directory closed a healthy stream.
    Closed,
    /// The wait is over.
    Waited,
}

impl Stream {
    pub open spec fn backoff(self) -> u64 {
        match self {
            Stream::Passing { backoff } => backoff,
            Stream::Opening { backoff } => backoff,
            Stream::Reading { backoff } => backoff,
            Stream::Waiting { backoff } => backoff,
        }
    }
}

/// Every wait is between a second and thirty.
pub open spec fn patient(stream: Stream) -> bool {
    SHORTEST_BACKOFF <= stream.backoff() <= LONGEST_BACKOFF
}

/// An event the loop can meet where it stands.
pub open spec fn can_meet(stream: Stream, event: StreamEvent) -> bool {
    match stream {
        Stream::Passing { .. } => event is Passed || event is NoPass,
        Stream::Opening { .. } => event is Opened || event is Refused,
        Stream::Reading { .. } => {
            event is Profile || event is Revoked || event is Broke || event is Closed
        },
        Stream::Waiting { .. } => event is Waited,
    }
}

/// Twice the wait, thirty seconds at most.
pub open spec fn doubled(backoff: u64) -> u64 {
    if 2 * backoff > LONGEST_BACKOFF {
        LONGEST_BACKOFF
    } else {
        (2 * backoff) as u64
    }
}

/// Where the loop stands after an event: a pass, whatever came of it, is
/// followed by the dial; an open stream is read until it ends; a stream that
/// ended is waited out, and the wait doubles until a stream opens again.
pub open spec fn stream_after(stream: Stream, event: StreamEvent) -> Stream {
    match (stream, event) {
        (Stream::Passing { backoff }, _) => Stream::Opening { backoff },
        (Stream::Opening { .. }, StreamEvent::Opened) => Stream::Reading {
            backoff: SHORTEST_BACKOFF,
        },
        (Stream::Opening { backoff }, _) => Stream::Waiting { backoff },
        (Stream::Reading { backoff }, StreamEvent::Profile) => Stream::Reading { backoff },
        (Stream::Reading { backoff }, StreamEvent::Revoked) => Stream::Reading { backoff },
        (Stream::Reading { backoff }, _) => Stream::Waiting { backoff },
        (Stream::Waiting { backoff }, _) => Stream::Passing { backoff: doubled(backoff) },
    }
}

/// What an event leaves in the mirror's health.
pub open spec fn health_after(facts: Facts, event: StreamEvent, now: nat) -> Facts {
    match event {
        StreamEvent::Passed => Facts { pass_at: Some(now), ..facts },
        StreamEvent::Opened => Facts { connected: true, opened_at: Some(now), ..facts },
        StreamEvent::Profile => Facts { event_at: Some(now), ..facts },
        StreamEvent::Refused(_) => Facts { connected: false, ..facts },
        StreamEvent::Broke(_) => Facts { connected: false, ..facts },
        StreamEvent::Closed => Facts { connected: false, ..facts },
        StreamEvent::NoPass(_) => facts,
        StreamEvent::Revoked => facts,
        StreamEvent::Waited => facts,
    }
}

/// What a frame off the stream is to the loop.
pub fn frame_event(frame: &StreamFrame) -> (r: StreamEvent)
    ensures
        r == match *frame {
            StreamFrame::Profile(_) => StreamEvent::Profile,
            StreamFrame::Revoked { .. } => StreamEvent::Revoked,
        },
{
    match frame {
        StreamFrame::Profile(_) => StreamEvent::Profile,
        StreamFrame::Revoked { .. } => StreamEvent::Revoked,
    }
}

/// The line an event leaves in the log.
pub open spec fn stream_line(event: StreamEvent) -> Option<Seq<char>> {
    match event {
        StreamEvent::NoPass(problem) => Some(
            "directory sync: im did not answer ("@ + problem@ + "); keeping the rows there are"@,
        ),
        StreamEvent::Refused(problem) => Some(
            "directory stream: im did not answer ("@ + problem@ + ")"@,
        ),
        StreamEvent::Broke(problem) => Some(
            "directory stream: "@ + problem@ + "; re-listing"@,
        ),
        _ => None,
    }
}

impl Stream {
    /// The loop at boot: a full pass comes first.
    pub fn start() -> (r: Stream)
        ensures
            r == (Stream::Passing { backoff: SHORTEST_BACKOFF }),
            patient(r),
    {
        Stream::Passing { backoff: SHORTEST_BACKOFF }
    }

    /// One event: where the loop stands then, what the Connection card reads,
    /// and the line for the log.
    pub fn step(self, event: StreamEvent, health: &mut DirectoryHealth, now: Moment) -> (r: (
        Stream,
        Option<String>,
    ))
        requires
            patient(self),
            can_meet(self, event),
        ensures
            r.0 == stream_after(self, event),
            patient(r.0),
            final(health)@ == health_after(old(health)@, event, now@),
            r.1.deep_view() == stream_line(event),
    {
        let line = match &event {
            StreamEvent::NoPass(problem) => Some(
                text::join3(
                    "directory sync: im did not answer (",
                    problem.as_str(),
                    "); keeping the rows there are",
                ),
            ),
            StreamEvent::Refused(problem) => Some(
                text::join3("directory stream: im did not answer (", problem.as_str(), ")"),
            ),
            StreamEvent::Broke(problem) => Some(
                text::join3("directory stream: ", problem.as_str(), "; re-listing"),
            ),
            _ => None,
        };
        match &event {
            StreamEvent::Passed => health.pass(now),
            StreamEvent::Opened => health.connected(now),
            StreamEvent::Profile => health.event(now),
            StreamEvent::Refused(_) => health.reconnecting(),
            StreamEvent::Broke(_) => health.reconnecting(),
            StreamEvent::Closed => health.reconnecting(),
            StreamEvent::NoPass(_) => {},
            StreamEvent::Revoked => {},
            StreamEvent::Waited => {},
        }
        let next = match self {
            Stream::Passing { backoff } => Stream::Opening { backoff },
            Stream::Opening { backoff } => match event {
                StreamEvent::Opened => Stream::Reading { backoff: SHORTEST_BACKOFF },
                _ => Stream::Waiting { backoff },
            },
            Stream::Reading { backoff } => match event {
                StreamEvent::Profile => Stream::Reading { backoff },
                StreamEvent::Revoked => Stream::Reading { backoff },
                _ => Stream::Waiting { backoff },
            },
            Stream::Waiting { backoff } => {
                let twice: u64 = backoff * 2;
                let backoff: u64 = if twice > LONGEST_BACKOFF {
                    LONGEST_BACKOFF
                } else {
                    twice
                };
                Stream::Passing { backoff }
            },
        };
        (next, line)
    }
}

/// The card says Connected exactly while the stream is read.
pub open spec fn card_agrees(stream: Stream, facts: Facts) -> bool {
    facts.connected <==> stream is Reading
}

/// The card never lies about the stream: it says Connected from the open on,
/// through every event, and Reconnecting from every exit on.
pub proof fn the_card_follows_the_stream(
    stream: Stream,
    facts: Facts,
    event: StreamEvent,
    now: nat,
)
    requires
        can_meet(stream, event),
        card_agrees(stream, facts),
    ensures
        card_agrees(stream_after(stream, event), health_after(facts, event, now)),
{
}

/// A revocation neither ends a stream nor touches a fact of the card.
pub proof fn a_revocation_leaves_the_stream_alone(backoff: u64, facts: Facts, now: nat)
    ensures
        stream_after(Stream::Reading { backoff }, StreamEvent::Revoked) == (Stream::Reading {
            backoff,
        }),
        health_after(facts, StreamEvent::Revoked, now) == facts,
{
}

/// A stream is only ever dialled after a full pass: the resync that heals what
/// a dead one dropped.
pub proof fn a_pass_comes_before_every_dial(stream: Stream, event: StreamEvent)
    requires
        can_meet(stream, event),
        stream_after(stream, event) is Opening,
    ensures
        event is Passed || event is NoPass,
{
}

/// How long the wait is after so many refusals in a row.
pub open spec fn wait_after(refusals: nat) -> nat
    decreases refusals,
{
    if refusals == 0 {
        SHORTEST_BACKOFF as nat
    } else {
        doubled(wait_after((refusals - 1) as nat) as u64) as nat
    }
}

/// Refusals in a row wait out one second, then two, four, eight, sixteen, and
/// thirty from the sixth on.
pub proof fn the_backoff_doubles_to_thirty(refusals: nat, problem: String)
    ensures
        stream_after(
            stream_after(
                Stream::Opening { backoff: wait_after(refusals) as u64 },
                StreamEvent::Refused(problem),
            ),
            StreamEvent::Waited,
        ) == (Stream::Passing { backoff: wait_after((refusals + 1) as nat) as u64 }),
        wait_after(0) == 1,
        wait_after(1) == 2,
        wait_after(2) == 4,
        wait_after(3) == 8,
        wait_after(4) == 16,
        refusals >= 5 ==> wait_after(refusals) == 30,
    decreases refusals,
{
    reveal_with_fuel(wait_after, 6);
    if refusals > 5 {
        the_backoff_doubles_to_thirty((refusals - 1) as nat, problem);
    }
}

/// The loop goes round in one order: a pass, whatever came of it, then the dial;
/// a stream that opened is read, with the next wait back at a second, until it
/// breaks or closes; a stream that ended or was refused is waited out for the
/// wait the loop stands at, and a pass follows the wait.
pub proof fn the_stream_goes_round(backoff: u64, event: StreamEvent)
    requires
        1 <= backoff <= 30,
    ensures
        stream_after(Stream::Passing { backoff }, event) == (Stream::Opening { backoff }),
        event is Opened ==> stream_after(Stream::Opening { backoff }, event) == (Stream::Reading {
            backoff: 1,
        }),
        event is Refused ==> stream_after(Stream::Opening { backoff }, event) == (
        Stream::Waiting { backoff }),
        event is Profile || event is Revoked ==> stream_after(Stream::Reading { backoff }, event)
            == (Stream::Reading { backoff }),
        event is Broke || event is Closed ==> stream_after(Stream::Reading { backoff }, event) == (
        Stream::Waiting { backoff }),
        event is Waited ==> stream_after(Stream::Waiting { backoff }, event) == (Stream::Passing {
            backoff: if backoff <= 15 {
                (backoff + backoff) as u64
            } else {
                30
            },
        }),
{
}

/// Every event marks its own fact and no other: a pass its moment, an open stream
/// Connected and its moment, a profile its moment, and the end of a stream
/// Reconnecting.
pub proof fn every_event_marks_its_own_fact(facts: Facts, event: StreamEvent, now: nat)
    ensures
        ({
            let after = health_after(facts, event, now);
            &&& after.pass_at == if event is Passed {
                Some(now)
            } else {
                facts.pass_at
            }
            &&& after.opened_at == if event is Opened {
                Some(now)
            } else {
                facts.opened_at
            }
            &&& after.event_at == if event is Profile {
                Some(now)
            } else {
                facts.event_at
            }
            &&& after.connected == if event is Opened {
                true
            } else if event is Refused || event is Broke || event is Closed {
                false
            } else {
                facts.connected
            }
        }),
{
}

/// A directory that did not answer and a stream that broke leave a line with the
/// problem's own words; nothing else leaves one.
pub proof fn every_trouble_is_told(event: StreamEvent)
    ensures
        stream_line(event) is Some <==> event is NoPass || event is Refused || event is Broke,
        event matches StreamEvent::NoPass(problem) ==> text::holds_text(
            stream_line(event)->0,
            problem@,
        ),
        event matches StreamEvent::Refused(problem) ==> text::holds_text(
            stream_line(event)->0,
            problem@,
        ),
        event matches StreamEvent::Broke(problem) ==> text::holds_text(
            stream_line(event)->0,
            problem@,
        ),
{
    let line = stream_line(event)->0;
    match event {
        StreamEvent::NoPass(problem) => {
            let at = "directory sync: im did not answer ("@.len() as int;
            assert(line.subrange(at, at + problem@.len()) =~= problem@);
            assert(text::stands_at(line, problem@, at));
        },
        StreamEvent::Refused(problem) => {
            let at = "directory stream: im did not answer ("@.len() as int;
            assert(line.subrange(at, at + problem@.len()) =~= problem@);
            assert(text::stands_at(line, problem@, at));
        },
        StreamEvent::Broke(problem) => {
            let at = "directory stream: "@.len() as int;
            assert(line.subrange(at, at + problem@.len()) =~= problem@);
            assert(text::stands_at(line, problem@, at));
        },
        _ => {},
    }
}

} // verus!
