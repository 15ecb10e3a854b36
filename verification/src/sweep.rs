//! The mail sweep: when it looks at the ledger, and when it wakes.

use crate::clock::{instant, Duration, OffsetDateTime};
use crate::text;
use vstd::prelude::*;

verus! {

// ---------------------------------------------------------------------------
// How long it sleeps
// ---------------------------------------------------------------------------

/// How many mails one pass sends at most.
pub const PER_PASS: u32 = 50;

/// The longest the sweep sleeps with nothing due, in seconds.
pub const IDLE_SECONDS: u64 = 3600;

/// How long it waits when a mail is already due but the pass could not take it,
/// in seconds.
pub const RECHECK_SECONDS: u64 = 60;

/// How long the sweep sleeps, in nanoseconds: until the mail falls due, an hour
/// at most; a minute where one is due already.
pub open spec fn sweep_nanos(next_due: Option<(int, int, int)>, now: (int, int, int)) -> int {
    match next_due {
        Some(at) => if instant(at) > instant(now) {
            if instant(at) - instant(now) < IDLE_SECONDS * 1_000_000_000 {
                instant(at) - instant(now)
            } else {
                IDLE_SECONDS * 1_000_000_000
            }
        } else {
            RECHECK_SECONDS * 1_000_000_000
        },
        None => IDLE_SECONDS * 1_000_000_000,
    }
}

/// How long until the next mail is owed. A ledger that could not be read owes
/// nothing it can name.
pub fn sweep_wait(next_due: Option<OffsetDateTime>, now: OffsetDateTime) -> (r: Duration)
    ensures
        r@ == sweep_nanos(next_due.deep_view(), now@),
{
    match next_due {
        Some(at) => if now.before(&at) {
            let due: i128 = at.unix_timestamp() as i128 * 1_000_000_000 + at.nanosecond() as i128;
            let current: i128 = now.unix_timestamp() as i128 * 1_000_000_000
                + now.nanosecond() as i128;
            let ahead: i128 = due - current;
            if ahead < 3600 * 1_000_000_000 {
                let whole: u64 = ahead as u64;
                Duration::new(whole / 1_000_000_000, (whole % 1_000_000_000) as u32)
            } else {
                Duration::from_secs(IDLE_SECONDS)
            }
        } else {
            Duration::from_secs(RECHECK_SECONDS)
        },
        None => Duration::from_secs(IDLE_SECONDS),
    }
}

/// The sweep never sleeps past the moment the next mail falls due, never longer
/// than an hour, and never spins.
pub proof fn the_sweep_wakes_in_time(next_due: Option<(int, int, int)>, now: (int, int, int))
    ensures
        0 < sweep_nanos(next_due, now) <= 3600 * 1_000_000_000,
        next_due matches Some(at) && instant(at) > instant(now) ==> instant(now) + sweep_nanos(
            next_due,
            now,
        ) <= instant(next_due->0),
{
}

// ---------------------------------------------------------------------------
// What it tells and hears
// ---------------------------------------------------------------------------

/// What a pass over the mail ledger did.
#[derive(Debug, Clone, Copy, PartialEq, Eq, Structural)]
pub struct SweepReport {
    pub sent: u32,
    pub failed: u32,
    pub abandoned: u32,
}

/// What a pass that did something says.
pub open spec fn report_text(report: SweepReport) -> Seq<char> {
    "iz mail  sweep: "@ + text::decimal(report.sent as nat) + " sent, "@ + text::decimal(
        report.failed as nat,
    ) + " to retry, "@ + text::decimal(report.abandoned as nat) + " given up on"@
}

/// The line a pass leaves, if it did anything.
pub fn sweep_line(report: SweepReport) -> (r: Option<String>)
    ensures
        r is Some <==> report.sent + report.failed + report.abandoned > 0,
        r matches Some(line) ==> line@ == report_text(report),
{
    if report.sent == 0 && report.failed == 0 && report.abandoned == 0 {
        return None;
    }
    let sent = text::decimal_text(report.sent as u128);
    let failed = text::decimal_text(report.failed as u128);
    let abandoned = text::decimal_text(report.abandoned as u128);
    let line = text::join3("iz mail  sweep: ", sent.as_str(), " sent, ");
    let line = text::join3(line.as_str(), failed.as_str(), " to retry, ");
    Some(text::join3(line.as_str(), abandoned.as_str(), " given up on"))
}

/// What came over the channel of changes.
#[derive(Debug, Clone, Copy, PartialEq, Eq, Structural)]
pub enum Heard {
    /// A change to the mail queue.
    Queue,
    /// A change to anything else.
    Other,
    /// Changes were dropped: a reason to look, not to stop.
    Lagged,
    /// The channel is gone, and the process with it.
    Closed,
}

/// Whether the sweep has to wake: `Some(true)` to look at the queue,
/// `Some(false)` to stop, `None` to go on waiting.
pub fn queue_touched(heard: Heard) -> (r: Option<bool>)
    ensures
        r == match heard {
            Heard::Queue => Some(true),
            Heard::Lagged => Some(true),
            Heard::Closed => Some(false),
            Heard::Other => None,
        },
{
    match heard {
        Heard::Queue => Some(true),
        Heard::Lagged => Some(true),
        Heard::Closed => Some(false),
        Heard::Other => None,
    }
}

// ---------------------------------------------------------------------------
// The sweep
// ---------------------------------------------------------------------------

/// Where the sweep stands, which is what it asks for next.
#[derive(Debug, Clone, Copy, PartialEq, Eq, Structural)]
pub enum Sweep {
    /// A pass over the ledger, [`PER_PASS`] mails at most.
    Deliver,
    /// When the next mail falls due.
    Ask,
    /// Sleeping, unless the queue stirs.
    Sleep { wait: Duration },
    /// The process is going.
    Over,
}

/// What happened to the sweep.
#[derive(Debug, Clone, PartialEq, Eq)]
pub enum SweepEvent {
    /// The pass did this.
    Delivered(SweepReport),
    /// The ledger could not be read for the pass, in words.
    NotDelivered(String),
    /// When the next mail falls due, if one is owed, and the moment it was asked.
    Due(Option<OffsetDateTime>, OffsetDateTime),
    /// The ledger could not be read for the next mail, in words.
    NotRead(String),
    /// The sleep is over.
    Woke,
    /// The queue stirred, or, where it did not, the channel is gone.
    Stirred(bool),
}

/// A line the sweep leaves.
#[derive(Debug, Clone, PartialEq, Eq)]
pub enum Line {
    Say(String),
    Complain(String),
}

/// An event the sweep can meet where it stands.
pub open spec fn can_meet(sweep: Sweep, event: SweepEvent) -> bool {
    match sweep {
        Sweep::Deliver => event is Delivered || event is NotDelivered,
        Sweep::Ask => event is Due || event is NotRead,
        Sweep::Sleep { .. } => event is Woke || event is Stirred,
        Sweep::Over => false,
    }
}

/// `after` is where the sweep stands once this happened.
pub open spec fn swept(sweep: Sweep, event: SweepEvent, after: Sweep) -> bool {
    match (sweep, event) {
        (Sweep::Deliver, _) => after == Sweep::Ask,
        (Sweep::Ask, SweepEvent::Due(next_due, now)) => after matches Sweep::Sleep { wait }
            && wait@ == sweep_nanos(next_due.deep_view(), now@),
        (Sweep::Ask, _) => after matches Sweep::Sleep { wait } && wait@ == IDLE_SECONDS
            * 1_000_000_000,
        (Sweep::Sleep { .. }, SweepEvent::Stirred(alive)) => after == if alive {
            Sweep::Deliver
        } else {
            Sweep::Over
        },
        (Sweep::Sleep { .. }, _) => after == Sweep::Deliver,
        (Sweep::Over, _) => after == Sweep::Over,
    }
}

/// `line` is what an event leaves.
pub open spec fn leaves(event: SweepEvent, line: Option<Line>) -> bool {
    match event {
        SweepEvent::Delivered(report) => if report.sent + report.failed + report.abandoned > 0 {
            line matches Some(Line::Say(said)) && said@ == report_text(report)
        } else {
            line is None
        },
        SweepEvent::NotDelivered(problem) => line matches Some(Line::Complain(said)) && said@
            == "iz mail  sweep could not read the ledger: "@ + problem@,
        SweepEvent::NotRead(problem) => line matches Some(Line::Complain(said)) && said@
            == "iz mail  sweep could not read the ledger: "@ + problem@,
        _ => line is None,
    }
}

fn unreadable(problem: &str) -> (r: Option<Line>)
    ensures
        r matches Some(Line::Complain(said)) && said@
            == "iz mail  sweep could not read the ledger: "@ + problem@,
{
    Some(Line::Complain(text::join2("iz mail  sweep could not read the ledger: ", problem)))
}

impl Sweep {
    /// The sweep at boot: what is owed goes out first.
    pub fn start() -> (r: Sweep)
        ensures
            r == Sweep::Deliver,
    {
        Sweep::Deliver
    }

    /// One event: where the sweep stands then, and the line it leaves.
    pub fn step(self, event: SweepEvent) -> (r: (Sweep, Option<Line>))
        requires
            can_meet(self, event),
        ensures
            swept(self, event, r.0),
            leaves(event, r.1),
    {
        match event {
            SweepEvent::Delivered(report) => {
                let line = match sweep_line(report) {
                    Some(said) => Some(Line::Say(said)),
                    None => None,
                };
                (Sweep::Ask, line)
            },
            SweepEvent::NotDelivered(problem) => (Sweep::Ask, unreadable(problem.as_str())),
            SweepEvent::Due(next_due, now) => (
                Sweep::Sleep { wait: sweep_wait(next_due, now) },
                None,
            ),
            SweepEvent::NotRead(problem) => (
                Sweep::Sleep { wait: Duration::from_secs(IDLE_SECONDS) },
                unreadable(problem.as_str()),
            ),
            SweepEvent::Woke => (Sweep::Deliver, None),
            SweepEvent::Stirred(alive) => if alive {
                (Sweep::Deliver, None)
            } else {
                (Sweep::Over, None)
            },
        }
    }
}

// ---------------------------------------------------------------------------
// Laws
// ---------------------------------------------------------------------------

/// Only a channel that is gone ends the sweep, and a queue that stirred is
/// looked at with the next pass.
pub proof fn only_a_closed_channel_ends_the_sweep(
    sweep: Sweep,
    event: SweepEvent,
    after: Sweep,
)
    requires
        can_meet(sweep, event),
        swept(sweep, event, after),
    ensures
        after is Over <==> event == SweepEvent::Stirred(false),
        event == SweepEvent::Stirred(true) ==> after is Deliver,
{
}

/// A sleep is never without end and never nothing at all: an hour at most, also
/// where the ledger could not be read.
pub proof fn every_sleep_is_bounded(sweep: Sweep, event: SweepEvent, after: Sweep)
    requires
        sweep is Ask,
        can_meet(sweep, event),
        swept(sweep, event, after),
    ensures
        after matches Sweep::Sleep { wait } && 0 < wait@ <= 3600 * 1_000_000_000,
{
    if let SweepEvent::Due(next_due, now) = event {
        the_sweep_wakes_in_time(next_due.deep_view(), now@);
    }
}

/// The sweep sleeps until the very moment the next mail falls due, or, where that
/// is further off or nothing is owed, exactly an hour; a mail that is due already
/// is looked at again in exactly a minute.
pub proof fn the_sweep_sleeps_until_it_is_due(
    next_due: Option<(int, int, int)>,
    now: (int, int, int),
)
    ensures
        next_due matches Some(at) && instant(now) < instant(at) && instant(at) <= instant(now)
            + 3600 * 1_000_000_000 ==> instant(now) + sweep_nanos(next_due, now) == instant(
            next_due->0,
        ),
        next_due matches Some(at) && instant(at) > instant(now) + 3600 * 1_000_000_000
            ==> sweep_nanos(next_due, now) == 3600 * 1_000_000_000,
        next_due matches Some(at) && instant(at) <= instant(now) ==> sweep_nanos(next_due, now)
            == 60 * 1_000_000_000,
        next_due is None ==> sweep_nanos(next_due, now) == 3600 * 1_000_000_000,
{
}

/// The sweep goes round: a pass, whatever came of it, is followed by the question
/// when the next mail is due, the answer by a sleep, and the sleep by a pass. A
/// ledger that could not be read is slept on for the whole hour.
pub proof fn the_sweep_goes_round(sweep: Sweep, event: SweepEvent, after: Sweep)
    requires
        can_meet(sweep, event),
        swept(sweep, event, after),
    ensures
        sweep is Deliver ==> after is Ask,
        sweep is Ask ==> after is Sleep,
        sweep is Sleep && event != SweepEvent::Stirred(false) ==> after is Deliver,
        event is NotRead ==> (after matches Sweep::Sleep { wait } && wait@ == 3600
            * 1_000_000_000),
        event matches SweepEvent::Due(next_due, now) ==> (after matches Sweep::Sleep { wait }
            && wait@ == sweep_nanos(next_due.deep_view(), now@)),
{
}

/// The line of a pass names how many mails were sent, how many are tried again
/// and how many were given up on, in this order.
pub proof fn a_report_names_its_counts(report: SweepReport)
    ensures
        text::stands_at(report_text(report), "iz mail  sweep: "@ + text::decimal(report.sent as nat)
            + " sent, "@, 0),
        text::holds_text(report_text(report), " sent, "@ + text::decimal(report.failed as nat)
            + " to retry, "@),
        text::holds_text(report_text(report), " to retry, "@ + text::decimal(
            report.abandoned as nat,
        ) + " given up on"@),
{
    let said = report_text(report);
    let opening = "iz mail  sweep: "@ + text::decimal(report.sent as nat);
    let middle = " sent, "@ + text::decimal(report.failed as nat) + " to retry, "@;
    let closing = " to retry, "@ + text::decimal(report.abandoned as nat) + " given up on"@;
    let first = opening + " sent, "@;
    assert(said.subrange(0, first.len() as int) =~= first);
    let at = opening.len() as int;
    assert(said.subrange(at, at + middle.len()) =~= middle);
    assert(text::stands_at(said, middle, at));
    let behind = said.len() - closing.len();
    assert(said.subrange(behind, behind + closing.len()) =~= closing);
    assert(text::stands_at(said, closing, behind));
}

/// A pass that did nothing says nothing, one that did something says so, and a
/// ledger that could not be read is complained of with the problem's own words.
pub proof fn only_what_happened_is_told(event: SweepEvent, line: Option<Line>)
    requires
        leaves(event, line),
    ensures
        event matches SweepEvent::Delivered(report) ==> (line is Some <==> report.sent > 0
            || report.failed > 0 || report.abandoned > 0) && (line is Some ==> (
        line matches Some(Line::Say(said)) && said@ == report_text(report))),
        event matches SweepEvent::NotDelivered(problem) ==> (line matches Some(
            Line::Complain(said),
        ) && problem@.is_suffix_of(said@)),
        event matches SweepEvent::NotRead(problem) ==> (line matches Some(Line::Complain(said))
            && problem@.is_suffix_of(said@)),
        event is Due || event is Woke || event is Stirred ==> line is None,
{
    if let Some(Line::Complain(said)) = line {
        if let SweepEvent::NotDelivered(problem) = event {
            assert(said@.subrange(said@.len() - problem@.len(), said@.len() as int) =~= problem@);
        }
        if let SweepEvent::NotRead(problem) = event {
            assert(said@.subrange(said@.len() - problem@.len(), said@.len() as int) =~= problem@);
        }
    }
}

} // verus!
