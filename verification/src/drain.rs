//! One pass of the storage beat: follow the family to wherever the Files
//! service lives, ask it how it stands, and, while the workspace's attachments
//! live on it, drain the rows still on this disk.

use crate::clock::Moment;
use crate::storage::{
    problem_word, with_problem, word_of, Stand, Status, StorageHealth, StorageProblem,
};
use vstd::prelude::*;

verus! {

/// How often the storage beat runs, in seconds.
pub const STORAGE_SECONDS: u64 = 30;

/// How many rows one drain cycle pushes. The push is the expensive half, so the
/// batch is small: the beat is the retry.
pub const DRAIN_BATCH: u64 = 4;

/// Where a workspace keeps its attachments.
#[derive(Debug, Clone, Copy, PartialEq, Eq, Structural)]
pub enum StorageBackend {
    /// On this disk.
    Local,
    /// On the Files service.
    In,
}

/// A row whose file is still on this disk.
#[derive(Debug, Clone, PartialEq, Eq)]
pub struct LocalAttachment {
    pub id: String,
    pub file_name: String,
    pub mime_type: String,
}

/// A drain under way: where it pushes to, how many rows there were to move when
/// it started, this cycle's batch, and which of its rows is next.
#[derive(Debug, Clone, PartialEq, Eq)]
pub struct Drain {
    pub url: String,
    pub total: u64,
    pub rows: Vec<LocalAttachment>,
    pub at: usize,
}

/// Where a cycle stands, which is what it asks for next.
#[derive(Debug, Clone, PartialEq, Eq)]
pub enum Cycle {
    /// Where does the family say the service is, this beat?
    Locate,
    /// Is it standing?
    Probe { url: String },
    /// What does it report about the account?
    Report { url: String },
    /// Where does the workspace keep its attachments?
    Choose { url: String },
    /// How many rows are still on this disk?
    Count { url: String },
    /// The next batch of them.
    List { url: String, total: u64 },
    /// The bytes of the next row.
    Load { drain: Drain },
    /// Pushing the next row's bytes.
    Push { drain: Drain, bytes: Vec<u8> },
    /// Marking the next row as stored: it flips and its file leaves this disk.
    Mark { drain: Drain },
    /// How many rows are left, after one moved?
    Recount { drain: Drain },
    /// How many rows are left, after the batch?
    Close,
    /// Telling every open admin page that the drain is done.
    Announce,
    /// The cycle is over.
    Over,
}

/// What came of what a cycle asked for. Nothing stands for an answer that could
/// not be had.
#[derive(Debug, PartialEq, Eq)]
pub enum Event {
    /// The service's name and url, or no row for it.
    Located(Option<(String, String)>),
    Probed(bool),
    Reported(Option<Status>),
    Chosen(Option<StorageBackend>),
    Counted(Option<u64>),
    Listed(Option<Vec<LocalAttachment>>),
    Loaded(Option<Vec<u8>>),
    Pushed(Result<String, StorageProblem>),
    /// Whether the row flipped.
    Marked(bool),
    Announced,
}

/// The drain of a cycle names a row of its batch.
pub open spec fn sound_cycle(cycle: Cycle) -> bool {
    match cycle {
        Cycle::Load { drain } => drain.at < drain.rows.len(),
        Cycle::Push { drain, .. } => drain.at < drain.rows.len(),
        Cycle::Mark { drain } => drain.at < drain.rows.len(),
        Cycle::Recount { drain } => drain.at < drain.rows.len(),
        _ => true,
    }
}

/// An event answers what the cycle asked for.
pub open spec fn meets(cycle: Cycle, event: Event) -> bool {
    match cycle {
        Cycle::Locate => event is Located,
        Cycle::Probe { .. } => event is Probed,
        Cycle::Report { .. } => event is Reported,
        Cycle::Choose { .. } => event is Chosen,
        Cycle::Count { .. } => event is Counted,
        Cycle::List { .. } => event is Listed,
        Cycle::Load { .. } => event is Loaded,
        Cycle::Push { .. } => event is Pushed,
        Cycle::Mark { .. } => event is Marked,
        Cycle::Recount { .. } => event is Counted,
        Cycle::Close => event is Counted,
        Cycle::Announce => event is Announced,
        Cycle::Over => false,
    }
}

/// The total of a drain: the standing counter's where one stands, the rows
/// there are where a drain starts.
pub open spec fn drain_total(stand: Stand, count: u64) -> u64 {
    match stand.migrating {
        Some((_, total)) => total,
        None => count,
    }
}

/// The drain with its row behind it, or the end of the batch.
pub open spec fn next_row(drain: Drain) -> Cycle {
    if drain.at + 1 < drain.rows.len() {
        Cycle::Load { drain: Drain { at: (drain.at + 1) as usize, ..drain } }
    } else {
        Cycle::Close
    }
}

/// Where the cycle stands after an event.
pub open spec fn cycle_after(cycle: Cycle, event: Event, stand: Stand) -> Cycle {
    match (cycle, event) {
        (Cycle::Locate, Event::Located(Some((_, url)))) => Cycle::Probe { url },
        (Cycle::Probe { url }, Event::Probed(true)) => Cycle::Report { url },
        (Cycle::Report { url }, Event::Reported(Some(_))) => Cycle::Choose { url },
        (Cycle::Choose { url }, Event::Chosen(Some(StorageBackend::In))) => Cycle::Count { url },
        (Cycle::Count { url }, Event::Counted(Some(count))) => if count == 0 {
            Cycle::Over
        } else {
            Cycle::List { url, total: drain_total(stand, count) }
        },
        (Cycle::List { url, total }, Event::Listed(Some(rows))) => if rows@.len() == 0 {
            Cycle::Close
        } else {
            Cycle::Load { drain: Drain { url, total, rows, at: 0 } }
        },
        (Cycle::Load { drain }, Event::Loaded(Some(bytes))) => Cycle::Push { drain, bytes },
        (Cycle::Push { drain, .. }, Event::Pushed(Ok(_))) => Cycle::Mark { drain },
        (Cycle::Mark { drain }, Event::Marked(true)) => Cycle::Recount { drain },
        (Cycle::Recount { drain }, Event::Counted(_)) => next_row(drain),
        (Cycle::Close, Event::Counted(Some(0))) => Cycle::Announce,
        _ => Cycle::Over,
    }
}

/// How many rows have moved when so many are left.
pub open spec fn moved(total: u64, left: u64) -> u64 {
    if left >= total {
        0
    } else {
        (total - left) as u64
    }
}

/// How many rows have moved when one more did.
pub open spec fn one_more(stand: Stand, total: u64) -> u64 {
    let gone: u64 = match stand.migrating {
        Some((gone, _)) => gone,
        None => 0,
    };
    if gone < total {
        (gone + 1) as u64
    } else {
        total
    }
}

/// What an event leaves on the Settings card. The drain's counter stands while a
/// drain runs: it goes with the last row, with a disk that holds no row any
/// more, and with the switch back to this disk. After a row moved it tells the
/// rows gone by the rows left; where those could not be counted, the row that
/// moved is one more.
pub open spec fn stand_after(cycle: Cycle, event: Event, stand: Stand, now: nat) -> Stand {
    match (cycle, event) {
        (Cycle::Locate, Event::Located(Some((name, url)))) => Stand {
            url: Some(url@),
            name: Some(name@),
            ..stand
        },
        (Cycle::Locate, Event::Located(None)) => Stand {
            url: None,
            name: None,
            connected: false,
            ..stand
        },
        (Cycle::Probe { .. }, Event::Probed(false)) => with_problem(stand, "unreachable"@, now),
        (Cycle::Report { .. }, Event::Reported(Some(status))) => Stand {
            connected: true,
            used: Some(status.used_bytes),
            quota: Some(status.quota_bytes),
            last_ok: Some(now),
            ..stand
        },
        (Cycle::Report { .. }, Event::Reported(None)) => with_problem(stand, "status"@, now),
        (Cycle::Choose { .. }, Event::Chosen(Some(StorageBackend::Local))) => Stand {
            migrating: None,
            ..stand
        },
        (Cycle::Count { .. }, Event::Counted(Some(0))) => Stand { migrating: None, ..stand },
        (Cycle::List { .. }, Event::Listed(None)) => with_problem(stand, "store"@, now),
        (Cycle::Load { .. }, Event::Loaded(None)) => with_problem(stand, "store"@, now),
        (Cycle::Push { .. }, Event::Pushed(Err(problem))) => with_problem(
            stand,
            word_of(problem.deep_view()),
            now,
        ),
        (Cycle::Mark { .. }, Event::Marked(false)) => with_problem(stand, "store"@, now),
        (Cycle::Recount { drain }, Event::Counted(Some(left))) => Stand {
            migrating: Some((moved(drain.total, left), drain.total)),
            ..stand
        },
        (Cycle::Recount { drain }, Event::Counted(None)) => Stand {
            migrating: Some((one_more(stand, drain.total), drain.total)),
            ..stand
        },
        (Cycle::Close, Event::Counted(Some(0))) => Stand { migrating: None, ..stand },
        _ => stand,
    }
}

impl Cycle {
    /// A cycle starts by asking the family.
    pub fn start() -> (r: Cycle)
        ensures
            r is Locate,
            sound_cycle(r),
    {
        Cycle::Locate
    }

    /// One event: what the cycle asks for then, and what the Settings card
    /// reads.
    pub fn step(self, event: Event, health: &mut StorageHealth, now: Moment) -> (r: Cycle)
        requires
            sound_cycle(self),
            meets(self, event),
        ensures
            r == cycle_after(self, event, old(health)@),
            sound_cycle(r),
            final(health)@ == stand_after(self, event, old(health)@, now@),
    {
        match (self, event) {
            (Cycle::Locate, Event::Located(Some((name, url)))) => {
                health.seen(url.as_str(), name.as_str());
                Cycle::Probe { url }
            },
            (Cycle::Locate, Event::Located(None)) => {
                health.unlisted();
                Cycle::Over
            },
            (Cycle::Probe { url }, Event::Probed(standing)) => {
                if standing {
                    Cycle::Report { url }
                } else {
                    health.problem("unreachable", now);
                    Cycle::Over
                }
            },
            (Cycle::Report { url }, Event::Reported(Some(status))) => {
                health.reachable(Some(status.used_bytes), Some(status.quota_bytes), now);
                Cycle::Choose { url }
            },
            (Cycle::Report { .. }, Event::Reported(None)) => {
                health.problem("status", now);
                Cycle::Over
            },
            (Cycle::Choose { url }, Event::Chosen(Some(StorageBackend::In))) => Cycle::Count {
                url,
            },
            (Cycle::Choose { .. }, Event::Chosen(Some(StorageBackend::Local))) => {
                health.drained();
                Cycle::Over
            },
            (Cycle::Count { url }, Event::Counted(Some(left))) => {
                if left == 0 {
                    health.drained();
                    Cycle::Over
                } else {
                    let total: u64 = match health.counter() {
                        Some((_, total)) => total,
                        None => left,
                    };
                    Cycle::List { url, total }
                }
            },
            (Cycle::List { url, total }, Event::Listed(Some(rows))) => {
                if rows.len() == 0 {
                    Cycle::Close
                } else {
                    Cycle::Load { drain: Drain { url, total, rows, at: 0 } }
                }
            },
            (Cycle::List { .. }, Event::Listed(None)) => {
                health.problem("store", now);
                Cycle::Over
            },
            (Cycle::Load { drain }, Event::Loaded(Some(bytes))) => Cycle::Push { drain, bytes },
            (Cycle::Load { .. }, Event::Loaded(None)) => {
                health.problem("store", now);
                Cycle::Over
            },
            (Cycle::Push { drain, .. }, Event::Pushed(pushed)) => match pushed {
                Ok(_) => Cycle::Mark { drain },
                Err(problem) => {
                    health.problem(problem_word(&problem).as_str(), now);
                    Cycle::Over
                },
            },
            (Cycle::Mark { drain }, Event::Marked(flipped)) => {
                if flipped {
                    Cycle::Recount { drain }
                } else {
                    health.problem("store", now);
                    Cycle::Over
                }
            },
            (Cycle::Recount { drain }, Event::Counted(count)) => {
                let gone: u64 = match count {
                    Some(left) => if left >= drain.total {
                        0
                    } else {
                        drain.total - left
                    },
                    None => {
                        let before: u64 = match health.counter() {
                            Some((before, _)) => before,
                            None => 0,
                        };
                        if before < drain.total {
                            before + 1
                        } else {
                            drain.total
                        }
                    },
                };
                health.migrating(gone, drain.total);
                if drain.at < drain.rows.len() - 1 {
                    let at: usize = drain.at + 1;
                    Cycle::Load {
                        drain: Drain { url: drain.url, total: drain.total, rows: drain.rows, at },
                    }
                } else {
                    Cycle::Close
                }
            },
            (Cycle::Close, Event::Counted(Some(left))) => {
                if left == 0 {
                    health.drained();
                    Cycle::Announce
                } else {
                    Cycle::Over
                }
            },
            _ => Cycle::Over,
        }
    }
}

// ---------------------------------------------------------------------------
// Laws
// ---------------------------------------------------------------------------

/// A service the family does not list is not asked anything: the card loses it
/// and the cycle is over.
pub proof fn an_unlisted_service_is_left_alone(stand: Stand, now: nat)
    ensures
        cycle_after(Cycle::Locate, Event::Located(None), stand) is Over,
        ({
            let after = stand_after(Cycle::Locate, Event::Located(None), stand, now);
            after.url is None && !after.connected
        }),
{
}

/// Only a workspace switched to the service drains: local mode, or a mode that
/// could not be read, leaves the local rows exactly where they are. Back in local
/// mode no drain runs, so the card shows no counter; of anything else it keeps
/// what it showed.
pub proof fn only_a_switched_workspace_drains(url: String, event: Event, stand: Stand, now: nat)
    ensures
        cycle_after(Cycle::Choose { url }, event, stand) is Over || event == Event::Chosen(
            Some(StorageBackend::In),
        ),
        ({
            let after = stand_after(Cycle::Choose { url }, event, stand, now);
            &&& after == Stand { migrating: after.migrating, ..stand }
            &&& after.migrating == if event == Event::Chosen(Some(StorageBackend::Local)) {
                None
            } else {
                stand.migrating
            }
        }),
{
}

/// A beat that finds no row on this disk finds no drain either: the cycle is over
/// and the card shows no counter, whatever it showed.
pub proof fn an_empty_disk_has_no_counter(url: String, stand: Stand, now: nat)
    ensures
        cycle_after(Cycle::Count { url }, Event::Counted(Some(0)), stand) is Over,
        stand_after(Cycle::Count { url }, Event::Counted(Some(0)), stand, now) == (Stand {
            migrating: None,
            ..stand
        }),
{
}

/// The total is captured when a drain starts and never captured again while one
/// runs: a beat that finds the counter standing picks up where it left off.
pub proof fn the_total_is_captured_once(
    url: String,
    count: u64,
    stand: Stand,
    before: u64,
    total: u64,
)
    requires
        stand.migrating == Some((before, total)),
        count > 0,
    ensures
        cycle_after(Cycle::Count { url }, Event::Counted(Some(count)), stand) == (Cycle::List {
            url,
            total,
        }),
{
}

/// The drain a cycle is in.
pub open spec fn drain_of(cycle: Cycle) -> Option<Drain> {
    match cycle {
        Cycle::Load { drain } => Some(drain),
        Cycle::Push { drain, .. } => Some(drain),
        Cycle::Mark { drain } => Some(drain),
        Cycle::Recount { drain } => Some(drain),
        _ => None,
    }
}

/// A drain keeps its service, its batch and its total from row to row.
pub proof fn a_drain_keeps_its_batch(cycle: Cycle, event: Event, stand: Stand)
    requires
        drain_of(cycle) is Some,
        drain_of(cycle_after(cycle, event, stand)) is Some,
    ensures
        ({
            let before = drain_of(cycle)->0;
            let after = drain_of(cycle_after(cycle, event, stand))->0;
            &&& after.url == before.url
            &&& after.total == before.total
            &&& after.rows == before.rows
            &&& before.at <= after.at <= before.at + 1
        }),
{
}

/// A counter does not pass its end.
pub open spec fn counter_holds(stand: Stand) -> bool {
    match stand.migrating {
        Some((gone, total)) => gone <= total,
        None => true,
    }
}

/// Whatever happens, the counter the card shows does not pass its end.
pub proof fn the_counter_never_passes_its_end(cycle: Cycle, event: Event, stand: Stand, now: nat)
    requires
        counter_holds(stand),
    ensures
        counter_holds(stand_after(cycle, event, stand, now)),
{
}

/// As long as the rows on this disk only get fewer, what has moved only climbs.
pub proof fn the_counter_climbs(total: u64, left: u64, later: u64)
    requires
        later <= left,
    ensures
        moved(total, left) <= moved(total, later),
{
}

/// The total a cycle works towards.
pub open spec fn total_of(cycle: Cycle) -> Option<u64> {
    match cycle {
        Cycle::List { total, .. } => Some(total),
        _ => match drain_of(cycle) {
            Some(drain) => Some(drain.total),
            None => None,
        },
    }
}

/// Where the card shows a counter, the cycle works towards the counter's own
/// total.
pub open spec fn one_total(cycle: Cycle, stand: Stand) -> bool {
    match (total_of(cycle), stand.migrating) {
        (Some(total), Some(counter)) => counter.1 == total,
        _ => true,
    }
}

/// A row that moved where the rows left could not be counted is counted itself:
/// the counter stands where a count of one row fewer than it left would put it.
pub proof fn an_uncounted_row_is_one_more(
    drain: Drain,
    stand: Stand,
    now: nat,
    gone: u64,
)
    requires
        stand.migrating == Some((gone, drain.total)) || (stand.migrating is None && gone == 0),
        gone < drain.total,
    ensures
        stand_after(Cycle::Recount { drain }, Event::Counted(None), stand, now) == stand_after(
            Cycle::Recount { drain },
            Event::Counted(Some((drain.total - gone - 1) as u64)),
            stand,
            now,
        ),
        stand_after(Cycle::Recount { drain }, Event::Counted(None), stand, now).migrating == Some(
            ((gone + 1) as u64, drain.total),
        ),
{
}

/// While a drain runs, its counter keeps its total, and it does not fall back as
/// long as no more rows are counted than it left to move. A count that could not
/// be had neither ends nor hides it.
pub proof fn a_running_counter_only_climbs(
    cycle: Cycle,
    event: Event,
    stand: Stand,
    now: nat,
    gone: u64,
    total: u64,
)
    requires
        meets(cycle, event),
        one_total(cycle, stand),
        stand.migrating == Some((gone, total)),
        gone <= total,
        event matches Event::Counted(Some(left)) ==> left <= total - gone,
    ensures
        one_total(cycle_after(cycle, event, stand), stand_after(cycle, event, stand, now)),
        stand_after(cycle, event, stand, now).migrating matches Some((later, end)) ==> end
            == total && gone <= later,
        event == Event::Counted(None) ==> stand_after(cycle, event, stand, now).migrating is Some,
{
}

/// A cycle works towards one total also where it is the one that starts the
/// drain.
pub proof fn a_cycle_keeps_to_one_total(cycle: Cycle, event: Event, stand: Stand, now: nat)
    requires
        meets(cycle, event),
        one_total(cycle, stand),
    ensures
        one_total(cycle_after(cycle, event, stand), stand_after(cycle, event, stand, now)),
{
}

/// The counter goes exactly where no drain runs any more: with the last row of a
/// batch, with a disk that holds no row, and with the switch back to this disk.
/// The pages hear of the first of these alone.
pub proof fn the_counter_goes_with_the_drain(cycle: Cycle, event: Event, stand: Stand, now: nat)
    requires
        meets(cycle, event),
        stand.migrating is Some,
    ensures
        stand_after(cycle, event, stand, now).migrating is None <==> {
            ||| cycle is Close && event == Event::Counted(Some(0))
            ||| cycle is Count && event == Event::Counted(Some(0))
            ||| cycle is Choose && event == Event::Chosen(Some(StorageBackend::Local))
        },
        cycle_after(cycle, event, stand) is Announce <==> cycle is Close && event
            == Event::Counted(Some(0)),
{
}

/// The event is a refusal: the service or the store did not do its part.
pub open spec fn is_refusal(event: Event) -> bool {
    match event {
        Event::Probed(standing) => !standing,
        Event::Reported(status) => status is None,
        Event::Listed(rows) => rows is None,
        Event::Loaded(bytes) => bytes is None,
        Event::Pushed(pushed) => pushed is Err,
        Event::Marked(flipped) => !flipped,
        _ => false,
    }
}

/// A refusal ends the cycle and is told on the card, at the moment it happened;
/// the rows that were not moved are left for the next beat.
pub proof fn a_refusal_is_told(cycle: Cycle, event: Event, stand: Stand, now: nat)
    requires
        meets(cycle, event),
        is_refusal(event),
    ensures
        cycle_after(cycle, event, stand) is Over,
        ({
            let after = stand_after(cycle, event, stand, now);
            !after.connected && (after.last_problem matches Some((at, _)) && at == now)
                && after.migrating == stand.migrating
        }),
{
}

/// How many more events a cycle can meet at most, for a batch of so many rows.
pub open spec fn events_left(cycle: Cycle, batch: nat) -> nat {
    match cycle {
        Cycle::Locate => 4 * batch + 8,
        Cycle::Probe { .. } => 4 * batch + 7,
        Cycle::Report { .. } => 4 * batch + 6,
        Cycle::Choose { .. } => 4 * batch + 5,
        Cycle::Count { .. } => 4 * batch + 4,
        Cycle::List { .. } => 4 * batch + 3,
        Cycle::Load { drain } => (4 * (drain.rows.len() - drain.at) + 2) as nat,
        Cycle::Push { drain, .. } => (4 * (drain.rows.len() - drain.at) + 1) as nat,
        Cycle::Mark { drain } => (4 * (drain.rows.len() - drain.at)) as nat,
        Cycle::Recount { drain } => (4 * (drain.rows.len() - drain.at) - 1) as nat,
        Cycle::Close => 2,
        Cycle::Announce => 1,
        Cycle::Over => 0,
    }
}

/// A cycle comes to an end: every event brings it closer, given a batch no
/// longer than was asked for.
pub proof fn a_cycle_comes_to_an_end(cycle: Cycle, event: Event, stand: Stand, batch: nat)
    requires
        sound_cycle(cycle),
        meets(cycle, event),
        event matches Event::Listed(Some(rows)) ==> rows@.len() <= batch,
    ensures
        events_left(cycle_after(cycle, event, stand), batch) < events_left(cycle, batch),
{
}

/// Rows moved and rows left make up the total, as long as no more are left than
/// there were to move.
pub proof fn what_moved_and_what_is_left_is_all(total: u64, left: u64)
    ensures
        left <= total ==> moved(total, left) + left == total,
        left > total ==> moved(total, left) == 0,
{
}

/// A cycle in which everything goes well asks for one thing after the other, at
/// the place the family named: the probe, the report, the mode, the count, the
/// batch, and of each row its bytes, its push and its mark, and the rows left.
pub proof fn a_good_cycle_goes_on(
    stand: Stand,
    name: String,
    url: String,
    status: Status,
    count: u64,
    rows: Vec<LocalAttachment>,
    bytes: Vec<u8>,
    id: String,
    drain: Drain,
)
    requires
        count > 0,
        rows@.len() > 0,
    ensures
        cycle_after(Cycle::Locate, Event::Located(Some((name, url))), stand) == (Cycle::Probe {
            url,
        }),
        cycle_after(Cycle::Probe { url }, Event::Probed(true), stand) == (Cycle::Report { url }),
        cycle_after(Cycle::Report { url }, Event::Reported(Some(status)), stand) == (
        Cycle::Choose { url }),
        cycle_after(Cycle::Choose { url }, Event::Chosen(Some(StorageBackend::In)), stand) == (
        Cycle::Count { url }),
        stand.migrating is None ==> cycle_after(
            Cycle::Count { url },
            Event::Counted(Some(count)),
            stand,
        ) == (Cycle::List { url, total: count }),
        cycle_after(Cycle::List { url, total: count }, Event::Listed(Some(rows)), stand) == (
        Cycle::Load { drain: Drain { url, total: count, rows, at: 0 } }),
        cycle_after(Cycle::Load { drain }, Event::Loaded(Some(bytes)), stand) == (Cycle::Push {
            drain,
            bytes,
        }),
        cycle_after(Cycle::Push { drain, bytes }, Event::Pushed(Ok(id)), stand) == (Cycle::Mark {
            drain,
        }),
        cycle_after(Cycle::Mark { drain }, Event::Marked(true), stand) == (Cycle::Recount {
            drain,
        }),
{
}

/// No row of a batch is passed over and none is taken twice: behind one that
/// moved comes the next, and behind the last the closing count.
pub proof fn a_batch_is_gone_through(drain: Drain, count: Option<u64>, stand: Stand)
    requires
        drain.at < drain.rows@.len(),
    ensures
        ({
            let after = cycle_after(Cycle::Recount { drain }, Event::Counted(count), stand);
            if drain.at == drain.rows@.len() - 1 {
                after is Close
            } else {
                after matches Cycle::Load { drain: next } && next.at == drain.at + 1 && next.rows
                    == drain.rows && next.url == drain.url && next.total == drain.total
            }
        }),
{
}

/// Whatever was refused or could not be had ends the cycle there and then; of a
/// count after a row only the counter waits.
pub proof fn a_refusal_ends_the_cycle(cycle: Cycle, event: Event, stand: Stand)
    requires
        meets(cycle, event),
        is_refusal(event) || event == Event::Located(None) || event == Event::Chosen(None) || (event
            == Event::Counted(None) && !(cycle is Recount)),
    ensures
        cycle_after(cycle, event, stand) is Over,
{
}

/// The card shows where the family says the service is, and the account as the
/// service reports it, from the moment that was had; a service the family does
/// not list is not shown.
pub proof fn the_card_shows_what_was_had(
    stand: Stand,
    name: String,
    url: String,
    status: Status,
    now: nat,
)
    ensures
        ({
            let after = stand_after(
                Cycle::Locate,
                Event::Located(Some((name, url))),
                stand,
                now,
            );
            after == Stand { url: Some(url@), name: Some(name@), ..stand }
        }),
        ({
            let after = stand_after(Cycle::Locate, Event::Located(None), stand, now);
            after == Stand { url: None, name: None, connected: false, ..stand }
        }),
        ({
            let after = stand_after(
                Cycle::Report { url },
                Event::Reported(Some(status)),
                stand,
                now,
            );
            &&& after.connected
            &&& after.used == Some(status.used_bytes)
            &&& after.quota == Some(status.quota_bytes)
            &&& after.last_ok == Some(now)
            &&& after.last_problem == stand.last_problem
            &&& after.url == stand.url
            &&& after.name == stand.name
            &&& after.migrating == stand.migrating
        }),
{
}

/// What went well says nothing of a problem, and only the report says Connected.
pub proof fn only_a_refusal_is_a_problem(cycle: Cycle, event: Event, stand: Stand, now: nat)
    requires
        meets(cycle, event),
        !is_refusal(event),
    ensures
        stand_after(cycle, event, stand, now).last_problem == stand.last_problem,
        stand_after(cycle, event, stand, now).connected ==> stand.connected || event is Reported,
        stand.connected && event != Event::Located(None) ==> stand_after(
            cycle,
            event,
            stand,
            now,
        ).connected,
{
}

/// The card's word for a refusal says what it was: an unreachable service, a
/// status that did not come, a push the service refused in its own word, and
/// anything the store refused.
pub proof fn a_refusal_has_its_word(cycle: Cycle, event: Event, stand: Stand, now: nat)
    requires
        meets(cycle, event),
        is_refusal(event),
    ensures
        stand_after(cycle, event, stand, now).last_problem matches Some((_, word)) && {
            &&& cycle is Probe ==> word == "unreachable"@
            &&& cycle is Report ==> word == "status"@
            &&& cycle is List || cycle is Load || cycle is Mark ==> word == "store"@
            &&& event matches Event::Pushed(Err(problem)) ==> word == word_of(problem.deep_view())
            &&& event matches Event::Pushed(Err(StorageProblem::Quota)) ==> word == "quota"@
        },
{
}

} // verus!
