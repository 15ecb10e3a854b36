//! The family beat: a full pass of the roster, the app's own place in the
//! family, and the family list the switcher draws.

use crate::clock::Moment;
use crate::directory::{DirectoryHealth, Facts};
use crate::text;
use vstd::prelude::*;

verus! {

// ---------------------------------------------------------------------------
// The app's own place
// ---------------------------------------------------------------------------

/// How often the member list is re-mirrored, in seconds.
pub const DIRECTORY_SECONDS: u64 = 300;

/// The address the app files itself under: the stored one where an admin set
/// one, the configured one otherwise, without the white space around it and
/// without the slashes at its end.
pub open spec fn origin_of(stored: Option<Seq<char>>, configured: Seq<char>) -> Seq<char> {
    let chosen = match stored {
        Some(address) => if text::trim(address).len() > 0 {
            text::trim(address)
        } else {
            text::trim(configured)
        },
        None => text::trim(configured),
    };
    text::without_trailing(chosen, '/')
}

/// The stored public address an admin set wins over the configured one. A
/// stored address that could not be read is no stored address.
pub fn family_origin(stored: Option<String>, configured: &str) -> (r: String)
    ensures
        r@ == origin_of(stored.deep_view(), configured@),
{
    if let Some(address) = stored {
        let trimmed = text::trimmed(address.as_str());
        if text::chars_of(trimmed.as_str()).len() > 0 {
            return text::drop_trailing(trimmed.as_str(), '/');
        }
    }
    let trimmed = text::trimmed(configured);
    text::drop_trailing(trimmed.as_str(), '/')
}

/// What a beat does about the app's own place in the family.
#[derive(Debug, Clone, PartialEq, Eq)]
pub enum Registration {
    /// File the app under this address.
    Register(String),
    /// Say once that there is no address.
    Say(&'static str),
    /// It has been said.
    Silence,
}

/// The one line about a missing address.
pub open spec fn no_address() -> Seq<char> {
    "family: no public address to register; set base_url or the Server rail's public address"@
}

/// An address that never arrives is one deployment fact, so it is said once and
/// the mirror goes on without it.
pub fn registration(origin: String, said_no_address: &mut bool) -> (r: Registration)
    ensures
        origin@.len() > 0 ==> r == Registration::Register(origin) && *final(said_no_address)
            == *old(said_no_address),
        origin@.len() == 0 ==> {
            &&& *final(said_no_address)
            &&& *old(said_no_address) ==> r is Silence
            &&& !*old(said_no_address) ==> (r matches Registration::Say(line) && line@
                == no_address())
        },
{
    if text::chars_of(origin.as_str()).len() > 0 {
        Registration::Register(origin)
    } else if *said_no_address {
        Registration::Silence
    } else {
        *said_no_address = true;
        Registration::Say(
            "family: no public address to register; set base_url or the Server rail's public address",
        )
    }
}

// ---------------------------------------------------------------------------
// The beat
// ---------------------------------------------------------------------------

/// The line a roster row leaves that could not be synced. The pass goes on with
/// the next one.
pub fn sync_complaint(email: &str, problem: &str) -> (r: String)
    ensures
        r@ == "directory sync: "@ + email@ + ": "@ + problem@,
{
    let who = text::join2("directory sync: ", email);
    text::join3(who.as_str(), ": ", problem)
}

/// Where the beat stands, which is what it asks for next. `said` is whether the
/// missing address has been told of.
#[derive(Debug, Clone, PartialEq, Eq)]
pub enum Beat {
    /// A full pass of the roster.
    Pass { said: bool },
    /// The public address an admin stored.
    Address { said: bool },
    /// Filing the app in the family under its address.
    Register { said: bool, origin: String },
    /// The family list, as the text it is stored as.
    Family { said: bool },
    /// Storing the family list.
    Keep { said: bool, json: String },
    /// Sleeping [`DIRECTORY_SECONDS`] until the next beat.
    Sleep { said: bool },
}

/// What a [`Beat`] holds.
pub enum Stage {
    Pass(bool),
    Address(bool),
    Register(bool, Seq<char>),
    Family(bool),
    Keep(bool, Seq<char>),
    Sleep(bool),
}

impl View for Beat {
    type V = Stage;

    open spec fn view(&self) -> Stage {
        match self {
            Beat::Pass { said } => Stage::Pass(*said),
            Beat::Address { said } => Stage::Address(*said),
            Beat::Register { said, origin } => Stage::Register(*said, origin@),
            Beat::Family { said } => Stage::Family(*said),
            Beat::Keep { said, json } => Stage::Keep(*said, json@),
            Beat::Sleep { said } => Stage::Sleep(*said),
        }
    }
}

/// What came of what the beat asked for.
#[derive(Debug, Clone, PartialEq, Eq)]
pub enum BeatEvent {
    /// The pass was through every row.
    Passed,
    /// The directory did not answer the pass, in words.
    NoPass(String),
    /// The stored address, or none that could be read.
    Stored(Option<String>),
    Registered,
    /// The family did not take the app in, in words.
    NotRegistered(String),
    /// The family list as a text.
    Listed(String),
    /// The family list does not go into a text, in words.
    Unwritable(String),
    /// The family did not answer.
    Unanswered,
    Kept,
    /// The list could not be stored, in words.
    NotKept(String),
    /// The sleep is over.
    Woke,
}

/// An event that answers what the beat asked for.
pub open spec fn answers(event: BeatEvent, beat: Beat) -> bool {
    match beat {
        Beat::Pass { .. } => event is Passed || event is NoPass,
        Beat::Address { .. } => event is Stored,
        Beat::Register { .. } => event is Registered || event is NotRegistered,
        Beat::Family { .. } => event is Listed || event is Unwritable || event is Unanswered,
        Beat::Keep { .. } => event is Kept || event is NotKept,
        Beat::Sleep { .. } => event is Woke,
    }
}

/// Where the beat stands after an event. An app without an address registers
/// nowhere; whatever came of anything, the family is asked for and the next beat
/// comes.
pub open spec fn stage_after(stage: Stage, event: BeatEvent, configured: Seq<char>) -> Stage {
    match stage {
        Stage::Pass(said) => Stage::Address(said),
        Stage::Address(said) => match event {
            BeatEvent::Stored(stored) => {
                let origin = origin_of(stored.deep_view(), configured);
                if origin.len() > 0 {
                    Stage::Register(said, origin)
                } else {
                    Stage::Family(true)
                }
            },
            _ => Stage::Family(said),
        },
        Stage::Register(said, _) => Stage::Family(said),
        Stage::Family(said) => match event {
            BeatEvent::Listed(json) => Stage::Keep(said, json@),
            _ => Stage::Sleep(said),
        },
        Stage::Keep(said, _) => Stage::Sleep(said),
        Stage::Sleep(said) => Stage::Pass(said),
    }
}

/// The line an event leaves in the log.
pub open spec fn beat_line(stage: Stage, event: BeatEvent, configured: Seq<char>) -> Option<
    Seq<char>,
> {
    match event {
        BeatEvent::NoPass(problem) => Some(
            "directory sync: im did not answer ("@ + problem@ + "); keeping the rows there are"@,
        ),
        BeatEvent::Stored(stored) => if stage == Stage::Address(false) && origin_of(
            stored.deep_view(),
            configured,
        ).len() == 0 {
            Some(no_address())
        } else {
            None
        },
        BeatEvent::NotRegistered(problem) => Some("family register: "@ + problem@),
        BeatEvent::Unwritable(problem) => Some("family sync: "@ + problem@),
        BeatEvent::NotKept(problem) => Some("family sync: "@ + problem@),
        BeatEvent::Unanswered => Some(
            "family sync: im did not answer; keeping the list there is"@,
        ),
        _ => None,
    }
}

/// What an event leaves in the mirror's health: a pass that landed is stamped.
pub open spec fn health_after(facts: Facts, event: BeatEvent, now: nat) -> Facts {
    match event {
        BeatEvent::Passed => Facts { pass_at: Some(now), ..facts },
        _ => facts,
    }
}

impl Beat {
    /// The beat at boot: a full pass comes first.
    pub fn start() -> (r: Beat)
        ensures
            r@ == Stage::Pass(false),
    {
        Beat::Pass { said: false }
    }

    /// One event: where the beat stands then, what the Connection card reads,
    /// and the line for the log.
    pub fn step(
        self,
        event: BeatEvent,
        configured: &str,
        health: &mut DirectoryHealth,
        now: Moment,
    ) -> (r: (Beat, Option<String>))
        requires
            answers(event, self),
        ensures
            r.0@ == stage_after(self@, event, configured@),
            r.1.deep_view() == beat_line(self@, event, configured@),
            final(health)@ == health_after(old(health)@, event, now@),
    {
        match (self, event) {
            (Beat::Pass { said }, BeatEvent::Passed) => {
                health.pass(now);
                (Beat::Address { said }, None)
            },
            (Beat::Pass { said }, BeatEvent::NoPass(problem)) => {
                let line = text::join3(
                    "directory sync: im did not answer (",
                    problem.as_str(),
                    "); keeping the rows there are",
                );
                (Beat::Address { said }, Some(line))
            },
            (Beat::Address { said }, BeatEvent::Stored(stored)) => {
                let mut said_by_now = said;
                match registration(family_origin(stored, configured), &mut said_by_now) {
                    Registration::Register(origin) => (Beat::Register { said, origin }, None),
                    Registration::Say(line) => (
                        Beat::Family { said: said_by_now },
                        Some(line.to_owned()),
                    ),
                    Registration::Silence => (Beat::Family { said: said_by_now }, None),
                }
            },
            (Beat::Register { said, .. }, BeatEvent::NotRegistered(problem)) => (
                Beat::Family { said },
                Some(text::join2("family register: ", problem.as_str())),
            ),
            (Beat::Register { said, .. }, _) => (Beat::Family { said }, None),
            (Beat::Family { said }, BeatEvent::Listed(json)) => (Beat::Keep { said, json }, None),
            (Beat::Family { said }, BeatEvent::Unwritable(problem)) => (
                Beat::Sleep { said },
                Some(text::join2("family sync: ", problem.as_str())),
            ),
            (Beat::Family { said }, _) => (
                Beat::Sleep { said },
                Some("family sync: im did not answer; keeping the list there is".to_owned()),
            ),
            (Beat::Keep { said, .. }, BeatEvent::NotKept(problem)) => (
                Beat::Sleep { said },
                Some(text::join2("family sync: ", problem.as_str())),
            ),
            (Beat::Keep { said, .. }, _) => (Beat::Sleep { said }, None),
            (Beat::Sleep { said }, _) => (Beat::Pass { said }, None),
            (Beat::Pass { said }, _) => (Beat::Address { said }, None),
            (Beat::Address { said }, _) => (Beat::Family { said }, None),
        }
    }
}

// ---------------------------------------------------------------------------
// Laws
// ---------------------------------------------------------------------------

/// The missing address has been told of.
pub open spec fn told(stage: Stage) -> bool {
    match stage {
        Stage::Pass(said) => said,
        Stage::Address(said) => said,
        Stage::Register(said, _) => said,
        Stage::Family(said) => said,
        Stage::Keep(said, _) => said,
        Stage::Sleep(said) => said,
    }
}

/// A missing address is told of once: the line comes only where it has not come
/// yet, and from then on it has.
pub proof fn a_missing_address_is_told_once(
    stage: Stage,
    event: BeatEvent,
    configured: Seq<char>,
)
    requires
        event is Stored,
    ensures
        beat_line(stage, event, configured) is Some ==> !told(stage) && told(
            stage_after(stage, event, configured),
        ),
        told(stage) ==> told(stage_after(stage, event, configured)),
{
}

/// Once told of, a missing address stays told of, whatever happens.
pub proof fn what_was_told_stays_told(stage: Stage, event: BeatEvent, configured: Seq<char>)
    requires
        told(stage),
    ensures
        told(stage_after(stage, event, configured)),
{
}

/// The app is only ever registered under an address.
pub proof fn only_an_address_is_registered(
    stage: Stage,
    event: BeatEvent,
    configured: Seq<char>,
)
    ensures
        stage_after(stage, event, configured) matches Stage::Register(_, origin) ==> origin.len()
            > 0,
{
}

/// How many events a beat has left before it sleeps.
pub open spec fn until_sleep(stage: Stage) -> nat {
    match stage {
        Stage::Pass(_) => 5,
        Stage::Address(_) => 4,
        Stage::Register(_, _) => 3,
        Stage::Family(_) => 2,
        Stage::Keep(_, _) => 1,
        Stage::Sleep(_) => 0,
    }
}

/// Nothing keeps a beat from the next one: whatever is refused, every event
/// brings it closer to its sleep, and the family is asked for on the way.
pub proof fn a_refusal_stops_no_beat(stage: Stage, event: BeatEvent, configured: Seq<char>)
    ensures
        until_sleep(stage) > 0 ==> until_sleep(stage_after(stage, event, configured))
            < until_sleep(stage),
        until_sleep(stage) > 2 ==> until_sleep(stage_after(stage, event, configured)) >= 2,
        stage is Sleep ==> stage_after(stage, event, configured) is Pass,
{
}

/// The address an admin stored wins wherever anything but white space stands in
/// it, and the configured one stands in otherwise; either is told without the
/// white space around it and without the slashes it ends on.
pub proof fn a_stored_address_wins(stored: Seq<char>, configured: Seq<char>)
    ensures
        origin_of(None, configured) == text::without_trailing(text::trim(configured), '/'),
        origin_of(Some(stored), configured) == origin_of(
            None,
            if exists|i: int| 0 <= i < stored.len() && !text::white(#[trigger] stored[i]) {
                stored
            } else {
                configured
            },
        ),
{
    if exists|i: int| 0 <= i < stored.len() && !text::white(#[trigger] stored[i]) {
        let i = choose|i: int| 0 <= i < stored.len() && !text::white(#[trigger] stored[i]);
        text::a_text_with_a_mark_is_not_blank(stored, i);
    } else {
        let (a, b) = text::trimming_takes_white_space_alone(stored);
        if a < b {
            assert(!text::white(stored[a]));
        }
    }
}

/// The address the app is filed under ends on no slash and has no white space in
/// front.
pub proof fn an_origin_is_bare(stored: Option<Seq<char>>, configured: Seq<char>)
    ensures
        origin_of(stored, configured).len() > 0 ==> origin_of(stored, configured).last() != '/'
            && !text::white(origin_of(stored, configured)[0]),
{
    let chosen = match stored {
        Some(address) => if text::trim(address).len() > 0 {
            address
        } else {
            configured
        },
        None => configured,
    };
    text::trimmed_text_trims_no_further(chosen);
    let b = text::a_trailing_run_goes_whole(text::trim(chosen), '/');
    assert(origin_of(stored, configured) == text::trim(chosen).take(b));
}

/// A beat goes round in one order: the pass, the address, the registration where
/// there is an address, the family, and the list kept where one came; then it
/// sleeps and starts over.
pub proof fn a_beat_goes_round(said: bool, event: BeatEvent, configured: Seq<char>, words: Seq<char>)
    ensures
        stage_after(Stage::Pass(said), event, configured) == Stage::Address(said),
        event matches BeatEvent::Stored(stored) ==> stage_after(
            Stage::Address(said),
            event,
            configured,
        ) == if origin_of(stored.deep_view(), configured).len() > 0 {
            Stage::Register(said, origin_of(stored.deep_view(), configured))
        } else {
            Stage::Family(true)
        },
        stage_after(Stage::Register(said, words), event, configured) == Stage::Family(said),
        event matches BeatEvent::Listed(json) ==> stage_after(
            Stage::Family(said),
            event,
            configured,
        ) == Stage::Keep(said, json@),
        !(event is Listed) ==> stage_after(Stage::Family(said), event, configured)
            == Stage::Sleep(said),
        stage_after(Stage::Keep(said, words), event, configured) == Stage::Sleep(said),
        stage_after(Stage::Sleep(said), event, configured) == Stage::Pass(said),
{
}

/// Every refusal leaves a line that ends on, or holds, the problem's own words,
/// and what went well leaves none; the missing address is told unless it was
/// before. Only a full pass touches the card.
pub proof fn every_refusal_is_told(
    stage: Stage,
    event: BeatEvent,
    configured: Seq<char>,
    facts: Facts,
    now: nat,
)
    ensures
        event is Passed || event is Registered || event is Listed || event is Kept || event is Woke
            ==> beat_line(stage, event, configured) is None,
        event matches BeatEvent::NoPass(problem) ==> (beat_line(stage, event, configured) matches Some(
            line,
        ) && text::holds_text(line, problem@)),
        event matches BeatEvent::NotRegistered(problem) ==> (beat_line(
            stage,
            event,
            configured,
        ) matches Some(line) && problem@.is_suffix_of(line)),
        event matches BeatEvent::Unwritable(problem) ==> (beat_line(
            stage,
            event,
            configured,
        ) matches Some(line) && problem@.is_suffix_of(line)),
        event matches BeatEvent::NotKept(problem) ==> (beat_line(stage, event, configured) matches Some(
            line,
        ) && problem@.is_suffix_of(line)),
        event is Unanswered ==> beat_line(stage, event, configured) is Some,
        event matches BeatEvent::Stored(stored) ==> (stage is Address ==> (beat_line(
            stage,
            event,
            configured,
        ) is Some <==> !told(stage) && origin_of(stored.deep_view(), configured).len() == 0)),
        event is Passed ==> health_after(facts, event, now) == (Facts {
            pass_at: Some(now),
            ..facts
        }),
        !(event is Passed) ==> health_after(facts, event, now) == facts,
{
    if let Some(line) = beat_line(stage, event, configured) {
        match event {
            BeatEvent::NoPass(problem) => {
                let at = "directory sync: im did not answer ("@.len() as int;
                assert(line.subrange(at, at + problem@.len()) =~= problem@);
                assert(text::stands_at(line, problem@, at));
            },
            BeatEvent::NotRegistered(problem) => {
                assert(line.subrange(line.len() - problem@.len(), line.len() as int) =~= problem@);
            },
            BeatEvent::Unwritable(problem) => {
                assert(line.subrange(line.len() - problem@.len(), line.len() as int) =~= problem@);
            },
            BeatEvent::NotKept(problem) => {
                assert(line.subrange(line.len() - problem@.len(), line.len() as int) =~= problem@);
            },
            _ => {},
        }
    }
}

} // verus!
