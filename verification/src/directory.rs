//! How the identity mirror stands, and how one event off the directory's feed
//! is carried into it.

use crate::clock::{elapsed, Duration, Moment};
use crate::text;
use vstd::prelude::*;

verus! {

// ---------------------------------------------------------------------------
// Health
// ---------------------------------------------------------------------------

/// The mirror's health: four plain facts the stream task writes and the page
/// reads.
#[derive(Debug, Clone, Copy, PartialEq, Eq, Structural)]
pub struct DirectoryHealth {
    /// The live stream is open.
    connected: bool,
    opened_at: Option<Moment>,
    event_at: Option<Moment>,
    pass_at: Option<Moment>,
}

/// What a [`DirectoryHealth`] holds, moments in nanoseconds since the start.
pub struct Facts {
    pub connected: bool,
    pub opened_at: Option<nat>,
    pub event_at: Option<nat>,
    pub pass_at: Option<nat>,
}

/// The moment a fact was last stamped.
pub open spec fn moment_of(at: Option<Moment>) -> Option<nat> {
    match at {
        Some(at) => Some(at@),
        None => None,
    }
}

impl View for DirectoryHealth {
    type V = Facts;

    closed spec fn view(&self) -> Facts {
        Facts {
            connected: self.connected,
            opened_at: moment_of(self.opened_at),
            event_at: moment_of(self.event_at),
            pass_at: moment_of(self.pass_at),
        }
    }
}

/// One rendered view of [`DirectoryHealth`]: the state word the card shows and
/// the ages behind the two quiet facts.
#[derive(Debug, Clone, Copy, PartialEq, Eq, Structural)]
pub struct Snapshot {
    pub connected: bool,
    pub event_age: Option<Duration>,
    pub pass_age: Option<Duration>,
}

/// `age` is how long ago `at` was, if it ever was.
pub open spec fn is_age(age: Option<Duration>, at: Option<nat>, now: nat) -> bool {
    match at {
        Some(then) => age matches Some(span) && span@ == elapsed(now, then),
        None => age is None,
    }
}

/// The age of a stamp, if there is one.
pub fn age_of(at: Option<Moment>, now: Moment) -> (r: Option<Duration>)
    ensures
        is_age(r, moment_of(at), now@),
{
    match at {
        Some(then) => Some(now.saturating_duration_since(then)),
        None => None,
    }
}

impl DirectoryHealth {
    pub fn new() -> (r: DirectoryHealth)
        ensures
            r@ == (Facts { connected: false, opened_at: None, event_at: None, pass_at: None }),
    {
        DirectoryHealth { connected: false, opened_at: None, event_at: None, pass_at: None }
    }

    /// The stream opened (or reopened): the card may say Connected.
    pub fn connected(&mut self, now: Moment)
        ensures
            final(self)@ == (Facts { connected: true, opened_at: Some(now@), ..old(self)@ }),
    {
        self.connected = true;
        self.opened_at = Some(now);
    }

    /// The stream ended or was refused: the card says Reconnecting until the
    /// next full pass opens a fresh one.
    pub fn reconnecting(&mut self)
        ensures
            final(self)@ == (Facts { connected: false, ..old(self)@ }),
    {
        self.connected = false;
    }

    /// A profile event came off the stream.
    pub fn event(&mut self, now: Moment)
        ensures
            final(self)@ == (Facts { event_at: Some(now@), ..old(self)@ }),
    {
        self.event_at = Some(now);
    }

    /// A full roster pass finished.
    pub fn pass(&mut self, now: Moment)
        ensures
            final(self)@ == (Facts { pass_at: Some(now@), ..old(self)@ }),
    {
        self.pass_at = Some(now);
    }

    pub fn snapshot(&self, now: Moment) -> (r: Snapshot)
        ensures
            r.connected == self@.connected,
            is_age(r.event_age, self@.event_at, now@),
            is_age(r.pass_age, self@.pass_at, now@),
    {
        Snapshot {
            connected: self.connected,
            event_age: age_of(self.event_at, now),
            pass_age: age_of(self.pass_at, now),
        }
    }
}

/// An age in words: whole minutes from the first one on, whole seconds before.
pub open spec fn age_words(nanos: nat) -> Seq<char> {
    let secs = nanos / 1_000_000_000;
    if secs >= 60 {
        text::decimal(secs / 60) + "m"@
    } else {
        text::decimal(secs) + "s"@
    }
}

/// The stream's age in whole seconds, as the card prints it: a short number
/// with its unit, the same shape in every language.
pub fn age_text(age: Option<Duration>) -> (r: String)
    ensures
        match age {
            Some(span) => r@ == age_words(span@),
            None => r@ == Seq::<char>::empty(),
        },
{
    match age {
        Some(span) => {
            let secs: u64 = span.as_secs();
            if secs >= 60 {
                text::join2(text::decimal_text((secs / 60) as u128).as_str(), "m")
            } else {
                text::join2(text::decimal_text(secs as u128).as_str(), "s")
            }
        },
        None => {
            let r = String::new();
            assert(r@ =~= Seq::empty());
            r
        },
    }
}

// ---------------------------------------------------------------------------
// Events
// ---------------------------------------------------------------------------

/// One member's row exactly as the stream carries it: the roster's shape plus
/// the `disabled` fact the roster itself never shows.
#[derive(Debug, Clone, PartialEq, Eq)]
pub struct StreamMember {
    pub sub: String,
    pub email: String,
    pub name: String,
    pub admin: bool,
    pub photo_version: u64,
    pub timezone: String,
    pub disabled: bool,
}

/// The timezone every account starts on, and the one a row without the field
/// reads as.
pub fn default_timezone() -> (r: String)
    ensures
        r@ == "UTC+03:00"@,
{
    "UTC+03:00".to_owned()
}

/// One event off the feed.
#[derive(Debug, Clone, PartialEq, Eq)]
pub enum StreamFrame {
    /// The named member's row as it now stands.
    Profile(StreamMember),
    /// At least one of the member's sessions was revoked. Which one is not
    /// said; the consumer treats the fact workspace-wide.
    Revoked { sub: String },
}

/// The frame a member's row makes, or, where the row did not read, the line it
/// leaves in the log: one strange frame must not end a healthy connection.
pub fn member_frame(row: Result<StreamMember, String>) -> (r: Result<StreamFrame, String>)
    ensures
        match row {
            Ok(member) => r == Ok::<StreamFrame, String>(StreamFrame::Profile(member)),
            Err(problem) => r matches Err(line) && line@
                == "directory stream: unreadable profile frame ("@ + problem@ + ")"@,
        },
{
    match row {
        Ok(member) => Ok(StreamFrame::Profile(member)),
        Err(problem) => Err(
            text::join3(
                "directory stream: unreadable profile frame (",
                problem.as_str(),
                ")",
            ),
        ),
    }
}

/// The same of a revocation, by the subject whose session died.
pub fn revoked_frame(sub: Result<String, String>) -> (r: Result<StreamFrame, String>)
    ensures
        match sub {
            Ok(sub) => r == Ok::<StreamFrame, String>(StreamFrame::Revoked { sub }),
            Err(problem) => r matches Err(line) && line@
                == "directory stream: unreadable revoked frame ("@ + problem@ + ")"@,
        },
{
    match sub {
        Ok(sub) => Ok(StreamFrame::Revoked { sub }),
        Err(problem) => Err(
            text::join3(
                "directory stream: unreadable revoked frame (",
                problem.as_str(),
                ")",
            ),
        ),
    }
}

/// What carrying a frame into the mirror asks for next.
#[derive(Debug, Clone, PartialEq, Eq)]
pub enum Errand {
    /// Bring the member's row up to date.
    Sync(StreamMember),
    /// Find the local row of the member.
    Find(StreamMember),
    /// Flip the row with this id to the member's own `disabled`, through the
    /// path an admin's hand uses.
    Flip { member: StreamMember, id: String },
    /// Tell every open tab that something about the members changed.
    Announce,
    /// Nothing is left to do.
    Done,
}

/// How an errand went.
#[derive(Debug, Clone, PartialEq, Eq)]
pub enum Outcome {
    /// It was done.
    Done,
    /// The row that was looked for, as its id and whether it is disabled.
    Found(Option<(String, bool)>),
    /// It was refused, in words.
    Failed(String),
}

/// An outcome an errand can have: a look-up finds or fails, anything else is
/// done or fails.
pub open spec fn answers(outcome: Outcome, errand: Errand) -> bool {
    match outcome {
        Outcome::Done => !(errand is Find),
        Outcome::Found(_) => errand is Find,
        Outcome::Failed(_) => !(errand is Announce) && !(errand is Done),
    }
}

/// The errand a frame starts with. A profile is synced; a revocation is a
/// session fact, so it only announces.
pub open spec fn first_errand(frame: StreamFrame) -> Errand {
    match frame {
        StreamFrame::Profile(member) => Errand::Sync(member),
        StreamFrame::Revoked { .. } => Errand::Announce,
    }
}

/// The errand after an outcome. Whatever the sync said, the row is looked for;
/// a row whose `disabled` disagrees with the member's is flipped.
pub open spec fn errand_after(errand: Errand, outcome: Outcome) -> Errand {
    match errand {
        Errand::Sync(member) => Errand::Find(member),
        Errand::Find(member) => match outcome {
            Outcome::Found(Some((id, disabled))) => if disabled != member.disabled {
                Errand::Flip { member, id }
            } else {
                Errand::Done
            },
            _ => Errand::Done,
        },
        _ => Errand::Done,
    }
}

/// The member an errand is about.
pub open spec fn member_of(errand: Errand) -> Option<StreamMember> {
    match errand {
        Errand::Sync(member) => Some(member),
        Errand::Find(member) => Some(member),
        Errand::Flip { member, .. } => Some(member),
        _ => None,
    }
}

/// The line a refused errand leaves in the log.
pub open spec fn complaint(errand: Errand, outcome: Outcome) -> Option<Seq<char>> {
    match outcome {
        Outcome::Failed(problem) => match member_of(errand) {
            Some(member) => Some("directory stream: "@ + member.email@ + ": "@ + problem@),
            None => None,
        },
        _ => None,
    }
}

fn complain(email: &str, outcome: &Outcome) -> (r: Option<String>)
    ensures
        match outcome {
            Outcome::Failed(problem) => r matches Some(line) && line@ == "directory stream: "@
                + email@ + ": "@ + problem@,
            _ => r is None,
        },
{
    match outcome {
        Outcome::Failed(problem) => {
            let who = text::join2("directory stream: ", email);
            Some(text::join3(who.as_str(), ": ", problem.as_str()))
        },
        _ => None,
    }
}

impl Errand {
    /// Where carrying a frame starts.
    pub fn first(frame: StreamFrame) -> (r: Errand)
        ensures
            r == first_errand(frame),
    {
        match frame {
            StreamFrame::Profile(member) => Errand::Sync(member),
            StreamFrame::Revoked { .. } => Errand::Announce,
        }
    }

    /// What comes after an outcome, and the line it leaves in the log.
    pub fn next(self, outcome: Outcome) -> (r: (Errand, Option<String>))
        requires
            answers(outcome, self),
        ensures
            r.0 == errand_after(self, outcome),
            r.1.deep_view() == complaint(self, outcome),
    {
        match self {
            Errand::Sync(member) => {
                let line = complain(member.email.as_str(), &outcome);
                (Errand::Find(member), line)
            },
            Errand::Find(member) => {
                let line = complain(member.email.as_str(), &outcome);
                match outcome {
                    Outcome::Found(Some((id, disabled))) => if disabled != member.disabled {
                        (Errand::Flip { member, id }, line)
                    } else {
                        (Errand::Done, line)
                    },
                    _ => (Errand::Done, line),
                }
            },
            Errand::Flip { member, .. } => {
                let line = complain(member.email.as_str(), &outcome);
                (Errand::Done, line)
            },
            _ => (Errand::Done, None),
        }
    }
}

// ---------------------------------------------------------------------------
// Laws
// ---------------------------------------------------------------------------

/// How many errands are left at most.
pub open spec fn errands_left(errand: Errand) -> nat {
    match errand {
        Errand::Sync(_) => 3,
        Errand::Find(_) => 2,
        Errand::Flip { .. } => 1,
        Errand::Announce => 1,
        Errand::Done => 0,
    }
}

/// Carrying a frame comes to an end: every outcome leaves fewer errands, and a
/// frame starts with three at most.
pub proof fn errands_come_to_an_end(frame: StreamFrame, errand: Errand, outcome: Outcome)
    ensures
        errands_left(first_errand(frame)) <= 3,
        !(errand is Done) ==> errands_left(errand_after(errand, outcome)) < errands_left(errand),
{
}

/// A row is flipped exactly where it was found to disagree with the member, and
/// then to what the member says.
pub proof fn a_row_flips_only_where_it_disagrees(errand: Errand, outcome: Outcome)
    ensures
        errand_after(errand, outcome) is Flip <==> (errand matches Errand::Find(member) && (
        outcome matches Outcome::Found(Some((_, disabled))) && disabled != member.disabled)),
        errand_after(errand, outcome) matches Errand::Flip { member, id } ==> errand
            == Errand::Find(member) && (outcome matches Outcome::Found(Some((found, disabled)))
            && found == id && disabled != member.disabled),
{
}

/// A revocation announces and does nothing else: no row is synced, looked for
/// or flipped for it.
pub proof fn a_revocation_only_announces(sub: String, outcome: Outcome)
    ensures
        first_errand(StreamFrame::Revoked { sub }) == Errand::Announce,
        errand_after(Errand::Announce, outcome) == Errand::Done,
{
}

/// A sync that was refused does not keep a member's `disabled` from being
/// followed.
pub proof fn a_refused_sync_is_followed_up(member: StreamMember, problem: String)
    ensures
        errand_after(Errand::Sync(member), Outcome::Failed(problem)) == Errand::Find(member),
{
}

/// An age is told in whole seconds under a minute and in whole minutes from there
/// on, the part of one that has begun left out.
pub proof fn an_age_is_told_in_whole_units(nanos: nat, n: nat)
    ensures
        nanos < 60 * 1_000_000_000 && n * 1_000_000_000 <= nanos < (n + 1) * 1_000_000_000
            ==> age_words(nanos) == text::decimal(n) + "s"@,
        nanos >= 60 * 1_000_000_000 && n * (60 * 1_000_000_000) <= nanos < (n + 1) * (60
            * 1_000_000_000) ==> age_words(nanos) == text::decimal(n) + "m"@,
{
    if nanos < 60 * 1_000_000_000 && n * 1_000_000_000 <= nanos < (n + 1) * 1_000_000_000 {
        assert(nanos / 1_000_000_000 == n);
    }
    if nanos >= 60 * 1_000_000_000 && n * (60 * 1_000_000_000) <= nanos < (n + 1) * (60
        * 1_000_000_000) {
        assert((nanos / 1_000_000_000) / 60 == n);
    }
}

/// An age is how long ago the moment was, where there was one.
pub proof fn an_age_reaches_back_to_its_moment(age: Option<Duration>, at: Option<nat>, now: nat)
    requires
        is_age(age, at, now),
    ensures
        age is Some <==> at is Some,
        at is Some && at->0 <= now ==> at->0 + age->0@ == now,
        at is Some && at->0 > now ==> age->0@ == 0,
{
}

/// A profile is carried in this order: the member's row is brought up to date, the
/// row is looked for whatever came of that, and a row that disagrees is flipped;
/// each errand is about the member the frame named.
pub proof fn a_profile_is_carried_whole(member: StreamMember, outcome: Outcome, id: String)
    ensures
        first_errand(StreamFrame::Profile(member)) == Errand::Sync(member),
        errand_after(Errand::Sync(member), outcome) == Errand::Find(member),
        errand_after(Errand::Find(member), Outcome::Found(Some((id, !member.disabled)))) == (
        Errand::Flip { member, id }),
        errand_after(Errand::Find(member), Outcome::Found(Some((id, member.disabled))))
            == Errand::Done,
        errand_after(Errand::Find(member), Outcome::Found(None)) == Errand::Done,
        errand_after(Errand::Flip { member, id }, outcome) == Errand::Done,
{
}

/// A refusal is told with the member's address and the problem's own words, and
/// nothing else is told.
pub proof fn a_refused_errand_is_told(errand: Errand, outcome: Outcome)
    requires
        answers(outcome, errand),
    ensures
        complaint(errand, outcome) is Some <==> outcome is Failed,
        outcome matches Outcome::Failed(problem) ==> {
            let line = complaint(errand, outcome)->0;
            &&& problem@.is_suffix_of(line)
            &&& errand matches Errand::Sync(member) ==> text::stands_at(
                line,
                "directory stream: "@ + member.email@ + ": "@,
                0,
            )
            &&& errand matches Errand::Find(member) ==> text::stands_at(
                line,
                "directory stream: "@ + member.email@ + ": "@,
                0,
            )
            &&& errand matches Errand::Flip { member, .. } ==> text::stands_at(
                line,
                "directory stream: "@ + member.email@ + ": "@,
                0,
            )
        },
{
    if let Outcome::Failed(problem) = outcome {
        let member = match errand {
            Errand::Sync(member) => member,
            Errand::Find(member) => member,
            Errand::Flip { member, .. } => member,
            _ => arbitrary(),
        };
        let line = complaint(errand, outcome)->0;
        let opening = "directory stream: "@ + member.email@ + ": "@;
        assert(line =~= opening + problem@);
        assert(line.subrange(0, opening.len() as int) =~= opening);
        assert(line.subrange(line.len() - problem@.len(), line.len() as int) =~= problem@);
    }
}

} // verus!
