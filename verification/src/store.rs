//! The records of the storage boundary and how they are read out of their
//! rows.

use crate::clock::{
    instant, reads_as, real_instant, rfc3339_read, rfc3339_text, writable, OffsetDateTime,
};
use crate::text;
use vstd::prelude::*;

verus! {

// ---------------------------------------------------------------------------
// What can go wrong
// ---------------------------------------------------------------------------

#[derive(Debug)]
pub enum StoreError {
    /// The database's own words.
    Backend(String),
    NotFound,
    /// What there can be only one of, and already is.
    Conflict(&'static str),
    /// A stored value that does not read.
    Corrupt(String),
}

/// What a [`StoreError`] says.
pub enum Fault {
    Backend(Seq<char>),
    NotFound,
    Conflict(Seq<char>),
    Corrupt(Seq<char>),
}

impl DeepView for StoreError {
    type V = Fault;

    open spec fn deep_view(&self) -> Fault {
        match self {
            StoreError::Backend(words) => Fault::Backend(words@),
            StoreError::NotFound => Fault::NotFound,
            StoreError::Conflict(what) => Fault::Conflict(what@),
            StoreError::Corrupt(words) => Fault::Corrupt(words@),
        }
    }
}

/// The sentence an error is told in.
pub open spec fn fault_text(fault: Fault) -> Seq<char> {
    match fault {
        Fault::Backend(words) => "database: "@ + words,
        Fault::NotFound => "not found"@,
        Fault::Conflict(what) => what + " already exists"@,
        Fault::Corrupt(words) => "stored value is not valid: "@ + words,
    }
}

impl StoreError {
    /// The sentence the error is told in.
    pub fn message(&self) -> (r: String)
        ensures
            r@ == fault_text(self.deep_view()),
    {
        match self {
            StoreError::Backend(words) => text::join2("database: ", words.as_str()),
            StoreError::NotFound => "not found".to_owned(),
            StoreError::Conflict(what) => text::join2(what, " already exists"),
            StoreError::Corrupt(words) => text::join2(
                "stored value is not valid: ",
                words.as_str(),
            ),
        }
    }
}

/// The database's own words as an error.
pub fn backend(words: String) -> (r: StoreError)
    ensures
        r.deep_view() == Fault::Backend(words@),
{
    StoreError::Backend(words)
}

// ---------------------------------------------------------------------------
// Who may do what
// ---------------------------------------------------------------------------

#[derive(Debug, Clone, Copy, PartialEq, Eq, Structural)]
pub enum DeletePolicy {
    /// Anyone who can write tasks may delete one.
    Anyone,
    /// Only the admin.
    Admin,
}

/// The word a policy is stored as.
pub open spec fn policy_word(policy: DeletePolicy) -> Seq<char> {
    match policy {
        DeletePolicy::Anyone => "anyone"@,
        DeletePolicy::Admin => "admin"@,
    }
}

impl DeletePolicy {
    pub fn as_str(self) -> (r: &'static str)
        ensures
            r@ == policy_word(self),
    {
        match self {
            DeletePolicy::Anyone => "anyone",
            DeletePolicy::Admin => "admin",
        }
    }

    pub fn parse(raw: &str) -> (r: Result<DeletePolicy, StoreError>)
        ensures
            r matches Ok(policy) ==> raw@ == policy_word(policy),
            r matches Err(e) ==> {
                &&& raw@ != policy_word(DeletePolicy::Anyone)
                &&& raw@ != policy_word(DeletePolicy::Admin)
                &&& e.deep_view() == Fault::Corrupt("delete policy "@ + text::quoted(raw@))
            },
    {
        if *raw == *"anyone" {
            Ok(DeletePolicy::Anyone)
        } else if *raw == *"admin" {
            Ok(DeletePolicy::Admin)
        } else {
            Err(
                StoreError::Corrupt(
                    text::join2("delete policy ", text::quoted_text(raw).as_str()),
                ),
            )
        }
    }
}

/// What an account may do in its workspace.
#[derive(Debug, Clone, Copy, PartialEq, Eq, Structural)]
pub enum Role {
    Admin,
    Member,
    Viewer,
}

/// The word a role is stored as.
pub open spec fn role_word(role: Role) -> Seq<char> {
    match role {
        Role::Admin => "admin"@,
        Role::Member => "member"@,
        Role::Viewer => "viewer"@,
    }
}

/// The role a stored word names.
pub open spec fn role_named(raw: Seq<char>) -> Option<Role> {
    if raw == role_word(Role::Admin) {
        Some(Role::Admin)
    } else if raw == role_word(Role::Member) {
        Some(Role::Member)
    } else if raw == role_word(Role::Viewer) {
        Some(Role::Viewer)
    } else {
        None
    }
}

impl Role {
    pub fn as_str(self) -> (r: &'static str)
        ensures
            r@ == role_word(self),
    {
        match self {
            Role::Admin => "admin",
            Role::Member => "member",
            Role::Viewer => "viewer",
        }
    }

    pub fn parse(raw: &str) -> (r: Option<Role>)
        ensures
            r == role_named(raw@),
    {
        if *raw == *"admin" {
            Some(Role::Admin)
        } else if *raw == *"member" {
            Some(Role::Member)
        } else if *raw == *"viewer" {
            Some(Role::Viewer)
        } else {
            None
        }
    }
}

// ---------------------------------------------------------------------------
// The records
// ---------------------------------------------------------------------------

/// A workspace and the settings that ride on it. The SMTP password is
/// deliberately absent: only the mailer reads it, and no page ever does.
#[derive(Debug, Clone, PartialEq)]
pub struct Workspace {
    pub id: String,
    pub name: String,
    pub created_at: OffsetDateTime,
    pub smtp_host: Option<String>,
    pub smtp_port: Option<u32>,
    pub smtp_username: Option<String>,
    pub smtp_from_name: Option<String>,
    pub smtp_from_address: Option<String>,
    pub attachment_limit_bytes: u64,
    pub photo_limit_bytes: u64,
    pub allowed_file_types: Vec<String>,
    pub who_can_delete_tasks: DeletePolicy,
}

/// An account. `password_hash` is `None` for an invited member who has not
/// signed in yet.
#[derive(Debug, Clone, PartialEq)]
pub struct User {
    pub id: String,
    pub workspace_id: String,
    pub email: String,
    pub display_name: String,
    pub role: Role,
    pub password_hash: Option<String>,
    pub photo_path: Option<String>,
    pub created_at: OffsetDateTime,
    pub last_signed_in_at: Option<OffsetDateTime>,
}

impl User {
    /// True once the person has chosen their own password.
    pub fn has_signed_in(&self) -> (r: bool)
        ensures
            r == self.password_hash is Some,
    {
        self.password_hash.is_some()
    }
}

pub struct NewUser {
    pub workspace_id: String,
    pub email: String,
    pub display_name: String,
    pub role: Role,
}

/// A first-sign-in link. Only the hash of the token is ever stored.
#[derive(Debug, Clone, PartialEq)]
pub struct SigninLink {
    pub id: String,
    pub user_id: String,
    pub created_at: OffsetDateTime,
    pub expires_at: OffsetDateTime,
    pub used_at: Option<OffsetDateTime>,
}

/// Not used yet and not expired.
pub open spec fn usable(link: SigninLink, now: (int, int, int)) -> bool {
    link.used_at is None && instant(now) < instant(link.expires_at@)
}

/// A link that is no longer usable never is again.
pub proof fn a_spent_link_stays_spent(
    link: SigninLink,
    now: (int, int, int),
    later: (int, int, int),
)
    requires
        !usable(link, now),
        instant(now) <= instant(later),
    ensures
        !usable(link, later),
{
}

impl SigninLink {
    /// Not used yet and not expired.
    pub fn is_usable(&self, now: OffsetDateTime) -> (r: bool)
        ensures
            r == usable(*self, now@),
    {
        self.used_at.is_none() && now.before(&self.expires_at)
    }
}

// ---------------------------------------------------------------------------
// Timestamps
// ---------------------------------------------------------------------------

/// The present moment as it is stored.
pub fn now_text() -> (r: Result<String, StoreError>)
    ensures
        exists|now: (int, int, int)| #[trigger]
            real_instant(now) && now.2 == 0 && stamped(now, r),
{
    let now = OffsetDateTime::now_utc();
    let r = stamp(now);
    assert(real_instant(now@) && now@.2 == 0 && stamped(now@, r));
    r
}

/// `r` is what storing the instant `at` comes to: a text that reads back as the
/// same instant, or the refusal of one RFC 3339 cannot write.
pub open spec fn stamped(at: (int, int, int), r: Result<String, StoreError>) -> bool {
    &&& r is Ok <==> writable(at)
    &&& match r {
        Ok(raw) => {
            &&& rfc3339_text(at.0 + at.2, at.1, at.2) matches Ok(written) && written == raw@
            &&& reads_as(raw@, at)
        },
        Err(e) => {
            &&& rfc3339_text(at.0 + at.2, at.1, at.2) matches Err(words) && e.deep_view()
                == Fault::Corrupt("timestamp: "@ + words)
        },
    }
}

/// An instant as it is stored.
pub fn stamp(at: OffsetDateTime) -> (r: Result<String, StoreError>)
    ensures
        stamped(at@, r),
{
    match at.format() {
        Ok(raw) => Ok(raw),
        Err(words) => Err(StoreError::Corrupt(text::join2("timestamp: ", words.as_str()))),
    }
}

/// What keeps a stored timestamp from being read.
pub open spec fn stamp_fault(raw: Seq<char>) -> Option<Fault> {
    match rfc3339_read(raw) {
        Ok(_) => None,
        Err(words) => Some(
            Fault::Corrupt("timestamp "@ + text::quoted(raw) + ": "@ + words),
        ),
    }
}

/// Reads a stored timestamp.
pub fn parse_stamp(raw: &str) -> (r: Result<OffsetDateTime, StoreError>)
    ensures
        match r {
            Ok(at) => stamp_fault(raw@) is None && reads_as(raw@, at@),
            Err(e) => stamp_fault(raw@) == Some(e.deep_view()),
        },
{
    match OffsetDateTime::parse(raw) {
        Ok(at) => Ok(at),
        Err(words) => {
            let quoted = text::join2("timestamp ", text::quoted_text(raw).as_str());
            Err(StoreError::Corrupt(text::join3(quoted.as_str(), ": ", words.as_str())))
        },
    }
}

// ---------------------------------------------------------------------------
// Laws
// ---------------------------------------------------------------------------

/// A link is usable while it is unused and the moment it expires has not come: to
/// the nanosecond before it, and not at it.
pub proof fn a_link_is_usable_until_it_expires(link: SigninLink, now: (int, int, int))
    ensures
        link.used_at is Some ==> !usable(link, now),
        instant(now) >= instant(link.expires_at@) ==> !usable(link, now),
        link.used_at is None && instant(now) <= instant(link.expires_at@) - 1 ==> usable(link, now),
{
}

/// The words of the roles and of the policies are their own: each reads back as
/// what it was written for, and no other word is a role.
pub proof fn a_role_is_its_word(role: Role, raw: Seq<char>)
    ensures
        role_named(role_word(role)) == Some(role),
        role_named(raw) matches Some(read) ==> raw == role_word(read),
        role_named("admin"@) == Some(Role::Admin),
        role_named("member"@) == Some(Role::Member),
        role_named("viewer"@) == Some(Role::Viewer),
        role_named(raw) is Some ==> raw == "admin"@ || raw == "member"@ || raw == "viewer"@,
        policy_word(DeletePolicy::Anyone) == "anyone"@,
        policy_word(DeletePolicy::Admin) == "admin"@,
{
    reveal_strlit("admin");
    reveal_strlit("member");
    reveal_strlit("viewer");
    assert("admin"@[0] == 'a' && "member"@[0] == 'm' && "viewer"@[0] == 'v');
}

/// An error is told with the words it was given.
pub proof fn an_error_is_told_in_its_words(words: Seq<char>)
    ensures
        words.is_suffix_of(fault_text(Fault::Backend(words))),
        words.is_suffix_of(fault_text(Fault::Corrupt(words))),
        words.is_prefix_of(fault_text(Fault::Conflict(words))),
        fault_text(Fault::NotFound) == "not found"@,
        fault_text(Fault::Backend(words)) != fault_text(Fault::Corrupt(words)),
{
    let told = fault_text(Fault::Backend(words));
    assert(told.subrange(told.len() - words.len(), told.len() as int) =~= words);
    let other = fault_text(Fault::Corrupt(words));
    assert(other.subrange(other.len() - words.len(), other.len() as int) =~= words);
    let third = fault_text(Fault::Conflict(words));
    assert(third.subrange(0, words.len() as int) =~= words);
    reveal_strlit("database: ");
    reveal_strlit("stored value is not valid: ");
    assert(told.len() != other.len());
}

/// A timestamp that does not read is told with the text that was stored and the
/// words of the refusal; one that reads is no fault.
pub proof fn an_unreadable_stamp_is_told(raw: Seq<char>)
    ensures
        stamp_fault(raw) is None <==> rfc3339_read(raw) is Ok,
        rfc3339_read(raw) matches Err(words) ==> (stamp_fault(raw) matches Some(
            Fault::Corrupt(told),
        ) && text::holds_text(told, text::quoted(raw)) && words.is_suffix_of(told)),
{
    if let Err(words) = rfc3339_read(raw) {
        let told = "timestamp "@ + text::quoted(raw) + ": "@ + words;
        let at = "timestamp "@.len() as int;
        assert(told.subrange(at, at + text::quoted(raw).len()) =~= text::quoted(raw));
        assert(text::stands_at(told, text::quoted(raw), at));
        assert(told.subrange(told.len() - words.len(), told.len() as int) =~= words);
    }
}

/// An instant is stored exactly where RFC 3339 can write it, and what is stored
/// reads back as that instant.
pub proof fn a_stored_instant_reads_back(at: (int, int, int), r: Result<String, StoreError>)
    requires
        stamped(at, r),
    ensures
        r is Ok <==> writable(at),
        r matches Ok(raw) ==> rfc3339_read(raw@) == Ok::<(int, int, int), Seq<char>>(at),
        r matches Err(e) ==> e.deep_view() is Corrupt,
{
}

} // verus!
