//! Records out of rows. A row hands over every cell as the database read it:
//! the value, or the words of the refusal.

use crate::clock::{reads_as, OffsetDateTime};
use crate::store::{
    backend, parse_stamp, policy_word, role_named, stamp_fault, DeletePolicy, Fault, Role,
    SigninLink, StoreError, User, Workspace,
};
use crate::text;
use vstd::prelude::*;

verus! {

/// One cell: its value, or the database's words on why it has none.
pub type Cell<T> = Result<T, String>;

/// The cells of a workspace row, in the order they are selected.
pub struct WorkspaceRow {
    pub id: Cell<String>,
    pub name: Cell<String>,
    pub created_at: Cell<String>,
    pub smtp_host: Cell<Option<String>>,
    pub smtp_port: Cell<Option<u32>>,
    pub smtp_username: Cell<Option<String>>,
    pub smtp_from_name: Cell<Option<String>>,
    pub smtp_from_address: Cell<Option<String>>,
    pub attachment_limit_bytes: Cell<i64>,
    pub allowed_file_types: Cell<String>,
    pub photo_limit_bytes: Cell<i64>,
    pub who_can_delete_tasks: Cell<String>,
}

/// The cells of an account row, in the order they are selected.
pub struct UserRow {
    pub id: Cell<String>,
    pub workspace_id: Cell<String>,
    pub email: Cell<String>,
    pub display_name: Cell<String>,
    pub role: Cell<String>,
    pub password_hash: Cell<Option<String>>,
    pub photo_path: Cell<Option<String>>,
    pub created_at: Cell<String>,
    pub last_signed_in_at: Cell<Option<String>>,
}

/// The cells of a sign-in link row, in the order they are selected.
pub struct SigninLinkRow {
    pub id: Cell<String>,
    pub user_id: Cell<String>,
    pub created_at: Cell<String>,
    pub expires_at: Cell<String>,
    pub used_at: Cell<Option<String>>,
}

// ---------------------------------------------------------------------------
// Refusals
// ---------------------------------------------------------------------------

/// The first fault in a list is this one.
pub open spec fn refused_with(faults: Seq<Option<Fault>>, fault: Fault) -> bool {
    exists|k: int|
        0 <= k < faults.len() && #[trigger] faults[k] == Some(fault) && forall|j: int|
            0 <= j < k ==> (#[trigger] faults[j]) is None
}

/// No fault at all.
pub open spec fn sound(faults: Seq<Option<Fault>>) -> bool {
    forall|j: int| 0 <= j < faults.len() ==> (#[trigger] faults[j]) is None
}

/// A list is sound, or it refuses, and then with one fault alone.
pub proof fn a_refusal_has_one_fault(faults: Seq<Option<Fault>>, one: Fault, other: Fault)
    ensures
        refused_with(faults, one) ==> !sound(faults),
        refused_with(faults, one) && refused_with(faults, other) ==> one == other,
{
    if refused_with(faults, one) && refused_with(faults, other) {
        let k = choose|k: int|
            0 <= k < faults.len() && #[trigger] faults[k] == Some(one) && forall|j: int|
                0 <= j < k ==> (#[trigger] faults[j]) is None;
        let l = choose|l: int|
            0 <= l < faults.len() && #[trigger] faults[l] == Some(other) && forall|j: int|
                0 <= j < l ==> (#[trigger] faults[j]) is None;
        assert(k == l) by {
            if k < l {
                assert(faults[k] is None);
            } else if l < k {
                assert(faults[l] is None);
            }
        }
    }
}

/// A cell the database refused.
pub open spec fn cell_fault<T>(cell: Cell<T>) -> Option<Fault> {
    match cell {
        Ok(_) => None,
        Err(words) => Some(Fault::Backend(words@)),
    }
}

/// A timestamp cell that cannot be had or cannot be read.
pub open spec fn stamp_cell_fault(cell: Cell<String>) -> Option<Fault> {
    match cell {
        Ok(raw) => stamp_fault(raw@),
        Err(words) => Some(Fault::Backend(words@)),
    }
}

/// The same of a timestamp that may be missing.
pub open spec fn opt_stamp_cell_fault(cell: Cell<Option<String>>) -> Option<Fault> {
    match cell {
        Ok(Some(raw)) => stamp_fault(raw@),
        Ok(None) => None,
        Err(words) => Some(Fault::Backend(words@)),
    }
}

/// A file type list that cannot be had or cannot be read.
pub open spec fn types_cell_fault(cell: Cell<String>) -> Option<Fault> {
    match cell {
        Ok(raw) => match listed_types(raw@) {
            Ok(_) => None,
            Err(words) => Some(Fault::Corrupt("allowed_file_types: "@ + words)),
        },
        Err(words) => Some(Fault::Backend(words@)),
    }
}

/// A delete policy that cannot be had or is none.
pub open spec fn policy_cell_fault(cell: Cell<String>) -> Option<Fault> {
    match cell {
        Ok(raw) => if raw@ == policy_word(DeletePolicy::Anyone) || raw@ == policy_word(
            DeletePolicy::Admin,
        ) {
            None
        } else {
            Some(Fault::Corrupt("delete policy "@ + text::quoted(raw@)))
        },
        Err(words) => Some(Fault::Backend(words@)),
    }
}

/// A role that cannot be had or is none.
pub open spec fn role_cell_fault(cell: Cell<String>) -> Option<Fault> {
    match cell {
        Ok(raw) => if role_named(raw@) is Some {
            None
        } else {
            Some(Fault::Corrupt("role"@))
        },
        Err(words) => Some(Fault::Backend(words@)),
    }
}

/// A cell's text.
pub fn text_cell(cell: Cell<String>) -> (r: Result<String, StoreError>)
    ensures
        match r {
            Ok(value) => cell == Ok::<String, String>(value),
            Err(e) => cell_fault(cell) == Some(e.deep_view()),
        },
{
    match cell {
        Ok(value) => Ok(value),
        Err(words) => Err(backend(words)),
    }
}

/// A cell's text, if the cell holds any.
pub fn opt_text_cell(cell: Cell<Option<String>>) -> (r: Result<Option<String>, StoreError>)
    ensures
        match r {
            Ok(value) => cell == Ok::<Option<String>, String>(value),
            Err(e) => cell_fault(cell) == Some(e.deep_view()),
        },
{
    match cell {
        Ok(value) => Ok(value),
        Err(words) => Err(backend(words)),
    }
}

/// A cell's timestamp.
pub fn stamp_cell(cell: Cell<String>) -> (r: Result<OffsetDateTime, StoreError>)
    ensures
        match r {
            Ok(at) => stamp_cell_fault(cell) is None && reads_as(cell->Ok_0@, at@),
            Err(e) => stamp_cell_fault(cell) == Some(e.deep_view()),
        },
{
    match cell {
        Ok(raw) => parse_stamp(raw.as_str()),
        Err(words) => Err(backend(words)),
    }
}

/// `at` is what a timestamp cell that may be missing holds.
pub open spec fn holds_stamp(
    cell: Cell<Option<String>>,
    at: Option<OffsetDateTime>,
) -> bool {
    match cell {
        Ok(Some(raw)) => at matches Some(read) && reads_as(raw@, read@),
        Ok(None) => at is None,
        Err(_) => false,
    }
}

/// A cell's timestamp, if the cell holds any.
pub fn opt_stamp_cell(cell: Cell<Option<String>>) -> (r: Result<
    Option<OffsetDateTime>,
    StoreError,
>)
    ensures
        match r {
            Ok(at) => opt_stamp_cell_fault(cell) is None && holds_stamp(cell, at),
            Err(e) => opt_stamp_cell_fault(cell) == Some(e.deep_view()),
        },
{
    match cell {
        Ok(Some(raw)) => match parse_stamp(raw.as_str()) {
            Ok(at) => Ok(Some(at)),
            Err(e) => Err(e),
        },
        Ok(None) => Ok(None),
        Err(words) => Err(backend(words)),
    }
}

// ---------------------------------------------------------------------------
// Counts and limits
// ---------------------------------------------------------------------------

/// A stored count as a number: nothing is less than zero.
pub open spec fn counted(stored: i64) -> u64 {
    if stored < 0 {
        0
    } else {
        stored as u64
    }
}

/// A number of bytes as it is stored: the same 64 bits, read as signed.
pub open spec fn stored_limit(bytes: u64) -> i64 {
    if bytes <= i64::MAX {
        bytes as i64
    } else {
        (bytes - 0x1_0000_0000_0000_0000) as i64
    }
}

pub fn count_of(stored: i64) -> (r: u64)
    ensures
        r == counted(stored),
{
    if stored < 0 {
        0
    } else {
        stored as u64
    }
}

pub fn limit_of(bytes: u64) -> (r: i64)
    ensures
        r == stored_limit(bytes),
{
    if bytes <= i64::MAX as u64 {
        bytes as i64
    } else {
        -1 - ((u64::MAX - bytes) as i64)
    }
}

/// A limit that fits a signed number survives being stored.
pub proof fn a_limit_survives_storage(bytes: u64)
    requires
        bytes <= i64::MAX,
    ensures
        counted(stored_limit(bytes)) == bytes,
{
}

// ---------------------------------------------------------------------------
// File type lists
// ---------------------------------------------------------------------------

/// What serde_json reads out of a text as a list of strings: the strings, or
/// the words of the refusal.
pub uninterp spec fn json_strings(json: Seq<char>) -> Result<Seq<Seq<char>>, Seq<char>>;

/// The JSON serde_json writes for a list of strings.
pub uninterp spec fn json_list(strings: Seq<Seq<char>>) -> Seq<char>;

/// A reading's strings as sequences of characters, or its refusal as one.
pub open spec fn strings_of(r: Result<Vec<String>, String>) -> Result<Seq<Seq<char>>, Seq<char>> {
    match r {
        Ok(strings) => Ok(strings.deep_view()),
        Err(words) => Err(words@),
    }
}

/// A text reads as this list of strings.
pub open spec fn lists(json: Seq<char>, strings: Seq<Seq<char>>) -> bool {
    json_strings(json) matches Ok(read) && read == strings
}

/// `serde_json::from_str` into a list of strings, its error in words.
#[verifier::external_body]
pub(crate) fn read_json_strings(json: &str) -> (r: Result<Vec<String>, String>)
    ensures
        strings_of(r) == json_strings(json@),
{
    serde_json::from_str::<Vec<String>>(json).map_err(|e| e.to_string())
}

/// `serde_json::to_string` on a list of strings, its error in words. Strings
/// always serialise, the text is an array, and `from_str` reads the same list
/// back out of it.
#[verifier::external_body]
pub(crate) fn write_json_strings(strings: &Vec<String>) -> (r: Result<String, String>)
    ensures
        r is Ok,
        r matches Ok(json) ==> json@ == json_list(strings.deep_view()),
        r matches Ok(json) ==> json@.len() > 0 && json@[0] == '[',
        r matches Ok(json) ==> lists(json@, strings.deep_view()),
{
    serde_json::to_string(strings).map_err(|e| e.to_string())
}

/// The file types a stored text lists: none for a blank one.
pub open spec fn listed_types(raw: Seq<char>) -> Result<Seq<Seq<char>>, Seq<char>> {
    if text::trim(raw).len() == 0 {
        Ok(Seq::empty())
    } else {
        json_strings(raw)
    }
}

/// Reads a stored file type list.
pub fn read_types(raw: &str) -> (r: Result<Vec<String>, StoreError>)
    ensures
        match r {
            Ok(types) => listed_types(raw@) matches Ok(read) && read == types.deep_view(),
            Err(e) => listed_types(raw@) matches Err(words) && e.deep_view() == Fault::Corrupt(
                "allowed_file_types: "@ + words,
            ),
        },
{
    if text::chars_of(text::trimmed(raw).as_str()).len() == 0 {
        let none: Vec<String> = Vec::new();
        assert(none.deep_view() =~= Seq::<Seq<char>>::empty());
        Ok(none)
    } else {
        match read_json_strings(raw) {
            Ok(types) => Ok(types),
            Err(words) => Err(
                StoreError::Corrupt(text::join2("allowed_file_types: ", words.as_str())),
            ),
        }
    }
}

/// Writes a file type list the way it is stored. What was written reads back as
/// the same list.
pub fn write_types(types: &Vec<String>) -> (r: Result<String, StoreError>)
    ensures
        r is Ok,
        r matches Ok(json) ==> json@ == json_list(types.deep_view()),
        r matches Ok(json) ==> (listed_types(json@) matches Ok(read) && read
            == types.deep_view()),
{
    match write_json_strings(types) {
        Ok(json) => {
            proof {
                text::a_text_with_a_mark_is_not_blank(json@, 0);
            }
            Ok(json)
        },
        Err(words) => Err(
            StoreError::Corrupt(text::join2("allowed_file_types: ", words.as_str())),
        ),
    }
}

// ---------------------------------------------------------------------------
// Whole rows
// ---------------------------------------------------------------------------

/// What can be wrong with a workspace row, in the order it is read.
pub open spec fn workspace_faults(row: WorkspaceRow) -> Seq<Option<Fault>> {
    seq![
        types_cell_fault(row.allowed_file_types),
        cell_fault(row.id),
        cell_fault(row.name),
        stamp_cell_fault(row.created_at),
        cell_fault(row.smtp_host),
        cell_fault(row.smtp_port),
        cell_fault(row.smtp_username),
        cell_fault(row.smtp_from_name),
        cell_fault(row.smtp_from_address),
        cell_fault(row.attachment_limit_bytes),
        cell_fault(row.photo_limit_bytes),
        policy_cell_fault(row.who_can_delete_tasks),
    ]
}

/// `workspace` is the record a sound row holds.
pub open spec fn holds_workspace(row: WorkspaceRow, workspace: Workspace) -> bool {
    &&& row.id == Ok::<String, String>(workspace.id)
    &&& row.name == Ok::<String, String>(workspace.name)
    &&& row.created_at matches Ok(raw) && reads_as(raw@, workspace.created_at@)
    &&& row.smtp_host == Ok::<Option<String>, String>(workspace.smtp_host)
    &&& row.smtp_port == Ok::<Option<u32>, String>(workspace.smtp_port)
    &&& row.smtp_username == Ok::<Option<String>, String>(workspace.smtp_username)
    &&& row.smtp_from_name == Ok::<Option<String>, String>(workspace.smtp_from_name)
    &&& row.smtp_from_address == Ok::<Option<String>, String>(workspace.smtp_from_address)
    &&& row.attachment_limit_bytes matches Ok(stored) && workspace.attachment_limit_bytes
        == counted(stored)
    &&& row.allowed_file_types matches Ok(raw) && (listed_types(raw@) matches Ok(types) && types
        == workspace.allowed_file_types.deep_view())
    &&& row.photo_limit_bytes matches Ok(stored) && workspace.photo_limit_bytes == counted(stored)
    &&& row.who_can_delete_tasks matches Ok(raw) && raw@ == policy_word(
        workspace.who_can_delete_tasks,
    )
}

/// Reads a workspace row.
pub fn workspace_from(row: WorkspaceRow) -> (r: Result<Workspace, StoreError>)
    ensures
        match r {
            Ok(workspace) => sound(workspace_faults(row)) && holds_workspace(row, workspace),
            Err(e) => refused_with(workspace_faults(row), e.deep_view()),
        },
{
    let ghost faults = workspace_faults(row);
    let types_json = match text_cell(row.allowed_file_types) {
        Ok(raw) => raw,
        Err(e) => {
            assert(faults[0] == Some(e.deep_view()));
            return Err(e);
        },
    };
    let allowed_file_types = match read_types(types_json.as_str()) {
        Ok(types) => types,
        Err(e) => {
            assert(faults[0] == Some(e.deep_view()));
            return Err(e);
        },
    };
    assert(faults[0] is None);
    let id = match text_cell(row.id) {
        Ok(value) => value,
        Err(e) => {
            assert(faults[1] == Some(e.deep_view()));
            return Err(e);
        },
    };
    let name = match text_cell(row.name) {
        Ok(value) => value,
        Err(e) => {
            assert(faults[2] == Some(e.deep_view()));
            return Err(e);
        },
    };
    let created_at = match stamp_cell(row.created_at) {
        Ok(value) => value,
        Err(e) => {
            assert(faults[3] == Some(e.deep_view()));
            return Err(e);
        },
    };
    let smtp_host = match opt_text_cell(row.smtp_host) {
        Ok(value) => value,
        Err(e) => {
            assert(faults[4] == Some(e.deep_view()));
            return Err(e);
        },
    };
    let smtp_port: Option<u32> = match row.smtp_port {
        Ok(value) => value,
        Err(words) => {
            assert(faults[5] == Some(Fault::Backend(words@)));
            return Err(backend(words));
        },
    };
    let smtp_username = match opt_text_cell(row.smtp_username) {
        Ok(value) => value,
        Err(e) => {
            assert(faults[6] == Some(e.deep_view()));
            return Err(e);
        },
    };
    let smtp_from_name = match opt_text_cell(row.smtp_from_name) {
        Ok(value) => value,
        Err(e) => {
            assert(faults[7] == Some(e.deep_view()));
            return Err(e);
        },
    };
    let smtp_from_address = match opt_text_cell(row.smtp_from_address) {
        Ok(value) => value,
        Err(e) => {
            assert(faults[8] == Some(e.deep_view()));
            return Err(e);
        },
    };
    let attachment_limit_bytes: u64 = match row.attachment_limit_bytes {
        Ok(stored) => count_of(stored),
        Err(words) => {
            assert(faults[9] == Some(Fault::Backend(words@)));
            return Err(backend(words));
        },
    };
    let photo_limit_bytes: u64 = match row.photo_limit_bytes {
        Ok(stored) => count_of(stored),
        Err(words) => {
            assert(faults[10] == Some(Fault::Backend(words@)));
            return Err(backend(words));
        },
    };
    let policy = match text_cell(row.who_can_delete_tasks) {
        Ok(value) => value,
        Err(e) => {
            assert(faults[11] == Some(e.deep_view()));
            return Err(e);
        },
    };
    let who_can_delete_tasks = match DeletePolicy::parse(policy.as_str()) {
        Ok(value) => value,
        Err(e) => {
            assert(faults[11] == Some(e.deep_view()));
            return Err(e);
        },
    };
    Ok(
        Workspace {
            id,
            name,
            created_at,
            smtp_host,
            smtp_port,
            smtp_username,
            smtp_from_name,
            smtp_from_address,
            attachment_limit_bytes,
            photo_limit_bytes,
            allowed_file_types,
            who_can_delete_tasks,
        },
    )
}

/// What can be wrong with an account row, in the order it is read.
pub open spec fn user_faults(row: UserRow) -> Seq<Option<Fault>> {
    seq![
        cell_fault(row.id),
        cell_fault(row.workspace_id),
        cell_fault(row.email),
        cell_fault(row.display_name),
        role_cell_fault(row.role),
        cell_fault(row.password_hash),
        cell_fault(row.photo_path),
        stamp_cell_fault(row.created_at),
        opt_stamp_cell_fault(row.last_signed_in_at),
    ]
}

/// `user` is the record a sound row holds.
pub open spec fn holds_user(row: UserRow, user: User) -> bool {
    &&& row.id == Ok::<String, String>(user.id)
    &&& row.workspace_id == Ok::<String, String>(user.workspace_id)
    &&& row.email == Ok::<String, String>(user.email)
    &&& row.display_name == Ok::<String, String>(user.display_name)
    &&& row.role matches Ok(raw) && role_named(raw@) == Some(user.role)
    &&& row.password_hash == Ok::<Option<String>, String>(user.password_hash)
    &&& row.photo_path == Ok::<Option<String>, String>(user.photo_path)
    &&& row.created_at matches Ok(raw) && reads_as(raw@, user.created_at@)
    &&& holds_stamp(row.last_signed_in_at, user.last_signed_in_at)
}

/// Reads an account row.
pub fn user_from(row: UserRow) -> (r: Result<User, StoreError>)
    ensures
        match r {
            Ok(user) => sound(user_faults(row)) && holds_user(row, user),
            Err(e) => refused_with(user_faults(row), e.deep_view()),
        },
{
    let ghost faults = user_faults(row);
    let id = match text_cell(row.id) {
        Ok(value) => value,
        Err(e) => {
            assert(faults[0] == Some(e.deep_view()));
            return Err(e);
        },
    };
    let workspace_id = match text_cell(row.workspace_id) {
        Ok(value) => value,
        Err(e) => {
            assert(faults[1] == Some(e.deep_view()));
            return Err(e);
        },
    };
    let email = match text_cell(row.email) {
        Ok(value) => value,
        Err(e) => {
            assert(faults[2] == Some(e.deep_view()));
            return Err(e);
        },
    };
    let display_name = match text_cell(row.display_name) {
        Ok(value) => value,
        Err(e) => {
            assert(faults[3] == Some(e.deep_view()));
            return Err(e);
        },
    };
    let role_text = match text_cell(row.role) {
        Ok(value) => value,
        Err(e) => {
            assert(faults[4] == Some(e.deep_view()));
            return Err(e);
        },
    };
    let role = match Role::parse(role_text.as_str()) {
        Some(role) => role,
        None => {
            let e = StoreError::Corrupt("role".to_owned());
            assert(faults[4] == Some(e.deep_view()));
            return Err(e);
        },
    };
    let password_hash = match opt_text_cell(row.password_hash) {
        Ok(value) => value,
        Err(e) => {
            assert(faults[5] == Some(e.deep_view()));
            return Err(e);
        },
    };
    let photo_path = match opt_text_cell(row.photo_path) {
        Ok(value) => value,
        Err(e) => {
            assert(faults[6] == Some(e.deep_view()));
            return Err(e);
        },
    };
    let created_at = match stamp_cell(row.created_at) {
        Ok(value) => value,
        Err(e) => {
            assert(faults[7] == Some(e.deep_view()));
            return Err(e);
        },
    };
    let last_signed_in_at = match opt_stamp_cell(row.last_signed_in_at) {
        Ok(value) => value,
        Err(e) => {
            assert(faults[8] == Some(e.deep_view()));
            return Err(e);
        },
    };
    Ok(
        User {
            id,
            workspace_id,
            email,
            display_name,
            role,
            password_hash,
            photo_path,
            created_at,
            last_signed_in_at,
        },
    )
}

/// What can be wrong with a sign-in link row, in the order it is read.
pub open spec fn signin_link_faults(row: SigninLinkRow) -> Seq<Option<Fault>> {
    seq![
        cell_fault(row.id),
        cell_fault(row.user_id),
        stamp_cell_fault(row.created_at),
        stamp_cell_fault(row.expires_at),
        opt_stamp_cell_fault(row.used_at),
    ]
}

/// `link` is the record a sound row holds.
pub open spec fn holds_signin_link(row: SigninLinkRow, link: SigninLink) -> bool {
    &&& row.id == Ok::<String, String>(link.id)
    &&& row.user_id == Ok::<String, String>(link.user_id)
    &&& row.created_at matches Ok(raw) && reads_as(raw@, link.created_at@)
    &&& row.expires_at matches Ok(raw) && reads_as(raw@, link.expires_at@)
    &&& holds_stamp(row.used_at, link.used_at)
}

/// Reads a sign-in link row.
pub fn signin_link_from(row: SigninLinkRow) -> (r: Result<SigninLink, StoreError>)
    ensures
        match r {
            Ok(link) => sound(signin_link_faults(row)) && holds_signin_link(row, link),
            Err(e) => refused_with(signin_link_faults(row), e.deep_view()),
        },
{
    let ghost faults = signin_link_faults(row);
    let id = match text_cell(row.id) {
        Ok(value) => value,
        Err(e) => {
            assert(faults[0] == Some(e.deep_view()));
            return Err(e);
        },
    };
    let user_id = match text_cell(row.user_id) {
        Ok(value) => value,
        Err(e) => {
            assert(faults[1] == Some(e.deep_view()));
            return Err(e);
        },
    };
    let created_at = match stamp_cell(row.created_at) {
        Ok(value) => value,
        Err(e) => {
            assert(faults[2] == Some(e.deep_view()));
            return Err(e);
        },
    };
    let expires_at = match stamp_cell(row.expires_at) {
        Ok(value) => value,
        Err(e) => {
            assert(faults[3] == Some(e.deep_view()));
            return Err(e);
        },
    };
    let used_at = match opt_stamp_cell(row.used_at) {
        Ok(value) => value,
        Err(e) => {
            assert(faults[4] == Some(e.deep_view()));
            return Err(e);
        },
    };
    Ok(SigninLink { id, user_id, created_at, expires_at, used_at })
}

// ---------------------------------------------------------------------------
// Laws
// ---------------------------------------------------------------------------

/// A stored count is the number in the cell, and none where the cell holds less
/// than zero.
pub proof fn a_count_is_what_is_stored(stored: i64)
    ensures
        stored >= 0 ==> counted(stored) == stored,
        stored < 0 ==> counted(stored) == 0,
{
}

/// A limit is stored in the same 64 bits: what fits a signed number as itself,
/// and any other below zero, no two alike.
pub proof fn limits_are_stored_apart(one: u64, other: u64)
    ensures
        one <= i64::MAX ==> stored_limit(one) == one,
        one > i64::MAX ==> stored_limit(one) < 0 && stored_limit(one) + 0x1_0000_0000_0000_0000
            == one,
        one != other ==> stored_limit(one) != stored_limit(other),
{
}

/// A blank list allows every type, and any other is what it lists as JSON.
pub proof fn a_blank_list_is_no_list(raw: Seq<char>)
    ensures
        (forall|i: int| 0 <= i < raw.len() ==> text::white(#[trigger] raw[i])) ==> listed_types(
            raw,
        ) == Ok::<Seq<Seq<char>>, Seq<char>>(Seq::empty()),
        (exists|i: int| 0 <= i < raw.len() && !text::white(#[trigger] raw[i])) ==> listed_types(
            raw,
        ) == json_strings(raw),
{
    if exists|i: int| 0 <= i < raw.len() && !text::white(#[trigger] raw[i]) {
        let i = choose|i: int| 0 <= i < raw.len() && !text::white(#[trigger] raw[i]);
        text::a_text_with_a_mark_is_not_blank(raw, i);
    } else {
        let (a, b) = text::trimming_takes_white_space_alone(raw);
        if a < b {
            assert(!text::white(raw[a]));
        }
    }
}

/// A workspace says what the cells of its row say, and a row that says so is not
/// refused.
pub proof fn a_workspace_says_what_its_row_says(row: WorkspaceRow, workspace: Workspace)
    requires
        holds_workspace(row, workspace),
    ensures
        row.id matches Ok(id) && id@ == workspace.id@,
        row.name matches Ok(name) && name@ == workspace.name@,
        row.created_at matches Ok(raw) && reads_as(raw@, workspace.created_at@),
        row.smtp_host == Ok::<Option<String>, String>(workspace.smtp_host),
        row.smtp_port == Ok::<Option<u32>, String>(workspace.smtp_port),
        row.smtp_username == Ok::<Option<String>, String>(workspace.smtp_username),
        row.smtp_from_name == Ok::<Option<String>, String>(workspace.smtp_from_name),
        row.smtp_from_address == Ok::<Option<String>, String>(workspace.smtp_from_address),
        row.attachment_limit_bytes matches Ok(n) && (n >= 0 ==> workspace.attachment_limit_bytes
            == n),
        row.photo_limit_bytes matches Ok(n) && (n >= 0 ==> workspace.photo_limit_bytes == n),
        row.who_can_delete_tasks matches Ok(word) && word@ == policy_word(
            workspace.who_can_delete_tasks,
        ),
        row.allowed_file_types matches Ok(raw) && (listed_types(raw@) matches Ok(types) && types
            == workspace.allowed_file_types.deep_view()),
        sound(workspace_faults(row)),
{
}

/// An account says what the cells of its row say, and a row that says so is not
/// refused.
pub proof fn an_account_says_what_its_row_says(row: UserRow, user: User)
    requires
        holds_user(row, user),
    ensures
        row.id == Ok::<String, String>(user.id),
        row.workspace_id == Ok::<String, String>(user.workspace_id),
        row.email == Ok::<String, String>(user.email),
        row.display_name == Ok::<String, String>(user.display_name),
        row.password_hash == Ok::<Option<String>, String>(user.password_hash),
        row.photo_path == Ok::<Option<String>, String>(user.photo_path),
        row.role matches Ok(word) && role_named(word@) == Some(user.role),
        row.created_at matches Ok(raw) && reads_as(raw@, user.created_at@),
        row.last_signed_in_at matches Ok(None) ==> user.last_signed_in_at is None,
        row.last_signed_in_at matches Ok(Some(raw)) ==> (user.last_signed_in_at matches Some(at)
            && reads_as(raw@, at@)),
        sound(user_faults(row)),
{
}

/// A link says what the cells of its row say, and a row that says so is not
/// refused.
pub proof fn a_link_says_what_its_row_says(row: SigninLinkRow, link: SigninLink)
    requires
        holds_signin_link(row, link),
    ensures
        row.id == Ok::<String, String>(link.id),
        row.user_id == Ok::<String, String>(link.user_id),
        row.created_at matches Ok(raw) && reads_as(raw@, link.created_at@),
        row.expires_at matches Ok(raw) && reads_as(raw@, link.expires_at@),
        row.used_at matches Ok(None) ==> link.used_at is None,
        row.used_at matches Ok(Some(raw)) ==> (link.used_at matches Some(at) && reads_as(
            raw@,
            at@,
        )),
        sound(signin_link_faults(row)),
{
}

/// A cell that could not be had is told in the database's own words, whatever it
/// was to hold.
pub proof fn a_refused_cell_is_told(words: String)
    ensures
        cell_fault(Err::<String, String>(words)) == Some(Fault::Backend(words@)),
        stamp_cell_fault(Err(words)) == Some(Fault::Backend(words@)),
        opt_stamp_cell_fault(Err(words)) == Some(Fault::Backend(words@)),
        types_cell_fault(Err(words)) == Some(Fault::Backend(words@)),
        policy_cell_fault(Err(words)) == Some(Fault::Backend(words@)),
        role_cell_fault(Err(words)) == Some(Fault::Backend(words@)),
{
}

/// A row is refused with the fault of the first cell that has one.
pub proof fn the_first_fault_is_told(faults: Seq<Option<Fault>>, k: int, fault: Fault)
    requires
        0 <= k < faults.len(),
        faults[k] is Some,
        forall|j: int| 0 <= j < k ==> (#[trigger] faults[j]) is None,
    ensures
        !sound(faults),
        refused_with(faults, fault) <==> faults[k] == Some(fault),
{
    assert(!(faults[k] is None));
    if faults[k] == Some(fault) {
        assert(refused_with(faults, fault));
    }
    if refused_with(faults, fault) {
        a_refusal_has_one_fault(faults, fault, faults[k]->0);
        assert(refused_with(faults, faults[k]->0));
    }
}

/// A workspace whose file types do not read is refused for that, whatever else is
/// wrong with its row.
pub proof fn file_types_are_read_first(row: WorkspaceRow, fault: Fault)
    requires
        types_cell_fault(row.allowed_file_types) is Some,
    ensures
        refused_with(workspace_faults(row), fault) <==> types_cell_fault(row.allowed_file_types)
            == Some(fault),
{
    the_first_fault_is_told(workspace_faults(row), 0, fault);
}

} // verus!
