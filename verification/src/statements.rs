//! Every statement the store runs, and what its replies come to.

use crate::clock::{instant, reads_as, real_instant, writable, OffsetDateTime};
use crate::rows::{
    a_limit_survives_storage, a_refusal_has_one_fault, cell_fault, count_of, counted,
    holds_signin_link, holds_user, holds_workspace, json_list, limit_of, listed_types,
    opt_text_cell, refused_with, signin_link_faults, signin_link_from, sound, stored_limit,
    user_faults, user_from, workspace_faults, workspace_from, write_types, Cell, SigninLinkRow,
    UserRow, WorkspaceRow,
};
use crate::store::{
    backend, now_text, policy_word, role_named, role_word, stamp, stamped, usable, DeletePolicy,
    Fault, NewUser, Role, SigninLink, StoreError, User, Workspace,
};
use crate::text;
use vstd::prelude::*;

verus! {

// ---------------------------------------------------------------------------
// Statements
// ---------------------------------------------------------------------------

/// A value bound to a statement.
#[derive(Debug, Clone, PartialEq, Eq)]
pub enum Value {
    Null,
    Integer(i64),
    Text(String),
}

/// A statement and the values bound to its parameters, `?1` first.
#[derive(Debug, Clone, PartialEq, Eq)]
pub struct Statement {
    pub sql: String,
    pub params: Vec<Value>,
}

/// What a [`Value`] binds.
pub enum Bound {
    Null,
    Integer(int),
    Text(Seq<char>),
}

impl DeepView for Value {
    type V = Bound;

    open spec fn deep_view(&self) -> Bound {
        match self {
            Value::Null => Bound::Null,
            Value::Integer(n) => Bound::Integer(*n as int),
            Value::Text(s) => Bound::Text(s@),
        }
    }
}

impl Statement {
    /// The statement's text and what is bound to it.
    pub open spec fn says(self, sql: Seq<char>, params: Seq<Bound>) -> bool {
        self.sql@ == sql && self.params.deep_view() == params
    }
}

fn text_value(s: &str) -> (r: Value)
    ensures
        r.deep_view() == Bound::Text(s@),
{
    Value::Text(s.to_owned())
}

/// The columns of a workspace row, in order.
pub const WORKSPACE_COLUMNS: &'static str = "id, name, created_at, smtp_host, smtp_port, smtp_username, smtp_from_name, smtp_from_address, attachment_limit_bytes, allowed_file_types, photo_limit_bytes, who_can_delete_tasks";

/// The columns of an account row, in order.
pub const USER_COLUMNS: &'static str = "id, workspace_id, email, display_name, role, password_hash, photo_path, created_at, last_signed_in_at";

/// The columns of a sign-in link row, in order.
pub const SIGNIN_LINK_COLUMNS: &'static str = "id, user_id, created_at, expires_at, used_at";

// ---------------------------------------------------------------------------
// Addresses and ids
// ---------------------------------------------------------------------------

/// An address as it is matched: without the white space around it, in lower
/// case.
pub open spec fn folded_email(email: Seq<char>) -> Seq<char> {
    text::lowercase(text::trim(email))
}

/// Addresses are matched case-insensitively, by this key; the display form is
/// kept as typed.
pub fn fold_email(email: &str) -> (r: String)
    ensures
        r@ == folded_email(email@),
{
    text::lower_text(text::trimmed(email).as_str())
}

/// A random identifier in its hyphenated form: thirty-two lower-case
/// hexadecimal digits in groups of 8, 4, 4, 4 and 12, with the version digit 4
/// and the variant digit 8, 9, a or b.
pub open spec fn is_random_id(s: Seq<char>) -> bool {
    &&& s.len() == 36
    &&& forall|i: int|
        0 <= i < 36 ==> if i == 8 || i == 13 || i == 18 || i == 23 {
            #[trigger] s[i] == '-'
        } else {
            text::is_digit(s[i]) || ('a' <= s[i] && s[i] <= 'f')
        }
    &&& s[14] == '4'
    &&& s[19] == '8' || s[19] == '9' || s[19] == 'a' || s[19] == 'b'
}

/// `uuid::Uuid::new_v4`, hyphenated. Which identifier it is, chance decides.
#[verifier::external_body]
pub(crate) fn fresh_id() -> (r: String)
    ensures
        is_random_id(r@),
{
    uuid::Uuid::new_v4().to_string()
}

// ---------------------------------------------------------------------------
// Replies
// ---------------------------------------------------------------------------

/// `r` is what the reply to an update that has to hit a row comes to.
pub open spec fn touch_read(reply: Result<u64, String>, r: Result<(), StoreError>) -> bool {
    match reply {
        Ok(n) => match r {
            Ok(_) => n > 0,
            Err(e) => n == 0 && e.deep_view() == Fault::NotFound,
        },
        Err(words) => r matches Err(e) && e.deep_view() == Fault::Backend(words@),
    }
}

/// What an update that has to hit a row comes to.
pub fn touched(reply: Result<u64, String>) -> (r: Result<(), StoreError>)
    ensures
        touch_read(reply, r),
{
    match reply {
        Ok(n) => if n == 0 {
            Err(StoreError::NotFound)
        } else {
            Ok(())
        },
        Err(words) => Err(backend(words)),
    }
}

/// What a write that need not hit a row comes to.
pub fn acknowledged(reply: Result<u64, String>) -> (r: Result<(), StoreError>)
    ensures
        match reply {
            Ok(_) => r is Ok,
            Err(words) => r matches Err(e) && e.deep_view() == Fault::Backend(words@),
        },
{
    match reply {
        Ok(_) => Ok(()),
        Err(words) => Err(backend(words)),
    }
}

/// A record that has to be there.
pub fn found<T>(record: Result<Option<T>, StoreError>) -> (r: Result<T, StoreError>)
    ensures
        match record {
            Ok(Some(value)) => r == Ok::<T, StoreError>(value),
            Ok(None) => r matches Err(e) && e.deep_view() == Fault::NotFound,
            Err(e) => r == Err::<T, StoreError>(e),
        },
{
    match record {
        Ok(Some(value)) => Ok(value),
        Ok(None) => Err(StoreError::NotFound),
        Err(e) => Err(e),
    }
}

/// `r` is what the reply to a workspace query reads as.
pub open spec fn workspace_read(
    reply: Result<Option<WorkspaceRow>, String>,
    r: Result<Option<Workspace>, StoreError>,
) -> bool {
    match reply {
        Err(words) => r matches Err(e) && e.deep_view() == Fault::Backend(words@),
        Ok(None) => r matches Ok(found) && found is None,
        Ok(Some(row)) => match r {
            Ok(Some(workspace)) => sound(workspace_faults(row)) && holds_workspace(row, workspace),
            Ok(None) => false,
            Err(e) => refused_with(workspace_faults(row), e.deep_view()),
        },
    }
}

pub fn read_workspace(reply: Result<Option<WorkspaceRow>, String>) -> (r: Result<
    Option<Workspace>,
    StoreError,
>)
    ensures
        workspace_read(reply, r),
{
    match reply {
        Ok(Some(row)) => match workspace_from(row) {
            Ok(workspace) => Ok(Some(workspace)),
            Err(e) => Err(e),
        },
        Ok(None) => Ok(None),
        Err(words) => Err(backend(words)),
    }
}

/// `r` is what the reply to an account query reads as.
pub open spec fn user_read(
    reply: Result<Option<UserRow>, String>,
    r: Result<Option<User>, StoreError>,
) -> bool {
    match reply {
        Err(words) => r matches Err(e) && e.deep_view() == Fault::Backend(words@),
        Ok(None) => r matches Ok(found) && found is None,
        Ok(Some(row)) => match r {
            Ok(Some(user)) => sound(user_faults(row)) && holds_user(row, user),
            Ok(None) => false,
            Err(e) => refused_with(user_faults(row), e.deep_view()),
        },
    }
}

pub fn read_user(reply: Result<Option<UserRow>, String>) -> (r: Result<Option<User>, StoreError>)
    ensures
        user_read(reply, r),
{
    match reply {
        Ok(Some(row)) => match user_from(row) {
            Ok(user) => Ok(Some(user)),
            Err(e) => Err(e),
        },
        Ok(None) => Ok(None),
        Err(words) => Err(backend(words)),
    }
}

/// `r` is what the reply to a sign-in link query reads as.
pub open spec fn signin_link_read(
    reply: Result<Option<SigninLinkRow>, String>,
    r: Result<Option<SigninLink>, StoreError>,
) -> bool {
    match reply {
        Err(words) => r matches Err(e) && e.deep_view() == Fault::Backend(words@),
        Ok(None) => r matches Ok(found) && found is None,
        Ok(Some(row)) => match r {
            Ok(Some(link)) => sound(signin_link_faults(row)) && holds_signin_link(row, link),
            Ok(None) => false,
            Err(e) => refused_with(signin_link_faults(row), e.deep_view()),
        },
    }
}

pub fn read_signin_link(reply: Result<Option<SigninLinkRow>, String>) -> (r: Result<
    Option<SigninLink>,
    StoreError,
>)
    ensures
        signin_link_read(reply, r),
{
    match reply {
        Ok(Some(row)) => match signin_link_from(row) {
            Ok(link) => Ok(Some(link)),
            Err(e) => Err(e),
        },
        Ok(None) => Ok(None),
        Err(words) => Err(backend(words)),
    }
}

/// What keeps one fetched row of the account list from being read.
pub open spec fn fetch_faults(fetched: Result<UserRow, String>) -> Seq<Option<Fault>> {
    match fetched {
        Ok(row) => user_faults(row),
        Err(words) => seq![Some(Fault::Backend(words@))],
    }
}

/// Reads the account list, one fetched row after the other; the first that
/// cannot be had or read ends it.
pub fn read_users(fetched: Vec<Result<UserRow, String>>) -> (r: Result<Vec<User>, StoreError>)
    ensures
        match r {
            Ok(users) => users@.len() == fetched@.len() && forall|i: int|
                0 <= i < fetched@.len() ==> {
                    &&& #[trigger] fetched@[i] matches Ok(row) && sound(user_faults(row))
                        && holds_user(row, users@[i])
                },
            Err(e) => exists|k: int|
                0 <= k < fetched@.len() && refused_with(
                    fetch_faults(#[trigger] fetched@[k]),
                    e.deep_view(),
                ) && forall|i: int| 0 <= i < k ==> sound(fetch_faults(#[trigger] fetched@[i])),
        },
{
    let ghost whole = fetched@;
    let mut users: Vec<User> = Vec::new();
    for one in it: fetched
        invariant
            it.seq() == whole,
            users@.len() == it.index(),
            forall|i: int|
                0 <= i < it.index() ==> {
                    &&& #[trigger] whole[i] matches Ok(row) && sound(user_faults(row))
                        && holds_user(row, users@[i])
                },
    {
        let ghost k = it.index() as int;
        assert(whole[k] == one);
        match one {
            Ok(row) => match user_from(row) {
                Ok(user) => {
                    users.push(user);
                },
                Err(e) => {
                    assert(refused_with(fetch_faults(whole[k]), e.deep_view()));
                    return Err(e);
                },
            },
            Err(words) => {
                assert(fetch_faults(whole[k])[0] == Some(Fault::Backend(words@)));
                assert(refused_with(fetch_faults(whole[k]), Fault::Backend(words@)));
                return Err(backend(words));
            },
        }
    }
    Ok(users)
}

/// The sender password's cell: a workspace that is not there is an error, a
/// password that was never set is nothing.
pub fn read_smtp_password(reply: Result<Option<Cell<Option<String>>>, String>) -> (r: Result<
    Option<String>,
    StoreError,
>)
    ensures
        match reply {
            Err(words) => r matches Err(e) && e.deep_view() == Fault::Backend(words@),
            Ok(None) => r matches Err(e) && e.deep_view() == Fault::NotFound,
            Ok(Some(cell)) => match r {
                Ok(password) => cell == Ok::<Option<String>, String>(password),
                Err(e) => cell_fault(cell) == Some(e.deep_view()),
            },
        },
{
    match reply {
        Ok(Some(cell)) => opt_text_cell(cell),
        Ok(None) => Err(StoreError::NotFound),
        Err(words) => Err(backend(words)),
    }
}

/// How many rows there are: no row at all is none.
pub fn read_count(reply: Result<Option<Cell<i64>>, String>) -> (r: Result<u64, StoreError>)
    ensures
        match reply {
            Err(words) => r matches Err(e) && e.deep_view() == Fault::Backend(words@),
            Ok(None) => r matches Ok(n) && n == 0,
            Ok(Some(Ok(stored))) => r matches Ok(n) && n == counted(stored),
            Ok(Some(Err(words))) => r matches Err(e) && e.deep_view() == Fault::Backend(words@),
        },
{
    match reply {
        Ok(Some(Ok(stored))) => Ok(count_of(stored)),
        Ok(Some(Err(words))) => Err(backend(words)),
        Ok(None) => Ok(0),
        Err(words) => Err(backend(words)),
    }
}

// ---------------------------------------------------------------------------
// The workspace
// ---------------------------------------------------------------------------

pub fn select_workspace() -> (r: Statement)
    ensures
        r.says("SELECT "@ + WORKSPACE_COLUMNS@ + " FROM workspace LIMIT 1"@, seq![]),
{
    let params: Vec<Value> = Vec::new();
    assert(params.deep_view() =~= seq![]);
    Statement { sql: text::join3("SELECT ", WORKSPACE_COLUMNS, " FROM workspace LIMIT 1"), params }
}

/// The statement puts a workspace in, with its id, its name and the moment it
/// was made.
pub open spec fn inserts_workspace(
    statement: Statement,
    id: Seq<char>,
    name: Seq<char>,
    moment: Seq<char>,
) -> bool {
    statement.says(
        "INSERT INTO workspace (id, name, created_at) VALUES (?1, ?2, ?3)"@,
        seq![Bound::Text(id), Bound::Text(name), Bound::Text(moment)],
    )
}

/// A stored moment: a text that reads as an instant in UTC.
pub open spec fn is_moment(moment: Seq<char>) -> bool {
    exists|at: (int, int, int)| at.2 == 0 && #[trigger] reads_as(moment, at)
}

/// The refusal of a clock that stands where RFC 3339 cannot write the year.
pub open spec fn clock_refused(e: StoreError) -> bool {
    exists|now: (int, int, int)| #[trigger]
        real_instant(now) && now.2 == 0 && stamped(now, Err(e))
}

/// Creating a workspace, once the one there may be has been looked up: a
/// database holds exactly one. The new row has the given id and the given
/// stored moment.
pub fn workspace_to_insert(
    existing: Result<Option<WorkspaceRow>, String>,
    name: &str,
    id: String,
    now: Result<String, StoreError>,
) -> (r: Result<Statement, StoreError>)
    ensures
        match existing {
            Err(words) => r matches Err(e) && e.deep_view() == Fault::Backend(words@),
            Ok(Some(row)) => r matches Err(e) && if sound(workspace_faults(row)) {
                e.deep_view() == Fault::Conflict("workspace"@)
            } else {
                refused_with(workspace_faults(row), e.deep_view())
            },
            Ok(None) => match now {
                Err(e) => r == Err::<Statement, StoreError>(e),
                Ok(moment) => r matches Ok(statement) && inserts_workspace(
                    statement,
                    id@,
                    name@,
                    moment@,
                ),
            },
        },
{
    let ghost faults = if existing is Ok && existing->Ok_0 is Some {
        workspace_faults(existing->Ok_0->0)
    } else {
        seq![]
    };
    match read_workspace(existing) {
        Err(e) => {
            proof {
                a_refusal_has_one_fault(faults, e.deep_view(), e.deep_view());
            }
            Err(e)
        },
        Ok(Some(_)) => Err(StoreError::Conflict("workspace")),
        Ok(None) => match now {
            Err(e) => Err(e),
            Ok(moment) => {
                let mut params: Vec<Value> = Vec::new();
                params.push(Value::Text(id));
                params.push(text_value(name));
                params.push(Value::Text(moment));
                assert(params.deep_view() =~= seq![
                    Bound::Text(id@),
                    Bound::Text(name@),
                    Bound::Text(moment@),
                ]);
                Ok(
                    Statement {
                        sql:
                            "INSERT INTO workspace (id, name, created_at) VALUES (?1, ?2, ?3)".to_owned(),
                        params,
                    },
                )
            },
        },
    }
}

/// Creating a workspace under a fresh id, at this moment: what
/// [`workspace_to_insert`] makes of them.
pub fn new_workspace(existing: Result<Option<WorkspaceRow>, String>, name: &str) -> (r: Result<
    Statement,
    StoreError,
>)
    ensures
        match existing {
            Err(words) => r matches Err(e) && e.deep_view() == Fault::Backend(words@),
            Ok(Some(row)) => r matches Err(e) && if sound(workspace_faults(row)) {
                e.deep_view() == Fault::Conflict("workspace"@)
            } else {
                refused_with(workspace_faults(row), e.deep_view())
            },
            Ok(None) => match r {
                Ok(statement) => exists|id: Seq<char>, moment: Seq<char>|
                    is_random_id(id) && is_moment(moment) && #[trigger] inserts_workspace(
                        statement,
                        id,
                        name@,
                        moment,
                    ),
                Err(e) => clock_refused(e),
            },
        },
{
    let id = fresh_id();
    let now = now_text();
    workspace_to_insert(existing, name, id, now)
}

/// The sender settings of a workspace.
pub struct Sender {
    pub host: Seq<char>,
    pub port: int,
    pub username: Seq<char>,
    pub password: Seq<char>,
    pub from_name: Seq<char>,
    pub from_address: Seq<char>,
}

/// The statement sets a workspace's sender.
pub open spec fn sets_sender(
    statement: Statement,
    workspace_id: Seq<char>,
    sender: Sender,
) -> bool {
    statement.says(
        "UPDATE workspace SET smtp_host = ?1, smtp_port = ?2, smtp_username = ?3, smtp_password = ?4, smtp_from_name = ?5, smtp_from_address = ?6 WHERE id = ?7"@,
        seq![
            Bound::Text(sender.host),
            Bound::Integer(sender.port),
            Bound::Text(sender.username),
            Bound::Text(sender.password),
            Bound::Text(sender.from_name),
            Bound::Text(sender.from_address),
            Bound::Text(workspace_id),
        ],
    )
}

/// Sets the sender of a workspace.
pub fn update_smtp(
    workspace_id: &str,
    host: &str,
    port: u32,
    username: &str,
    password: &str,
    from_name: &str,
    from_address: &str,
) -> (r: Statement)
    ensures
        sets_sender(
            r,
            workspace_id@,
            (Sender {
                host: host@,
                port: port as int,
                username: username@,
                password: password@,
                from_name: from_name@,
                from_address: from_address@,
            }),
        ),
{
    let mut params: Vec<Value> = Vec::new();
    params.push(text_value(host));
    params.push(Value::Integer(port as i64));
    params.push(text_value(username));
    params.push(text_value(password));
    params.push(text_value(from_name));
    params.push(text_value(from_address));
    params.push(text_value(workspace_id));
    assert(params.deep_view() =~= seq![
        Bound::Text(host@),
        Bound::Integer(port as int),
        Bound::Text(username@),
        Bound::Text(password@),
        Bound::Text(from_name@),
        Bound::Text(from_address@),
        Bound::Text(workspace_id@),
    ]);
    Statement {
        sql:
            "UPDATE workspace SET smtp_host = ?1, smtp_port = ?2, smtp_username = ?3, smtp_password = ?4, smtp_from_name = ?5, smtp_from_address = ?6 WHERE id = ?7".to_owned(),
        params,
    }
}

/// The sender password. Only the mailer asks.
pub fn select_smtp_password(workspace_id: &str) -> (r: Statement)
    ensures
        r.says(
            "SELECT smtp_password FROM workspace WHERE id = ?1"@,
            seq![Bound::Text(workspace_id@)],
        ),
{
    let mut params: Vec<Value> = Vec::new();
    params.push(text_value(workspace_id));
    assert(params.deep_view() =~= seq![Bound::Text(workspace_id@)]);
    Statement { sql: "SELECT smtp_password FROM workspace WHERE id = ?1".to_owned(), params }
}

/// The limits of a workspace.
pub struct Limits {
    pub attachment_bytes: u64,
    pub photo_bytes: u64,
    pub file_types: Seq<Seq<char>>,
    pub deletes: DeletePolicy,
}

/// The statement sets a workspace's limits. The file types go in as a list that
/// reads back as those types.
pub open spec fn sets_limits(
    statement: Statement,
    workspace_id: Seq<char>,
    limits: Limits,
) -> bool {
    &&& statement.says(
        "UPDATE workspace SET attachment_limit_bytes = ?1, photo_limit_bytes = ?2, allowed_file_types = ?3, who_can_delete_tasks = ?4 WHERE id = ?5"@,
        seq![
            Bound::Integer(stored_limit(limits.attachment_bytes) as int),
            Bound::Integer(stored_limit(limits.photo_bytes) as int),
            Bound::Text(json_list(limits.file_types)),
            Bound::Text(policy_word(limits.deletes)),
            Bound::Text(workspace_id),
        ],
    )
    &&& listed_types(json_list(limits.file_types)) matches Ok(types) && types
        == limits.file_types
}

/// Sets the limits of a workspace.
pub fn update_limits(
    workspace_id: &str,
    attachment_limit_bytes: u64,
    photo_limit_bytes: u64,
    allowed_file_types: &Vec<String>,
    who_can_delete_tasks: DeletePolicy,
) -> (r: Result<Statement, StoreError>)
    ensures
        r matches Ok(statement) && sets_limits(
            statement,
            workspace_id@,
            (Limits {
                attachment_bytes: attachment_limit_bytes,
                photo_bytes: photo_limit_bytes,
                file_types: allowed_file_types.deep_view(),
                deletes: who_can_delete_tasks,
            }),
        ),
{
    match write_types(allowed_file_types) {
        Err(e) => Err(e),
        Ok(types) => {
            let mut params: Vec<Value> = Vec::new();
            params.push(Value::Integer(limit_of(attachment_limit_bytes)));
            params.push(Value::Integer(limit_of(photo_limit_bytes)));
            params.push(Value::Text(types));
            params.push(text_value(who_can_delete_tasks.as_str()));
            params.push(text_value(workspace_id));
            assert(params.deep_view() =~= seq![
                Bound::Integer(stored_limit(attachment_limit_bytes) as int),
                Bound::Integer(stored_limit(photo_limit_bytes) as int),
                Bound::Text(json_list(allowed_file_types.deep_view())),
                Bound::Text(policy_word(who_can_delete_tasks)),
                Bound::Text(workspace_id@),
            ]);
            Ok(
                Statement {
                    sql:
                        "UPDATE workspace SET attachment_limit_bytes = ?1, photo_limit_bytes = ?2, allowed_file_types = ?3, who_can_delete_tasks = ?4 WHERE id = ?5".to_owned(),
                    params,
                },
            )
        },
    }
}

// ---------------------------------------------------------------------------
// Accounts
// ---------------------------------------------------------------------------

/// One account by its id.
pub fn select_user(id: &str) -> (r: Statement)
    ensures
        r.says(
            "SELECT "@ + USER_COLUMNS@ + " FROM user WHERE id = ?1"@,
            seq![Bound::Text(id@)],
        ),
{
    let mut params: Vec<Value> = Vec::new();
    params.push(text_value(id));
    assert(params.deep_view() =~= seq![Bound::Text(id@)]);
    Statement { sql: text::join3("SELECT ", USER_COLUMNS, " FROM user WHERE id = ?1"), params }
}

/// The statement looks an account of a workspace up by the key its address is
/// matched by.
pub open spec fn finds_user(
    statement: Statement,
    workspace_id: Seq<char>,
    key: Seq<char>,
) -> bool {
    statement.says(
        "SELECT "@ + USER_COLUMNS@ + " FROM user WHERE workspace_id = ?1 AND email_key = ?2"@,
        seq![Bound::Text(workspace_id), Bound::Text(key)],
    )
}

/// One account by its address, however it was typed.
pub fn select_user_by_email(workspace_id: &str, email: &str) -> (r: Statement)
    ensures
        finds_user(r, workspace_id@, folded_email(email@)),
{
    let mut params: Vec<Value> = Vec::new();
    params.push(text_value(workspace_id));
    params.push(Value::Text(fold_email(email)));
    assert(params.deep_view() =~= seq![
        Bound::Text(workspace_id@),
        Bound::Text(folded_email(email@)),
    ]);
    Statement {
        sql: text::join3(
            "SELECT ",
            USER_COLUMNS,
            " FROM user WHERE workspace_id = ?1 AND email_key = ?2",
        ),
        params,
    }
}

/// Every account of a workspace, oldest first.
pub fn select_users(workspace_id: &str) -> (r: Statement)
    ensures
        r.says(
            "SELECT "@ + USER_COLUMNS@
                + " FROM user WHERE workspace_id = ?1 ORDER BY created_at, id"@,
            seq![Bound::Text(workspace_id@)],
        ),
{
    let mut params: Vec<Value> = Vec::new();
    params.push(text_value(workspace_id));
    assert(params.deep_view() =~= seq![Bound::Text(workspace_id@)]);
    Statement {
        sql: text::join3(
            "SELECT ",
            USER_COLUMNS,
            " FROM user WHERE workspace_id = ?1 ORDER BY created_at, id",
        ),
        params,
    }
}

/// How many accounts a workspace has.
pub fn select_user_count(workspace_id: &str) -> (r: Statement)
    ensures
        r.says(
            "SELECT COUNT(*) FROM user WHERE workspace_id = ?1"@,
            seq![Bound::Text(workspace_id@)],
        ),
{
    let mut params: Vec<Value> = Vec::new();
    params.push(text_value(workspace_id));
    assert(params.deep_view() =~= seq![Bound::Text(workspace_id@)]);
    Statement { sql: "SELECT COUNT(*) FROM user WHERE workspace_id = ?1".to_owned(), params }
}

/// The account a new one would collide with: the look-up that comes before
/// [`user_to_insert`].
pub fn select_same_address(new: &NewUser) -> (r: Statement)
    ensures
        finds_user(r, new.workspace_id@, folded_email(new.email@)),
{
    select_user_by_email(new.workspace_id.as_str(), new.email.as_str())
}

/// The statement puts an account in with its id and the moment it was made: its
/// address as it was typed, and the key the address is matched by.
pub open spec fn inserts_user(
    statement: Statement,
    new: NewUser,
    id: Seq<char>,
    moment: Seq<char>,
) -> bool {
    statement.says(
        "INSERT INTO user (id, workspace_id, email, email_key, display_name, role, created_at) VALUES (?1, ?2, ?3, ?4, ?5, ?6, ?7)"@,
        seq![
            Bound::Text(id),
            Bound::Text(new.workspace_id@),
            Bound::Text(new.email@),
            Bound::Text(folded_email(new.email@)),
            Bound::Text(new.display_name@),
            Bound::Text(role_word(new.role)),
            Bound::Text(moment),
        ],
    )
}

/// Creating an account, once its address has been looked up: an address has one
/// account. The new row has the given id and the given stored moment.
pub fn user_to_insert(
    existing: Result<Option<UserRow>, String>,
    new: NewUser,
    id: String,
    now: Result<String, StoreError>,
) -> (r: Result<Statement, StoreError>)
    ensures
        match existing {
            Err(words) => r matches Err(e) && e.deep_view() == Fault::Backend(words@),
            Ok(Some(row)) => r matches Err(e) && if sound(user_faults(row)) {
                e.deep_view() == Fault::Conflict("account"@)
            } else {
                refused_with(user_faults(row), e.deep_view())
            },
            Ok(None) => match now {
                Err(e) => r == Err::<Statement, StoreError>(e),
                Ok(moment) => r matches Ok(statement) && inserts_user(
                    statement,
                    new,
                    id@,
                    moment@,
                ),
            },
        },
{
    let ghost faults = if existing is Ok && existing->Ok_0 is Some {
        user_faults(existing->Ok_0->0)
    } else {
        seq![]
    };
    match read_user(existing) {
        Err(e) => {
            proof {
                a_refusal_has_one_fault(faults, e.deep_view(), e.deep_view());
            }
            Err(e)
        },
        Ok(Some(_)) => Err(StoreError::Conflict("account")),
        Ok(None) => match now {
            Err(e) => Err(e),
            Ok(moment) => {
                let mut params: Vec<Value> = Vec::new();
                params.push(Value::Text(id));
                params.push(text_value(new.workspace_id.as_str()));
                params.push(text_value(new.email.as_str()));
                params.push(Value::Text(fold_email(new.email.as_str())));
                params.push(text_value(new.display_name.as_str()));
                params.push(text_value(new.role.as_str()));
                params.push(Value::Text(moment));
                assert(params.deep_view() =~= seq![
                    Bound::Text(id@),
                    Bound::Text(new.workspace_id@),
                    Bound::Text(new.email@),
                    Bound::Text(folded_email(new.email@)),
                    Bound::Text(new.display_name@),
                    Bound::Text(role_word(new.role)),
                    Bound::Text(moment@),
                ]);
                Ok(
                    Statement {
                        sql:
                            "INSERT INTO user (id, workspace_id, email, email_key, display_name, role, created_at) VALUES (?1, ?2, ?3, ?4, ?5, ?6, ?7)".to_owned(),
                        params,
                    },
                )
            },
        },
    }
}

/// Creating an account under a fresh id, at this moment: the id, to read the
/// account back by, and what [`user_to_insert`] makes of them.
pub fn new_user(existing: Result<Option<UserRow>, String>, new: NewUser) -> (r: Result<
    (String, Statement),
    StoreError,
>)
    ensures
        match existing {
            Err(words) => r matches Err(e) && e.deep_view() == Fault::Backend(words@),
            Ok(Some(row)) => r matches Err(e) && if sound(user_faults(row)) {
                e.deep_view() == Fault::Conflict("account"@)
            } else {
                refused_with(user_faults(row), e.deep_view())
            },
            Ok(None) => match r {
                Ok(made) => is_random_id(made.0@) && exists|moment: Seq<char>|
                    is_moment(moment) && #[trigger] inserts_user(made.1, new, made.0@, moment),
                Err(e) => clock_refused(e),
            },
        },
{
    let id = fresh_id();
    let now = now_text();
    let ghost moment = now;
    match user_to_insert(existing, new, id.clone(), now) {
        Ok(statement) => {
            let made = (id, statement);
            assert(is_moment(moment->Ok_0@));
            assert(inserts_user(made.1, new, made.0@, moment->Ok_0@));
            Ok(made)
        },
        Err(e) => Err(e),
    }
}

/// The statement sets the hash of an account's password.
pub open spec fn sets_password(
    statement: Statement,
    user_id: Seq<char>,
    hash: Seq<char>,
) -> bool {
    statement.says(
        "UPDATE user SET password_hash = ?1 WHERE id = ?2"@,
        seq![Bound::Text(hash), Bound::Text(user_id)],
    )
}

/// The hash of the password an account's holder chose.
pub fn update_password_hash(user_id: &str, hash: &str) -> (r: Statement)
    ensures
        sets_password(r, user_id@, hash@),
{
    let mut params: Vec<Value> = Vec::new();
    params.push(text_value(hash));
    params.push(text_value(user_id));
    assert(params.deep_view() =~= seq![Bound::Text(hash@), Bound::Text(user_id@)]);
    Statement { sql: "UPDATE user SET password_hash = ?1 WHERE id = ?2".to_owned(), params }
}

/// What a photo path binds: no photo is null.
pub open spec fn photo_bound(photo_path: Option<Seq<char>>) -> Bound {
    match photo_path {
        Some(path) => Bound::Text(path),
        None => Bound::Null,
    }
}

/// A photo path as its characters.
pub open spec fn path_of(photo_path: Option<&str>) -> Option<Seq<char>> {
    match photo_path {
        Some(path) => Some(path@),
        None => None,
    }
}

/// The statement sets an account's name and photo.
pub open spec fn sets_profile(
    statement: Statement,
    user_id: Seq<char>,
    display_name: Seq<char>,
    photo_path: Option<Seq<char>>,
) -> bool {
    statement.says(
        "UPDATE user SET display_name = ?1, photo_path = ?2 WHERE id = ?3"@,
        seq![Bound::Text(display_name), photo_bound(photo_path), Bound::Text(user_id)],
    )
}

/// An account's name and photo; no photo clears the one there was.
pub fn update_profile(user_id: &str, display_name: &str, photo_path: Option<&str>) -> (r: Statement)
    ensures
        sets_profile(r, user_id@, display_name@, path_of(photo_path)),
{
    let photo = match photo_path {
        Some(path) => text_value(path),
        None => Value::Null,
    };
    let mut params: Vec<Value> = Vec::new();
    params.push(text_value(display_name));
    params.push(photo);
    params.push(text_value(user_id));
    assert(params.deep_view() =~= seq![
        Bound::Text(display_name@),
        photo_bound(path_of(photo_path)),
        Bound::Text(user_id@),
    ]);
    Statement {
        sql: "UPDATE user SET display_name = ?1, photo_path = ?2 WHERE id = ?3".to_owned(),
        params,
    }
}

/// The statement sets what an account may do.
pub open spec fn sets_role(statement: Statement, user_id: Seq<char>, role: Role) -> bool {
    statement.says(
        "UPDATE user SET role = ?1 WHERE id = ?2"@,
        seq![Bound::Text(role_word(role)), Bound::Text(user_id)],
    )
}

/// What an account may do.
pub fn update_role(user_id: &str, role: Role) -> (r: Statement)
    ensures
        sets_role(r, user_id@, role),
{
    let mut params: Vec<Value> = Vec::new();
    params.push(text_value(role.as_str()));
    params.push(text_value(user_id));
    assert(params.deep_view() =~= seq![Bound::Text(role_word(role)), Bound::Text(user_id@)]);
    Statement { sql: "UPDATE user SET role = ?1 WHERE id = ?2".to_owned(), params }
}

/// The statement sets when an account last signed in.
pub open spec fn sets_signed_in(
    statement: Statement,
    user_id: Seq<char>,
    moment: Seq<char>,
) -> bool {
    statement.says(
        "UPDATE user SET last_signed_in_at = ?1 WHERE id = ?2"@,
        seq![Bound::Text(moment), Bound::Text(user_id)],
    )
}

/// When an account last signed in.
pub fn update_signed_in(user_id: &str, at: OffsetDateTime) -> (r: Result<Statement, StoreError>)
    ensures
        exists|moment: Result<String, StoreError>| #[trigger]
            stamped(at@, moment) && match moment {
                Ok(raw) => r matches Ok(statement) && sets_signed_in(statement, user_id@, raw@),
                Err(e) => r == Err::<Statement, StoreError>(e),
            },
{
    let moment = stamp(at);
    let ghost stored = moment;
    assert(stamped(at@, stored));
    match moment {
        Err(e) => Err(e),
        Ok(raw) => {
            let mut params: Vec<Value> = Vec::new();
            params.push(Value::Text(raw));
            params.push(text_value(user_id));
            assert(params.deep_view() =~= seq![Bound::Text(raw@), Bound::Text(user_id@)]);
            Ok(
                Statement {
                    sql: "UPDATE user SET last_signed_in_at = ?1 WHERE id = ?2".to_owned(),
                    params,
                },
            )
        },
    }
}

// ---------------------------------------------------------------------------
// Sign-in links
// ---------------------------------------------------------------------------

/// One sign-in link by its id.
pub fn select_signin_link(id: &str) -> (r: Statement)
    ensures
        r.says(
            "SELECT "@ + SIGNIN_LINK_COLUMNS@ + " FROM signin_link WHERE id = ?1"@,
            seq![Bound::Text(id@)],
        ),
{
    let mut params: Vec<Value> = Vec::new();
    params.push(text_value(id));
    assert(params.deep_view() =~= seq![Bound::Text(id@)]);
    Statement {
        sql: text::join3("SELECT ", SIGNIN_LINK_COLUMNS, " FROM signin_link WHERE id = ?1"),
        params,
    }
}

/// One sign-in link by the hash of its token.
pub fn select_signin_link_by_hash(token_hash: &str) -> (r: Statement)
    ensures
        r.says(
            "SELECT "@ + SIGNIN_LINK_COLUMNS@ + " FROM signin_link WHERE token_hash = ?1"@,
            seq![Bound::Text(token_hash@)],
        ),
{
    let mut params: Vec<Value> = Vec::new();
    params.push(text_value(token_hash));
    assert(params.deep_view() =~= seq![Bound::Text(token_hash@)]);
    Statement {
        sql: text::join3(
            "SELECT ",
            SIGNIN_LINK_COLUMNS,
            " FROM signin_link WHERE token_hash = ?1",
        ),
        params,
    }
}

/// The statement puts a link in, with its id, its account, the hash of its
/// token, the moment it was made and the moment it expires.
pub open spec fn inserts_signin_link(
    statement: Statement,
    id: Seq<char>,
    user_id: Seq<char>,
    token_hash: Seq<char>,
    moment: Seq<char>,
    until: Seq<char>,
) -> bool {
    statement.says(
        "INSERT INTO signin_link (id, user_id, token_hash, created_at, expires_at) VALUES (?1, ?2, ?3, ?4, ?5)"@,
        seq![
            Bound::Text(id),
            Bound::Text(user_id),
            Bound::Text(token_hash),
            Bound::Text(moment),
            Bound::Text(until),
        ],
    )
}

/// Storing a freshly minted link under the given id, made at the given stored
/// moment. Only the hash of the token goes in.
pub fn signin_link_to_insert(
    id: String,
    user_id: &str,
    token_hash: &str,
    now: Result<String, StoreError>,
    expires_at: OffsetDateTime,
) -> (r: Result<Statement, StoreError>)
    ensures
        exists|expiry: Result<String, StoreError>| #[trigger]
            stamped(expires_at@, expiry) && match (now, expiry) {
                (Err(e), _) => r == Err::<Statement, StoreError>(e),
                (Ok(_), Err(e)) => r == Err::<Statement, StoreError>(e),
                (Ok(moment), Ok(until)) => r matches Ok(statement) && inserts_signin_link(
                    statement,
                    id@,
                    user_id@,
                    token_hash@,
                    moment@,
                    until@,
                ),
            },
{
    let expiry = stamp(expires_at);
    let ghost stored = expiry;
    assert(stamped(expires_at@, stored));
    let moment = match now {
        Err(e) => {
            return Err(e);
        },
        Ok(moment) => moment,
    };
    match expiry {
        Err(e) => Err(e),
        Ok(until) => {
            let mut params: Vec<Value> = Vec::new();
            params.push(Value::Text(id));
            params.push(text_value(user_id));
            params.push(text_value(token_hash));
            params.push(Value::Text(moment));
            params.push(Value::Text(until));
            assert(params.deep_view() =~= seq![
                Bound::Text(id@),
                Bound::Text(user_id@),
                Bound::Text(token_hash@),
                Bound::Text(moment@),
                Bound::Text(until@),
            ]);
            Ok(
                Statement {
                    sql:
                        "INSERT INTO signin_link (id, user_id, token_hash, created_at, expires_at) VALUES (?1, ?2, ?3, ?4, ?5)".to_owned(),
                    params,
                },
            )
        },
    }
}

/// Storing a freshly minted link under a fresh id, at this moment: the id, to
/// read the link back by, and what [`signin_link_to_insert`] makes of them.
pub fn new_signin_link(user_id: &str, token_hash: &str, expires_at: OffsetDateTime) -> (r: Result<
    (String, Statement),
    StoreError,
>)
    ensures
        match r {
            Ok(made) => {
                &&& writable(expires_at@)
                &&& is_random_id(made.0@)
                &&& exists|moment: Seq<char>, until: Seq<char>|
                    is_moment(moment) && reads_as(until, expires_at@)
                        && #[trigger] inserts_signin_link(
                        made.1,
                        made.0@,
                        user_id@,
                        token_hash@,
                        moment,
                        until,
                    )
            },
            Err(e) => clock_refused(e) || stamped(expires_at@, Err(e)),
        },
{
    let id = fresh_id();
    let now = now_text();
    let ghost moment = now;
    match signin_link_to_insert(id.clone(), user_id, token_hash, now, expires_at) {
        Ok(statement) => {
            let made = (id, statement);
            proof {
                let expiry = choose|expiry: Result<String, StoreError>| #[trigger]
                    stamped(expires_at@, expiry) && match (moment, expiry) {
                        (Err(e), _) => false,
                        (Ok(_), Err(e)) => false,
                        (Ok(start), Ok(until)) => inserts_signin_link(
                            statement,
                            made.0@,
                            user_id@,
                            token_hash@,
                            start@,
                            until@,
                        ),
                    };
                assert(is_moment(moment->Ok_0@));
                assert(reads_as(expiry->Ok_0@, expires_at@));
                assert(inserts_signin_link(
                    made.1,
                    made.0@,
                    user_id@,
                    token_hash@,
                    moment->Ok_0@,
                    expiry->Ok_0@,
                ));
            }
            Ok(made)
        },
        Err(e) => Err(e),
    }
}

/// The statement uses a link up, if it has not been used.
pub open spec fn uses_link(statement: Statement, id: Seq<char>, moment: Seq<char>) -> bool {
    statement.says(
        "UPDATE signin_link SET used_at = ?1 WHERE id = ?2 AND used_at IS NULL"@,
        seq![Bound::Text(moment), Bound::Text(id)],
    )
}

/// Using a link up. One that was used already is not there to be used.
pub fn consume_signin_link(id: &str, at: OffsetDateTime) -> (r: Result<Statement, StoreError>)
    ensures
        exists|moment: Result<String, StoreError>| #[trigger]
            stamped(at@, moment) && match moment {
                Ok(raw) => r matches Ok(statement) && uses_link(statement, id@, raw@),
                Err(e) => r == Err::<Statement, StoreError>(e),
            },
{
    let moment = stamp(at);
    let ghost stored = moment;
    assert(stamped(at@, stored));
    match moment {
        Err(e) => Err(e),
        Ok(raw) => {
            let mut params: Vec<Value> = Vec::new();
            params.push(Value::Text(raw));
            params.push(text_value(id));
            assert(params.deep_view() =~= seq![Bound::Text(raw@), Bound::Text(id@)]);
            Ok(
                Statement {
                    sql: "UPDATE signin_link SET used_at = ?1 WHERE id = ?2 AND used_at IS NULL".to_owned(),
                    params,
                },
            )
        },
    }
}

// ---------------------------------------------------------------------------
// Laws
// ---------------------------------------------------------------------------

/// Addresses that differ in ASCII case and in the white space around them are
/// one address.
pub proof fn addresses_fold_alike(one: Seq<char>, other: Seq<char>)
    requires
        text::same_but_for_case(text::trim(one), text::trim(other)),
    ensures
        folded_email(one) == folded_email(other),
{
    text::lowercase_flattens_case(text::trim(one), text::trim(other));
}

/// Folding an ASCII address twice folds it no further.
pub proof fn a_folded_address_stays_folded(email: Seq<char>)
    requires
        vstd::utf8::is_ascii_chars(text::trim(email)),
    ensures
        folded_email(folded_email(email)) == folded_email(email),
{
    text::trimmed_text_trims_no_further(email);
    text::lowercase_leaves_the_ends(text::trim(email));
    text::lowercase_lowers_once(text::trim(email));
}

/// An address has one account: the look-up before a second account whose
/// address folds as the first's does asks for the key the first was stored
/// under.
pub proof fn a_second_account_asks_for_the_first(
    first: NewUser,
    second: NewUser,
    insert: Statement,
    id: Seq<char>,
    moment: Seq<char>,
    look_up: Statement,
)
    requires
        first.workspace_id@ == second.workspace_id@,
        folded_email(first.email@) == folded_email(second.email@),
        inserts_user(insert, first, id, moment),
        finds_user(look_up, second.workspace_id@, folded_email(second.email@)),
    ensures
        look_up.params.deep_view()[0] == insert.params.deep_view()[1],
        look_up.params.deep_view()[1] == insert.params.deep_view()[3],
{
}

/// An account is found however its address is typed: a look-up by one that
/// differs in ASCII case and in the white space around it asks for the key the
/// account was stored under.
pub proof fn an_account_is_found_however_typed(
    new: NewUser,
    typed: Seq<char>,
    insert: Statement,
    id: Seq<char>,
    moment: Seq<char>,
    look_up: Statement,
)
    requires
        text::same_but_for_case(text::trim(new.email@), text::trim(typed)),
        inserts_user(insert, new, id, moment),
        finds_user(look_up, new.workspace_id@, folded_email(typed)),
    ensures
        look_up.params.deep_view()[0] == insert.params.deep_view()[1],
        look_up.params.deep_view()[1] == insert.params.deep_view()[3],
{
    addresses_fold_alike(new.email@, typed);
}

/// A cell hands back the text that was bound to it.
pub open spec fn keeps_text(cell: Cell<String>, bound: Bound) -> bool {
    bound matches Bound::Text(s) && (cell matches Ok(raw) && raw@ == s)
}

/// A cell that may be empty hands back what was bound to it.
pub open spec fn keeps_optional(cell: Cell<Option<String>>, bound: Bound) -> bool {
    match bound {
        Bound::Text(s) => cell matches Ok(Some(raw)) && raw@ == s,
        Bound::Null => cell matches Ok(kept) && kept is None,
        Bound::Integer(_) => false,
    }
}

/// A cell hands back the number that was bound to it.
pub open spec fn keeps_integer(cell: Cell<i64>, bound: Bound) -> bool {
    bound matches Bound::Integer(n) && (cell matches Ok(stored) && stored == n)
}

/// A port cell hands back the number that was bound to it.
pub open spec fn keeps_port(cell: Cell<Option<u32>>, bound: Bound) -> bool {
    bound matches Bound::Integer(n) && (cell matches Ok(Some(stored)) && stored == n)
}

/// A new workspace reads back under its id, with its name and the moment it was
/// made.
pub proof fn a_new_workspace_reads_back(
    statement: Statement,
    id: Seq<char>,
    name: Seq<char>,
    moment: Seq<char>,
    row: WorkspaceRow,
    workspace: Workspace,
)
    requires
        inserts_workspace(statement, id, name, moment),
        keeps_text(row.id, statement.params.deep_view()[0]),
        keeps_text(row.name, statement.params.deep_view()[1]),
        keeps_text(row.created_at, statement.params.deep_view()[2]),
        holds_workspace(row, workspace),
    ensures
        workspace.id@ == id,
        workspace.name@ == name,
        reads_as(moment, workspace.created_at@),
{
}

/// The sender settings read back as they were set, and the password comes out
/// of the mailer's own query.
pub proof fn sender_settings_read_back(
    statement: Statement,
    workspace_id: Seq<char>,
    sender: Sender,
    row: WorkspaceRow,
    workspace: Workspace,
    password: Cell<Option<String>>,
)
    requires
        sets_sender(statement, workspace_id, sender),
        keeps_optional(row.smtp_host, statement.params.deep_view()[0]),
        keeps_port(row.smtp_port, statement.params.deep_view()[1]),
        keeps_optional(row.smtp_username, statement.params.deep_view()[2]),
        keeps_optional(password, statement.params.deep_view()[3]),
        keeps_optional(row.smtp_from_name, statement.params.deep_view()[4]),
        keeps_optional(row.smtp_from_address, statement.params.deep_view()[5]),
        holds_workspace(row, workspace),
    ensures
        workspace.smtp_host.deep_view() == Some(sender.host),
        workspace.smtp_port matches Some(port) && port == sender.port,
        workspace.smtp_username.deep_view() == Some(sender.username),
        workspace.smtp_from_name.deep_view() == Some(sender.from_name),
        workspace.smtp_from_address.deep_view() == Some(sender.from_address),
        password matches Ok(read) && read.deep_view() == Some(sender.password),
{
}

/// The cells no change of the limits touches are as they were.
pub open spec fn but_for_limits(before: WorkspaceRow, after: WorkspaceRow) -> bool {
    &&& after.id == before.id
    &&& after.name == before.name
    &&& after.created_at == before.created_at
    &&& after.smtp_host == before.smtp_host
    &&& after.smtp_port == before.smtp_port
    &&& after.smtp_username == before.smtp_username
    &&& after.smtp_from_name == before.smtp_from_name
    &&& after.smtp_from_address == before.smtp_from_address
}

/// The limits read back as they were set, where they fit a signed number, and
/// the rest of the record as it was.
pub proof fn limits_read_back(
    statement: Statement,
    workspace_id: Seq<char>,
    limits: Limits,
    before: WorkspaceRow,
    earlier: Workspace,
    row: WorkspaceRow,
    workspace: Workspace,
)
    requires
        holds_workspace(before, earlier),
        but_for_limits(before, row),
        limits.attachment_bytes <= i64::MAX,
        limits.photo_bytes <= i64::MAX,
        sets_limits(statement, workspace_id, limits),
        keeps_integer(row.attachment_limit_bytes, statement.params.deep_view()[0]),
        keeps_integer(row.photo_limit_bytes, statement.params.deep_view()[1]),
        keeps_text(row.allowed_file_types, statement.params.deep_view()[2]),
        keeps_text(row.who_can_delete_tasks, statement.params.deep_view()[3]),
        holds_workspace(row, workspace),
    ensures
        workspace.attachment_limit_bytes == limits.attachment_bytes,
        workspace.photo_limit_bytes == limits.photo_bytes,
        workspace.allowed_file_types.deep_view() == limits.file_types,
        workspace.who_can_delete_tasks == limits.deletes,
        workspace.id == earlier.id,
        workspace.name == earlier.name,
        workspace.created_at@ == earlier.created_at@,
        workspace.smtp_host == earlier.smtp_host,
        workspace.smtp_port == earlier.smtp_port,
        workspace.smtp_username == earlier.smtp_username,
        workspace.smtp_from_name == earlier.smtp_from_name,
        workspace.smtp_from_address == earlier.smtp_from_address,
{
    a_limit_survives_storage(limits.attachment_bytes);
    a_limit_survives_storage(limits.photo_bytes);
    reveal_strlit("anyone");
    reveal_strlit("admin");
    assert("anyone"@.len() != "admin"@.len());
}

/// A new account reads back under its id with what it was made with, its
/// address as it was typed. It has no password until its holder chooses one.
pub proof fn a_new_account_reads_back(
    statement: Statement,
    new: NewUser,
    id: Seq<char>,
    moment: Seq<char>,
    row: UserRow,
    user: User,
)
    requires
        inserts_user(statement, new, id, moment),
        keeps_text(row.id, statement.params.deep_view()[0]),
        keeps_text(row.workspace_id, statement.params.deep_view()[1]),
        keeps_text(row.email, statement.params.deep_view()[2]),
        keeps_text(row.display_name, statement.params.deep_view()[4]),
        keeps_text(row.role, statement.params.deep_view()[5]),
        keeps_text(row.created_at, statement.params.deep_view()[6]),
        keeps_optional(row.password_hash, Bound::Null),
        keeps_optional(row.photo_path, Bound::Null),
        keeps_optional(row.last_signed_in_at, Bound::Null),
        holds_user(row, user),
    ensures
        user.id@ == id,
        user.workspace_id@ == new.workspace_id@,
        user.email@ == new.email@,
        user.display_name@ == new.display_name@,
        user.role == new.role,
        reads_as(moment, user.created_at@),
        user.password_hash is None,
        user.photo_path is None,
        user.last_signed_in_at is None,
{
    a_role_survives_storage(new.role);
}

/// What is changed on an account reads back: the password's hash, the name and
/// the photo, where no photo clears the one there was, the role, and the moment
/// of the last sign-in.
pub proof fn account_changes_read_back(
    row: UserRow,
    user: User,
    user_id: Seq<char>,
    password: (Statement, Seq<char>),
    profile: (Statement, Seq<char>, Option<Seq<char>>),
    role: (Statement, Role),
    signed_in: (Statement, Seq<char>, (int, int, int)),
)
    requires
        holds_user(row, user),
        sets_password(password.0, user_id, password.1),
        sets_profile(profile.0, user_id, profile.1, profile.2),
        sets_role(role.0, user_id, role.1),
        sets_signed_in(signed_in.0, user_id, signed_in.1),
        reads_as(signed_in.1, signed_in.2),
    ensures
        keeps_optional(row.password_hash, password.0.params.deep_view()[0])
            ==> user.password_hash.deep_view() == Some(password.1),
        keeps_text(row.display_name, profile.0.params.deep_view()[0]) ==> user.display_name@
            == profile.1,
        keeps_optional(row.photo_path, profile.0.params.deep_view()[1])
            ==> user.photo_path.deep_view() == profile.2,
        keeps_text(row.role, role.0.params.deep_view()[0]) ==> user.role == role.1,
        keeps_optional(row.last_signed_in_at, signed_in.0.params.deep_view()[0])
            ==> user.last_signed_in_at.deep_view() == Some(signed_in.2),
{
    a_role_survives_storage(role.1);
}

/// A new link reads back for its account, unused, and is usable until the
/// moment it was made to expire.
pub proof fn a_new_link_reads_back(
    statement: Statement,
    id: Seq<char>,
    user_id: Seq<char>,
    token_hash: Seq<char>,
    moment: Seq<char>,
    until: Seq<char>,
    expires_at: (int, int, int),
    row: SigninLinkRow,
    link: SigninLink,
    now: (int, int, int),
)
    requires
        inserts_signin_link(statement, id, user_id, token_hash, moment, until),
        reads_as(until, expires_at),
        keeps_text(row.id, statement.params.deep_view()[0]),
        keeps_text(row.user_id, statement.params.deep_view()[1]),
        keeps_text(row.created_at, statement.params.deep_view()[3]),
        keeps_text(row.expires_at, statement.params.deep_view()[4]),
        keeps_optional(row.used_at, Bound::Null),
        holds_signin_link(row, link),
    ensures
        link.id@ == id,
        link.user_id@ == user_id,
        reads_as(moment, link.created_at@),
        link.expires_at@ == expires_at,
        usable(link, now) <==> instant(now) < instant(expires_at),
{
}

/// A link that was used up is usable at no moment.
pub proof fn a_used_link_is_never_usable(
    statement: Statement,
    id: Seq<char>,
    moment: Seq<char>,
    row: SigninLinkRow,
    link: SigninLink,
    now: (int, int, int),
)
    requires
        uses_link(statement, id, moment),
        keeps_optional(row.used_at, statement.params.deep_view()[0]),
        holds_signin_link(row, link),
    ensures
        !usable(link, now),
{
}

/// What the database does with a link's row when the link is used: `hits` is how
/// many rows the update hit. It hits a row that was not used and sets the moment
/// in it, and none that was.
pub open spec fn link_updated(
    statement: Statement,
    before: SigninLinkRow,
    hits: u64,
    after: SigninLinkRow,
) -> bool {
    if keeps_optional(before.used_at, Bound::Null) {
        &&& hits == 1
        &&& keeps_optional(after.used_at, statement.params.deep_view()[0])
        &&& after.id == before.id
        &&& after.user_id == before.user_id
        &&& after.created_at == before.created_at
        &&& after.expires_at == before.expires_at
    } else {
        &&& hits == 0
        &&& after == before
    }
}

/// A link is used once: the first use succeeds, the second is not found, and the
/// link keeps the moment of the first, usable at no moment.
pub proof fn a_link_is_used_once(
    id: Seq<char>,
    first: (Statement, Seq<char>, (int, int, int)),
    second: (Statement, Seq<char>),
    fresh: SigninLinkRow,
    hits: (u64, u64),
    used: SigninLinkRow,
    last: SigninLinkRow,
    results: (Result<(), StoreError>, Result<(), StoreError>),
    link: SigninLink,
    now: (int, int, int),
)
    requires
        uses_link(first.0, id, first.1),
        reads_as(first.1, first.2),
        uses_link(second.0, id, second.1),
        keeps_optional(fresh.used_at, Bound::Null),
        link_updated(first.0, fresh, hits.0, used),
        link_updated(second.0, used, hits.1, last),
        touch_read(Ok(hits.0), results.0),
        touch_read(Ok(hits.1), results.1),
        holds_signin_link(last, link),
    ensures
        results.0 is Ok,
        results.1 matches Err(e) && e.deep_view() == Fault::NotFound,
        link.used_at.deep_view() == Some(first.2),
        !usable(link, now),
{
}

/// An update of a row that is not there is not found.
pub proof fn a_missing_row_is_not_found(r: Result<(), StoreError>)
    requires
        touch_read(Ok(0), r),
    ensures
        r matches Err(e) && e.deep_view() == Fault::NotFound,
{
}

/// A role survives being stored.
pub proof fn a_role_survives_storage(role: Role)
    ensures
        role_named(role_word(role)) == Some(role),
{
    reveal_strlit("admin");
    reveal_strlit("member");
    reveal_strlit("viewer");
    assert("member"@[0] != "admin"@[0]);
    assert("viewer"@[0] != "admin"@[0]);
    assert("viewer"@[0] != "member"@[0]);
}

/// A moment survives being stored: what the stored text of an instant is read
/// as is that instant.
pub proof fn a_moment_survives_storage(
    at: (int, int, int),
    stored: Result<String, StoreError>,
    read: (int, int, int),
)
    requires
        stamped(at, stored),
        stored matches Ok(raw) && reads_as(raw@, read),
    ensures
        read == at,
{
}

/// Folding loses nothing of an address: two ASCII addresses fold alike only where
/// they differ in case and in the white space around them alone.
pub proof fn only_one_address_folds_so(one: Seq<char>, other: Seq<char>)
    requires
        vstd::utf8::is_ascii_chars(text::trim(one)),
        vstd::utf8::is_ascii_chars(text::trim(other)),
        folded_email(one) == folded_email(other),
    ensures
        text::same_but_for_case(text::trim(one), text::trim(other)),
{
    let a = text::trim(one);
    let b = text::trim(other);
    assert(folded_email(one).len() == a.len());
    assert(folded_email(other).len() == b.len());
    assert forall|i: int| 0 <= i < a.len() implies {
        &&& text::ascii(#[trigger] a[i])
        &&& text::ascii(b[i])
        &&& text::ascii_lower(a[i]) == text::ascii_lower(b[i])
    } by {
        assert('\0' <= a[i] <= '\u{7f}');
        assert('\0' <= b[i] <= '\u{7f}');
        assert(folded_email(one)[i] == text::ascii_lower(a[i]));
        assert(folded_email(other)[i] == text::ascii_lower(b[i]));
    }
}

/// An ASCII address without capitals and white space around it is its own key.
pub proof fn a_plain_address_is_its_own_key(email: Seq<char>)
    requires
        vstd::utf8::is_ascii_chars(email),
        text::bare(email),
        forall|i: int| 0 <= i < email.len() ==> !('A' <= #[trigger] email[i] && email[i] <= 'Z'),
    ensures
        folded_email(email) == email,
{
    assert(text::trim(email) =~= email);
    assert(folded_email(email) =~= email) by {
        assert forall|i: int| 0 <= i < email.len() implies text::ascii_lower(
            #[trigger] email[i],
        ) == email[i] by {
            assert(!('A' <= email[i] && email[i] <= 'Z'));
        }
    }
}

/// An update that hit a row is done, one that hit none found nothing, and one the
/// database refused is told in its own words.
pub proof fn an_update_is_done_where_it_hit(hits: u64, words: String, r: Result<(), StoreError>)
    ensures
        touch_read(Ok(hits), r) ==> (r is Ok <==> hits > 0),
        touch_read(Ok(0), r) ==> (r matches Err(e) && e.deep_view() == Fault::NotFound),
        touch_read(Err(words), r) ==> (r matches Err(e) && e.deep_view() == Fault::Backend(
            words@,
        )),
{
}

/// No row reads as no record, and a reply that could not be had as the database's
/// own words, for every kind of record.
pub proof fn no_row_is_no_record(
    words: String,
    workspace: Result<Option<Workspace>, StoreError>,
    user: Result<Option<User>, StoreError>,
    link: Result<Option<SigninLink>, StoreError>,
)
    ensures
        workspace_read(Ok(None), workspace) ==> (workspace matches Ok(r) && r is None),
        user_read(Ok(None), user) ==> (user matches Ok(r) && r is None),
        signin_link_read(Ok(None), link) ==> (link matches Ok(r) && r is None),
        workspace_read(Err(words), workspace) ==> (workspace matches Err(e) && e.deep_view()
            == Fault::Backend(words@)),
        user_read(Err(words), user) ==> (user matches Err(e) && e.deep_view() == Fault::Backend(
            words@,
        )),
        signin_link_read(Err(words), link) ==> (link matches Err(e) && e.deep_view()
            == Fault::Backend(words@)),
{
}

/// A row that reads gives its record, and one that does not gives the fault of its
/// first cell that has one, for every kind of record.
pub proof fn a_row_gives_its_record(
    rows: (WorkspaceRow, UserRow, SigninLinkRow),
    workspace: Result<Option<Workspace>, StoreError>,
    user: Result<Option<User>, StoreError>,
    link: Result<Option<SigninLink>, StoreError>,
)
    requires
        workspace_read(Ok(Some(rows.0)), workspace),
        user_read(Ok(Some(rows.1)), user),
        signin_link_read(Ok(Some(rows.2)), link),
    ensures
        sound(workspace_faults(rows.0)) ==> (workspace matches Ok(Some(record))
            && holds_workspace(rows.0, record)),
        sound(user_faults(rows.1)) ==> (user matches Ok(Some(record)) && holds_user(
            rows.1,
            record,
        )),
        sound(signin_link_faults(rows.2)) ==> (link matches Ok(Some(record))
            && holds_signin_link(rows.2, record)),
        workspace matches Err(e) ==> refused_with(workspace_faults(rows.0), e.deep_view()),
        user matches Err(e) ==> refused_with(user_faults(rows.1), e.deep_view()),
        link matches Err(e) ==> refused_with(signin_link_faults(rows.2), e.deep_view()),
{
    if let Err(e) = workspace {
        a_refusal_has_one_fault(workspace_faults(rows.0), e.deep_view(), e.deep_view());
    }
    if let Err(e) = user {
        a_refusal_has_one_fault(user_faults(rows.1), e.deep_view(), e.deep_view());
    }
    if let Err(e) = link {
        a_refusal_has_one_fault(signin_link_faults(rows.2), e.deep_view(), e.deep_view());
    }
}

/// Every update names the one row it is for: it ends on the condition on the id,
/// and the id it was given is bound there.
pub proof fn an_update_is_for_one_row(
    id: Seq<char>,
    sender: (Statement, Sender),
    limits: (Statement, Limits),
    password: (Statement, Seq<char>),
    profile: (Statement, Seq<char>, Option<Seq<char>>),
    role: (Statement, Role),
    signed_in: (Statement, Seq<char>),
)
    ensures
        sets_sender(sender.0, id, sender.1) ==> " WHERE id = ?7"@.is_suffix_of(sender.0.sql@)
            && sender.0.params.deep_view()[6] == Bound::Text(id),
        sets_limits(limits.0, id, limits.1) ==> " WHERE id = ?5"@.is_suffix_of(limits.0.sql@)
            && limits.0.params.deep_view()[4] == Bound::Text(id),
        sets_password(password.0, id, password.1) ==> " WHERE id = ?2"@.is_suffix_of(
            password.0.sql@,
        ) && password.0.params.deep_view()[1] == Bound::Text(id),
        sets_profile(profile.0, id, profile.1, profile.2) ==> " WHERE id = ?3"@.is_suffix_of(
            profile.0.sql@,
        ) && profile.0.params.deep_view()[2] == Bound::Text(id),
        sets_role(role.0, id, role.1) ==> " WHERE id = ?2"@.is_suffix_of(role.0.sql@)
            && role.0.params.deep_view()[1] == Bound::Text(id),
        sets_signed_in(signed_in.0, id, signed_in.1) ==> " WHERE id = ?2"@.is_suffix_of(
            signed_in.0.sql@,
        ) && signed_in.0.params.deep_view()[1] == Bound::Text(id),
{
    lemma_workspace_updates_end();
    lemma_user_updates_end();
}

proof fn lemma_workspace_updates_end()
    ensures
        " WHERE id = ?7"@.is_suffix_of(
            "UPDATE workspace SET smtp_host = ?1, smtp_port = ?2, smtp_username = ?3, smtp_password = ?4, smtp_from_name = ?5, smtp_from_address = ?6 WHERE id = ?7"@,
        ),
        " WHERE id = ?5"@.is_suffix_of(
            "UPDATE workspace SET attachment_limit_bytes = ?1, photo_limit_bytes = ?2, allowed_file_types = ?3, who_can_delete_tasks = ?4 WHERE id = ?5"@,
        ),
{
    lemma_sender_update_ends();
    lemma_limits_update_ends();
}

proof fn lemma_sender_update_ends()
    ensures
        " WHERE id = ?7"@.is_suffix_of(
            "UPDATE workspace SET smtp_host = ?1, smtp_port = ?2, smtp_username = ?3, smtp_password = ?4, smtp_from_name = ?5, smtp_from_address = ?6 WHERE id = ?7"@,
        ),
{
    reveal_strlit(" WHERE id = ?7");
    reveal_strlit(
        "UPDATE workspace SET smtp_host = ?1, smtp_port = ?2, smtp_username = ?3, smtp_password = ?4, smtp_from_name = ?5, smtp_from_address = ?6 WHERE id = ?7",
    );
    let sql =
        "UPDATE workspace SET smtp_host = ?1, smtp_port = ?2, smtp_username = ?3, smtp_password = ?4, smtp_from_name = ?5, smtp_from_address = ?6 WHERE id = ?7"@;
    assert(sql.subrange(sql.len() - 14, sql.len() as int) =~= " WHERE id = ?7"@);
}

proof fn lemma_limits_update_ends()
    ensures
        " WHERE id = ?5"@.is_suffix_of(
            "UPDATE workspace SET attachment_limit_bytes = ?1, photo_limit_bytes = ?2, allowed_file_types = ?3, who_can_delete_tasks = ?4 WHERE id = ?5"@,
        ),
{
    reveal_strlit(" WHERE id = ?5");
    reveal_strlit(
        "UPDATE workspace SET attachment_limit_bytes = ?1, photo_limit_bytes = ?2, allowed_file_types = ?3, who_can_delete_tasks = ?4 WHERE id = ?5",
    );
    let sql =
        "UPDATE workspace SET attachment_limit_bytes = ?1, photo_limit_bytes = ?2, allowed_file_types = ?3, who_can_delete_tasks = ?4 WHERE id = ?5"@;
    assert(sql.subrange(sql.len() - 14, sql.len() as int) =~= " WHERE id = ?5"@);
}

proof fn lemma_user_updates_end()
    ensures
        " WHERE id = ?2"@.is_suffix_of("UPDATE user SET password_hash = ?1 WHERE id = ?2"@),
        " WHERE id = ?3"@.is_suffix_of(
            "UPDATE user SET display_name = ?1, photo_path = ?2 WHERE id = ?3"@,
        ),
        " WHERE id = ?2"@.is_suffix_of("UPDATE user SET role = ?1 WHERE id = ?2"@),
        " WHERE id = ?2"@.is_suffix_of("UPDATE user SET last_signed_in_at = ?1 WHERE id = ?2"@),
{
    reveal_strlit(" WHERE id = ?2");
    reveal_strlit(" WHERE id = ?3");
    reveal_strlit("UPDATE user SET password_hash = ?1 WHERE id = ?2");
    reveal_strlit("UPDATE user SET display_name = ?1, photo_path = ?2 WHERE id = ?3");
    reveal_strlit("UPDATE user SET role = ?1 WHERE id = ?2");
    reveal_strlit("UPDATE user SET last_signed_in_at = ?1 WHERE id = ?2");
    let a = "UPDATE user SET password_hash = ?1 WHERE id = ?2"@;
    let b = "UPDATE user SET display_name = ?1, photo_path = ?2 WHERE id = ?3"@;
    let c = "UPDATE user SET role = ?1 WHERE id = ?2"@;
    let d = "UPDATE user SET last_signed_in_at = ?1 WHERE id = ?2"@;
    assert(a.subrange(a.len() - 14, a.len() as int) =~= " WHERE id = ?2"@);
    assert(b.subrange(b.len() - 14, b.len() as int) =~= " WHERE id = ?3"@);
    assert(c.subrange(c.len() - 14, c.len() as int) =~= " WHERE id = ?2"@);
    assert(d.subrange(d.len() - 14, d.len() as int) =~= " WHERE id = ?2"@);
}

/// Using a link up is for that link alone, and only while it is unused.
pub proof fn a_use_is_for_one_unused_link(statement: Statement, id: Seq<char>, moment: Seq<char>)
    requires
        uses_link(statement, id, moment),
    ensures
        " WHERE id = ?2 AND used_at IS NULL"@.is_suffix_of(statement.sql@),
        statement.params.deep_view()[1] == Bound::Text(id),
{
    reveal_strlit(" WHERE id = ?2 AND used_at IS NULL");
    reveal_strlit("UPDATE signin_link SET used_at = ?1 WHERE id = ?2 AND used_at IS NULL");
    let sql = "UPDATE signin_link SET used_at = ?1 WHERE id = ?2 AND used_at IS NULL"@;
    assert(sql.subrange(sql.len() - 34, sql.len() as int)
        =~= " WHERE id = ?2 AND used_at IS NULL"@);
}

/// What is bound is what the value holds.
pub proof fn a_value_binds_what_it_holds(n: i64, s: String)
    ensures
        Value::Null.deep_view() == Bound::Null,
        Value::Integer(n).deep_view() == Bound::Integer(n as int),
        Value::Text(s).deep_view() == Bound::Text(s@),
{
}

/// A new link is stored for its account, under the hash of its token and nothing
/// else of it, with the moments it was made and expires at.
pub proof fn a_new_link_binds_its_hash(
    statement: Statement,
    id: Seq<char>,
    user_id: Seq<char>,
    token_hash: Seq<char>,
    moment: Seq<char>,
    until: Seq<char>,
)
    requires
        inserts_signin_link(statement, id, user_id, token_hash, moment, until),
    ensures
        statement.params.deep_view().len() == 5,
        statement.params.deep_view()[0] == Bound::Text(id),
        statement.params.deep_view()[1] == Bound::Text(user_id),
        statement.params.deep_view()[2] == Bound::Text(token_hash),
        statement.params.deep_view()[3] == Bound::Text(moment),
        statement.params.deep_view()[4] == Bound::Text(until),
{
}

/// A look-up by address asks in the one workspace, for the folded form of what was
/// typed.
pub proof fn a_look_up_asks_for_the_key(statement: Statement, workspace_id: Seq<char>, key: Seq<char>)
    requires
        finds_user(statement, workspace_id, key),
    ensures
        statement.params.deep_view() == seq![Bound::Text(workspace_id), Bound::Text(key)],
        " WHERE workspace_id = ?1 AND email_key = ?2"@.is_suffix_of(statement.sql@),
{
    reveal_strlit(" WHERE workspace_id = ?1 AND email_key = ?2");
    reveal_strlit(" FROM user WHERE workspace_id = ?1 AND email_key = ?2");
    let sql = statement.sql@;
    assert(sql.subrange(sql.len() - 43, sql.len() as int)
        =~= " WHERE workspace_id = ?1 AND email_key = ?2"@);
}

/// White space around an address never matters, and one beyond ASCII is matched by
/// its lower case as Unicode has it.
pub proof fn white_space_around_an_address_is_nothing(email: Seq<char>)
    ensures
        folded_email(email) == folded_email(text::trim(email)),
        !vstd::utf8::is_ascii_chars(text::trim(email)) ==> folded_email(email)
            == text::unicode_lowercase(text::trim(email)),
{
    text::trimmed_text_trims_no_further(email);
}

} // verus!
