//! The statements against a real database.

use iz::clock::OffsetDateTime;
use iz::rows::{SigninLinkRow, UserRow, WorkspaceRow};
use iz::schema;
use iz::statements::{self, Statement, Value};
use iz::store::{
    now_text, DeletePolicy, NewUser, Role, SigninLink, StoreError, User, Workspace,
};

const TABLES: &str = "CREATE TABLE workspace (
        id TEXT PRIMARY KEY,
        name TEXT NOT NULL,
        created_at TEXT NOT NULL,
        smtp_host TEXT,
        smtp_port INTEGER,
        smtp_username TEXT,
        smtp_password TEXT,
        smtp_from_name TEXT,
        smtp_from_address TEXT,
        attachment_limit_bytes INTEGER NOT NULL DEFAULT 26214400,
        allowed_file_types TEXT NOT NULL DEFAULT '',
        photo_limit_bytes INTEGER NOT NULL DEFAULT 2097152,
        who_can_delete_tasks TEXT NOT NULL DEFAULT 'anyone'
    );
    CREATE TABLE user (
        id TEXT PRIMARY KEY,
        workspace_id TEXT NOT NULL REFERENCES workspace (id),
        email TEXT NOT NULL,
        email_key TEXT NOT NULL,
        display_name TEXT NOT NULL,
        role TEXT NOT NULL,
        password_hash TEXT,
        photo_path TEXT,
        created_at TEXT NOT NULL,
        last_signed_in_at TEXT
    );
    CREATE TABLE signin_link (
        id TEXT PRIMARY KEY,
        user_id TEXT NOT NULL REFERENCES user (id),
        token_hash TEXT NOT NULL,
        created_at TEXT NOT NULL,
        expires_at TEXT NOT NULL,
        used_at TEXT
    );";

struct Scratch {
    runtime: tokio::runtime::Runtime,
    conn: turso::Connection,
    _db: turso::Database,
}

fn words<E: std::fmt::Display>(e: E) -> String {
    e.to_string()
}

fn bound(values: Vec<Value>) -> Vec<turso::Value> {
    values
        .into_iter()
        .map(|value| match value {
            Value::Null => turso::Value::Null,
            Value::Integer(n) => turso::Value::Integer(n),
            Value::Text(s) => turso::Value::Text(s),
        })
        .collect()
}

fn workspace_row(row: turso::Row) -> WorkspaceRow {
    WorkspaceRow {
        id: row.get(0).map_err(words),
        name: row.get(1).map_err(words),
        created_at: row.get(2).map_err(words),
        smtp_host: row.get(3).map_err(words),
        smtp_port: row.get(4).map_err(words),
        smtp_username: row.get(5).map_err(words),
        smtp_from_name: row.get(6).map_err(words),
        smtp_from_address: row.get(7).map_err(words),
        attachment_limit_bytes: row.get(8).map_err(words),
        allowed_file_types: row.get(9).map_err(words),
        photo_limit_bytes: row.get(10).map_err(words),
        who_can_delete_tasks: row.get(11).map_err(words),
    }
}

fn user_row(row: turso::Row) -> UserRow {
    UserRow {
        id: row.get(0).map_err(words),
        workspace_id: row.get(1).map_err(words),
        email: row.get(2).map_err(words),
        display_name: row.get(3).map_err(words),
        role: row.get(4).map_err(words),
        password_hash: row.get(5).map_err(words),
        photo_path: row.get(6).map_err(words),
        created_at: row.get(7).map_err(words),
        last_signed_in_at: row.get(8).map_err(words),
    }
}

fn link_row(row: turso::Row) -> SigninLinkRow {
    SigninLinkRow {
        id: row.get(0).map_err(words),
        user_id: row.get(1).map_err(words),
        created_at: row.get(2).map_err(words),
        expires_at: row.get(3).map_err(words),
        used_at: row.get(4).map_err(words),
    }
}

impl Scratch {
    fn open() -> Self {
        let runtime = tokio::runtime::Builder::new_current_thread()
            .enable_all()
            .build()
            .unwrap();
        let db = runtime
            .block_on(turso::Builder::new_local(":memory:").build())
            .unwrap();
        let conn = db.connect().unwrap();
        let scratch = Self { runtime, conn, _db: db };
        let (keys, patience) = schema::opening_pragmas();
        scratch.execute(keys).unwrap();
        scratch.execute(patience).unwrap();
        scratch.migrate();
        scratch
    }

    /// Runs what is owed; how many migrations that was.
    fn migrate(&self) -> usize {
        self.execute(schema::create_schema_version()).unwrap();
        let versions = vec![1];
        let owed = schema::unapplied(&versions, &self.applied());
        for place in &owed {
            self.runtime
                .block_on(self.conn.execute_batch(TABLES))
                .unwrap();
            let record = schema::record_version(versions[*place], now_text().unwrap());
            self.execute(record).unwrap();
        }
        owed.len()
    }

    fn applied(&self) -> Vec<i64> {
        let mut fetched = Vec::new();
        for row in self.fetch(schema::select_versions()).unwrap() {
            fetched.push(Ok(row.get::<i64>(0).map_err(words)));
        }
        schema::read_versions(fetched).unwrap()
    }

    fn execute(&self, statement: Statement) -> Result<u64, String> {
        let params = turso::params_from_iter(bound(statement.params));
        self.runtime
            .block_on(self.conn.execute(&statement.sql, params))
            .map_err(words)
    }

    fn fetch(&self, statement: Statement) -> Result<Vec<turso::Row>, String> {
        let params = turso::params_from_iter(bound(statement.params));
        self.runtime.block_on(async {
            let mut rows = self.conn.query(&statement.sql, params).await.map_err(words)?;
            let mut all = Vec::new();
            while let Some(row) = rows.next().await.map_err(words)? {
                all.push(row);
            }
            Ok(all)
        })
    }

    fn one(&self, statement: Statement) -> Result<Option<turso::Row>, String> {
        self.fetch(statement).map(|rows| rows.into_iter().next())
    }

    fn workspace(&self) -> Result<Option<Workspace>, StoreError> {
        let reply = self.one(statements::select_workspace());
        statements::read_workspace(reply.map(|row| row.map(workspace_row)))
    }

    fn create_workspace(&self, name: &str) -> Result<Workspace, StoreError> {
        let existing = self.one(statements::select_workspace());
        let insert =
            statements::new_workspace(existing.map(|row| row.map(workspace_row)), name)?;
        statements::acknowledged(self.execute(insert))?;
        statements::found(self.workspace())
    }

    fn user(&self, id: &str) -> Result<Option<User>, StoreError> {
        let reply = self.one(statements::select_user(id));
        statements::read_user(reply.map(|row| row.map(user_row)))
    }

    fn user_by_email(&self, workspace_id: &str, email: &str) -> Result<Option<User>, StoreError> {
        let reply = self.one(statements::select_user_by_email(workspace_id, email));
        statements::read_user(reply.map(|row| row.map(user_row)))
    }

    fn create_user(&self, new: NewUser) -> Result<User, StoreError> {
        let existing = self.one(statements::select_same_address(&new));
        let (id, insert) = statements::new_user(existing.map(|row| row.map(user_row)), new)?;
        statements::acknowledged(self.execute(insert))?;
        statements::found(self.user(&id))
    }

    fn users(&self, workspace_id: &str) -> Result<Vec<User>, StoreError> {
        let rows = self.fetch(statements::select_users(workspace_id)).unwrap();
        statements::read_users(rows.into_iter().map(|row| Ok(user_row(row))).collect())
    }

    fn create_signin_link(
        &self,
        user_id: &str,
        token_hash: &str,
        expires_at: OffsetDateTime,
    ) -> Result<SigninLink, StoreError> {
        let (id, insert) = statements::new_signin_link(user_id, token_hash, expires_at)?;
        statements::acknowledged(self.execute(insert))?;
        let reply = self.one(statements::select_signin_link(&id));
        statements::found(statements::read_signin_link(
            reply.map(|row| row.map(link_row)),
        ))
    }

    fn signin_link_by_hash(&self, token_hash: &str) -> Result<Option<SigninLink>, StoreError> {
        let reply = self.one(statements::select_signin_link_by_hash(token_hash));
        statements::read_signin_link(reply.map(|row| row.map(link_row)))
    }

    fn consume_signin_link(&self, id: &str, at: OffsetDateTime) -> Result<(), StoreError> {
        statements::touched(self.execute(statements::consume_signin_link(id, at)?))
    }
}

fn account(workspace_id: &str, email: &str, name: &str, role: Role) -> NewUser {
    NewUser {
        workspace_id: workspace_id.to_string(),
        email: email.to_string(),
        display_name: name.to_string(),
        role,
    }
}

fn workspace_with_admin() -> (Scratch, String, String) {
    let scratch = Scratch::open();
    let ws = scratch.create_workspace("Dizey").unwrap();
    let admin = scratch
        .create_user(account(&ws.id, "ada@dizey.sh", "Ada", Role::Admin))
        .unwrap();
    (scratch, ws.id, admin.id)
}

fn later(at: OffsetDateTime, seconds: i64) -> OffsetDateTime {
    OffsetDateTime::new(at.unix_timestamp() + seconds, at.nanosecond(), at.whole_offset()).unwrap()
}

#[test]
fn migrations_apply_once_and_survive_reopen() {
    let scratch = Scratch::open();
    assert_eq!(schema::schema_version(&scratch.applied()), 1);
    scratch.create_workspace("Dizey").unwrap();
    // Bringing the schema up again must not run the migration again, which
    // would fail on its tables, and must not lose what was written.
    assert_eq!(scratch.migrate(), 0);
    assert_eq!(schema::schema_version(&scratch.applied()), 1);
    assert_eq!(scratch.workspace().unwrap().unwrap().name, "Dizey");
}

#[test]
fn a_database_holds_exactly_one_workspace() {
    let scratch = Scratch::open();
    assert!(scratch.workspace().unwrap().is_none());
    scratch.create_workspace("Dizey").unwrap();
    let again = scratch.create_workspace("Other");
    assert!(matches!(again, Err(StoreError::Conflict("workspace"))));
}

#[test]
fn workspace_defaults_match_the_settings_screen() {
    let scratch = Scratch::open();
    let ws = scratch.create_workspace("Dizey").unwrap();
    assert_eq!(ws.attachment_limit_bytes, 25 * 1024 * 1024);
    assert_eq!(ws.photo_limit_bytes, 2 * 1024 * 1024);
    assert!(ws.allowed_file_types.is_empty(), "every type until narrowed");
    assert_eq!(ws.who_can_delete_tasks, DeletePolicy::Anyone);
    assert!(ws.smtp_host.is_none());
}

#[test]
fn smtp_password_is_never_part_of_the_workspace_record() {
    let (scratch, ws_id, _) = workspace_with_admin();
    let update = statements::update_smtp(
        &ws_id,
        "smtp.fastmail.com",
        465,
        "dizey",
        "hunter2",
        "Dizey",
        "dizey@dizey.sh",
    );
    statements::acknowledged(scratch.execute(update)).unwrap();

    let ws = scratch.workspace().unwrap().unwrap();
    assert_eq!(ws.smtp_host.as_deref(), Some("smtp.fastmail.com"));
    assert_eq!(ws.smtp_port, Some(465));
    assert_eq!(ws.smtp_from_address.as_deref(), Some("dizey@dizey.sh"));
    // The only way to the password is the mailer's own call.
    let printed = format!("{ws:?}");
    assert!(!printed.contains("hunter2"), "{printed}");
    let reply = scratch.one(statements::select_smtp_password(&ws_id));
    let password = statements::read_smtp_password(
        reply.map(|row| row.map(|row| row.get::<Option<String>>(0).map_err(words))),
    );
    assert_eq!(password.unwrap().as_deref(), Some("hunter2"));
}

#[test]
fn limits_round_trip_including_the_file_type_list() {
    let (scratch, ws_id, _) = workspace_with_admin();
    let types = vec!["png".to_string(), "pdf".to_string()];
    let update = statements::update_limits(
        &ws_id,
        10 * 1024 * 1024,
        512 * 1024,
        &types,
        DeletePolicy::Admin,
    )
    .unwrap();
    statements::acknowledged(scratch.execute(update)).unwrap();
    let ws = scratch.workspace().unwrap().unwrap();
    assert_eq!(ws.attachment_limit_bytes, 10 * 1024 * 1024);
    assert_eq!(ws.photo_limit_bytes, 512 * 1024);
    assert_eq!(ws.allowed_file_types, types);
    assert_eq!(ws.who_can_delete_tasks, DeletePolicy::Admin);
}

#[test]
fn new_limits_leave_the_rest_of_the_workspace_alone() {
    let (scratch, ws_id, _) = workspace_with_admin();
    let smtp = statements::update_smtp(
        &ws_id,
        "smtp.fastmail.com",
        465,
        "dizey",
        "hunter2",
        "Dizey",
        "dizey@dizey.sh",
    );
    statements::acknowledged(scratch.execute(smtp)).unwrap();
    let before = scratch.workspace().unwrap().unwrap();
    let update = statements::update_limits(
        &ws_id,
        10 * 1024 * 1024,
        512 * 1024,
        &vec!["png".to_string()],
        DeletePolicy::Admin,
    )
    .unwrap();
    statements::acknowledged(scratch.execute(update)).unwrap();
    let after = scratch.workspace().unwrap().unwrap();
    assert_eq!(
        after,
        Workspace {
            attachment_limit_bytes: 10 * 1024 * 1024,
            photo_limit_bytes: 512 * 1024,
            allowed_file_types: vec!["png".to_string()],
            who_can_delete_tasks: DeletePolicy::Admin,
            ..before
        }
    );
}

#[test]
fn an_invited_member_has_no_password_until_they_choose_one() {
    let (scratch, ws_id, _) = workspace_with_admin();
    let member = scratch
        .create_user(account(&ws_id, "grace@dizey.sh", "Grace", Role::Member))
        .unwrap();
    assert!(member.password_hash.is_none());
    assert!(!member.has_signed_in());

    let update = statements::update_password_hash(&member.id, "$argon2id$fake");
    statements::touched(scratch.execute(update)).unwrap();
    let member = scratch.user(&member.id).unwrap().unwrap();
    assert!(member.has_signed_in());
}

#[test]
fn addresses_are_unique_and_case_insensitive() {
    let (scratch, ws_id, _) = workspace_with_admin();
    let dup = scratch.create_user(account(&ws_id, "  ADA@Dizey.sh ", "Ada again", Role::Member));
    assert!(matches!(dup, Err(StoreError::Conflict("account"))));
    assert!(scratch
        .user_by_email(&ws_id, "Ada@DIZEY.sh")
        .unwrap()
        .is_some());
}

#[test]
fn an_address_is_kept_as_typed_and_found_however_typed() {
    let (scratch, ws_id, _) = workspace_with_admin();
    let grace = scratch
        .create_user(account(&ws_id, "Grace@Dizey.sh", "Grace", Role::Member))
        .unwrap();
    assert_eq!(grace.email, "Grace@Dizey.sh");
    for typed in ["Grace@Dizey.sh", "GRACE@dizey.SH", "  grace@dizey.sh "] {
        let found = scratch.user_by_email(&ws_id, typed).unwrap().unwrap();
        assert_eq!(found, grace);
    }
}

#[test]
fn an_unknown_address_is_a_plain_none() {
    let (scratch, ws_id, _) = workspace_with_admin();
    assert!(scratch
        .user_by_email(&ws_id, "nobody@dizey.sh")
        .unwrap()
        .is_none());
}

#[test]
fn members_list_and_count_for_the_admin_screen() {
    let (scratch, ws_id, admin_id) = workspace_with_admin();
    for (email, name, role) in [
        ("grace@dizey.sh", "Grace", Role::Member),
        ("linus@dizey.sh", "Linus", Role::Viewer),
    ] {
        scratch
            .create_user(account(&ws_id, email, name, role))
            .unwrap();
    }
    let reply = scratch.one(statements::select_user_count(&ws_id));
    let count = statements::read_count(
        reply.map(|row| row.map(|row| row.get::<i64>(0).map_err(words))),
    );
    assert_eq!(count.unwrap(), 3);
    let users = scratch.users(&ws_id).unwrap();
    assert_eq!(users[0].id, admin_id);
    assert_eq!(users.iter().filter(|u| u.role == Role::Viewer).count(), 1);
}

#[test]
fn profile_and_role_updates_stick() {
    let (scratch, ws_id, _) = workspace_with_admin();
    let user = scratch
        .create_user(account(&ws_id, "grace@dizey.sh", "Grace", Role::Member))
        .unwrap();

    let profile = statements::update_profile(&user.id, "Grace H.", Some("photos/grace.png"));
    statements::touched(scratch.execute(profile)).unwrap();
    let role = statements::update_role(&user.id, Role::Viewer);
    statements::touched(scratch.execute(role)).unwrap();
    let at = OffsetDateTime::now_utc();
    let signed_in = statements::update_signed_in(&user.id, at).unwrap();
    statements::touched(scratch.execute(signed_in)).unwrap();

    let user = scratch.user(&user.id).unwrap().unwrap();
    assert_eq!(user.display_name, "Grace H.");
    assert_eq!(user.photo_path.as_deref(), Some("photos/grace.png"));
    assert_eq!(user.role, Role::Viewer);
    assert_eq!(
        user.last_signed_in_at.unwrap().unix_timestamp(),
        at.unix_timestamp()
    );

    // Clearing the photo is a real update, not a no-op.
    let cleared = statements::update_profile(&user.id, "Grace H.", None);
    statements::touched(scratch.execute(cleared)).unwrap();
    assert!(scratch.user(&user.id).unwrap().unwrap().photo_path.is_none());
}

#[test]
fn updates_to_a_missing_user_are_not_found() {
    let scratch = Scratch::open();
    let missing = "00000000-0000-4000-8000-000000000000";
    let password = statements::update_password_hash(missing, "x");
    assert!(matches!(
        statements::touched(scratch.execute(password)),
        Err(StoreError::NotFound)
    ));
    let role = statements::update_role(missing, Role::Member);
    assert!(matches!(
        statements::touched(scratch.execute(role)),
        Err(StoreError::NotFound)
    ));
}

#[test]
fn a_signin_link_stores_only_the_hash_and_is_used_once() {
    let (scratch, ws_id, _) = workspace_with_admin();
    let user = scratch
        .create_user(account(&ws_id, "grace@dizey.sh", "Grace", Role::Member))
        .unwrap();

    let now = OffsetDateTime::now_utc();
    let link = scratch
        .create_signin_link(&user.id, "hash-of-the-token", later(now, 7 * 86400))
        .unwrap();
    assert!(link.is_usable(now));

    // Lookup is by hash: the plaintext never reaches the database.
    assert!(scratch
        .signin_link_by_hash("hash-of-the-token")
        .unwrap()
        .is_some());
    assert!(scratch
        .signin_link_by_hash("some-other-hash")
        .unwrap()
        .is_none());

    scratch.consume_signin_link(&link.id, now).unwrap();
    let used = scratch
        .signin_link_by_hash("hash-of-the-token")
        .unwrap()
        .unwrap();
    assert!(!used.is_usable(now));
    // A second use finds nothing left to consume.
    assert!(matches!(
        scratch.consume_signin_link(&link.id, now),
        Err(StoreError::NotFound)
    ));
}

#[test]
fn a_used_link_keeps_its_first_moment() {
    let (scratch, ws_id, _) = workspace_with_admin();
    let user = scratch
        .create_user(account(&ws_id, "grace@dizey.sh", "Grace", Role::Member))
        .unwrap();
    let now = OffsetDateTime::now_utc();
    let link = scratch
        .create_signin_link(&user.id, "hash-of-the-token", later(now, 7 * 86400))
        .unwrap();
    scratch.consume_signin_link(&link.id, now).unwrap();
    assert!(matches!(
        scratch.consume_signin_link(&link.id, later(now, 60)),
        Err(StoreError::NotFound)
    ));
    let used = scratch.signin_link_by_hash("hash-of-the-token").unwrap().unwrap();
    assert_eq!(used.used_at, Some(now));
    assert!(matches!(
        scratch.consume_signin_link("no-such-link", now),
        Err(StoreError::NotFound)
    ));
}

#[test]
fn an_expired_link_is_still_a_live_account() {
    let (scratch, ws_id, _) = workspace_with_admin();
    let user = scratch
        .create_user(account(&ws_id, "grace@dizey.sh", "Grace", Role::Member))
        .unwrap();

    let now = OffsetDateTime::now_utc();
    let stale = scratch
        .create_signin_link(&user.id, "stale-hash", later(now, -3600))
        .unwrap();
    assert!(!stale.is_usable(now));

    // Resending opens the same account rather than making a new one.
    let fresh = scratch
        .create_signin_link(&user.id, "fresh-hash", later(now, 7 * 86400))
        .unwrap();
    assert_eq!(fresh.user_id, stale.user_id);
    assert!(fresh.is_usable(now));
    assert!(scratch.user(&user.id).unwrap().is_some());
}
