//! Records, rows, statements and replies of the storage boundary.

use iz::clock::OffsetDateTime;
use iz::rows::{
    count_of, limit_of, signin_link_from, user_from, workspace_from, SigninLinkRow, UserRow,
    WorkspaceRow,
};
use iz::schema::{
    create_schema_version, opening_pragmas, read_versions, record_version, schema_version,
    select_versions, unapplied,
};
use iz::statements::{
    acknowledged, consume_signin_link, fold_email, found, new_signin_link, new_user,
    new_workspace, read_count, read_signin_link, read_smtp_password, read_user, read_users,
    read_workspace, select_same_address, select_signin_link, select_signin_link_by_hash,
    select_smtp_password, select_user, select_user_by_email, select_user_count, select_users,
    select_workspace, signin_link_to_insert, touched, update_limits, update_password_hash,
    update_profile, update_role, update_signed_in, update_smtp, user_to_insert,
    workspace_to_insert, Statement, Value,
};
use iz::store::{
    now_text, parse_stamp, stamp, DeletePolicy, NewUser, Role, StoreError,
};

fn text(s: &str) -> Value {
    Value::Text(s.to_string())
}

fn ok(s: &str) -> Result<String, String> {
    Ok(s.to_string())
}

fn at(seconds: i64) -> OffsetDateTime {
    OffsetDateTime::new(seconds, 0, 0).unwrap()
}

fn workspace_row() -> WorkspaceRow {
    WorkspaceRow {
        id: ok("w1"),
        name: ok("Dizey"),
        created_at: ok("2026-09-15T15:00:00Z"),
        smtp_host: Ok(None),
        smtp_port: Ok(Some(465)),
        smtp_username: Ok(Some("dizey".to_string())),
        smtp_from_name: Ok(None),
        smtp_from_address: Ok(Some("dizey@dizey.sh".to_string())),
        attachment_limit_bytes: Ok(25 * 1024 * 1024),
        allowed_file_types: ok(""),
        photo_limit_bytes: Ok(2 * 1024 * 1024),
        who_can_delete_tasks: ok("anyone"),
    }
}

fn user_row() -> UserRow {
    UserRow {
        id: ok("u1"),
        workspace_id: ok("w1"),
        email: ok("grace@dizey.sh"),
        display_name: ok("Grace"),
        role: ok("member"),
        password_hash: Ok(None),
        photo_path: Ok(None),
        created_at: ok("2026-09-15T15:00:00Z"),
        last_signed_in_at: Ok(None),
    }
}

fn link_row() -> SigninLinkRow {
    SigninLinkRow {
        id: ok("l1"),
        user_id: ok("u1"),
        created_at: ok("2026-09-15T15:00:00Z"),
        expires_at: ok("2026-09-22T15:00:00Z"),
        used_at: Ok(None),
    }
}

fn new_member(email: &str) -> NewUser {
    NewUser {
        workspace_id: "w1".to_string(),
        email: email.to_string(),
        display_name: "Grace".to_string(),
        role: Role::Member,
    }
}

fn message<T>(r: Result<T, StoreError>) -> String {
    match r {
        Ok(_) => panic!("nothing was refused"),
        Err(e) => e.message(),
    }
}

#[test]
fn errors_are_told_in_sentences() {
    assert_eq!(StoreError::Backend("locked".to_string()).message(), "database: locked");
    assert_eq!(StoreError::NotFound.message(), "not found");
    assert_eq!(StoreError::Conflict("account").message(), "account already exists");
    assert_eq!(
        StoreError::Corrupt("role".to_string()).message(),
        "stored value is not valid: role"
    );
}

#[test]
fn policies_and_roles_survive_storage() {
    for policy in [DeletePolicy::Anyone, DeletePolicy::Admin] {
        assert_eq!(DeletePolicy::parse(policy.as_str()).unwrap(), policy);
    }
    assert_eq!(DeletePolicy::Anyone.as_str(), "anyone");
    assert_eq!(
        message(DeletePolicy::parse("no\"one")),
        "stored value is not valid: delete policy \"no\\\"one\""
    );
    for role in [Role::Admin, Role::Member, Role::Viewer] {
        assert_eq!(Role::parse(role.as_str()), Some(role));
    }
    assert_eq!(Role::parse("Admin"), None);
}

#[test]
fn a_workspace_is_read_out_of_its_row() {
    let ws = workspace_from(workspace_row()).unwrap();
    assert_eq!(ws.id, "w1");
    assert_eq!(ws.name, "Dizey");
    assert_eq!(ws.created_at.unix_timestamp(), 1_789_484_400);
    assert!(ws.smtp_host.is_none());
    assert_eq!(ws.smtp_port, Some(465));
    assert_eq!(ws.smtp_username.as_deref(), Some("dizey"));
    assert_eq!(ws.smtp_from_address.as_deref(), Some("dizey@dizey.sh"));
    assert_eq!(ws.attachment_limit_bytes, 25 * 1024 * 1024);
    assert_eq!(ws.photo_limit_bytes, 2 * 1024 * 1024);
    assert!(ws.allowed_file_types.is_empty(), "every type until narrowed");
    assert_eq!(ws.who_can_delete_tasks, DeletePolicy::Anyone);

    let blank = WorkspaceRow {
        allowed_file_types: ok(" \n"),
        attachment_limit_bytes: Ok(-3),
        ..workspace_row()
    };
    let ws = workspace_from(blank).unwrap();
    assert!(ws.allowed_file_types.is_empty());
    assert_eq!(ws.attachment_limit_bytes, 0);
}

#[test]
fn the_first_fault_of_a_row_is_the_one_told() {
    let broken = || WorkspaceRow {
        id: Err("no id".to_string()),
        created_at: ok("never"),
        who_can_delete_tasks: ok("nobody"),
        ..workspace_row()
    };
    // The file types are read before everything else.
    let types = WorkspaceRow {
        allowed_file_types: ok("[1]"),
        ..broken()
    };
    let told = message(workspace_from(types));
    assert!(
        told.starts_with("stored value is not valid: allowed_file_types: invalid type: integer"),
        "{told}"
    );
    assert_eq!(message(workspace_from(broken())), "database: no id");
    let stamped = WorkspaceRow {
        id: ok("w1"),
        ..broken()
    };
    let told = message(workspace_from(stamped));
    assert!(told.starts_with("stored value is not valid: timestamp \"never\": "), "{told}");
    let policy = WorkspaceRow {
        id: ok("w1"),
        created_at: ok("2026-09-15T15:00:00Z"),
        ..broken()
    };
    assert_eq!(
        message(workspace_from(policy)),
        "stored value is not valid: delete policy \"nobody\""
    );
}

#[test]
fn an_account_is_read_out_of_its_row() {
    let user = user_from(user_row()).unwrap();
    assert_eq!(user.email, "grace@dizey.sh");
    assert_eq!(user.role, Role::Member);
    assert!(!user.has_signed_in());
    assert!(user.last_signed_in_at.is_none());

    let signed_in = UserRow {
        password_hash: Ok(Some("$argon2id$fake".to_string())),
        photo_path: Ok(Some("photos/grace.png".to_string())),
        last_signed_in_at: Ok(Some("2026-09-15T18:00:00+03:00".to_string())),
        ..user_row()
    };
    let user = user_from(signed_in).unwrap();
    assert!(user.has_signed_in());
    assert_eq!(user.photo_path.as_deref(), Some("photos/grace.png"));
    assert_eq!(user.last_signed_in_at.unwrap().unix_timestamp(), 1_789_484_400);

    let role = UserRow {
        role: ok("owner"),
        password_hash: Err("gone".to_string()),
        ..user_row()
    };
    assert_eq!(message(user_from(role)), "stored value is not valid: role");
    let stamp = UserRow {
        last_signed_in_at: Ok(Some(String::new())),
        ..user_row()
    };
    assert!(message(user_from(stamp)).starts_with("stored value is not valid: timestamp \"\": "));
}

#[test]
fn a_link_is_usable_until_it_is_used_or_expires() {
    let link = signin_link_from(link_row()).unwrap();
    let expiry = link.expires_at.unix_timestamp();
    assert!(link.is_usable(at(expiry - 1)));
    assert!(!link.is_usable(at(expiry)));
    let used = SigninLinkRow {
        used_at: Ok(Some("2026-09-16T00:00:00Z".to_string())),
        ..link_row()
    };
    assert!(!signin_link_from(used).unwrap().is_usable(at(expiry - 1)));
    let broken = SigninLinkRow {
        user_id: Err("no user".to_string()),
        ..link_row()
    };
    assert_eq!(message(signin_link_from(broken)), "database: no user");
}

#[test]
fn a_moment_survives_storage() {
    let raw = stamp(at(1_789_484_400)).unwrap();
    assert_eq!(raw, "2026-09-15T15:00:00Z");
    assert_eq!(parse_stamp(&raw).unwrap(), at(1_789_484_400));
    let ancient = stamp(at(-62_167_219_201));
    assert!(message(ancient).starts_with("stored value is not valid: timestamp: "));
    assert!(parse_stamp(&now_text().unwrap()).is_ok());
}

#[test]
fn limits_round_trip_including_the_file_types() {
    let types = vec!["png".to_string(), "p\"df\u{7}".to_string()];
    let statement =
        update_limits("w1", 10 * 1024 * 1024, 512 * 1024, &types, DeletePolicy::Admin).unwrap();
    assert_eq!(
        statement.sql,
        "UPDATE workspace SET attachment_limit_bytes = ?1, photo_limit_bytes = ?2, \
         allowed_file_types = ?3, who_can_delete_tasks = ?4 WHERE id = ?5"
    );
    let (attachment, photo, list, policy) = match &statement.params[..] {
        [Value::Integer(a), Value::Integer(p), Value::Text(list), Value::Text(policy), id] => {
            assert_eq!(id, &text("w1"));
            (*a, *p, list.clone(), policy.clone())
        }
        other => panic!("{other:?}"),
    };
    let row = WorkspaceRow {
        attachment_limit_bytes: Ok(attachment),
        photo_limit_bytes: Ok(photo),
        allowed_file_types: Ok(list),
        who_can_delete_tasks: Ok(policy),
        ..workspace_row()
    };
    let ws = workspace_from(row).unwrap();
    assert_eq!(ws.attachment_limit_bytes, 10 * 1024 * 1024);
    assert_eq!(ws.photo_limit_bytes, 512 * 1024);
    assert_eq!(ws.allowed_file_types, types);
    assert_eq!(ws.who_can_delete_tasks, DeletePolicy::Admin);
    let none = update_limits("w1", 0, 0, &Vec::new(), DeletePolicy::Anyone).unwrap();
    assert_eq!(none.params[2], text("[]"));
}

#[test]
fn a_limit_is_stored_as_its_bits() {
    for bytes in [0, 1, i64::MAX as u64, 1 << 63, u64::MAX - 1, u64::MAX] {
        assert_eq!(limit_of(bytes), bytes as i64);
    }
    assert_eq!(count_of(limit_of(1 << 63)), 0);
    assert_eq!(count_of(i64::MIN), 0);
    assert_eq!(count_of(7), 7);
}

#[test]
fn addresses_are_matched_without_case_or_space() {
    assert_eq!(fold_email("  ADA@Dizey.sh "), "ada@dizey.sh");
    assert_eq!(fold_email("Ada@DIZEY.sh"), "ada@dizey.sh");
    assert_eq!(fold_email("\u{2003}ÖZGE@dizey.sh\n"), "özge@dizey.sh");
    assert_eq!(
        select_user_by_email("w1", " Ada@DIZEY.sh").params,
        vec![text("w1"), text("ada@dizey.sh")]
    );
    assert_eq!(
        select_same_address(&new_member(" ADA@dizey.sh")).params,
        vec![text("w1"), text("ada@dizey.sh")]
    );
}

#[test]
fn a_database_holds_one_workspace() {
    let statement =
        workspace_to_insert(Ok(None), "Dizey", "w1".to_string(), Ok("now".to_string())).unwrap();
    assert_eq!(
        statement,
        Statement {
            sql: "INSERT INTO workspace (id, name, created_at) VALUES (?1, ?2, ?3)".to_string(),
            params: vec![text("w1"), text("Dizey"), text("now")],
        }
    );
    let again = workspace_to_insert(
        Ok(Some(workspace_row())),
        "Other",
        "w2".to_string(),
        Ok("now".to_string()),
    );
    assert!(matches!(again, Err(StoreError::Conflict("workspace"))));
    let broken = WorkspaceRow {
        name: Err("torn".to_string()),
        ..workspace_row()
    };
    let told = new_workspace(Ok(Some(broken)), "Other");
    assert_eq!(message(told), "database: torn");
    assert_eq!(message(new_workspace(Err("down".to_string()), "Other")), "database: down");
    let late = workspace_to_insert(
        Ok(None),
        "Dizey",
        "w1".to_string(),
        Err(StoreError::Corrupt("timestamp: x".to_string())),
    );
    assert!(matches!(late, Err(StoreError::Corrupt(_))));
}

#[test]
fn an_address_has_one_account() {
    let statement = user_to_insert(
        Ok(None),
        new_member(" Grace@Dizey.sh"),
        "u9".to_string(),
        Ok("now".to_string()),
    )
    .unwrap();
    assert_eq!(
        statement,
        Statement {
            sql: "INSERT INTO user (id, workspace_id, email, email_key, display_name, role, \
                  created_at) VALUES (?1, ?2, ?3, ?4, ?5, ?6, ?7)"
                .to_string(),
            params: vec![
                text("u9"),
                text("w1"),
                text(" Grace@Dizey.sh"),
                text("grace@dizey.sh"),
                text("Grace"),
                text("member"),
                text("now"),
            ],
        }
    );
    let dup = new_user(Ok(Some(user_row())), new_member("grace@dizey.sh"));
    assert!(matches!(dup, Err(StoreError::Conflict("account"))));
    assert_eq!(message(new_user(Err("down".to_string()), new_member("a"))), "database: down");
}

/// Thirty-two lower-case hexadecimal digits in groups, a random identifier.
fn looks_random(id: &str) -> bool {
    let groups: Vec<&str> = id.split('-').collect();
    groups.iter().map(|group| group.len()).collect::<Vec<_>>() == vec![8, 4, 4, 4, 12]
        && id.chars().all(|c| c == '-' || c.is_ascii_digit() || ('a'..='f').contains(&c))
        && groups[2].starts_with('4')
        && ["8", "9", "a", "b"].iter().any(|v| groups[3].starts_with(v))
}

#[test]
fn new_rows_get_fresh_ids_and_this_moment() {
    let (id, statement) = new_user(Ok(None), new_member("grace@dizey.sh")).unwrap();
    assert!(looks_random(&id), "{id}");
    assert_eq!(statement.params[0], text(&id));
    match &statement.params[6] {
        Value::Text(moment) => assert!(parse_stamp(moment).is_ok()),
        other => panic!("{other:?}"),
    }
    let (other, _) = new_user(Ok(None), new_member("grace@dizey.sh")).unwrap();
    assert_ne!(id, other);
    let statement = new_workspace(Ok(None), "Dizey").unwrap();
    match &statement.params[0] {
        Value::Text(id) => assert!(looks_random(id), "{id}"),
        other => panic!("{other:?}"),
    }
    let (id, statement) = new_signin_link("u1", "hash", at(1_789_484_400)).unwrap();
    assert!(looks_random(&id));
    assert_eq!(statement.params[4], text("2026-09-15T15:00:00Z"));
}

#[test]
fn a_link_stores_only_the_hash() {
    let statement = signin_link_to_insert(
        "l1".to_string(),
        "u1",
        "hash-of-the-token",
        Ok("now".to_string()),
        at(1_789_484_400),
    )
    .unwrap();
    assert_eq!(
        statement.sql,
        "INSERT INTO signin_link (id, user_id, token_hash, created_at, expires_at) \
         VALUES (?1, ?2, ?3, ?4, ?5)"
    );
    assert_eq!(
        statement.params,
        vec![
            text("l1"),
            text("u1"),
            text("hash-of-the-token"),
            text("now"),
            text("2026-09-15T15:00:00Z"),
        ]
    );
    let never = signin_link_to_insert(
        "l1".to_string(),
        "u1",
        "h",
        Ok("now".to_string()),
        at(-62_167_219_201),
    );
    assert!(matches!(never, Err(StoreError::Corrupt(_))));
    let spent = consume_signin_link("l1", at(1_789_484_400)).unwrap();
    assert_eq!(
        spent.sql,
        "UPDATE signin_link SET used_at = ?1 WHERE id = ?2 AND used_at IS NULL"
    );
    assert_eq!(spent.params, vec![text("2026-09-15T15:00:00Z"), text("l1")]);
    assert!(consume_signin_link("l1", at(-62_167_219_201)).is_err());
}

#[test]
fn statements_say_what_they_bind() {
    assert_eq!(
        select_workspace().sql,
        "SELECT id, name, created_at, smtp_host, smtp_port, smtp_username, smtp_from_name, \
         smtp_from_address, attachment_limit_bytes, allowed_file_types, photo_limit_bytes, \
         who_can_delete_tasks FROM workspace LIMIT 1"
    );
    let smtp = update_smtp("w1", "smtp.fastmail.com", 465, "dizey", "hunter2", "Dizey", "d@d.sh");
    assert_eq!(
        smtp.params,
        vec![
            text("smtp.fastmail.com"),
            Value::Integer(465),
            text("dizey"),
            text("hunter2"),
            text("Dizey"),
            text("d@d.sh"),
            text("w1"),
        ]
    );
    assert_eq!(
        select_smtp_password("w1").sql,
        "SELECT smtp_password FROM workspace WHERE id = ?1"
    );
    let columns = "id, workspace_id, email, display_name, role, password_hash, photo_path, \
                   created_at, last_signed_in_at";
    assert_eq!(select_user("u1").sql, format!("SELECT {columns} FROM user WHERE id = ?1"));
    assert_eq!(
        select_users("w1").sql,
        format!("SELECT {columns} FROM user WHERE workspace_id = ?1 ORDER BY created_at, id")
    );
    assert_eq!(
        select_user_count("w1").sql,
        "SELECT COUNT(*) FROM user WHERE workspace_id = ?1"
    );
    assert_eq!(update_password_hash("u1", "h").params, vec![text("h"), text("u1")]);
    assert_eq!(
        update_profile("u1", "Grace H.", Some("p.png")).params,
        vec![text("Grace H."), text("p.png"), text("u1")]
    );
    assert_eq!(update_profile("u1", "Grace H.", None).params[1], Value::Null);
    assert_eq!(update_role("u1", Role::Viewer).params, vec![text("viewer"), text("u1")]);
    let signed_in = update_signed_in("u1", at(0)).unwrap();
    assert_eq!(signed_in.params, vec![text("1970-01-01T00:00:00Z"), text("u1")]);
    assert_eq!(
        select_signin_link("l1").sql,
        "SELECT id, user_id, created_at, expires_at, used_at FROM signin_link WHERE id = ?1"
    );
    assert_eq!(
        select_signin_link_by_hash("h").sql,
        "SELECT id, user_id, created_at, expires_at, used_at FROM signin_link \
         WHERE token_hash = ?1"
    );
}

#[test]
fn replies_come_to_records_or_errors() {
    assert!(matches!(touched(Ok(0)), Err(StoreError::NotFound)));
    assert!(touched(Ok(1)).is_ok());
    assert_eq!(message(touched(Err("locked".to_string()))), "database: locked");
    assert!(acknowledged(Ok(0)).is_ok());
    assert_eq!(message(acknowledged(Err("locked".to_string()))), "database: locked");
    assert!(matches!(found::<u8>(Ok(None)), Err(StoreError::NotFound)));
    assert_eq!(found(Ok(Some(3u8))).unwrap(), 3);
    assert!(read_workspace(Ok(None)).unwrap().is_none());
    assert_eq!(read_workspace(Ok(Some(workspace_row()))).unwrap().unwrap().id, "w1");
    assert!(read_user(Ok(None)).unwrap().is_none());
    assert!(read_signin_link(Ok(Some(link_row()))).unwrap().is_some());
    assert_eq!(message(read_signin_link(Err("x".to_string()))), "database: x");
    assert!(matches!(read_smtp_password(Ok(None)), Err(StoreError::NotFound)));
    assert_eq!(
        read_smtp_password(Ok(Some(Ok(Some("hunter2".to_string()))))).unwrap(),
        Some("hunter2".to_string())
    );
    assert_eq!(message(read_smtp_password(Ok(Some(Err("x".to_string()))))), "database: x");
    assert_eq!(read_count(Ok(None)).unwrap(), 0);
    assert_eq!(read_count(Ok(Some(Ok(3)))).unwrap(), 3);
    assert_eq!(read_count(Ok(Some(Ok(-1)))).unwrap(), 0);
    assert_eq!(message(read_count(Ok(Some(Err("x".to_string()))))), "database: x");
    assert_eq!(message(read_count(Err("y".to_string()))), "database: y");
}

#[test]
fn the_account_list_ends_at_its_first_fault() {
    let users = read_users(vec![
        Ok(user_row()),
        Ok(UserRow {
            id: ok("u2"),
            ..user_row()
        }),
    ])
    .unwrap();
    assert_eq!(users.len(), 2);
    assert_eq!(users[1].id, "u2");
    let torn = UserRow {
        email: Err("torn".to_string()),
        ..user_row()
    };
    let told = message(read_users(vec![Ok(user_row()), Ok(torn), Err("late".to_string())]));
    assert_eq!(told, "database: torn");
    let told = message(read_users(vec![Err("late".to_string())]));
    assert_eq!(told, "database: late");
}

#[test]
fn migrations_apply_once() {
    let migrations = vec![1, 2, 3];
    assert_eq!(unapplied(&migrations, &vec![]), vec![0, 1, 2]);
    assert_eq!(unapplied(&migrations, &vec![2]), vec![0, 2]);
    assert!(unapplied(&migrations, &vec![3, 1, 2]).is_empty());
    assert_eq!(schema_version(&vec![]), 0);
    assert_eq!(schema_version(&vec![1, 3, 2]), 3);
    assert_eq!(schema_version(&vec![-4]), -4);
    assert_eq!(read_versions(vec![Ok(Ok(1)), Ok(Ok(2))]).unwrap(), vec![1, 2]);
    assert_eq!(
        message(read_versions(vec![Ok(Ok(1)), Ok(Err("x".to_string()))])),
        "database: x"
    );
    assert_eq!(message(read_versions(vec![Err("y".to_string())])), "database: y");
    assert_eq!(
        record_version(1, "now".to_string()).params,
        vec![Value::Integer(1), text("now")]
    );
    assert!(create_schema_version().sql.starts_with("CREATE TABLE IF NOT EXISTS schema_version"));
    assert_eq!(select_versions().sql, "SELECT version FROM schema_version");
    let (keys, patience) = opening_pragmas();
    assert_eq!(keys.sql, "PRAGMA foreign_keys = ON");
    assert_eq!(patience.sql, "PRAGMA busy_timeout = 5000");
}
