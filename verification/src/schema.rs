//! Bringing the schema up to date: which migrations are still owed, and what
//! records that one ran.

use crate::rows::Cell;
use crate::statements::{Bound, Statement, Value};
use crate::store::{backend, Fault, StoreError};
use vstd::prelude::*;

verus! {

/// What is set on every connection before anything else runs on it.
pub fn opening_pragmas() -> (r: (Statement, Statement))
    ensures
        r.0.says("PRAGMA foreign_keys = ON"@, seq![]),
        r.1.says("PRAGMA busy_timeout = 5000"@, seq![]),
{
    let none: Vec<Value> = Vec::new();
    assert(none.deep_view() =~= seq![]);
    let still_none: Vec<Value> = Vec::new();
    assert(still_none.deep_view() =~= seq![]);
    (
        Statement { sql: "PRAGMA foreign_keys = ON".to_owned(), params: none },
        Statement { sql: "PRAGMA busy_timeout = 5000".to_owned(), params: still_none },
    )
}

/// The table the applied versions are recorded in.
pub fn create_schema_version() -> (r: Statement)
    ensures
        r.says(
            "CREATE TABLE IF NOT EXISTS schema_version (version INTEGER PRIMARY KEY, applied_at TEXT NOT NULL)"@,
            seq![],
        ),
{
    let params: Vec<Value> = Vec::new();
    assert(params.deep_view() =~= seq![]);
    Statement {
        sql:
            "CREATE TABLE IF NOT EXISTS schema_version (version INTEGER PRIMARY KEY, applied_at TEXT NOT NULL)".to_owned(),
        params,
    }
}

pub fn select_versions() -> (r: Statement)
    ensures
        r.says("SELECT version FROM schema_version"@, seq![]),
{
    let params: Vec<Value> = Vec::new();
    assert(params.deep_view() =~= seq![]);
    Statement { sql: "SELECT version FROM schema_version".to_owned(), params }
}

/// Records that a migration ran, and when.
pub fn record_version(version: i64, moment: String) -> (r: Statement)
    ensures
        r.says(
            "INSERT INTO schema_version (version, applied_at) VALUES (?1, ?2)"@,
            seq![Bound::Integer(version as int), Bound::Text(moment@)],
        ),
{
    let mut params: Vec<Value> = Vec::new();
    params.push(Value::Integer(version));
    params.push(Value::Text(moment));
    assert(params.deep_view() =~= seq![Bound::Integer(version as int), Bound::Text(moment@)]);
    Statement {
        sql: "INSERT INTO schema_version (version, applied_at) VALUES (?1, ?2)".to_owned(),
        params,
    }
}

/// A fetched row hands over the version it records.
pub open spec fn hands_over(fetched: Result<Cell<i64>, String>, version: i64) -> bool {
    fetched matches Ok(Ok(read)) && read == version
}

/// A row that could not be fetched, or a cell that could not be read.
pub open spec fn version_fault(fetched: Result<Cell<i64>, String>) -> Option<Fault> {
    match fetched {
        Ok(Ok(_)) => None,
        Ok(Err(words)) => Some(Fault::Backend(words@)),
        Err(words) => Some(Fault::Backend(words@)),
    }
}

/// Reads the applied versions, one fetched row after the other; the first that
/// cannot be had ends it.
pub fn read_versions(fetched: Vec<Result<Cell<i64>, String>>) -> (r: Result<Vec<i64>, StoreError>)
    ensures
        match r {
            Ok(versions) => versions@.len() == fetched@.len() && forall|i: int|
                0 <= i < fetched@.len() ==> hands_over(#[trigger] fetched@[i], versions@[i]),
            Err(e) => exists|k: int|
                0 <= k < fetched@.len() && version_fault(#[trigger] fetched@[k]) == Some(
                    e.deep_view(),
                ) && forall|i: int| 0 <= i < k ==> version_fault(#[trigger] fetched@[i]) is None,
        },
{
    let ghost whole = fetched@;
    let mut versions: Vec<i64> = Vec::new();
    for one in it: fetched
        invariant
            it.seq() == whole,
            versions@.len() == it.index(),
            forall|i: int|
                0 <= i < it.index() ==> hands_over(#[trigger] whole[i], versions@[i]),
    {
        assert(whole[it.index() as int] == one);
        match one {
            Ok(Ok(version)) => {
                versions.push(version);
            },
            Ok(Err(words)) => {
                return Err(backend(words));
            },
            Err(words) => {
                return Err(backend(words));
            },
        }
    }
    Ok(versions)
}

/// The places of the migrations that have not been applied, in order.
pub open spec fn owed(migrations: Seq<i64>, applied: Seq<i64>) -> Seq<usize>
    decreases migrations.len(),
{
    if migrations.len() == 0 {
        Seq::empty()
    } else {
        let before = owed(migrations.drop_last(), applied);
        if applied.contains(migrations.last()) {
            before
        } else {
            before.push((migrations.len() - 1) as usize)
        }
    }
}

/// Which of the migrations, given by their versions, still have to run.
pub fn unapplied(migrations: &Vec<i64>, applied: &Vec<i64>) -> (r: Vec<usize>)
    ensures
        r@ == owed(migrations@, applied@),
{
    let mut r: Vec<usize> = Vec::new();
    let mut i: usize = 0;
    while i < migrations.len()
        invariant
            i <= migrations.len(),
            r@ == owed(migrations@.take(i as int), applied@),
        decreases migrations.len() - i,
    {
        let version: i64 = migrations[i];
        let mut known = false;
        let mut j: usize = 0;
        while j < applied.len()
            invariant
                j <= applied.len(),
                known == (exists|k: int| 0 <= k < j && #[trigger] applied@[k] == version),
            decreases applied.len() - j,
        {
            if applied[j] == version {
                known = true;
            }
            j = j + 1;
        }
        proof {
            let seen = migrations@.take(i + 1);
            assert(seen.drop_last() =~= migrations@.take(i as int));
            assert(seen.last() == version);
            assert(known == applied@.contains(version));
        }
        if !known {
            r.push(i);
        }
        i = i + 1;
    }
    assert(migrations@.take(migrations@.len() as int) =~= migrations@);
    r
}

/// The version a database with these applied migrations is at.
pub fn schema_version(applied: &Vec<i64>) -> (r: i64)
    ensures
        applied@.len() == 0 ==> r == 0,
        applied@.len() > 0 ==> applied@.contains(r) && forall|i: int|
            0 <= i < applied@.len() ==> #[trigger] applied@[i] <= r,
{
    if applied.len() == 0 {
        return 0;
    }
    let mut r: i64 = applied[0];
    let mut i: usize = 1;
    while i < applied.len()
        invariant
            1 <= i <= applied.len(),
            exists|k: int| 0 <= k < i && #[trigger] applied@[k] == r,
            forall|k: int| 0 <= k < i ==> #[trigger] applied@[k] <= r,
        decreases applied.len() - i,
    {
        if applied[i] > r {
            r = applied[i];
        }
        i = i + 1;
    }
    r
}

/// Migrations apply once: where every one that was owed has been recorded,
/// nothing is owed.
pub proof fn migrations_apply_once(migrations: Seq<i64>, applied: Seq<i64>, now_applied: Seq<i64>)
    requires
        forall|version: i64| #[trigger] applied.contains(version) ==> now_applied.contains(version),
        forall|place: usize| #[trigger]
            owed(migrations, applied).contains(place) ==> now_applied.contains(
                migrations[place as int],
            ),
        migrations.len() <= usize::MAX,
    ensures
        owed(migrations, now_applied) == Seq::<usize>::empty(),
    decreases migrations.len(),
{
    if migrations.len() > 0 {
        let rest = migrations.drop_last();
        let all = owed(migrations, applied);
        let before = owed(rest, applied);
        assert forall|place: usize| #[trigger] before.contains(place) implies now_applied.contains(
            rest[place as int],
        ) by {
            lemma_owed_places(rest, applied, place);
            let k = choose|k: int| 0 <= k < before.len() && before[k] == place;
            assert(all[k] == place);
            assert(all.contains(place));
            assert(rest[place as int] == migrations[place as int]);
        }
        migrations_apply_once(rest, applied, now_applied);
        if !applied.contains(migrations.last()) {
            let last = (migrations.len() - 1) as usize;
            assert(all[all.len() - 1] == last);
            assert(all.contains(last));
        }
    }
}

proof fn lemma_owed_places(migrations: Seq<i64>, applied: Seq<i64>, place: usize)
    requires
        owed(migrations, applied).contains(place),
        migrations.len() <= usize::MAX,
    ensures
        place < migrations.len(),
    decreases migrations.len(),
{
    if migrations.len() > 0 {
        let all = owed(migrations, applied);
        let before = owed(migrations.drop_last(), applied);
        let k = choose|k: int| 0 <= k < all.len() && all[k] == place;
        if k < before.len() {
            assert(before[k] == place);
            lemma_owed_places(migrations.drop_last(), applied, place);
        }
    }
}

/// Exactly the migrations that were not applied are owed, each once and in their
/// own order.
pub proof fn what_was_not_applied_is_owed(migrations: Seq<i64>, applied: Seq<i64>, k: int, l: int)
    requires
        migrations.len() <= usize::MAX,
    ensures
        0 <= k < migrations.len() ==> (owed(migrations, applied).contains(k as usize)
            <==> !applied.contains(migrations[k])),
        0 <= k < l < owed(migrations, applied).len() ==> owed(migrations, applied)[k] < owed(
            migrations,
            applied,
        )[l],
        0 <= k < owed(migrations, applied).len() ==> owed(migrations, applied)[k]
            < migrations.len(),
    decreases migrations.len(),
{
    if migrations.len() > 0 {
        let rest = migrations.drop_last();
        let before = owed(rest, applied);
        let all = owed(migrations, applied);
        let last = (migrations.len() - 1) as usize;
        what_was_not_applied_is_owed(rest, applied, k, l);
        if 0 <= k < all.len() {
            if k < before.len() {
                assert(all[k] == before[k]);
            }
        }
        if 0 <= k < l < all.len() {
            if l == before.len() {
                what_was_not_applied_is_owed(rest, applied, k, k);
            } else {
                assert(all[l] == before[l]);
            }
        }
        if 0 <= k < migrations.len() {
            if all.contains(k as usize) {
                let j = choose|j: int| 0 <= j < all.len() && all[j] == k as usize;
                if j < before.len() {
                    assert(before[j] == k as usize);
                    assert(before.contains(k as usize));
                    lemma_owed_places(rest, applied, k as usize);
                }
            }
            if before.contains(k as usize) {
                let j = choose|j: int| 0 <= j < before.len() && before[j] == k as usize;
                assert(all[j] == k as usize);
            }
            if k == last && !applied.contains(migrations.last()) {
                assert(all[all.len() - 1] == last);
            }
        }
    }
}

/// A row that could not be had is a fault, in the database's own words; a row that
/// could hands over the version in it.
pub proof fn a_version_is_had_or_refused(
    fetched: Result<Cell<i64>, String>,
    version: i64,
    words: String,
)
    ensures
        hands_over(Ok(Ok(version)), version),
        hands_over(fetched, version) ==> version_fault(fetched) is None,
        version_fault(Err(words)) == Some(Fault::Backend(words@)),
        version_fault(Ok(Err(words))) == Some(Fault::Backend(words@)),
        version_fault(fetched) is None ==> exists|v: i64| #[trigger] hands_over(fetched, v),
{
    if let Ok(Ok(v)) = fetched {
        assert(hands_over(fetched, v));
    }
}

} // verus!
