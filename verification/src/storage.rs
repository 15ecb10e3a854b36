//! How attachments reach the family's Files service, and how the Settings card
//! sees that service.

use crate::clock::{Duration, Moment};
use crate::directory::{age_of, is_age};
use crate::text;
use vstd::prelude::*;

verus! {

// ---------------------------------------------------------------------------
// The client
// ---------------------------------------------------------------------------

/// Why a storage call did not do what it was asked.
#[derive(Debug, Clone, PartialEq, Eq)]
pub enum StorageProblem {
    /// The service did not answer at all: down, mid-deploy, unreachable.
    Unreachable,
    /// The push was refused because the account's bytes are spent.
    Quota,
    /// The service answered with something unusable. The words are for the log
    /// and the card's "last problem", never for a page.
    Other(String),
}

/// What a [`StorageProblem`] says.
pub enum Trouble {
    Unreachable,
    Quota,
    Other(Seq<char>),
}

impl DeepView for StorageProblem {
    type V = Trouble;

    open spec fn deep_view(&self) -> Trouble {
        match self {
            StorageProblem::Unreachable => Trouble::Unreachable,
            StorageProblem::Quota => Trouble::Quota,
            StorageProblem::Other(words) => Trouble::Other(words@),
        }
    }
}

/// What the service reports about the account: the limit that was set, and how
/// much of it the stored attachments hold.
#[derive(Debug, Clone, Copy, PartialEq, Eq, Structural)]
pub struct Status {
    pub quota_bytes: u64,
    pub used_bytes: u64,
}

/// Where the service answers for its health.
pub fn probe_url(url: &str) -> (r: String)
    ensures
        r@ == url@ + "/healthz"@,
{
    text::join2(url, "/healthz")
}

/// Where it reports the account.
pub fn status_url(url: &str) -> (r: String)
    ensures
        r@ == url@ + "/api/service/status"@,
{
    text::join2(url, "/api/service/status")
}

/// Where it takes files.
pub fn files_url(url: &str) -> (r: String)
    ensures
        r@ == url@ + "/api/service/files"@,
{
    text::join2(url, "/api/service/files")
}

/// Where it keeps one file.
pub fn file_url(url: &str, external_id: &str) -> (r: String)
    ensures
        r@ == url@ + "/api/service/file/"@ + external_id@,
{
    text::join3(url, "/api/service/file/", external_id)
}

/// The key every call carries. A deployment without one refuses before touching
/// the wire.
pub fn bearer(token: &Option<String>) -> (r: Result<&String, StorageProblem>)
    ensures
        match token {
            Some(key) => r == Ok::<&String, StorageProblem>(key),
            None => r matches Err(problem) && problem.deep_view() == Trouble::Other("no key"@),
        },
{
    match token {
        Some(key) => Ok(key),
        None => Err(StorageProblem::Other("no key".to_owned())),
    }
}

/// A text parses as a media type.
pub uninterp spec fn is_media_type(mime: Seq<char>) -> bool;

/// `reqwest::multipart::Part::mime_str`: whether a text parses as a media type.
#[verifier::external_body]
pub(crate) fn parses_as_media_type(mime: &str) -> (r: bool)
    ensures
        r == is_media_type(mime@),
{
    reqwest::multipart::Part::bytes(Vec::new()).mime_str(mime).is_ok()
}

/// What keeps a push from being made, for a media type that does or does not
/// parse.
pub open spec fn push_trouble(token: Option<String>, mime: Seq<char>, parses: bool) -> Option<
    Trouble,
> {
    if token is None {
        Some(Trouble::Other("no key"@))
    } else if !parses {
        Some(Trouble::Other("mime "@ + text::quoted(mime)))
    } else {
        None
    }
}

/// Whether a push can be made: it takes a key and a media type.
pub fn push_check(token: &Option<String>, mime: &str, parses: bool) -> (r: Result<
    (),
    StorageProblem,
>)
    ensures
        match r {
            Ok(_) => push_trouble(*token, mime@, parses) is None,
            Err(problem) => push_trouble(*token, mime@, parses) == Some(problem.deep_view()),
        },
{
    match bearer(token) {
        Err(problem) => Err(problem),
        Ok(_) => if parses {
            Ok(())
        } else {
            Err(StorageProblem::Other(text::join2("mime ", text::quoted_text(mime).as_str())))
        },
    }
}

/// [`push_check`] of a media type as it stands.
pub fn may_push(token: &Option<String>, mime: &str) -> (r: Result<(), StorageProblem>)
    ensures
        match r {
            Ok(_) => push_trouble(*token, mime@, is_media_type(mime@)) is None,
            Err(problem) => push_trouble(*token, mime@, is_media_type(mime@)) == Some(
                problem.deep_view(),
            ),
        },
{
    let parses = parses_as_media_type(mime);
    push_check(token, mime, parses)
}

/// The texts two fields of a JSON object hold: nothing where the body is no
/// JSON, and no text for a field that is missing or holds something else.
pub uninterp spec fn json_texts(body: Seq<u8>, one: Seq<char>, other: Seq<char>) -> Option<
    (Option<Seq<char>>, Option<Seq<char>>),
>;

/// `serde_json::from_slice` into a `Value`, and `get` and `as_str` of two of its
/// fields.
#[verifier::external_body]
pub(crate) fn read_json_texts(body: &[u8], one: &str, other: &str) -> (r: Option<
    (Option<String>, Option<String>),
>)
    ensures
        r.deep_view() == json_texts(body@, one@, other@),
{
    let value: serde_json::Value = serde_json::from_slice(body).ok()?;
    let text = |key: &str| value.get(key).and_then(|v| v.as_str()).map(|s| s.to_string());
    Some((text(one), text(other)))
}

/// What a push comes to, given the `ok` and the `err` of the answer: the file's
/// id, the spent quota, or words.
pub open spec fn push_outcome(
    fields: Option<(Option<Seq<char>>, Option<Seq<char>>)>,
    undecodable: Seq<char>,
) -> Result<Seq<char>, Trouble> {
    match fields {
        None => Err(Trouble::Other(undecodable)),
        Some((Some(id), _)) => Ok(id),
        Some((None, Some(err))) => if err == "QuotaExceeded"@ {
            Err(Trouble::Quota)
        } else {
            Err(Trouble::Other(err))
        },
        Some((None, None)) => Err(Trouble::Other("unusable answer"@)),
    }
}

/// A push's result as an id, or its trouble.
pub open spec fn outcome_of(r: Result<String, StorageProblem>) -> Result<Seq<char>, Trouble> {
    match r {
        Ok(id) => Ok(id@),
        Err(problem) => Err(problem.deep_view()),
    }
}

/// What a push comes to, once its answer has been decoded. `undecodable` are
/// the words for an answer that is no JSON.
pub fn push_answer(fields: Option<(Option<String>, Option<String>)>, undecodable: &str) -> (r:
    Result<String, StorageProblem>)
    ensures
        outcome_of(r) == push_outcome(fields.deep_view(), undecodable@),
{
    match fields {
        None => Err(StorageProblem::Other(undecodable.to_owned())),
        Some((Some(id), _)) => Ok(id),
        Some((None, Some(err))) => if *err.as_str() == *"QuotaExceeded" {
            Err(StorageProblem::Quota)
        } else {
            Err(StorageProblem::Other(err))
        },
        Some((None, None)) => Err(StorageProblem::Other("unusable answer".to_owned())),
    }
}

/// What a push comes to, from the body of its answer.
pub fn read_push(body: &[u8], undecodable: &str) -> (r: Result<String, StorageProblem>)
    ensures
        outcome_of(r) == push_outcome(json_texts(body@, "ok"@, "err"@), undecodable@),
{
    let fields = read_json_texts(body, "ok", "err");
    push_answer(fields, undecodable)
}

/// How a call was answered: whether its status says success, and the status in
/// words. Nothing where the service did not answer.
#[derive(Debug, Clone, PartialEq, Eq)]
pub struct Answer {
    pub success: bool,
    pub status: String,
}

/// Fetching a file back. The row exists, so an unreachable service is a problem
/// to say so, never a not-found.
pub fn read_fetch(answer: Option<Answer>, body: Option<Vec<u8>>) -> (r: Result<
    Vec<u8>,
    StorageProblem,
>)
    ensures
        match answer {
            None => r matches Err(problem) && problem.deep_view() == Trouble::Unreachable,
            Some(reply) => if !reply.success {
                r matches Err(problem) && problem.deep_view() == Trouble::Other(
                    "fetch answered "@ + reply.status@,
                )
            } else {
                match body {
                    None => r matches Err(problem) && problem.deep_view() == Trouble::Unreachable,
                    Some(bytes) => r == Ok::<Vec<u8>, StorageProblem>(bytes),
                }
            },
        },
{
    match answer {
        None => Err(StorageProblem::Unreachable),
        Some(reply) => if !reply.success {
            Err(StorageProblem::Other(text::join2("fetch answered ", reply.status.as_str())))
        } else {
            match body {
                None => Err(StorageProblem::Unreachable),
                Some(bytes) => Ok(bytes),
            }
        },
    }
}

/// Taking a file away.
pub fn read_delete(answer: Option<Answer>) -> (r: Result<(), StorageProblem>)
    ensures
        match answer {
            None => r matches Err(problem) && problem.deep_view() == Trouble::Unreachable,
            Some(reply) => if reply.success {
                r is Ok
            } else {
                r matches Err(problem) && problem.deep_view() == Trouble::Other(
                    "delete answered "@ + reply.status@,
                )
            },
        },
{
    match answer {
        None => Err(StorageProblem::Unreachable),
        Some(reply) => if reply.success {
            Ok(())
        } else {
            Err(StorageProblem::Other(text::join2("delete answered ", reply.status.as_str())))
        },
    }
}

/// How many characters of a problem the card shows.
pub const WORD_KEPT: usize = 40;

/// A storage problem as the card's one word for it.
pub open spec fn word_of(trouble: Trouble) -> Seq<char> {
    match trouble {
        Trouble::Unreachable => "unreachable"@,
        Trouble::Quota => "quota"@,
        Trouble::Other(words) => text::head(words, WORD_KEPT as nat),
    }
}

/// A storage problem as the card's one word for it.
pub fn problem_word(problem: &StorageProblem) -> (r: String)
    ensures
        r@ == word_of(problem.deep_view()),
{
    match problem {
        StorageProblem::Unreachable => "unreachable".to_owned(),
        StorageProblem::Quota => "quota".to_owned(),
        StorageProblem::Other(other) => text::head_of(other.as_str(), WORD_KEPT),
    }
}

// ---------------------------------------------------------------------------
// The family
// ---------------------------------------------------------------------------

/// One service of the family, as the mirror lists it.
#[derive(Debug, Clone, PartialEq, Eq)]
pub struct FamilyService {
    pub key: String,
    pub name: String,
    pub url: String,
}

/// Where the first service keyed `in` stands in the list.
pub open spec fn files_service_at(family: Seq<FamilyService>, i: int) -> bool {
    &&& 0 <= i < family.len()
    &&& family[i].key@ == "in"@
    &&& forall|j: int| 0 <= j < i ==> (#[trigger] family[j]).key@ != "in"@
}

/// The Files service's human name and its url, or nothing when the mirror has
/// no row for it.
pub fn in_of(family: &Vec<FamilyService>) -> (r: Option<(String, String)>)
    ensures
        match r {
            Some(found) => exists|i: int| #[trigger]
                files_service_at(family@, i) && found.0 == family@[i].name && found.1
                    == family@[i].url,
            None => forall|i: int|
                0 <= i < family@.len() ==> (#[trigger] family@[i]).key@ != "in"@,
        },
{
    let mut i: usize = 0;
    while i < family.len()
        invariant
            i <= family@.len(),
            forall|j: int| 0 <= j < i ==> (#[trigger] family@[j]).key@ != "in"@,
        decreases family@.len() - i,
    {
        if *family[i].key.as_str() == *"in" {
            let found = (family[i].name.clone(), family[i].url.clone());
            assert(files_service_at(family@, i as int));
            return Some(found);
        }
        i = i + 1;
    }
    None
}

// ---------------------------------------------------------------------------
// Health
// ---------------------------------------------------------------------------

/// The Files service's stand, as the Settings card renders it. The storage beat
/// writes; the page reads. The token never comes near this struct.
pub struct StorageHealth {
    url: Option<String>,
    name: Option<String>,
    connected: bool,
    used: Option<u64>,
    quota: Option<u64>,
    migrating: Option<(u64, u64)>,
    last_ok: Option<Moment>,
    last_problem: Option<(Moment, String)>,
}

/// What a [`StorageHealth`] holds, moments in nanoseconds since the start.
#[verifier::ext_equal]
pub struct Stand {
    /// Where the family says the service lives, and what it is named.
    pub url: Option<Seq<char>>,
    pub name: Option<Seq<char>>,
    /// The last probe found a standing service.
    pub connected: bool,
    pub used: Option<u64>,
    pub quota: Option<u64>,
    /// The drain's counter: how many rows moved so far, and how many there were
    /// to move. Nothing whenever no drain is running; one that a refusal
    /// interrupted runs on with the next beat.
    pub migrating: Option<(u64, u64)>,
    pub last_ok: Option<nat>,
    /// What went wrong, as a short word, and when.
    pub last_problem: Option<(nat, Seq<char>)>,
}

impl View for StorageHealth {
    type V = Stand;

    closed spec fn view(&self) -> Stand {
        Stand {
            url: self.url.deep_view(),
            name: self.name.deep_view(),
            connected: self.connected,
            used: self.used,
            quota: self.quota,
            migrating: self.migrating,
            last_ok: match self.last_ok {
                Some(at) => Some(at@),
                None => None,
            },
            last_problem: match self.last_problem {
                Some((at, word)) => Some((at@, word@)),
                None => None,
            },
        }
    }
}

/// One rendered view of [`StorageHealth`].
#[derive(Debug, Clone, PartialEq, Eq)]
pub struct StorageSnapshot {
    pub has_service: bool,
    pub connected: bool,
    pub used: Option<u64>,
    pub quota: Option<u64>,
    pub migrating: Option<(u64, u64)>,
    pub ok_age: Option<Duration>,
    pub problem_age: Option<Duration>,
    pub problem_word: Option<String>,
}

/// Nothing known yet.
pub open spec fn unknown_stand() -> Stand {
    Stand {
        url: None,
        name: None,
        connected: false,
        used: None,
        quota: None,
        migrating: None,
        last_ok: None,
        last_problem: None,
    }
}

/// The service went wrong, in a word.
pub open spec fn with_problem(stand: Stand, word: Seq<char>, now: nat) -> Stand {
    Stand { connected: false, last_problem: Some((now, word)), ..stand }
}

impl StorageHealth {
    pub fn new() -> (r: StorageHealth)
        ensures
            r@ == unknown_stand(),
    {
        StorageHealth {
            url: None,
            name: None,
            connected: false,
            used: None,
            quota: None,
            migrating: None,
            last_ok: None,
            last_problem: None,
        }
    }

    /// The family mirror named the service this beat.
    pub fn seen(&mut self, url: &str, name: &str)
        ensures
            final(self)@ == (Stand { url: Some(url@), name: Some(name@), ..old(self)@ }),
    {
        self.url = Some(url.to_owned());
        self.name = Some(name.to_owned());
    }

    /// The family mirror has no row for the service.
    pub fn unlisted(&mut self)
        ensures
            final(self)@ == (Stand { url: None, name: None, connected: false, ..old(self)@ }),
    {
        self.url = None;
        self.name = None;
        self.connected = false;
    }

    /// The probe and the status both landed: the facts are current.
    pub fn reachable(&mut self, used: Option<u64>, quota: Option<u64>, now: Moment)
        ensures
            final(self)@ == (Stand {
                connected: true,
                used,
                quota,
                last_ok: Some(now@),
                ..old(self)@
            }),
    {
        self.connected = true;
        self.used = used;
        self.quota = quota;
        self.last_ok = Some(now);
    }

    /// The probe or the status did not land. The word is the fact in shorthand
    /// for the card's one line.
    pub fn problem(&mut self, word: &str, now: Moment)
        ensures
            final(self)@ == with_problem(old(self)@, word@, now@),
    {
        self.connected = false;
        self.last_problem = Some((now, word.to_owned()));
    }

    /// A drain is running and moved one more row.
    pub fn migrating(&mut self, moved: u64, total: u64)
        ensures
            final(self)@ == (Stand { migrating: Some((moved, total)), ..old(self)@ }),
    {
        self.migrating = Some((moved, total));
    }

    /// The drain finished: the counter goes, and does not come back until a new
    /// batch of local rows earns a new total.
    pub fn drained(&mut self)
        ensures
            final(self)@ == (Stand { migrating: None, ..old(self)@ }),
    {
        self.migrating = None;
    }

    /// The drain's counter as it stands.
    pub fn counter(&self) -> (r: Option<(u64, u64)>)
        ensures
            r == self@.migrating,
    {
        self.migrating
    }

    pub fn snapshot(&self, now: Moment) -> (r: StorageSnapshot)
        ensures
            r.has_service == (self@.url is Some),
            r.connected == self@.connected,
            r.used == self@.used,
            r.quota == self@.quota,
            r.migrating == self@.migrating,
            is_age(r.ok_age, self@.last_ok, now@),
            match self@.last_problem {
                Some((at, word)) => is_age(r.problem_age, Some(at), now@) && (
                r.problem_word matches Some(shown) && shown@ == word),
                None => r.problem_age is None && r.problem_word is None,
            },
    {
        let (problem_age, problem_word) = match &self.last_problem {
            Some((at, word)) => (age_of(Some(*at), now), Some(word.clone())),
            None => (None, None),
        };
        StorageSnapshot {
            has_service: self.url.is_some(),
            connected: self.connected,
            used: self.used,
            quota: self.quota,
            migrating: self.migrating,
            ok_age: age_of(self.last_ok, now),
            problem_age,
            problem_word,
        }
    }
}

// ---------------------------------------------------------------------------
// Bytes in human units
// ---------------------------------------------------------------------------

/// A quotient rounded to the nearest whole number, the even one of two.
pub open spec fn half_even(n: nat, d: nat) -> nat {
    if 2 * (n % d) > d || (2 * (n % d) == d && (n / d) % 2 == 1) {
        (n / d + 1) as nat
    } else {
        n / d
    }
}

/// How far apart the numbers a double can hold stand at `n`: its 53 bits start
/// at the highest bit of `n`.
pub open spec fn spacing(n: nat) -> nat
    decreases n,
{
    if n < 0x20_0000_0000_0000 {
        1
    } else {
        2 * spacing(n / 2)
    }
}

/// A number of bytes as a double holds it: exactly below 2^53, rounded to the
/// nearest one it can hold above.
pub open spec fn as_double(n: nat) -> nat {
    half_even(n, spacing(n)) * spacing(n)
}

/// How often an amount is divided by 1024 before it is shown, four times at
/// most.
pub open spec fn unit_of(n: nat) -> nat {
    if n < 1024 {
        0
    } else if n < 1048576 {
        1
    } else if n < 1073741824 {
        2
    } else if n < 1099511627776 {
        3
    } else {
        4
    }
}

/// How many bytes a unit has.
pub open spec fn unit_bytes(unit: nat) -> nat {
    if unit == 0 {
        1
    } else if unit == 1 {
        1024
    } else if unit == 2 {
        1048576
    } else if unit == 3 {
        1073741824
    } else {
        1099511627776
    }
}

/// What a unit is called.
pub open spec fn unit_name(unit: nat) -> Seq<char> {
    if unit == 0 {
        "B"@
    } else if unit == 1 {
        "KiB"@
    } else if unit == 2 {
        "MiB"@
    } else if unit == 3 {
        "GiB"@
    } else {
        "TiB"@
    }
}

/// The amount in tenths of its unit, rounded to the nearest, the even one of
/// two.
pub open spec fn tenths(amount: nat) -> nat {
    half_even(10 * amount, unit_bytes(unit_of(amount)))
}

/// Bytes in human units: the number itself below 1024, one decimal past it.
pub open spec fn human_text(bytes: nat) -> Seq<char> {
    let amount = as_double(bytes);
    if unit_of(amount) == 0 {
        text::decimal(bytes) + " "@ + "B"@
    } else {
        text::decimal(tenths(amount) / 10) + "."@ + text::decimal(tenths(amount) % 10) + " "@
            + unit_name(unit_of(amount))
    }
}

proof fn lemma_spacing(n: nat)
    requires
        n < 0x1_0000_0000_0000_0000,
    ensures
        1 <= spacing(n) <= 2048,
{
    reveal_with_fuel(spacing, 13);
}

proof fn lemma_spaced(n: nat)
    ensures
        spacing(n) >= 1,
        n / spacing(n) < 0x20_0000_0000_0000,
    decreases n,
{
    if n >= 0x20_0000_0000_0000 {
        let s = spacing(n / 2);
        lemma_spaced(n / 2);
        vstd::arithmetic::div_mod::lemma_div_denominator(n as int, 2, s as int);
    }
}

fn rounded_quotient(n: u128, d: u128) -> (r: u128)
    requires
        d > 0,
        d <= 0x1_0000_0000_0000_0000,
        n <= 0x100_0000_0000_0000_0000,
    ensures
        r == half_even(n as nat, d as nat),
        r <= n / d + 1,
{
    let q: u128 = n / d;
    let rest: u128 = n % d;
    assert(q <= n) by (nonlinear_arith)
        requires
            q == n / d,
            d > 0,
    ;
    if 2 * rest > d || (2 * rest == d && q % 2 == 1) {
        q + 1
    } else {
        q
    }
}

/// A number of bytes as a double holds it.
fn doubled_amount(bytes: u64) -> (r: u128)
    ensures
        r == as_double(bytes as nat),
        r <= 0x1_0000_0000_0000_0000,
{
    let mut spaced: u128 = 1;
    let mut scaled: u64 = bytes;
    while scaled >= 0x20_0000_0000_0000
        invariant
            1 <= spaced,
            spaced * spacing(scaled as nat) == spacing(bytes as nat),
            spaced * scaled <= bytes,
        decreases scaled,
    {
        proof {
            lemma_spacing(scaled as nat);
            let half = spacing((scaled / 2) as nat);
            assert(spacing(scaled as nat) == 2 * half);
            assert((spaced * 2) * half == spaced * (2 * half)) by (nonlinear_arith);
            assert((spaced * 2) * (scaled / 2) <= spaced * scaled) by (nonlinear_arith)
                requires
                    2 * (scaled / 2) <= scaled,
                    spaced >= 1,
            ;
            assert(spaced <= bytes) by (nonlinear_arith)
                requires
                    spaced * scaled <= bytes,
                    scaled >= 1,
                    spaced >= 1,
            ;
        }
        spaced = spaced * 2;
        scaled = scaled / 2;
    }
    proof {
        lemma_spacing(bytes as nat);
        lemma_spaced(bytes as nat);
        assert(spaced == spacing(bytes as nat)) by (nonlinear_arith)
            requires
                spaced * 1 == spacing(bytes as nat),
        ;
    }
    let q: u128 = rounded_quotient(bytes as u128, spaced);
    proof {
        assert(q <= 0x20_0000_0000_0000);
        lemma_double_bound(bytes as nat, spaced as nat, q as nat);
    }
    q * spaced
}

proof fn lemma_double_bound(n: nat, s: nat, q: nat)
    requires
        n < 0x1_0000_0000_0000_0000,
        s == spacing(n),
        q <= 0x20_0000_0000_0000,
    ensures
        q * s <= 0x1_0000_0000_0000_0000,
{
    lemma_spacing(n);
    assert(q * s <= 0x20_0000_0000_0000 * 2048) by (nonlinear_arith)
        requires
            q <= 0x20_0000_0000_0000,
            s <= 2048,
    ;
}

/// Bytes in human units: `512 B`, `1.5 KiB`, `2.0 GiB`. One decimal past bytes
/// so a quota line reads at a glance.
pub fn human_bytes(bytes: u64) -> (r: String)
    ensures
        r@ == human_text(bytes as nat),
{
    let amount: u128 = doubled_amount(bytes);
    let (size, name): (u128, &'static str) = if amount < 1024 {
        (1, "B")
    } else if amount < 1048576 {
        (1024, "KiB")
    } else if amount < 1073741824 {
        (1048576, "MiB")
    } else if amount < 1099511627776 {
        (1073741824, "GiB")
    } else {
        (1099511627776, "TiB")
    };
    if size == 1 {
        text::join3(text::decimal_text(bytes as u128).as_str(), " ", name)
    } else {
        let tenth: u128 = rounded_quotient(10 * amount, size);
        let whole = text::decimal_text(tenth / 10);
        let part = text::decimal_text(tenth % 10);
        let figure = text::join3(whole.as_str(), ".", part.as_str());
        text::join3(figure.as_str(), " ", name)
    }
}

/// Below 2^53 bytes the amount is exact, and what is shown is within half a
/// tenth of a unit of it.
pub proof fn what_is_shown_is_close(bytes: nat)
    requires
        bytes < 0x20_0000_0000_0000,
    ensures
        as_double(bytes) == bytes,
        2 * (10 * bytes - tenths(bytes) * unit_bytes(unit_of(bytes))) <= unit_bytes(
            unit_of(bytes),
        ),
        2 * (tenths(bytes) * unit_bytes(unit_of(bytes)) - 10 * bytes) <= unit_bytes(
            unit_of(bytes),
        ),
{
    let d = unit_bytes(unit_of(bytes));
    let n = 10 * bytes;
    let q = n / d;
    vstd::arithmetic::div_mod::lemma_fundamental_div_mod(n as int, d as int);
    assert((q + 1) * d == q * d + d) by (nonlinear_arith);
    assert(q * d == d * q) by (nonlinear_arith);
    assert(spacing(bytes) == 1);
    assert(half_even(bytes, 1) == bytes);
    assert(as_double(bytes) == half_even(bytes, 1) * 1);
}

/// A push takes a key before anything else, and then a media type; what is wrong
/// is told, and nothing else keeps it back.
pub proof fn a_push_takes_a_key_and_a_type(token: Option<String>, mime: Seq<char>, parses: bool)
    ensures
        push_trouble(token, mime, parses) is None <==> token is Some && parses,
        token is None ==> push_trouble(token, mime, parses) == Some(Trouble::Other("no key"@)),
        token is Some && !parses ==> push_trouble(token, mime, parses) == Some(
            Trouble::Other("mime "@ + text::quoted(mime)),
        ),
{
}

/// A push landed exactly where the answer gives the file's id, whatever else it
/// says, and the quota is spent exactly where it gives no id and that error; any
/// other error is told in its own words.
pub proof fn a_push_landed_where_an_id_came(
    id: Option<Seq<char>>,
    err: Option<Seq<char>>,
    undecodable: Seq<char>,
)
    ensures
        push_outcome(None, undecodable) == Err::<Seq<char>, Trouble>(Trouble::Other(undecodable)),
        push_outcome(Some((id, err)), undecodable) is Ok <==> id is Some,
        id is Some ==> push_outcome(Some((id, err)), undecodable) == Ok::<Seq<char>, Trouble>(
            id->0,
        ),
        push_outcome(Some((id, err)), undecodable) == Err::<Seq<char>, Trouble>(Trouble::Quota)
            <==> id is None && err == Some("QuotaExceeded"@),
        id is None && err is Some && err->0 != "QuotaExceeded"@ ==> push_outcome(
            Some((id, err)),
            undecodable,
        ) == Err::<Seq<char>, Trouble>(Trouble::Other(err->0)),
{
}

/// The card's word for a problem is never longer than it has room for, and begins
/// as the problem's own words do.
pub proof fn a_word_fits_the_card(words: Seq<char>)
    ensures
        word_of(Trouble::Other(words)).len() <= 40,
        word_of(Trouble::Other(words)).is_prefix_of(words),
        words.len() <= 40 ==> word_of(Trouble::Other(words)) == words,
        words.len() > 40 ==> word_of(Trouble::Other(words)).len() == 40,
        word_of(Trouble::Quota) == "quota"@,
        word_of(Trouble::Unreachable) == "unreachable"@,
{
}

/// A problem is shown with its moment, disconnects the card, and leaves the rest.
pub proof fn a_problem_disconnects(stand: Stand, word: Seq<char>, now: nat)
    ensures
        ({
            let after = with_problem(stand, word, now);
            &&& !after.connected
            &&& after.last_problem == Some((now, word))
            &&& after.url == stand.url
            &&& after.name == stand.name
            &&& after.used == stand.used
            &&& after.quota == stand.quota
            &&& after.migrating == stand.migrating
            &&& after.last_ok == stand.last_ok
        }),
{
}

/// The units past bytes in a row, three letters each.
pub open spec fn unit_names() -> Seq<char> {
    "KiBMiBGiBTiB"@
}

/// So often a thousand and twenty-four.
pub open spec fn thousands(unit: nat) -> nat
    decreases unit,
{
    if unit == 0 {
        1
    } else {
        1024 * thousands((unit - 1) as nat)
    }
}

/// Under 1024 bytes the number itself is shown.
pub proof fn few_bytes_are_shown_as_they_are(bytes: nat)
    requires
        bytes < 1024,
    ensures
        human_text(bytes) == text::decimal(bytes) + " B"@,
{
    what_is_shown_is_close(bytes);
    reveal_strlit(" ");
    reveal_strlit("B");
    reveal_strlit(" B");
    assert(human_text(bytes) =~= text::decimal(bytes) + " B"@);
}

proof fn lemma_rounded(n: nat, d: nat)
    requires
        d > 0,
    ensures
        2 * (n - half_even(n, d) * d) <= d,
        2 * (half_even(n, d) * d - n) <= d,
        2 * (n - half_even(n, d) * d) == d || 2 * (half_even(n, d) * d - n) == d ==> half_even(
            n,
            d,
        ) % 2 == 0,
{
    let q = n / d;
    vstd::arithmetic::div_mod::lemma_fundamental_div_mod(n as int, d as int);
    assert((q + 1) * d == q * d + d) by (nonlinear_arith);
    assert(q * d == d * q) by (nonlinear_arith);
}

/// A number of bytes is held exactly below 2^53, and as the nearest of the numbers
/// a double can hold above: multiples of their spacing, of which less than 2^53
/// make up the number, the even one of two that are as near.
pub proof fn a_double_is_the_nearest(bytes: nat)
    ensures
        bytes < 0x20_0000_0000_0000 ==> as_double(bytes) == bytes,
        spacing(bytes) >= 1,
        bytes / spacing(bytes) < 0x20_0000_0000_0000,
        spacing(bytes) > 1 ==> bytes / spacing(bytes) >= 0x10_0000_0000_0000,
        exists|q: nat| #[trigger]
            (q * spacing(bytes)) == as_double(bytes) && (2 * (as_double(bytes) - bytes) == spacing(
                bytes,
            ) || 2 * (bytes - as_double(bytes)) == spacing(bytes) ==> q % 2 == 0),
        2 * (as_double(bytes) - bytes) <= spacing(bytes),
        2 * (bytes - as_double(bytes)) <= spacing(bytes),
{
    lemma_spaced(bytes);
    lemma_spaced_enough(bytes);
    lemma_rounded(bytes, spacing(bytes));
    if bytes < 0x20_0000_0000_0000 {
        what_is_shown_is_close(bytes);
    }
    let q = half_even(bytes, spacing(bytes));
    assert(q * spacing(bytes) == as_double(bytes));
}

proof fn lemma_spaced_enough(n: nat)
    ensures
        spacing(n) > 1 ==> n / spacing(n) >= 0x10_0000_0000_0000,
    decreases n,
{
    lemma_spaced(n);
    if n >= 0x20_0000_0000_0000 {
        let s = spacing(n / 2);
        lemma_spaced(n / 2);
        lemma_spaced_enough(n / 2);
        vstd::arithmetic::div_mod::lemma_div_denominator(n as int, 2, s as int);
        if s == 1 {
            assert(n / 2 >= 0x10_0000_0000_0000);
            assert((n / 2) / s == n / 2);
        }
    }
}

/// From 1024 bytes on an amount is shown in the largest unit it fills, terabytes
/// at most, as a number with one decimal that is within half a tenth of it, the
/// even one of two that are as near. The amount is the bytes as a double holds
/// them.
pub proof fn an_amount_is_shown_in_its_unit(bytes: nat) -> (r: (nat, nat))
    requires
        as_double(bytes) >= 1024,
    ensures
        ({
            let (unit, tenth) = r;
            let amount = as_double(bytes);
            &&& 1 <= unit <= 4
            &&& thousands(unit) <= amount
            &&& unit < 4 ==> amount < thousands(unit + 1)
            &&& 2 * (10 * amount - tenth * thousands(unit)) <= thousands(unit)
            &&& 2 * (tenth * thousands(unit) - 10 * amount) <= thousands(unit)
            &&& 2 * (10 * amount - tenth * thousands(unit)) == thousands(unit) || 2 * (tenth
                * thousands(unit) - 10 * amount) == thousands(unit) ==> tenth % 2 == 0
            &&& human_text(bytes) == text::decimal(tenth / 10) + "."@ + text::decimal(tenth % 10)
                + " "@ + unit_names().subrange(3 * (unit - 1), 3 * unit as int)
        }),
{
    let amount = as_double(bytes);
    reveal_with_fuel(thousands, 6);
    let unit = unit_of(amount);
    assert(unit_bytes(unit) == thousands(unit));
    lemma_rounded(10 * amount, unit_bytes(unit));
    lemma_unit_name(unit);
    (unit, tenths(amount))
}

proof fn lemma_unit_name(unit: nat)
    requires
        1 <= unit <= 4,
    ensures
        unit_name(unit) =~= unit_names().subrange(3 * (unit - 1), 3 * unit as int),
{
    reveal_strlit("KiBMiBGiBTiB");
    if unit == 1 {
        reveal_strlit("KiB");
    } else if unit == 2 {
        reveal_strlit("MiB");
    } else if unit == 3 {
        reveal_strlit("GiB");
    } else {
        reveal_strlit("TiB");
    }
}

/// The Files service is the first the family keys `in`, and there is one exactly
/// where the family keys any so.
pub proof fn the_files_service_is_the_first_of_its_key(family: Seq<FamilyService>, i: int, k: int)
    requires
        0 <= i < family.len(),
        family[i].key@ == "in"@,
        forall|j: int| 0 <= j < i ==> (#[trigger] family[j]).key@ != "in"@,
    ensures
        files_service_at(family, k) <==> k == i,
{
    if files_service_at(family, k) {
        if k < i {
            assert(family[k].key@ != "in"@);
        }
        if i < k {
            assert(family[i].key@ != "in"@);
        }
    }
}

/// Before anything was asked the card knows nothing.
pub proof fn nothing_is_known_at_first()
    ensures
        ({
            let stand = unknown_stand();
            &&& stand.url is None && stand.name is None && !stand.connected
            &&& stand.used is None && stand.quota is None
            &&& stand.migrating is None && stand.last_ok is None && stand.last_problem is None
        }),
{
}

} // verus!
