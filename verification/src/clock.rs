//! Days and instants: the calendar the board's deadlines go by, and the
//! monotonic clock behind the ages a page shows.

use vstd::arithmetic::div_mod::{
    lemma_fundamental_div_mod, lemma_fundamental_div_mod_converse, lemma_mod_bound,
};
use vstd::prelude::*;

verus! {

// ---------------------------------------------------------------------------
// The calendar
// ---------------------------------------------------------------------------

/// A year of the proleptic Gregorian calendar with a 29th of February.
pub open spec fn leap(year: int) -> bool {
    year % 4 == 0 && (year % 100 != 0 || year % 400 == 0)
}

/// How many days a month has.
pub open spec fn days_in_month(year: int, month: int) -> int {
    if month == 2 {
        if leap(year) {
            29
        } else {
            28
        }
    } else if month == 4 || month == 6 || month == 9 || month == 11 {
        30
    } else {
        31
    }
}

/// How many days of a year lie before a month.
pub open spec fn days_before_month(year: int, month: int) -> int
    decreases month,
{
    if month <= 1 {
        0
    } else {
        days_before_month(year, month - 1) + days_in_month(year, month - 1)
    }
}

/// How many days lie before the first of January of a year, counted from the
/// first of January of the year 0, less one.
pub open spec fn days_before_year(year: int) -> int {
    365 * year + (year - 1) / 4 - (year - 1) / 100 + (year - 1) / 400
}

/// A `(year, month, day)` that names a day between the years -9999 and 9999.
pub open spec fn real_day(d: (int, int, int)) -> bool {
    &&& -9999 <= d.0 <= 9999
    &&& 1 <= d.1 <= 12
    &&& 1 <= d.2 <= days_in_month(d.0, d.1)
}

/// Days since the first of January 1970, negative before it.
pub open spec fn day_number(d: (int, int, int)) -> int {
    days_before_year(d.0) + days_before_month(d.0, d.1) + d.2 - 1 - 719527
}

/// `a` is an earlier day than `b`: year first, then month, then day.
pub open spec fn day_before(a: (int, int, int), b: (int, int, int)) -> bool {
    a.0 < b.0 || (a.0 == b.0 && (a.1 < b.1 || (a.1 == b.1 && a.2 < b.2)))
}

/// How many days a year has.
spec fn days_in_year(year: int) -> int {
    if leap(year) {
        366
    } else {
        365
    }
}

/// Stepping back by one lowers a quotient exactly where the divisor divides.
proof fn lemma_quotient_step(y: int, k: int)
    requires
        k > 0,
    ensures
        y % k == 0 ==> (y - 1) / k == y / k - 1,
        y % k != 0 ==> (y - 1) / k == y / k,
{
    let q = y / k;
    let r = y % k;
    lemma_fundamental_div_mod(y, k);
    if r == 0 {
        assert(y - 1 == (q - 1) * k + (k - 1)) by (nonlinear_arith)
            requires
                y == k * q + r,
                r == 0,
        ;
        lemma_fundamental_div_mod_converse(y - 1, k, q - 1, k - 1);
    } else {
        assert(0 <= r < k) by {
            lemma_mod_bound(y, k);
        }
        assert(y - 1 == q * k + (r - 1)) by (nonlinear_arith)
            requires
                y == k * q + r,
        ;
        lemma_fundamental_div_mod_converse(y - 1, k, q, r - 1);
    }
}

proof fn lemma_year_length(year: int)
    ensures
        days_before_year(year + 1) == days_before_year(year) + days_in_year(year),
{
    lemma_quotient_step(year, 4);
    lemma_quotient_step(year, 100);
    lemma_quotient_step(year, 400);
    assert(year % 400 == 0 ==> year % 100 == 0) by (nonlinear_arith);
    assert(year % 100 == 0 ==> year % 4 == 0) by (nonlinear_arith);
}

proof fn lemma_years_grow(a: int, b: int)
    requires
        a < b,
    ensures
        days_before_year(a) + days_in_year(a) <= days_before_year(b),
    decreases b - a,
{
    lemma_year_length(b - 1);
    if a < b - 1 {
        lemma_years_grow(a, b - 1);
    } else {
        assert(a == b - 1);
    }
}

proof fn lemma_months_grow(year: int, a: int, b: int)
    requires
        1 <= a < b,
    ensures
        days_before_month(year, a) + days_in_month(year, a) <= days_before_month(year, b),
    decreases b - a,
{
    if a < b - 1 {
        lemma_months_grow(year, a, b - 1);
    }
}

proof fn lemma_day_of_year(d: (int, int, int))
    requires
        real_day(d),
    ensures
        0 <= days_before_month(d.0, d.1) + d.2 - 1 < days_in_year(d.0),
{
    if d.1 > 1 {
        lemma_months_grow(d.0, 1, d.1);
    }
    assert(days_before_month(d.0, 13) == days_in_year(d.0)) by {
        reveal_with_fuel(days_before_month, 14);
    }
    lemma_months_grow(d.0, d.1, 13);
}

/// The calendar order of days is the order of their day numbers.
pub proof fn day_order_is_day_number_order(a: (int, int, int), b: (int, int, int))
    requires
        real_day(a),
        real_day(b),
    ensures
        day_before(a, b) <==> day_number(a) < day_number(b),
        a == b <==> day_number(a) == day_number(b),
{
    lemma_day_of_year(a);
    lemma_day_of_year(b);
    if a.0 < b.0 {
        lemma_years_grow(a.0, b.0);
    } else if b.0 < a.0 {
        lemma_years_grow(b.0, a.0);
    } else if a.1 < b.1 {
        lemma_months_grow(a.0, a.1, b.1);
    } else if b.1 < a.1 {
        lemma_months_grow(a.0, b.1, a.1);
    }
}

/// A calendar day. Always a day that exists.
#[derive(Debug, Clone, Copy, PartialEq, Eq, Structural)]
pub struct Date {
    year: i32,
    month: u8,
    day: u8,
}

impl View for Date {
    type V = (int, int, int);

    closed spec fn view(&self) -> (int, int, int) {
        (self.year as int, self.month as int, self.day as int)
    }
}

impl DeepView for Date {
    type V = (int, int, int);

    open spec fn deep_view(&self) -> (int, int, int) {
        self@
    }
}

impl Date {
    #[verifier::type_invariant]
    spec fn exists_on_the_calendar(self) -> bool {
        real_day((self.year as int, self.month as int, self.day as int))
    }

    /// The day a year, a month and a day of the month name, if there is one.
    pub fn new(year: i32, month: u8, day: u8) -> (r: Option<Date>)
        ensures
            r is Some <==> real_day((year as int, month as int, day as int)),
            r matches Some(d) ==> d@ == (year as int, month as int, day as int),
    {
        if year < -9999 || year > 9999 || month < 1 || month > 12 || day < 1 {
            return None;
        }
        let leap_year = year % 4 == 0 && (year % 100 != 0 || year % 400 == 0);
        assert(leap_year == leap(year as int));
        let longest: u8 = if month == 2 {
            if leap_year {
                29
            } else {
                28
            }
        } else if month == 4 || month == 6 || month == 9 || month == 11 {
            30
        } else {
            31
        };
        if day > longest {
            None
        } else {
            Some(Date { year, month, day })
        }
    }

    pub fn year(&self) -> (r: i32)
        ensures
            r == self@.0,
    {
        self.year
    }

    pub fn month(&self) -> (r: u8)
        ensures
            r == self@.1,
            1 <= r <= 12,
    {
        proof {
            use_type_invariant(self);
        }
        self.month
    }

    pub fn day(&self) -> (r: u8)
        ensures
            r == self@.2,
            1 <= r <= 31,
    {
        proof {
            use_type_invariant(self);
        }
        self.day
    }

    /// Whether this day is strictly earlier than `other`.
    pub fn before(&self, other: &Date) -> (r: bool)
        ensures
            r == day_before(self@, other@),
            r <==> day_number(self@) < day_number(other@),
    {
        proof {
            use_type_invariant(self);
            use_type_invariant(other);
            day_order_is_day_number_order(self@, other@);
        }
        self.year < other.year || (self.year == other.year && (self.month < other.month || (
        self.month == other.month && self.day < other.day)))
    }
}


// ---------------------------------------------------------------------------
// Instants
// ---------------------------------------------------------------------------

/// The first and the last second of the years -9999 to 9999, counted from the
/// start of 1970.
pub const FIRST_SECOND: i64 = -377705116800;

pub const LAST_SECOND: i64 = 253402300799;

/// The first second of the year 0.
pub const YEAR_ZERO: i64 = -62167219200;

/// The widest offset from UTC a clock can carry, 25:59:59 either way.
pub const WIDEST_OFFSET: i32 = 93599;

/// `(seconds, nanoseconds, offset)`: seconds since the start of 1970 in UTC,
/// the nanoseconds past them, and how many seconds the local clock is ahead of
/// UTC. The local clock stays between the years -9999 and 9999.
pub open spec fn real_instant(v: (int, int, int)) -> bool {
    &&& 0 <= v.1 < 1_000_000_000
    &&& -WIDEST_OFFSET <= v.2 <= WIDEST_OFFSET
    &&& FIRST_SECOND <= v.0 + v.2 <= LAST_SECOND
}

/// Nanoseconds since the start of 1970: what two instants are compared by,
/// whatever their offsets.
pub open spec fn instant(v: (int, int, int)) -> int {
    v.0 * 1_000_000_000 + v.1
}

/// The day the local clock shows, counted from the first of January 1970.
pub open spec fn local_day(v: (int, int, int)) -> int {
    (v.0 + v.2) / 86400
}

/// The calendar day the local clock shows.
pub open spec fn local_date(v: (int, int, int)) -> (int, int, int) {
    choose|d: (int, int, int)| real_day(d) && #[trigger] day_number(d) == local_day(v)
}

/// The instants RFC 3339 can write: a local year from 0 to 9999 and an offset
/// of whole minutes under a day.
pub open spec fn writable(v: (int, int, int)) -> bool {
    &&& real_instant(v)
    &&& YEAR_ZERO <= v.0 + v.2
    &&& -86400 < v.2 < 86400
    &&& v.2 % 60 == 0
}

/// What `time` formats a local second, its nanoseconds and its offset as in RFC
/// 3339: the text, or the words of the refusal.
pub uninterp spec fn rfc3339_text(local: int, nanos: int, offset: int) -> Result<
    Seq<char>,
    Seq<char>,
>;

/// What `time` reads out of an RFC 3339 text, as `(seconds, nanoseconds,
/// offset)`, or the words of the refusal.
pub uninterp spec fn rfc3339_read(text: Seq<char>) -> Result<(int, int, int), Seq<char>>;

/// A text reads as the instant `v`.
pub open spec fn reads_as(text: Seq<char>, v: (int, int, int)) -> bool {
    rfc3339_read(text) matches Ok(read) && read == v
}

/// A result's texts, as sequences of characters.
pub open spec fn words_of(r: Result<String, String>) -> Result<Seq<char>, Seq<char>> {
    match r {
        Ok(text) => Ok(text@),
        Err(words) => Err(words@),
    }
}

/// A reading's parts as integers, or its refusal as a sequence of characters.
pub open spec fn parts_of(r: Result<(i64, u32, i32), String>) -> Result<
    (int, int, int),
    Seq<char>,
> {
    match r {
        Ok(v) => Ok((v.0 as int, v.1 as int, v.2 as int)),
        Err(words) => Err(words@),
    }
}

/// A reading as the instant it holds, or its refusal as a sequence of
/// characters.
pub open spec fn reading_of(r: Result<OffsetDateTime, String>) -> Result<
    (int, int, int),
    Seq<char>,
> {
    match r {
        Ok(at) => Ok(at@),
        Err(words) => Err(words@),
    }
}

/// `time::OffsetDateTime::format` with `Rfc3339`, on the local date-time `local`
/// seconds after the start of 1970 under the given offset. It answers a text
/// exactly for the instants RFC 3339 can write, and `parse` reads that text
/// back into the same instant under the same offset.
#[verifier::external_body]
pub(crate) fn format_rfc3339(local: i64, nanos: u32, offset: i32) -> (r: Result<String, String>)
    requires
        real_instant((local - offset, nanos as int, offset as int)),
    ensures
        r is Ok <==> writable((local - offset, nanos as int, offset as int)),
        words_of(r) == rfc3339_text(local as int, nanos as int, offset as int),
        r matches Ok(text) ==> reads_as(text@, (local - offset, nanos as int, offset as int)),
{
    let at = time::OffsetDateTime::from_unix_timestamp(local).unwrap();
    let at = at.replace_nanosecond(nanos).unwrap();
    let at = at.replace_offset(time::UtcOffset::from_whole_seconds(offset).unwrap());
    at.format(&time::format_description::well_known::Rfc3339).map_err(|e| e.to_string())
}

/// `time::OffsetDateTime::parse` with `Rfc3339`, taken apart into the Unix
/// timestamp, the nanoseconds past it and the offset in seconds. Whatever it
/// accepts is an instant RFC 3339 can write.
#[verifier::external_body]
pub(crate) fn parse_rfc3339(raw: &str) -> (r: Result<(i64, u32, i32), String>)
    ensures
        parts_of(r) == rfc3339_read(raw@),
        r matches Ok(v) ==> writable((v.0 as int, v.1 as int, v.2 as int)),
{
    match time::OffsetDateTime::parse(raw, &time::format_description::well_known::Rfc3339) {
        Ok(at) => Ok((at.unix_timestamp(), at.nanosecond(), at.offset().whole_seconds())),
        Err(e) => Err(e.to_string()),
    }
}

/// `time::OffsetDateTime::from_unix_timestamp` and the calendar date it falls
/// on: the day `local` seconds after the start of 1970 belongs to.
#[verifier::external_body]
pub(crate) fn calendar_date(local: i64) -> (r: (i32, u8, u8))
    requires
        FIRST_SECOND <= local <= LAST_SECOND,
    ensures
        real_day((r.0 as int, r.1 as int, r.2 as int)),
        day_number((r.0 as int, r.1 as int, r.2 as int)) == (local as int) / 86400,
{
    let date = time::OffsetDateTime::from_unix_timestamp(local).unwrap().date();
    let (year, month, day) = date.to_calendar_date();
    (year, u8::from(month), day)
}

/// `time::OffsetDateTime::now_utc`: the seconds since the start of 1970 and the
/// nanoseconds past them. Which instant it is, only the machine's clock knows.
#[verifier::external_body]
pub(crate) fn utc_clock() -> (r: (i64, u32))
    ensures
        real_instant((r.0 as int, r.1 as int, 0)),
{
    let now = time::OffsetDateTime::now_utc();
    (now.unix_timestamp(), now.nanosecond())
}

/// An instant together with the offset its local clock runs at.
#[derive(Debug, Clone, Copy)]
pub struct OffsetDateTime {
    seconds: i64,
    nanos: u32,
    offset: i32,
}

impl View for OffsetDateTime {
    type V = (int, int, int);

    closed spec fn view(&self) -> (int, int, int) {
        (self.seconds as int, self.nanos as int, self.offset as int)
    }
}

impl DeepView for OffsetDateTime {
    type V = (int, int, int);

    open spec fn deep_view(&self) -> (int, int, int) {
        self@
    }
}

/// Two instants are equal when they are the same moment, whatever the offsets.
impl PartialEq for OffsetDateTime {
    fn eq(&self, other: &Self) -> (r: bool) {
        proof {
            use_type_invariant(self);
            use_type_invariant(other);
        }
        self.seconds == other.seconds && self.nanos == other.nanos
    }
}

impl vstd::std_specs::cmp::PartialEqSpecImpl for OffsetDateTime {
    open spec fn obeys_eq_spec() -> bool {
        true
    }

    open spec fn eq_spec(&self, other: &Self) -> bool {
        instant(self@) == instant(other@)
    }
}

impl Eq for OffsetDateTime {

}

impl OffsetDateTime {
    #[verifier::type_invariant]
    spec fn within_the_calendar(self) -> bool {
        real_instant((self.seconds as int, self.nanos as int, self.offset as int))
    }

    /// The instant `nanos` nanoseconds past `seconds`, seen from `offset`
    /// seconds ahead of UTC, if the calendar reaches that far.
    pub fn new(seconds: i64, nanos: u32, offset: i32) -> (r: Option<OffsetDateTime>)
        ensures
            r is Some <==> real_instant((seconds as int, nanos as int, offset as int)),
            r matches Some(at) ==> at@ == (seconds as int, nanos as int, offset as int),
    {
        if nanos >= 1_000_000_000 || offset < -WIDEST_OFFSET || offset > WIDEST_OFFSET {
            return None;
        }
        let earliest: i64 = FIRST_SECOND - offset as i64;
        let latest: i64 = LAST_SECOND - offset as i64;
        if seconds < earliest || seconds > latest {
            None
        } else {
            Some(OffsetDateTime { seconds, nanos, offset })
        }
    }

    /// The present moment, in UTC.
    pub fn now_utc() -> (r: OffsetDateTime)
        ensures
            real_instant(r@),
            r@.2 == 0,
    {
        let (seconds, nanos): (i64, u32) = utc_clock();
        OffsetDateTime { seconds, nanos, offset: 0 }
    }

    /// Seconds since the start of 1970, in UTC.
    pub fn unix_timestamp(&self) -> (r: i64)
        ensures
            r == self@.0,
    {
        self.seconds
    }

    /// The nanoseconds past [`OffsetDateTime::unix_timestamp`].
    pub fn nanosecond(&self) -> (r: u32)
        ensures
            r == self@.1,
            r < 1_000_000_000,
    {
        proof {
            use_type_invariant(self);
        }
        self.nanos
    }

    /// How many seconds the local clock is ahead of UTC.
    pub fn whole_offset(&self) -> (r: i32)
        ensures
            r == self@.2,
    {
        self.offset
    }

    /// The day the local clock shows.
    pub fn date(&self) -> (r: Date)
        ensures
            real_day(r@),
            day_number(r@) == local_day(self@),
            r@ == local_date(self@),
    {
        proof {
            use_type_invariant(self);
        }
        let (year, month, day): (i32, u8, u8) = calendar_date(self.seconds + self.offset as i64);
        proof {
            let shown = (year as int, month as int, day as int);
            assert(real_day(shown) && day_number(shown) == local_day(self@));
            day_order_is_day_number_order(shown, local_date(self@));
        }
        Date { year, month, day }
    }

    /// Whether this moment comes strictly before `other`.
    pub fn before(&self, other: &OffsetDateTime) -> (r: bool)
        ensures
            r == (instant(self@) < instant(other@)),
    {
        proof {
            use_type_invariant(self);
            use_type_invariant(other);
        }
        self.seconds < other.seconds || (self.seconds == other.seconds && self.nanos < other.nanos)
    }

    /// Whether this moment is `other` or comes before it.
    pub fn reached_by(&self, other: &OffsetDateTime) -> (r: bool)
        ensures
            r == (instant(self@) <= instant(other@)),
    {
        !other.before(self)
    }

    /// The RFC 3339 text of the instant under its own offset, or the words of
    /// the refusal. A text that came out reads back as the same instant.
    pub fn format(&self) -> (r: Result<String, String>)
        ensures
            r is Ok <==> writable(self@),
            words_of(r) == rfc3339_text(self@.0 + self@.2, self@.1, self@.2),
            r matches Ok(text) ==> reads_as(text@, self@),
    {
        proof {
            use_type_invariant(self);
        }
        format_rfc3339(self.seconds + self.offset as i64, self.nanos, self.offset)
    }

    /// Reads an RFC 3339 text, or answers the words of the refusal.
    pub fn parse(raw: &str) -> (r: Result<OffsetDateTime, String>)
        ensures
            reading_of(r) == rfc3339_read(raw@),
            r matches Ok(at) ==> writable(at@),
    {
        match parse_rfc3339(raw) {
            Ok((seconds, nanos, offset)) => Ok(OffsetDateTime { seconds, nanos, offset }),
            Err(words) => Err(words),
        }
    }
}

// ---------------------------------------------------------------------------
// The monotonic clock
// ---------------------------------------------------------------------------

/// A span of time, to the nanosecond.
#[derive(Debug, Clone, Copy, PartialEq, Eq, Structural)]
pub struct Duration {
    nanos: u128,
}

/// The longest span a [`Duration`] can hold, in nanoseconds.
pub const LONGEST: u128 = 18446744073709551615999999999;

impl View for Duration {
    type V = nat;

    closed spec fn view(&self) -> nat {
        self.nanos as nat
    }
}

impl Duration {
    #[verifier::type_invariant]
    spec fn within_reach(self) -> bool {
        self.nanos <= LONGEST
    }

    pub fn from_secs(secs: u64) -> (r: Duration)
        ensures
            r@ == secs * 1_000_000_000,
    {
        Duration { nanos: secs as u128 * 1_000_000_000 }
    }

    /// The span of `secs` seconds and `nanos` nanoseconds, the latter short of
    /// a second.
    pub fn new(secs: u64, nanos: u32) -> (r: Duration)
        requires
            nanos < 1_000_000_000,
        ensures
            r@ == secs * 1_000_000_000 + nanos,
    {
        Duration { nanos: secs as u128 * 1_000_000_000 + nanos as u128 }
    }

    /// The whole seconds in the span.
    pub fn as_secs(&self) -> (r: u64)
        ensures
            r == self@ / 1_000_000_000,
    {
        proof {
            use_type_invariant(self);
        }
        (self.nanos / 1_000_000_000) as u64
    }

    /// The nanoseconds past the whole seconds.
    pub fn subsec_nanos(&self) -> (r: u32)
        ensures
            r == self@ % 1_000_000_000,
            r < 1_000_000_000,
    {
        (self.nanos % 1_000_000_000) as u32
    }

    /// Whether the span is strictly shorter than `other`.
    pub fn shorter_than(&self, other: &Duration) -> (r: bool)
        ensures
            r == (self@ < other@),
    {
        self.nanos < other.nanos
    }
}

/// A reading of a clock that never runs backwards, counted from the moment the
/// process started.
#[derive(Debug, Clone, Copy, PartialEq, Eq, Structural)]
pub struct Moment {
    since_start: Duration,
}

impl View for Moment {
    type V = nat;

    closed spec fn view(&self) -> nat {
        self.since_start@
    }
}

/// How much later `now` is than `then`, in nanoseconds; nothing when it is not.
pub open spec fn elapsed(now: nat, then: nat) -> nat {
    if now >= then {
        (now - then) as nat
    } else {
        0
    }
}

impl Moment {
    pub fn at(since_start: Duration) -> (r: Moment)
        ensures
            r@ == since_start@,
    {
        Moment { since_start }
    }

    /// How long ago `earlier` was, nothing when it lies ahead.
    pub fn saturating_duration_since(&self, earlier: Moment) -> (r: Duration)
        ensures
            r@ == elapsed(self@, earlier@),
    {
        proof {
            use_type_invariant(&self.since_start);
        }
        if self.since_start.nanos >= earlier.since_start.nanos {
            Duration { nanos: self.since_start.nanos - earlier.since_start.nanos }
        } else {
            Duration { nanos: 0 }
        }
    }
}

// ---------------------------------------------------------------------------
// Laws
// ---------------------------------------------------------------------------

/// How long the months are in a year without a 29th of February.
pub open spec fn month_lengths() -> Seq<int> {
    seq![31, 28, 31, 30, 31, 30, 31, 31, 30, 31, 30, 31]
}

/// A 29th of February exists in every fourth year, but of the full centuries only
/// in every fourth.
pub open spec fn has_leap_day(year: int) -> bool {
    if year % 100 == 0 {
        year % 400 == 0
    } else {
        year % 4 == 0
    }
}

/// Days are counted one after the other from the first of January 1970: the next
/// day of a month counts one more, the first of the next month as many more as the
/// month is long, and the first of the next year 365 or 366 more.
pub proof fn days_are_counted_one_by_one(year: int, month: int, day: int)
    requires
        1 <= month <= 12,
    ensures
        day_number((1970, 1, 1)) == 0,
        day_number((year, month, day + 1)) == day_number((year, month, day)) + 1,
        month < 12 ==> day_number((year, month + 1, day)) == day_number((year, month, day))
            + month_lengths()[month - 1] + if month == 2 && has_leap_day(year) {
            1int
        } else {
            0int
        },
        day_number((year + 1, 1, day)) == day_number((year, 1, day)) + if has_leap_day(year) {
            366int
        } else {
            365int
        },
{
    reveal_with_fuel(days_before_month, 2);
    assert(year % 100 == 0 ==> year % 4 == 0) by (nonlinear_arith);
    lemma_year_length(year);
}

/// The days there are: the months run to their lengths, February to the 29th in a
/// leap year alone.
pub proof fn real_days_stay_in_their_month(d: (int, int, int))
    ensures
        real_day(d) <==> -9999 <= d.0 <= 9999 && 1 <= d.1 <= 12 && 1 <= d.2 <= month_lengths()[d.1
            - 1] + if d.1 == 2 && has_leap_day(d.0) {
            1int
        } else {
            0int
        },
{
    let year = d.0;
    assert(year % 100 == 0 ==> year % 4 == 0) by (nonlinear_arith);
}

/// An instant is the same whatever offset it is told under, a second is a
/// thousand million of its steps, and a nanosecond one.
pub proof fn instants_ignore_their_offset(seconds: int, nanos: int, one: int, other: int)
    ensures
        instant((0, 0, one)) == 0,
        instant((seconds, nanos, one)) == instant((seconds, nanos, other)),
        instant((seconds, nanos + 1, one)) == instant((seconds, nanos, one)) + 1,
        instant((seconds + 1, nanos, one)) == instant((seconds, nanos, one)) + 1_000_000_000,
{
}

/// The local day begins at the midnight of the local clock and lasts a day.
pub proof fn a_local_day_runs_from_midnight(v: (int, int, int))
    ensures
        86400 * local_day(v) <= v.0 + v.2 < 86400 * (local_day(v) + 1),
{
}

/// The local date is the one day there is with the local clock's number.
pub proof fn a_local_date_is_its_day(v: (int, int, int), day: (int, int, int))
    requires
        real_day(day),
        86400 * day_number(day) <= v.0 + v.2 < 86400 * (day_number(day) + 1),
    ensures
        local_date(v) == day,
{
    assert(day_number(day) == local_day(v));
    day_order_is_day_number_order(local_date(v), day);
}

/// What has elapsed since a moment brings it up to now; nothing has elapsed since
/// one that lies ahead.
pub proof fn what_elapsed_reaches_now(now: nat, then: nat)
    ensures
        then <= now ==> then + elapsed(now, then) == now,
        now < then ==> elapsed(now, then) == 0,
{
}

} // verus!
