//! Text as sequences of characters: what the labels, the search and the
//! stored forms are made of.

use vstd::prelude::*;
use vstd::utf8::{decode_utf8, is_ascii_chars, valid_utf8};

verus! {

// ---------------------------------------------------------------------------
// What the standard library decides
// ---------------------------------------------------------------------------

/// `String::push` appends one character.
pub assume_specification[ String::push ](s: &mut String, c: char)
    ensures
        final(s)@ == old(s)@.push(c),
;

/// `==` on string slices compares them character by character.
pub assume_specification[ <str as PartialEq>::eq ](a: &str, b: &str) -> (same: bool)
    ensures
        same == (a@ == b@),
;

/// One of the 128 ASCII characters.
pub open spec fn ascii(c: char) -> bool {
    (c as u32) < 128
}

pub open spec fn is_digit(c: char) -> bool {
    '0' <= c && c <= '9'
}

pub open spec fn is_ascii_letter(c: char) -> bool {
    ('a' <= c && c <= 'z') || ('A' <= c && c <= 'Z')
}

/// The ASCII lowercase of one character; anything but `A` to `Z` is its own.
pub open spec fn ascii_lower(c: char) -> char {
    if 'A' <= c && c <= 'Z' {
        ((c as u32) + 32) as char
    } else {
        c
    }
}

/// The ASCII uppercase of one character; anything but `a` to `z` is its own.
pub open spec fn ascii_upper(c: char) -> char {
    if 'a' <= c && c <= 'z' {
        ((c as u32) - 32) as char
    } else {
        c
    }
}

/// A character beyond ASCII has the Unicode property White_Space.
pub uninterp spec fn unicode_white(c: char) -> bool;

/// The whitespace `trim` and `split_whitespace` go by.
pub open spec fn white(c: char) -> bool {
    if ascii(c) {
        c == ' ' || (9 <= (c as u32) && (c as u32) <= 13)
    } else {
        unicode_white(c)
    }
}

/// `char::is_whitespace`. The ASCII whitespace is the space and the control
/// characters from the tab to the carriage return; of the other characters the
/// answer is the Unicode table's.
#[verifier::external_body]
pub(crate) fn is_white(c: char) -> (r: bool)
    ensures
        ascii(c) ==> r == white(c),
        !ascii(c) ==> r == unicode_white(c),
{
    c.is_whitespace()
}

/// A character beyond ASCII is alphabetic or numeric in the Unicode sense.
pub uninterp spec fn unicode_alphanumeric(c: char) -> bool;

/// A letter or a number.
pub open spec fn alphanumeric(c: char) -> bool {
    if ascii(c) {
        is_digit(c) || is_ascii_letter(c)
    } else {
        unicode_alphanumeric(c)
    }
}

/// `char::is_alphanumeric`. Among ASCII these are the letters and the digits;
/// of the other characters the answer is the Unicode table's.
#[verifier::external_body]
pub(crate) fn is_alphanumeric(c: char) -> (r: bool)
    ensures
        ascii(c) ==> r == alphanumeric(c),
        !ascii(c) ==> r == unicode_alphanumeric(c),
{
    c.is_alphanumeric()
}

/// The lowercase mapping of a character beyond ASCII.
pub uninterp spec fn unicode_lower(c: char) -> Seq<char>;

/// The lowercase mapping of one character.
pub open spec fn lower(c: char) -> Seq<char> {
    if ascii(c) {
        seq![ascii_lower(c)]
    } else {
        unicode_lower(c)
    }
}

/// `char::to_lowercase`, its characters collected. An ASCII character maps to
/// its ASCII lowercase, any other as the Unicode table says.
#[verifier::external_body]
pub(crate) fn lower_char(c: char) -> (r: String)
    ensures
        ascii(c) ==> r@ == lower(c),
        !ascii(c) ==> r@ == unicode_lower(c),
{
    c.to_lowercase().to_string()
}

/// The uppercase mapping of a character beyond ASCII.
pub uninterp spec fn unicode_upper(c: char) -> Seq<char>;

/// The uppercase mapping of one character.
pub open spec fn upper(c: char) -> Seq<char> {
    if ascii(c) {
        seq![ascii_upper(c)]
    } else {
        unicode_upper(c)
    }
}

/// `char::to_uppercase`, its characters collected. An ASCII character maps to
/// its ASCII uppercase, any other as the Unicode table says.
#[verifier::external_body]
pub(crate) fn upper_char(c: char) -> (r: String)
    ensures
        ascii(c) ==> r@ == upper(c),
        !ascii(c) ==> r@ == unicode_upper(c),
{
    c.to_uppercase().to_string()
}

/// The lowercase form of a text that holds more than ASCII.
pub uninterp spec fn unicode_lowercase(s: Seq<char>) -> Seq<char>;

/// The lowercase form of a text.
pub open spec fn lowercase(s: Seq<char>) -> Seq<char> {
    if is_ascii_chars(s) {
        s.map_values(|c: char| ascii_lower(c))
    } else {
        unicode_lowercase(s)
    }
}

/// `str::to_lowercase`. An ASCII text is lowered character by character, any
/// other as the Unicode rules say.
#[verifier::external_body]
pub(crate) fn lower_text(s: &str) -> (r: String)
    ensures
        is_ascii_chars(s@) ==> r@ == lowercase(s@),
        !is_ascii_chars(s@) ==> r@ == unicode_lowercase(s@),
{
    s.to_lowercase()
}

/// The uppercase form of a text that holds more than ASCII.
pub uninterp spec fn unicode_uppercase(s: Seq<char>) -> Seq<char>;

/// The uppercase form of a text.
pub open spec fn uppercase(s: Seq<char>) -> Seq<char> {
    if is_ascii_chars(s) {
        s.map_values(|c: char| ascii_upper(c))
    } else {
        unicode_uppercase(s)
    }
}

/// `str::to_uppercase`. An ASCII text is raised character by character, any
/// other as the Unicode rules say.
#[verifier::external_body]
pub(crate) fn upper_text(s: &str) -> (r: String)
    ensures
        is_ascii_chars(s@) ==> r@ == uppercase(s@),
        !is_ascii_chars(s@) ==> r@ == unicode_uppercase(s@),
{
    s.to_uppercase()
}

/// Bytes that are not all UTF-8, read with U+FFFD standing in for the faults.
pub uninterp spec fn repaired(bytes: Seq<u8>) -> Seq<char>;

/// Bytes read as UTF-8, faults replaced.
pub open spec fn lossy(bytes: Seq<u8>) -> Seq<char> {
    if valid_utf8(bytes) {
        decode_utf8(bytes)
    } else {
        repaired(bytes)
    }
}

/// `String::from_utf8_lossy`. Valid UTF-8 is decoded as it stands; where it is
/// not valid the result is the standard library's replacement of the faults.
#[verifier::external_body]
pub(crate) fn lossy_text(bytes: &[u8]) -> (r: String)
    ensures
        valid_utf8(bytes@) ==> r@ == lossy(bytes@),
        !valid_utf8(bytes@) ==> r@ == repaired(bytes@),
{
    String::from_utf8_lossy(bytes).into_owned()
}

/// A text between double quotes, escaped as `{:?}` prints it.
pub uninterp spec fn quoted(s: Seq<char>) -> Seq<char>;

/// The `Debug` form of a string slice.
#[verifier::external_body]
pub(crate) fn quoted_text(s: &str) -> (r: String)
    ensures
        r@ == quoted(s@),
{
    format!("{s:?}")
}

// ---------------------------------------------------------------------------
// Characters
// ---------------------------------------------------------------------------

/// The characters of a text, in order.
pub fn chars_of(s: &str) -> (r: Vec<char>)
    ensures
        r@ == s@,
{
    let mut r: Vec<char> = Vec::new();
    for c in it: s.chars()
        invariant
            it.seq() == s@,
            r@ == s@.take(it.index() as int),
    {
        r.push(c);
    }
    r
}

/// The text that `chars` spells.
pub fn text_of(chars: &[char]) -> (r: String)
    ensures
        r@ == chars@,
{
    let mut r = String::new();
    let mut i: usize = 0;
    while i < chars.len()
        invariant
            i <= chars.len(),
            r@ == chars@.take(i as int),
        decreases chars.len() - i,
    {
        r.push(chars[i]);
        i += 1;
    }
    r
}

/// The first `count` characters of a text, or all of it when it is shorter.
pub open spec fn head(s: Seq<char>, count: nat) -> Seq<char> {
    if s.len() <= count {
        s
    } else {
        s.take(count as int)
    }
}

/// `text.chars().take(count)`, collected.
pub fn head_of(s: &str, count: usize) -> (r: String)
    ensures
        r@ == head(s@, count as nat),
{
    let chars = chars_of(s);
    if chars.len() <= count {
        text_of(chars.as_slice())
    } else {
        text_of(vstd::slice::slice_subrange(chars.as_slice(), 0, count))
    }
}

// ---------------------------------------------------------------------------
// Numbers
// ---------------------------------------------------------------------------

/// The character for one decimal digit.
pub open spec fn digit(d: nat) -> char {
    (48 + d) as char
}

/// One decimal digit as a character.
pub fn digit_char(d: u8) -> (r: char)
    requires
        d < 10,
    ensures
        r == digit(d as nat),
{
    (48u8 + d) as char
}

/// A number in decimal, without leading zeros.
pub open spec fn decimal(n: nat) -> Seq<char>
    decreases n,
{
    if n < 10 {
        seq![digit(n)]
    } else {
        decimal(n / 10).push(digit(n % 10))
    }
}

/// The decimal form of a number.
pub fn decimal_text(n: u128) -> (r: String)
    ensures
        r@ == decimal(n as nat),
    decreases n,
{
    if n < 10 {
        let mut r = String::new();
        r.push(digit_char(n as u8));
        assert(r@ =~= seq![digit(n as nat)]);
        r
    } else {
        let mut r = decimal_text(n / 10);
        r.push(digit_char((n % 10) as u8));
        r
    }
}

/// The value of one decimal digit.
pub open spec fn digit_value(c: char) -> nat {
    ((c as u32) - 48) as nat
}

/// The number a run of decimal digits writes down.
pub open spec fn number(s: Seq<char>) -> nat
    decreases s.len(),
{
    if s.len() == 0 {
        0
    } else {
        number(s.drop_last()) * 10 + digit_value(s.last())
    }
}

/// Every character is a decimal digit.
pub open spec fn all_digits(s: Seq<char>) -> bool {
    forall|i: int| 0 <= i < s.len() ==> is_digit(#[trigger] s[i])
}

/// A text without one leading plus sign.
pub open spec fn unsigned(s: Seq<char>) -> Seq<char> {
    if s.len() > 0 && s[0] == '+' {
        s.drop_first()
    } else {
        s
    }
}

/// What a text says as a `u64`: decimal digits, at least one, after an
/// optional plus sign, and a value that fits.
pub open spec fn parsed_u64(s: Seq<char>) -> Option<u64> {
    let digits = unsigned(s);
    if digits.len() > 0 && all_digits(digits) && number(digits) <= u64::MAX {
        Some(number(digits) as u64)
    } else {
        None
    }
}

/// A longer run of digits never writes a smaller number.
proof fn lemma_number_grows(s: Seq<char>, i: int)
    requires
        0 <= i <= s.len(),
    ensures
        number(s.take(i)) <= number(s),
    decreases s.len() - i,
{
    if i == s.len() {
        assert(s.take(i) =~= s);
    } else {
        lemma_number_grows(s, i + 1);
        assert(s.take(i + 1).drop_last() =~= s.take(i));
    }
}

/// `text.parse::<u64>().ok()`.
pub fn parse_u64(s: &str) -> (r: Option<u64>)
    ensures
        r == parsed_u64(s@),
{
    let chars = chars_of(s);
    let start: usize = if chars.len() > 0 && chars[0] == '+' {
        1
    } else {
        0
    };
    let ghost digits = unsigned(s@);
    assert(digits =~= s@.skip(start as int));
    if start >= chars.len() {
        return None;
    }
    let mut value: u64 = 0;
    let mut i: usize = start;
    while i < chars.len()
        invariant
            chars@ == s@,
            start <= i <= chars.len(),
            digits == s@.skip(start as int),
            digits == unsigned(s@),
            digits.len() == chars.len() - start,
            all_digits(digits.take(i - start)),
            value == number(digits.take(i - start)),
        decreases chars.len() - i,
    {
        let c = chars[i];
        let ghost done = digits.take(i - start);
        let ghost next = digits.take(i - start + 1);
        assert(c == digits[i - start]);
        assert(next.drop_last() =~= done);
        if c < '0' || c > '9' {
            return None;
        }
        let d: u64 = (c as u32 - 48) as u64;
        assert(number(next) == number(done) * 10 + d);
        proof {
            lemma_number_grows(digits, i - start + 1);
        }
        if value > (u64::MAX - d) / 10 {
            return None;
        }
        value = value * 10 + d;
        assert forall|j: int| 0 <= j < next.len() implies is_digit(#[trigger] next[j]) by {
            if j < done.len() {
                assert(next[j] == done[j]);
            }
        }
        i += 1;
    }
    assert(digits.take(digits.len() as int) =~= digits);
    Some(value)
}

// ---------------------------------------------------------------------------
// Cutting
// ---------------------------------------------------------------------------

/// A text without its leading whitespace.
pub open spec fn trim_start(s: Seq<char>) -> Seq<char>
    decreases s.len(),
{
    if s.len() > 0 && white(s.first()) {
        trim_start(s.drop_first())
    } else {
        s
    }
}

/// A text without its trailing whitespace.
pub open spec fn trim_end(s: Seq<char>) -> Seq<char>
    decreases s.len(),
{
    if s.len() > 0 && white(s.last()) {
        trim_end(s.drop_last())
    } else {
        s
    }
}

/// A text without the whitespace around it.
pub open spec fn trim(s: Seq<char>) -> Seq<char> {
    trim_end(trim_start(s))
}

/// `text.trim()`, owned.
pub fn trimmed(s: &str) -> (r: String)
    ensures
        r@ == trim(s@),
{
    let chars = chars_of(s);
    let mut a: usize = 0;
    assert(s@.skip(0) =~= s@);
    while a < chars.len() && is_white(chars[a])
        invariant
            chars@ == s@,
            a <= chars.len(),
            trim_start(s@) == trim_start(s@.skip(a as int)),
        decreases chars.len() - a,
    {
        assert(s@.skip(a as int).drop_first() =~= s@.skip(a + 1));
        a += 1;
    }
    assert(trim_start(s@) == s@.skip(a as int));
    let mut b: usize = chars.len();
    let ghost rest = s@.skip(a as int);
    assert(rest =~= s@.subrange(a as int, b as int));
    while b > a && is_white(chars[b - 1])
        invariant
            chars@ == s@,
            a <= b <= chars.len(),
            trim_end(rest) == trim_end(s@.subrange(a as int, b as int)),
        decreases b,
    {
        assert(s@.subrange(a as int, b as int).drop_last() =~= s@.subrange(a as int, b - 1));
        b -= 1;
    }
    text_of(vstd::slice::slice_subrange(chars.as_slice(), a, b))
}

/// A text without the run of `mark` it ends on.
pub open spec fn without_trailing(s: Seq<char>, mark: char) -> Seq<char>
    decreases s.len(),
{
    if s.len() > 0 && s.last() == mark {
        without_trailing(s.drop_last(), mark)
    } else {
        s
    }
}

/// `text.trim_end_matches(mark)`, owned.
pub fn drop_trailing(s: &str, mark: char) -> (r: String)
    ensures
        r@ == without_trailing(s@, mark),
{
    let chars = chars_of(s);
    let mut b: usize = chars.len();
    assert(s@.take(b as int) =~= s@);
    while b > 0 && chars[b - 1] == mark
        invariant
            chars@ == s@,
            b <= chars.len(),
            without_trailing(s@, mark) == without_trailing(s@.take(b as int), mark),
        decreases b,
    {
        assert(s@.take(b as int).drop_last() =~= s@.take(b - 1));
        b -= 1;
    }
    text_of(vstd::slice::slice_subrange(chars.as_slice(), 0, b))
}

// ---------------------------------------------------------------------------
// Finding
// ---------------------------------------------------------------------------

/// `needle` stands in `s` at `at`.
pub open spec fn stands_at<T>(s: Seq<T>, needle: Seq<T>, at: int) -> bool {
    &&& 0 <= at
    &&& at + needle.len() <= s.len()
    &&& s.subrange(at, at + needle.len()) == needle
}

/// `needle` is a literal substring of `s`.
pub open spec fn holds_text(s: Seq<char>, needle: Seq<char>) -> bool {
    exists|at: int| stands_at(s, needle, at)
}

/// Whether `needle` stands in `chars` at `at`.
fn matches_at(chars: &[char], needle: &[char], at: usize) -> (r: bool)
    requires
        at + needle.len() <= chars.len(),
    ensures
        r == stands_at(chars@, needle@, at as int),
{
    let mut i: usize = 0;
    while i < needle.len()
        invariant
            at + needle.len() <= chars.len(),
            i <= needle.len(),
            forall|j: int| 0 <= j < i ==> chars@[at + j] == needle@[j],
        decreases needle.len() - i,
    {
        if chars[at + i] != needle[i] {
            assert(chars@.subrange(at as int, at + needle@.len())[i as int] != needle@[i as int]);
            return false;
        }
        i += 1;
    }
    assert(chars@.subrange(at as int, at + needle@.len()) =~= needle@);
    true
}

/// `text.contains(needle)`.
pub fn contains_text(s: &str, needle: &str) -> (r: bool)
    ensures
        r == holds_text(s@, needle@),
{
    let chars = chars_of(s);
    let wanted = chars_of(needle);
    if wanted.len() > chars.len() {
        return false;
    }
    let last: usize = chars.len() - wanted.len();
    let mut at: usize = 0;
    while at <= last
        invariant
            chars@ == s@,
            wanted@ == needle@,
            last + wanted.len() == chars.len(),
            at <= last + 1,
            forall|j: int| 0 <= j < at ==> !stands_at(s@, needle@, j),
        decreases last + 1 - at,
    {
        if matches_at(chars.as_slice(), wanted.as_slice(), at) {
            return true;
        }
        if at == last {
            return false;
        }
        at += 1;
    }
    false
}

/// `text.starts_with(start)`.
pub fn begins_with(s: &str, start: &str) -> (r: bool)
    ensures
        r == stands_at(s@, start@, 0),
{
    let chars = chars_of(s);
    let wanted = chars_of(start);
    if wanted.len() > chars.len() {
        false
    } else {
        matches_at(chars.as_slice(), wanted.as_slice(), 0)
    }
}

// ---------------------------------------------------------------------------
// Order
// ---------------------------------------------------------------------------

/// `a` comes strictly before `b` in code point order.
pub open spec fn text_before(a: Seq<char>, b: Seq<char>) -> bool
    decreases a.len(),
{
    if b.len() == 0 {
        false
    } else if a.len() == 0 {
        true
    } else if a[0] != b[0] {
        a[0] < b[0]
    } else {
        text_before(a.drop_first(), b.drop_first())
    }
}

/// Whether `a` sorts strictly before `b`.
pub fn sorts_before(a: &str, b: &str) -> (r: bool)
    ensures
        r == text_before(a@, b@),
{
    let x = chars_of(a);
    let y = chars_of(b);
    let mut i: usize = 0;
    assert(a@.skip(0) =~= a@);
    assert(b@.skip(0) =~= b@);
    while i < x.len() && i < y.len()
        invariant
            x@ == a@,
            y@ == b@,
            i <= x.len(),
            i <= y.len(),
            text_before(a@, b@) == text_before(a@.skip(i as int), b@.skip(i as int)),
        decreases x.len() - i,
    {
        if x[i] != y[i] {
            return x[i] < y[i];
        }
        assert(a@.skip(i as int).drop_first() =~= a@.skip(i + 1));
        assert(b@.skip(i as int).drop_first() =~= b@.skip(i + 1));
        i += 1;
    }
    i < y.len()
}

// ---------------------------------------------------------------------------
// Joining
// ---------------------------------------------------------------------------

/// Three pieces, one after the other.
pub fn join3(a: &str, b: &str, c: &str) -> (r: String)
    ensures
        r@ == a@ + b@ + c@,
{
    let mut r = a.to_owned();
    r.append(b);
    r.append(c);
    r
}

/// Two pieces, one after the other.
pub fn join2(a: &str, b: &str) -> (r: String)
    ensures
        r@ == a@ + b@,
{
    let mut r = a.to_owned();
    r.append(b);
    r
}

// ---------------------------------------------------------------------------
// Laws
// ---------------------------------------------------------------------------

/// No text comes before itself.
pub proof fn text_order_irreflexive(a: Seq<char>)
    ensures
        !text_before(a, a),
    decreases a.len(),
{
    if a.len() > 0 {
        text_order_irreflexive(a.drop_first());
    }
}

/// The order of texts is transitive.
pub proof fn text_order_transitive(a: Seq<char>, b: Seq<char>, c: Seq<char>)
    requires
        text_before(a, b),
        text_before(b, c),
    ensures
        text_before(a, c),
    decreases a.len(),
{
    if a.len() > 0 && b.len() > 0 && c.len() > 0 && a[0] == b[0] && b[0] == c[0] {
        text_order_transitive(a.drop_first(), b.drop_first(), c.drop_first());
    }
}

/// Of two different texts one comes before the other.
pub proof fn text_order_total(a: Seq<char>, b: Seq<char>)
    ensures
        text_before(a, b) || text_before(b, a) || a == b,
    decreases a.len(),
{
    if a.len() > 0 && b.len() > 0 {
        if a[0] == b[0] {
            text_order_total(a.drop_first(), b.drop_first());
            if a.drop_first() == b.drop_first() {
                assert(a =~= seq![a[0]] + a.drop_first());
                assert(b =~= seq![b[0]] + b.drop_first());
            }
        }
    } else if a.len() == 0 && b.len() == 0 {
        assert(a =~= b);
    }
}

/// Two ASCII texts that differ in case alone.
pub open spec fn same_but_for_case(a: Seq<char>, b: Seq<char>) -> bool {
    &&& a.len() == b.len()
    &&& forall|i: int|
        0 <= i < a.len() ==> {
            &&& ascii(#[trigger] a[i])
            &&& ascii(b[i])
            &&& ascii_lower(a[i]) == ascii_lower(b[i])
        }
}

/// Lower case flattens ASCII case.
pub proof fn lowercase_flattens_case(a: Seq<char>, b: Seq<char>)
    requires
        same_but_for_case(a, b),
    ensures
        lowercase(a) == lowercase(b),
{
    same_case_is_ascii(a, b);
    assert(lowercase(a) =~= lowercase(b)) by {
        assert forall|i: int| 0 <= i < a.len() implies lowercase(a)[i] == lowercase(b)[i] by {
            assert(ascii(a[i]));
        }
    }
}

/// Texts that differ in case alone are ASCII.
pub proof fn same_case_is_ascii(a: Seq<char>, b: Seq<char>)
    requires
        same_but_for_case(a, b),
    ensures
        is_ascii_chars(a),
        is_ascii_chars(b),
{
    assert forall|i: int| 0 <= i < a.len() implies '\0' <= #[trigger] a[i] <= '\u{7f}' by {
        assert(ascii(a[i]));
    }
    assert forall|i: int| 0 <= i < b.len() implies '\0' <= #[trigger] b[i] <= '\u{7f}' by {
        assert(ascii(a[i]) && ascii(b[i]));
    }
}

/// An ASCII text in lower case is its own lower case.
pub proof fn lowercase_lowers_once(s: Seq<char>)
    requires
        is_ascii_chars(s),
    ensures
        lowercase(lowercase(s)) == lowercase(s),
{
    let low = lowercase(s);
    assert forall|i: int| 0 <= i < s.len() implies ascii(#[trigger] low[i]) && ascii_lower(low[i])
        == low[i] by {
        assert('\0' <= s[i] <= '\u{7f}');
    }
    assert(is_ascii_chars(low)) by {
        assert forall|i: int| 0 <= i < low.len() implies '\0' <= #[trigger] low[i] <= '\u{7f}' by {
            assert(ascii(low[i]));
        }
    }
    assert(lowercase(low) =~= low);
}

/// A text that neither begins nor ends on white space.
pub open spec fn bare(s: Seq<char>) -> bool {
    s.len() > 0 ==> !white(s.first()) && !white(s.last())
}

/// A text without the white space around it trims no further.
pub proof fn trimmed_text_trims_no_further(s: Seq<char>)
    ensures
        bare(trim(s)),
        trim(trim(s)) == trim(s),
{
    lemma_trim_start_opens(s);
    lemma_trim_end_closes(trim_start(s));
}

proof fn lemma_trim_start_opens(s: Seq<char>)
    ensures
        trim_start(s).len() > 0 ==> !white(trim_start(s).first()),
    decreases s.len(),
{
    if s.len() > 0 && white(s.first()) {
        lemma_trim_start_opens(s.drop_first());
    }
}

proof fn lemma_trim_end_closes(s: Seq<char>)
    ensures
        trim_end(s).len() > 0 ==> !white(trim_end(s).last()) && trim_end(s).first() == s.first(),
    decreases s.len(),
{
    if s.len() > 0 && white(s.last()) {
        lemma_trim_end_closes(s.drop_last());
    }
}

/// Lower case turns no ASCII character into white space: what needs no trimming
/// needs none in lower case.
pub proof fn lowercase_leaves_the_ends(s: Seq<char>)
    requires
        is_ascii_chars(s),
        bare(s),
    ensures
        trim(lowercase(s)) == lowercase(s),
{
    if s.len() > 0 {
        assert('\0' <= s[0] <= '\u{7f}');
        assert('\0' <= s[s.len() - 1] <= '\u{7f}');
    }
}

/// Every text holds itself.
pub proof fn text_holds_itself(s: Seq<char>)
    ensures
        holds_text(s, s),
{
    assert(s.subrange(0, s.len() as int) =~= s);
    assert(stands_at(s, s, 0));
}

/// A text with a character that is not white space anywhere in it does not trim
/// away.
pub proof fn a_text_with_a_mark_is_not_blank(s: Seq<char>, at: int)
    requires
        0 <= at < s.len(),
        !white(s[at]),
    ensures
        trim(s).len() > 0,
{
    lemma_trim_start_keeps(s, at);
    let rest = trim_start(s);
    let k = choose|k: int| 0 <= k < rest.len() && !white(#[trigger] rest[k]);
    lemma_trim_end_keeps(rest, k);
}

proof fn lemma_trim_start_keeps(s: Seq<char>, at: int)
    requires
        0 <= at < s.len(),
        !white(s[at]),
    ensures
        exists|k: int| 0 <= k < trim_start(s).len() && !white(#[trigger] trim_start(s)[k]),
    decreases s.len(),
{
    if white(s[0]) {
        lemma_trim_start_keeps(s.drop_first(), at - 1);
        assert(trim_start(s) == trim_start(s.drop_first()));
        let k = choose|k: int|
            0 <= k < trim_start(s.drop_first()).len() && !white(
                #[trigger] trim_start(s.drop_first())[k],
            );
        assert(!white(trim_start(s)[k]));
    } else {
        assert(!white(trim_start(s)[0]));
    }
}

proof fn lemma_trim_end_keeps(s: Seq<char>, at: int)
    requires
        0 <= at < s.len(),
        !white(s[at]),
    ensures
        trim_end(s).len() > 0,
    decreases s.len(),
{
    if white(s.last()) {
        lemma_trim_end_keeps(s.drop_last(), at);
    }
}

/// A decimal names one number.
pub proof fn decimals_name_one_number(a: nat, b: nat)
    ensures
        decimal(a) == decimal(b) ==> a == b,
        decimal(a).len() >= 1,
    decreases a,
{
    if a >= 10 {
        decimals_name_one_number(a / 10, b / 10);
    }
    if b >= 10 {
        lemma_decimal_len(b / 10);
    }
    if decimal(a) == decimal(b) {
        if a >= 10 {
            lemma_decimal_len(a / 10);
        }
        assert(decimal(a).last() == digit(a % 10));
        assert(decimal(b).last() == digit(b % 10));
        if a >= 10 && b >= 10 {
            assert(decimal(a / 10) =~= decimal(a).drop_last());
            assert(decimal(b / 10) =~= decimal(b).drop_last());
        }
    }
}

proof fn lemma_decimal_len(n: nat)
    ensures
        decimal(n).len() >= 1,
    decreases n,
{
    if n >= 10 {
        lemma_decimal_len(n / 10);
    }
}

/// A number in decimal is all digits, without a leading zero, and its digits
/// write the number down again.
pub proof fn a_decimal_writes_its_number(n: nat)
    ensures
        decimal(n).len() >= 1,
        forall|i: int|
            0 <= i < decimal(n).len() ==> '0' <= #[trigger] decimal(n)[i] && decimal(n)[i] <= '9',
        decimal(n).len() > 1 ==> decimal(n)[0] != '0',
        number(decimal(n)) == n,
    decreases n,
{
    reveal_with_fuel(number, 2);
    if n < 10 {
        assert(decimal(n).drop_last() =~= Seq::empty());
        assert(decimal(n).last() == digit(n));
    } else {
        let front = decimal(n / 10);
        a_decimal_writes_its_number(n / 10);
        assert(decimal(n).drop_last() =~= front);
        assert(decimal(n).last() == digit(n % 10));
        assert(decimal(n)[0] == front[0]);
        if front.len() == 1 {
            reveal_with_fuel(decimal, 2);
            if n / 10 >= 10 {
                lemma_decimal_len(n / 100);
            }
            assert(front[0] == digit(n / 10));
        }
        assert forall|i: int| 0 <= i < decimal(n).len() implies '0' <= #[trigger] decimal(n)[i]
            && decimal(n)[i] <= '9' by {
            if i < front.len() {
                assert(decimal(n)[i] == front[i]);
            }
        }
    }
}

/// Digits write a number down place by place: one more digit behind them is worth
/// itself and makes the others worth ten times as much.
pub proof fn digits_count_in_tens(s: Seq<char>, d: nat)
    requires
        d < 10,
    ensures
        number(Seq::empty()) == 0,
        number(s.push((48 + d) as char)) == 10 * number(s) + d,
{
    let c = (48 + d) as char;
    assert(s.push(c).drop_last() =~= s);
    assert(s.push(c).last() == c);
    assert(c as u32 == 48 + d);
}

/// What was written in decimal is read back, with or without a plus sign in
/// front.
pub proof fn a_written_number_reads_back(n: u64)
    ensures
        parsed_u64(decimal(n as nat)) == Some(n),
        parsed_u64(seq!['+'] + decimal(n as nat)) == Some(n),
{
    let written = decimal(n as nat);
    a_decimal_writes_its_number(n as nat);
    assert('0' <= written[0] && written[0] <= '9');
    assert(all_digits(written));
    assert((seq!['+'] + written).drop_first() =~= written);
}

/// Only a number reads as one: one digit or more behind at most one plus sign,
/// nothing else, and no more than a 64-bit number holds.
pub proof fn only_digits_read_as_a_number(s: Seq<char>, i: int)
    ensures
        parsed_u64(s) is Some && 0 <= i < s.len() ==> ('0' <= s[i] && s[i] <= '9') || (i == 0
            && s[i] == '+' && s.len() > 1),
        s.len() == 0 ==> parsed_u64(s) is None,
        parsed_u64(s) matches Some(n) ==> n == number(
            if s[0] == '+' {
                s.skip(1)
            } else {
                s
            },
        ),
{
    let digits = unsigned(s);
    if parsed_u64(s) is Some {
        assert(digits =~= if s[0] == '+' {
            s.skip(1)
        } else {
            s
        });
        if 0 <= i < s.len() && !(i == 0 && s[0] == '+') {
            let k = if s[0] == '+' {
                i - 1
            } else {
                i
            };
            assert(is_digit(digits[k]));
            assert(digits[k] == s[i]);
        }
    }
}

/// Trimming takes the white space around a text and nothing else: what is left is
/// one stretch of the text that neither begins nor ends on white space, and all
/// before and behind it is white space.
pub proof fn trimming_takes_white_space_alone(s: Seq<char>) -> (r: (int, int))
    ensures
        0 <= r.0 <= r.1 <= s.len(),
        trim(s) == s.subrange(r.0, r.1),
        forall|i: int| 0 <= i < r.0 ==> white(#[trigger] s[i]),
        forall|i: int| r.1 <= i < s.len() ==> white(#[trigger] s[i]),
        r.0 < r.1 ==> !white(s[r.0]) && !white(s[r.1 - 1]),
{
    let a = lemma_trim_start_cut(s);
    let rest = s.skip(a);
    let b = lemma_trim_end_cut(rest);
    assert(trim(s) =~= s.subrange(a, a + b));
    assert forall|i: int| a + b <= i < s.len() implies white(#[trigger] s[i]) by {
        assert(rest[i - a] == s[i]);
    }
    if b > 0 {
        assert(s[a] == rest[0]);
        assert(s[a + b - 1] == rest[b - 1]);
    }
    (a, a + b)
}

proof fn lemma_trim_start_cut(s: Seq<char>) -> (a: int)
    ensures
        0 <= a <= s.len(),
        trim_start(s) == s.skip(a),
        forall|i: int| 0 <= i < a ==> white(#[trigger] s[i]),
        a < s.len() ==> !white(s[a]),
    decreases s.len(),
{
    if s.len() > 0 && white(s.first()) {
        let rest = s.drop_first();
        let a = lemma_trim_start_cut(rest);
        assert(rest.skip(a) =~= s.skip(a + 1));
        assert forall|i: int| 0 <= i < a + 1 implies white(#[trigger] s[i]) by {
            if i > 0 {
                assert(rest[i - 1] == s[i]);
            }
        }
        if a + 1 < s.len() {
            assert(rest[a] == s[a + 1]);
        }
        a + 1
    } else {
        assert(s.skip(0) =~= s);
        0
    }
}

proof fn lemma_trim_end_cut(s: Seq<char>) -> (b: int)
    ensures
        0 <= b <= s.len(),
        trim_end(s) == s.take(b),
        forall|i: int| b <= i < s.len() ==> white(#[trigger] s[i]),
        b > 0 ==> !white(s[b - 1]),
    decreases s.len(),
{
    if s.len() > 0 && white(s.last()) {
        let rest = s.drop_last();
        let b = lemma_trim_end_cut(rest);
        assert(rest.take(b) =~= s.take(b));
        assert forall|i: int| b <= i < s.len() implies white(#[trigger] s[i]) by {
            if i < rest.len() {
                assert(rest[i] == s[i]);
            }
        }
        if b > 0 {
            assert(rest[b - 1] == s[b - 1]);
        }
        b
    } else {
        assert(s.take(s.len() as int) =~= s);
        s.len() as int
    }
}

/// Dropping a trailing mark takes the whole run of it off the end and nothing
/// else.
pub proof fn a_trailing_run_goes_whole(s: Seq<char>, mark: char) -> (b: int)
    ensures
        0 <= b <= s.len(),
        without_trailing(s, mark) == s.take(b),
        forall|i: int| b <= i < s.len() ==> #[trigger] s[i] == mark,
        b > 0 ==> s[b - 1] != mark,
    decreases s.len(),
{
    if s.len() > 0 && s.last() == mark {
        let rest = s.drop_last();
        let b = a_trailing_run_goes_whole(rest, mark);
        assert(rest.take(b) =~= s.take(b));
        assert forall|i: int| b <= i < s.len() implies #[trigger] s[i] == mark by {
            if i < rest.len() {
                assert(rest[i] == s[i]);
            }
        }
        if b > 0 {
            assert(rest[b - 1] == s[b - 1]);
        }
        b
    } else {
        assert(s.take(s.len() as int) =~= s);
        s.len() as int
    }
}

/// The head of a text is its beginning, as much of it as was asked for or there
/// is.
pub proof fn a_head_is_a_beginning(s: Seq<char>, count: nat)
    ensures
        head(s, count).is_prefix_of(s),
        head(s, count).len() == if s.len() < count {
            s.len()
        } else {
            count
        },
{
}

/// A text holds another exactly where it is something, that other, and something
/// behind it.
pub proof fn holding_is_standing_within(s: Seq<char>, needle: Seq<char>)
    ensures
        holds_text(s, needle) <==> exists|front: Seq<char>, behind: Seq<char>|
            s == #[trigger] (front + needle + behind),
{
    if holds_text(s, needle) {
        let at = choose|at: int| stands_at(s, needle, at);
        let front = s.take(at);
        let behind = s.skip(at + needle.len());
        assert(s =~= front + s.subrange(at, at + needle.len()) + behind);
        assert(s == front + needle + behind);
    }
    if exists|front: Seq<char>, behind: Seq<char>| s == #[trigger] (front + needle + behind) {
        let (front, behind) = choose|front: Seq<char>, behind: Seq<char>|
            s == #[trigger] (front + needle + behind);
        let at = front.len() as int;
        assert(s.subrange(at, at + needle.len()) =~= needle);
        assert(stands_at(s, needle, at));
    }
}

/// Texts sort by the first character in which they differ, and a text sorts
/// before everything it begins.
pub proof fn texts_sort_by_their_first_difference(a: Seq<char>, b: Seq<char>, i: int)
    requires
        0 <= i <= a.len(),
        i <= b.len(),
        a.take(i) == b.take(i),
    ensures
        i < a.len() && i < b.len() && a[i] != b[i] ==> text_before(a, b) == (a[i] < b[i]),
        i == a.len() ==> text_before(a, b) == (a.len() < b.len()),
        i == b.len() ==> !text_before(a, b),
    decreases a.len(),
{
    if i > 0 {
        assert(a.take(i)[0] == a[0] && b.take(i)[0] == b[0]);
        assert(a.drop_first().take(i - 1) =~= a.take(i).drop_first());
        assert(b.drop_first().take(i - 1) =~= b.take(i).drop_first());
        texts_sort_by_their_first_difference(a.drop_first(), b.drop_first(), i - 1);
    }
}

/// A run of digits reads as its number wherever that fits in 64 bits, leading
/// zeros and all.
pub proof fn a_run_of_digits_reads_where_it_fits(s: Seq<char>)
    requires
        s.len() > 0,
        forall|i: int| 0 <= i < s.len() ==> '0' <= #[trigger] s[i] && s[i] <= '9',
    ensures
        parsed_u64(s) == if number(s) <= u64::MAX {
            Some(number(s) as u64)
        } else {
            None
        },
{
    assert('0' <= s[0] && s[0] <= '9');
    assert(all_digits(s));
}

} // verus!
