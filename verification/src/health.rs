//! The family's health: one reading per sibling, a round of readings kept for
//! half a minute, and the marks the switcher draws from them.

use crate::clock::{elapsed, Duration, Moment};
use crate::text;
use vstd::prelude::*;

verus! {

// ---------------------------------------------------------------------------
// Readings
// ---------------------------------------------------------------------------

/// One `/healthz` reading. `Up` carries the body and the answer's latency in
/// milliseconds; everything else, refused or wrong status or a body that does
/// not begin ok or no answer in time, is `Down`.
#[derive(Debug, PartialEq, Eq)]
pub enum Probe {
    Up { body: String, ms: u128 },
    Down,
}

impl Clone for Probe {
    fn clone(&self) -> (r: Probe)
        ensures
            r == *self,
    {
        match self {
            Probe::Up { body, ms } => Probe::Up { body: body.clone(), ms: *ms },
            Probe::Down => Probe::Down,
        }
    }
}

/// How much of a body a reading keeps.
pub const BODY_KEPT: usize = 64;

/// A body that says the service stands: it begins `ok`, white space aside.
pub open spec fn says_ok(body: Seq<char>) -> bool {
    "ok"@.is_prefix_of(text::trim(body))
}

/// What an answer reads as.
pub fn read_probe(success: bool, body: &str, ms: u128) -> (r: Probe)
    ensures
        success && says_ok(body@) ==> (r matches Probe::Up { body: kept, ms: took } && kept@
            == text::head(text::trim(body@), BODY_KEPT as nat) && took == ms),
        !(success && says_ok(body@)) ==> r is Down,
{
    if !success {
        return Probe::Down;
    }
    let trimmed = text::trimmed(body);
    if text::begins_with(trimmed.as_str(), "ok") {
        Probe::Up { body: text::head_of(trimmed.as_str(), BODY_KEPT), ms }
    } else {
        Probe::Down
    }
}

// ---------------------------------------------------------------------------
// Rounds
// ---------------------------------------------------------------------------

/// How long one round of readings stands in for the live siblings, in seconds.
pub const PROBE_TTL_SECONDS: u64 = 30;

/// The last family-wide round of readings and when it landed, by the urls that
/// were probed.
pub struct Round {
    pub at: Moment,
    pub readings: Vec<(String, Probe)>,
}

/// The readings of a round are of these urls, in this order.
pub open spec fn same_family(readings: Seq<(String, Probe)>, urls: Seq<String>) -> bool {
    readings.len() == urls.len() && forall|i: int|
        0 <= i < urls.len() ==> (#[trigger] readings[i]).0@ == urls[i]@
}

/// A round answers for a family while it is fresh and of the same urls: a
/// family that changed shape misses it and is probed anew.
pub open spec fn stands_in(round: Round, urls: Seq<String>, now: nat) -> bool {
    elapsed(now, round.at@) < PROBE_TTL_SECONDS * 1_000_000_000 && same_family(
        round.readings@,
        urls,
    )
}

fn is_same_family(readings: &Vec<(String, Probe)>, urls: &Vec<String>) -> (r: bool)
    ensures
        r == same_family(readings@, urls@),
{
    if readings.len() != urls.len() {
        return false;
    }
    let mut i: usize = 0;
    while i < urls.len()
        invariant
            i <= urls@.len(),
            readings@.len() == urls@.len(),
            forall|j: int| 0 <= j < i ==> (#[trigger] readings@[j]).0@ == urls@[j]@,
        decreases urls@.len() - i,
    {
        if *readings[i].0.as_str() != *urls[i].as_str() {
            assert(readings@[i as int].0@ != urls@[i as int]@);
            return false;
        }
        i = i + 1;
    }
    true
}

/// The last round's readings, where they stand in for a fresh round.
pub fn cached_round(round: &Option<Round>, urls: &Vec<String>, now: Moment) -> (r: Option<
    Vec<Probe>,
>)
    ensures
        r is Some <==> (round matches Some(last) && stands_in(*last, urls@, now@)),
        r matches Some(probes) ==> probes@.len() == urls@.len() && forall|i: int|
            0 <= i < urls@.len() ==> #[trigger] probes@[i] == round->0.readings@[i].1,
{
    match round {
        Some(last) => {
            let age = now.saturating_duration_since(last.at);
            if age.shorter_than(&Duration::from_secs(PROBE_TTL_SECONDS)) && is_same_family(
                &last.readings,
                urls,
            ) {
                let mut probes: Vec<Probe> = Vec::new();
                let mut i: usize = 0;
                while i < last.readings.len()
                    invariant
                        i <= last.readings@.len(),
                        probes@.len() == i,
                        forall|j: int|
                            0 <= j < i ==> #[trigger] probes@[j] == last.readings@[j].1,
                    decreases last.readings@.len() - i,
                {
                    probes.push(last.readings[i].1.clone());
                    i = i + 1;
                }
                Some(probes)
            } else {
                None
            }
        },
        None => None,
    }
}

/// A fresh round: every url with its reading, a missing one down. What comes
/// back are the readings themselves, in the urls' order.
pub fn new_round(urls: Vec<String>, probes: Vec<Option<Probe>>, now: Moment) -> (r: (
    Round,
    Vec<Probe>,
))
    requires
        urls@.len() == probes@.len(),
    ensures
        r.0.at@ == now@,
        same_family(r.0.readings@, urls@),
        r.1@.len() == urls@.len(),
        forall|i: int|
            0 <= i < urls@.len() ==> {
                &&& #[trigger] r.1@[i] == match probes@[i] {
                    Some(probe) => probe,
                    None => Probe::Down,
                }
                &&& r.0.readings@[i].1 == r.1@[i]
            },
{
    let ghost asked = urls@;
    let ghost answered = probes@;
    let mut readings: Vec<(String, Probe)> = Vec::new();
    let mut r: Vec<Probe> = Vec::new();
    let mut i: usize = 0;
    while i < urls.len()
        invariant
            i <= urls@.len(),
            urls@ == asked,
            probes@ == answered,
            asked.len() == answered.len(),
            readings@.len() == i,
            r@.len() == i,
            forall|j: int| 0 <= j < i ==> (#[trigger] readings@[j]).0@ == asked[j]@,
            forall|j: int|
                0 <= j < i ==> {
                    &&& #[trigger] r@[j] == match answered[j] {
                        Some(probe) => probe,
                        None => Probe::Down,
                    }
                    &&& readings@[j].1 == r@[j]
                },
        decreases urls@.len() - i,
    {
        let probe = match &probes[i] {
            Some(probe) => probe.clone(),
            None => Probe::Down,
        };
        readings.push((urls[i].clone(), probe.clone()));
        r.push(probe);
        i = i + 1;
    }
    (Round { at: now, readings }, r)
}

/// A render inside the window reuses the last round: the same family asked
/// again before the half minute is over gets the readings that landed, and one
/// asked at or past it, or of another shape, does not.
pub proof fn a_round_stands_in_for_half_a_minute(round: Round, urls: Seq<String>, now: nat)
    requires
        same_family(round.readings@, urls),
        now >= round.at@,
    ensures
        stands_in(round, urls, now) <==> now < round.at@ + 30 * 1_000_000_000,
{
}

/// A family that changed shape is never answered from the last round.
pub proof fn a_changed_family_is_probed_anew(
    round: Round,
    urls: Seq<String>,
    i: int,
    now: nat,
)
    requires
        urls.len() != round.readings@.len() || (0 <= i < urls.len() && urls[i]@
            != round.readings@[i].0@),
    ensures
        !stands_in(round, urls, now),
{
    if urls.len() == round.readings@.len() {
        assert(round.readings@[i].0@ != urls[i]@);
    }
}

// ---------------------------------------------------------------------------
// The switcher
// ---------------------------------------------------------------------------

/// One character as markup.
pub open spec fn escaped_char(c: char) -> Seq<char> {
    if c == '&' {
        "&amp;"@
    } else if c == '<' {
        "&lt;"@
    } else if c == '>' {
        "&gt;"@
    } else if c == '"' {
        "&quot;"@
    } else if c == '\'' {
        "&#39;"@
    } else {
        seq![c]
    }
}

/// A text as markup.
pub open spec fn escaped(raw: Seq<char>) -> Seq<char>
    decreases raw.len(),
{
    if raw.len() == 0 {
        Seq::empty()
    } else {
        escaped(raw.drop_last()) + escaped_char(raw.last())
    }
}

/// The switcher builds its marks as a string, so everything the mirror carries
/// crosses here before it reaches the markup.
pub fn escape(raw: &str) -> (r: String)
    ensures
        r@ == escaped(raw@),
{
    let chars = text::chars_of(raw);
    let mut r = String::new();
    let mut i: usize = 0;
    while i < chars.len()
        invariant
            i <= chars@.len(),
            r@ == escaped(chars@.take(i as int)),
        decreases chars@.len() - i,
    {
        let c = chars[i];
        let ghost before = r@;
        match c {
            '&' => r.append("&amp;"),
            '<' => r.append("&lt;"),
            '>' => r.append("&gt;"),
            '"' => r.append("&quot;"),
            '\'' => r.append("&#39;"),
            other => r.push(other),
        }
        assert(r@ =~= before + escaped_char(c));
        assert(chars@.take(i + 1).drop_last() =~= chars@.take(i as int));
        i = i + 1;
    }
    assert(chars@.take(chars@.len() as int) =~= raw@);
    r
}

/// A sibling as the switcher gets it: its key, its name, its url and its
/// reading.
pub type Sibling<'a> = (&'a str, &'a str, &'a str, Probe);

/// The dot a reading wears.
pub open spec fn dot_of(probe: Probe) -> Seq<char> {
    match probe {
        Probe::Up { .. } => "health-on"@,
        Probe::Down => "health-off"@,
    }
}

/// One sibling's mark: a plain link carrying its reading's dot.
pub open spec fn mark_of(key: Seq<char>, name: Seq<char>, url: Seq<char>, probe: Probe) -> Seq<
    char,
> {
    "<a class=\"service-mark\" href=\""@ + escaped(url) + "\" title=\""@ + escaped(name)
        + "\" data-hard=\"\"><span class=\"health-dot "@ + dot_of(probe) + "\"></span>"@ + escaped(
        key,
    ) + "</a>"@
}

/// What stands between two marks.
pub open spec fn mark_separator() -> Seq<char> {
    "<span class=\"service-sep\">·</span>"@
}

/// The marks of the rows, middots between, this app's own row left out.
pub open spec fn marks_of(rows: Seq<Sibling<'_>>) -> Seq<char>
    decreases rows.len(),
{
    if rows.len() == 0 {
        Seq::empty()
    } else {
        let before = marks_of(rows.drop_last());
        let (key, name, url, probe) = rows.last();
        if key@ == "iz"@ {
            before
        } else if siblings_in(rows.drop_last()) == 0 {
            mark_of(key@, name@, url@, probe)
        } else {
            before + mark_separator() + mark_of(key@, name@, url@, probe)
        }
    }
}

/// How many of the rows are siblings, this app's own left out.
pub open spec fn siblings_in(rows: Seq<Sibling<'_>>) -> nat
    decreases rows.len(),
{
    if rows.len() == 0 {
        0
    } else {
        siblings_in(rows.drop_last()) + if rows.last().0@ == "iz"@ {
            0nat
        } else {
            1nat
        }
    }
}

fn mark(key: &str, name: &str, url: &str, probe: &Probe) -> (r: String)
    ensures
        r@ == mark_of(key@, name@, url@, *probe),
{
    let dot = match probe {
        Probe::Up { .. } => "health-on",
        Probe::Down => "health-off",
    };
    let r = text::join3("<a class=\"service-mark\" href=\"", escape(url).as_str(), "\" title=\"");
    let r = text::join3(
        r.as_str(),
        escape(name).as_str(),
        "\" data-hard=\"\"><span class=\"health-dot ",
    );
    let r = text::join3(r.as_str(), dot, "\"></span>");
    text::join3(r.as_str(), escape(key).as_str(), "</a>")
}

/// The flyout's marks as final HTML: this app's own row left out, every sibling
/// a plain link carrying its reading's dot, middots between.
pub fn switcher_marks(rows: Vec<Sibling<'_>>) -> (r: String)
    ensures
        r@ == marks_of(rows@),
{
    let ghost whole = rows@;
    let mut r = String::new();
    let mut any = false;
    assert(r@ =~= Seq::empty());
    let mut i: usize = 0;
    while i < rows.len()
        invariant
            i <= rows@.len(),
            rows@ == whole,
            r@ == marks_of(whole.take(i as int)),
            any == (siblings_in(whole.take(i as int)) > 0),
            !any ==> r@ == Seq::<char>::empty(),
        decreases rows@.len() - i,
    {
        proof {
            assert(whole.take(i + 1).drop_last() =~= whole.take(i as int));
            assert(whole.take(i + 1).last() == whole[i as int]);
        }
        let key = rows[i].0;
        if *key != *"iz" {
            let one = mark(key, rows[i].1, rows[i].2, &rows[i].3);
            if any {
                r.append("<span class=\"service-sep\">·</span>");
            }
            let ghost before = r@;
            r.append(one.as_str());
            assert(!any ==> r@ =~= one@);
            any = true;
        }
        i = i + 1;
    }
    assert(whole.take(whole.len() as int) =~= whole);
    r
}

// ---------------------------------------------------------------------------
// Laws
// ---------------------------------------------------------------------------

/// A character that opens or closes markup, or an attribute's value.
pub open spec fn breaks_out(c: char) -> bool {
    c == '<' || c == '>' || c == '"' || c == '\''
}

/// Escaped text breaks out of no markup and of no attribute.
pub proof fn escaped_text_stays_inside(raw: Seq<char>, i: int)
    requires
        0 <= i < escaped(raw).len(),
    ensures
        !breaks_out(escaped(raw)[i]),
    decreases raw.len(),
{
    reveal_strlit("&amp;");
    reveal_strlit("&lt;");
    reveal_strlit("&gt;");
    reveal_strlit("&quot;");
    reveal_strlit("&#39;");
    let before = escaped(raw.drop_last());
    let last = escaped_char(raw.last());
    if i < before.len() {
        escaped_text_stays_inside(raw.drop_last(), i);
    } else {
        let k = i - before.len();
        assert(escaped(raw)[i] == last[k]);
        assert(!breaks_out(last[k]));
    }
}

/// Text with nothing to escape is left as it is.
pub proof fn plain_text_is_left_alone(raw: Seq<char>)
    requires
        forall|i: int| 0 <= i < raw.len() ==> !breaks_out(#[trigger] raw[i]) && raw[i] != '&',
    ensures
        escaped(raw) == raw,
    decreases raw.len(),
{
    if raw.len() > 0 {
        let rest = raw.drop_last();
        assert forall|i: int| 0 <= i < rest.len() implies !breaks_out(#[trigger] rest[i])
            && rest[i] != '&' by {
            assert(rest[i] == raw[i]);
        }
        plain_text_is_left_alone(rest);
        assert(!breaks_out(raw[raw.len() - 1]) && raw[raw.len() - 1] != '&');
        assert(escaped(raw) =~= raw);
    }
}

/// Escaping goes character by character, whatever stands around it.
pub proof fn escaping_joins(a: Seq<char>, b: Seq<char>)
    ensures
        escaped(a + b) == escaped(a) + escaped(b),
    decreases b.len(),
{
    if b.len() == 0 {
        assert(a + b =~= a);
        assert(escaped(a) + escaped(b) =~= escaped(a));
    } else {
        escaping_joins(a, b.drop_last());
        assert((a + b).drop_last() =~= a + b.drop_last());
        assert((a + b).last() == b.last());
        assert(escaped(a + b) =~= escaped(a) + escaped(b));
    }
}

/// One of the five entities stands in the markup at `at`.
pub open spec fn entity_at(markup: Seq<char>, at: int) -> bool {
    ||| text::stands_at(markup, "&amp;"@, at)
    ||| text::stands_at(markup, "&lt;"@, at)
    ||| text::stands_at(markup, "&gt;"@, at)
    ||| text::stands_at(markup, "&quot;"@, at)
    ||| text::stands_at(markup, "&#39;"@, at)
}

proof fn lemma_entity_shifts(markup: Seq<char>, before: Seq<char>, at: int)
    requires
        entity_at(markup, at),
    ensures
        entity_at(before + markup, before.len() + at),
{
    lemma_stands_shifts(markup, before, "&amp;"@, at);
    lemma_stands_shifts(markup, before, "&lt;"@, at);
    lemma_stands_shifts(markup, before, "&gt;"@, at);
    lemma_stands_shifts(markup, before, "&quot;"@, at);
    lemma_stands_shifts(markup, before, "&#39;"@, at);
}

proof fn lemma_stands_shifts(s: Seq<char>, before: Seq<char>, needle: Seq<char>, at: int)
    ensures
        text::stands_at(s, needle, at) ==> text::stands_at(
            before + s,
            needle,
            before.len() + at,
        ),
{
    if text::stands_at(s, needle, at) {
        let from = before.len() + at;
        assert((before + s).subrange(from, from + needle.len()) =~= s.subrange(
            at,
            at + needle.len(),
        ));
    }
}

proof fn lemma_stands_grows(s: Seq<char>, more: Seq<char>, needle: Seq<char>, at: int)
    ensures
        text::stands_at(s, needle, at) ==> text::stands_at(s + more, needle, at),
{
    if text::stands_at(s, needle, at) {
        assert((s + more).subrange(at, at + needle.len()) =~= s.subrange(at, at + needle.len()));
    }
}

proof fn lemma_entity_grows(markup: Seq<char>, more: Seq<char>, at: int)
    requires
        entity_at(markup, at),
    ensures
        entity_at(markup + more, at),
{
    lemma_stands_grows(markup, more, "&amp;"@, at);
    lemma_stands_grows(markup, more, "&lt;"@, at);
    lemma_stands_grows(markup, more, "&gt;"@, at);
    lemma_stands_grows(markup, more, "&quot;"@, at);
    lemma_stands_grows(markup, more, "&#39;"@, at);
}

/// A character that is escaped is an entity.
proof fn lemma_escaped_is_entity(c: char)
    requires
        breaks_out(c) || c == '&',
    ensures
        entity_at(escaped_char(c), 0),
{
    let whole = escaped_char(c);
    assert(whole.subrange(0, whole.len() as int) =~= whole);
    assert(text::stands_at(whole, whole, 0));
}

/// An ampersand in what a character escapes to is the first of an entity.
proof fn lemma_escaped_ampersand(c: char, k: int)
    requires
        0 <= k < escaped_char(c).len(),
        escaped_char(c)[k] == '&',
    ensures
        k == 0,
        breaks_out(c) || c == '&',
{
    if c == '&' {
        reveal_strlit("&amp;");
    } else if c == '<' {
        reveal_strlit("&lt;");
    } else if c == '>' {
        reveal_strlit("&gt;");
    } else if c == '"' {
        reveal_strlit("&quot;");
    } else if c == '\'' {
        reveal_strlit("&#39;");
    }
}

/// Every ampersand of escaped text begins one of the five entities.
pub proof fn every_ampersand_begins_an_entity(raw: Seq<char>, i: int)
    requires
        0 <= i < escaped(raw).len(),
        escaped(raw)[i] == '&',
    ensures
        entity_at(escaped(raw), i),
    decreases raw.len(),
{
    let before = escaped(raw.drop_last());
    let last = escaped_char(raw.last());
    if i < before.len() {
        every_ampersand_begins_an_entity(raw.drop_last(), i);
        lemma_entity_grows(before, last, i);
    } else {
        let k = i - before.len();
        assert(escaped(raw)[i] == last[k]);
        lemma_escaped_ampersand(raw.last(), k);
        lemma_escaped_is_entity(raw.last());
        lemma_entity_shifts(last, before, 0);
    }
}

/// The text that markup stands for: from the front, an entity is its character,
/// and any other character is itself.
pub open spec fn unescaped(markup: Seq<char>) -> Seq<char>
    decreases markup.len(),
{
    if markup.len() == 0 {
        Seq::empty()
    } else if "&amp;"@.len() > 0 && text::stands_at(markup, "&amp;"@, 0) {
        seq!['&'] + unescaped(markup.skip("&amp;"@.len() as int))
    } else if "&lt;"@.len() > 0 && text::stands_at(markup, "&lt;"@, 0) {
        seq!['<'] + unescaped(markup.skip("&lt;"@.len() as int))
    } else if "&gt;"@.len() > 0 && text::stands_at(markup, "&gt;"@, 0) {
        seq!['>'] + unescaped(markup.skip("&gt;"@.len() as int))
    } else if "&quot;"@.len() > 0 && text::stands_at(markup, "&quot;"@, 0) {
        seq!['"'] + unescaped(markup.skip("&quot;"@.len() as int))
    } else if "&#39;"@.len() > 0 && text::stands_at(markup, "&#39;"@, 0) {
        seq!['\''] + unescaped(markup.skip("&#39;"@.len() as int))
    } else {
        seq![markup[0]] + unescaped(markup.skip(1))
    }
}

/// Where `needle` opens a text, the text's first characters are the needle's.
proof fn lemma_opens(markup: Seq<char>, needle: Seq<char>, k: int)
    requires
        text::stands_at(markup, needle, 0),
        0 <= k < needle.len(),
    ensures
        markup[k] == needle[k],
{
    assert(markup.subrange(0, needle.len() as int)[k] == markup[k]);
}

proof fn lemma_unescape_one(c: char, rest: Seq<char>)
    ensures
        unescaped(escaped_char(c) + rest) == seq![c] + unescaped(rest),
{
    reveal_strlit("&amp;");
    reveal_strlit("&lt;");
    reveal_strlit("&gt;");
    reveal_strlit("&quot;");
    reveal_strlit("&#39;");
    let one = escaped_char(c);
    let markup = one + rest;
    assert(markup.skip(one.len() as int) =~= rest);
    assert(markup.subrange(0, one.len() as int) =~= one);
    assert(text::stands_at(markup, one, 0));
    let entities = seq!["&amp;"@, "&lt;"@, "&gt;"@, "&quot;"@, "&#39;"@];
    // Two different entities do not open one text, and none opens on any other
    // character than an ampersand.
    assert forall|k: int| 0 <= k < 5 && one != entities[k] implies !text::stands_at(
        markup,
        #[trigger] entities[k],
        0,
    ) by {
        if text::stands_at(markup, entities[k], 0) {
            lemma_opens(markup, entities[k], 0);
            lemma_opens(markup, entities[k], 1);
            lemma_opens(markup, one, 0);
            if one.len() > 1 {
                lemma_opens(markup, one, 1);
            }
        }
    }
    assert(one != entities[0] ==> !text::stands_at(markup, entities[0], 0));
    assert(one != entities[1] ==> !text::stands_at(markup, entities[1], 0));
    assert(one != entities[2] ==> !text::stands_at(markup, entities[2], 0));
    assert(one != entities[3] ==> !text::stands_at(markup, entities[3], 0));
    assert(one != entities[4] ==> !text::stands_at(markup, entities[4], 0));
    assert("&amp;"@.len() == 5 && "&lt;"@.len() == 4 && "&gt;"@.len() == 4 && "&quot;"@.len() == 6
        && "&#39;"@.len() == 5);
    assert("&lt;"@[1] == 'l' && "&gt;"@[1] == 'g' && "&amp;"@[1] == 'a' && "&quot;"@[1] == 'q'
        && "&#39;"@[1] == '#');
}

/// Decoding gives the text back: nothing is escaped twice and nothing is lost.
pub proof fn unescaping_gives_the_text_back(raw: Seq<char>)
    ensures
        unescaped(escaped(raw)) == raw,
    decreases raw.len(),
{
    if raw.len() > 0 {
        let first = seq![raw[0]];
        let rest = raw.drop_first();
        assert(raw =~= first + rest);
        escaping_joins(first, rest);
        reveal_with_fuel(escaped, 2);
        assert(first.drop_last() =~= Seq::empty());
        assert(escaped(first) =~= escaped_char(raw[0]));
        lemma_unescape_one(raw[0], escaped(rest));
        unescaping_gives_the_text_back(rest);
    }
}

/// This app's own row is never drawn: with it or without it, wherever it stands
/// in the family, the marks are the same.
pub proof fn the_own_row_is_left_out(rows: Seq<Sibling<'_>>, k: int, own: Sibling<'_>)
    requires
        0 <= k <= rows.len(),
        own.0@ == "iz"@,
    ensures
        marks_of(rows.insert(k, own)) == marks_of(rows),
        siblings_in(rows.insert(k, own)) == siblings_in(rows),
    decreases rows.len(),
{
    let with = rows.insert(k, own);
    if k == rows.len() {
        assert(with.drop_last() =~= rows);
    } else {
        the_own_row_is_left_out(rows.drop_last(), k, own);
        assert(with.drop_last() =~= rows.drop_last().insert(k, own));
        assert(with.last() == rows.last());
    }
}

/// A body says the service stands exactly where, white space in front aside, it
/// begins with the letters o and k.
pub proof fn a_body_says_ok_by_its_first_letters(body: Seq<char>)
    ensures
        says_ok(body) <==> text::trim(body).len() >= 2 && text::trim(body)[0] == 'o' && text::trim(
            body,
        )[1] == 'k',
{
    reveal_strlit("ok");
    let trimmed = text::trim(body);
    if trimmed.len() >= 2 && trimmed[0] == 'o' && trimmed[1] == 'k' {
        assert(trimmed.subrange(0, 2) =~= "ok"@);
    }
    if says_ok(body) {
        assert(trimmed.subrange(0, 2)[0] == 'o' && trimmed.subrange(0, 2)[1] == 'k');
    }
}

/// A round stands in for the very urls it was of, from the moment it landed and
/// for as long as half a minute has not gone by.
pub proof fn a_fresh_round_stands_in(round: Round, urls: Seq<String>, now: nat)
    requires
        urls.len() == round.readings@.len(),
        forall|i: int| 0 <= i < urls.len() ==> (#[trigger] round.readings@[i]).0@ == urls[i]@,
    ensures
        now < round.at@ + 30_000_000_000 ==> stands_in(round, urls, now),
        now >= round.at@ + 30_000_000_000 ==> !stands_in(round, urls, now),
{
}

/// One of the rows is a sibling: not this app's own.
pub open spec fn any_sibling(rows: Seq<Sibling<'_>>) -> bool {
    exists|i: int| 0 <= i < rows.len() && (#[trigger] rows[i]).0@ != "iz"@
}

proof fn lemma_siblings_are_counted(rows: Seq<Sibling<'_>>)
    ensures
        siblings_in(rows) > 0 <==> any_sibling(rows),
        siblings_in(rows) == 0 ==> marks_of(rows) == Seq::<char>::empty(),
    decreases rows.len(),
{
    if rows.len() > 0 {
        let rest = rows.drop_last();
        lemma_siblings_are_counted(rest);
        assert(rows[rows.len() - 1] == rows.last());
        if any_sibling(rest) {
            let i = choose|i: int| 0 <= i < rest.len() && (#[trigger] rest[i]).0@ != "iz"@;
            assert(rows[i].0@ != "iz"@);
        }
        if any_sibling(rows) {
            let i = choose|i: int| 0 <= i < rows.len() && (#[trigger] rows[i]).0@ != "iz"@;
            if i < rest.len() {
                assert(rest[i].0@ != "iz"@);
            }
        }
    }
}

proof fn lemma_sibling_counts_add(a: Seq<Sibling<'_>>, b: Seq<Sibling<'_>>)
    ensures
        siblings_in(a + b) == siblings_in(a) + siblings_in(b),
    decreases b.len(),
{
    if b.len() == 0 {
        assert(a + b =~= a);
    } else {
        lemma_sibling_counts_add(a, b.drop_last());
        assert((a + b).drop_last() =~= a + b.drop_last());
        assert((a + b).last() == b.last());
    }
}

/// The marks of a family are those of its parts with one middot between them, and
/// without a middot where a part has no sibling in it; the mark of one sibling
/// stands alone.
pub proof fn marks_join_with_one_middot(
    a: Seq<Sibling<'_>>,
    b: Seq<Sibling<'_>>,
    one: Sibling<'_>,
)
    ensures
        !any_sibling(a) ==> marks_of(a + b) == marks_of(b),
        !any_sibling(b) ==> marks_of(a + b) == marks_of(a),
        any_sibling(a) && any_sibling(b) ==> marks_of(a + b) == marks_of(a)
            + "<span class=\"service-sep\">·</span>"@ + marks_of(b),
        marks_of(Seq::empty()) == Seq::<char>::empty(),
        one.0@ != "iz"@ ==> marks_of(seq![one]) == mark_of(one.0@, one.1@, one.2@, one.3),
        one.0@ == "iz"@ ==> marks_of(seq![one]) == Seq::<char>::empty(),
    decreases b.len(),
{
    lemma_siblings_are_counted(a);
    lemma_siblings_are_counted(b);
    lemma_one_mark(one);
    if b.len() == 0 {
        assert(a + b =~= a);
    } else {
        let rest = b.drop_last();
        marks_join_with_one_middot(a, rest, one);
        lemma_siblings_are_counted(rest);
        lemma_sibling_counts_add(a, rest);
        assert((a + b).drop_last() =~= a + rest);
        assert((a + b).last() == b.last());
        let own = mark_of(b.last().0@, b.last().1@, b.last().2@, b.last().3);
        let middot = "<span class=\"service-sep\">·</span>"@;
        if b.last().0@ != "iz"@ && siblings_in(a) > 0 && siblings_in(rest) > 0 {
            assert(marks_of(a) + middot + marks_of(rest) + middot + own =~= marks_of(a) + middot + (
            marks_of(rest) + middot + own));
        }
    }
}

proof fn lemma_one_mark(one: Sibling<'_>)
    ensures
        one.0@ != "iz"@ ==> marks_of(seq![one]) == mark_of(one.0@, one.1@, one.2@, one.3),
        one.0@ == "iz"@ ==> marks_of(seq![one]) == Seq::<char>::empty(),
{
    let rows = seq![one];
    assert(rows.drop_last() =~= Seq::empty());
    assert(rows.last() == one);
    assert(siblings_in(rows.drop_last()) == 0);
    assert(marks_of(rows.drop_last()) =~= Seq::<char>::empty());
}

/// A mark is a link to the sibling's own url, titled with its name, that shows its
/// key behind the dot of its reading, each escaped.
pub proof fn a_mark_links_its_sibling(key: Seq<char>, name: Seq<char>, url: Seq<char>, probe: Probe)
    ensures
        text::holds_text(mark_of(key, name, url, probe), "href=\""@ + escaped(url) + "\""@),
        text::holds_text(mark_of(key, name, url, probe), "title=\""@ + escaped(name) + "\""@),
        text::holds_text(
            mark_of(key, name, url, probe),
            "\"></span>"@ + escaped(key) + "</a>"@,
        ),
        probe is Up ==> text::holds_text(
            mark_of(key, name, url, probe),
            "<span class=\"health-dot health-on\">"@,
        ),
        probe is Down ==> text::holds_text(
            mark_of(key, name, url, probe),
            "<span class=\"health-dot health-off\">"@,
        ),
{
    let opening = "<a class=\"service-mark\" href=\""@;
    let middle = "\" title=\""@;
    let dot = "\" data-hard=\"\"><span class=\"health-dot "@;
    let close = "\"></span>"@;
    let mark = mark_of(key, name, url, probe);
    lemma_mark_pieces();
    let href = "href=\""@ + escaped(url) + "\""@;
    let at = opening.len() - 6;
    assert(mark.subrange(at, at + href.len()) =~= href);
    assert(text::stands_at(mark, href, at));
    let title = "title=\""@ + escaped(name) + "\""@;
    let from: int = opening.len() + escaped(url).len() as int + 2;
    assert(mark.subrange(from, from + title.len()) =~= title);
    assert(text::stands_at(mark, title, from));
    let end = close + escaped(key) + "</a>"@;
    let behind = mark.len() - end.len();
    assert(mark.subrange(behind, behind + end.len()) =~= end);
    assert(text::stands_at(mark, end, behind));
    lemma_dot_pieces();
    let span: int = opening.len() + escaped(url).len() + middle.len() + escaped(name).len() as int
        + 15;
    if probe is Up {
        let shown = "<span class=\"health-dot health-on\">"@;
        assert(mark.subrange(span, span + shown.len()) =~= shown);
        assert(text::stands_at(mark, shown, span));
    } else {
        let shown = "<span class=\"health-dot health-off\">"@;
        assert(mark.subrange(span, span + shown.len()) =~= shown);
        assert(text::stands_at(mark, shown, span));
    }
}

proof fn lemma_mark_pieces()
    ensures
        "<a class=\"service-mark\" href=\""@.len() >= 6,
        "href=\""@.len() == 6,
        "title=\""@.len() == 7,
        "\""@ == seq!['"'],
        "<a class=\"service-mark\" href=\""@.subrange(
            "<a class=\"service-mark\" href=\""@.len() - 6,
            "<a class=\"service-mark\" href=\""@.len() as int,
        ) == "href=\""@,
        "\" title=\""@ == seq!['"', ' '] + "title=\""@,
        "\" data-hard=\"\"><span class=\"health-dot "@.len() > 0,
        "\" data-hard=\"\"><span class=\"health-dot "@[0] == '"',
{
    reveal_strlit("<a class=\"service-mark\" href=\"");
    reveal_strlit("href=\"");
    reveal_strlit("title=\"");
    reveal_strlit("\"");
    reveal_strlit("\" title=\"");
    reveal_strlit("\" data-hard=\"\"><span class=\"health-dot ");
    let opening = "<a class=\"service-mark\" href=\""@;
    assert(opening.subrange(opening.len() - 6, opening.len() as int) =~= "href=\""@);
    assert("\" title=\""@ =~= seq!['"', ' '] + "title=\""@);
    assert("\""@ =~= seq!['"']);
}

proof fn lemma_dot_pieces()
    ensures
        ({
            let dot = "\" data-hard=\"\"><span class=\"health-dot "@;
            &&& dot.len() > 15
            &&& "<span class=\"health-dot health-on\">"@ == dot.skip(15) + "health-on"@ + seq![
                '"',
                '>',
            ]
            &&& "<span class=\"health-dot health-off\">"@ == dot.skip(15) + "health-off"@ + seq![
                '"',
                '>',
            ]
            &&& "\"></span>"@.len() > 2
            &&& "\"></span>"@[0] == '"'
            &&& "\"></span>"@[1] == '>'
        }),
{
    reveal_strlit("\" data-hard=\"\"><span class=\"health-dot ");
    reveal_strlit("<span class=\"health-dot health-on\">");
    reveal_strlit("<span class=\"health-dot health-off\">");
    reveal_strlit("health-on");
    reveal_strlit("health-off");
    reveal_strlit("\"></span>");
    let dot = "\" data-hard=\"\"><span class=\"health-dot "@;
    assert("<span class=\"health-dot health-on\">"@ =~= dot.skip(15) + "health-on"@ + seq![
        '"',
        '>',
    ]);
    assert("<span class=\"health-dot health-off\">"@ =~= dot.skip(15) + "health-off"@ + seq![
        '"',
        '>',
    ]);
}

} // verus!
