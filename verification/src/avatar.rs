//! Every workspace member's face: which one is served, how long a browser may
//! keep it, and when it need not be sent again.

use crate::text;
use vstd::prelude::*;

verus! {

// ---------------------------------------------------------------------------
// The stamp
// ---------------------------------------------------------------------------

/// Where a mark first stands, or the end.
pub open spec fn first_at(s: Seq<char>, mark: char) -> int
    decreases s.len(),
{
    if s.len() == 0 || s[0] == mark {
        0
    } else {
        1 + first_at(s.drop_first(), mark)
    }
}

/// A pair of a query that gives `v` a value: `v=` and the value.
pub open spec fn stamps(pair: Seq<char>) -> bool {
    let at = first_at(pair, '=');
    at < pair.len() && pair.take(at) == "v"@
}

/// The version a query stamps: the value of its first `v`, if it is a number.
pub open spec fn stamped(query: Seq<char>) -> Option<u64>
    decreases query.len(),
{
    let at = first_at(query, '&');
    let pair = query.take(at);
    if stamps(pair) {
        text::parsed_u64(pair.skip(first_at(pair, '=') + 1))
    } else if 0 <= at < query.len() {
        stamped(query.skip(at + 1))
    } else {
        None
    }
}

proof fn lemma_first_at(s: Seq<char>, mark: char)
    ensures
        0 <= first_at(s, mark) <= s.len(),
        forall|j: int| 0 <= j < first_at(s, mark) ==> #[trigger] s[j] != mark,
        first_at(s, mark) < s.len() ==> s[first_at(s, mark)] == mark,
    decreases s.len(),
{
    if s.len() > 0 && s[0] != mark {
        let rest = s.drop_first();
        lemma_first_at(rest, mark);
        assert forall|j: int| 0 <= j < first_at(s, mark) implies #[trigger] s[j] != mark by {
            if j > 0 {
                assert(rest[j - 1] == s[j]);
            }
        }
        if first_at(s, mark) < s.len() {
            assert(rest[first_at(rest, mark)] == s[first_at(s, mark)]);
        }
    }
}

fn find_mark(chars: &Vec<char>, from: usize, mark: char) -> (r: usize)
    requires
        from <= chars@.len(),
    ensures
        from <= r <= chars@.len(),
        r == from + first_at(chars@.skip(from as int), mark),
{
    let mut i: usize = from;
    while i < chars.len() && chars[i] != mark
        invariant
            from <= i <= chars@.len(),
            first_at(chars@.skip(from as int), mark) == (i - from) + first_at(
                chars@.skip(i as int),
                mark,
            ),
        decreases chars@.len() - i,
    {
        assert(chars@.skip(i as int).drop_first() =~= chars@.skip(i + 1));
        i = i + 1;
    }
    i
}

/// The version the address of a face stamps as `?v=`.
pub fn stamped_version(query: &str) -> (r: Option<u64>)
    ensures
        r == stamped(query@),
{
    let chars = text::chars_of(query);
    let ghost whole = chars@;
    let mut from: usize = 0;
    assert(whole.skip(0) =~= whole);
    loop
        invariant
            chars@ == whole,
            from <= whole.len(),
            stamped(query@) == stamped(whole.skip(from as int)),
        decreases whole.len() - from,
    {
        let ghost rest = whole.skip(from as int);
        let end: usize = find_mark(&chars, from, '&');
        let pair = vstd::slice::slice_to_vec(
            vstd::slice::slice_subrange(chars.as_slice(), from, end),
        );
        proof {
            lemma_first_at(rest, '&');
            assert(pair@ =~= rest.take(first_at(rest, '&')));
            assert(pair@.skip(0) =~= pair@);
            lemma_first_at(pair@, '=');
        }
        let at: usize = find_mark(&pair, 0, '=');
        if at < pair.len() {
            let key = text::text_of(vstd::slice::slice_subrange(pair.as_slice(), 0, at));
            assert(key@ =~= pair@.take(at as int));
            if *key.as_str() == *"v" {
                let value = text::text_of(
                    vstd::slice::slice_subrange(pair.as_slice(), at + 1, pair.len()),
                );
                assert(value@ =~= pair@.skip(at + 1));
                return text::parse_u64(value.as_str());
            }
        }
        if end >= chars.len() {
            return None;
        }
        assert(rest.skip(first_at(rest, '&') + 1) =~= whole.skip(end + 1));
        from = end + 1;
    }
}

// ---------------------------------------------------------------------------
// Who is served
// ---------------------------------------------------------------------------

/// The member whose face is asked for, as the store holds them.
#[derive(Debug, Clone, PartialEq, Eq)]
pub struct AvatarRow {
    pub oidc_sub: Option<String>,
    pub photo_version: u64,
}

/// Why no face is served.
#[derive(Debug, Clone, Copy, PartialEq, Eq, Structural)]
pub enum Refused {
    /// The browser has no session.
    Unauthorized,
    /// An unknown id, a member without a face, or a directory that does not
    /// answer: all the same, so that nothing confirms an id.
    NotFound,
}

/// The HTTP status of a refusal.
pub fn refusal_status(refused: Refused) -> (r: u16)
    ensures
        r == match refused {
            Refused::Unauthorized => 401u16,
            Refused::NotFound => 404u16,
        },
{
    match refused {
        Refused::Unauthorized => 401,
        Refused::NotFound => 404,
    }
}

/// The session comes first: without one, nothing is looked up.
pub fn require_session(signed_in: bool) -> (r: Result<(), Refused>)
    ensures
        r == if signed_in {
            Ok::<(), Refused>(())
        } else {
            Err(Refused::Unauthorized)
        },
{
    if signed_in {
        Ok(())
    } else {
        Err(Refused::Unauthorized)
    }
}

/// Whose photo to ask the directory for, and which version of it the row names.
pub fn whose_photo(row: Option<AvatarRow>) -> (r: Result<(String, u64), Refused>)
    ensures
        match row {
            Some(member) => match member.oidc_sub {
                Some(sub) => r == Ok::<(String, u64), Refused>((sub, member.photo_version)),
                None => r == Err::<(String, u64), Refused>(Refused::NotFound),
            },
            None => r == Err::<(String, u64), Refused>(Refused::NotFound),
        },
{
    match row {
        Some(member) => match member.oidc_sub {
            Some(sub) => Ok((sub, member.photo_version)),
            None => Err(Refused::NotFound),
        },
        None => Err(Refused::NotFound),
    }
}

// ---------------------------------------------------------------------------
// What is served
// ---------------------------------------------------------------------------

/// A face on its way to the browser.
#[derive(Debug, Clone, PartialEq, Eq)]
pub struct Portrait {
    pub status: u16,
    pub etag: String,
    pub cache_control: &'static str,
    pub content_type: String,
    pub body: Vec<u8>,
}

/// The tag that names a version of a face.
pub open spec fn etag_of(version: u64) -> Seq<char> {
    "\"p"@ + text::decimal(version as nat) + "\""@
}

/// A text a header can carry: no control character but the tab.
pub open spec fn header_text(s: Seq<char>) -> bool {
    forall|i: int|
        0 <= i < s.len() ==> #[trigger] s[i] == '\t' || ((s[i] as u32) >= 32 && (s[i] as u32)
            != 127)
}

fn is_header_text(s: &str) -> (r: bool)
    ensures
        r == header_text(s@),
{
    let chars = text::chars_of(s);
    let mut i: usize = 0;
    while i < chars.len()
        invariant
            i <= chars@.len(),
            chars@ == s@,
            forall|j: int|
                0 <= j < i ==> #[trigger] chars@[j] == '\t' || ((chars@[j] as u32) >= 32 && (
                chars@[j] as u32) != 127),
        decreases chars@.len() - i,
    {
        let c = chars[i];
        if c != '\t' && ((c as u32) < 32 || (c as u32) == 127) {
            return false;
        }
        i = i + 1;
    }
    true
}

/// How long a browser may keep a face: for a year under an address stamped with
/// the row's own version, not at all without asking under any other.
pub open spec fn cache_policy(stamp: Option<u64>, version: u64) -> Seq<char> {
    if stamp == Some(version) {
        "private, max-age=31536000, immutable"@
    } else {
        "private, no-cache"@
    }
}

/// `face` is the answer to a browser that may already have this version of the
/// face: nothing new where its tag is the row's, the bytes otherwise.
pub open spec fn shows(
    face: Portrait,
    version: u64,
    stamp: Option<u64>,
    if_none_match: Option<&str>,
    mime: Seq<char>,
    bytes: Seq<u8>,
) -> bool {
    &&& face.etag@ == etag_of(version)
    &&& face.cache_control@ == cache_policy(stamp, version)
    &&& face.content_type@ == if header_text(mime) {
        mime
    } else {
        "application/octet-stream"@
    }
    &&& if if_none_match matches Some(tag) && tag@ == etag_of(version) {
        face.status == 304 && face.body@ == Seq::<u8>::empty()
    } else {
        face.status == 200 && face.body@ == bytes
    }
}

/// The answer to a browser that may already have the face.
pub fn portrait(
    version: u64,
    stamp: Option<u64>,
    if_none_match: Option<&str>,
    mime: &str,
    bytes: Vec<u8>,
) -> (r: Portrait)
    ensures
        shows(r, version, stamp, if_none_match, mime@, bytes@),
{
    let etag = text::join3("\"p", text::decimal_text(version as u128).as_str(), "\"");
    let stamped_right = match stamp {
        Some(v) => v == version,
        None => false,
    };
    let cache_control = if stamped_right {
        "private, max-age=31536000, immutable"
    } else {
        "private, no-cache"
    };
    let content_type = if is_header_text(mime) {
        mime.to_owned()
    } else {
        "application/octet-stream".to_owned()
    };
    let held = match if_none_match {
        Some(tag) => *tag == *etag.as_str(),
        None => false,
    };
    if held {
        Portrait { status: 304, etag, cache_control, content_type, body: Vec::new() }
    } else {
        Portrait { status: 200, etag, cache_control, content_type, body: bytes }
    }
}

/// What the browser gets once the directory has been asked for the photo: the
/// face, or, from a directory that did not answer, the not-found an unknown id
/// would see.
pub fn serve(
    photo: Option<(Vec<u8>, String)>,
    version: u64,
    stamp: Option<u64>,
    if_none_match: Option<&str>,
) -> (r: Result<Portrait, Refused>)
    ensures
        match photo {
            Some(sent) => r matches Ok(face) && shows(
                face,
                version,
                stamp,
                if_none_match,
                sent.1@,
                sent.0@,
            ),
            None => r == Err::<Portrait, Refused>(Refused::NotFound),
        },
{
    match photo {
        Some((bytes, mime)) => Ok(portrait(version, stamp, if_none_match, mime.as_str(), bytes)),
        None => Err(Refused::NotFound),
    }
}

/// The day the face changes, so does its tag.
pub proof fn a_new_face_has_a_new_tag(one: u64, other: u64)
    requires
        one != other,
    ensures
        etag_of(one) != etag_of(other),
{
    let a = text::decimal(one as nat);
    let b = text::decimal(other as nat);
    if etag_of(one) == etag_of(other) {
        reveal_strlit("\"p");
        reveal_strlit("\"");
        assert(etag_of(one).len() == 3 + a.len());
        assert(etag_of(other).len() == 3 + b.len());
        assert(a =~= etag_of(one).subrange(2, 2 + a.len() as int));
        assert(b =~= etag_of(other).subrange(2, 2 + b.len() as int));
        text::decimals_name_one_number(one as nat, other as nat);
    }
}

/// A browser that has the face is sent it again exactly when it has changed: the
/// tag of the version it was sent answers 304 as long as the row names that
/// version, and 200 with the bytes from the next one on.
pub proof fn a_face_is_sent_once(
    sent: Portrait,
    version: u64,
    again: Portrait,
    now_version: u64,
    stamp: Option<u64>,
    tag: &str,
    mime: Seq<char>,
    bytes: Seq<u8>,
)
    requires
        tag@ == sent.etag@,
        shows(sent, version, stamp, None, mime, bytes),
        shows(again, now_version, stamp, Some(tag), mime, bytes),
    ensures
        sent.status == 200,
        again.status == 304 <==> now_version == version,
        again.status == 200 <==> now_version != version,
        again.status == 200 ==> again.body@ == bytes,
{
    if now_version != version {
        a_new_face_has_a_new_tag(version, now_version);
    }
}

/// A face is kept for a year exactly under the address that changes when the
/// face does.
pub proof fn only_a_stamped_face_is_kept(stamp: Option<u64>, version: u64)
    ensures
        cache_policy(stamp, version) == "private, max-age=31536000, immutable"@ <==> stamp == Some(
            version,
        ),
{
    reveal_strlit("private, max-age=31536000, immutable");
    reveal_strlit("private, no-cache");
    assert("private, max-age=31536000, immutable"@.len() != "private, no-cache"@.len());
}

proof fn lemma_first_mark(front: Seq<char>, mark: char, rest: Seq<char>)
    requires
        !front.contains(mark),
        rest.len() > 0 ==> rest[0] == mark,
    ensures
        first_at(front + rest, mark) == front.len(),
    decreases front.len(),
{
    let s = front + rest;
    if front.len() > 0 {
        let tail = front.drop_first();
        assert(s[0] == front[0]);
        assert(front.contains(front[0]));
        assert(s.drop_first() =~= tail + rest);
        assert(!tail.contains(mark)) by {
            if tail.contains(mark) {
                let k = choose|k: int| 0 <= k < tail.len() && tail[k] == mark;
                assert(front[k + 1] == mark);
            }
        }
        lemma_first_mark(tail, mark, rest);
    } else {
        assert(s =~= rest);
    }
}

proof fn lemma_pair(pair: Seq<char>, rest: Seq<char>)
    requires
        !pair.contains('&'),
    ensures
        first_at(pair, '&') == pair.len(),
        pair.take(pair.len() as int) == pair,
        first_at(pair + seq!['&'] + rest, '&') == pair.len(),
        (pair + seq!['&'] + rest).take(pair.len() as int) == pair,
        (pair + seq!['&'] + rest).skip(pair.len() as int + 1) == rest,
{
    lemma_first_mark(pair, '&', Seq::empty());
    assert(pair + Seq::<char>::empty() =~= pair);
    assert(pair.take(pair.len() as int) =~= pair);
    let whole = pair + seq!['&'] + rest;
    assert(whole =~= pair + (seq!['&'] + rest));
    lemma_first_mark(pair, '&', seq!['&'] + rest);
    assert(whole.take(pair.len() as int) =~= pair);
    assert(whole.skip(pair.len() as int + 1) =~= rest);
}

proof fn lemma_stamping_pair(pair: Seq<char>)
    ensures
        stamps(pair) <==> pair.len() >= 2 && pair[0] == 'v' && pair[1] == '=',
        stamps(pair) ==> pair.skip(first_at(pair, '=') + 1) == pair.skip(2),
{
    reveal_strlit("v");
    lemma_first_at(pair, '=');
    let at = first_at(pair, '=');
    if pair.len() >= 2 && pair[0] == 'v' && pair[1] == '=' {
        assert(pair =~= seq!['v'] + pair.skip(1));
        lemma_first_mark(seq!['v'], '=', pair.skip(1));
        assert(pair.take(1) =~= "v"@);
    }
    if stamps(pair) {
        assert(pair.take(at).len() == 1);
        assert(pair.take(at)[0] == "v"@[0]);
    }
}

/// The version an address stamps is what stands behind the first `v=` of its
/// query, pair by pair: a pair that gives `v` decides, whether a number stands
/// there or not, any other pair is passed over, and a query without one stamps
/// nothing.
pub proof fn the_first_v_decides(pair: Seq<char>, rest: Seq<char>)
    requires
        !pair.contains('&'),
    ensures
        pair.len() >= 2 && pair[0] == 'v' && pair[1] == '=' ==> {
            &&& stamped(pair) == text::parsed_u64(pair.skip(2))
            &&& stamped(pair + seq!['&'] + rest) == text::parsed_u64(pair.skip(2))
        },
        !(pair.len() >= 2 && pair[0] == 'v' && pair[1] == '=') ==> {
            &&& stamped(pair) is None
            &&& stamped(pair + seq!['&'] + rest) == stamped(rest)
        },
{
    lemma_pair(pair, rest);
    lemma_stamping_pair(pair);
}

/// The address of a face stamped with its version is read back as that version.
pub proof fn a_stamp_reads_back(version: u64)
    ensures
        stamped(seq!['v', '='] + text::decimal(version as nat)) == Some(version),
{
    let written = text::decimal(version as nat);
    let query = seq!['v', '='] + written;
    text::a_decimal_writes_its_number(version as nat);
    text::a_written_number_reads_back(version);
    assert(!query.contains('&')) by {
        if query.contains('&') {
            let k = choose|k: int| 0 <= k < query.len() && query[k] == '&';
            assert(k >= 2);
            assert(written[k - 2] == '&');
        }
    }
    the_first_v_decides(query, Seq::empty());
    assert(query.skip(2) =~= written);
}

/// A version's tag is its number between `"p` and a closing quote.
pub proof fn a_tag_holds_its_version(version: u64)
    ensures
        etag_of(version).len() == text::decimal(version as nat).len() + 3,
        etag_of(version)[0] == '"',
        etag_of(version)[1] == 'p',
        etag_of(version).last() == '"',
        text::number(etag_of(version).subrange(2, etag_of(version).len() - 1)) == version,
{
    let written = text::decimal(version as nat);
    reveal_strlit("\"p");
    reveal_strlit("\"");
    text::a_decimal_writes_its_number(version as nat);
    assert(etag_of(version).subrange(2, etag_of(version).len() - 1) =~= written);
}

/// A face is sent under its own type wherever a header can carry it, with the
/// whole photo, and never kept by anyone but the browser that asked; unless its
/// address is stamped with the row's version, the browser asks again.
pub proof fn a_face_is_sent_whole(
    face: Portrait,
    version: u64,
    stamp: Option<u64>,
    if_none_match: Option<&str>,
    mime: Seq<char>,
    bytes: Seq<u8>,
)
    requires
        shows(face, version, stamp, if_none_match, mime, bytes),
    ensures
        (forall|i: int|
            0 <= i < mime.len() ==> (#[trigger] mime[i] == '\t' || mime[i] >= ' ') && mime[i]
                != '\u{7f}') ==> face.content_type@ == mime,
        if_none_match is None ==> face.status == 200 && face.body@ == bytes,
        if_none_match matches Some(tag) && tag@ != face.etag@ ==> face.status == 200
            && face.body@ == bytes,
        if_none_match matches Some(tag) && tag@ == face.etag@ ==> face.status == 304
            && face.body@.len() == 0,
        stamp is None ==> face.cache_control@ == "private, no-cache"@,
        stamp matches Some(v) && v != version ==> face.cache_control@ == "private, no-cache"@,
        "private"@.is_prefix_of(face.cache_control@),
{
    reveal_strlit("private");
    if stamp == Some(version) {
        reveal_strlit("private, max-age=31536000, immutable");
    } else {
        reveal_strlit("private, no-cache");
    }
    if forall|i: int|
        0 <= i < mime.len() ==> (#[trigger] mime[i] == '\t' || mime[i] >= ' ') && mime[i]
            != '\u{7f}' {
        assert forall|i: int| 0 <= i < mime.len() implies #[trigger] mime[i] == '\t' || ((
        mime[i] as u32) >= 32 && (mime[i] as u32) != 127) by {
            lemma_printable(mime[i]);
            assert(mime[i] != '\u{7f}');
        }
    }
}

proof fn lemma_printable(c: char)
    ensures
        (c as u32) >= 32 <==> c >= ' ',
        (c as u32) == 127 <==> c == '\u{7f}',
{
}

/// A type with a control character other than the tab goes into no header: such a
/// face is sent as plain bytes.
pub proof fn an_unprintable_type_is_plain_bytes(
    face: Portrait,
    version: u64,
    stamp: Option<u64>,
    if_none_match: Option<&str>,
    mime: Seq<char>,
    bytes: Seq<u8>,
    i: int,
)
    requires
        shows(face, version, stamp, if_none_match, mime, bytes),
        0 <= i < mime.len(),
        mime[i] == '\u{7f}' || (mime[i] < ' ' && mime[i] != '\t'),
    ensures
        face.content_type@ == "application/octet-stream"@,
{
    lemma_printable(mime[i]);
    assert(!(mime[i] == '\t' || ((mime[i] as u32) >= 32 && (mime[i] as u32) != 127)));
    assert(!header_text(mime));
}

} // verus!
