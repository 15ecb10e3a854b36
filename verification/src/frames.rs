//! The `text/event-stream` reader: bytes off the wire into lines, lines into
//! frames.

use crate::order::views;
use crate::text;
use std::collections::VecDeque;
use vstd::prelude::*;

verus! {

pub const LINE_FEED: u8 = 10;

pub const CARRIAGE_RETURN: u8 = 13;

pub const COLON: u8 = 58;

pub const SPACE: u8 = 32;

pub open spec fn terminator(b: u8) -> bool {
    b == LINE_FEED || b == CARRIAGE_RETURN
}

// ---------------------------------------------------------------------------
// Lines
// ---------------------------------------------------------------------------

/// How far a stream has been cut into lines: the lines that ended, the bytes of
/// the one that has not, and whether the last byte was a carriage return.
#[verifier::ext_equal]
pub struct Cut {
    pub lines: Seq<Seq<u8>>,
    pub line: Seq<u8>,
    pub after_cr: bool,
}

/// One more byte. A line ends on `\n`, on `\r`, or on the two together: a `\n`
/// right after a `\r` ends nothing more.
pub open spec fn cut_byte(cut: Cut, b: u8) -> Cut {
    if b == LINE_FEED && cut.after_cr {
        Cut { lines: cut.lines, line: cut.line, after_cr: false }
    } else if terminator(b) {
        Cut {
            lines: cut.lines.push(cut.line),
            line: Seq::empty(),
            after_cr: b == CARRIAGE_RETURN,
        }
    } else {
        Cut { lines: cut.lines, line: cut.line.push(b), after_cr: false }
    }
}

/// More bytes, one after the other.
pub open spec fn cut_bytes(cut: Cut, bytes: Seq<u8>) -> Cut
    decreases bytes.len(),
{
    if bytes.len() == 0 {
        cut
    } else {
        cut_byte(cut_bytes(cut, bytes.drop_last()), bytes.last())
    }
}

/// Nothing read yet.
pub open spec fn uncut() -> Cut {
    Cut { lines: Seq::empty(), line: Seq::empty(), after_cr: false }
}

/// The lines of a block: those that ended in it, and the bytes behind the last
/// terminator where there are any.
pub open spec fn lines_of(block: Seq<u8>) -> Seq<Seq<u8>> {
    let cut = cut_bytes(uncut(), block);
    if cut.line.len() > 0 {
        cut.lines.push(cut.line)
    } else {
        cut.lines
    }
}

/// Splits a block that ends at a line terminator into lines, accepting the
/// three terminators: `\n`, `\r\n`, and a bare `\r`. A blank line is a frame's
/// dispatch, so it is kept; only the terminators themselves disappear.
pub fn split_lines(block: &[u8]) -> (lines: Vec<Vec<u8>>)
    ensures
        lines.deep_view() == lines_of(block@),
{
    let mut lines: Vec<Vec<u8>> = Vec::new();
    let mut start: usize = 0;
    let mut at: usize = 0;
    assert(views(lines@) =~= Seq::empty());
    assert(block@.take(0) =~= Seq::empty());
    while at < block.len()
        invariant
            start <= at <= block.len(),
            views(lines@) == cut_bytes(uncut(), block@.take(at as int)).lines,
            block@.subrange(start as int, at as int) == cut_bytes(
                uncut(),
                block@.take(at as int),
            ).line,
            at < block.len() && block@[at as int] == LINE_FEED ==> !cut_bytes(
                uncut(),
                block@.take(at as int),
            ).after_cr,
        decreases block.len() - at,
    {
        let ghost cut = cut_bytes(uncut(), block@.take(at as int));
        let b: u8 = block[at];
        proof {
            assert(block@.take(at + 1).drop_last() =~= block@.take(at as int));
            assert(block@.take(at + 1).last() == b);
            assert(cut_bytes(uncut(), block@.take(at + 1)) == cut_byte(cut, b));
        }
        if b == LINE_FEED || b == CARRIAGE_RETURN {
            let line = vstd::slice::slice_to_vec(
                vstd::slice::slice_subrange(block, start, at),
            );
            let ghost before = views(lines@);
            assert(line.deep_view() =~= cut.line);
            lines.push(line);
            assert(views(lines@) =~= before.push(cut.line));
            if b == CARRIAGE_RETURN && at + 1 < block.len() && block[at + 1] == LINE_FEED {
                proof {
                    assert(block@.take(at + 2).drop_last() =~= block@.take(at + 1));
                    assert(block@.take(at + 2).last() == LINE_FEED);
                    assert(cut_bytes(uncut(), block@.take(at + 2)) == cut_byte(
                        cut_bytes(uncut(), block@.take(at + 1)),
                        LINE_FEED,
                    ));
                }
                at = at + 1;
            }
            at = at + 1;
            start = at;
            assert(block@.subrange(start as int, at as int) =~= Seq::empty());
        } else {
            at = at + 1;
            assert(block@.subrange(start as int, at as int) =~= cut.line.push(b));
        }
    }
    assert(block@.take(block@.len() as int) =~= block@);
    if start < block.len() {
        let line = vstd::slice::slice_to_vec(
            vstd::slice::slice_subrange(block, start, block.len()),
        );
        let ghost rest = cut_bytes(uncut(), block@).line;
        let ghost before = views(lines@);
        assert(line.deep_view() =~= rest);
        lines.push(line);
        assert(views(lines@) =~= before.push(rest));
    }
    assert(lines.deep_view() =~= views(lines@));
    lines
}

// ---------------------------------------------------------------------------
// Frames
// ---------------------------------------------------------------------------

/// A frame off the wire, its payload not decoded yet.
#[derive(Debug, Clone, PartialEq, Eq)]
pub enum Payload {
    /// A member's row as it now stands.
    Member(String),
    /// At least one of a member's sessions was revoked.
    Revocation(String),
}

/// What a [`Payload`] carries.
pub enum Frame {
    Member(Seq<char>),
    Revocation(Seq<char>),
}

impl DeepView for Payload {
    type V = Frame;

    open spec fn deep_view(&self) -> Frame {
        match self {
            Payload::Member(data) => Frame::Member(data@),
            Payload::Revocation(data) => Frame::Revocation(data@),
        }
    }
}

/// What has been read of the current frame, and the frames that are complete.
#[verifier::ext_equal]
pub struct Gathered {
    /// The current frame's `event:` field, if it named one.
    pub event: Option<Seq<char>>,
    /// The current frame's `data:`, joined back into one text, if a line of it
    /// came.
    pub data: Option<Seq<char>>,
    pub ready: Seq<Frame>,
}

/// What the lines of data came to: nothing where none came.
pub open spec fn joined(data: Option<Seq<char>>) -> Seq<char> {
    match data {
        Some(text) => text,
        None => Seq::empty(),
    }
}

/// What a frame of this kind is. One with no kind at all is a bare member
/// announcement; a kind nobody here knows is nothing.
pub open spec fn frame_of(event: Option<Seq<char>>, data: Seq<char>) -> Option<Frame> {
    match event {
        None => Some(Frame::Member(data)),
        Some(kind) => if kind == "profile"@ {
            Some(Frame::Member(data))
        } else if kind == "revoked"@ {
            Some(Frame::Revocation(data))
        } else {
            None
        },
    }
}

/// A blank line: the frame ends, and what comes next starts afresh.
pub open spec fn dispatched(g: Gathered) -> Gathered {
    Gathered {
        event: None,
        data: None,
        ready: match frame_of(g.event, joined(g.data)) {
            Some(frame) => g.ready.push(frame),
            None => g.ready,
        },
    }
}

/// Where the first colon of a line stands, or its end.
pub open spec fn colon_at(line: Seq<u8>) -> int
    decreases line.len(),
{
    if line.len() == 0 || line[0] == COLON {
        0
    } else {
        1 + colon_at(line.drop_first())
    }
}

/// The name of a field: what stands before the colon.
pub open spec fn field_name(line: Seq<u8>) -> Seq<u8> {
    line.take(colon_at(line))
}

/// The value of a field: what stands behind the colon, one optional space
/// aside.
pub open spec fn field_value(line: Seq<u8>) -> Seq<u8> {
    let at = colon_at(line);
    let behind = if at < line.len() {
        line.skip(at + 1)
    } else {
        Seq::empty()
    };
    if behind.len() > 0 && behind[0] == SPACE {
        behind.skip(1)
    } else {
        behind
    }
}

/// `event` in bytes.
pub open spec fn event_field() -> Seq<u8> {
    seq![101u8, 118u8, 101u8, 110u8, 116u8]
}

/// `data` in bytes.
pub open spec fn data_field() -> Seq<u8> {
    seq![100u8, 97u8, 116u8, 97u8]
}

/// One line: a blank one dispatches, one that opens with a colon is a comment,
/// any other is a field. Data over several lines joins with `\n`, blank lines of
/// data too; a field that means nothing here changes nothing.
pub open spec fn take_line(g: Gathered, line: Seq<u8>) -> Gathered {
    if line.len() == 0 {
        dispatched(g)
    } else if line[0] == COLON {
        g
    } else if field_name(line) == event_field() {
        Gathered {
            event: Some(text::lossy(field_value(line))),
            data: g.data,
            ready: g.ready,
        }
    } else if field_name(line) == data_field() {
        Gathered {
            event: g.event,
            data: Some(
                match g.data {
                    Some(before) => before.push('\n') + text::lossy(field_value(line)),
                    None => text::lossy(field_value(line)),
                },
            ),
            ready: g.ready,
        }
    } else {
        g
    }
}

/// Line after line.
pub open spec fn take_lines(g: Gathered, lines: Seq<Seq<u8>>) -> Gathered
    decreases lines.len(),
{
    if lines.len() == 0 {
        g
    } else {
        take_line(take_lines(g, lines.drop_last()), lines.last())
    }
}

/// Where a reader stands: the bytes not yet through a terminator, whether the
/// read before ended on a bare `\r`, and what was gathered.
#[verifier::ext_equal]
pub struct Reading {
    pub pending: Seq<u8>,
    pub cr_ended: bool,
    pub gathered: Gathered,
}

/// A reader that has been fed the bytes of one more read.
pub open spec fn fed(reading: Reading, bytes: Seq<u8>) -> Reading {
    let cut = cut_bytes(
        Cut {
            lines: Seq::empty(),
            line: reading.pending,
            after_cr: reading.cr_ended,
        },
        bytes,
    );
    Reading {
        pending: cut.line,
        cr_ended: cut.after_cr,
        gathered: take_lines(reading.gathered, cut.lines),
    }
}

/// A run of bytes without a terminator.
pub open spec fn unbroken(bytes: Seq<u8>) -> bool {
    forall|i: int| 0 <= i < bytes.len() ==> !terminator(#[trigger] bytes[i])
}

fn colon_in(line: &Vec<u8>) -> (r: usize)
    ensures
        r == colon_at(line@),
        r <= line@.len(),
{
    let mut i: usize = 0;
    assert(line@.skip(0) =~= line@);
    while i < line.len() && line[i] != COLON
        invariant
            i <= line@.len(),
            colon_at(line@) == i + colon_at(line@.skip(i as int)),
        decreases line@.len() - i,
    {
        assert(line@.skip(i as int).drop_first() =~= line@.skip(i + 1));
        i = i + 1;
    }
    i
}

fn is_event_field(name: &[u8]) -> (r: bool)
    ensures
        r == (name@ == event_field()),
{
    let r = name.len() == 5 && name[0] == 101 && name[1] == 118 && name[2] == 101 && name[3] == 110
        && name[4] == 116;
    assert(r ==> name@ =~= event_field());
    r
}

fn is_data_field(name: &[u8]) -> (r: bool)
    ensures
        r == (name@ == data_field()),
{
    let r = name.len() == 4 && name[0] == 100 && name[1] == 97 && name[2] == 116 && name[3] == 97;
    assert(r ==> name@ =~= data_field());
    r
}

/// The hand-rolled `text/event-stream` reader. Frames accumulate field by field
/// and dispatch on the blank line; the fields this feed carries are `event`,
/// `data`, and comments, but the reader honors the whole shape.
pub struct FrameReader {
    pending: Vec<u8>,
    cr_ended: bool,
    event: Option<String>,
    data: Option<String>,
    ready: VecDeque<Payload>,
}

impl View for FrameReader {
    type V = Reading;

    closed spec fn view(&self) -> Reading {
        Reading {
            pending: self.pending@,
            cr_ended: self.cr_ended,
            gathered: Gathered {
                event: self.event.deep_view(),
                data: self.data.deep_view(),
                ready: views(self.ready@),
            },
        }
    }
}

impl FrameReader {
    /// What is pending has not been through a terminator, and a read that ended
    /// on a `\r` left nothing pending.
    #[verifier::type_invariant]
    spec fn settled(self) -> bool {
        unbroken(self.pending@) && (self.cr_ended ==> self.pending@.len() == 0)
    }

    /// A reader that has read nothing.
    pub fn new() -> (r: FrameReader)
        ensures
            r@ == (Reading {
                pending: Seq::empty(),
                cr_ended: false,
                gathered: Gathered { event: None, data: None, ready: Seq::empty() },
            }),
    {
        let r = FrameReader {
            pending: Vec::new(),
            cr_ended: false,
            event: None,
            data: None,
            ready: VecDeque::new(),
        };
        assert(views(r.ready@) =~= Seq::empty());
        r
    }

    /// The next complete frame, oldest first.
    pub fn next(&mut self) -> (r: Option<Payload>)
        ensures
            r is Some <==> old(self)@.gathered.ready.len() > 0,
            r matches Some(payload) ==> payload.deep_view() == old(self)@.gathered.ready[0],
            final(self)@ == (Reading {
                gathered: Gathered {
                    ready: if old(self)@.gathered.ready.len() > 0 {
                        old(self)@.gathered.ready.skip(1)
                    } else {
                        old(self)@.gathered.ready
                    },
                    ..old(self)@.gathered
                },
                ..old(self)@
            }),
    {
        proof {
            use_type_invariant(&*self);
        }
        let mut ready: VecDeque<Payload> = VecDeque::new();
        std::mem::swap(&mut self.ready, &mut ready);
        let ghost before = ready@;
        let r = ready.pop_front();
        assert(before.len() > 0 ==> views(ready@) =~= views(before).skip(1));
        self.ready = ready;
        r
    }

    /// Ends the current frame and decides what it was. A frame whose kind this
    /// build does not know is skipped, not fatal: one strange frame must not
    /// end a healthy connection.
    fn take(&mut self) -> (r: Option<Payload>)
        ensures
            r.deep_view() == frame_of(
                old(self)@.gathered.event,
                joined(old(self)@.gathered.data),
            ),
            final(self)@ == (Reading {
                gathered: Gathered {
                    event: None,
                    data: None,
                    ready: old(self)@.gathered.ready,
                },
                ..old(self)@
            }),
    {
        proof {
            use_type_invariant(&*self);
        }
        let mut gathered: Option<String> = None;
        std::mem::swap(&mut self.data, &mut gathered);
        let data = match gathered {
            Some(data) => data,
            None => String::new(),
        };
        let mut event: Option<String> = None;
        std::mem::swap(&mut self.event, &mut event);
        assert(data@ =~= joined(old(self)@.gathered.data));
        match event {
            None => Some(Payload::Member(data)),
            Some(kind) => if *kind.as_str() == *"profile" {
                Some(Payload::Member(data))
            } else if *kind.as_str() == *"revoked" {
                Some(Payload::Revocation(data))
            } else {
                None
            },
        }
    }

    /// Takes one line in.
    fn read_line(&mut self, line: &Vec<u8>)
        ensures
            final(self)@ == (Reading {
                gathered: take_line(old(self)@.gathered, line@),
                ..old(self)@
            }),
    {
        proof {
            use_type_invariant(&*self);
        }
        if line.len() == 0 {
            let ghost before = self.ready@;
            if let Some(frame) = self.take() {
                let ghost dealt = frame;
                let mut ready: VecDeque<Payload> = VecDeque::new();
                std::mem::swap(&mut self.ready, &mut ready);
                ready.push_back(frame);
                self.ready = ready;
                assert(views(self.ready@) =~= views(before).push(dealt.deep_view()));
            }
        } else if line[0] != COLON {
            let at: usize = colon_in(line);
            let name = vstd::slice::slice_subrange(line.as_slice(), 0, at);
            assert(name@ =~= field_name(line@));
            let mut from: usize = line.len();
            if at < line.len() {
                from = at + 1;
                if from < line.len() && line[from] == SPACE {
                    from = from + 1;
                }
            }
            let value = vstd::slice::slice_subrange(line.as_slice(), from, line.len());
            assert(value@ =~= field_value(line@));
            if is_event_field(name) {
                self.event = Some(text::lossy_text(value));
            } else if is_data_field(name) {
                let more = text::lossy_text(value);
                let mut gathered: Option<String> = None;
                std::mem::swap(&mut self.data, &mut gathered);
                self.data = Some(
                    match gathered {
                        Some(before) => text::join3(before.as_str(), "\n", more.as_str()),
                        None => more,
                    },
                );
                proof {
                    reveal_strlit("\n");
                    if let Some(before) = old(self)@.gathered.data {
                        assert(before + "\n"@ =~= before.push('\n'));
                    }
                }
            }
        }
    }

    /// Feeds the next bytes from the wire and queues every frame they
    /// completed. Bytes trailing their terminator wait for the rest: a field or
    /// a UTF-8 character may straddle two reads, and a `\r\n` split across two
    /// reads is one terminator.
    pub fn feed(&mut self, bytes: &[u8])
        ensures
            final(self)@ == fed(old(self)@, bytes@),
    {
        proof {
            use_type_invariant(&*self);
        }
        let ghost before = self@;
        let ghost start = Cut {
            lines: Seq::empty(),
            line: before.pending,
            after_cr: before.cr_ended,
        };
        if bytes.len() == 0 {
            assert(self@ =~= fed(before, bytes@));
            return ;
        }
        let from: usize = if self.cr_ended && bytes[0] == LINE_FEED {
            1
        } else {
            0
        };
        self.cr_ended = false;
        let mut fresh = vstd::slice::slice_to_vec(
            vstd::slice::slice_subrange(bytes, from, bytes.len()),
        );
        let ghost tail = fresh@;
        let mut pending: Vec<u8> = Vec::new();
        std::mem::swap(&mut self.pending, &mut pending);
        pending.append(&mut fresh);
        let ghost all = pending@;
        assert(all =~= before.pending + tail);
        proof {
            lemma_cut_skips(before.pending, start.after_cr, bytes@);
            lemma_cut_joins(uncut(), before.pending, tail);
            lemma_cut_unbroken(uncut(), before.pending);
            assert(uncut().line + before.pending =~= before.pending);
            assert(cut_bytes(uncut(), before.pending) == Cut {
                lines: Seq::empty(),
                line: before.pending,
                after_cr: false,
            });
            assert(tail =~= if start.after_cr && bytes@[0] == LINE_FEED {
                bytes@.skip(1)
            } else {
                bytes@
            });
            assert(cut_bytes(uncut(), all) == cut_bytes(start, bytes@));
        }
        let mut at: usize = pending.len();
        while at > 0 && pending[at - 1] != LINE_FEED && pending[at - 1] != CARRIAGE_RETURN
            invariant
                at <= pending@.len(),
                pending@ == all,
                unbroken(all.skip(at as int)),
            decreases at,
        {
            at = at - 1;
            assert forall|i: int| 0 <= i < all.skip(at as int).len() implies !terminator(
                #[trigger] all.skip(at as int)[i],
            ) by {
                if i > 0 {
                    assert(all.skip(at as int)[i] == all.skip(at + 1)[i - 1]);
                }
            }
        }
        let ghost rest = all.skip(at as int);
        if at == 0 {
            assert(rest =~= all);
            self.pending = pending;
            proof {
                lemma_cut_unbroken(uncut(), all);
                assert(uncut().line + all =~= all);
                assert(cut_bytes(start, bytes@).lines =~= Seq::empty());
                assert(self@ =~= fed(before, bytes@));
            }
            return ;
        }
        let block = vstd::slice::slice_to_vec(
            vstd::slice::slice_subrange(pending.as_slice(), 0, at),
        );
        let left = vstd::slice::slice_to_vec(
            vstd::slice::slice_subrange(pending.as_slice(), at, pending.len()),
        );
        proof {
            assert(left@ =~= rest);
            assert(all =~= block@ + rest);
            lemma_cut_joins(uncut(), block@, rest);
            lemma_cut_ends(block@);
            lemma_cut_unbroken(cut_bytes(uncut(), block@), rest);
            assert(cut_bytes(uncut(), block@).line + rest =~= rest);
        }
        let cr_ended = left.len() == 0 && block[at - 1] == CARRIAGE_RETURN;
        self.pending = left;
        self.cr_ended = cr_ended;
        let lines = split_lines(block.as_slice());
        let ghost cut = cut_bytes(uncut(), block@).lines;
        let ghost gathered = self@.gathered;
        let mut i: usize = 0;
        assert(lines.deep_view().take(0) =~= Seq::empty());
        while i < lines.len()
            invariant
                i <= lines@.len(),
                lines.deep_view() == cut,
                self@.pending == rest,
                self@.cr_ended == (rest.len() == 0 && block@[at - 1] == CARRIAGE_RETURN),
                self@.gathered == take_lines(gathered, cut.take(i as int)),
            decreases lines@.len() - i,
        {
            proof {
                assert(cut.take(i + 1).drop_last() =~= cut.take(i as int));
                assert(cut.take(i + 1).last() == lines@[i as int]@) by {
                    assert(lines@[i as int].deep_view() =~= lines@[i as int]@);
                }
            }
            self.read_line(&lines[i]);
            i = i + 1;
        }
        assert(cut.take(cut.len() as int) =~= cut);
    }
}

// ---------------------------------------------------------------------------
// How cutting composes
// ---------------------------------------------------------------------------

proof fn lemma_cut_joins(cut: Cut, a: Seq<u8>, b: Seq<u8>)
    ensures
        cut_bytes(cut, a + b) == cut_bytes(cut_bytes(cut, a), b),
    decreases b.len(),
{
    if b.len() == 0 {
        assert(a + b =~= a);
    } else {
        lemma_cut_joins(cut, a, b.drop_last());
        assert((a + b).drop_last() =~= a + b.drop_last());
        assert((a + b).last() == b.last());
    }
}

proof fn lemma_cut_unbroken(cut: Cut, bytes: Seq<u8>)
    requires
        unbroken(bytes),
    ensures
        cut_bytes(cut, bytes).lines == cut.lines,
        cut_bytes(cut, bytes).line == cut.line + bytes,
        cut_bytes(cut, bytes).after_cr == (bytes.len() == 0 && cut.after_cr),
    decreases bytes.len(),
{
    if bytes.len() == 0 {
        assert(cut.line + bytes =~= cut.line);
    } else {
        let rest = bytes.drop_last();
        assert(unbroken(rest)) by {
            assert forall|i: int| 0 <= i < rest.len() implies !terminator(#[trigger] rest[i]) by {
                assert(rest[i] == bytes[i]);
            }
        }
        lemma_cut_unbroken(cut, rest);
        assert(!terminator(bytes[bytes.len() - 1]));
        assert((cut.line + rest).push(bytes.last()) =~= cut.line + bytes);
    }
}

/// Right after a `\r` nothing has been read of the next line.
proof fn lemma_cut_after_cr(bytes: Seq<u8>)
    ensures
        cut_bytes(uncut(), bytes).after_cr ==> cut_bytes(uncut(), bytes).line.len() == 0,
    decreases bytes.len(),
{
    if bytes.len() > 0 {
        lemma_cut_after_cr(bytes.drop_last());
    }
}

/// At a terminator nothing has been read of the next line.
proof fn lemma_cut_ends(block: Seq<u8>)
    requires
        block.len() > 0,
        terminator(block.last()),
    ensures
        cut_bytes(uncut(), block).line.len() == 0,
        cut_bytes(uncut(), block).after_cr == (block.last() == CARRIAGE_RETURN),
        lines_of(block) == cut_bytes(uncut(), block).lines,
{
    lemma_cut_after_cr(block.drop_last());
}

/// A `\n` that opens a read after a `\r` can be left out, and any other byte
/// there does not know of the `\r`.
proof fn lemma_cut_skips(line: Seq<u8>, after_cr: bool, bytes: Seq<u8>)
    requires
        after_cr ==> bytes.len() > 0,
    ensures
        cut_bytes(Cut { lines: Seq::empty(), line, after_cr }, bytes) == cut_bytes(
            Cut { lines: Seq::empty(), line, after_cr: false },
            if after_cr && bytes[0] == LINE_FEED {
                bytes.skip(1)
            } else {
                bytes
            },
        ),
{
    if after_cr {
        let with = Cut { lines: Seq::empty(), line, after_cr };
        let without = Cut { lines: Seq::empty(), line, after_cr: false };
        let first = seq![bytes[0]];
        assert(bytes =~= first + bytes.skip(1));
        lemma_cut_joins(with, first, bytes.skip(1));
        lemma_cut_joins(without, first, bytes.skip(1));
        assert(first.drop_last() =~= Seq::empty());
        assert(cut_bytes(with, first.drop_last()) == with);
        assert(cut_bytes(without, first.drop_last()) == without);
        assert(cut_bytes(with, first) == cut_byte(with, bytes[0]));
        assert(cut_bytes(without, first) == cut_byte(without, bytes[0]));
    }
}

proof fn lemma_cut_carries(cut: Cut, bytes: Seq<u8>)
    ensures
        ({
            let alone = cut_bytes(
                Cut { lines: Seq::empty(), line: cut.line, after_cr: cut.after_cr },
                bytes,
            );
            cut_bytes(cut, bytes) == Cut {
                lines: cut.lines + alone.lines,
                line: alone.line,
                after_cr: alone.after_cr,
            }
        }),
    decreases bytes.len(),
{
    let bare = Cut { lines: Seq::<Seq<u8>>::empty(), line: cut.line, after_cr: cut.after_cr };
    if bytes.len() == 0 {
        assert(cut.lines + bare.lines =~= cut.lines);
    } else {
        lemma_cut_carries(cut, bytes.drop_last());
        let alone = cut_bytes(bare, bytes.drop_last());
        assert((cut.lines + alone.lines).push(alone.line) =~= cut.lines + alone.lines.push(
            alone.line,
        ));
    }
}

proof fn lemma_take_lines_joins(g: Gathered, a: Seq<Seq<u8>>, b: Seq<Seq<u8>>)
    ensures
        take_lines(g, a + b) == take_lines(take_lines(g, a), b),
    decreases b.len(),
{
    if b.len() == 0 {
        assert(a + b =~= a);
    } else {
        lemma_take_lines_joins(g, a, b.drop_last());
        assert((a + b).drop_last() =~= a + b.drop_last());
        assert((a + b).last() == b.last());
    }
}

// ---------------------------------------------------------------------------
// Laws
// ---------------------------------------------------------------------------

/// The wire may cut the stream anywhere, within a field, a character or a
/// `\r\n`: two reads gather what the one read of both gathers.
pub proof fn reads_may_be_cut_anywhere(reading: Reading, a: Seq<u8>, b: Seq<u8>)
    ensures
        fed(fed(reading, a), b) == fed(reading, a + b),
{
    let start = Cut {
        lines: Seq::<Seq<u8>>::empty(),
        line: reading.pending,
        after_cr: reading.cr_ended,
    };
    let first = cut_bytes(start, a);
    lemma_cut_joins(start, a, b);
    lemma_cut_carries(first, b);
    let second = cut_bytes(
        Cut { lines: Seq::empty(), line: first.line, after_cr: first.after_cr },
        b,
    );
    lemma_take_lines_joins(reading.gathered, first.lines, second.lines);
    assert(fed(fed(reading, a), b) =~= fed(reading, a + b));
}

/// A read of nothing changes nothing.
pub proof fn a_read_of_nothing_changes_nothing(reading: Reading)
    ensures
        fed(reading, Seq::empty()) == reading,
{
    assert(fed(reading, Seq::empty()) =~= reading);
}

/// The lines of data of one frame join with `\n`, however blank each of them is.
pub proof fn data_lines_join(g: Gathered, one: Seq<u8>, other: Seq<u8>)
    requires
        g.data is None,
        one.len() > 0,
        other.len() > 0,
        field_name(one) == data_field(),
        field_name(other) == data_field(),
    ensures
        take_line(take_line(g, one), other).data == Some(
            text::lossy(field_value(one)) + seq!['\n'] + text::lossy(field_value(other)),
        ),
{
    assert(one[0] != COLON) by {
        if one[0] == COLON {
            assert(field_name(one).len() == 0);
        }
    }
    assert(other[0] != COLON) by {
        if other[0] == COLON {
            assert(field_name(other).len() == 0);
        }
    }
    assert(data_field() != event_field()) by {
        assert(data_field().len() != event_field().len());
    }
    let first = text::lossy(field_value(one));
    assert(first.push('\n') =~= first + seq!['\n']);
}

/// Bytes without a terminator dispatch nothing: they wait for the rest.
pub proof fn an_unfinished_line_waits(reading: Reading, bytes: Seq<u8>)
    requires
        unbroken(bytes),
    ensures
        fed(reading, bytes).gathered == reading.gathered,
        fed(reading, bytes).pending == reading.pending + bytes,
{
    let start = Cut {
        lines: Seq::<Seq<u8>>::empty(),
        line: reading.pending,
        after_cr: reading.cr_ended,
    };
    lemma_cut_unbroken(start, bytes);
}

/// The three terminators end a line alike.
pub proof fn the_terminators_end_a_line_alike(cut: Cut)
    requires
        !cut.after_cr,
    ensures
        cut_bytes(cut, seq![LINE_FEED]).lines == cut.lines.push(cut.line),
        cut_bytes(cut, seq![CARRIAGE_RETURN]).lines == cut.lines.push(cut.line),
        cut_bytes(cut, seq![CARRIAGE_RETURN, LINE_FEED]).lines == cut.lines.push(cut.line),
        cut_bytes(cut, seq![LINE_FEED]) == cut_bytes(cut, seq![CARRIAGE_RETURN, LINE_FEED]),
{
    reveal_with_fuel(cut_bytes, 3);
    assert(seq![LINE_FEED].drop_last() =~= Seq::empty());
    assert(seq![CARRIAGE_RETURN].drop_last() =~= Seq::empty());
    assert(seq![CARRIAGE_RETURN, LINE_FEED].drop_last() =~= seq![CARRIAGE_RETURN]);
}

/// A frame of a kind nobody here knows is skipped where it stands: nothing is
/// queued, and the reader starts afresh behind it.
pub proof fn an_unknown_kind_is_skipped(g: Gathered, kind: Seq<char>)
    requires
        g.event == Some(kind),
        kind != "profile"@,
        kind != "revoked"@,
    ensures
        take_line(g, Seq::empty()) == (Gathered {
            event: None,
            data: None,
            ready: g.ready,
        }),
{
}

/// Reading only ever adds to the frames that wait.
pub proof fn no_frame_is_lost(g: Gathered, lines: Seq<Seq<u8>>)
    ensures
        g.ready.is_prefix_of(take_lines(g, lines).ready),
    decreases lines.len(),
{
    if lines.len() > 0 {
        no_frame_is_lost(g, lines.drop_last());
    }
}

/// A comment changes nothing.
pub proof fn a_comment_changes_nothing(g: Gathered, line: Seq<u8>)
    requires
        line.len() > 0,
        line[0] == COLON,
    ensures
        take_line(g, line) == g,
{
}

/// A blank line behind a frame of a known kind queues exactly one more frame: of
/// that kind, with the data that was gathered, behind all that already wait,
/// whatever they are. The reader starts afresh behind it.
pub proof fn a_complete_frame_is_queued(g: Gathered)
    requires
        g.event is None || g.event == Some("profile"@) || g.event == Some("revoked"@),
    ensures
        ({
            let after = take_line(g, Seq::empty());
            let data = if g.data is Some {
                g.data->0
            } else {
                Seq::empty()
            };
            &&& after.ready.len() == g.ready.len() + 1
            &&& after.ready.drop_last() == g.ready
            &&& after.ready.last() == if g.event == Some("revoked"@) {
                Frame::Revocation(data)
            } else {
                Frame::Member(data)
            }
            &&& after.event is None
            &&& after.data is None
        }),
{
    reveal_strlit("profile");
    reveal_strlit("revoked");
    assert("profile"@[0] != "revoked"@[0]);
    let after = take_line(g, Seq::empty());
    assert(after.ready.drop_last() =~= g.ready);
}

/// Only a blank line ends a frame: no other line queues or forgets one.
pub proof fn only_a_blank_line_ends_a_frame(g: Gathered, line: Seq<u8>)
    requires
        line.len() > 0,
    ensures
        take_line(g, line).ready == g.ready,
        g.event is Some ==> take_line(g, line).event is Some,
        g.data matches Some(data) ==> (take_line(g, line).data matches Some(more)
            && data.is_prefix_of(more)),
{
}

/// A line of the given name, a colon and a value.
pub open spec fn field_line(name: Seq<u8>, value: Seq<u8>) -> Seq<u8> {
    name + seq![58u8] + value
}

proof fn lemma_colon_behind(name: Seq<u8>, rest: Seq<u8>)
    requires
        forall|i: int| 0 <= i < name.len() ==> #[trigger] name[i] != 58,
        rest.len() > 0 ==> rest[0] == 58,
    ensures
        colon_at(name + rest) == name.len(),
    decreases name.len(),
{
    let line = name + rest;
    if name.len() > 0 {
        assert(line[0] == name[0]);
        assert(line.drop_first() =~= name.drop_first() + rest);
        assert forall|i: int| 0 <= i < name.drop_first().len() implies #[trigger] name.drop_first()[i]
            != 58 by {
            assert(name.drop_first()[i] == name[i + 1]);
        }
        lemma_colon_behind(name.drop_first(), rest);
    } else {
        assert(line =~= rest);
    }
}

proof fn lemma_field(name: Seq<u8>, value: Seq<u8>)
    requires
        forall|i: int| 0 <= i < name.len() ==> #[trigger] name[i] != 58,
    ensures
        field_name(field_line(name, value)) == name,
        field_value(field_line(name, value)) == if value.len() > 0 && value[0] == 32 {
            value.skip(1)
        } else {
            value
        },
        field_name(name) == name,
        field_value(name) == Seq::<u8>::empty(),
{
    let line = field_line(name, value);
    assert(line =~= name + (seq![58u8] + value));
    lemma_colon_behind(name, seq![58u8] + value);
    assert(field_name(line) =~= name);
    assert(line.skip((name.len() + 1) as int) =~= value);
    assert(name + Seq::<u8>::empty() =~= name);
    lemma_colon_behind(name, Seq::empty());
    assert(field_name(name) =~= name);
}

/// `data: x` and `data:x` add `x` to the frame's data, with one space behind the
/// colon taken off and no second one; a line feed stands between two lines of it,
/// and the kind and what waits are left alone.
pub proof fn a_data_line_adds_its_value(g: Gathered, value: Seq<u8>)
    ensures
        ({
            let after = take_line(g, field_line(seq![100u8, 97u8, 116u8, 97u8], value));
            let shown = if value.len() > 0 && value[0] == 32 {
                value.skip(1)
            } else {
                value
            };
            &&& after.data == Some(
                if g.data is Some {
                    g.data->0 + seq!['\n'] + text::lossy(shown)
                } else {
                    text::lossy(shown)
                },
            )
            &&& after.event == g.event
            &&& after.ready == g.ready
        }),
{
    let name = seq![100u8, 97u8, 116u8, 97u8];
    let line = field_line(name, value);
    lemma_field(name, value);
    assert(line[0] == 100);
    assert(name.len() == 4 && event_field().len() == 5);
    if let Some(before) = g.data {
        assert(before.push('\n') =~= before + seq!['\n']);
    }
}

/// `event: kind` names the kind of the frame, over any it was given before, and
/// leaves its data and what waits alone.
pub proof fn an_event_line_names_the_kind(g: Gathered, value: Seq<u8>)
    ensures
        ({
            let after = take_line(g, field_line(seq![101u8, 118u8, 101u8, 110u8, 116u8], value));
            let shown = if value.len() > 0 && value[0] == 32 {
                value.skip(1)
            } else {
                value
            };
            &&& after.event == Some(text::lossy(shown))
            &&& after.data == g.data
            &&& after.ready == g.ready
        }),
{
    let name = seq![101u8, 118u8, 101u8, 110u8, 116u8];
    lemma_field(name, value);
    assert(field_line(name, value)[0] == 101);
}

/// A field of any other name, with a value or without a colon at all, changes
/// nothing.
pub proof fn another_field_changes_nothing(g: Gathered, name: Seq<u8>, value: Seq<u8>)
    requires
        name.len() > 0,
        forall|i: int| 0 <= i < name.len() ==> #[trigger] name[i] != 58,
        name != seq![100u8, 97u8, 116u8, 97u8],
        name != seq![101u8, 118u8, 101u8, 110u8, 116u8],
    ensures
        take_line(g, field_line(name, value)) == g,
        take_line(g, name) == g,
{
    lemma_field(name, value);
    assert(name[0] != 58);
    assert(field_line(name, value)[0] == name[0]);
}

/// Bytes that end a line: `\n`, `\r` or the two together.
pub open spec fn line_end(end: Seq<u8>) -> bool {
    end == seq![10u8] || end == seq![13u8] || end == seq![13u8, 10u8]
}

proof fn lemma_cut_one_line(cut: Cut, line: Seq<u8>, end: Seq<u8>)
    requires
        cut.line.len() == 0,
        unbroken(line),
        line_end(end),
        cut.after_cr ==> line.len() > 0 || end[0] == 13,
    ensures
        cut_bytes(cut, line + end) == (Cut {
            lines: cut.lines.push(line),
            line: Seq::empty(),
            after_cr: end.last() == 13,
        }),
{
    lemma_cut_joins(cut, line, end);
    lemma_cut_unbroken(cut, line);
    assert(cut.line + line =~= line);
    let within = cut_bytes(cut, line);
    reveal_with_fuel(cut_bytes, 3);
    if end == seq![10u8] {
        assert(end.drop_last() =~= Seq::empty());
    } else if end == seq![13u8] {
        assert(end.drop_last() =~= Seq::empty());
    } else {
        assert(end.drop_last() =~= seq![13u8]);
        assert(seq![13u8].drop_last() =~= Seq::empty());
        assert(cut_bytes(within, seq![13u8]) == cut_byte(within, 13));
    }
}

/// A line off the wire, whichever of the three terminators ends it, is taken in
/// whole: a reader with nothing pending has nothing pending behind it. Where the
/// read before ended on `\r`, a lone `\n` would only finish that terminator.
pub proof fn a_whole_line_is_taken_in(reading: Reading, line: Seq<u8>, end: Seq<u8>)
    requires
        reading.pending.len() == 0,
        unbroken(line),
        line_end(end),
        reading.cr_ended ==> line.len() > 0 || end[0] == 13,
    ensures
        fed(reading, line + end).gathered == take_line(reading.gathered, line),
        fed(reading, line + end).pending.len() == 0,
        fed(reading, line + end).cr_ended == (end.last() == 13),
{
    let start = Cut {
        lines: Seq::<Seq<u8>>::empty(),
        line: reading.pending,
        after_cr: reading.cr_ended,
    };
    lemma_cut_one_line(start, line, end);
    let lines = Seq::<Seq<u8>>::empty().push(line);
    reveal_with_fuel(take_lines, 2);
    assert(lines.drop_last() =~= Seq::<Seq<u8>>::empty());
    assert(lines.last() == line);
}

/// `event: ` and a kind, as a line.
pub open spec fn kind_line(kind: Seq<u8>) -> Seq<u8> {
    seq![101u8, 118u8, 101u8, 110u8, 116u8, 58u8, 32u8] + kind
}

/// `data: ` and a text, as a line.
pub open spec fn text_line(value: Seq<u8>) -> Seq<u8> {
    seq![100u8, 97u8, 116u8, 97u8, 58u8, 32u8] + value
}

/// A reader between two frames, nothing pending.
pub open spec fn between_frames(reading: Reading) -> bool {
    &&& reading.pending.len() == 0
    &&& reading.gathered.event is None
    &&& reading.gathered.data is None
}

proof fn lemma_lines_of_a_frame(g: Gathered, kind: Seq<u8>, value: Seq<u8>)
    requires
        unbroken(kind),
        unbroken(value),
    ensures
        unbroken(kind_line(kind)),
        unbroken(text_line(value)),
        take_line(g, kind_line(kind)) == (Gathered { event: Some(text::lossy(kind)), ..g }),
        g.data is None ==> take_line(g, text_line(value)) == (Gathered {
            data: Some(text::lossy(value)),
            ..g
        }),
{
    let one = kind_line(kind);
    let other = text_line(value);
    assert forall|i: int| 0 <= i < one.len() implies !terminator(#[trigger] one[i]) by {
        if i >= 7 {
            assert(one[i] == kind[i - 7]);
        }
    }
    assert forall|i: int| 0 <= i < other.len() implies !terminator(#[trigger] other[i]) by {
        if i >= 6 {
            assert(other[i] == value[i - 6]);
        }
    }
    assert(one =~= field_line(seq![101u8, 118u8, 101u8, 110u8, 116u8], seq![32u8] + kind));
    assert(other =~= field_line(seq![100u8, 97u8, 116u8, 97u8], seq![32u8] + value));
    assert((seq![32u8] + kind).skip(1) =~= kind);
    assert((seq![32u8] + value).skip(1) =~= value);
    an_event_line_names_the_kind(g, seq![32u8] + kind);
    a_data_line_adds_its_value(g, seq![32u8] + value);
}

proof fn lemma_frame_ends(reading: Reading, value: Seq<u8>, end: Seq<u8>)
    requires
        reading.pending.len() == 0,
        reading.gathered.data is None,
        unbroken(value),
        line_end(end),
    ensures
        fed(reading, text_line(value) + end + end).gathered == take_line(
            (Gathered { data: Some(text::lossy(value)), ..reading.gathered }),
            Seq::empty(),
        ),
        fed(reading, text_line(value) + end + end).pending.len() == 0,
{
    lemma_lines_of_a_frame(reading.gathered, Seq::empty(), value);
    let line = text_line(value);
    a_whole_line_is_taken_in(reading, line, end);
    reads_may_be_cut_anywhere(reading, line + end, end);
    assert(Seq::<u8>::empty() + end =~= end);
    a_whole_line_is_taken_in(fed(reading, line + end), Seq::empty(), end);
}

/// A bare announcement off the wire is one more member in the queue, behind all
/// that waits, and the reader is between two frames again.
pub proof fn an_announcement_arrives(reading: Reading, value: Seq<u8>, end: Seq<u8>)
    requires
        between_frames(reading),
        unbroken(value),
        line_end(end),
    ensures
        fed(reading, text_line(value) + end + end).gathered.ready == reading.gathered.ready.push(
            Frame::Member(text::lossy(value)),
        ),
        between_frames(fed(reading, text_line(value) + end + end)),
{
    lemma_frame_ends(reading, value, end);
    let g = Gathered { data: Some(text::lossy(value)), ..reading.gathered };
    a_complete_frame_is_queued(g);
    let after = take_line(g, Seq::empty());
    assert(after.ready =~= after.ready.drop_last().push(after.ready.last()));
}

/// A frame of a named kind off the wire is one more frame of that kind in the
/// queue, behind all that waits, and the reader is between two frames again: a
/// second one fed behind it is queued behind it.
pub proof fn a_named_frame_arrives(
    reading: Reading,
    kind: Seq<u8>,
    value: Seq<u8>,
    end: Seq<u8>,
)
    requires
        between_frames(reading),
        unbroken(kind),
        unbroken(value),
        line_end(end),
        text::lossy(kind) == "profile"@ || text::lossy(kind) == "revoked"@,
    ensures
        ({
            let after = fed(reading, kind_line(kind) + end + (text_line(value) + end + end));
            &&& between_frames(after)
            &&& after.gathered.ready == reading.gathered.ready.push(
                if text::lossy(kind) == "revoked"@ {
                    Frame::Revocation(text::lossy(value))
                } else {
                    Frame::Member(text::lossy(value))
                },
            )
        }),
{
    lemma_lines_of_a_frame(reading.gathered, kind, value);
    let first = kind_line(kind) + end;
    let rest = text_line(value) + end + end;
    a_whole_line_is_taken_in(reading, kind_line(kind), end);
    let begun = fed(reading, first);
    reads_may_be_cut_anywhere(reading, first, rest);
    lemma_frame_ends(begun, value, end);
    let g = Gathered { data: Some(text::lossy(value)), ..begun.gathered };
    a_complete_frame_is_queued(g);
    let after = take_line(g, Seq::empty());
    assert(after.ready =~= after.ready.drop_last().push(after.ready.last()));
}

/// The frames that wait come out as they went in: whatever is read later stands
/// behind them, in the order it was read.
pub proof fn frames_queue_up(reading: Reading, a: Seq<u8>, b: Seq<u8>)
    ensures
        reading.gathered.ready.is_prefix_of(fed(reading, a).gathered.ready),
        fed(reading, a).gathered.ready.is_prefix_of(fed(reading, a + b).gathered.ready),
{
    reads_may_be_cut_anywhere(reading, a, b);
    let first = cut_bytes(
        Cut { lines: Seq::empty(), line: reading.pending, after_cr: reading.cr_ended },
        a,
    );
    no_frame_is_lost(reading.gathered, first.lines);
    let between = fed(reading, a);
    let second = cut_bytes(
        Cut { lines: Seq::empty(), line: between.pending, after_cr: between.cr_ended },
        b,
    );
    no_frame_is_lost(between.gathered, second.lines);
}

/// A block is its lines in order: a line and its terminator in front of a block
/// are one line more in front of its lines, and bytes without a terminator are a
/// line of their own. A `\r` in front of a `\n` is one terminator with it.
pub proof fn a_block_is_its_lines(line: Seq<u8>, end: Seq<u8>, rest: Seq<u8>)
    requires
        unbroken(line),
        line_end(end),
        end == seq![13u8] && rest.len() > 0 ==> rest[0] != 10,
    ensures
        lines_of(line + end + rest) == seq![line] + lines_of(rest),
        lines_of(line) == if line.len() > 0 {
            seq![line]
        } else {
            Seq::empty()
        },
{
    lemma_cut_one_line(uncut(), line, end);
    lemma_cut_joins(uncut(), line + end, rest);
    let first = cut_bytes(uncut(), line + end);
    lemma_cut_carries(first, rest);
    if rest.len() > 0 {
        lemma_cut_skips(Seq::empty(), first.after_cr, rest);
    }
    assert(first.lines =~= seq![line]);
    assert(first.line =~= Seq::<u8>::empty());
    let alone = cut_bytes(uncut(), rest);
    assert(cut_bytes(uncut(), line + end + rest).lines =~= seq![line] + alone.lines);
    assert(lines_of(line + end + rest) =~= seq![line] + lines_of(rest));
    lemma_cut_unbroken(uncut(), line);
    assert(uncut().line + line =~= line);
    assert(lines_of(line) =~= if line.len() > 0 {
        seq![line]
    } else {
        Seq::empty()
    });
}

/// A `\r\n` cut in two by the wire is one terminator: behind a read that ended on
/// `\r`, a `\n` ends nothing more and nothing of it is kept.
pub proof fn a_split_pair_is_one_terminator(reading: Reading, rest: Seq<u8>)
    requires
        reading.cr_ended,
    ensures
        fed(reading, seq![10u8] + rest) == fed((Reading { cr_ended: false, ..reading }), rest),
{
    let start = Cut {
        lines: Seq::<Seq<u8>>::empty(),
        line: reading.pending,
        after_cr: true,
    };
    let bytes = seq![10u8] + rest;
    lemma_cut_skips(reading.pending, true, bytes);
    assert(bytes.skip(1) =~= rest);
}

/// A payload carries the text it holds, under its own kind.
pub proof fn a_payload_carries_its_text(data: String)
    ensures
        Payload::Member(data).deep_view() == Frame::Member(data@),
        Payload::Revocation(data).deep_view() == Frame::Revocation(data@),
{
}

} // verus!
