//! The board vocabulary: columns, cards and the numbers the board puts in its
//! chrome.

use crate::clock::{
    day_number, instant, local_date, local_day, real_day, Date, OffsetDateTime,
};
use crate::text;
use vstd::prelude::*;

verus! {

// ---------------------------------------------------------------------------
// The rows
// ---------------------------------------------------------------------------

/// A board and the key prefix its tasks carry (`DZ-14`).
#[derive(Debug, Clone, PartialEq, Eq)]
pub struct BoardMeta {
    pub id: String,
    pub name: String,
    pub task_prefix: String,
}

/// A column. `is_done` is what turns a card into the finished, greyed state
/// with a "done Aug 14" stamp rather than a deadline chip.
#[derive(Debug, Clone, PartialEq, Eq)]
pub struct Column {
    pub id: String,
    pub name: String,
    pub position: i64,
    pub is_done: bool,
}

/// Whoever a card can point at. The address is not here: a board card never
/// shows one.
#[derive(Debug, Clone, PartialEq, Eq)]
pub struct Person {
    pub id: String,
    pub display_name: String,
    /// How many times the provider has re-photographed this person: the `?v=`
    /// an avatar URL carries. Zero: no photo there.
    pub photo_version: u64,
}

/// A tag's id and name: enough to show a chip and to filter the board on.
#[derive(Debug, Clone, PartialEq, Eq)]
pub struct TagChip {
    pub id: String,
    pub name: String,
}

/// One task as the store holds it, before assignees, comments and dependencies
/// are hung off it.
#[derive(Debug, Clone, PartialEq)]
pub struct TaskRow {
    pub id: String,
    pub task_key: String,
    pub title: String,
    pub column_id: String,
    pub deadline: Option<Date>,
    /// The meeting instant: an exact time, unlike the day-grain deadline.
    pub clock_at: Option<OffsetDateTime>,
    /// The hand-set position among the cards of the column, as its rank in the
    /// total order of the stored numbers.
    pub position: i64,
    pub done_at: Option<OffsetDateTime>,
    /// The task this one is a subtask of. A row with a parent gets no card of
    /// its own: it is counted on its parent's instead.
    pub parent_id: Option<String>,
    pub tag: Option<TagChip>,
}

/// One card crossing from one column into another, as it was written.
#[derive(Debug, Clone, PartialEq, Eq)]
pub struct Transition {
    pub id: String,
    pub task_id: String,
    pub from_column: String,
    pub to_column: String,
    pub actor_id: String,
    /// The moment the move committed.
    pub at: OffsetDateTime,
}

/// What a move attempt did.
#[derive(Debug, Clone, PartialEq, Eq)]
pub enum Moved {
    /// The card changed column. This is the fact that was written, and the
    /// only outcome the mail rules act on.
    Recorded(Transition),
    /// The card was dropped back in the column it came from; nothing was
    /// written.
    Unchanged,
    /// Somebody else moved the card between the drag starting and the drop
    /// landing; nothing was written.
    Stale,
    /// The card was headed for a done column with subtasks still open; nothing
    /// was written.
    Held,
}

/// A card, assembled. Dependencies carry the keys of the tasks on the other
/// end, because that is what the card shows.
#[derive(Debug, Clone, PartialEq)]
pub struct TaskCard {
    pub id: String,
    pub task_key: String,
    pub title: String,
    pub column_id: String,
    pub deadline: Option<Date>,
    /// The meeting instant the card owes its people a reminder about.
    pub clock_at: Option<OffsetDateTime>,
    pub done_at: Option<OffsetDateTime>,
    /// The rank of the hand-set position, as in [`TaskRow::position`].
    pub position: i64,
    pub assignees: Vec<Person>,
    pub comment_count: u32,
    /// Keys of the tasks that must finish before this one can start.
    pub blocked_by: Vec<String>,
    /// Keys of the tasks waiting on this one.
    pub blocks: Vec<String>,
    /// How many subtasks this card has, and how many of them are finished.
    /// Both are zero for a card with none, which is what hides the chip.
    pub subtask_total: u32,
    pub subtask_done: u32,
    /// The tag the card wears, its project, when it has one.
    pub tag: Option<TagChip>,
}

/// A column with its cards already in it.
#[derive(Debug, Clone, PartialEq)]
pub struct ColumnView {
    pub column: Column,
    pub cards: Vec<TaskCard>,
}

/// Everything one board screen needs, in one value.
#[derive(Debug, Clone, PartialEq)]
pub struct BoardView {
    pub board: BoardMeta,
    pub columns: Vec<ColumnView>,
}

/// A deadline chip's date text plus what state it is in: the pieces a screen
/// combines with its own translated words.
#[derive(Debug, Clone, PartialEq, Eq)]
pub struct DeadlineParts {
    pub date: String,
    pub state: DeadlineState,
}

#[derive(Debug, Clone, Copy, PartialEq, Eq, Structural)]
pub enum DeadlineState {
    OnTime,
    Overdue,
    Done,
}

// ---------------------------------------------------------------------------
// What the rows stand for
// ---------------------------------------------------------------------------

pub struct BoardModel {
    pub id: Seq<char>,
    pub name: Seq<char>,
    pub task_prefix: Seq<char>,
}

pub struct ColumnModel {
    pub id: Seq<char>,
    pub name: Seq<char>,
    pub position: i64,
    pub is_done: bool,
}

pub struct PersonModel {
    pub id: Seq<char>,
    pub display_name: Seq<char>,
    pub photo_version: u64,
}

pub struct TagModel {
    pub id: Seq<char>,
    pub name: Seq<char>,
}

pub struct TaskModel {
    pub id: Seq<char>,
    pub task_key: Seq<char>,
    pub title: Seq<char>,
    pub column_id: Seq<char>,
    pub deadline: Option<(int, int, int)>,
    pub clock_at: Option<(int, int, int)>,
    pub position: i64,
    pub done_at: Option<(int, int, int)>,
    pub parent_id: Option<Seq<char>>,
    pub tag: Option<TagModel>,
}

#[verifier::ext_equal]
pub struct CardModel {
    pub id: Seq<char>,
    pub task_key: Seq<char>,
    pub title: Seq<char>,
    pub column_id: Seq<char>,
    pub deadline: Option<(int, int, int)>,
    pub clock_at: Option<(int, int, int)>,
    pub done_at: Option<(int, int, int)>,
    pub position: i64,
    pub assignees: Seq<PersonModel>,
    pub comment_count: u32,
    pub blocked_by: Seq<Seq<char>>,
    pub blocks: Seq<Seq<char>>,
    pub subtask_total: int,
    pub subtask_done: int,
    pub tag: Option<TagModel>,
}

#[verifier::ext_equal]
pub struct ColumnCards {
    pub column: ColumnModel,
    pub cards: Seq<CardModel>,
}

#[verifier::ext_equal]
pub struct BoardCards {
    pub board: BoardModel,
    pub columns: Seq<ColumnCards>,
}

impl DeepView for BoardMeta {
    type V = BoardModel;

    open spec fn deep_view(&self) -> BoardModel {
        BoardModel { id: self.id@, name: self.name@, task_prefix: self.task_prefix@ }
    }
}

impl DeepView for Column {
    type V = ColumnModel;

    open spec fn deep_view(&self) -> ColumnModel {
        ColumnModel {
            id: self.id@,
            name: self.name@,
            position: self.position,
            is_done: self.is_done,
        }
    }
}

impl DeepView for Person {
    type V = PersonModel;

    open spec fn deep_view(&self) -> PersonModel {
        PersonModel {
            id: self.id@,
            display_name: self.display_name@,
            photo_version: self.photo_version,
        }
    }
}

impl DeepView for TagChip {
    type V = TagModel;

    open spec fn deep_view(&self) -> TagModel {
        TagModel { id: self.id@, name: self.name@ }
    }
}

impl DeepView for TaskRow {
    type V = TaskModel;

    open spec fn deep_view(&self) -> TaskModel {
        TaskModel {
            id: self.id@,
            task_key: self.task_key@,
            title: self.title@,
            column_id: self.column_id@,
            deadline: self.deadline.deep_view(),
            clock_at: self.clock_at.deep_view(),
            position: self.position,
            done_at: self.done_at.deep_view(),
            parent_id: self.parent_id.deep_view(),
            tag: self.tag.deep_view(),
        }
    }
}

impl DeepView for TaskCard {
    type V = CardModel;

    open spec fn deep_view(&self) -> CardModel {
        CardModel {
            id: self.id@,
            task_key: self.task_key@,
            title: self.title@,
            column_id: self.column_id@,
            deadline: self.deadline.deep_view(),
            clock_at: self.clock_at.deep_view(),
            done_at: self.done_at.deep_view(),
            position: self.position,
            assignees: self.assignees.deep_view(),
            comment_count: self.comment_count,
            blocked_by: self.blocked_by.deep_view(),
            blocks: self.blocks.deep_view(),
            subtask_total: self.subtask_total as int,
            subtask_done: self.subtask_done as int,
            tag: self.tag.deep_view(),
        }
    }
}

impl DeepView for ColumnView {
    type V = ColumnCards;

    open spec fn deep_view(&self) -> ColumnCards {
        ColumnCards { column: self.column.deep_view(), cards: self.cards.deep_view() }
    }
}

impl DeepView for BoardView {
    type V = BoardCards;

    open spec fn deep_view(&self) -> BoardCards {
        BoardCards { board: self.board.deep_view(), columns: self.columns.deep_view() }
    }
}

// ---------------------------------------------------------------------------
// Initials
// ---------------------------------------------------------------------------

/// The letters and digits that open a word, in order.
pub open spec fn opening_letters(s: Seq<char>) -> Seq<char>
    decreases s.len(),
{
    if s.len() == 0 {
        Seq::empty()
    } else {
        let before = opening_letters(s.drop_last());
        let opens = !text::white(s.last()) && (s.len() == 1 || text::white(s[s.len() - 2]));
        if opens && text::alphanumeric(s.last()) {
            before.push(s.last())
        } else {
            before
        }
    }
}

/// The first two opening letters, or the one there is, in upper case; a
/// question mark for a name without any.
pub open spec fn initials_of(name: Seq<char>) -> Seq<char> {
    let letters = opening_letters(name);
    if letters.len() >= 2 {
        text::uppercase(seq![letters[0], letters[1]])
    } else if letters.len() == 1 {
        text::upper(letters[0])
    } else {
        seq!['?']
    }
}

impl Person {
    /// The two-letter fallback for a person without a photo (`MD`).
    pub fn initials(&self) -> (r: String)
        ensures
            r@ == initials_of(self.display_name@),
    {
        let chars = text::chars_of(self.display_name.as_str());
        let mut letters: Vec<char> = Vec::new();
        let mut i: usize = 0;
        while i < chars.len()
            invariant
                i <= chars.len(),
                letters@ == opening_letters(chars@.take(i as int)),
            decreases chars.len() - i,
        {
            let opens = !text::is_white(chars[i]) && (i == 0 || text::is_white(chars[i - 1]));
            proof {
                let seen = chars@.take(i + 1);
                assert(seen.drop_last() =~= chars@.take(i as int));
                assert(seen.last() == chars@[i as int]);
                assert(i > 0 ==> seen[seen.len() - 2] == chars@[i - 1]);
            }
            if opens && text::is_alphanumeric(chars[i]) {
                letters.push(chars[i]);
            }
            i = i + 1;
        }
        assert(chars@.take(chars@.len() as int) =~= self.display_name@);
        if letters.len() >= 2 {
            let mut both = String::new();
            both.push(letters[0]);
            both.push(letters[1]);
            assert(both@ =~= seq![letters@[0], letters@[1]]);
            text::upper_text(both.as_str())
        } else if letters.len() == 1 {
            text::upper_char(letters[0])
        } else {
            let mut unknown = String::new();
            unknown.push('?');
            assert(unknown@ =~= seq!['?']);
            unknown
        }
    }
}

// ---------------------------------------------------------------------------
// Deadlines
// ---------------------------------------------------------------------------

/// Past its deadline and not finished. A clock beats the day: the instant
/// itself has to be reached. With only a day, the day has to be strictly past.
pub open spec fn overdue(
    done: bool,
    deadline: Option<(int, int, int)>,
    clock_at: Option<(int, int, int)>,
    now: (int, int, int),
) -> bool {
    !done && match clock_at {
        Some(at) => instant(at) <= instant(now),
        None => match deadline {
            Some(day) => day_number(day) < local_day(now),
            None => false,
        },
    }
}

/// The one overdue decision behind the card, the filter count and the task
/// detail. Done is never overdue. A clock beats the day: the instant itself
/// has to be reached, including a past day whose clock is still ahead. With
/// only a day, the day has to be strictly past; today is not overdue yet.
pub fn deadline_is_overdue(
    done: bool,
    deadline: Option<Date>,
    clock_at: Option<OffsetDateTime>,
    now: OffsetDateTime,
) -> (r: bool)
    ensures
        r == overdue(done, deadline.deep_view(), clock_at.deep_view(), now@),
{
    if done {
        return false;
    }
    match clock_at {
        Some(at) => at.reached_by(&now),
        None => match deadline {
            Some(day) => day.before(&now.date()),
            None => false,
        },
    }
}

/// The three letters a month goes by.
pub open spec fn month_name(month: int) -> Seq<char> {
    if month == 1 {
        "Jan"@
    } else if month == 2 {
        "Feb"@
    } else if month == 3 {
        "Mar"@
    } else if month == 4 {
        "Apr"@
    } else if month == 5 {
        "May"@
    } else if month == 6 {
        "Jun"@
    } else if month == 7 {
        "Jul"@
    } else if month == 8 {
        "Aug"@
    } else if month == 9 {
        "Sep"@
    } else if month == 10 {
        "Oct"@
    } else if month == 11 {
        "Nov"@
    } else {
        "Dec"@
    }
}

/// The month's name, a space and the day of the month in two digits.
pub open spec fn day_text(day: (int, int, int)) -> Seq<char> {
    month_name(day.1) + " "@ + seq![
        text::digit((day.2 / 10) as nat),
        text::digit((day.2 % 10) as nat),
    ]
}

/// `Sep 12`: the card chips are day-and-month, never a year.
pub fn day_label(day: Date) -> (r: String)
    ensures
        r@ == day_text(day@),
{
    let month = match day.month() {
        1 => "Jan",
        2 => "Feb",
        3 => "Mar",
        4 => "Apr",
        5 => "May",
        6 => "Jun",
        7 => "Jul",
        8 => "Aug",
        9 => "Sep",
        10 => "Oct",
        11 => "Nov",
        _ => "Dec",
    };
    let number: u8 = day.day();
    let mut digits = String::new();
    digits.push(text::digit_char(number / 10));
    digits.push(text::digit_char(number % 10));
    assert(digits@ =~= seq![
        text::digit((day@.2 / 10) as nat),
        text::digit((day@.2 % 10) as nat),
    ]);
    text::join3(month, " ", digits.as_str())
}

/// The chip a card shows where a deadline would go.
pub open spec fn deadline_text(card: CardModel, now: (int, int, int)) -> Seq<char> {
    match card.done_at {
        Some(done) => "done "@ + day_text(local_date(done)),
        None => match card.deadline {
            Some(day) => if overdue(false, card.deadline, card.clock_at, now) {
                day_text(day) + " · overdue"@
            } else {
                day_text(day)
            },
            None => "no deadline"@,
        },
    }
}

/// The same chip as a date and a state; nothing without a deadline or a finish.
pub open spec fn deadline_pieces(card: CardModel, now: (int, int, int)) -> Option<
    (Seq<char>, DeadlineState),
> {
    match card.done_at {
        Some(done) => Some((day_text(local_date(done)), DeadlineState::Done)),
        None => match card.deadline {
            Some(day) => Some(
                (
                    day_text(day),
                    if overdue(false, card.deadline, card.clock_at, now) {
                        DeadlineState::Overdue
                    } else {
                        DeadlineState::OnTime
                    },
                ),
            ),
            None => None,
        },
    }
}

impl DeepView for DeadlineParts {
    type V = (Seq<char>, DeadlineState);

    open spec fn deep_view(&self) -> (Seq<char>, DeadlineState) {
        (self.date@, self.state)
    }
}

/// A person stands among the assignees.
pub open spec fn carries(assignees: Seq<PersonModel>, user_id: Seq<char>) -> bool {
    exists|i: int| 0 <= i < assignees.len() && (#[trigger] assignees[i]).id == user_id
}

impl TaskCard {
    pub fn is_done(&self) -> (r: bool)
        ensures
            r == self.done_at is Some,
    {
        self.done_at.is_some()
    }

    /// The `2/5` the card wears, or nothing when the task has no parts.
    pub fn subtask_label(&self) -> (r: Option<String>)
        ensures
            r is Some <==> self.subtask_total > 0,
            r matches Some(label) ==> label@ == text::decimal(self.subtask_done as nat) + "/"@
                + text::decimal(self.subtask_total as nat),
    {
        if self.subtask_total > 0 {
            let done = text::decimal_text(self.subtask_done as u128);
            let total = text::decimal_text(self.subtask_total as u128);
            Some(text::join3(done.as_str(), "/", total.as_str()))
        } else {
            None
        }
    }

    /// Whether finishing this card is currently refused.
    pub fn holds_on_subtasks(&self) -> (r: bool)
        ensures
            r == (self.subtask_done < self.subtask_total),
    {
        self.subtask_done < self.subtask_total
    }

    /// Blocked means something unfinished is in front of it. A finished task is
    /// never counted as blocked, whatever it still points at.
    pub fn is_blocked(&self) -> (r: bool)
        ensures
            r == blocked(self.deep_view()),
    {
        !self.is_done() && self.blocked_by.len() > 0
    }

    /// Past its deadline and not finished: the shared [`deadline_is_overdue`]
    /// decision.
    pub fn is_overdue(&self, now: OffsetDateTime) -> (r: bool)
        ensures
            r == late(self.deep_view(), now@),
    {
        deadline_is_overdue(self.is_done(), self.deadline, self.clock_at, now)
    }

    pub fn is_assigned_to(&self, user_id: &str) -> (r: bool)
        ensures
            r == carries(self.deep_view().assignees, user_id@),
    {
        let mut i: usize = 0;
        while i < self.assignees.len()
            invariant
                i <= self.assignees.len(),
                forall|j: int| 0 <= j < i ==> (#[trigger] self.assignees@[j]).id@ != user_id@,
            decreases self.assignees.len() - i,
        {
            if *self.assignees[i].id.as_str() == *user_id {
                assert(self.deep_view().assignees[i as int].id == user_id@);
                return true;
            }
            i = i + 1;
        }
        assert(forall|j: int|
            0 <= j < self.assignees.len() ==> (#[trigger] self.deep_view().assignees[j]).id
                == self.assignees@[j].id@);
        false
    }

    /// The chip the card shows where a deadline would go: `Sep 12`,
    /// `Aug 21 · overdue`, `done Aug 14` or `no deadline`.
    pub fn deadline_label(&self, now: OffsetDateTime) -> (r: String)
        ensures
            r@ == deadline_text(self.deep_view(), now@),
    {
        if let Some(done) = self.done_at {
            return text::join2("done ", day_label(done.date()).as_str());
        }
        match self.deadline {
            Some(day) => if deadline_is_overdue(false, Some(day), self.clock_at, now) {
                text::join2(day_label(day).as_str(), " · overdue")
            } else {
                day_label(day)
            },
            None => "no deadline".to_owned(),
        }
    }

    /// The same chip as [`TaskCard::deadline_label`], split into a
    /// language-free date string and a state the caller translates. `None`
    /// when there is nothing to show.
    pub fn deadline_parts(&self, now: OffsetDateTime) -> (r: Option<DeadlineParts>)
        ensures
            r.deep_view() == deadline_pieces(self.deep_view(), now@),
    {
        if let Some(done) = self.done_at {
            return Some(
                DeadlineParts { date: day_label(done.date()), state: DeadlineState::Done },
            );
        }
        match self.deadline {
            Some(day) => Some(
                DeadlineParts {
                    date: day_label(day),
                    state: if deadline_is_overdue(false, Some(day), self.clock_at, now) {
                        DeadlineState::Overdue
                    } else {
                        DeadlineState::OnTime
                    },
                },
            ),
            None => None,
        }
    }
}

/// A card with something unfinished in front of it.
pub open spec fn blocked(card: CardModel) -> bool {
    card.done_at is None && card.blocked_by.len() > 0
}

/// A card past its deadline and not finished.
pub open spec fn late(card: CardModel, now: (int, int, int)) -> bool {
    overdue(card.done_at is Some, card.deadline, card.clock_at, now)
}

// ---------------------------------------------------------------------------
// Search
// ---------------------------------------------------------------------------

/// One character folded: the Turkish letters to their ASCII stems, any other
/// to its lower case.
pub open spec fn fold_char(c: char) -> Seq<char> {
    if c == 'İ' || c == 'I' || c == 'ı' {
        seq!['i']
    } else if c == 'ş' || c == 'Ş' {
        seq!['s']
    } else if c == 'ç' || c == 'Ç' {
        seq!['c']
    } else if c == 'ğ' || c == 'Ğ' {
        seq!['g']
    } else if c == 'ü' || c == 'Ü' {
        seq!['u']
    } else if c == 'ö' || c == 'Ö' {
        seq!['o']
    } else {
        text::lower(c)
    }
}

/// A text folded character by character.
pub open spec fn folded(s: Seq<char>) -> Seq<char>
    decreases s.len(),
{
    if s.len() == 0 {
        Seq::empty()
    } else {
        folded(s.drop_last()) + fold_char(s.last())
    }
}

/// Folds text for search: Turkish letters collapse to their ASCII stems
/// (`İ`/`I`/`ı` to `i`, `ş` to `s`, `ç` to `c`, `ğ` to `g`, `ü` to `u`, `ö` to
/// `o`), case flattens. A naive lowercase cannot stand in for this: it turns
/// `İ` into `i` plus a combining dot, and no plain-`i` query can match that.
pub fn fold(words: &str) -> (r: String)
    ensures
        r@ == folded(words@),
{
    let chars = text::chars_of(words);
    let mut r = String::new();
    let mut i: usize = 0;
    while i < chars.len()
        invariant
            i <= chars.len(),
            r@ == folded(chars@.take(i as int)),
        decreases chars.len() - i,
    {
        let c = chars[i];
        let ghost before = r@;
        match c {
            'İ' | 'I' | 'ı' => r.push('i'),
            'ş' | 'Ş' => r.push('s'),
            'ç' | 'Ç' => r.push('c'),
            'ğ' | 'Ğ' => r.push('g'),
            'ü' | 'Ü' => r.push('u'),
            'ö' | 'Ö' => r.push('o'),
            other => r.append(text::lower_char(other).as_str()),
        }
        assert(r@ =~= before + fold_char(c));
        assert(chars@.take(i + 1).drop_last() =~= chars@.take(i as int));
        i = i + 1;
    }
    assert(chars@.take(chars@.len() as int) =~= words@);
    r
}

// ---------------------------------------------------------------------------
// Narrowing
// ---------------------------------------------------------------------------

/// One pass that narrows the board down to some of its cards.
pub enum Pass {
    /// The cards whose folded key or title holds the folded query.
    Search(Seq<char>),
    /// The cards wearing the tag with this id.
    Tag(Seq<char>),
    /// The cards carrying nobody.
    Nobody,
    /// The cards carrying the member with this id.
    Member(Seq<char>),
}

impl Pass {
    /// The card stays on the board.
    pub open spec fn keeps(self, card: CardModel) -> bool {
        match self {
            Pass::Search(query) => {
                ||| text::holds_text(folded(card.task_key), folded(query))
                ||| text::holds_text(folded(card.title), folded(query))
            },
            Pass::Tag(id) => match card.tag {
                Some(tag) => tag.id == id,
                None => false,
            },
            Pass::Nobody => card.assignees.len() == 0,
            Pass::Member(id) => carries(card.assignees, id),
        }
    }
}

/// A pass with what it needs at hand: a search carries its folded query.
enum Filter<'a> {
    Search(String),
    Tag(&'a str),
    Nobody,
    Member(&'a str),
}

impl<'a> Filter<'a> {
    spec fn does(self, pass: Pass) -> bool {
        match self {
            Filter::Search(needle) => pass matches Pass::Search(query) && needle@ == folded(query),
            Filter::Tag(id) => pass == Pass::Tag(id@),
            Filter::Nobody => pass == Pass::Nobody,
            Filter::Member(id) => pass == Pass::Member(id@),
        }
    }

    fn passes(&self, card: &TaskCard, pass: Ghost<Pass>) -> (r: bool)
        requires
            self.does(pass@),
        ensures
            r == pass@.keeps(card.deep_view()),
    {
        match self {
            Filter::Search(needle) => {
                text::contains_text(fold(card.task_key.as_str()).as_str(), needle.as_str())
                    || text::contains_text(fold(card.title.as_str()).as_str(), needle.as_str())
            },
            Filter::Tag(id) => match &card.tag {
                Some(tag) => *tag.id.as_str() == **id,
                None => false,
            },
            Filter::Nobody => card.assignees.len() == 0,
            Filter::Member(id) => card.is_assigned_to(id),
        }
    }
}

/// The cards a pass leaves, in the order they stood.
pub open spec fn kept(cards: Seq<TaskCard>, pass: Pass) -> Seq<TaskCard>
    decreases cards.len(),
{
    if cards.len() == 0 {
        Seq::empty()
    } else {
        let before = kept(cards.drop_last(), pass);
        if pass.keeps(cards.last().deep_view()) {
            before.push(cards.last())
        } else {
            before
        }
    }
}

/// `after` is the board `before` with every column narrowed by one pass.
pub open spec fn narrowed(before: BoardView, after: BoardView, pass: Pass) -> bool {
    &&& after.board == before.board
    &&& after.columns@.len() == before.columns@.len()
    &&& forall|i: int|
        0 <= i < before.columns@.len() ==> {
            &&& (#[trigger] after.columns@[i]).column == before.columns@[i].column
            &&& after.columns@[i].cards@ == kept(before.columns@[i].cards@, pass)
        }
}

fn keep(cards: &mut Vec<TaskCard>, by: &Filter<'_>, pass: Ghost<Pass>)
    requires
        by.does(pass@),
    ensures
        final(cards)@ == kept(old(cards)@, pass@),
{
    let mut all: Vec<TaskCard> = Vec::new();
    std::mem::swap(cards, &mut all);
    let ghost whole = all@;
    for card in it: all
        invariant
            by.does(pass@),
            it.seq() == whole,
            cards@ == kept(whole.take(it.index() as int), pass@),
    {
        proof {
            let seen = whole.take(it.index() + 1);
            assert(seen.drop_last() =~= whole.take(it.index() as int));
            assert(seen.last() == card);
        }
        if by.passes(&card, pass) {
            cards.push(card);
        }
    }
    assert(whole.take(whole.len() as int) =~= whole);
}

// ---------------------------------------------------------------------------
// The board
// ---------------------------------------------------------------------------

/// Every card of the columns, column by column.
pub open spec fn all_cards(columns: Seq<ColumnView>) -> Seq<TaskCard>
    decreases columns.len(),
{
    if columns.len() == 0 {
        Seq::empty()
    } else {
        all_cards(columns.drop_last()) + columns.last().cards@
    }
}

/// How many of the cards are past their deadline.
pub open spec fn count_late(cards: Seq<TaskCard>, now: (int, int, int)) -> nat
    decreases cards.len(),
{
    if cards.len() == 0 {
        0
    } else {
        count_late(cards.drop_last(), now) + if late(cards.last().deep_view(), now) {
            1nat
        } else {
            0nat
        }
    }
}

/// How many of the cards are blocked.
pub open spec fn count_blocked(cards: Seq<TaskCard>) -> nat
    decreases cards.len(),
{
    if cards.len() == 0 {
        0
    } else {
        count_blocked(cards.drop_last()) + if blocked(cards.last().deep_view()) {
            1nat
        } else {
            0nat
        }
    }
}

impl BoardView {
    /// Every card on the board, column by column.
    pub fn cards(&self) -> (r: Vec<&TaskCard>)
        ensures
            r@.len() == all_cards(self.columns@).len(),
            forall|i: int|
                0 <= i < r@.len() ==> *(#[trigger] r@[i]) == all_cards(self.columns@)[i],
    {
        let mut r: Vec<&TaskCard> = Vec::new();
        let mut i: usize = 0;
        while i < self.columns.len()
            invariant
                i <= self.columns.len(),
                r@.len() == all_cards(self.columns@.take(i as int)).len(),
                forall|k: int|
                    0 <= k < r@.len() ==> *(#[trigger] r@[k]) == all_cards(
                        self.columns@.take(i as int),
                    )[k],
            decreases self.columns.len() - i,
        {
            let cards = &self.columns[i].cards;
            let ghost before = all_cards(self.columns@.take(i as int));
            let mut j: usize = 0;
            while j < cards.len()
                invariant
                    j <= cards.len(),
                    r@.len() == before.len() + j,
                    forall|k: int|
                        0 <= k < r@.len() ==> *(#[trigger] r@[k]) == (before + cards@)[k],
                decreases cards.len() - j,
            {
                r.push(&cards[j]);
                j = j + 1;
            }
            proof {
                let seen = self.columns@.take(i + 1);
                assert(seen.drop_last() =~= self.columns@.take(i as int));
                assert(seen.last() == self.columns@[i as int]);
            }
            i = i + 1;
        }
        assert(self.columns@.take(self.columns@.len() as int) =~= self.columns@);
        r
    }

    pub fn task_count(&self) -> (r: usize)
        ensures
            r == all_cards(self.columns@).len(),
    {
        self.cards().len()
    }

    pub fn is_empty(&self) -> (r: bool)
        ensures
            r == (all_cards(self.columns@).len() == 0),
    {
        self.task_count() == 0
    }

    /// The `1 overdue` chip in the filter bar.
    pub fn overdue_count(&self, now: OffsetDateTime) -> (r: usize)
        ensures
            r == count_late(all_cards(self.columns@), now@),
    {
        let cards = self.cards();
        let ghost all = all_cards(self.columns@);
        let mut count: usize = 0;
        let mut i: usize = 0;
        while i < cards.len()
            invariant
                i <= cards.len(),
                cards@.len() == all.len(),
                forall|k: int| 0 <= k < cards@.len() ==> *(#[trigger] cards@[k]) == all[k],
                count <= i,
                count == count_late(all.take(i as int), now@),
            decreases cards.len() - i,
        {
            assert(all.take(i + 1).drop_last() =~= all.take(i as int));
            if cards[i].is_overdue(now) {
                count = count + 1;
            }
            i = i + 1;
        }
        assert(all.take(all.len() as int) =~= all);
        count
    }

    /// The `2 blocked` chip beside it.
    pub fn blocked_count(&self) -> (r: usize)
        ensures
            r == count_blocked(all_cards(self.columns@)),
    {
        let cards = self.cards();
        let ghost all = all_cards(self.columns@);
        let mut count: usize = 0;
        let mut i: usize = 0;
        while i < cards.len()
            invariant
                i <= cards.len(),
                cards@.len() == all.len(),
                forall|k: int| 0 <= k < cards@.len() ==> *(#[trigger] cards@[k]) == all[k],
                count <= i,
                count == count_blocked(all.take(i as int)),
            decreases cards.len() - i,
        {
            assert(all.take(i + 1).drop_last() =~= all.take(i as int));
            if cards[i].is_blocked() {
                count = count + 1;
            }
            i = i + 1;
        }
        assert(all.take(all.len() as int) =~= all);
        count
    }

    fn narrow(&mut self, by: &Filter<'_>, pass: Ghost<Pass>)
        requires
            by.does(pass@),
        ensures
            narrowed(*old(self), *final(self), pass@),
    {
        let count: usize = self.columns.len();
        let mut i: usize = 0;
        while i < count
            invariant
                by.does(pass@),
                i <= count,
                count == self.columns@.len(),
                count == old(self).columns@.len(),
                self.board == old(self).board,
                forall|k: int|
                    0 <= k < i ==> {
                        &&& (#[trigger] self.columns@[k]).column == old(self).columns@[k].column
                        &&& self.columns@[k].cards@ == kept(old(self).columns@[k].cards@, pass@)
                    },
                forall|k: int| i <= k < count ==> self.columns@[k] == old(self).columns@[k],
            decreases count - i,
        {
            keep(&mut self.columns[i].cards, by, pass);
            i = i + 1;
        }
    }

    /// Keeps only the cards whose key or title answers `query`: a literal
    /// substring of the folded key or folded title. Nothing is
    /// pattern-matched, so there are no wildcards to escape.
    pub fn searching(&mut self, query: &str)
        ensures
            narrowed(*old(self), *final(self), Pass::Search(query@)),
    {
        let by = Filter::Search(fold(query));
        self.narrow(&by, Ghost(Pass::Search(query@)));
    }

    /// Keeps only the cards wearing `tag_id`, when one is named: the Project
    /// filter, riding the same narrowing pass as [`BoardView::searching`].
    pub fn tagged(&mut self, tag_id: Option<&str>)
        ensures
            tag_id is None ==> *final(self) == *old(self),
            tag_id matches Some(id) ==> narrowed(*old(self), *final(self), Pass::Tag(id@)),
    {
        if let Some(id) = tag_id {
            let by = Filter::Tag(id);
            self.narrow(&by, Ghost(Pass::Tag(id@)));
        }
    }

    /// Keeps only the cards carrying `assignee`, a member id, or, for the
    /// literal `none`, only the cards carrying nobody. `None` leaves the board
    /// alone.
    pub fn assigned(&mut self, assignee: Option<&str>)
        ensures
            assignee is None ==> *final(self) == *old(self),
            assignee matches Some(id) ==> narrowed(*old(self), *final(self), assignee_pass(id@)),
    {
        if let Some(id) = assignee {
            let by = if *id == *"none" {
                Filter::Nobody
            } else {
                Filter::Member(id)
            };
            self.narrow(&by, Ghost(assignee_pass(id@)));
        }
    }
}

/// The pass the assignee filter makes: `none` asks for the cards carrying
/// nobody, anything else for the cards carrying that member.
pub open spec fn assignee_pass(assignee: Seq<char>) -> Pass {
    if assignee == "none"@ {
        Pass::Nobody
    } else {
        Pass::Member(assignee)
    }
}

// ---------------------------------------------------------------------------
// Laws
// ---------------------------------------------------------------------------

/// A finished task is neither overdue nor blocked, whatever it still says.
pub proof fn done_is_never_overdue_nor_blocked(card: CardModel, now: (int, int, int))
    requires
        card.done_at is Some,
    ensures
        !late(card, now),
        !blocked(card),
{
}

/// A clock beats the day: with one, the deadline's day decides nothing.
pub proof fn the_clock_beats_the_day(
    done: bool,
    one: Option<(int, int, int)>,
    other: Option<(int, int, int)>,
    at: (int, int, int),
    now: (int, int, int),
)
    ensures
        overdue(done, one, Some(at), now) == overdue(done, other, Some(at), now),
{
}

/// What is overdue stays overdue while the clock it is read off runs on. Where
/// only a day decides, that clock must not fall behind in its offset from UTC.
pub proof fn overdue_stays_overdue(
    deadline: Option<(int, int, int)>,
    clock_at: Option<(int, int, int)>,
    now: (int, int, int),
    later: (int, int, int),
)
    requires
        overdue(false, deadline, clock_at, now),
        0 <= now.1 < 1_000_000_000,
        0 <= later.1 < 1_000_000_000,
        instant(now) <= instant(later),
        clock_at is None ==> now.2 <= later.2,
    ensures
        overdue(false, deadline, clock_at, later),
{
    assert(now.0 <= later.0);
    if clock_at is None {
        vstd::arithmetic::div_mod::lemma_div_is_ordered(
            now.0 + now.2,
            later.0 + later.2,
            86400,
        );
    }
}

/// The label and the parts are one chip: they name the same day, and the label
/// says overdue, or done, exactly where the state does.
pub proof fn label_and_parts_agree(card: CardModel, now: (int, int, int))
    ensures
        deadline_pieces(card, now) is None <==> card.done_at is None && card.deadline is None,
        match deadline_pieces(card, now) {
            None => deadline_text(card, now) == "no deadline"@,
            Some((date, DeadlineState::Done)) => deadline_text(card, now) == "done "@ + date,
            Some((date, DeadlineState::Overdue)) => late(card, now) && deadline_text(card, now)
                == date + " · overdue"@,
            Some((date, DeadlineState::OnTime)) => !late(card, now) && deadline_text(card, now)
                == date,
        },
{
}

/// A pass leaves a card exactly where it keeps it, and puts no other there.
pub proof fn a_pass_leaves_the_cards_it_keeps(cards: Seq<TaskCard>, pass: Pass, card: TaskCard)
    ensures
        kept(cards, pass).contains(card) <==> cards.contains(card) && pass.keeps(
            card.deep_view(),
        ),
        kept(cards, pass).len() <= cards.len(),
    decreases cards.len(),
{
    if cards.len() > 0 {
        let rest = cards.drop_last();
        let last = cards.last();
        let before = kept(rest, pass);
        a_pass_leaves_the_cards_it_keeps(rest, pass, card);
        assert(cards =~= rest.push(last));
        assert(cards.contains(card) <==> rest.contains(card) || card == last) by {
            if cards.contains(card) && card != last {
                let k = choose|k: int| 0 <= k < cards.len() && cards[k] == card;
                assert(rest[k] == card);
            }
            if rest.contains(card) {
                let k = choose|k: int| 0 <= k < rest.len() && rest[k] == card;
                assert(cards[k] == card);
            }
            assert(cards[cards.len() - 1] == last);
        }
        let grown = before.push(last);
        assert(grown.contains(card) <==> before.contains(card) || card == last) by {
            if grown.contains(card) && card != last {
                let k = choose|k: int| 0 <= k < grown.len() && grown[k] == card;
                assert(before[k] == card);
            }
            if before.contains(card) {
                let k = choose|k: int| 0 <= k < before.len() && before[k] == card;
                assert(grown[k] == card);
            }
            assert(grown[grown.len() - 1] == last);
        }
    }
}

/// Two passes narrow the board to the same cards in either order, and a pass
/// made twice narrows it no further.
pub proof fn passes_commute(cards: Seq<TaskCard>, one: Pass, other: Pass)
    ensures
        kept(kept(cards, one), other) == kept(kept(cards, other), one),
        kept(kept(cards, one), one) == kept(cards, one),
    decreases cards.len(),
{
    if cards.len() > 0 {
        passes_commute(cards.drop_last(), one, other);
        let last = cards.last();
        let a = kept(cards.drop_last(), one);
        let b = kept(cards.drop_last(), other);
        assert(a.push(last).drop_last() =~= a);
        assert(b.push(last).drop_last() =~= b);
    }
}

/// An empty query keeps every card.
pub proof fn an_empty_search_keeps_everything(cards: Seq<TaskCard>)
    ensures
        kept(cards, Pass::Search(Seq::empty())) == cards,
    decreases cards.len(),
{
    if cards.len() > 0 {
        an_empty_search_keeps_everything(cards.drop_last());
        let key = folded(cards.last().deep_view().task_key);
        let none = folded(Seq::<char>::empty());
        assert(none =~= Seq::<char>::empty());
        assert(text::stands_at(key, none, 0)) by {
            assert(key.subrange(0, 0) =~= none);
        }
        assert(text::holds_text(key, none));
        assert(cards =~= cards.drop_last().push(cards.last()));
    }
}

/// Folding flattens ASCII case.
pub proof fn folding_flattens_case(a: Seq<char>, b: Seq<char>)
    requires
        text::same_but_for_case(a, b),
    ensures
        folded(a) == folded(b),
    decreases a.len(),
{
    if a.len() > 0 {
        assert(text::same_but_for_case(a.drop_last(), b.drop_last())) by {
            assert forall|i: int| 0 <= i < a.drop_last().len() implies {
                &&& text::ascii(#[trigger] a.drop_last()[i])
                &&& text::ascii(b.drop_last()[i])
                &&& text::ascii_lower(a.drop_last()[i]) == text::ascii_lower(b.drop_last()[i])
            } by {
                assert(a.drop_last()[i] == a[i]);
                assert(b.drop_last()[i] == b[i]);
            }
        }
        folding_flattens_case(a.drop_last(), b.drop_last());
        let last = a.len() - 1;
        assert(text::ascii(a[last]));
        assert(fold_char(a.last()) =~= fold_char(b.last()));
    }
}

/// The human key typed in any case finds its card.
pub proof fn a_key_typed_in_any_case_finds_its_card(card: CardModel, query: Seq<char>)
    requires
        text::same_but_for_case(card.task_key, query),
    ensures
        Pass::Search(query).keeps(card),
{
    folding_flattens_case(card.task_key, query);
    text::text_holds_itself(folded(query));
}

/// A query that folds as a fragment of the key or of the title does finds the
/// card, however either was typed.
pub proof fn a_query_that_folds_alike_finds_its_card(
    card: CardModel,
    query: Seq<char>,
    from: int,
    to: int,
)
    requires
        ({
            ||| 0 <= from <= to <= card.task_key.len() && folded(query) == folded(
                card.task_key.subrange(from, to),
            )
            ||| 0 <= from <= to <= card.title.len() && folded(query) == folded(
                card.title.subrange(from, to),
            )
        }),
    ensures
        Pass::Search(query).keeps(card),
{
    if 0 <= from <= to <= card.task_key.len() && folded(query) == folded(
        card.task_key.subrange(from, to),
    ) {
        lemma_folded_holds(card.task_key, from, to);
    } else {
        lemma_folded_holds(card.title, from, to);
    }
}

/// A fragment of a title finds the card.
pub proof fn a_fragment_of_a_title_finds_its_card(card: CardModel, from: int, to: int)
    requires
        0 <= from <= to <= card.title.len(),
    ensures
        Pass::Search(card.title.subrange(from, to)).keeps(card),
{
    a_query_that_folds_alike_finds_its_card(card, card.title.subrange(from, to), from, to);
}

/// A letter as Turkish writes it and its ASCII stem fold alike, in either case.
pub proof fn turkish_letters_fold_to_their_stems(head: Seq<char>, tail: Seq<char>)
    ensures
        folded(head + seq!['İ'] + tail) == folded(head + seq!['i'] + tail),
        folded(head + seq!['I'] + tail) == folded(head + seq!['i'] + tail),
        folded(head + seq!['ı'] + tail) == folded(head + seq!['i'] + tail),
        folded(head + seq!['ş'] + tail) == folded(head + seq!['s'] + tail),
        folded(head + seq!['Ş'] + tail) == folded(head + seq!['s'] + tail),
        folded(head + seq!['ç'] + tail) == folded(head + seq!['c'] + tail),
        folded(head + seq!['Ç'] + tail) == folded(head + seq!['c'] + tail),
        folded(head + seq!['ğ'] + tail) == folded(head + seq!['g'] + tail),
        folded(head + seq!['Ğ'] + tail) == folded(head + seq!['g'] + tail),
        folded(head + seq!['ü'] + tail) == folded(head + seq!['u'] + tail),
        folded(head + seq!['Ü'] + tail) == folded(head + seq!['u'] + tail),
        folded(head + seq!['ö'] + tail) == folded(head + seq!['o'] + tail),
        folded(head + seq!['Ö'] + tail) == folded(head + seq!['o'] + tail),
{
    lemma_letters_fold_alike(head, 'İ', 'i', tail);
    lemma_letters_fold_alike(head, 'I', 'i', tail);
    lemma_letters_fold_alike(head, 'ı', 'i', tail);
    lemma_letters_fold_alike(head, 'ş', 's', tail);
    lemma_letters_fold_alike(head, 'Ş', 's', tail);
    lemma_letters_fold_alike(head, 'ç', 'c', tail);
    lemma_letters_fold_alike(head, 'Ç', 'c', tail);
    lemma_letters_fold_alike(head, 'ğ', 'g', tail);
    lemma_letters_fold_alike(head, 'Ğ', 'g', tail);
    lemma_letters_fold_alike(head, 'ü', 'u', tail);
    lemma_letters_fold_alike(head, 'Ü', 'u', tail);
    lemma_letters_fold_alike(head, 'ö', 'o', tail);
    lemma_letters_fold_alike(head, 'Ö', 'o', tail);
}

proof fn lemma_letters_fold_alike(head: Seq<char>, letter: char, stem: char, tail: Seq<char>)
    requires
        fold_char(letter) == fold_char(stem),
    ensures
        folded(head + seq![letter] + tail) == folded(head + seq![stem] + tail),
{
    folding_joins(head + seq![letter], tail);
    folding_joins(head + seq![stem], tail);
    folding_joins(head, seq![letter]);
    folding_joins(head, seq![stem]);
    reveal_with_fuel(folded, 2);
    assert(seq![letter].drop_last() =~= Seq::empty());
    assert(seq![stem].drop_last() =~= Seq::empty());
    assert(folded(seq![letter]) =~= fold_char(letter));
    assert(folded(seq![stem]) =~= fold_char(stem));
}

/// One of the letters Turkish adds to the ASCII ones.
pub open spec fn turkish_letter(c: char) -> bool {
    ||| c == 'İ' || c == 'ı'
    ||| c == 'ş' || c == 'Ş'
    ||| c == 'ç' || c == 'Ç'
    ||| c == 'ğ' || c == 'Ğ'
    ||| c == 'ü' || c == 'Ü'
    ||| c == 'ö' || c == 'Ö'
}

/// Folding a text of ASCII and Turkish letters leaves neither a Turkish letter
/// nor an ASCII capital in it.
pub proof fn folding_leaves_plain_letters(s: Seq<char>, i: int)
    requires
        forall|k: int|
            0 <= k < s.len() ==> text::ascii(#[trigger] s[k]) || turkish_letter(s[k]),
        0 <= i < folded(s).len(),
    ensures
        text::ascii(folded(s)[i]),
        !turkish_letter(folded(s)[i]),
        !('A' <= folded(s)[i] && folded(s)[i] <= 'Z'),
    decreases s.len(),
{
    let rest = s.drop_last();
    let last = fold_char(s.last());
    assert(text::ascii(s[s.len() - 1]) || turkish_letter(s[s.len() - 1]));
    if i < folded(rest).len() {
        assert forall|k: int| 0 <= k < rest.len() implies text::ascii(#[trigger] rest[k])
            || turkish_letter(rest[k]) by {
            assert(rest[k] == s[k]);
        }
        folding_leaves_plain_letters(rest, i);
    } else {
        assert(folded(s)[i] == last[i - folded(rest).len()]);
    }
}

/// A text of ASCII and Turkish letters folds once: folding it again changes
/// nothing.
pub proof fn folding_folds_once(s: Seq<char>)
    requires
        forall|k: int|
            0 <= k < s.len() ==> text::ascii(#[trigger] s[k]) || turkish_letter(s[k]),
    ensures
        folded(folded(s)) == folded(s),
{
    assert forall|i: int| 0 <= i < folded(s).len() implies fold_char(#[trigger] folded(s)[i])
        == seq![folded(s)[i]] by {
        folding_leaves_plain_letters(s, i);
        assert(fold_char(folded(s)[i]) =~= seq![folded(s)[i]]);
    }
    lemma_settled_text_folds_to_itself(folded(s));
}

proof fn lemma_settled_text_folds_to_itself(s: Seq<char>)
    requires
        forall|i: int| 0 <= i < s.len() ==> fold_char(#[trigger] s[i]) == seq![s[i]],
    ensures
        folded(s) == s,
    decreases s.len(),
{
    if s.len() > 0 {
        let rest = s.drop_last();
        assert forall|i: int| 0 <= i < rest.len() implies fold_char(#[trigger] rest[i])
            == seq![rest[i]] by {
            assert(rest[i] == s[i]);
        }
        lemma_settled_text_folds_to_itself(rest);
        assert(fold_char(s[s.len() - 1]) == seq![s[s.len() - 1]]);
        assert(folded(s) =~= s);
    }
}

/// Folding keeps what stands in a text standing in it.
proof fn lemma_folded_holds(s: Seq<char>, from: int, to: int)
    requires
        0 <= from <= to <= s.len(),
    ensures
        text::holds_text(folded(s), folded(s.subrange(from, to))),
{
    let head = s.take(from);
    let part = s.subrange(from, to);
    let tail = s.skip(to);
    folding_joins(head, part);
    folding_joins(head + part, tail);
    assert(s =~= head + part + tail);
    let at = folded(head).len() as int;
    assert(folded(s).subrange(at, at + folded(part).len()) =~= folded(part));
    assert(text::stands_at(folded(s), folded(part), at));
}

/// Folding goes character by character, whatever stands around it.
pub proof fn folding_joins(a: Seq<char>, b: Seq<char>)
    ensures
        folded(a + b) == folded(a) + folded(b),
    decreases b.len(),
{
    if b.len() == 0 {
        assert(a + b =~= a);
        assert(folded(a) + folded(b) =~= folded(a));
    } else {
        folding_joins(a, b.drop_last());
        assert((a + b).drop_last() =~= a + b.drop_last());
        assert((a + b).last() == b.last());
        assert(folded(a + b) =~= folded(a) + folded(b));
    }
}

// ---------------------------------------------------------------------------
// What the chips say
// ---------------------------------------------------------------------------

/// The names of the months in a row, three letters each.
pub open spec fn month_names() -> Seq<char> {
    "JanFebMarAprMayJunJulAugSepOctNovDec"@
}

/// A day's label is its month's three letters, a space and two digits whose
/// number is the day of the month.
pub proof fn a_label_names_its_day(day: (int, int, int))
    requires
        real_day(day),
    ensures
        day_text(day).len() == 6,
        day_text(day).take(3) == month_names().subrange(3 * (day.1 - 1), 3 * day.1),
        day_text(day)[3] == ' ',
        forall|i: int|
            4 <= i < 6 ==> '0' <= #[trigger] day_text(day)[i] && day_text(day)[i] <= '9',
        text::number(day_text(day).skip(4)) == day.2,
{
    let name = month_name(day.1);
    lemma_month_name(day.1);
    reveal_strlit(" ");
    let tens = text::digit((day.2 / 10) as nat);
    let ones = text::digit((day.2 % 10) as nat);
    assert(day_text(day).len() == 6);
    assert(day_text(day).take(3) =~= name);
    assert(day_text(day).skip(4) =~= Seq::empty().push(tens).push(ones));
    text::digits_count_in_tens(Seq::empty(), (day.2 / 10) as nat);
    text::digits_count_in_tens(Seq::empty().push(tens), (day.2 % 10) as nat);
}

proof fn lemma_month_name(month: int)
    requires
        1 <= month <= 12,
    ensures
        month_name(month).len() == 3,
        month_name(month) == month_names().subrange(3 * (month - 1), 3 * month),
{
    reveal_strlit("JanFebMarAprMayJunJulAugSepOctNovDec");
    if month <= 6 {
        lemma_first_months(month);
    } else {
        lemma_last_months(month);
    }
}

proof fn lemma_first_months(month: int)
    requires
        1 <= month <= 6,
    ensures
        month_name(month) =~= "JanFebMarAprMayJunJulAugSepOctNovDec"@.subrange(
            3 * (month - 1),
            3 * month,
        ),
{
    reveal_strlit("JanFebMarAprMayJunJulAugSepOctNovDec");
    if month == 1 {
        reveal_strlit("Jan");
    } else if month == 2 {
        reveal_strlit("Feb");
    } else if month == 3 {
        reveal_strlit("Mar");
    } else if month == 4 {
        reveal_strlit("Apr");
    } else if month == 5 {
        reveal_strlit("May");
    } else {
        reveal_strlit("Jun");
    }
}

proof fn lemma_last_months(month: int)
    requires
        7 <= month <= 12,
    ensures
        month_name(month) =~= "JanFebMarAprMayJunJulAugSepOctNovDec"@.subrange(
            3 * (month - 1),
            3 * month,
        ),
{
    reveal_strlit("JanFebMarAprMayJunJulAugSepOctNovDec");
    if month == 7 {
        reveal_strlit("Jul");
    } else if month == 8 {
        reveal_strlit("Aug");
    } else if month == 9 {
        reveal_strlit("Sep");
    } else if month == 10 {
        reveal_strlit("Oct");
    } else if month == 11 {
        reveal_strlit("Nov");
    } else {
        reveal_strlit("Dec");
    }
}

/// Two days of one month never share a label.
pub proof fn days_of_a_month_are_told_apart(one: (int, int, int), other: (int, int, int))
    requires
        real_day(one),
        real_day(other),
        one.2 != other.2,
    ensures
        day_text(one) != day_text(other),
{
    a_label_names_its_day(one);
    a_label_names_its_day(other);
}

/// With a clock a task is overdue from the very instant on, and not a nanosecond
/// before it.
pub proof fn a_clock_is_overdue_from_its_instant(
    deadline: Option<(int, int, int)>,
    at: (int, int, int),
    now: (int, int, int),
)
    ensures
        instant(now) == instant(at) ==> overdue(false, deadline, Some(at), now),
        instant(now) > instant(at) ==> overdue(false, deadline, Some(at), now),
        instant(now) < instant(at) ==> !overdue(false, deadline, Some(at), now),
{
}

/// With a day alone a task is overdue from the midnight that ends the day, read
/// off the local clock; a task with neither is never overdue.
pub proof fn a_day_is_overdue_from_its_midnight(day: (int, int, int), now: (int, int, int))
    ensures
        now.0 + now.2 >= 86400 * (day_number(day) + 1) ==> overdue(false, Some(day), None, now),
        now.0 + now.2 < 86400 * (day_number(day) + 1) ==> !overdue(false, Some(day), None, now),
        !overdue(false, None, None, now),
        !overdue(true, Some(day), None, now),
{
}

/// A card is late as its own deadline and clock say, and blocked while it is open
/// and a key stands in front of it.
pub proof fn a_card_is_late_by_its_own_facts(card: CardModel, now: (int, int, int))
    ensures
        card.done_at is Some ==> !late(card, now),
        card.done_at is None ==> late(card, now) == overdue(
            false,
            card.deadline,
            card.clock_at,
            now,
        ),
        blocked(card) <==> card.done_at is None && exists|key: Seq<char>| #[trigger]
            card.blocked_by.contains(key),
{
    if card.blocked_by.len() > 0 {
        assert(card.blocked_by.contains(card.blocked_by[0]));
    }
}

/// The chip of a card names the day it was finished on, or the day it is due, and
/// says the one from the other; a card with neither says that it has none.
pub proof fn a_chip_says_what_stands(card: CardModel, now: (int, int, int))
    ensures
        card.done_at matches Some(done) ==> deadline_text(card, now) == "done "@ + day_text(
            local_date(done),
        ) && deadline_pieces(card, now) == Some((day_text(local_date(done)), DeadlineState::Done)),
        card.done_at is None && card.deadline is Some && late(card, now) ==> deadline_text(card, now)
            == day_text(card.deadline->0) + " · overdue"@ && deadline_pieces(card, now) == Some(
            (day_text(card.deadline->0), DeadlineState::Overdue),
        ),
        card.done_at is None && card.deadline is Some && !late(card, now) ==> deadline_text(
            card,
            now,
        ) == day_text(card.deadline->0) && deadline_pieces(card, now) == Some(
            (day_text(card.deadline->0), DeadlineState::OnTime),
        ),
        card.done_at is None && card.deadline is None ==> deadline_text(card, now)
            == "no deadline"@ && deadline_pieces(card, now) is None,
{
}

/// A letter or a digit that opens a word: nothing stands before it, or white
/// space does.
pub open spec fn opens_a_word(name: Seq<char>, i: int) -> bool {
    &&& 0 <= i < name.len()
    &&& text::alphanumeric(name[i])
    &&& !text::white(name[i])
    &&& i == 0 || text::white(name[i - 1])
}

/// The initials of a name are the capitals of the first two letters that open a
/// word, or of the only one; a name without any is a question mark.
pub proof fn initials_open_the_first_words(name: Seq<char>, i: int, j: int)
    requires
        0 <= i <= name.len(),
        forall|k: int| 0 <= k < i ==> !#[trigger] opens_a_word(name, k),
        i < name.len() ==> opens_a_word(name, i),
        i < j <= name.len() || i == name.len(),
        forall|k: int| i < k < j ==> !#[trigger] opens_a_word(name, k),
        i < j < name.len() ==> opens_a_word(name, j),
    ensures
        i == name.len() ==> initials_of(name) == seq!['?'],
        i < name.len() && j == name.len() ==> initials_of(name) == text::upper(name[i]),
        i < j < name.len() ==> initials_of(name) == text::uppercase(seq![name[i], name[j]]),
{
    let whole = name.len() as int;
    assert(name.take(whole) =~= name);
    assert(name.take(0) =~= Seq::empty());
    lemma_no_letter_between(name, 0, i);
    if i < whole {
        lemma_one_more_letter(name, i);
        lemma_no_letter_between(name, i + 1, j);
        if j < whole {
            lemma_one_more_letter(name, j);
            lemma_letters_stay(name, j + 1, whole);
            lemma_two_initials(name, name[i], name[j]);
        } else {
            lemma_one_initial(name, name[i]);
        }
    }
}

proof fn lemma_one_initial(name: Seq<char>, one: char)
    requires
        opening_letters(name) == Seq::<char>::empty().push(one),
    ensures
        initials_of(name) == text::upper(one),
{
}

proof fn lemma_two_initials(name: Seq<char>, one: char, other: char)
    requires
        Seq::<char>::empty().push(one).push(other).is_prefix_of(opening_letters(name)),
    ensures
        initials_of(name) == text::uppercase(seq![one, other]),
{
    let letters = opening_letters(name);
    let two = Seq::<char>::empty().push(one).push(other);
    assert(two[0] == one && two[1] == other);
    assert(letters[0] == one && letters[1] == other);
    assert(seq![letters[0], letters[1]] =~= seq![one, other]);
}

proof fn lemma_no_letter_between(name: Seq<char>, from: int, to: int)
    requires
        0 <= from <= to <= name.len(),
        forall|k: int| from <= k < to ==> !#[trigger] opens_a_word(name, k),
    ensures
        opening_letters(name.take(to)) == opening_letters(name.take(from)),
    decreases to,
{
    if from < to {
        let seen = name.take(to);
        lemma_no_letter_between(name, from, to - 1);
        assert(!opens_a_word(name, to - 1));
        assert(seen.drop_last() =~= name.take(to - 1));
        assert(seen.last() == name[to - 1]);
        assert(to >= 2 ==> seen[seen.len() - 2] == name[to - 2]);
    }
}

proof fn lemma_one_more_letter(name: Seq<char>, i: int)
    requires
        opens_a_word(name, i),
    ensures
        opening_letters(name.take(i + 1)) == opening_letters(name.take(i)).push(name[i]),
{
    let seen = name.take(i + 1);
    assert(seen.drop_last() =~= name.take(i));
    assert(seen.last() == name[i]);
    assert(i > 0 ==> seen[seen.len() - 2] == name[i - 1]);
}

proof fn lemma_letters_stay(name: Seq<char>, from: int, to: int)
    requires
        0 <= from <= to <= name.len(),
    ensures
        opening_letters(name.take(from)).is_prefix_of(opening_letters(name.take(to))),
    decreases to,
{
    if from < to {
        lemma_letters_stay(name, from, to - 1);
        assert(name.take(to).drop_last() =~= name.take(to - 1));
    }
}

// ---------------------------------------------------------------------------
// What the filters leave
// ---------------------------------------------------------------------------

/// A text without ASCII capitals and beyond ASCII folds to itself, and an ASCII
/// capital to its small letter.
pub proof fn plain_text_folds_to_itself(s: Seq<char>, head: Seq<char>, capital: char)
    requires
        forall|i: int|
            0 <= i < s.len() ==> text::ascii(#[trigger] s[i]) && !('A' <= s[i] && s[i] <= 'Z'),
        'A' <= capital && capital <= 'Z',
    ensures
        folded(s) == s,
        folded(head.push(capital)) == folded(head).push(((capital as u32) + 32) as char),
{
    assert forall|i: int| 0 <= i < s.len() implies fold_char(#[trigger] s[i]) == seq![s[i]] by {
        assert(text::ascii(s[i]));
        assert(fold_char(s[i]) =~= seq![s[i]]);
    }
    lemma_settled_text_folds_to_itself(s);
    assert(head.push(capital).drop_last() =~= head);
    assert(folded(head.push(capital)) =~= folded(head).push(((capital as u32) + 32) as char));
}

/// A character beyond ASCII that is no Turkish letter folds to its lower case.
pub proof fn other_letters_fold_to_lower_case(head: Seq<char>, c: char)
    requires
        !text::ascii(c),
        !turkish_letter(c),
    ensures
        folded(head.push(c)) == folded(head) + text::unicode_lower(c),
{
    assert(head.push(c).drop_last() =~= head);
}

/// One folded text stands within another.
pub open spec fn folds_within(whole: Seq<char>, part: Seq<char>) -> bool {
    exists|front: Seq<char>, behind: Seq<char>|
        folded(whole) == #[trigger] (front + folded(part) + behind)
}

proof fn lemma_kept_is_picked(cards: Seq<TaskCard>, pass: Pass, wanted: spec_fn(TaskCard) -> bool)
    requires
        forall|card: TaskCard| #[trigger] wanted(card) == pass.keeps(card.deep_view()),
    ensures
        kept(cards, pass) == cards.filter(wanted),
    decreases cards.len(),
{
    reveal(Seq::filter);
    if cards.len() > 0 {
        lemma_kept_is_picked(cards.drop_last(), pass, wanted);
    }
}

/// The board is the same board with the same columns, and of the cards exactly the
/// wanted ones are left, in the order they stood.
pub open spec fn leaves_only(
    before: BoardView,
    after: BoardView,
    wanted: spec_fn(TaskCard) -> bool,
) -> bool {
    &&& after.board == before.board
    &&& after.columns@.len() == before.columns@.len()
    &&& forall|i: int|
        0 <= i < before.columns@.len() ==> {
            &&& (#[trigger] after.columns@[i]).column == before.columns@[i].column
            &&& after.columns@[i].cards@ == before.columns@[i].cards@.filter(wanted)
        }
}

proof fn lemma_narrowing_leaves(
    before: BoardView,
    after: BoardView,
    pass: Pass,
    wanted: spec_fn(TaskCard) -> bool,
)
    requires
        narrowed(before, after, pass),
        forall|card: TaskCard| #[trigger] wanted(card) == pass.keeps(card.deep_view()),
    ensures
        leaves_only(before, after, wanted),
{
    assert forall|i: int| 0 <= i < before.columns@.len() implies {
        &&& (#[trigger] after.columns@[i]).column == before.columns@[i].column
        &&& after.columns@[i].cards@ == before.columns@[i].cards@.filter(wanted)
    } by {
        lemma_kept_is_picked(before.columns@[i].cards@, pass, wanted);
    }
}

/// A search leaves exactly the cards whose folded key or folded title has the
/// folded query standing in it.
pub proof fn a_search_leaves_what_holds_the_query(
    before: BoardView,
    after: BoardView,
    query: Seq<char>,
)
    requires
        narrowed(before, after, Pass::Search(query)),
    ensures
        leaves_only(
            before,
            after,
            |card: TaskCard|
                folds_within(card.task_key@, query) || folds_within(card.title@, query),
        ),
{
    let wanted = |card: TaskCard|
        folds_within(card.task_key@, query) || folds_within(card.title@, query);
    assert forall|card: TaskCard| #[trigger] wanted(card) == Pass::Search(query).keeps(
        card.deep_view(),
    ) by {
        text::holding_is_standing_within(folded(card.task_key@), folded(query));
        text::holding_is_standing_within(folded(card.title@), folded(query));
    }
    lemma_narrowing_leaves(before, after, Pass::Search(query), wanted);
}

/// A card of which neither the key nor the title holds the query is not on the
/// narrowed board.
pub proof fn a_search_rules_out_the_rest(
    before: BoardView,
    after: BoardView,
    query: Seq<char>,
    i: int,
    card: TaskCard,
)
    requires
        narrowed(before, after, Pass::Search(query)),
        0 <= i < after.columns@.len(),
        !folds_within(card.task_key@, query),
        !folds_within(card.title@, query),
    ensures
        !after.columns@[i].cards@.contains(card),
{
    let wanted = |card: TaskCard|
        folds_within(card.task_key@, query) || folds_within(card.title@, query);
    a_search_leaves_what_holds_the_query(before, after, query);
    let cards = before.columns@[i].cards@;
    assert(after.columns@[i].cards@ == cards.filter(wanted));
    if cards.filter(wanted).contains(card) {
        let k = choose|k: int| 0 <= k < cards.filter(wanted).len() && cards.filter(wanted)[k] == card;
        cards.lemma_filter_pred(wanted, k);
    }
}

/// The Project filter leaves exactly the cards that wear the tag.
pub proof fn a_tag_leaves_the_cards_wearing_it(
    before: BoardView,
    after: BoardView,
    id: Seq<char>,
)
    requires
        narrowed(before, after, Pass::Tag(id)),
    ensures
        leaves_only(
            before,
            after,
            |card: TaskCard| card.tag is Some && card.tag->0.id@ == id,
        ),
{
    lemma_narrowing_leaves(
        before,
        after,
        Pass::Tag(id),
        |card: TaskCard| card.tag is Some && card.tag->0.id@ == id,
    );
}

/// The assignee filter leaves exactly the cards that carry the member it names,
/// or, for `none`, the cards that carry nobody.
pub proof fn an_assignee_leaves_the_cards_carrying_them(
    before: BoardView,
    after: BoardView,
    assignee: Seq<char>,
)
    requires
        narrowed(before, after, assignee_pass(assignee)),
    ensures
        assignee == "none"@ ==> leaves_only(
            before,
            after,
            |card: TaskCard| card.assignees@.len() == 0,
        ),
        assignee != "none"@ ==> leaves_only(
            before,
            after,
            |card: TaskCard|
                exists|k: int|
                    0 <= k < card.assignees@.len() && (#[trigger] card.assignees@[k]).id@
                        == assignee,
        ),
{
    if assignee == "none"@ {
        lemma_narrowing_leaves(
            before,
            after,
            assignee_pass(assignee),
            |card: TaskCard| card.assignees@.len() == 0,
        );
    } else {
        let wanted = |card: TaskCard|
            exists|k: int|
                0 <= k < card.assignees@.len() && (#[trigger] card.assignees@[k]).id@ == assignee;
        assert forall|card: TaskCard| #[trigger] wanted(card) == assignee_pass(assignee).keeps(
            card.deep_view(),
        ) by {
            lemma_carrying(card, assignee);
        }
        lemma_narrowing_leaves(before, after, assignee_pass(assignee), wanted);
    }
}

proof fn lemma_carrying(card: TaskCard, id: Seq<char>)
    ensures
        carries(card.deep_view().assignees, id) <==> exists|k: int|
            0 <= k < card.assignees@.len() && (#[trigger] card.assignees@[k]).id@ == id,
{
    let people = card.deep_view().assignees;
    assert(people.len() == card.assignees@.len());
    assert(forall|k: int|
        0 <= k < people.len() ==> (#[trigger] people[k]).id == card.assignees@[k].id@);
    if carries(people, id) {
        let k = choose|k: int| 0 <= k < people.len() && (#[trigger] people[k]).id == id;
        assert(card.assignees@[k].id@ == id);
    }
    if exists|k: int| 0 <= k < card.assignees@.len() && (#[trigger] card.assignees@[k]).id@ == id {
        let k = choose|k: int|
            0 <= k < card.assignees@.len() && (#[trigger] card.assignees@[k]).id@ == id;
        assert(people[k].id == id);
    }
}

/// The cards of a board are those of its columns, one column after the other.
pub proof fn the_cards_of_a_board_are_its_columns(columns: Seq<ColumnView>)
    ensures
        all_cards(columns) == columns.map_values(|c: ColumnView| c.cards@).flatten(),
    decreases columns.len(),
{
    let cards = |c: ColumnView| c.cards@;
    let each = columns.map_values(cards);
    if columns.len() > 0 {
        let rest = columns.drop_last();
        the_cards_of_a_board_are_its_columns(rest);
        assert(each.drop_last() =~= rest.map_values(cards));
        assert(each =~= each.drop_last().push(each.last()));
        Seq::lemma_flatten_push(each.drop_last(), each.last());
    } else {
        assert(each =~= Seq::<Seq<TaskCard>>::empty());
    }
    assert(all_cards(columns) =~= each.flatten());
}

/// The counts beside the filters count the cards they speak of, each once.
pub proof fn the_chips_count_their_cards(cards: Seq<TaskCard>, now: (int, int, int))
    ensures
        count_late(cards, now) == cards.filter(
            |card: TaskCard| late(card.deep_view(), now),
        ).len(),
        count_blocked(cards) == cards.filter(|card: TaskCard| blocked(card.deep_view())).len(),
    decreases cards.len(),
{
    reveal(Seq::filter);
    if cards.len() > 0 {
        the_chips_count_their_cards(cards.drop_last(), now);
    }
}

/// Rows that stand for the same task agree in everything a task has: nothing of a
/// row is left out of what it stands for.
pub proof fn a_row_stands_for_all_it_holds(one: TaskRow, other: TaskRow)
    requires
        one.deep_view() == other.deep_view(),
    ensures
        one.id@ == other.id@,
        one.task_key@ == other.task_key@,
        one.title@ == other.title@,
        one.column_id@ == other.column_id@,
        one.deadline.deep_view() == other.deadline.deep_view(),
        one.clock_at.deep_view() == other.clock_at.deep_view(),
        one.position == other.position,
        one.done_at.deep_view() == other.done_at.deep_view(),
        one.parent_id.deep_view() == other.parent_id.deep_view(),
        one.tag is Some <==> other.tag is Some,
        one.tag is Some ==> one.tag->0.id@ == other.tag->0.id@ && one.tag->0.name@
            == other.tag->0.name@,
{
    let a = one.tag.deep_view();
    let b = other.tag.deep_view();
    assert(a == b);
}

/// A card stands for what it shows: the model of a card gives back each thing the
/// card holds.
pub proof fn a_card_stands_for_all_it_shows(card: TaskCard, k: int)
    ensures
        card.deep_view().id == card.id@,
        card.deep_view().task_key == card.task_key@,
        card.deep_view().title == card.title@,
        card.deep_view().column_id == card.column_id@,
        card.deep_view().deadline == card.deadline.deep_view(),
        card.deep_view().clock_at == card.clock_at.deep_view(),
        card.deep_view().done_at == card.done_at.deep_view(),
        card.deep_view().position == card.position,
        card.deep_view().comment_count == card.comment_count,
        card.deep_view().subtask_total == card.subtask_total,
        card.deep_view().subtask_done == card.subtask_done,
        card.deep_view().assignees.len() == card.assignees@.len(),
        0 <= k < card.assignees@.len() ==> {
            &&& card.deep_view().assignees[k].id == card.assignees@[k].id@
            &&& card.deep_view().assignees[k].display_name == card.assignees@[k].display_name@
            &&& card.deep_view().assignees[k].photo_version == card.assignees@[k].photo_version
        },
        card.deep_view().blocked_by.len() == card.blocked_by@.len(),
        0 <= k < card.blocked_by@.len() ==> card.deep_view().blocked_by[k] == card.blocked_by@[k]@,
        card.deep_view().blocks.len() == card.blocks@.len(),
        0 <= k < card.blocks@.len() ==> card.deep_view().blocks[k] == card.blocks@[k]@,
        card.tag matches Some(tag) ==> (card.deep_view().tag matches Some(shown) && shown.id
            == tag.id@ && shown.name == tag.name@),
        card.tag is None ==> card.deep_view().tag is None,
{
}

/// A board and its columns stand for what they hold.
pub proof fn a_board_stands_for_all_it_shows(view: BoardView, k: int, c: int)
    ensures
        view.deep_view().board.id == view.board.id@,
        view.deep_view().board.name == view.board.name@,
        view.deep_view().board.task_prefix == view.board.task_prefix@,
        view.deep_view().columns.len() == view.columns@.len(),
        0 <= k < view.columns@.len() ==> {
            let shown = view.deep_view().columns[k];
            let column = view.columns@[k];
            &&& shown.column.id == column.column.id@
            &&& shown.column.name == column.column.name@
            &&& shown.column.position == column.column.position
            &&& shown.column.is_done == column.column.is_done
            &&& shown.cards.len() == column.cards@.len()
            &&& 0 <= c < column.cards@.len() ==> shown.cards[c] == column.cards@[c].deep_view()
        },
{
}

} // verus!
