//! The board from its six flat sweeps: what a card carries is joined here.

use crate::board::{
    BoardCards, BoardMeta, BoardModel, BoardView, CardModel, Column, ColumnCards, ColumnModel,
    ColumnView, Person, PersonModel, TaskCard, TaskModel, TaskRow,
};
use crate::clock::{day_before, day_number, day_order_is_day_number_order, real_day};
use crate::groups::Groups;
use crate::order::{
    decides, in_order, ordered, ordering_forgets_what_was, ordering_is_stable, ordering_orders,
    ordering_rearranges, rank_of, ranking_with, ranks, same_items, sort, views, Ranked,
};
use crate::text;
use vstd::hash_map::StringHashMap;
use vstd::prelude::*;

verus! {

// ---------------------------------------------------------------------------
// What a card carries
// ---------------------------------------------------------------------------

/// The whole board's worth of everything a card carries: the tasks, `(task id,
/// person)` for every assignment, `(task id, comments)`, and `(blocked task id,
/// blocking task id)` for every dependency.
pub struct Sweeps {
    pub tasks: Seq<TaskModel>,
    pub assignees: Seq<(Seq<char>, PersonModel)>,
    pub comment_counts: Seq<(Seq<char>, u32)>,
    pub dependencies: Seq<(Seq<char>, Seq<char>)>,
}

/// The task an id names: the last row that has it.
pub open spec fn task_named(tasks: Seq<TaskModel>, id: Seq<char>) -> Option<TaskModel>
    decreases tasks.len(),
{
    if tasks.len() == 0 {
        None
    } else if tasks.last().id == id {
        Some(tasks.last())
    } else {
        task_named(tasks.drop_last(), id)
    }
}

/// The key a dependency shows for its other end: none for a task of another
/// board, and none for a finished one, since nothing waits on that.
pub open spec fn open_key(tasks: Seq<TaskModel>, id: Seq<char>) -> Option<Seq<char>> {
    match task_named(tasks, id) {
        Some(task) => if task.done_at is None {
            Some(task.task_key)
        } else {
            None
        },
        None => None,
    }
}

/// The people assigned to a task, in the order of the sweep.
pub open spec fn people_of(
    assignees: Seq<(Seq<char>, PersonModel)>,
    id: Seq<char>,
) -> Seq<PersonModel>
    decreases assignees.len(),
{
    if assignees.len() == 0 {
        Seq::empty()
    } else {
        let before = people_of(assignees.drop_last(), id);
        if assignees.last().0 == id {
            before.push(assignees.last().1)
        } else {
            before
        }
    }
}

/// How many comments a task has: the last count the sweep gives for it.
pub open spec fn comments_on(counts: Seq<(Seq<char>, u32)>, id: Seq<char>) -> u32
    decreases counts.len(),
{
    if counts.len() == 0 {
        0
    } else if counts.last().0 == id {
        counts.last().1
    } else {
        comments_on(counts.drop_last(), id)
    }
}

/// The keys of the open tasks in front of a task.
pub open spec fn blockers_of(
    dependencies: Seq<(Seq<char>, Seq<char>)>,
    tasks: Seq<TaskModel>,
    id: Seq<char>,
) -> Seq<Seq<char>>
    decreases dependencies.len(),
{
    if dependencies.len() == 0 {
        Seq::empty()
    } else {
        let before = blockers_of(dependencies.drop_last(), tasks, id);
        let (blocked, blocking) = dependencies.last();
        match open_key(tasks, blocking) {
            Some(key) => if blocked == id {
                before.push(key)
            } else {
                before
            },
            None => before,
        }
    }
}

/// The keys of the open tasks waiting on a task.
pub open spec fn waiting_on(
    dependencies: Seq<(Seq<char>, Seq<char>)>,
    tasks: Seq<TaskModel>,
    id: Seq<char>,
) -> Seq<Seq<char>>
    decreases dependencies.len(),
{
    if dependencies.len() == 0 {
        Seq::empty()
    } else {
        let before = waiting_on(dependencies.drop_last(), tasks, id);
        let (blocked, blocking) = dependencies.last();
        match open_key(tasks, blocked) {
            Some(key) => if blocking == id {
                before.push(key)
            } else {
                before
            },
            None => before,
        }
    }
}

/// How many subtasks a task has.
pub open spec fn subtasks_of(tasks: Seq<TaskModel>, id: Seq<char>) -> nat
    decreases tasks.len(),
{
    if tasks.len() == 0 {
        0
    } else {
        subtasks_of(tasks.drop_last(), id) + if tasks.last().parent_id == Some(id) {
            1nat
        } else {
            0nat
        }
    }
}

/// How many of a task's subtasks are finished.
pub open spec fn finished_subtasks_of(tasks: Seq<TaskModel>, id: Seq<char>) -> nat
    decreases tasks.len(),
{
    if tasks.len() == 0 {
        0
    } else {
        finished_subtasks_of(tasks.drop_last(), id) + if tasks.last().parent_id == Some(id)
            && tasks.last().done_at is Some {
            1nat
        } else {
            0nat
        }
    }
}

/// One of the first `n` tasks has this id and gets a card.
pub open spec fn carded(tasks: Seq<TaskModel>, n: int, id: Seq<char>) -> bool {
    exists|j: int| 0 <= j < n && (#[trigger] tasks[j]).parent_id is None && tasks[j].id == id
}

/// The card of the task at `i`. Ids name one task each; where rows repeat one,
/// the first card of an id carries what was gathered under it and the others
/// carry nothing.
pub open spec fn card_of(s: Sweeps, i: int) -> CardModel {
    let task = s.tasks[i];
    let first = !carded(s.tasks, i, task.id);
    CardModel {
        id: task.id,
        task_key: task.task_key,
        title: task.title,
        column_id: task.column_id,
        deadline: task.deadline,
        clock_at: task.clock_at,
        done_at: task.done_at,
        position: task.position,
        assignees: if first {
            people_of(s.assignees, task.id)
        } else {
            Seq::empty()
        },
        comment_count: comments_on(s.comment_counts, task.id),
        blocked_by: if first {
            blockers_of(s.dependencies, s.tasks, task.id)
        } else {
            Seq::empty()
        },
        blocks: if first {
            waiting_on(s.dependencies, s.tasks, task.id)
        } else {
            Seq::empty()
        },
        subtask_total: subtasks_of(s.tasks, task.id) as int,
        subtask_done: finished_subtasks_of(s.tasks, task.id) as int,
        tag: task.tag,
    }
}

/// The cards the first `n` tasks put in a column. A subtask gets none: it is
/// counted on its parent's.
pub open spec fn cards_in(s: Sweeps, column_id: Seq<char>, n: int) -> Seq<CardModel>
    decreases n,
{
    if n <= 0 {
        Seq::empty()
    } else {
        let before = cards_in(s, column_id, n - 1);
        let task = s.tasks[n - 1];
        if task.parent_id is None && task.column_id == column_id {
            before.push(card_of(s, n - 1))
        } else {
            before
        }
    }
}

// ---------------------------------------------------------------------------
// The board's order
// ---------------------------------------------------------------------------

/// The board's default order: soonest deadline first, cards without one after
/// them, ties broken by the hand-set position and then by the key.
pub open spec fn card_before(a: CardModel, b: CardModel) -> bool {
    match (a.deadline, b.deadline) {
        (Some(x), Some(y)) if x != y => day_before(x, y),
        (Some(_), None) => true,
        (None, Some(_)) => false,
        _ => if a.position != b.position {
            a.position < b.position
        } else {
            text::text_before(a.task_key, b.task_key)
        },
    }
}

impl Ranked for TaskCard {
    open spec fn precedes(a: CardModel, b: CardModel) -> bool {
        card_before(a, b)
    }

    fn comes_before(&self, other: &Self) -> (r: bool) {
        match (self.deadline, other.deadline) {
            (Some(x), Some(y)) => {
                if x.before(&y) {
                    return true;
                }
                if y.before(&x) {
                    return false;
                }
            },
            (Some(_), None) => {
                return true;
            },
            (None, Some(_)) => {
                return false;
            },
            (None, None) => {},
        }
        if self.position != other.position {
            self.position < other.position
        } else {
            text::sorts_before(self.task_key.as_str(), other.task_key.as_str())
        }
    }
}

impl Ranked for Column {
    open spec fn precedes(a: ColumnModel, b: ColumnModel) -> bool {
        a.position < b.position
    }

    fn comes_before(&self, other: &Self) -> (r: bool) {
        self.position < other.position
    }
}

/// A column's cards in the board's default order.
pub open spec fn cards_in_order(cards: Seq<CardModel>) -> Seq<CardModel> {
    ordered(cards, rank_of::<TaskCard>())
}

/// The columns by position, equals in the order they came.
pub open spec fn columns_in_order(columns: Seq<ColumnModel>) -> Seq<ColumnModel> {
    ordered(columns, rank_of::<Column>())
}

/// One of the first `n` columns has this id.
pub open spec fn shown(columns: Seq<ColumnModel>, n: int, id: Seq<char>) -> bool {
    exists|j: int| 0 <= j < n && (#[trigger] columns[j]).id == id
}

/// The column at `k` with its cards: the first column of an id holds them.
pub open spec fn column_with_cards(s: Sweeps, columns: Seq<ColumnModel>, k: int) -> ColumnCards {
    ColumnCards {
        column: columns[k],
        cards: if shown(columns, k, columns[k].id) {
            Seq::empty()
        } else {
            cards_in_order(cards_in(s, columns[k].id, s.tasks.len() as int))
        },
    }
}

/// The board: every column in order, every card in its column.
pub open spec fn assembled(board: BoardModel, columns: Seq<ColumnModel>, s: Sweeps) -> BoardCards {
    let sorted = columns_in_order(columns);
    BoardCards {
        board,
        columns: Seq::new(sorted.len(), |k: int| column_with_cards(s, sorted, k)),
    }
}

// ---------------------------------------------------------------------------
// The join
// ---------------------------------------------------------------------------

/// `named` gives, for every id, the place of the task it names.
spec fn names(named: Map<Seq<char>, usize>, tasks: Seq<TaskRow>) -> bool {
    forall|id: Seq<char>|
        match #[trigger] task_named(views(tasks), id) {
            Some(task) => {
                &&& named.contains_key(id)
                &&& named[id] < tasks.len()
                &&& tasks[named[id] as int].deep_view() == task
            },
            None => !named.contains_key(id),
        }
}

fn name_tasks(tasks: &Vec<TaskRow>) -> (named: StringHashMap<usize>)
    ensures
        names(named@, tasks@),
{
    let mut named: StringHashMap<usize> = StringHashMap::new();
    let mut i: usize = 0;
    while i < tasks.len()
        invariant
            i <= tasks.len(),
            names(named@, tasks@.take(i as int)),
        decreases tasks.len() - i,
    {
        let ghost before = named@;
        named.insert(tasks[i].id.clone(), i);
        proof {
            let seen = tasks@.take(i + 1);
            let row = tasks@[i as int];
            assert(views(seen).drop_last() =~= views(tasks@.take(i as int)));
            assert(views(seen).last() == row.deep_view());
            assert forall|id: Seq<char>|
                match #[trigger] task_named(views(seen), id) {
                    Some(task) => {
                        &&& named@.contains_key(id)
                        &&& named@[id] < seen.len()
                        &&& seen[named@[id] as int].deep_view() == task
                    },
                    None => !named@.contains_key(id),
                } by {
                let _ = task_named(views(tasks@.take(i as int)), id);
                if row.id@ != id && before.contains_key(id) {
                    assert(seen[before[id] as int] == tasks@.take(i as int)[before[id] as int]);
                }
            }
        }
        i = i + 1;
    }
    assert(tasks@.take(tasks@.len() as int) =~= tasks@);
    named
}

/// The key of an open task of this board.
fn open_key_of<'a>(
    tasks: &'a Vec<TaskRow>,
    named: &StringHashMap<usize>,
    id: &str,
) -> (r: Option<&'a String>)
    requires
        names(named@, tasks@),
    ensures
        match r {
            Some(key) => open_key(views(tasks@), id@) == Some(key@),
            None => open_key(views(tasks@), id@) is None,
        },
{
    let ghost found = task_named(views(tasks@), id@);
    match named.get(id) {
        Some(at) => if tasks[*at].done_at.is_some() {
            None
        } else {
            Some(&tasks[*at].task_key)
        },
        None => None,
    }
}

fn gather_people(assignees: Vec<(String, Person)>) -> (people: Groups<Person>)
    ensures
        forall|id: Seq<char>|
            views(#[trigger] people.of(id)) == people_of(assignees.deep_view(), id),
{
    let mut people: Groups<Person> = Groups::new();
    let ghost whole = assignees@;
    proof {
        assert(views(whole.take(0)) =~= Seq::empty());
        assert forall|id: Seq<char>|
            views(#[trigger] people.of(id)) == people_of(views(whole.take(0)), id) by {
            assert(views(people.of(id)) =~= Seq::<PersonModel>::empty());
        }
    }
    for pair in it: assignees
        invariant
            it.seq() == whole,
            forall|id: Seq<char>|
                views(#[trigger] people.of(id)) == people_of(
                    views(whole.take(it.index() as int)),
                    id,
                ),
    {
        let ghost seen = views(whole.take(it.index() + 1));
        proof {
            assert(seen.drop_last() =~= views(whole.take(it.index() as int)));
            assert(seen.last() == pair.deep_view());
        }
        let (task_id, person) = pair;
        let ghost before = people;
        let ghost gathered = person;
        let ghost key = task_id@;
        people.put(task_id, person);
        proof {
            assert forall|id: Seq<char>|
                views(#[trigger] people.of(id)) == people_of(seen, id) by {
                let _ = before.of(id);
                if id == key {
                    assert(views(people.of(id)) =~= views(before.of(id)).push(
                        gathered.deep_view(),
                    ));
                }
            }
        }
    }
    assert(whole.take(whole.len() as int) =~= whole);
    assert(views(whole) =~= assignees.deep_view());
    people
}

/// What a map of counts says of an id; nothing is zero.
spec fn count_in(counts: Map<Seq<char>, u32>, id: Seq<char>) -> u32 {
    if counts.contains_key(id) {
        counts[id]
    } else {
        0
    }
}

fn read_count(counts: &StringHashMap<u32>, id: &str) -> (r: u32)
    ensures
        r == count_in(counts@, id@),
{
    match counts.get(id) {
        Some(n) => *n,
        None => 0,
    }
}

fn gather_counts(comment_counts: Vec<(String, u32)>) -> (counts: StringHashMap<u32>)
    ensures
        forall|id: Seq<char>| #[trigger]
            count_in(counts@, id) == comments_on(comment_counts.deep_view(), id),
{
    let mut counts: StringHashMap<u32> = StringHashMap::new();
    let ghost whole = comment_counts@;
    assert(views(whole.take(0)) =~= Seq::empty());
    for pair in it: comment_counts
        invariant
            it.seq() == whole,
            forall|id: Seq<char>| #[trigger]
                count_in(counts@, id) == comments_on(views(whole.take(it.index() as int)), id),
    {
        let ghost seen = views(whole.take(it.index() + 1));
        proof {
            assert(seen.drop_last() =~= views(whole.take(it.index() as int)));
            assert(seen.last() == pair.deep_view());
        }
        let (task_id, count) = pair;
        let ghost before = counts@;
        let ghost key = task_id@;
        counts.insert(task_id, count);
        proof {
            assert forall|id: Seq<char>| #[trigger]
                count_in(counts@, id) == comments_on(seen, id) by {
                let _ = count_in(before, id);
            }
        }
    }
    assert(whole.take(whole.len() as int) =~= whole);
    assert(views(whole) =~= comment_counts.deep_view());
    counts
}

/// Both ends of every dependency: the keys in front of each task, and the keys
/// waiting on it.
fn join_dependencies(
    dependencies: &Vec<(String, String)>,
    tasks: &Vec<TaskRow>,
    named: &StringHashMap<usize>,
) -> (r: (Groups<String>, Groups<String>))
    requires
        names(named@, tasks@),
    ensures
        forall|id: Seq<char>|
            views(#[trigger] r.0.of(id)) == blockers_of(
                dependencies.deep_view(),
                views(tasks@),
                id,
            ),
        forall|id: Seq<char>|
            views(#[trigger] r.1.of(id)) == waiting_on(dependencies.deep_view(), views(tasks@), id),
{
    let mut blocked_by: Groups<String> = Groups::new();
    let mut blocks: Groups<String> = Groups::new();
    let ghost rows = views(tasks@);
    let ghost whole = dependencies@;
    proof {
        assert(views(whole.take(0)) =~= Seq::empty());
        assert forall|id: Seq<char>|
            views(#[trigger] blocked_by.of(id)) == blockers_of(views(whole.take(0)), rows, id) by {
            assert(views(blocked_by.of(id)) =~= Seq::<Seq<char>>::empty());
        }
        assert forall|id: Seq<char>|
            views(#[trigger] blocks.of(id)) == waiting_on(views(whole.take(0)), rows, id) by {
            assert(views(blocks.of(id)) =~= Seq::<Seq<char>>::empty());
        }
    }
    let mut i: usize = 0;
    while i < dependencies.len()
        invariant
            i <= dependencies.len(),
            whole == dependencies@,
            rows == views(tasks@),
            names(named@, tasks@),
            forall|id: Seq<char>|
                views(#[trigger] blocked_by.of(id)) == blockers_of(
                    views(whole.take(i as int)),
                    rows,
                    id,
                ),
            forall|id: Seq<char>|
                views(#[trigger] blocks.of(id)) == waiting_on(
                    views(whole.take(i as int)),
                    rows,
                    id,
                ),
        decreases dependencies.len() - i,
    {
        let ghost seen = views(whole.take(i + 1));
        let blocked = &dependencies[i].0;
        let blocking = &dependencies[i].1;
        proof {
            assert(seen.drop_last() =~= views(whole.take(i as int)));
            assert(seen.last() == (blocked@, blocking@));
        }
        let ghost front = blocked_by;
        let ghost behind = blocks;
        if let Some(key) = open_key_of(tasks, named, blocking.as_str()) {
            blocked_by.put(blocked.clone(), key.clone());
        }
        if let Some(key) = open_key_of(tasks, named, blocked.as_str()) {
            blocks.put(blocking.clone(), key.clone());
        }
        proof {
            assert forall|id: Seq<char>|
                views(#[trigger] blocked_by.of(id)) == blockers_of(seen, rows, id) by {
                let _ = front.of(id);
                if let Some(key) = open_key(rows, blocking@) {
                    if id == blocked@ {
                        assert(views(blocked_by.of(id)) =~= views(front.of(id)).push(key));
                    }
                }
            }
            assert forall|id: Seq<char>|
                views(#[trigger] blocks.of(id)) == waiting_on(seen, rows, id) by {
                let _ = behind.of(id);
                if let Some(key) = open_key(rows, blocked@) {
                    if id == blocking@ {
                        assert(views(blocks.of(id)) =~= views(behind.of(id)).push(key));
                    }
                }
            }
        }
        i = i + 1;
    }
    assert(whole.take(whole.len() as int) =~= whole);
    assert(views(whole) =~= dependencies.deep_view());
    (blocked_by, blocks)
}

/// How many subtasks each task has, and how many of them are finished.
fn count_subtasks(tasks: &Vec<TaskRow>) -> (r: (StringHashMap<u32>, StringHashMap<u32>))
    requires
        tasks@.len() <= u32::MAX,
    ensures
        forall|id: Seq<char>| #[trigger]
            count_in(r.0@, id) == subtasks_of(views(tasks@), id),
        forall|id: Seq<char>| #[trigger]
            count_in(r.1@, id) == finished_subtasks_of(views(tasks@), id),
{
    let mut total: StringHashMap<u32> = StringHashMap::new();
    let mut done: StringHashMap<u32> = StringHashMap::new();
    assert(views(tasks@.take(0)) =~= Seq::empty());
    let mut i: usize = 0;
    while i < tasks.len()
        invariant
            i <= tasks.len(),
            tasks@.len() <= u32::MAX,
            forall|id: Seq<char>| #[trigger]
                count_in(total@, id) == subtasks_of(views(tasks@.take(i as int)), id),
            forall|id: Seq<char>| #[trigger]
                count_in(done@, id) == finished_subtasks_of(views(tasks@.take(i as int)), id),
            forall|id: Seq<char>| #[trigger] count_in(total@, id) <= i,
            forall|id: Seq<char>| #[trigger] count_in(done@, id) <= i,
        decreases tasks.len() - i,
    {
        let ghost seen = views(tasks@.take(i + 1));
        let ghost row = tasks@[i as int].deep_view();
        proof {
            assert(seen.drop_last() =~= views(tasks@.take(i as int)));
            assert(seen.last() == row);
        }
        let ghost before = (total@, done@);
        if let Some(parent) = &tasks[i].parent_id {
            let n: u32 = read_count(&total, parent.as_str());
            total.insert(parent.clone(), n + 1);
            if tasks[i].done_at.is_some() {
                let n: u32 = read_count(&done, parent.as_str());
                done.insert(parent.clone(), n + 1);
            }
        }
        proof {
            assert forall|id: Seq<char>| #[trigger]
                count_in(total@, id) == subtasks_of(seen, id) && count_in(total@, id) <= i + 1 by {
                let _ = count_in(before.0, id);
            }
            assert forall|id: Seq<char>| #[trigger]
                count_in(done@, id) == finished_subtasks_of(seen, id) && count_in(done@, id) <= i
                    + 1 by {
                let _ = count_in(before.1, id);
            }
        }
        i = i + 1;
    }
    assert(tasks@.take(tasks@.len() as int) =~= tasks@);
    (total, done)
}

/// What is left of a gathering once the cards of the first `n` tasks took
/// theirs.
spec fn left<T>(s: Sweeps, n: int, id: Seq<char>, gathered: Seq<T>) -> Seq<T> {
    if carded(s.tasks, n, id) {
        Seq::empty()
    } else {
        gathered
    }
}

proof fn lemma_carded_step(tasks: Seq<TaskModel>, n: int, id: Seq<char>)
    requires
        0 <= n < tasks.len(),
    ensures
        carded(tasks, n + 1, id) == (carded(tasks, n, id) || (tasks[n].parent_id is None
            && tasks[n].id == id)),
{
    if carded(tasks, n, id) {
        let j = choose|j: int|
            0 <= j < n && (#[trigger] tasks[j]).parent_id is None && tasks[j].id == id;
        assert(0 <= j < n + 1 && tasks[j].parent_id is None && tasks[j].id == id);
    }
}

/// Every task's card, by column.
fn deal_cards(
    tasks: Vec<TaskRow>,
    assignees: Vec<(String, Person)>,
    comment_counts: Vec<(String, u32)>,
    dependencies: Vec<(String, String)>,
) -> (cards: Groups<TaskCard>)
    requires
        tasks@.len() <= u32::MAX,
    ensures
        forall|column: Seq<char>|
            views(#[trigger] cards.of(column)) == cards_in(
                Sweeps {
                    tasks: tasks.deep_view(),
                    assignees: assignees.deep_view(),
                    comment_counts: comment_counts.deep_view(),
                    dependencies: dependencies.deep_view(),
                },
                column,
                tasks@.len() as int,
            ),
{
    let ghost s = Sweeps {
        tasks: tasks.deep_view(),
        assignees: assignees.deep_view(),
        comment_counts: comment_counts.deep_view(),
        dependencies: dependencies.deep_view(),
    };
    let ghost whole = tasks@;
    assert(views(whole) =~= s.tasks);
    let named = name_tasks(&tasks);
    let mut people = gather_people(assignees);
    let counts = gather_counts(comment_counts);
    let (mut blocked_by, mut blocks) = join_dependencies(&dependencies, &tasks, &named);
    let (subtask_total, subtask_done) = count_subtasks(&tasks);
    let mut cards: Groups<TaskCard> = Groups::new();
    proof {
        assert forall|column: Seq<char>|
            views(#[trigger] cards.of(column)) == cards_in(s, column, 0) by {
            assert(views(cards.of(column)) =~= Seq::<CardModel>::empty());
        }
    }
    for task in it: tasks
        invariant
            it.seq() == whole,
            views(whole) == s.tasks,
            forall|id: Seq<char>|
                views(#[trigger] people.of(id)) == left(
                    s,
                    it.index() as int,
                    id,
                    people_of(s.assignees, id),
                ),
            forall|id: Seq<char>|
                views(#[trigger] blocked_by.of(id)) == left(
                    s,
                    it.index() as int,
                    id,
                    blockers_of(s.dependencies, s.tasks, id),
                ),
            forall|id: Seq<char>|
                views(#[trigger] blocks.of(id)) == left(
                    s,
                    it.index() as int,
                    id,
                    waiting_on(s.dependencies, s.tasks, id),
                ),
            forall|id: Seq<char>| #[trigger]
                count_in(counts@, id) == comments_on(s.comment_counts, id),
            forall|id: Seq<char>| #[trigger]
                count_in(subtask_total@, id) == subtasks_of(s.tasks, id),
            forall|id: Seq<char>| #[trigger]
                count_in(subtask_done@, id) == finished_subtasks_of(s.tasks, id),
            forall|column: Seq<char>|
                views(#[trigger] cards.of(column)) == cards_in(s, column, it.index() as int),
    {
        let ghost n = it.index() as int;
        let ghost row = task.deep_view();
        assert(s.tasks[n] == row);
        let ghost before = (people, blocked_by, blocks, cards);
        if task.parent_id.is_none() {
            let comment_count: u32 = read_count(&counts, task.id.as_str());
            let assigned = people.take(task.id.as_str());
            let in_front = blocked_by.take(task.id.as_str());
            let waiting = blocks.take(task.id.as_str());
            let total: u32 = read_count(&subtask_total, task.id.as_str());
            let done: u32 = read_count(&subtask_done, task.id.as_str());
            let column = task.column_id.clone();
            let card = TaskCard {
                comment_count,
                assignees: assigned,
                blocked_by: in_front,
                blocks: waiting,
                subtask_total: total,
                subtask_done: done,
                id: task.id,
                task_key: task.task_key,
                title: task.title,
                deadline: task.deadline,
                clock_at: task.clock_at,
                done_at: task.done_at,
                position: task.position,
                column_id: task.column_id,
                tag: task.tag,
            };
            proof {
                let _ = before.0.of(row.id);
                let _ = before.1.of(row.id);
                let _ = before.2.of(row.id);
                assert(card.deep_view().assignees =~= views(before.0.of(row.id)));
                assert(card.deep_view().blocked_by =~= views(before.1.of(row.id)));
                assert(card.deep_view().blocks =~= views(before.2.of(row.id)));
                assert(card.deep_view() =~= card_of(s, n));
            }
            let ghost dealt = card;
            cards.put(column, card);
            proof {
                assert forall|c: Seq<char>|
                    views(#[trigger] cards.of(c)) == cards_in(s, c, n + 1) by {
                    let _ = before.3.of(c);
                    if c == row.column_id {
                        assert(views(cards.of(c)) =~= views(before.3.of(c)).push(
                            dealt.deep_view(),
                        ));
                    }
                }
            }
        }
        proof {
            assert forall|id: Seq<char>|
                views(#[trigger] people.of(id)) == left(
                    s,
                    n + 1,
                    id,
                    people_of(s.assignees, id),
                ) by {
                lemma_carded_step(s.tasks, n, id);
                let _ = before.0.of(id);
                assert(views(Seq::<Person>::empty()) =~= Seq::empty());
            }
            assert forall|id: Seq<char>|
                views(#[trigger] blocked_by.of(id)) == left(
                    s,
                    n + 1,
                    id,
                    blockers_of(s.dependencies, s.tasks, id),
                ) by {
                lemma_carded_step(s.tasks, n, id);
                let _ = before.1.of(id);
                assert(views(Seq::<String>::empty()) =~= Seq::empty());
            }
            assert forall|id: Seq<char>|
                views(#[trigger] blocks.of(id)) == left(
                    s,
                    n + 1,
                    id,
                    waiting_on(s.dependencies, s.tasks, id),
                ) by {
                lemma_carded_step(s.tasks, n, id);
                let _ = before.2.of(id);
                assert(views(Seq::<String>::empty()) =~= Seq::empty());
            }
            assert forall|c: Seq<char>|
                views(#[trigger] cards.of(c)) == cards_in(s, c, n + 1) by {
                let _ = before.3.of(c);
            }
        }
    }
    cards
}

proof fn lemma_shown_step(columns: Seq<ColumnModel>, n: int, id: Seq<char>)
    requires
        0 <= n < columns.len(),
    ensures
        shown(columns, n + 1, id) == (shown(columns, n, id) || columns[n].id == id),
{
    if shown(columns, n, id) {
        let j = choose|j: int| 0 <= j < n && (#[trigger] columns[j]).id == id;
        assert(0 <= j < n + 1 && columns[j].id == id);
    }
}

/// Builds the board from six flat sweeps.
///
/// Every input is the whole board's worth of one thing, so the caller makes a
/// fixed number of queries no matter how many tasks there are. A dependency on
/// a task of another board has no key here and is dropped rather than shown as
/// a dangling chip, and so is one whose other end is finished.
pub fn assemble(
    board: BoardMeta,
    columns: Vec<Column>,
    tasks: Vec<TaskRow>,
    assignees: Vec<(String, Person)>,
    comment_counts: Vec<(String, u32)>,
    dependencies: Vec<(String, String)>,
) -> (r: BoardView)
    requires
        tasks@.len() <= u32::MAX,
    ensures
        r.deep_view() == assembled(
            board.deep_view(),
            columns.deep_view(),
            (Sweeps {
                tasks: tasks.deep_view(),
                assignees: assignees.deep_view(),
                comment_counts: comment_counts.deep_view(),
                dependencies: dependencies.deep_view(),
            }),
        ),
{
    let ghost s = Sweeps {
        tasks: tasks.deep_view(),
        assignees: assignees.deep_view(),
        comment_counts: comment_counts.deep_view(),
        dependencies: dependencies.deep_view(),
    };
    let ghost whole = s.tasks.len() as int;
    let mut cards = deal_cards(tasks, assignees, comment_counts, dependencies);
    let mut sorted = columns;
    assert(views(sorted@) =~= columns.deep_view());
    sort(&mut sorted);
    let ghost order = views(sorted@);
    let ghost rows = sorted@;
    let mut shown_columns: Vec<ColumnView> = Vec::new();
    for column in it: sorted
        invariant
            it.seq() == rows,
            order == views(rows),
            shown_columns@.len() == it.index(),
            forall|k: int|
                0 <= k < it.index() ==> (#[trigger] shown_columns@[k]).deep_view()
                    == column_with_cards(s, order, k),
            forall|c: Seq<char>|
                views(#[trigger] cards.of(c)) == if shown(order, it.index() as int, c) {
                    Seq::empty()
                } else {
                    cards_in(s, c, whole)
                },
            whole == s.tasks.len(),
    {
        let ghost n = it.index() as int;
        let ghost before = cards;
        let mut own = cards.take(column.id.as_str());
        assert(order[n] == column.deep_view());
        proof {
            let _ = before.of(column.id@);
        }
        sort(&mut own);
        let view = ColumnView { column, cards: own };
        proof {
            assert(view.cards.deep_view() =~= views(own@));
            assert(ordered(Seq::<CardModel>::empty(), rank_of::<TaskCard>()) =~= Seq::empty());
            assert(view.deep_view() =~= column_with_cards(s, order, n));
            assert forall|c: Seq<char>|
                views(#[trigger] cards.of(c)) == if shown(order, n + 1, c) {
                    Seq::empty()
                } else {
                    cards_in(s, c, whole)
                } by {
                lemma_shown_step(order, n, c);
                let _ = before.of(c);
                assert(views(Seq::<TaskCard>::empty()) =~= Seq::empty());
            }
        }
        shown_columns.push(view);
    }
    let r = BoardView { board, columns: shown_columns };
    assert(r.deep_view().columns =~= assembled(board.deep_view(), columns.deep_view(), s).columns);
    r
}

// ---------------------------------------------------------------------------
// Laws
// ---------------------------------------------------------------------------

proof fn lemma_text_order_ranks(a: Seq<char>, b: Seq<char>, c: Seq<char>)
    ensures
        text::text_before(a, b) ==> !text::text_before(b, a),
        !text::text_before(a, b) && !text::text_before(b, c) ==> !text::text_before(a, c),
{
    text::text_order_irreflexive(a);
    if text::text_before(a, b) && text::text_before(b, a) {
        text::text_order_transitive(a, b, a);
    }
    text::text_order_total(a, b);
    text::text_order_total(b, c);
    if text::text_before(a, c) && text::text_before(b, a) {
        text::text_order_transitive(b, a, c);
    }
}

/// The board's order is one: of two cards at most one precedes the other, and
/// ranking together is an equivalence.
pub proof fn the_board_order_ranks()
    ensures
        ranks(rank_of::<TaskCard>()),
        ranks(rank_of::<Column>()),
{
    let rank = rank_of::<TaskCard>();
    assert forall|a: CardModel, b: CardModel| rank(a, b) implies !(#[trigger] rank(b, a)) by {
        lemma_text_order_ranks(a.task_key, b.task_key, a.task_key);
    }
    assert forall|a: CardModel, b: CardModel, c: CardModel|
        !(#[trigger] rank(a, b)) && !(#[trigger] rank(b, c)) implies !rank(a, c) by {
        lemma_text_order_ranks(a.task_key, b.task_key, c.task_key);
    }
}

/// The columns of the board are the columns there were, by position, equals in
/// the order they came.
pub proof fn columns_stand_by_position(columns: Seq<ColumnModel>, one: ColumnModel)
    ensures
        columns_in_order(columns).to_multiset() == columns.to_multiset(),
        in_order(columns_in_order(columns), rank_of::<Column>()),
        ranking_with(columns_in_order(columns), one, rank_of::<Column>()) == ranking_with(
            columns,
            one,
            rank_of::<Column>(),
        ),
{
    the_board_order_ranks();
    ordering_rearranges(columns, rank_of::<Column>());
    ordering_orders(columns, rank_of::<Column>());
    ordering_is_stable(columns, one, rank_of::<Column>());
}

/// The cards of a column are the cards dealt to it, soonest deadline first,
/// those without one behind, ties by position and key, and equals in the order
/// they were dealt.
pub proof fn cards_stand_in_board_order(cards: Seq<CardModel>, one: CardModel)
    ensures
        cards_in_order(cards).to_multiset() == cards.to_multiset(),
        in_order(cards_in_order(cards), rank_of::<TaskCard>()),
        ranking_with(cards_in_order(cards), one, rank_of::<TaskCard>()) == ranking_with(
            cards,
            one,
            rank_of::<TaskCard>(),
        ),
{
    the_board_order_ranks();
    ordering_rearranges(cards, rank_of::<TaskCard>());
    ordering_orders(cards, rank_of::<TaskCard>());
    ordering_is_stable(cards, one, rank_of::<TaskCard>());
}

/// A column is dealt the card of every task it holds that is no subtask, and
/// nothing else.
pub proof fn a_column_holds_its_tasks(s: Sweeps, column_id: Seq<char>, n: int, card: CardModel)
    requires
        0 <= n <= s.tasks.len(),
    ensures
        cards_in(s, column_id, n).contains(card) <==> exists|i: int|
            0 <= i < n && (#[trigger] s.tasks[i]).parent_id is None && s.tasks[i].column_id
                == column_id && card == card_of(s, i),
    decreases n,
{
    if n > 0 {
        a_column_holds_its_tasks(s, column_id, n - 1, card);
        let before = cards_in(s, column_id, n - 1);
        let after = cards_in(s, column_id, n);
        let task = s.tasks[n - 1];
        if task.parent_id is None && task.column_id == column_id {
            assert(after == before.push(card_of(s, n - 1)));
            assert(after[after.len() - 1] == card_of(s, n - 1));
            if after.contains(card) && card != card_of(s, n - 1) {
                let k = choose|k: int| 0 <= k < after.len() && after[k] == card;
                assert(before[k] == card);
            }
            if before.contains(card) {
                let k = choose|k: int| 0 <= k < before.len() && before[k] == card;
                assert(after[k] == card);
            }
        }
        if before.contains(card) {
            let i = choose|i: int|
                0 <= i < n - 1 && (#[trigger] s.tasks[i]).parent_id is None && s.tasks[i].column_id
                    == column_id && card == card_of(s, i);
            assert(0 <= i < n && s.tasks[i].parent_id is None);
        }
    }
}

/// No two of the tasks share an id, and no two share a key.
pub open spec fn told_apart(tasks: Seq<TaskModel>) -> bool {
    forall|i: int, j: int|
        0 <= i < tasks.len() && 0 <= j < tasks.len() && i != j ==> (#[trigger] tasks[i]).id != (
        #[trigger] tasks[j]).id && tasks[i].task_key != tasks[j].task_key
}

proof fn lemma_told_apart_in_any_order(tasks: Seq<TaskModel>, others: Seq<TaskModel>)
    requires
        told_apart(tasks),
        others.to_multiset() == tasks.to_multiset(),
    ensures
        told_apart(others),
        same_items(tasks, others),
{
    broadcast use vstd::seq_lib::group_to_multiset_ensures;

    assert(tasks.no_duplicates());
    tasks.lemma_multiset_has_no_duplicates();
    others.lemma_multiset_has_no_duplicates_conv();
    assert forall|x: TaskModel|
        #![trigger tasks.contains(x)]
        #![trigger others.contains(x)]
        tasks.contains(x) <==> others.contains(x) by {
        assert(tasks.contains(x) <==> tasks.to_multiset().count(x) > 0);
        assert(others.contains(x) <==> others.to_multiset().count(x) > 0);
    }
    assert forall|i: int, j: int|
        0 <= i < others.len() && 0 <= j < others.len() && i != j implies (#[trigger] others[i]).id
        != (#[trigger] others[j]).id && others[i].task_key != others[j].task_key by {
        assert(others.contains(others[i]) && others.contains(others[j]));
        assert(tasks.contains(others[i]) && tasks.contains(others[j]));
        let k = choose|k: int| 0 <= k < tasks.len() && tasks[k] == others[i];
        let l = choose|l: int| 0 <= l < tasks.len() && tasks[l] == others[j];
        assert(others[i] != others[j]);
        assert(k != l);
        assert(tasks[k].id != tasks[l].id && tasks[k].task_key != tasks[l].task_key);
    }
}

proof fn lemma_task_named_is_there(tasks: Seq<TaskModel>, id: Seq<char>)
    ensures
        match task_named(tasks, id) {
            Some(task) => tasks.contains(task) && task.id == id,
            None => forall|i: int| 0 <= i < tasks.len() ==> (#[trigger] tasks[i]).id != id,
        },
    decreases tasks.len(),
{
    if tasks.len() > 0 {
        let rest = tasks.drop_last();
        assert(tasks[tasks.len() - 1] == tasks.last());
        assert(tasks.contains(tasks.last()));
        lemma_task_named_is_there(rest, id);
        match task_named(rest, id) {
            Some(task) => {
                let k = choose|k: int| 0 <= k < rest.len() && rest[k] == task;
                assert(tasks[k] == task);
            },
            None => {
                assert forall|i: int|
                    0 <= i < tasks.len() && tasks.last().id != id implies (#[trigger] tasks[i]).id
                    != id by {
                    if i < rest.len() {
                        assert(rest[i] == tasks[i]);
                    }
                }
            },
        }
    }
}

proof fn lemma_open_key_in_any_order(
    tasks: Seq<TaskModel>,
    others: Seq<TaskModel>,
    id: Seq<char>,
)
    requires
        told_apart(tasks),
        same_items(tasks, others),
    ensures
        open_key(others, id) == open_key(tasks, id),
{
    lemma_task_named_is_there(tasks, id);
    lemma_task_named_is_there(others, id);
    match task_named(others, id) {
        Some(task) => {
            assert(tasks.contains(task));
            let k = choose|k: int| 0 <= k < tasks.len() && tasks[k] == task;
            match task_named(tasks, id) {
                Some(same) => {
                    let l = choose|l: int| 0 <= l < tasks.len() && tasks[l] == same;
                    assert(k == l);
                },
                None => {
                    assert(tasks[k].id != id);
                },
            }
        },
        None => {
            if let Some(task) = task_named(tasks, id) {
                assert(others.contains(task));
                let k = choose|k: int| 0 <= k < others.len() && others[k] == task;
                assert(others[k].id != id);
            }
        },
    }
}

proof fn lemma_blocking_in_any_order(
    dependencies: Seq<(Seq<char>, Seq<char>)>,
    tasks: Seq<TaskModel>,
    others: Seq<TaskModel>,
    id: Seq<char>,
)
    requires
        told_apart(tasks),
        same_items(tasks, others),
    ensures
        blockers_of(dependencies, others, id) == blockers_of(dependencies, tasks, id),
        waiting_on(dependencies, others, id) == waiting_on(dependencies, tasks, id),
    decreases dependencies.len(),
{
    if dependencies.len() > 0 {
        lemma_blocking_in_any_order(dependencies.drop_last(), tasks, others, id);
        lemma_open_key_in_any_order(tasks, others, dependencies.last().0);
        lemma_open_key_in_any_order(tasks, others, dependencies.last().1);
    }
}

proof fn lemma_subtasks_are_counted(tasks: Seq<TaskModel>, id: Seq<char>)
    ensures
        subtasks_of(tasks, id) == tasks.to_multiset().filter(
            |task: TaskModel| task.parent_id == Some(id),
        ).len(),
        finished_subtasks_of(tasks, id) == tasks.to_multiset().filter(
            |task: TaskModel| task.parent_id == Some(id) && task.done_at is Some,
        ).len(),
    decreases tasks.len(),
{
    broadcast use {
        vstd::seq_lib::group_to_multiset_ensures,
        vstd::multiset::group_multiset_axioms,
    };

    let whole = tasks.to_multiset();
    let under = |task: TaskModel| task.parent_id == Some(id);
    let done = |task: TaskModel| task.parent_id == Some(id) && task.done_at is Some;
    if tasks.len() == 0 {
        assert(whole.filter(under) =~= vstd::multiset::Multiset::empty());
        assert(whole.filter(done) =~= vstd::multiset::Multiset::empty());
    } else {
        let rest = tasks.drop_last();
        let last = tasks.last();
        lemma_subtasks_are_counted(rest, id);
        assert(tasks =~= rest.push(last));
        assert(whole =~= rest.to_multiset().insert(last));
        if under(last) {
            assert(whole.filter(under) =~= rest.to_multiset().filter(under).insert(last));
        } else {
            assert(whole.filter(under) =~= rest.to_multiset().filter(under));
        }
        if done(last) {
            assert(whole.filter(done) =~= rest.to_multiset().filter(done).insert(last));
        } else {
            assert(whole.filter(done) =~= rest.to_multiset().filter(done));
        }
    }
}

/// The same card comes of a task wherever its row stands.
proof fn lemma_card_in_any_order(s: Sweeps, others: Seq<TaskModel>, i: int, j: int)
    requires
        told_apart(s.tasks),
        others.to_multiset() == s.tasks.to_multiset(),
        0 <= i < s.tasks.len(),
        0 <= j < others.len(),
        s.tasks[i] == others[j],
    ensures
        card_of((Sweeps { tasks: others, ..s }), j) == card_of(s, i),
{
    let id = s.tasks[i].id;
    lemma_told_apart_in_any_order(s.tasks, others);
    lemma_blocking_in_any_order(s.dependencies, s.tasks, others, id);
    lemma_subtasks_are_counted(s.tasks, id);
    lemma_subtasks_are_counted(others, id);
    assert(!carded(s.tasks, i, id));
    assert(!carded(others, j, id));
}

/// Tasks told apart give a column cards that the board's order decides.
proof fn lemma_cards_told_apart(s: Sweeps, column_id: Seq<char>, n: int)
    requires
        told_apart(s.tasks),
        0 <= n <= s.tasks.len(),
    ensures
        cards_in(s, column_id, n).no_duplicates(),
        decides(cards_in(s, column_id, n), rank_of::<TaskCard>()),
    decreases n,
{
    if n > 0 {
        lemma_cards_told_apart(s, column_id, n - 1);
        let before = cards_in(s, column_id, n - 1);
        let after = cards_in(s, column_id, n);
        let task = s.tasks[n - 1];
        let rank = rank_of::<TaskCard>();
        if task.parent_id is None && task.column_id == column_id {
            let card = card_of(s, n - 1);
            assert forall|p: int| 0 <= p < before.len() implies #[trigger] before[p] != card && (
            rank(before[p], card) || rank(card, before[p])) by {
                let other = before[p];
                assert(before.contains(other));
                a_column_holds_its_tasks(s, column_id, n - 1, other);
                let i = choose|i: int|
                    0 <= i < n - 1 && (#[trigger] s.tasks[i]).parent_id is None
                        && s.tasks[i].column_id == column_id && other == card_of(s, i);
                assert(s.tasks[i].id != task.id && s.tasks[i].task_key != task.task_key);
                text::text_order_total(other.task_key, card.task_key);
            }
            assert forall|p: int, q: int|
                0 <= p < after.len() && 0 <= q < after.len() && p != q implies rank(
                #[trigger] after[p],
                #[trigger] after[q],
            ) || rank(after[q], after[p]) by {
                if p < before.len() && q < before.len() {
                    assert(after[p] == before[p] && after[q] == before[q]);
                } else if p < before.len() {
                    assert(after[p] == before[p]);
                } else {
                    assert(after[q] == before[q]);
                }
            }
            assert forall|p: int, q: int|
                0 <= p < after.len() && 0 <= q < after.len() && p != q implies after[p]
                != after[q] by {
                if p < before.len() && q < before.len() {
                    assert(after[p] == before[p] && after[q] == before[q]);
                } else if p < before.len() {
                    assert(after[p] == before[p]);
                } else {
                    assert(after[q] == before[q]);
                }
            }
        }
    }
}

proof fn lemma_same_cards(s: Sweeps, others: Seq<TaskModel>, column_id: Seq<char>, card: CardModel)
    requires
        told_apart(s.tasks),
        others.to_multiset() == s.tasks.to_multiset(),
        cards_in(s, column_id, s.tasks.len() as int).contains(card),
    ensures
        cards_in((Sweeps { tasks: others, ..s }), column_id, others.len() as int).contains(card),
{
    let t = Sweeps { tasks: others, ..s };
    let n = s.tasks.len() as int;
    a_column_holds_its_tasks(s, column_id, n, card);
    let i = choose|i: int|
        0 <= i < n && (#[trigger] s.tasks[i]).parent_id is None && s.tasks[i].column_id == column_id
            && card == card_of(s, i);
    lemma_told_apart_in_any_order(s.tasks, others);
    assert(s.tasks.contains(s.tasks[i]));
    assert(others.contains(s.tasks[i]));
    let j = choose|j: int| 0 <= j < others.len() && others[j] == s.tasks[i];
    lemma_card_in_any_order(s, others, i, j);
    assert(t.tasks[j].parent_id is None);
    a_column_holds_its_tasks(t, column_id, others.len() as int, card);
}

/// The same board comes of the task rows in whatever order they were read, where
/// no two share an id or a key.
pub proof fn a_board_forgets_how_its_tasks_were_read(
    board: BoardModel,
    columns: Seq<ColumnModel>,
    s: Sweeps,
    others: Seq<TaskModel>,
)
    requires
        told_apart(s.tasks),
        others.to_multiset() == s.tasks.to_multiset(),
    ensures
        assembled(board, columns, (Sweeps { tasks: others, ..s })) == assembled(board, columns, s),
{
    let t = Sweeps { tasks: others, ..s };
    let sorted = columns_in_order(columns);
    lemma_told_apart_in_any_order(s.tasks, others);
    the_board_order_ranks();
    assert forall|k: int| 0 <= k < sorted.len() implies column_with_cards(t, sorted, k)
        == column_with_cards(s, sorted, k) by {
        let id = sorted[k].id;
        let before = cards_in(s, id, s.tasks.len() as int);
        let after = cards_in(t, id, others.len() as int);
        lemma_cards_told_apart(s, id, s.tasks.len() as int);
        lemma_cards_told_apart(t, id, others.len() as int);
        assert forall|card: CardModel|
            #![trigger before.contains(card)]
            #![trigger after.contains(card)]
            before.contains(card) <==> after.contains(card) by {
            if before.contains(card) {
                lemma_same_cards(s, others, id, card);
            }
            if after.contains(card) {
                assert((Sweeps { tasks: s.tasks, ..t }) == s);
                lemma_same_cards(t, s.tasks, id, card);
            }
        }
        ordering_forgets_what_was(before, after, rank_of::<TaskCard>());
    }
    assert(assembled(board, columns, t).columns =~= assembled(board, columns, s).columns);
}

/// On the assembled board a card stands in its own column, and it is the card
/// of a task that is no subtask.
pub proof fn a_card_stands_in_its_column(
    board: BoardModel,
    columns: Seq<ColumnModel>,
    s: Sweeps,
    k: int,
    card: CardModel,
)
    requires
        0 <= k < assembled(board, columns, s).columns.len(),
        assembled(board, columns, s).columns[k].cards.contains(card),
    ensures
        card.column_id == assembled(board, columns, s).columns[k].column.id,
        exists|i: int|
            0 <= i < s.tasks.len() && (#[trigger] s.tasks[i]).parent_id is None && card == card_of(
                s,
                i,
            ),
{
    broadcast use vstd::seq_lib::group_to_multiset_ensures;

    let id = columns_in_order(columns)[k].id;
    let dealt = cards_in(s, id, s.tasks.len() as int);
    let cards = assembled(board, columns, s).columns[k].cards;
    ordering_rearranges(dealt, rank_of::<TaskCard>());
    assert(cards.to_multiset().count(card) > 0);
    assert(dealt.contains(card));
    a_column_holds_its_tasks(s, id, s.tasks.len() as int, card);
}

/// Every task that is no subtask has its card on the assembled board, in the
/// first column that has the id the task names.
pub proof fn every_task_has_its_card(
    board: BoardModel,
    columns: Seq<ColumnModel>,
    s: Sweeps,
    k: int,
    i: int,
)
    requires
        0 <= k < assembled(board, columns, s).columns.len(),
        0 <= i < s.tasks.len(),
        s.tasks[i].parent_id is None,
        s.tasks[i].column_id == assembled(board, columns, s).columns[k].column.id,
        !shown(columns_in_order(columns), k, s.tasks[i].column_id),
    ensures
        assembled(board, columns, s).columns[k].cards.contains(card_of(s, i)),
{
    broadcast use vstd::seq_lib::group_to_multiset_ensures;

    let id = columns_in_order(columns)[k].id;
    let dealt = cards_in(s, id, s.tasks.len() as int);
    let cards = assembled(board, columns, s).columns[k].cards;
    a_column_holds_its_tasks(s, id, s.tasks.len() as int, card_of(s, i));
    assert(dealt.contains(card_of(s, i)));
    ordering_rearranges(dealt, rank_of::<TaskCard>());
    assert(dealt.to_multiset().count(card_of(s, i)) > 0);
    assert(cards.contains(card_of(s, i)));
}

/// Where every task has an id of its own, every card carries all that was
/// gathered under its id.
pub proof fn a_card_with_its_own_id_is_whole(s: Sweeps, i: int)
    requires
        0 <= i < s.tasks.len(),
        forall|a: int, b: int|
            0 <= a < b < s.tasks.len() ==> (#[trigger] s.tasks[a]).id != (#[trigger] s.tasks[b]).id,
    ensures
        card_of(s, i).assignees == people_of(s.assignees, s.tasks[i].id),
        card_of(s, i).blocked_by == blockers_of(s.dependencies, s.tasks, s.tasks[i].id),
        card_of(s, i).blocks == waiting_on(s.dependencies, s.tasks, s.tasks[i].id),
{
    assert(!carded(s.tasks, i, s.tasks[i].id));
}

/// A task has no more finished subtasks than subtasks, and no more subtasks
/// than there are tasks.
pub proof fn subtasks_are_counted_once(tasks: Seq<TaskModel>, id: Seq<char>)
    ensures
        finished_subtasks_of(tasks, id) <= subtasks_of(tasks, id) <= tasks.len(),
    decreases tasks.len(),
{
    if tasks.len() > 0 {
        subtasks_are_counted_once(tasks.drop_last(), id);
    }
}

proof fn lemma_open_key_is_a_tasks(tasks: Seq<TaskModel>, id: Seq<char>)
    requires
        open_key(tasks, id) is Some,
    ensures
        exists|i: int|
            0 <= i < tasks.len() && (#[trigger] tasks[i]).done_at is None && tasks[i].task_key
                == open_key(tasks, id)->0,
    decreases tasks.len(),
{
    if tasks.last().id == id {
        assert(tasks[tasks.len() - 1].task_key == open_key(tasks, id)->0);
    } else {
        let rest = tasks.drop_last();
        lemma_open_key_is_a_tasks(rest, id);
        let i = choose|i: int|
            0 <= i < rest.len() && (#[trigger] rest[i]).done_at is None && rest[i].task_key
                == open_key(rest, id)->0;
        assert(tasks[i] == rest[i]);
    }
}

/// No chip dangles: every key in front of a card, and every key waiting on it,
/// is the key of an unfinished task of this board.
pub proof fn no_dependency_dangles(
    dependencies: Seq<(Seq<char>, Seq<char>)>,
    tasks: Seq<TaskModel>,
    id: Seq<char>,
    key: Seq<char>,
)
    requires
        blockers_of(dependencies, tasks, id).contains(key) || waiting_on(
            dependencies,
            tasks,
            id,
        ).contains(key),
    ensures
        exists|i: int|
            0 <= i < tasks.len() && (#[trigger] tasks[i]).done_at is None && tasks[i].task_key
                == key,
    decreases dependencies.len(),
{
    if dependencies.len() > 0 {
        let rest = dependencies.drop_last();
        let (blocked, blocking) = dependencies.last();
        if open_key(tasks, blocking) == Some(key) {
            lemma_open_key_is_a_tasks(tasks, blocking);
        } else if open_key(tasks, blocked) == Some(key) {
            lemma_open_key_is_a_tasks(tasks, blocked);
        } else {
            let front = blockers_of(dependencies, tasks, id);
            let behind = waiting_on(dependencies, tasks, id);
            if front.contains(key) {
                let k = choose|k: int| 0 <= k < front.len() && front[k] == key;
                assert(blockers_of(rest, tasks, id)[k] == key);
            } else {
                let k = choose|k: int| 0 <= k < behind.len() && behind[k] == key;
                assert(waiting_on(rest, tasks, id)[k] == key);
            }
            no_dependency_dangles(rest, tasks, id, key);
        }
    }
}

/// The row at `t` is the one the id names: no later row has it.
pub open spec fn names_row(tasks: Seq<TaskModel>, t: int, id: Seq<char>) -> bool {
    &&& 0 <= t < tasks.len()
    &&& tasks[t].id == id
    &&& forall|u: int| t < u < tasks.len() ==> (#[trigger] tasks[u]).id != id
}

/// The id names an unfinished task of the board.
pub open spec fn still_open(tasks: Seq<TaskModel>, id: Seq<char>) -> bool {
    exists|t: int| #[trigger] names_row(tasks, t, id) && tasks[t].done_at is None
}

/// A dependency that keeps a task waiting: an unfinished task of the board stands
/// in front of it.
pub open spec fn holds_up(tasks: Seq<TaskModel>, id: Seq<char>) -> spec_fn(
    (Seq<char>, Seq<char>),
) -> bool {
    |d: (Seq<char>, Seq<char>)| d.0 == id && still_open(tasks, d.1)
}

/// A dependency on a task by which an unfinished task of the board waits.
pub open spec fn waits_for(tasks: Seq<TaskModel>, id: Seq<char>) -> spec_fn(
    (Seq<char>, Seq<char>),
) -> bool {
    |d: (Seq<char>, Seq<char>)| d.1 == id && still_open(tasks, d.0)
}

/// The key is that of the unfinished task the id names.
pub open spec fn key_of_open(tasks: Seq<TaskModel>, id: Seq<char>, key: Seq<char>) -> bool {
    exists|t: int|
        #[trigger] names_row(tasks, t, id) && tasks[t].done_at is None && tasks[t].task_key == key
}

/// No task before the one at `i` gets a card under the same id.
pub open spec fn first_of_its_id(tasks: Seq<TaskModel>, i: int) -> bool {
    &&& 0 <= i < tasks.len()
    &&& forall|j: int|
        0 <= j < i && (#[trigger] tasks[j]).parent_id is None ==> tasks[j].id != tasks[i].id
}

proof fn lemma_task_named_row(tasks: Seq<TaskModel>, id: Seq<char>)
    ensures
        match task_named(tasks, id) {
            Some(task) => exists|t: int| #[trigger] names_row(tasks, t, id) && tasks[t] == task,
            None => forall|t: int| !#[trigger] names_row(tasks, t, id),
        },
    decreases tasks.len(),
{
    if tasks.len() > 0 {
        let rest = tasks.drop_last();
        let last = tasks.len() - 1;
        if tasks.last().id == id {
            assert(names_row(tasks, last, id));
        } else {
            lemma_task_named_row(rest, id);
            match task_named(rest, id) {
                Some(task) => {
                    let t = choose|t: int| #[trigger] names_row(rest, t, id) && rest[t] == task;
                    assert forall|u: int| t < u < tasks.len() implies (#[trigger] tasks[u]).id
                        != id by {
                        if u < last {
                            assert(rest[u] == tasks[u]);
                        }
                    }
                    assert(names_row(tasks, t, id));
                },
                None => {
                    assert forall|t: int| !#[trigger] names_row(tasks, t, id) by {
                        if names_row(tasks, t, id) {
                            assert(t < last);
                            assert forall|u: int| t < u < rest.len() implies (
                            #[trigger] rest[u]).id != id by {
                                assert(rest[u] == tasks[u]);
                            }
                            assert(names_row(rest, t, id));
                        }
                    }
                },
            }
        }
    }
}

proof fn lemma_open_key_row(tasks: Seq<TaskModel>, id: Seq<char>)
    ensures
        open_key(tasks, id) is Some <==> still_open(tasks, id),
        open_key(tasks, id) matches Some(key) ==> key_of_open(tasks, id, key),
{
    lemma_task_named_row(tasks, id);
    match task_named(tasks, id) {
        Some(task) => {
            let t = choose|t: int| #[trigger] names_row(tasks, t, id) && tasks[t] == task;
            assert forall|u: int| #[trigger] names_row(tasks, u, id) implies u == t by {
                if u < t {
                    assert(tasks[t].id != id);
                }
                if t < u {
                    assert(tasks[u].id != id);
                }
            }
        },
        None => {},
    }
}

proof fn lemma_blockers_are_the_open_ones(
    dependencies: Seq<(Seq<char>, Seq<char>)>,
    tasks: Seq<TaskModel>,
    id: Seq<char>,
)
    ensures
        ({
            let front = dependencies.filter(holds_up(tasks, id));
            let keys = blockers_of(dependencies, tasks, id);
            &&& keys.len() == front.len()
            &&& forall|k: int|
                0 <= k < front.len() ==> key_of_open(tasks, front[k].1, #[trigger] keys[k])
        }),
        ({
            let behind = dependencies.filter(waits_for(tasks, id));
            let keys = waiting_on(dependencies, tasks, id);
            &&& keys.len() == behind.len()
            &&& forall|k: int|
                0 <= k < behind.len() ==> key_of_open(tasks, behind[k].0, #[trigger] keys[k])
        }),
    decreases dependencies.len(),
{
    reveal(Seq::filter);
    if dependencies.len() > 0 {
        let (blocked, blocking) = dependencies.last();
        lemma_blockers_are_the_open_ones(dependencies.drop_last(), tasks, id);
        lemma_open_key_row(tasks, blocked);
        lemma_open_key_row(tasks, blocking);
    }
}

/// A card names every unfinished task in front of it, once for each dependency
/// that puts one there, in the order of the sweep, and nothing else; and so every
/// unfinished task that waits on it.
pub proof fn a_card_names_its_open_dependencies(s: Sweeps, i: int)
    requires
        first_of_its_id(s.tasks, i),
    ensures
        ({
            let front = s.dependencies.filter(holds_up(s.tasks, s.tasks[i].id));
            let keys = card_of(s, i).blocked_by;
            &&& keys.len() == front.len()
            &&& forall|k: int|
                0 <= k < front.len() ==> key_of_open(s.tasks, front[k].1, #[trigger] keys[k])
        }),
        ({
            let behind = s.dependencies.filter(waits_for(s.tasks, s.tasks[i].id));
            let keys = card_of(s, i).blocks;
            &&& keys.len() == behind.len()
            &&& forall|k: int|
                0 <= k < behind.len() ==> key_of_open(s.tasks, behind[k].0, #[trigger] keys[k])
        }),
{
    assert(!carded(s.tasks, i, s.tasks[i].id));
    lemma_blockers_are_the_open_ones(s.dependencies, s.tasks, s.tasks[i].id);
}

/// A dependency on an unfinished task of the board is on both cards: the blocked
/// one names the key of the other in front of it, and the other, where the
/// blocked one is unfinished too, names its key as waiting.
pub proof fn a_dependency_is_on_both_cards(s: Sweeps, d: int, i: int, j: int)
    requires
        0 <= d < s.dependencies.len(),
        first_of_its_id(s.tasks, i),
        first_of_its_id(s.tasks, j),
        s.dependencies[d].0 == s.tasks[i].id,
        s.dependencies[d].1 == s.tasks[j].id,
        names_row(s.tasks, i, s.tasks[i].id),
        names_row(s.tasks, j, s.tasks[j].id),
    ensures
        s.tasks[j].done_at is None ==> card_of(s, i).blocked_by.contains(s.tasks[j].task_key),
        s.tasks[i].done_at is None ==> card_of(s, j).blocks.contains(s.tasks[i].task_key),
{
    let front = s.dependencies.filter(holds_up(s.tasks, s.tasks[i].id));
    let behind = s.dependencies.filter(waits_for(s.tasks, s.tasks[j].id));
    a_card_names_its_open_dependencies(s, i);
    a_card_names_its_open_dependencies(s, j);
    if s.tasks[j].done_at is None {
        assert(still_open(s.tasks, s.tasks[j].id));
        s.dependencies.lemma_filter_contains(holds_up(s.tasks, s.tasks[i].id), d);
        let k = choose|k: int| 0 <= k < front.len() && front[k] == s.dependencies[d];
        let key = card_of(s, i).blocked_by[k];
        assert(key_of_open(s.tasks, front[k].1, key));
        lemma_one_row(s.tasks, s.tasks[j].id, key, j);
        assert(card_of(s, i).blocked_by.contains(key));
    }
    if s.tasks[i].done_at is None {
        assert(still_open(s.tasks, s.tasks[i].id));
        s.dependencies.lemma_filter_contains(waits_for(s.tasks, s.tasks[j].id), d);
        let k = choose|k: int| 0 <= k < behind.len() && behind[k] == s.dependencies[d];
        let key = card_of(s, j).blocks[k];
        assert(key_of_open(s.tasks, behind[k].0, key));
        lemma_one_row(s.tasks, s.tasks[i].id, key, i);
        assert(card_of(s, j).blocks.contains(key));
    }
}

proof fn lemma_one_row(tasks: Seq<TaskModel>, id: Seq<char>, key: Seq<char>, t: int)
    requires
        key_of_open(tasks, id, key),
        names_row(tasks, t, id),
    ensures
        key == tasks[t].task_key,
{
    let u = choose|u: int|
        #[trigger] names_row(tasks, u, id) && tasks[u].done_at is None && tasks[u].task_key == key;
    if u < t {
        assert(tasks[t].id != id);
    }
    if t < u {
        assert(tasks[u].id != id);
    }
}

/// A card says of its task what the task's row says.
pub proof fn a_card_tells_its_task(s: Sweeps, i: int)
    requires
        0 <= i < s.tasks.len(),
    ensures
        card_of(s, i).id == s.tasks[i].id,
        card_of(s, i).task_key == s.tasks[i].task_key,
        card_of(s, i).title == s.tasks[i].title,
        card_of(s, i).column_id == s.tasks[i].column_id,
        card_of(s, i).deadline == s.tasks[i].deadline,
        card_of(s, i).clock_at == s.tasks[i].clock_at,
        card_of(s, i).done_at == s.tasks[i].done_at,
        card_of(s, i).position == s.tasks[i].position,
        card_of(s, i).tag == s.tasks[i].tag,
{
}

/// A card carries everyone assigned to its task, once for each assignment, in the
/// order of the sweep, and nobody else.
pub proof fn a_card_carries_its_assignees(s: Sweeps, i: int)
    requires
        first_of_its_id(s.tasks, i),
    ensures
        card_of(s, i).assignees == s.assignees.filter(
            |a: (Seq<char>, PersonModel)| a.0 == s.tasks[i].id,
        ).map_values(|a: (Seq<char>, PersonModel)| a.1),
{
    assert(!carded(s.tasks, i, s.tasks[i].id));
    lemma_people_are_picked(s.assignees, s.tasks[i].id);
}

proof fn lemma_people_are_picked(assignees: Seq<(Seq<char>, PersonModel)>, id: Seq<char>)
    ensures
        people_of(assignees, id) == assignees.filter(
            |a: (Seq<char>, PersonModel)| a.0 == id,
        ).map_values(|a: (Seq<char>, PersonModel)| a.1),
    decreases assignees.len(),
{
    reveal(Seq::filter);
    let own = |a: (Seq<char>, PersonModel)| a.0 == id;
    let person = |a: (Seq<char>, PersonModel)| a.1;
    if assignees.len() > 0 {
        let rest = assignees.drop_last();
        lemma_people_are_picked(rest, id);
        if own(assignees.last()) {
            assert(rest.filter(own).push(assignees.last()).map_values(person) =~= rest.filter(
                own,
            ).map_values(person).push(assignees.last().1));
        }
    }
    assert(people_of(assignees, id) =~= assignees.filter(own).map_values(person));
}

/// A card shows the last number of comments the sweep gives for its task, and
/// none where it gives none.
pub proof fn a_card_counts_its_comments(s: Sweeps, i: int, c: int)
    requires
        0 <= i < s.tasks.len(),
    ensures
        0 <= c < s.comment_counts.len() && s.comment_counts[c].0 == s.tasks[i].id && (forall|
            u: int,
        |
            c < u < s.comment_counts.len() ==> (#[trigger] s.comment_counts[u]).0 != s.tasks[i].id)
            ==> card_of(s, i).comment_count == s.comment_counts[c].1,
        (forall|u: int|
            0 <= u < s.comment_counts.len() ==> (#[trigger] s.comment_counts[u]).0
                != s.tasks[i].id) ==> card_of(s, i).comment_count == 0,
{
    lemma_last_count(s.comment_counts, s.tasks[i].id, c);
}

proof fn lemma_last_count(counts: Seq<(Seq<char>, u32)>, id: Seq<char>, c: int)
    ensures
        0 <= c < counts.len() && counts[c].0 == id && (forall|u: int|
            c < u < counts.len() ==> (#[trigger] counts[u]).0 != id) ==> comments_on(counts, id)
            == counts[c].1,
        (forall|u: int| 0 <= u < counts.len() ==> (#[trigger] counts[u]).0 != id) ==> comments_on(
            counts,
            id,
        ) == 0,
    decreases counts.len(),
{
    if counts.len() > 0 {
        let rest = counts.drop_last();
        lemma_last_count(rest, id, c);
        assert(counts[counts.len() - 1] == counts.last());
        assert(forall|u: int| 0 <= u < rest.len() ==> #[trigger] rest[u] == counts[u]);
    }
}

/// A card counts the tasks under its own, and those of them that are finished,
/// wherever they stand.
pub proof fn a_card_counts_its_subtasks(s: Sweeps, i: int)
    requires
        0 <= i < s.tasks.len(),
    ensures
        card_of(s, i).subtask_total == s.tasks.filter(
            |task: TaskModel| task.parent_id == Some(s.tasks[i].id),
        ).len(),
        card_of(s, i).subtask_done == s.tasks.filter(
            |task: TaskModel| task.parent_id == Some(s.tasks[i].id) && task.done_at is Some,
        ).len(),
{
    lemma_subtasks_are_picked(s.tasks, s.tasks[i].id);
}

proof fn lemma_subtasks_are_picked(tasks: Seq<TaskModel>, id: Seq<char>)
    ensures
        subtasks_of(tasks, id) == tasks.filter(
            |task: TaskModel| task.parent_id == Some(id),
        ).len(),
        finished_subtasks_of(tasks, id) == tasks.filter(
            |task: TaskModel| task.parent_id == Some(id) && task.done_at is Some,
        ).len(),
    decreases tasks.len(),
{
    reveal(Seq::filter);
    if tasks.len() > 0 {
        lemma_subtasks_are_picked(tasks.drop_last(), id);
    }
}

/// A column shows as many cards as it has tasks that are no subtasks; where
/// columns repeat an id, the first of them shows them all and the others none.
pub proof fn a_column_shows_every_task_once(
    board: BoardModel,
    columns: Seq<ColumnModel>,
    s: Sweeps,
    k: int,
)
    requires
        0 <= k < assembled(board, columns, s).columns.len(),
    ensures
        ({
            let shown_columns = assembled(board, columns, s).columns;
            let id = shown_columns[k].column.id;
            shown_columns[k].cards.len() == if exists|j: int|
                0 <= j < k && (#[trigger] shown_columns[j]).column.id == id {
                0
            } else {
                s.tasks.filter(
                    |task: TaskModel| task.parent_id is None && task.column_id == id,
                ).len()
            }
        }),
{
    broadcast use vstd::seq_lib::group_to_multiset_ensures;

    let shown_columns = assembled(board, columns, s).columns;
    let sorted = columns_in_order(columns);
    let id = sorted[k].id;
    let dealt = cards_in(s, id, s.tasks.len() as int);
    assert(forall|j: int|
        0 <= j < sorted.len() ==> (#[trigger] shown_columns[j]).column == sorted[j]);
    if shown(sorted, k, id) {
        let j = choose|j: int| 0 <= j < k && (#[trigger] sorted[j]).id == id;
        assert(shown_columns[j].column.id == id);
    }
    ordering_rearranges(dealt, rank_of::<TaskCard>());
    lemma_dealt_count(s, id, s.tasks.len() as int);
    assert(s.tasks.take(s.tasks.len() as int) =~= s.tasks);
    assert(cards_in_order(dealt).to_multiset().len() == cards_in_order(dealt).len());
    assert(dealt.to_multiset().len() == dealt.len());
}

proof fn lemma_dealt_count(s: Sweeps, id: Seq<char>, n: int)
    requires
        0 <= n <= s.tasks.len(),
    ensures
        cards_in(s, id, n).len() == s.tasks.take(n).filter(
            |task: TaskModel| task.parent_id is None && task.column_id == id,
        ).len(),
    decreases n,
{
    reveal(Seq::filter);
    if n > 0 {
        lemma_dealt_count(s, id, n - 1);
        assert(s.tasks.take(n).drop_last() =~= s.tasks.take(n - 1));
        assert(s.tasks.take(n).last() == s.tasks[n - 1]);
    }
}

/// Of two cards of a column the one that stands first is due no later by the
/// count of days, and a card without a deadline stands before none that has one.
/// Cards due on one day, or never, stand by position, and at one position by key.
pub proof fn a_column_reads_soonest_first(
    board: BoardModel,
    columns: Seq<ColumnModel>,
    s: Sweeps,
    k: int,
    a: int,
    b: int,
)
    requires
        forall|i: int|
            0 <= i < s.tasks.len() ==> ((#[trigger] s.tasks[i]).deadline matches Some(day)
                ==> real_day(day)),
        0 <= k < assembled(board, columns, s).columns.len(),
        0 <= a < b < assembled(board, columns, s).columns[k].cards.len(),
    ensures
        ({
            let one = assembled(board, columns, s).columns[k].cards[a];
            let other = assembled(board, columns, s).columns[k].cards[b];
            &&& other.deadline is Some ==> one.deadline is Some && day_number(one.deadline->0)
                <= day_number(other.deadline->0)
            &&& one.deadline == other.deadline ==> one.position <= other.position
            &&& one.deadline == other.deadline && one.position == other.position
                ==> !text::text_before(other.task_key, one.task_key)
        }),
{
    let cards = assembled(board, columns, s).columns[k].cards;
    let dealt = cards_in(s, columns_in_order(columns)[k].id, s.tasks.len() as int);
    the_board_order_ranks();
    ordering_orders(dealt, rank_of::<TaskCard>());
    assert(cards == cards_in_order(dealt));
    assert(!rank_of::<TaskCard>()(cards[b], cards[a]));
    assert(cards.contains(cards[a]) && cards.contains(cards[b]));
    a_card_stands_in_its_column(board, columns, s, k, cards[a]);
    a_card_stands_in_its_column(board, columns, s, k, cards[b]);
    if cards[a].deadline is Some && cards[b].deadline is Some {
        day_order_is_day_number_order(cards[a].deadline->0, cards[b].deadline->0);
        day_order_is_day_number_order(cards[b].deadline->0, cards[a].deadline->0);
    }
}

/// The board shows its columns, each once, by position, and columns at one
/// position in the order they came.
pub proof fn a_board_shows_its_columns(
    board: BoardModel,
    columns: Seq<ColumnModel>,
    s: Sweeps,
    position: i64,
)
    ensures
        ({
            let shown_columns = assembled(board, columns, s).columns.map_values(
                |c: ColumnCards| c.column,
            );
            &&& assembled(board, columns, s).board == board
            &&& shown_columns.to_multiset() == columns.to_multiset()
            &&& forall|i: int, j: int|
                0 <= i < j < shown_columns.len() ==> (#[trigger] shown_columns[i]).position <= (
                #[trigger] shown_columns[j]).position
            &&& shown_columns.filter(|c: ColumnModel| c.position == position) == columns.filter(
                |c: ColumnModel| c.position == position,
            )
        }),
{
    let shown_columns = assembled(board, columns, s).columns.map_values(|c: ColumnCards| c.column);
    let sorted = columns_in_order(columns);
    assert(shown_columns =~= sorted);
    the_board_order_ranks();
    ordering_rearranges(columns, rank_of::<Column>());
    ordering_orders(columns, rank_of::<Column>());
    assert forall|i: int, j: int| 0 <= i < j < sorted.len() implies (#[trigger] sorted[i]).position
        <= (#[trigger] sorted[j]).position by {
        assert(!rank_of::<Column>()(sorted[j], sorted[i]));
    }
    let at = |c: ColumnModel| c.position == position;
    if exists|k: int| 0 <= k < columns.len() && (#[trigger] columns[k]).position == position {
        let k = choose|k: int| 0 <= k < columns.len() && (#[trigger] columns[k]).position == position;
        ordering_is_stable(columns, columns[k], rank_of::<Column>());
        lemma_ranking_is_position(columns, columns[k]);
        lemma_ranking_is_position(sorted, columns[k]);
        assert(columns.filter(at) == sorted.filter(at));
    } else {
        broadcast use vstd::seq_lib::group_to_multiset_ensures;

        assert forall|j: int| 0 <= j < sorted.len() implies !at(#[trigger] sorted[j]) by {
            assert(sorted.contains(sorted[j]));
            assert(sorted.to_multiset().count(sorted[j]) > 0);
            assert(columns.contains(sorted[j]));
            let k = choose|k: int| 0 <= k < columns.len() && columns[k] == sorted[j];
            assert(columns[k].position != position);
        }
        lemma_nothing_picked(columns, at);
        lemma_nothing_picked(sorted, at);
        assert(columns.filter(at) =~= sorted.filter(at));
    }
}

proof fn lemma_nothing_picked<T>(s: Seq<T>, wanted: spec_fn(T) -> bool)
    requires
        forall|i: int| 0 <= i < s.len() ==> !wanted(#[trigger] s[i]),
    ensures
        s.filter(wanted).len() == 0,
    decreases s.len(),
{
    reveal(Seq::filter);
    if s.len() > 0 {
        let rest = s.drop_last();
        assert forall|i: int| 0 <= i < rest.len() implies !wanted(#[trigger] rest[i]) by {
            assert(rest[i] == s[i]);
        }
        lemma_nothing_picked(rest, wanted);
        assert(!wanted(s[s.len() - 1]));
    }
}

proof fn lemma_ranking_is_position(columns: Seq<ColumnModel>, one: ColumnModel)
    ensures
        ranking_with(columns, one, rank_of::<Column>()) == columns.filter(
            |c: ColumnModel| c.position == one.position,
        ),
    decreases columns.len(),
{
    reveal(Seq::filter);
    if columns.len() > 0 {
        lemma_ranking_is_position(columns.drop_last(), one);
    }
}

/// Where rows repeat an id, only the first card of it carries what was gathered
/// under the id.
pub proof fn a_repeated_id_carries_nothing_more(s: Sweeps, j: int, i: int)
    requires
        0 <= j < i < s.tasks.len(),
        s.tasks[j].parent_id is None,
        s.tasks[j].id == s.tasks[i].id,
    ensures
        card_of(s, i).assignees.len() == 0,
        card_of(s, i).blocked_by.len() == 0,
        card_of(s, i).blocks.len() == 0,
{
    assert(carded(s.tasks, i, s.tasks[i].id));
}

} // verus!
