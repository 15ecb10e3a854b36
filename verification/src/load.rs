//! Loading a whole board in six queries: one for the board and one sweep per
//! thing a card carries.

use crate::assemble::{assemble, assembled, Sweeps};
use crate::board::{BoardMeta, BoardView, Column, Person, TaskRow};
use crate::store::StoreError;
use vstd::prelude::*;

verus! {

/// What a load has read so far, which is what it asks for next.
pub enum Loading {
    /// The workspace's board.
    Board,
    Columns { board: BoardMeta },
    Tasks { board: BoardMeta, columns: Vec<Column> },
    Assignees { board: BoardMeta, columns: Vec<Column>, tasks: Vec<TaskRow> },
    CommentCounts {
        board: BoardMeta,
        columns: Vec<Column>,
        tasks: Vec<TaskRow>,
        assignees: Vec<(String, Person)>,
    },
    Dependencies {
        board: BoardMeta,
        columns: Vec<Column>,
        tasks: Vec<TaskRow>,
        assignees: Vec<(String, Person)>,
        comment_counts: Vec<(String, u32)>,
    },
}

/// What a query gave.
pub enum Given {
    Board(Option<BoardMeta>),
    Columns(Vec<Column>),
    Tasks(Vec<TaskRow>),
    Assignees(Vec<(String, Person)>),
    CommentCounts(Vec<(String, u32)>),
    Dependencies(Vec<(String, String)>),
    Refused(StoreError),
}

/// Where a load stands after a query.
pub enum Loaded {
    /// The next query.
    Asks(Loading),
    /// The board, or none, or why there is no telling.
    Done(Result<Option<BoardView>, StoreError>),
}

/// A query gives what it was asked for, or is refused. The board's subtasks are
/// counted in 32 bits.
pub open spec fn gives(loading: Loading, given: Given) -> bool {
    &&& match loading {
        Loading::Board => given is Board || given is Refused,
        Loading::Columns { .. } => given is Columns || given is Refused,
        Loading::Tasks { .. } => given is Tasks || given is Refused,
        Loading::Assignees { .. } => given is Assignees || given is Refused,
        Loading::CommentCounts { .. } => given is CommentCounts || given is Refused,
        Loading::Dependencies { .. } => given is Dependencies || given is Refused,
    }
    &&& loading matches Loading::Dependencies { tasks, .. } ==> tasks@.len() <= u32::MAX
}

/// The queries a load has made before this one.
pub open spec fn queries_made(loading: Loading) -> nat {
    match loading {
        Loading::Board => 0,
        Loading::Columns { .. } => 1,
        Loading::Tasks { .. } => 2,
        Loading::Assignees { .. } => 3,
        Loading::CommentCounts { .. } => 4,
        Loading::Dependencies { .. } => 5,
    }
}

/// `after` is where a load stands once a query gave this.
pub open spec fn loaded_after(loading: Loading, given: Given, after: Loaded) -> bool {
    match (loading, given) {
        (_, Given::Refused(e)) => after == Loaded::Done(Err(e)),
        (Loading::Board, Given::Board(None)) => after == Loaded::Done(Ok(None)),
        (Loading::Board, Given::Board(Some(board))) => after == Loaded::Asks(
            Loading::Columns { board },
        ),
        (Loading::Columns { board }, Given::Columns(columns)) => after == Loaded::Asks(
            Loading::Tasks { board, columns },
        ),
        (Loading::Tasks { board, columns }, Given::Tasks(tasks)) => after == Loaded::Asks(
            Loading::Assignees { board, columns, tasks },
        ),
        (Loading::Assignees { board, columns, tasks }, Given::Assignees(assignees)) => after
            == Loaded::Asks(Loading::CommentCounts { board, columns, tasks, assignees }),
        (
            Loading::CommentCounts { board, columns, tasks, assignees },
            Given::CommentCounts(comment_counts),
        ) => after == Loaded::Asks(
            Loading::Dependencies { board, columns, tasks, assignees, comment_counts },
        ),
        (
            Loading::Dependencies { board, columns, tasks, assignees, comment_counts },
            Given::Dependencies(dependencies),
        ) => after matches Loaded::Done(Ok(Some(view))) && view.deep_view() == assembled(
            board.deep_view(),
            columns.deep_view(),
            (Sweeps {
                tasks: tasks.deep_view(),
                assignees: assignees.deep_view(),
                comment_counts: comment_counts.deep_view(),
                dependencies: dependencies.deep_view(),
            }),
        ),
        _ => false,
    }
}

impl Loading {
    /// A load starts with the board itself.
    pub fn start() -> (r: Loading)
        ensures
            r is Board,
    {
        Loading::Board
    }

    /// One query's answer: the next query, or the end. A refused query ends the
    /// load with its error, and a workspace without a board has none.
    pub fn step(self, given: Given) -> (r: Loaded)
        requires
            gives(self, given),
        ensures
            loaded_after(self, given, r),
    {
        match (self, given) {
            (_, Given::Refused(e)) => Loaded::Done(Err(e)),
            (Loading::Board, Given::Board(None)) => Loaded::Done(Ok(None)),
            (Loading::Board, Given::Board(Some(board))) => Loaded::Asks(Loading::Columns { board }),
            (Loading::Columns { board }, Given::Columns(columns)) => Loaded::Asks(
                Loading::Tasks { board, columns },
            ),
            (Loading::Tasks { board, columns }, Given::Tasks(tasks)) => Loaded::Asks(
                Loading::Assignees { board, columns, tasks },
            ),
            (Loading::Assignees { board, columns, tasks }, Given::Assignees(assignees)) => Loaded::Asks(
                Loading::CommentCounts { board, columns, tasks, assignees },
            ),
            (
                Loading::CommentCounts { board, columns, tasks, assignees },
                Given::CommentCounts(comment_counts),
            ) => Loaded::Asks(
                Loading::Dependencies { board, columns, tasks, assignees, comment_counts },
            ),
            (
                Loading::Dependencies { board, columns, tasks, assignees, comment_counts },
                Given::Dependencies(dependencies),
            ) => Loaded::Done(
                Ok(
                    Some(
                        assemble(board, columns, tasks, assignees, comment_counts, dependencies),
                    ),
                ),
            ),
            (_, _) => Loaded::Done(Ok(None)),
        }
    }
}

/// A board costs the same six queries at any size: every answer is followed by
/// the next of them or by the end, and a board is only ever the end of the
/// sixth.
pub proof fn a_board_costs_six_queries(loading: Loading, given: Given, after: Loaded)
    requires
        gives(loading, given),
        loaded_after(loading, given, after),
    ensures
        queries_made(loading) <= 5,
        after matches Loaded::Asks(next) ==> queries_made(next) == queries_made(loading) + 1,
        (after matches Loaded::Done(Ok(Some(_)))) ==> queries_made(loading) == 5,
{
}

/// A refused query is the load's own error.
pub proof fn a_refused_query_is_the_answer(loading: Loading, e: StoreError, after: Loaded)
    requires
        loaded_after(loading, Given::Refused(e), after),
    ensures
        after == Loaded::Done(Err(e)),
{
}

/// A load asks for one thing after the other and loses nothing on the way: the
/// board, its columns, its tasks, its assignments, its comment counts and its
/// dependencies; a workspace without a board ends it at once.
pub proof fn a_load_keeps_what_it_read(
    loading: Loading,
    given: Given,
    after: Loaded,
    board: BoardMeta,
    columns: Vec<Column>,
    tasks: Vec<TaskRow>,
    assignees: Vec<(String, Person)>,
    comment_counts: Vec<(String, u32)>,
)
    requires
        loaded_after(loading, given, after),
    ensures
        loading is Board && given == Given::Board(None) ==> after == Loaded::Done(Ok(None)),
        loading is Board && given == Given::Board(Some(board)) ==> after == Loaded::Asks(
            Loading::Columns { board },
        ),
        loading == (Loading::Columns { board }) && given == Given::Columns(columns) ==> after
            == Loaded::Asks(Loading::Tasks { board, columns }),
        loading == (Loading::Tasks { board, columns }) && given == Given::Tasks(tasks) ==> after
            == Loaded::Asks(Loading::Assignees { board, columns, tasks }),
        loading == (Loading::Assignees { board, columns, tasks }) && given == Given::Assignees(
            assignees,
        ) ==> after == Loaded::Asks(
            Loading::CommentCounts { board, columns, tasks, assignees },
        ),
        loading == (Loading::CommentCounts { board, columns, tasks, assignees }) && given
            == Given::CommentCounts(comment_counts) ==> after == Loaded::Asks(
            Loading::Dependencies { board, columns, tasks, assignees, comment_counts },
        ),
{
}

} // verus!
