//! The board joined from its sweeps, and the load that reads them.

use iz::assemble::assemble;
use iz::board::{BoardMeta, BoardView, Column, Person, TagChip, TaskCard, TaskRow};
use iz::clock::{Date, OffsetDateTime};
use iz::load::{Given, Loaded, Loading};
use iz::order::sort;
use iz::store::StoreError;

fn meta() -> BoardMeta {
    BoardMeta {
        id: "b1".to_string(),
        name: "Board".to_string(),
        task_prefix: "DZ".to_string(),
    }
}

fn column(id: &str, position: i64) -> Column {
    Column {
        id: id.to_string(),
        name: id.to_uppercase(),
        position,
        is_done: false,
    }
}

fn task(id: &str, key: &str, column_id: &str) -> TaskRow {
    TaskRow {
        id: id.to_string(),
        task_key: key.to_string(),
        title: format!("title of {key}"),
        column_id: column_id.to_string(),
        deadline: None,
        clock_at: None,
        position: 0,
        done_at: None,
        parent_id: None,
        tag: None,
    }
}

fn done(task: TaskRow) -> TaskRow {
    TaskRow {
        done_at: OffsetDateTime::new(1_000, 0, 0),
        ..task
    }
}

fn due(task: TaskRow, year: i32, month: u8, day: u8) -> TaskRow {
    TaskRow {
        deadline: Date::new(year, month, day),
        ..task
    }
}

fn person(id: &str) -> Person {
    Person {
        id: id.to_string(),
        display_name: id.to_string(),
        photo_version: 3,
    }
}

fn pair(a: &str, b: &str) -> (String, String) {
    (a.to_string(), b.to_string())
}

/// The order of a double among all doubles, as an integer.
fn rank(position: f64) -> i64 {
    let bits = position.to_bits() as i64;
    bits ^ (((bits >> 63) as u64) >> 1) as i64
}

fn keys(view: &BoardView, column: usize) -> Vec<&str> {
    view.columns[column]
        .cards
        .iter()
        .map(|card| card.task_key.as_str())
        .collect()
}

fn card<'a>(view: &'a BoardView, key: &str) -> &'a TaskCard {
    view.cards().into_iter().find(|card| card.task_key == key).unwrap()
}

#[test]
fn a_card_carries_what_the_sweeps_gathered() {
    let tagged = TaskRow {
        tag: Some(TagChip {
            id: "t".to_string(),
            name: "Site".to_string(),
        }),
        position: 7,
        clock_at: OffsetDateTime::new(5, 0, 0),
        ..due(task("1", "DZ-1", "todo"), 2026, 9, 12)
    };
    let view = assemble(
        meta(),
        vec![column("todo", 0)],
        vec![
            tagged,
            task("2", "DZ-2", "todo"),
            TaskRow {
                parent_id: Some("1".to_string()),
                ..task("3", "DZ-3", "todo")
            },
            TaskRow {
                parent_id: Some("1".to_string()),
                ..done(task("4", "DZ-4", "todo"))
            },
        ],
        vec![
            ("1".to_string(), person("ada")),
            ("2".to_string(), person("grace")),
            ("1".to_string(), person("linus")),
        ],
        vec![("1".to_string(), 2), ("9".to_string(), 8), ("1".to_string(), 4)],
        vec![pair("1", "2")],
    );
    assert_eq!(view.board, meta());
    assert_eq!(keys(&view, 0), vec!["DZ-1", "DZ-2"]);
    let one = card(&view, "DZ-1");
    assert_eq!(one.id, "1");
    assert_eq!(one.title, "title of DZ-1");
    assert_eq!(one.column_id, "todo");
    assert_eq!(one.position, 7);
    assert_eq!(one.deadline, Date::new(2026, 9, 12));
    assert_eq!(one.clock_at, OffsetDateTime::new(5, 0, 0));
    assert_eq!(one.assignees, vec![person("ada"), person("linus")]);
    assert_eq!(one.comment_count, 4);
    assert_eq!(one.blocked_by, vec!["DZ-2"]);
    assert!(one.blocks.is_empty());
    assert_eq!((one.subtask_done, one.subtask_total), (1, 2));
    assert_eq!(one.tag.as_ref().map(|tag| tag.id.as_str()), Some("t"));
    let two = card(&view, "DZ-2");
    assert_eq!(two.blocks, vec!["DZ-1"]);
    assert!(two.blocked_by.is_empty());
    assert_eq!(two.comment_count, 0);
}

#[test]
fn no_dependency_dangles_or_waits_on_a_finished_task() {
    let view = assemble(
        meta(),
        vec![column("todo", 0)],
        vec![
            task("1", "DZ-1", "todo"),
            done(task("2", "DZ-2", "todo")),
            TaskRow {
                parent_id: Some("2".to_string()),
                ..task("3", "DZ-3", "todo")
            },
        ],
        vec![],
        vec![],
        vec![
            // Finished: dropped on the waiting side, kept on the other.
            pair("1", "2"),
            // Another board's: dropped.
            pair("1", "99"),
            pair("99", "1"),
            // A subtask's key can be in front of a card.
            pair("1", "3"),
        ],
    );
    let one = card(&view, "DZ-1");
    assert_eq!(one.blocked_by, vec!["DZ-3"]);
    assert!(one.blocks.is_empty());
    let two = card(&view, "DZ-2");
    assert_eq!(two.blocks, vec!["DZ-1"]);
    assert!(two.blocked_by.is_empty());
}

#[test]
fn cards_stand_by_deadline_then_position_then_key() {
    let at = |task: TaskRow, position: f64| TaskRow {
        position: rank(position),
        ..task
    };
    let view = assemble(
        meta(),
        vec![column("todo", 0)],
        vec![
            at(task("1", "DZ-9", "todo"), 2.0),
            at(due(task("2", "DZ-2", "todo"), 2026, 10, 1), -1.0),
            at(due(task("3", "DZ-3", "todo"), 2026, 9, 30), 5.0),
            at(due(task("4", "DZ-4", "todo"), 2026, 10, 1), -1.5),
            at(task("5", "DZ-10", "todo"), 2.0),
            at(task("6", "DZ-6", "todo"), -0.0),
            at(task("7", "DZ-7", "todo"), 0.0),
        ],
        vec![],
        vec![],
        vec![],
    );
    assert_eq!(
        keys(&view, 0),
        vec!["DZ-3", "DZ-4", "DZ-2", "DZ-6", "DZ-7", "DZ-10", "DZ-9"]
    );
}

#[test]
fn a_board_forgets_how_its_tasks_were_read() {
    let rows = || {
        vec![
            due(task("1", "DZ-1", "todo"), 2026, 9, 12),
            task("2", "DZ-2", "todo"),
            TaskRow {
                parent_id: Some("1".to_string()),
                ..done(task("3", "DZ-3", "todo"))
            },
            task("4", "DZ-4", "todo"),
        ]
    };
    let view = |order: [usize; 4]| {
        let mut rows: Vec<Option<TaskRow>> = rows().into_iter().map(Some).collect();
        assemble(
            meta(),
            vec![column("todo", 0)],
            order.iter().map(|i| rows[*i].take().unwrap()).collect(),
            vec![("1".to_string(), person("ada"))],
            vec![("2".to_string(), 5)],
            vec![pair("1", "2"), pair("4", "1"), pair("2", "3")],
        )
    };
    let first = view([0, 1, 2, 3]);
    assert_eq!(keys(&first, 0), vec!["DZ-1", "DZ-2", "DZ-4"]);
    assert_eq!(card(&first, "DZ-1").blocked_by, vec!["DZ-2"]);
    assert_eq!(card(&first, "DZ-1").blocks, vec!["DZ-4"]);
    for order in [[3, 2, 1, 0], [2, 0, 3, 1], [1, 3, 0, 2], [0, 2, 1, 3]] {
        assert_eq!(view(order), first, "{order:?}");
    }
}

#[test]
fn columns_stand_by_position_and_hold_their_own_cards() {
    let view = assemble(
        meta(),
        vec![column("done", 5), column("todo", -1), column("doing", 5)],
        vec![
            task("1", "DZ-1", "doing"),
            task("2", "DZ-2", "done"),
            task("3", "DZ-3", "nowhere"),
            task("4", "DZ-4", "todo"),
        ],
        vec![],
        vec![],
        vec![],
    );
    let ids: Vec<&str> = view.columns.iter().map(|view| view.column.id.as_str()).collect();
    assert_eq!(ids, vec!["todo", "done", "doing"]);
    assert_eq!(keys(&view, 0), vec!["DZ-4"]);
    assert_eq!(keys(&view, 1), vec!["DZ-2"]);
    assert_eq!(keys(&view, 2), vec!["DZ-1"]);
    assert_eq!(view.task_count(), 3);
}

#[test]
fn where_rows_repeat_an_id_the_first_card_carries_it_all() {
    let view = assemble(
        meta(),
        vec![column("todo", 0), column("todo", 1)],
        vec![task("1", "DZ-1", "todo"), done(task("1", "DZ-2", "todo"))],
        vec![("1".to_string(), person("ada"))],
        vec![("1".to_string(), 3)],
        vec![pair("1", "1")],
    );
    assert_eq!(keys(&view, 0), vec!["DZ-1", "DZ-2"]);
    assert!(view.columns[1].cards.is_empty());
    assert_eq!(card(&view, "DZ-1").assignees.len(), 1);
    assert!(card(&view, "DZ-2").assignees.is_empty());
    assert_eq!(card(&view, "DZ-2").comment_count, 3);
    // The last row names the task, and it is finished.
    assert!(card(&view, "DZ-1").blocked_by.is_empty());
}

#[test]
fn sorting_keeps_equals_in_order() {
    let mut columns = vec![
        column("a", 2),
        column("b", 1),
        column("c", 2),
        column("d", 1),
        column("e", i64::MIN),
    ];
    sort(&mut columns);
    let ids: Vec<&str> = columns.iter().map(|column| column.id.as_str()).collect();
    assert_eq!(ids, vec!["e", "b", "d", "a", "c"]);
}

#[test]
fn a_board_is_loaded_in_six_queries() {
    let mut loading = Loading::start();
    let mut queries = 0;
    let view = loop {
        queries += 1;
        let given = match &loading {
            Loading::Board => Given::Board(Some(meta())),
            Loading::Columns { board } => {
                assert_eq!(board.id, "b1");
                Given::Columns(vec![column("todo", 0)])
            }
            Loading::Tasks { .. } => Given::Tasks(vec![task("1", "DZ-1", "todo")]),
            Loading::Assignees { .. } => {
                Given::Assignees(vec![("1".to_string(), person("ada"))])
            }
            Loading::CommentCounts { .. } => Given::CommentCounts(vec![("1".to_string(), 1)]),
            Loading::Dependencies { .. } => Given::Dependencies(vec![]),
        };
        match loading.step(given) {
            Loaded::Asks(next) => loading = next,
            Loaded::Done(result) => break result.unwrap().unwrap(),
        }
    };
    assert_eq!(queries, 6);
    assert_eq!(keys(&view, 0), vec!["DZ-1"]);
    assert_eq!(card(&view, "DZ-1").comment_count, 1);
}

#[test]
fn a_workspace_without_a_board_has_none_and_a_refusal_is_the_answer() {
    assert!(matches!(
        Loading::start().step(Given::Board(None)),
        Loaded::Done(Ok(None))
    ));
    let columns = Loading::Columns { board: meta() };
    assert!(matches!(
        columns.step(Given::Refused(StoreError::NotFound)),
        Loaded::Done(Err(StoreError::NotFound))
    ));
}
