//! What the process is started to do.

use crate::text;
use vstd::prelude::*;

verus! {

// ---------------------------------------------------------------------------
// Arguments
// ---------------------------------------------------------------------------

/// What the process was started to do.
#[derive(Debug, Clone, PartialEq, Eq)]
pub enum Command {
    /// Serve the board.
    Serve,
    /// Reconcile the database with the storage tree.
    Reconcile { dry_run: bool, yes: bool },
    /// An option nobody knows: the line to leave with.
    Unknown(String),
}

/// What a [`Command`] says.
pub enum Asked {
    Serve,
    Reconcile { dry_run: bool, yes: bool },
    Unknown(Seq<char>),
}

impl DeepView for Command {
    type V = Asked;

    open spec fn deep_view(&self) -> Asked {
        match self {
            Command::Serve => Asked::Serve,
            Command::Reconcile { dry_run, yes } => Asked::Reconcile {
                dry_run: *dry_run,
                yes: *yes,
            },
            Command::Unknown(line) => Asked::Unknown(line@),
        }
    }
}

/// What the options of a reconcile come to, read from the front: the first one
/// nobody knows ends it.
pub open spec fn reconcile_options(options: Seq<Seq<char>>, dry_run: bool, yes: bool) -> Asked
    decreases options.len(),
{
    if options.len() == 0 {
        Asked::Reconcile { dry_run, yes }
    } else if options[0] == "--dry-run"@ {
        reconcile_options(options.drop_first(), true, yes)
    } else if options[0] == "--yes"@ {
        reconcile_options(options.drop_first(), dry_run, true)
    } else {
        Asked::Unknown("iz reconcile: unknown option "@ + options[0])
    }
}

/// What the arguments ask for, the program's own name first.
pub open spec fn asked(args: Seq<Seq<char>>) -> Asked {
    if args.len() > 1 && args[1] == "reconcile"@ {
        reconcile_options(args.skip(2), false, false)
    } else {
        Asked::Serve
    }
}

/// Reads the process's arguments, the program's own name first.
pub fn command_of(args: &Vec<String>) -> (r: Command)
    ensures
        r.deep_view() == asked(args.deep_view()),
{
    let ghost words = args.deep_view();
    if args.len() <= 1 || *args[1].as_str() != *"reconcile" {
        return Command::Serve;
    }
    let mut dry_run = false;
    let mut yes = false;
    let mut i: usize = 2;
    while i < args.len()
        invariant
            2 <= i <= args@.len(),
            words == args.deep_view(),
            words[1] == "reconcile"@,
            reconcile_options(words.skip(2), false, false) == reconcile_options(
                words.skip(i as int),
                dry_run,
                yes,
            ),
        decreases args@.len() - i,
    {
        assert(words.skip(i as int)[0] == args@[i as int]@);
        assert(words.skip(i as int).drop_first() =~= words.skip(i + 1));
        if *args[i].as_str() == *"--dry-run" {
            dry_run = true;
        } else if *args[i].as_str() == *"--yes" {
            yes = true;
        } else {
            return Command::Unknown(
                text::join2("iz reconcile: unknown option ", args[i].as_str()),
            );
        }
        i = i + 1;
    }
    Command::Reconcile { dry_run, yes }
}

// ---------------------------------------------------------------------------
// Laws
// ---------------------------------------------------------------------------

/// A reconcile does what its options say, in whatever order and however often
/// they stand: a dry run where one of them asks for it, without a question where
/// one of them answers it.
pub proof fn options_count_wherever_they_stand(options: Seq<Seq<char>>, dry_run: bool, yes: bool)
    requires
        forall|i: int|
            0 <= i < options.len() ==> #[trigger] options[i] == "--dry-run"@ || options[i]
                == "--yes"@,
    ensures
        reconcile_options(options, dry_run, yes) == (Asked::Reconcile {
            dry_run: dry_run || options.contains("--dry-run"@),
            yes: yes || options.contains("--yes"@),
        }),
    decreases options.len(),
{
    reveal_strlit("--dry-run");
    reveal_strlit("--yes");
    assert("--dry-run"@.len() != "--yes"@.len());
    if options.len() > 0 {
        let rest = options.drop_first();
        assert forall|i: int| 0 <= i < rest.len() implies #[trigger] rest[i] == "--dry-run"@
            || rest[i] == "--yes"@ by {
            assert(rest[i] == options[i + 1]);
        }
        assert(options[0] == "--dry-run"@ || options[0] == "--yes"@);
        assert forall|x: Seq<char>| options.contains(x) <==> x == options[0] || rest.contains(
            x,
        ) by {
            if options.contains(x) {
                let k = choose|k: int| 0 <= k < options.len() && options[k] == x;
                if k > 0 {
                    assert(rest[k - 1] == x);
                }
            }
            if rest.contains(x) {
                let k = choose|k: int| 0 <= k < rest.len() && rest[k] == x;
                assert(options[k + 1] == x);
            }
        }
        options_count_wherever_they_stand(
            rest,
            dry_run || options[0] == "--dry-run"@,
            yes || options[0] == "--yes"@,
        );
    }
}

/// The first option nobody knows is told, whatever stands before or behind it,
/// and nothing is reconciled.
pub proof fn an_unknown_option_is_told(
    options: Seq<Seq<char>>,
    k: int,
    dry_run: bool,
    yes: bool,
)
    requires
        0 <= k < options.len(),
        options[k] != "--dry-run"@,
        options[k] != "--yes"@,
        forall|i: int|
            0 <= i < k ==> #[trigger] options[i] == "--dry-run"@ || options[i] == "--yes"@,
    ensures
        reconcile_options(options, dry_run, yes) == Asked::Unknown(
            "iz reconcile: unknown option "@ + options[k],
        ),
    decreases options.len(),
{
    if k > 0 {
        let rest = options.drop_first();
        assert(options[0] == "--dry-run"@ || options[0] == "--yes"@);
        assert forall|i: int| 0 <= i < k - 1 implies #[trigger] rest[i] == "--dry-run"@
            || rest[i] == "--yes"@ by {
            assert(rest[i] == options[i + 1]);
        }
        if options[0] == "--dry-run"@ {
            an_unknown_option_is_told(rest, k - 1, true, yes);
        } else {
            an_unknown_option_is_told(rest, k - 1, dry_run, true);
        }
    }
}

/// Only the word `reconcile` right behind the program's name reconciles, with the
/// words behind it as options; anything else serves the board.
pub proof fn anything_else_serves(program: Seq<char>, options: Seq<Seq<char>>, args: Seq<Seq<char>>)
    ensures
        asked(seq![program, "reconcile"@] + options) == reconcile_options(options, false, false),
        args.len() < 2 ==> asked(args) == Asked::Serve,
        args.len() >= 2 && args[1] != "reconcile"@ ==> asked(args) == Asked::Serve,
{
    let given = seq![program, "reconcile"@] + options;
    assert(given.skip(2) =~= options);
}

} // verus!
