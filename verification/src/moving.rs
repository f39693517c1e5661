//! Moving a file, by renaming it if that works, else by copying it.
use vstd::prelude::*;

verus! {

/// An action of a move: to see whether there is a file at the target, to remove it, to rename the
/// source, to copy it, to remove the source, to end well, or to fail as the copy did.
#[derive(Debug, Clone, Copy, PartialEq, Eq, Structural)]
pub enum MoveAction {
    CheckTarget,
    RemoveTarget,
    Rename,
    Copy,
    RemoveSource,
    Finish,
    Fail,
}

/// The first action of a move; a move from a place to itself does nothing.
pub fn start_move(same_place: bool) -> (r: MoveAction)
    ensures
        r == (if same_place {
            MoveAction::Finish
        } else {
            MoveAction::CheckTarget
        }),
{
    if same_place {
        MoveAction::Finish
    } else {
        MoveAction::CheckTarget
    }
}

/// The action after one that was answered with yes or no, or that did or did not succeed. Only a
/// copy that fails makes the move fail.
pub open spec fn action_after(done: MoveAction, yes: bool) -> MoveAction {
    match done {
        MoveAction::CheckTarget => if yes {
            MoveAction::RemoveTarget
        } else {
            MoveAction::Rename
        },
        MoveAction::RemoveTarget => MoveAction::Rename,
        MoveAction::Rename => if yes {
            MoveAction::Finish
        } else {
            MoveAction::Copy
        },
        MoveAction::Copy => if yes {
            MoveAction::RemoveSource
        } else {
            MoveAction::Fail
        },
        MoveAction::RemoveSource => MoveAction::Finish,
        MoveAction::Finish => MoveAction::Finish,
        MoveAction::Fail => MoveAction::Fail,
    }
}

/// The action after one that was answered with yes or no, or that did or did not succeed.
pub fn next_move(done: MoveAction, yes: bool) -> (r: MoveAction)
    ensures
        r == action_after(done, yes),
{
    match done {
        MoveAction::CheckTarget => {
            if yes {
                MoveAction::RemoveTarget
            } else {
                MoveAction::Rename
            }
        },
        MoveAction::RemoveTarget => MoveAction::Rename,
        MoveAction::Rename => {
            if yes {
                MoveAction::Finish
            } else {
                MoveAction::Copy
            }
        },
        MoveAction::Copy => {
            if yes {
                MoveAction::RemoveSource
            } else {
                MoveAction::Fail
            }
        },
        MoveAction::RemoveSource => MoveAction::Finish,
        MoveAction::Finish => MoveAction::Finish,
        MoveAction::Fail => MoveAction::Fail,
    }
}

/// What is said where a copy failed.
pub fn copy_failure(source: &str, target: &str, error: &str) -> (r: String)
    ensures
        r@ == "Could not copy "@ + source@ + " → "@ + target@ + ": "@ + error@,
{
    let mut text = "Could not copy ".to_string();
    text.append(source);
    text.append(" → ");
    text.append(target);
    text.append(": ");
    text.append(error);
    text
}

/// How far a move is from its end, at most.
pub open spec fn moves_left(a: MoveAction) -> nat {
    match a {
        MoveAction::CheckTarget => 5,
        MoveAction::RemoveTarget => 4,
        MoveAction::Rename => 3,
        MoveAction::Copy => 2,
        MoveAction::RemoveSource => 1,
        MoveAction::Finish => 0,
        MoveAction::Fail => 0,
    }
}

/// The source is removed only after a copy that succeeded, a move fails only after a copy that did
/// not, and every move ends.
pub proof fn law_source_is_removed_only_after_a_copy(done: MoveAction, yes: bool)
    requires
        !(done is Finish),
        !(done is Fail),
    ensures
        action_after(done, yes) is RemoveSource ==> done is Copy && yes,
        action_after(done, yes) is Fail ==> done is Copy && !yes,
        moves_left(action_after(done, yes)) < moves_left(done),
{
}

} // verus!
