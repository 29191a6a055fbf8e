//! Turning the user's answer into an action.

use vstd::prelude::*;
use super::input::ParsedInput;
use super::model::{Action, RepairCase};

verus! {

/// What an answer amounts to.
#[derive(Debug, PartialEq, Eq)]
pub enum Resolved {
    Action(Action),
    /// A path still has to be asked for.
    NeedsCustomPath,
}

/// The action an answer asks for: relinking to the chosen candidate,
/// skipping, removing, or (for a custom path) the need to ask for the path.
pub fn resolve(parsed: ParsedInput, case: &RepairCase) -> (r: Resolved)
    requires
        parsed matches ParsedInput::SelectCandidate(idx) ==> idx < case.candidates@.len(),
    ensures
        r == match parsed {
            ParsedInput::SelectCandidate(idx) => Resolved::Action(
                Action::Relink(case.candidates@[idx as int].path),
            ),
            ParsedInput::Skip => Resolved::Action(Action::Skip),
            ParsedInput::Remove => Resolved::Action(Action::Remove),
            ParsedInput::CustomPath => Resolved::NeedsCustomPath,
        },
{
    let RepairCase { ref candidates, .. } = *case;
    match parsed {
        ParsedInput::SelectCandidate(idx) => {
            Resolved::Action(Action::Relink(candidates[idx].path.clone()))
        },
        ParsedInput::Skip => Resolved::Action(Action::Skip),
        ParsedInput::Remove => Resolved::Action(Action::Remove),
        ParsedInput::CustomPath => Resolved::NeedsCustomPath,
    }
}

/// Relinking to a path the user typed.
pub fn resolve_custom(path: String) -> (a: Action)
    ensures
        a == Action::Relink(path),
{
    Action::Relink(path)
}

} // verus!
