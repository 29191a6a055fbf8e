//! Carrying out an action on the filesystem, step by step: this module
//! decides which operation comes next and what a failure means; the caller
//! performs each operation and reports how it went.

use vstd::prelude::*;
use super::model::Action;
use crate::text::{append_str, owned};

verus! {

/// `std::io::Error`, the error of a filesystem operation.
#[verifier::external_type_specification]
#[verifier::external_body]
pub struct ExIoError(std::io::Error);

/// A repair that the filesystem refused.
#[derive(Debug)]
pub enum FsError {
    /// The link could not be removed.
    RemoveFailed { path: String, source: std::io::Error },
    /// The new link could not be created.
    SymlinkFailed { link: String, target: String, source: std::io::Error },
}

/// One filesystem operation.
#[derive(Debug, PartialEq, Eq)]
pub enum FsOp {
    /// Remove the file (here: the link) at `path`.
    RemoveFile { path: String },
    /// Create a symbolic link at `link` that points at `target`.
    Symlink { target: String, link: String },
}

/// What to do next.
#[derive(Debug)]
pub enum Step {
    /// Perform this operation and report its outcome.
    Perform(FsOp),
    /// The action is over, with this outcome.
    Finish(Result<(), FsError>),
}

/// A filesystem operation, with paths taken as character sequences.
pub enum OpView {
    RemoveFile(Seq<char>),
    /// Target, then link.
    Symlink(Seq<char>, Seq<char>),
}

impl FsOp {
    pub open spec fn view(self) -> OpView {
        match self {
            FsOp::RemoveFile { path } => OpView::RemoveFile(path@),
            FsOp::Symlink { target, link } => OpView::Symlink(target@, link@),
        }
    }
}

/// The operations that carry out `action` on `link`, in order: none for a
/// skip or in a dry run, the removal of the link for a removal, and the
/// removal followed by the new link for a relink.
pub open spec fn planned_ops(link: Seq<char>, action: Action, dry_run: bool) -> Seq<OpView> {
    if dry_run {
        Seq::empty()
    } else {
        match action {
            Action::Skip => Seq::empty(),
            Action::Remove => seq![OpView::RemoveFile(link)],
            Action::Relink(target) => seq![OpView::RemoveFile(link), OpView::Symlink(target@, link)],
        }
    }
}

/// `err` reports that the operation `op` failed with `source`.
pub open spec fn reports(err: FsError, op: OpView, source: std::io::Error) -> bool {
    match op {
        OpView::RemoveFile(p) => err matches FsError::RemoveFailed { path, source: s } && path@
            == p && s == source,
        OpView::Symlink(t, l) => err matches FsError::SymlinkFailed { link, target, source: s }
            && link@ == l && target@ == t && s == source,
    }
}


/// The next step of carrying out `action` on `link` (a dry run touching
/// nothing), after `attempted` of its operations were performed, the last
/// of them having failed with `failure` if that is `Some`: a failure ends
/// the action with the error that reports it, otherwise the next planned
/// operation is performed, and once all of them succeeded the action ends
/// well.
pub fn execute(link: &str, action: &Action, dry_run: bool, attempted: usize, failure: Option<std::io::Error>) -> (r: Step)
    requires
        attempted <= planned_ops(link@, *action, dry_run).len(),
        failure is Some ==> attempted > 0,
    ensures
        match failure {
            Some(e) => r matches Step::Finish(Err(err)) && reports(
                err,
                planned_ops(link@, *action, dry_run)[attempted - 1],
                e,
            ),
            None => if attempted < planned_ops(link@, *action, dry_run).len() {
                r matches Step::Perform(op) && op.view() == planned_ops(
                    link@,
                    *action,
                    dry_run,
                )[attempted as int]
            } else {
                r matches Step::Finish(Ok(()))
            },
        },
{
    match action {
        Action::Skip => Step::Finish(Ok(())),
        Action::Remove => {
            if dry_run {
                return Step::Finish(Ok(()));
            }
            match failure {
                Some(source) => Step::Finish(Err(FsError::RemoveFailed { path: owned(link), source })),
                None => if attempted == 0 {
                    Step::Perform(FsOp::RemoveFile { path: owned(link) })
                } else {
                    Step::Finish(Ok(()))
                },
            }
        },
        Action::Relink(target) => {
            if dry_run {
                return Step::Finish(Ok(()));
            }
            match failure {
                Some(source) => if attempted == 1 {
                    Step::Finish(Err(FsError::RemoveFailed { path: owned(link), source }))
                } else {
                    Step::Finish(
                        Err(
                            FsError::SymlinkFailed {
                                link: owned(link),
                                target: target.clone(),
                                source,
                            },
                        ),
                    )
                },
                None => if attempted == 0 {
                    Step::Perform(FsOp::RemoveFile { path: owned(link) })
                } else if attempted == 1 {
                    Step::Perform(FsOp::Symlink { target: target.clone(), link: owned(link) })
                } else {
                    Step::Finish(Ok(()))
                },
            }
        },
    }
}

/// The message of `err` when its cause reads `source_text`.
pub open spec fn error_text(err: FsError, source_text: Seq<char>) -> Seq<char> {
    match err {
        FsError::RemoveFailed { path, .. } => "failed to remove "@ + path@ + ": "@ + source_text,
        FsError::SymlinkFailed { link, target, .. } => "failed to symlink "@ + link@ + " -> "@
            + target@ + ": "@ + source_text,
    }
}

/// The message of a `std::io::Error`, as its `Display` writes it (through
/// `format!`). It depends on the operating system and its locale, so no
/// clause states what it says.
#[verifier::external_body]
fn io_error_text(e: &std::io::Error) -> String {
    format!("{}", e)
}

impl FsError {
    /// The message of this error when its cause reads `source_text`.
    pub fn describe(&self, source_text: &str) -> (s: String)
        ensures
            s@ == error_text(*self, source_text@),
    {
        let mut s = String::new();
        match self {
            FsError::RemoveFailed { path, .. } => {
                append_str(&mut s, "failed to remove ");
                append_str(&mut s, path.as_str());
            },
            FsError::SymlinkFailed { link, target, .. } => {
                append_str(&mut s, "failed to symlink ");
                append_str(&mut s, link.as_str());
                append_str(&mut s, " -> ");
                append_str(&mut s, target.as_str());
            },
        }
        append_str(&mut s, ": ");
        append_str(&mut s, source_text);
        s
    }

    /// The message of this error, naming the path or paths involved and
    /// ending with the message of its cause.
    pub fn to_string(&self) -> (s: String)
        ensures
            exists|t: Seq<char>| s@ == error_text(*self, t),
    {
        let source = match self {
            FsError::RemoveFailed { source, .. } => source,
            FsError::SymlinkFailed { source, .. } => source,
        };
        let text = io_error_text(source);
        self.describe(text.as_str())
    }
}

/// A dry run and a skip plan no filesystem operation at all.
pub proof fn lemma_dry_run_and_skip_touch_nothing(link: Seq<char>, action: Action, dry_run: bool)
    requires
        dry_run || action is Skip,
    ensures
        planned_ops(link, action, dry_run).len() == 0,
{
}

/// A relink removes the old link before it creates the new one, and both
/// concern the same link.
pub proof fn lemma_relink_removes_first(link: Seq<char>, target: String)
    ensures
        planned_ops(link, Action::Relink(target), false) == seq![
            OpView::RemoveFile(link),
            OpView::Symlink(target@, link),
        ],
{
}

} // verus!
