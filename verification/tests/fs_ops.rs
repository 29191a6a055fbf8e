use std::io;
use unrot_core::{execute, Action, FsError, FsOp, Step};

fn perform_all(link: &str, action: &Action, dry_run: bool, outcomes: Vec<io::Result<()>>) -> (Vec<FsOp>, Result<(), FsError>) {
    let mut done = Vec::new();
    let mut attempted = 0;
    let mut failure = None;
    let mut outcomes = outcomes.into_iter();
    loop {
        match execute(link, action, dry_run, attempted, failure.take()) {
            Step::Perform(op) => {
                done.push(op);
                attempted += 1;
                failure = outcomes.next().unwrap().err();
            }
            Step::Finish(r) => return (done, r),
        }
    }
}

#[test]
fn error_display_includes_path() {
    let err = FsError::RemoveFailed {
        path: "/some/link".into(),
        source: std::io::Error::new(std::io::ErrorKind::NotFound, "not found"),
    };
    let msg = err.to_string();
    assert!(msg.contains("/some/link"));
    assert!(msg.contains("not found"));
}

#[test]
fn error_display_symlink_includes_both_paths() {
    let err = FsError::SymlinkFailed {
        link: "/some/link".into(),
        target: "/some/target".into(),
        source: std::io::Error::new(std::io::ErrorKind::PermissionDenied, "denied"),
    };
    let msg = err.to_string();
    assert!(msg.contains("/some/link"));
    assert!(msg.contains("/some/target"));
    assert!(msg.contains("denied"));
}

#[test]
fn error_messages_exactly() {
    let err = FsError::RemoveFailed {
        path: "/l".into(),
        source: io::Error::new(io::ErrorKind::NotFound, "gone"),
    };
    assert_eq!(err.to_string(), "failed to remove /l: gone");
    assert_eq!(err.describe("why"), "failed to remove /l: why");
    let err = FsError::SymlinkFailed {
        link: "/l".into(),
        target: "/t".into(),
        source: io::Error::new(io::ErrorKind::Other, "no"),
    };
    assert_eq!(err.to_string(), "failed to symlink /l -> /t: no");
}

#[test]
fn skip_is_noop() {
    let (ops, r) = perform_all("/l", &Action::Skip, false, vec![]);
    assert!(ops.is_empty());
    assert!(r.is_ok());
}

#[test]
fn dry_run_plans_nothing() {
    for action in [Action::Skip, Action::Remove, Action::Relink("/t".into())] {
        let (ops, r) = perform_all("/l", &action, true, vec![]);
        assert!(ops.is_empty());
        assert!(r.is_ok());
    }
}

#[test]
fn remove_deletes_symlink() {
    let (ops, r) = perform_all("/l", &Action::Remove, false, vec![Ok(())]);
    assert_eq!(ops, vec![FsOp::RemoveFile { path: "/l".into() }]);
    assert!(r.is_ok());
}

#[test]
fn relink_replaces_symlink() {
    let (ops, r) = perform_all("/l", &Action::Relink("/t".into()), false, vec![Ok(()), Ok(())]);
    assert_eq!(
        ops,
        vec![
            FsOp::RemoveFile { path: "/l".into() },
            FsOp::Symlink { target: "/t".into(), link: "/l".into() },
        ]
    );
    assert!(r.is_ok());
}

#[test]
fn failed_removal_stops_a_relink() {
    let (ops, r) = perform_all(
        "/l",
        &Action::Relink("/t".into()),
        false,
        vec![Err(io::Error::new(io::ErrorKind::NotFound, "nf"))],
    );
    assert_eq!(ops.len(), 1);
    match r {
        Err(FsError::RemoveFailed { path, .. }) => assert_eq!(path, "/l"),
        other => panic!("unexpected {:?}", other),
    }
}

#[test]
fn failed_symlink_is_reported_with_both_paths() {
    let (ops, r) = perform_all(
        "/l",
        &Action::Relink("/t".into()),
        false,
        vec![Ok(()), Err(io::Error::new(io::ErrorKind::PermissionDenied, "pd"))],
    );
    assert_eq!(ops.len(), 2);
    match r {
        Err(FsError::SymlinkFailed { link, target, .. }) => {
            assert_eq!(link, "/l");
            assert_eq!(target, "/t");
        }
        other => panic!("unexpected {:?}", other),
    }
}

#[test]
fn dry_run_relink_does_not_modify() {
    let (ops, r) = perform_all("/tmp/x/my_link", &Action::Relink("/tmp/x/new_target.txt".into()), true, vec![]);
    assert!(ops.is_empty());
    assert!(r.is_ok());
}

#[test]
fn dry_run_remove_does_not_modify() {
    let (ops, r) = perform_all("/tmp/x/my_link", &Action::Remove, true, vec![]);
    assert!(ops.is_empty());
    assert!(r.is_ok());
}

#[test]
fn remove_nonexistent_fails() {
    // Removing a link that does not exist fails with `NotFound`.
    let (ops, result) = perform_all(
        "/tmp/x/no_such_link",
        &Action::Remove,
        false,
        vec![Err(io::Error::new(io::ErrorKind::NotFound, "No such file or directory"))],
    );
    assert_eq!(ops, vec![FsOp::RemoveFile { path: "/tmp/x/no_such_link".into() }]);
    assert!(result.is_err());
}
