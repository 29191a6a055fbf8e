use unrot_core::fuzzy::{Score, ScoredCandidate};
use unrot_core::{resolve, resolve_custom, Action, ParsedInput, RepairCase, Resolved};

fn score_of(value: usize) -> Score {
    Score { edit_distance: value, name_len: 1, shared_dirs: 0, dir_count: 1, depth: 0 }
}

fn sample_case() -> RepairCase {
    RepairCase::new(
        "/home/user/link".into(),
        "/old/target.txt".into(),
        vec![
            ScoredCandidate {
                path: "/first/candidate.txt".into(),
                score: score_of(1),
            },
            ScoredCandidate {
                path: "/second/candidate.txt".into(),
                score: score_of(2),
            },
        ],
    )
}

#[test]
fn select_candidate_resolves_to_relink() {
    let result = resolve(ParsedInput::SelectCandidate(0), &sample_case());
    assert_eq!(
        result,
        Resolved::Action(Action::Relink("/first/candidate.txt".into()))
    );
}

#[test]
fn select_second_candidate() {
    let result = resolve(ParsedInput::SelectCandidate(1), &sample_case());
    assert_eq!(
        result,
        Resolved::Action(Action::Relink("/second/candidate.txt".into()))
    );
}

#[test]
fn skip_resolves_directly() {
    let result = resolve(ParsedInput::Skip, &sample_case());
    assert_eq!(result, Resolved::Action(Action::Skip));
}

#[test]
fn remove_resolves_directly() {
    let result = resolve(ParsedInput::Remove, &sample_case());
    assert_eq!(result, Resolved::Action(Action::Remove));
}

#[test]
fn custom_path_signals_need() {
    let result = resolve(ParsedInput::CustomPath, &sample_case());
    assert_eq!(result, Resolved::NeedsCustomPath);
}

#[test]
fn resolve_custom_creates_relink() {
    let action = resolve_custom("/my/custom/path.txt".into());
    assert_eq!(action, Action::Relink("/my/custom/path.txt".into()));
}
