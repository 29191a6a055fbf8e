use unrot_core::fuzzy::{Score, ScoredCandidate};
use unrot_core::{Action, RepairCase, Resolution, Summary};

fn score_of(value: usize) -> Score {
    Score { edit_distance: value, name_len: 1, shared_dirs: 0, dir_count: 1, depth: 0 }
}

#[test]
fn summary_starts_at_zero() {
    let Summary {
        relinked,
        removed,
        skipped,
    } = Summary::default();
    assert_eq!(relinked, 0);
    assert_eq!(removed, 0);
    assert_eq!(skipped, 0);
}

#[test]
fn summary_records_all_action_types() {
    let mut summary = Summary::default();
    summary.record(&Action::Relink("/new/target".into()));
    summary.record(&Action::Relink("/another".into()));
    summary.record(&Action::Skip);
    summary.record(&Action::Remove);

    assert_eq!(summary.relinked, 2);
    assert_eq!(summary.skipped, 1);
    assert_eq!(summary.removed, 1);
    assert_eq!(summary.total(), 4);
}

#[test]
fn summary_display_format() {
    let mut summary = Summary::default();
    summary.record(&Action::Relink("/target".into()));
    summary.record(&Action::Skip);
    summary.record(&Action::Remove);

    assert_eq!(summary.to_string(), "1 fixed, 1 skipped, 1 removed");
}

#[test]
fn repair_case_without_candidates() {
    let RepairCase { ref candidates, .. } =
        RepairCase::new("/link".into(), "/target".into(), vec![]);
    assert!(candidates.is_empty());
}

#[test]
fn repair_case_with_candidates() {
    let case = RepairCase::new(
        "/link".into(),
        "/target".into(),
        vec![ScoredCandidate {
            path: "/candidate".into(),
            score: score_of(1),
        }],
    );
    assert!(case.has_candidates());
}

#[test]
fn resolution_pairs_link_with_action() {
    let Resolution { link, action } = Resolution {
        link: "/some/link".into(),
        action: Action::Remove,
    };
    assert_eq!(link, String::from("/some/link"));
    assert_eq!(action, Action::Remove);
}

#[test]
fn action_equality() {
    assert_eq!(Action::Relink("/a".into()), Action::Relink("/a".into()));
    assert_ne!(Action::Relink("/a".into()), Action::Relink("/b".into()));
    assert_ne!(Action::Skip, Action::Remove);
}

#[test]
fn summary_counts_large_numbers_in_decimal() {
    let summary = Summary { relinked: 1203, removed: 0, skipped: 90 };
    assert_eq!(summary.to_string(), "1203 fixed, 90 skipped, 0 removed");
    assert_eq!(summary.total(), 1293);
}

#[test]
fn recording_in_either_order_gives_the_same_summary() {
    let mut a = Summary::default();
    a.record(&Action::Skip);
    a.record(&Action::Relink("/x".into()));
    let mut b = Summary::default();
    b.record(&Action::Relink("/x".into()));
    b.record(&Action::Skip);
    assert_eq!((a.relinked, a.removed, a.skipped), (b.relinked, b.removed, b.skipped));
    assert_eq!(a.total(), 2);
}
