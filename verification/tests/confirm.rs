use unrot_core::{confirmed, format_confirmation, needs_confirmation, parse_confirmation, Action};

#[test]
fn remove_needs_confirmation() {
    assert!(needs_confirmation(&Action::Remove));
}

#[test]
fn relink_does_not_need_confirmation() {
    assert!(!needs_confirmation(&Action::Relink("/target".into())));
}

#[test]
fn skip_does_not_need_confirmation() {
    assert!(!needs_confirmation(&Action::Skip));
}

#[test]
fn confirm_yes() {
    assert!(parse_confirmation("y"));
    assert!(parse_confirmation("Y"));
    assert!(parse_confirmation("yes"));
    assert!(parse_confirmation("YES"));
    assert!(parse_confirmation("  y  "));
}

#[test]
fn confirm_no() {
    assert!(!parse_confirmation("n"));
    assert!(!parse_confirmation("no"));
    assert!(!parse_confirmation(""));
    assert!(!parse_confirmation("  "));
    assert!(!parse_confirmation("nah"));
    assert!(!parse_confirmation("yep"));
}

#[test]
fn empty_defaults_to_no() {
    assert!(!parse_confirmation(""));
}

#[test]
fn remove_confirmation_prompt() {
    let mut out = String::new();
    format_confirmation(&mut out, "/home/user/link", &Action::Remove).unwrap();
    assert!(out.contains("remove /home/user/link"));
    assert!(out.contains("cannot be undone"));
    assert!(out.contains("[y/N]"));
}

#[test]
fn relink_confirmation_prompt() {
    let mut out = String::new();
    format_confirmation(
        &mut out,
        "/home/user/link",
        &Action::Relink("/new/target".into()),
    )
    .unwrap();
    assert!(out.contains("relink /home/user/link -> /new/target"));
    assert!(out.contains("[y/N]"));
}

#[test]
fn skip_produces_no_output() {
    let mut out = String::new();
    format_confirmation(&mut out, "/link", &Action::Skip).unwrap();
    assert!(out.is_empty());
}

#[test]
fn confirmation_prompts_exactly() {
    let mut out = String::from(">");
    format_confirmation(&mut out, "/l", &Action::Remove).unwrap();
    assert_eq!(out, ">  remove /l? this cannot be undone. [y/N]\n");
    let mut out = String::new();
    format_confirmation(&mut out, "/l", &Action::Relink("/t".into())).unwrap();
    assert_eq!(out, "  relink /l -> /t? [y/N]\n");
}

#[test]
fn confirmation_trims_unicode_white_space_and_mixed_case() {
    assert!(parse_confirmation("\t Yes\n"));
    assert!(parse_confirmation("\u{3000}yEs\u{a0}"));
    assert!(!parse_confirmation("y e s"));
    assert!(!parse_confirmation("ye"));
    assert!(!parse_confirmation("yess"));
    for input in ["y", " YES ", "no", "", "\u{2003}y", "x", "YeS\r\n"] {
        assert_eq!(
            parse_confirmation(input),
            matches!(input.trim().to_ascii_lowercase().as_str(), "y" | "yes")
        );
    }
}

#[test]
fn unconfirmed_actions_become_skips() {
    assert_eq!(confirmed(Action::Remove, "y\n"), Action::Remove);
    assert_eq!(confirmed(Action::Remove, "\n"), Action::Skip);
    assert_eq!(confirmed(Action::Remove, "nope"), Action::Skip);
    assert_eq!(confirmed(Action::Relink("/t".into()), " YES "), Action::Relink("/t".into()));
}
