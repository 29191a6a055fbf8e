use unrot_core::{output_lines, BrokenSymlink};

#[test]
fn broken_symlink_display() {
    let b = BrokenSymlink { link: "/a/link".into(), target: "../gone.txt".into() };
    assert_eq!(b.to_string(), "/a/link -> ../gone.txt");
}

#[test]
fn output_lines_agree_with_std() {
    for s in ["", "a", "a\n", "a\nb", "a\r\nb\r\n", "\n", "\n\n", "a\r", "a\rb\n", "x\n\ny", "\r\n"] {
        let expected: Vec<String> = s.lines().map(String::from).collect();
        assert_eq!(output_lines(s), expected, "lines of {:?}", s);
    }
}
