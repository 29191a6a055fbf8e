use std::path::Path;
use unrot_core::path::dir_components;
use unrot_core::fuzzy::{
    levenshtein, name_matches, score_candidate, walk_admits, Score,
};
use unrot_core::{default_ignore, find_candidates, BrokenSymlink};

fn broken(link: &str, target: &str) -> BrokenSymlink {
    BrokenSymlink { link: link.into(), target: target.into() }
}

fn walked(paths: &[&str]) -> Vec<String> {
    paths.iter().map(|p| p.to_string()).collect()
}

/// The rank of a score, as the program computes it in floating point.
fn rank(s: &Score) -> f64 {
    let filename_score = s.edit_distance as f64 / s.name_len as f64;
    let path_score = 1.0 - (s.shared_dirs as f64 / s.dir_count as f64);
    filename_score * 10.0 + path_score * 3.0 + s.depth as f64 * 0.1
}

#[test]
fn levenshtein_identical() {
    assert_eq!(levenshtein("hello", "hello"), 0);
}

#[test]
fn levenshtein_empty() {
    assert_eq!(levenshtein("", "abc"), 3);
    assert_eq!(levenshtein("abc", ""), 3);
    assert_eq!(levenshtein("", ""), 0);
}

#[test]
fn levenshtein_single_edit() {
    assert_eq!(levenshtein("cat", "bat"), 1);
    assert_eq!(levenshtein("cats", "cat"), 1);
    assert_eq!(levenshtein("cat", "at"), 1);
}

#[test]
fn levenshtein_multiple_edits() {
    assert_eq!(levenshtein("kitten", "sitting"), 3);
    assert_eq!(levenshtein("saturday", "sunday"), 3);
}

#[test]
fn levenshtein_is_symmetric_and_counts_characters() {
    assert_eq!(levenshtein("flaw", "lawn"), 2);
    assert_eq!(levenshtein("lawn", "flaw"), 2);
    assert_eq!(levenshtein("é", "e"), 1);
    assert_eq!(levenshtein("日本語", "日本"), 1);
    assert_eq!(levenshtein("abc", "xyz"), 3);
}

#[test]
fn no_filename_returns_empty() {
    let found = find_candidates(&broken("/tmp/.tmpAb12Cd/my_link", ""), "/tmp/.tmpAb12Cd", &walked(&["/tmp/.tmpAb12Cd", "/tmp/.tmpAb12Cd/a"]));
    assert!(found.is_empty());
    let found = find_candidates(&broken("/tmp/.tmpAb12Cd/my_link", "/"), "/tmp/.tmpAb12Cd", &walked(&["/tmp/.tmpAb12Cd", "/tmp/.tmpAb12Cd/a"]));
    assert!(found.is_empty());
}

#[test]
fn exact_match_found() {
    let found = find_candidates(
        &broken("/tmp/.tmpAb12Cd/my_link", "target.txt"),
        "/tmp/.tmpAb12Cd",
        &walked(&["/tmp/.tmpAb12Cd", "/tmp/.tmpAb12Cd/target.txt", "/tmp/.tmpAb12Cd/my_link"]),
    );
    assert!(
        found.iter().any(|sc| Path::new(&sc.path).ends_with("target.txt")),
        "should find the new candidate with the same name"
    );
}

#[test]
fn skips_the_broken_link_itself() {
    let link_path = "/tmp/.tmpAb12Cd/config.yml";
    let found = find_candidates(
        &broken(link_path, "/nonexistent/config.yml"),
        "/tmp/.tmpAb12Cd",
        &walked(&["/tmp/.tmpAb12Cd", "/tmp/.tmpAb12Cd/config.yml", "/tmp/.tmpAb12Cd/sub_config.yml"]),
    );
    assert!(
        !found.iter().any(|sc| sc.path == link_path),
        "should not suggest the broken link itself"
    );
    assert!(found.iter().any(|sc| sc.path == "/tmp/.tmpAb12Cd/sub_config.yml"));
    let found = find_candidates(
        &broken("/tmp/.tmpAb12Cd/./config.yml", "config.yml"),
        "/tmp/.tmpAb12Cd",
        &walked(&["/tmp/.tmpAb12Cd/config.yml"]),
    );
    assert!(found.is_empty(), "the same path written differently is still the link");
}

#[test]
fn no_candidates_when_nothing_matches() {
    let found = find_candidates(
        &broken("/tmp/.tmpAb12Cd/my_link", "gone.txt"),
        "/tmp/.tmpAb12Cd",
        &walked(&["/tmp/.tmpAb12Cd", "/tmp/.tmpAb12Cd/unrelated.txt"]),
    );
    assert!(found.is_empty());
}

#[test]
fn partial_match_found() {
    let found = find_candidates(
        &broken("/tmp/.tmpAb12Cd/my_link", "config.yml"),
        "/tmp/.tmpAb12Cd",
        &walked(&["/tmp/.tmpAb12Cd", "/tmp/.tmpAb12Cd/config.yml.bak"]),
    );
    assert!(found.iter().any(|sc| sc.path.ends_with("config.yml.bak")));
}

#[test]
fn near_match_via_levenshtein() {
    let found = find_candidates(
        &broken("/tmp/.tmpAb12Cd/my_link", "config.yml"),
        "/tmp/.tmpAb12Cd",
        &walked(&["/tmp/.tmpAb12Cd", "/tmp/.tmpAb12Cd/config.yaml"]),
    );
    assert!(found.iter().any(|sc| sc.path.ends_with("config.yaml")));
}

#[test]
fn multiple_exact_matches() {
    let found = find_candidates(
        &broken("/tmp/.tmpAb12Cd/my_link", "notes.md"),
        "/tmp/.tmpAb12Cd",
        &walked(&["/tmp/.tmpAb12Cd", "/tmp/.tmpAb12Cd/a", "/tmp/.tmpAb12Cd/a/notes.md", "/tmp/.tmpAb12Cd/b", "/tmp/.tmpAb12Cd/b/notes.md"]),
    );
    let exact_count = found.iter().filter(|sc| sc.path.ends_with("notes.md")).count();
    assert_eq!(exact_count, 2, "should find both exact matches");
}

#[test]
fn candidates_keep_walk_order() {
    let found = find_candidates(
        &broken("/r/l", "app.yml"),
        "/r",
        &walked(&["/r", "/r/z/app.yml", "/r/app.yml.bak", "/r/x.txt", "/r/app.yml"]),
    );
    let paths: Vec<&str> = found.iter().map(|c| c.path.as_str()).collect();
    assert_eq!(paths, vec!["/r/z/app.yml", "/r/app.yml.bak", "/r/app.yml"]);
}

#[test]
fn exact_match_scores_lowest() {
    let found = find_candidates(
        &broken("/tmp/.tmpAb12Cd/my_link", "app.yml"),
        "/tmp/.tmpAb12Cd",
        &walked(&["/tmp/.tmpAb12Cd", "/tmp/.tmpAb12Cd/app.yml.bak", "/tmp/.tmpAb12Cd/app.yml"]),
    );
    assert!(found.len() >= 2);
    let exact = found.iter().find(|c| c.path.ends_with("/app.yml")).unwrap();
    let partial = found.iter().find(|c| c.path.ends_with(".bak")).unwrap();
    assert_eq!(exact.score.edit_distance, 0);
    assert_eq!(partial.score.edit_distance, 4);
    assert_eq!(partial.score.name_len, 11);
    assert!(rank(&exact.score) < rank(&partial.score));
}

#[test]
fn deeper_candidate_scores_higher() {
    let r = "/tmp/.tmpAb12Cd";
    let b = broken("/tmp/.tmpAb12Cd/my_link", "app.yml");
    let shallow = score_candidate(&b, "/tmp/.tmpAb12Cd/app.yml", r);
    let deep = score_candidate(&b, "/tmp/.tmpAb12Cd/a/b/c/app.yml", r);
    assert_eq!(shallow.depth, 1);
    assert_eq!(deep.depth, 4);
    assert!(rank(&shallow) < rank(&deep));
}

#[test]
fn path_similarity_boosts_score() {
    let b = broken("/tmp/.tmpAb12Cd/my_link", "configs/app.yml");
    let in_configs = score_candidate(&b, "/tmp/.tmpAb12Cd/configs/app.yml", "/tmp/.tmpAb12Cd");
    let in_other = score_candidate(&b, "/tmp/.tmpAb12Cd/other/app.yml", "/tmp/.tmpAb12Cd");
    assert_eq!(in_configs.shared_dirs, 1);
    assert_eq!(in_other.shared_dirs, 0);
    assert!(rank(&in_configs) < rank(&in_other));
}

#[test]
fn score_parts_exactly() {
    let b = broken("/home/u/link", "../conf/app.yml");
    let s = score_candidate(&b, "/srv/x/conf/ap.yml", "/srv");
    assert_eq!(s.edit_distance, 1);
    assert_eq!(s.name_len, 7);
    assert_eq!(s.shared_dirs, 1);
    assert_eq!(s.dir_count, 3);
    assert_eq!(s.depth, 3);
    let s = score_candidate(&b, "/elsewhere/app.yml", "/srv");
    assert_eq!(s.depth, 0, "a path outside the root has depth zero");
}

#[test]
fn name_matching_rules() {
    assert!(name_matches("config.yml", "config.yml"));
    assert!(name_matches("config.yml.bak", "config.yml"));
    assert!(name_matches("fig", "config.yml"));
    assert!(name_matches("abc", "xyz"), "within three edits");
    assert!(!name_matches("abcd", "wxyz"));
    assert!(name_matches("abcdefghijkl", "abcdefghixyz"), "a third of twelve is four edits");
    assert!(!name_matches("abcdefghijkl", "abcdefgwxyzq"));
}

#[test]
fn ignore_patterns_skip_directories() {
    let ignore = vec![".git".to_string(), "node_modules".to_string()];
    assert!(!walk_admits(true, ".git", &ignore));
    assert!(!walk_admits(true, "node_modules", &ignore));
    assert!(walk_admits(true, "src", &ignore));
    assert!(walk_admits(false, ".git", &ignore), "only directories are skipped");
    let defaults = default_ignore();
    assert_eq!(
        defaults,
        vec![".git", "node_modules", "target", ".hg", ".svn", "__pycache__", ".DS_Store"]
    );
    assert!(!walk_admits(true, "target", &defaults));
}

#[test]
fn dir_components_of_target() {
    assert_eq!(dir_components("configs/app.yml"), vec!["configs"]);
    assert_eq!(dir_components("/a/../b/./c/app.yml"), vec!["a", "b", "c"]);
    assert!(dir_components("app.yml").is_empty());
}
