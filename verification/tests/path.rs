use std::path::{Component, Path};
use unrot_core::path::{depth_below, dir_components, file_name, same_path};

const SAMPLES: &[&str] = &[
    "", "/", ".", "..", "./", "a", "a/", "a/.", "a/..", "./a", "../a", "/a", "//a//b//",
    "/./a/./b/.", "a/./b", "a/../b", ".hidden", "a/.hidden/", "/a/b/c.txt", "x/y.z/",
    "./.", "..//..", "/..", "a b/c d", "é/ü.txt", "...", "a/...", ". /x", "/.", "./..",
];

fn std_dir_components(path: &str) -> Vec<String> {
    Path::new(path)
        .parent()
        .unwrap_or(Path::new(""))
        .components()
        .filter_map(|c| match c {
            Component::Normal(s) => s.to_str().map(String::from),
            _ => None,
        })
        .collect()
}

#[test]
fn file_name_agrees_with_std() {
    for p in SAMPLES {
        let expected = Path::new(p).file_name().map(|n| n.to_str().unwrap().to_string());
        assert_eq!(file_name(p), expected, "file name of {:?}", p);
    }
}

#[test]
fn dir_components_agree_with_std() {
    for p in SAMPLES {
        assert_eq!(dir_components(p), std_dir_components(p), "dir components of {:?}", p);
    }
}

#[test]
fn same_path_agrees_with_std() {
    for a in SAMPLES {
        for b in SAMPLES {
            assert_eq!(same_path(a, b), Path::new(a) == Path::new(b), "{:?} == {:?}", a, b);
        }
    }
}

#[test]
fn depth_agrees_with_std() {
    for p in SAMPLES {
        for root in SAMPLES {
            let expected = Path::new(p)
                .strip_prefix(Path::new(root))
                .map(|rest| rest.components().count())
                .unwrap_or(0);
            assert_eq!(depth_below(p, root), expected, "depth of {:?} below {:?}", p, root);
        }
    }
}
