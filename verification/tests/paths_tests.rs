use openclaw_agent::paths::{components, file_name, path_starts_with, PathPart};
use std::path::{Component, Path};

const SAMPLES: [&str; 30] = [
    "", "/", "//", "///a", ".", "./", "..", "../", "a", "a/", "a//b", "a/./b", "a/../b", "./a",
    ".//a", "/./a", "/../a", "a/.", "a/..", "/usr/bin/rm", "/usr/bin/", "../x/y", ".hidden",
    "..a", "a.", "./.", "/tmp", "/tmpfoo/a", "/tmp/", "é/ü",
];

fn std_parts(s: &str) -> Vec<String> {
    Path::new(s)
        .components()
        .map(|c| match c {
            Component::RootDir => "<root>".to_string(),
            Component::CurDir => "<cur>".to_string(),
            Component::ParentDir => "<parent>".to_string(),
            Component::Normal(n) => n.to_str().unwrap().to_string(),
            Component::Prefix(_) => "<prefix>".to_string(),
        })
        .collect()
}

fn our_parts(s: &str) -> Vec<String> {
    components(s)
        .into_iter()
        .map(|c| match c {
            PathPart::RootDir => "<root>".to_string(),
            PathPart::CurDir => "<cur>".to_string(),
            PathPart::ParentDir => "<parent>".to_string(),
            PathPart::Normal(n) => n,
        })
        .collect()
}

#[test]
fn components_match_std() {
    for s in SAMPLES {
        assert_eq!(our_parts(s), std_parts(s), "{:?}", s);
    }
}

#[test]
fn file_name_matches_std() {
    for s in SAMPLES {
        let expected = Path::new(s).file_name().map(|f| f.to_str().unwrap().to_string());
        assert_eq!(file_name(s), expected, "{:?}", s);
    }
    assert_eq!(file_name("/usr/bin/rm"), Some("rm".to_string()));
}

#[test]
fn starts_with_matches_std() {
    for s in SAMPLES {
        for b in SAMPLES {
            assert_eq!(
                path_starts_with(&s.as_bytes().to_vec(), &b.as_bytes().to_vec()),
                Path::new(s).starts_with(b),
                "{:?} {:?}",
                s,
                b
            );
        }
    }
    assert!(!path_starts_with(&b"/tmpfoo/a".to_vec(), &b"/tmp".to_vec()));
    assert!(path_starts_with(&b"/tmp//a/".to_vec(), &b"/tmp/".to_vec()));
    assert!(path_starts_with(&vec![b'/', 0xfe, b'/', b'a'], &vec![b'/', 0xfe]));
    assert!(!path_starts_with(&vec![b'/', 0xfe, b'/', b'a'], &vec![b'/', 0xff]));
}
