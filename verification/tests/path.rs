use sandbox_runtime::vm::path::{join, parent_of};
use std::path::Path;

const PATHS: [&str; 24] = [
    "", "/", "//", "a", "/a", "a/", "/a/", "a/b", "/a/b", "/a//b", "a/./b", "./a", ".", "./", "..",
    "../a", "/.", "/./a", "a/.", "a/./", ".a", "a/..", "/srv/jailer", "/srv/jailer/firecracker/x/root",
];

#[test]
fn joins_as_std_does() {
    for base in PATHS {
        for part in PATHS {
            let expected = Path::new(base).join(part);
            assert_eq!(
                join(base.as_bytes(), part.as_bytes()),
                expected.to_str().unwrap().as_bytes(),
                "{:?} {:?}",
                base,
                part
            );
        }
    }
}

#[test]
fn finds_parents_as_std_does() {
    for base in PATHS {
        for part in PATHS {
            let path = join(base.as_bytes(), part.as_bytes());
            let text = String::from_utf8(path.clone()).unwrap();
            let expected = Path::new(&text).parent();
            let expected = expected.map(|p| p.to_str().unwrap().as_bytes().to_vec());
            assert_eq!(parent_of(&path), expected, "{:?}", text);
        }
    }
}

#[test]
fn parent_of_a_joined_name_is_the_directory() {
    assert_eq!(parent_of(&join(b"/srv", b"root")), Some(b"/srv".to_vec()));
    assert_eq!(parent_of(&join(b"/srv/", b"root")), Some(b"/srv".to_vec()));
    assert_eq!(parent_of(&join(b"/", b"root")), Some(b"/".to_vec()));
    assert_eq!(parent_of(&join(b"", b"root")), Some(b"".to_vec()));
}

#[test]
fn paths_need_not_be_text() {
    assert_eq!(join(b"/\xff", b"\xfe"), b"/\xff/\xfe".to_vec());
    assert_eq!(parent_of(b"/\xff/\xfe"), Some(b"/\xff".to_vec()));
}
