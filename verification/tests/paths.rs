//! Joining components.

use mount_deny::paths::join_path;
use std::path::PathBuf;

fn joined(components: &[&str]) -> String {
    let owned: Vec<Vec<u8>> = components.iter().map(|c| c.as_bytes().to_vec()).collect();
    String::from_utf8(join_path(&owned)).unwrap()
}

#[test]
fn joins_names_with_one_separator() {
    assert_eq!(joined(&[]), "");
    assert_eq!(joined(&["a"]), "a");
    assert_eq!(joined(&["a", "b", "c"]), "a/b/c");
}

#[test]
fn joins_as_path_buf_does() {
    let components = ["a", "", "/", "b/", "/c", "d//", ".", "..", "e/f"];
    for x in components {
        for y in components {
            for z in components {
                let mut path = PathBuf::new();
                path.push(x);
                path.push(y);
                path.push(z);
                assert_eq!(joined(&[x, y, z]), path.to_str().unwrap(), "{} {} {}", x, y, z);
            }
        }
    }
}

#[test]
fn keeps_bytes_that_are_not_utf8() {
    assert_eq!(join_path(&[vec![0xff], vec![0xfe, 0x00]]), vec![0xff, b'/', 0xfe, 0x00]);
}

#[test]
fn different_names_make_different_paths() {
    let names = ["a", "b", "ab", "aa"];
    let mut seen: Vec<(Vec<&str>, String)> = Vec::new();
    for x in names {
        seen.push((vec![x], joined(&[x])));
        for y in names {
            seen.push((vec![x, y], joined(&[x, y])));
        }
    }
    for (names_a, path_a) in &seen {
        for (names_b, path_b) in &seen {
            assert_eq!(names_a == names_b, path_a == path_b);
        }
    }
}
