//! Saving received files.

use opfer::naming::{NameSearch, NameStep};
use opfer::saving::{fnv1a, parse_write_request, write_result, WriteError};

fn body(path: &[u8], data: &[u8]) -> Vec<u8> {
    let mut b = (path.len() as u32).to_le_bytes().to_vec();
    b.extend_from_slice(path);
    b.extend_from_slice(data);
    b
}

#[test]
fn known_check_sums() {
    assert_eq!(fnv1a(b""), 0x811c_9dc5);
    assert_eq!(fnv1a(b"a"), 0xe40c_292c);
    assert_eq!(fnv1a(b"foobar"), 0xbf9c_f968);
}

#[test]
fn a_damaged_byte_shows() {
    let data: Vec<u8> = (0..=255).collect();
    let sum = fnv1a(&data);
    for i in 0..data.len() {
        let mut damaged = data.clone();
        damaged[i] ^= 1 << (i % 8);
        assert_ne!(fnv1a(&damaged), sum);
    }
}

#[test]
fn a_request_is_taken_apart() {
    let bytes = body("/tmp/gr\u{fc}n.txt".as_bytes(), &[1, 2, 3]);
    let (path, data) = parse_write_request(&bytes).ok().unwrap();
    assert_eq!(path, "/tmp/gr\u{fc}n.txt");
    assert_eq!(data, &[1, 2, 3]);
    let empty = body(b"", b"");
    let (path, data) = parse_write_request(&empty).ok().unwrap();
    assert_eq!((path, data.len()), ("", 0));
}

#[test]
fn broken_requests_are_turned_down() {
    let text = |bytes: &[u8]| parse_write_request(bytes).err().unwrap().message();
    assert_eq!(text(&[1, 0, 0]), "payload too short");
    assert_eq!(text(&[2, 0, 0, 0, 65]), "invalid header length");
    assert_eq!(text(&[255, 255, 255, 255, 65]), "invalid header length");
    assert_eq!(text(&body(b"a\xffb", b"x")), "invalid utf-8 sequence of 1 bytes from index 1");
    assert_eq!(WriteError::NotRaw.message(), "expected a raw request body");
}

#[test]
fn the_answer_holds_the_path_and_the_check_sum() {
    let r = write_result("x/y".to_string(), b"foobar");
    assert_eq!((r.path.as_str(), r.fnv), ("x/y", 0xbf9c_f968));
}

fn tries(name: Option<&str>, n: usize) -> Vec<String> {
    let mut search = NameSearch::new(name);
    assert!(search.name().is_none());
    let mut out = Vec::new();
    for _ in 0..n {
        assert!(search.answer(true) == NameStep::TryNext);
        out.push(search.name().unwrap());
    }
    out
}

#[test]
fn a_free_path_is_used_as_it_stands() {
    let mut search = NameSearch::new(Some("photo.jpg"));
    assert!(search.answer(false) == NameStep::Use);
    assert!(search.name().is_none());
}

#[test]
fn the_first_free_name_is_used() {
    let there = ["photo.jpg", "photo (1).jpg", "photo (2).jpg", "photo (4).jpg"];
    let mut search = NameSearch::new(Some("photo.jpg"));
    let used = loop {
        let name = search.name().unwrap_or("photo.jpg".to_string());
        if search.answer(there.contains(&name.as_str())) == NameStep::Use {
            break name;
        }
    };
    assert_eq!(used, "photo (3).jpg");
}

#[test]
fn names_are_numbered_before_the_extension() {
    assert_eq!(tries(Some("photo.jpg"), 2), vec!["photo (1).jpg", "photo (2).jpg"]);
    assert_eq!(tries(Some("a.tar.gz"), 1), vec!["a.tar (1).gz"]);
    assert_eq!(tries(Some("gr\u{fc}n.txt"), 1), vec!["gr\u{fc}n (1).txt"]);
    assert_eq!(tries(Some("notes"), 11)[10], "notes (11)");
}

#[test]
fn dots_at_the_edges_of_a_name() {
    assert_eq!(tries(Some(".profile"), 1), vec![".profile (1)"]);
    assert_eq!(tries(Some("end."), 1), vec!["end (1)."]);
    assert_eq!(tries(Some("..x"), 1), vec![". (1).x"]);
    assert_eq!(tries(Some(".."), 1), vec![".. (1)"]);
    assert_eq!(tries(None, 1), vec!["file (1)"]);
}

#[test]
fn stem_and_extension_are_those_of_the_path() {
    for name in ["photo.jpg", "a.tar.gz", "notes", ".profile", "end.", "..x", "a..b"] {
        let path = std::path::Path::new(name);
        let stem = path.file_stem().unwrap().to_str().unwrap();
        let expected = match path.extension() {
            Some(e) => format!("{stem} (1).{}", e.to_str().unwrap()),
            None => format!("{stem} (1)"),
        };
        assert_eq!(tries(Some(name), 1), vec![expected]);
    }
}

#[test]
fn no_two_tries_have_one_name() {
    let mut names = tries(Some("a (1).b"), 50);
    names.push("a (1).b".to_string());
    let count = names.len();
    names.sort();
    names.dedup();
    assert_eq!(names.len(), count);
}
