use upxto::hash::{hash_chunk, HASH_OFFSET};
use upxto::order::{sort_texts, stable_order};
use upxto::path::{join_paths, parent_path, path_components, same_path, strip_root};
use upxto::text::{
    align_right, blank, chars_of, contains_char, copy_text, decimal_text, fit_text, is_white_space,
    join_texts, same_text, split_text, text_less, trim,
};

fn texts(items: &[&str]) -> Vec<String> {
    items.iter().map(|item| item.to_string()).collect()
}

#[test]
fn decimal_numbers_have_no_leading_zeros() {
    assert_eq!(decimal_text(0), "0");
    assert_eq!(decimal_text(9), "9");
    assert_eq!(decimal_text(10), "10");
    assert_eq!(decimal_text(1_700_000_042), "1700000042");
    assert_eq!(decimal_text(u64::MAX), "18446744073709551615");
}

#[test]
fn texts_are_cut_or_filled_to_a_width() {
    assert_eq!(fit_text("abc", 0), "");
    assert_eq!(fit_text("abc", 2), "ab");
    assert_eq!(fit_text("abc", 3), "abc");
    assert_eq!(fit_text("abc", 5), "abc  ");
    assert_eq!(fit_text("äöü", 2), "äö");
    assert_eq!(align_right("42", 5), "   42");
    assert_eq!(align_right("1234567", 5), "1234567");
    assert_eq!(blank(3), "   ");
}

#[test]
fn white_space_is_trimmed_at_both_ends() {
    assert_eq!(trim("  a b\t\n"), "a b");
    assert_eq!(trim(" \u{3000}\u{a0}"), "");
    assert_eq!(trim("plain"), "plain");
    for code in 0..0x11_0000_u32 {
        if let Some(ch) = char::from_u32(code) {
            assert_eq!(is_white_space(ch), ch.is_whitespace());
        }
    }
}

#[test]
fn texts_are_split_and_joined() {
    assert_eq!(split_text("a//b/", '/'), texts(&["a", "", "b", ""]));
    assert_eq!(split_text("", '/'), texts(&[""]));
    assert_eq!(join_texts(&texts(&["a", "b", "c"]), ", "), "a, b, c");
    assert_eq!(join_texts(&[], ", "), "");
    assert_eq!(chars_of("aß"), vec!['a', 'ß']);
}

#[test]
fn texts_are_compared_by_code_point() {
    assert!(text_less("a", "b"));
    assert!(text_less("a", "aa"));
    assert!(text_less("Z", "a"));
    assert!(text_less("a", "ä"));
    assert!(!text_less("b", "a"));
    assert!(!text_less("a", "a"));
    assert!(same_text("x", "x"));
    assert!(!same_text("x", "X"));
    assert!(contains_char("a/b", '/'));
    assert!(!contains_char("ab", '/'));
    assert_eq!(copy_text(&Some("x".to_string())), Some("x".to_string()));
    assert_eq!(copy_text(&None), None);
}

#[test]
fn sorting_is_stable_and_keeps_the_texts() {
    assert_eq!(
        stable_order(&texts(&["b", "a", "b", "a"])),
        vec![1, 3, 0, 2]
    );
    assert_eq!(sort_texts(&texts(&["c", "a", "b"])), texts(&["a", "b", "c"]));
    assert_eq!(sort_texts(&[]), texts(&[]));
}

#[test]
fn components_skip_empty_pieces_and_dots() {
    assert_eq!(path_components("/srv//app/./x/"), texts(&["/", "srv", "app", "x"]));
    assert_eq!(path_components("./a/../b"), texts(&[".", "a", "..", "b"]));
    assert_eq!(path_components(""), texts(&[]));
    assert!(same_path("/a/b", "/a//b/"));
    assert!(!same_path("/a/b", "a/b"));
}

#[test]
fn paths_are_joined() {
    assert_eq!(join_paths("/srv", "a/b"), "/srv/a/b");
    assert_eq!(join_paths("/srv/", "a"), "/srv/a");
    assert_eq!(join_paths("", "a"), "a");
    assert_eq!(join_paths("/srv", "/etc"), "/etc");
    assert_eq!(join_paths("/srv", ""), "/srv/");
}

#[test]
fn paths_agree_with_the_standard_library() {
    let samples = [
        "", "/", "//", ".", "..", "a", "a/", "./a", "a/.", "a/..", "a//b", "/a", "/a/", "/a/b",
        "/a/b/c.txt", "a/./b", "././a", "/.", "/./a", "a/b/../c",
    ];
    for first in samples {
        let path = std::path::Path::new(first);
        let parts: Vec<String> = path
            .components()
            .map(|part| part.as_os_str().to_str().unwrap().to_string())
            .collect();
        assert_eq!(path_components(first), parts, "components of {first:?}");
        assert_eq!(
            parent_path(first),
            path.parent().map(|parent| parent.to_str().unwrap().to_string()),
            "parent of {first:?}"
        );
        for second in samples {
            assert_eq!(
                join_paths(first, second),
                path.join(second).to_str().unwrap(),
                "{first:?} joined with {second:?}"
            );
            assert_eq!(same_path(first, second), path == std::path::Path::new(second));
            let relative = std::path::Path::new(second).strip_prefix(path).ok().map(|rest| {
                rest.components()
                    .map(|part| part.as_os_str().to_str().unwrap())
                    .collect::<Vec<_>>()
                    .join("/")
            });
            assert_eq!(strip_root(first, second), relative, "{second:?} below {first:?}");
        }
    }
}

#[test]
fn relative_paths_lead_back() {
    let root = "/srv/app";
    let relative = strip_root(root, "/srv//app/a/b.txt").unwrap();
    assert_eq!(relative, "a/b.txt");
    assert!(same_path(&join_paths(root, &relative), "/srv/app/a/b.txt"));
    assert_eq!(strip_root(root, &join_paths(root, "c/d")), Some("c/d".to_string()));
    assert_eq!(strip_root(root, "/srv/other"), None);
    for path in ["a//b", "/a/b", "./a", "/", ""] {
        let relative = strip_root("", path).unwrap();
        assert!(same_path(&join_paths("", &relative), path));
    }
    assert_eq!(strip_root("", &join_paths("", "c/d")), Some("c/d".to_string()));
    assert_eq!(parent_path(&join_paths(root, "x")), Some(root.to_string()));
}

#[test]
fn content_hash_has_known_values() {
    assert_eq!(hash_chunk(HASH_OFFSET, b""), 0xcbf29ce484222325);
    assert_eq!(hash_chunk(HASH_OFFSET, b"a"), 0xaf63dc4c8601ec8c);
    assert_eq!(hash_chunk(HASH_OFFSET, b"foobar"), 0x85944171f73967e8);
}

#[test]
fn content_hash_does_not_depend_on_chunks() {
    let whole = hash_chunk(HASH_OFFSET, b"first second");
    let parts = hash_chunk(hash_chunk(HASH_OFFSET, b"first "), b"second");
    assert_eq!(whole, parts);
}
