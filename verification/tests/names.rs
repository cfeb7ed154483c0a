use contain::text::{chars_eq, chars_start_with, lex_less, to_chars};
use contain::uri::{concat3, has_traversal, leading_slashes, normalize, split};

fn chars(s: &str) -> Vec<char> {
    s.chars().collect()
}

fn text(v: &[char]) -> String {
    v.iter().collect()
}

#[test]
fn to_chars_keeps_every_character() {
    assert_eq!(to_chars(""), Vec::<char>::new());
    assert_eq!(to_chars("file:/a"), chars("file:/a"));
    assert_eq!(to_chars("\u{e9}\u{10348}x"), vec!['\u{e9}', '\u{10348}', 'x']);
}

#[test]
fn equality_and_prefix() {
    assert!(chars_eq(&chars("abc"), &chars("abc")));
    assert!(!chars_eq(&chars("abc"), &chars("abd")));
    assert!(!chars_eq(&chars("abc"), &chars("ab")));
    assert!(chars_eq(&[], &[]));
    assert!(chars_start_with(&chars("file:/bin/ls"), &chars("file:/bin")));
    assert!(chars_start_with(&chars("file:/bin"), &chars("file:/bin")));
    assert!(chars_start_with(&chars("file:/bin"), &[]));
    assert!(!chars_start_with(&chars("file:/bi"), &chars("file:/bin")));
    assert!(!chars_start_with(&chars("file:/etc"), &chars("file:/bin")));
}

#[test]
fn order_is_that_of_strings() {
    let samples = [
        "", "a", "ab", "b", "B", "file:/a", "file:/a/b", "\u{e9}", "\u{10348}", "\u{ff5e}",
        "a\u{0}",
    ];
    for a in samples {
        for b in samples {
            assert_eq!(lex_less(&chars(a), &chars(b)), a < b, "{:?} < {:?}", a, b);
        }
    }
}

#[test]
fn leading_slashes_are_counted() {
    assert_eq!(leading_slashes(&chars("")), 0);
    assert_eq!(leading_slashes(&chars("a/b")), 0);
    assert_eq!(leading_slashes(&chars("/a/b")), 1);
    assert_eq!(leading_slashes(&chars("///a//b")), 3);
    assert_eq!(leading_slashes(&chars("//")), 2);
}

#[test]
fn traversal_is_a_parent_segment_or_two_final_dots() {
    for p in ["..", "../a", "a/..", "a/../b", "/../", "/..", "a..", "x/a..", "a/b/../../c", "../"] {
        assert!(has_traversal(&chars(p)), "{:?}", p);
    }
    let harmless =
        ["", ".", "a", "a/b", "a../b", "..a/b", "a/..b/c", "a/.../b", ".../", "a./.b", "a..b"];
    for p in harmless {
        assert!(!has_traversal(&chars(p)), "{:?}", p);
    }
}

#[test]
fn concat3_joins_in_order() {
    assert_eq!(concat3("file", ":/", "etc/passwd"), "file:/etc/passwd");
    assert_eq!(concat3("", "", ""), "");
    assert_eq!(concat3("\u{e9}", "/", "\u{10348}"), "\u{e9}/\u{10348}");
}

#[test]
fn normalize_puts_one_slash_after_the_scheme() {
    let cases = [
        ("file:/etc/passwd", "file:/etc/passwd"),
        ("file:etc/passwd", "file:/etc/passwd"),
        ("file:///etc//passwd", "file:/etc//passwd"),
        ("file:", "file:/"),
        ("null:", "null:/"),
        (":x", ":/x"),
        ("a:b:c", "a:/b:c"),
        ("noscheme", "noscheme"),
        ("", ""),
        ("/abs/path:x", "/abs/path:x"),
        ("dir/file:x", "dir/file:x"),
        ("/", "/"),
    ];
    for (input, expected) in cases {
        assert_eq!(text(&normalize(&chars(input))), expected, "{:?}", input);
    }
}

fn parts(u: &str) -> Option<(String, String)> {
    let c = chars(u);
    split(&c).map(|(dir_end, start, end)| (text(&c[..dir_end]), text(&c[start..end])))
}

#[test]
fn split_parts_directory_and_final_component() {
    assert_eq!(parts("file:/tmp/passwd1"), Some(("file:/tmp".to_string(), "passwd1".to_string())));
    assert_eq!(parts("file:/x"), Some(("file:".to_string(), "x".to_string())));
    assert_eq!(parts("file:/tmp/dir/"), Some(("file:/tmp".to_string(), "dir".to_string())));
    assert_eq!(parts("file:/tmp/dir/."), Some(("file:/tmp".to_string(), "dir".to_string())));
    assert_eq!(parts("file:/tmp/.//x/./"), Some(("file:/tmp".to_string(), "x".to_string())));
    assert_eq!(parts("file:/a//b"), Some(("file:/a".to_string(), "b".to_string())));
    assert_eq!(parts("file:/"), Some(("".to_string(), "file:".to_string())));
    assert_eq!(parts("name"), Some(("".to_string(), "name".to_string())));
    assert_eq!(parts("a/...") , Some(("a".to_string(), "...".to_string())));
    assert_eq!(parts(""), None);
    assert_eq!(parts("/"), None);
    assert_eq!(parts("."), None);
    assert_eq!(parts("//./"), None);
    assert_eq!(parts("file:/tmp/.."), None);
    assert_eq!(parts("file:/tmp/../"), None);
    assert_eq!(parts(".."), None);
}

#[test]
fn split_agrees_with_paths_of_the_standard_library() {
    let samples = [
        "file:/tmp/passwd1", "file:/x", "file:/tmp/dir/", "file:/tmp/dir/.", "file:/a//b",
        "file:/tmp/.//x/./", "file:/", "name", "file:/tmp/..", "file:/a/b/c.txt", "file:/a/./b",
        "file:/jail/home/user/new file", "a/b", "a/", "a/.", "file:/tmp/../", "",
    ];
    for u in samples {
        let path = std::path::Path::new(u);
        let expected = match path.file_name() {
            Some(name) => Some((
                path.parent().unwrap().to_str().unwrap().to_string(),
                name.to_str().unwrap().to_string(),
            )),
            None => None,
        };
        assert_eq!(parts(u), expected, "{:?}", u);
    }
}
