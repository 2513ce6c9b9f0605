use powder::paths::{file_name, join, parent, path_components};
use powder::text::{
    chars_of, concat2, decimal_string, octal_string, same_text, split_words, starts_with,
    trimmed, utf8_len,
};

#[test]
fn numbers_render_in_decimal_and_octal() {
    assert_eq!(decimal_string(0), "0");
    assert_eq!(decimal_string(7), "7");
    assert_eq!(decimal_string(10), "10");
    assert_eq!(decimal_string(1234567890), "1234567890");
    assert_eq!(decimal_string(u64::MAX), u64::MAX.to_string());
    assert_eq!(octal_string(0), "0");
    assert_eq!(octal_string(0o755), "755");
    assert_eq!(octal_string(8), "10");
    assert_eq!(octal_string(u64::MAX), format!("{:o}", u64::MAX));
}

#[test]
fn whitespace_handling_follows_std() {
    assert_eq!(trimmed("  a b \n"), "a b");
    assert_eq!(trimmed("\u{3000}x\u{a0}"), "x");
    assert_eq!(trimmed("   "), "");
    assert_eq!(split_words(" a\tbb  c\n"), vec!["a", "bb", "c"]);
    assert_eq!(split_words("x\u{2003}y"), "x\u{2003}y".split_whitespace().collect::<Vec<_>>());
    assert!(split_words("").is_empty());
}

#[test]
fn small_string_helpers() {
    assert!(starts_with("ref: refs/heads/x", "ref: "));
    assert!(!starts_with("re", "ref"));
    assert!(starts_with("abc", ""));
    assert!(same_text("é", "é"));
    assert!(!same_text("a", "b"));
    assert_eq!(concat2("ab", "cd"), "abcd");
    assert_eq!(utf8_len("é"), 2);
    assert_eq!(chars_of("aé"), vec!['a', 'é']);
}

#[test]
fn joining_paths() {
    assert_eq!(join("/home", "x"), "/home/x");
    assert_eq!(join("/home/", "x"), "/home/x");
    assert_eq!(join("", "x"), "x");
    assert_eq!(join("/home", "/etc"), "/etc");
}

#[test]
fn path_components_follow_std() {
    for p in ["/home/runner", "a//b/./c/", "./a", "", "/", "/./a", "../x", ".", "a/.", "//x//"] {
        let expected: Vec<String> = std::path::Path::new(p)
            .components()
            .map(|c| c.as_os_str().to_string_lossy().into_owned())
            .collect();
        assert_eq!(path_components(p), expected, "path {:?}", p);
    }
}

#[test]
fn parent_and_file_name_follow_std() {
    for p in [
        "/home/runner/work/powder/powder", "/home", "/", "", "a", "a/b", "a/b/", "a//b//", "./a", ".",
        "./", "..", "../x", "/a/./b/.", "/a/b/..", "a/.", "//x", "/x//", ".//a", "./.", "a/./", "/.",
    ] {
        let path = std::path::Path::new(p);
        let expected_parent = path.parent().map(|q| q.display().to_string());
        let expected_name = path.file_name().map(|n| n.to_string_lossy().into_owned());
        assert_eq!(parent(p), expected_parent, "parent of {:?}", p);
        assert_eq!(file_name(p), expected_name, "file name of {:?}", p);
    }
}
