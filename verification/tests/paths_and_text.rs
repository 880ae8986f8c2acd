use shell_gui::display::{render_with_tilde, truncate_end, truncate_start};
use shell_gui::path;
use shell_gui::path::PathStyle;
use shell_gui::save_data::default_path;
use shell_gui::text;
use std::path::Path;

const PATHS: &[&str] = &[
    "", "/", "//", "a", "a/", "./a", "a/.", "a/./b", "a//b", "..", "../a", "/a", "/a/", "/a/b",
    "/a//b/", "/a/../b", "/./a", ".", "./", "./.", "/..", "/home/me", "/home/me/code", "/home/mean",
    "a/b/c", "/home/me/my files/x", "..a", ".a", "a.", "/home/me/.", "...", "/a/..",
];

#[test]
fn same_path_as_the_standard_library() {
    for a in PATHS {
        for b in PATHS {
            assert_eq!(
                path::is_same_path(PathStyle::Unix, a, b),
                Path::new(a) == Path::new(b),
                "{:?} {:?}",
                a,
                b
            );
        }
    }
}

#[test]
fn strip_prefix_as_the_standard_library() {
    for a in PATHS {
        for b in PATHS {
            let want = Path::new(a).strip_prefix(b).ok().map(|p| p.to_str().unwrap().to_string());
            assert_eq!(path::strip_prefix(PathStyle::Unix, a, b), want, "{:?} {:?}", a, b);
        }
    }
}

#[test]
fn parent_and_name_as_the_standard_library() {
    for a in PATHS {
        let p = Path::new(a);
        assert_eq!(
            path::parent(PathStyle::Unix, a),
            p.parent().map(|x| x.to_str().unwrap().to_string()),
            "{:?}",
            a
        );
        assert_eq!(
            path::file_name(PathStyle::Unix, a),
            p.file_name().map(|x| x.to_str().unwrap().to_string()),
            "{:?}",
            a
        );
    }
}

#[test]
fn entries_as_the_standard_library() {
    for a in PATHS {
        assert_eq!(
            default_path(None, Some(a.to_string()), PathStyle::Unix),
            Some(Path::new(a).join("shell_state.ss").to_str().unwrap().to_string()),
            "{:?}",
            a
        );
    }
}

#[test]
fn tilde_for_home() {
    let home = Some("/home/me");
    assert_eq!(render_with_tilde("/home/me", home, PathStyle::Unix), "~");
    assert_eq!(render_with_tilde("/home/me/", home, PathStyle::Unix), "~");
    assert_eq!(render_with_tilde("/home/me/code/x y", home, PathStyle::Unix), "~/code/x y");
    assert_eq!(render_with_tilde("/home/me/a\\b", home, PathStyle::Unix), "~/a/b");
    assert_eq!(render_with_tilde("/home/mean", home, PathStyle::Unix), "/home/mean");
    assert_eq!(render_with_tilde("/etc\\x", home, PathStyle::Unix), "/etc\\x");
    assert_eq!(render_with_tilde("/home/me", None, PathStyle::Unix), "/home/me");
}

#[test]
fn truncate_keeps_the_tail() {
    assert_eq!(truncate_start("~/code/Bio/dynamics", 22), "~/code/Bio/dynamics");
    assert_eq!(truncate_start("/home/me/a/code/Bio/dynamics", 22), "...a/code/Bio/dynamics");
    assert_eq!(truncate_start("abcdef", 5), "...ef");
    assert_eq!(truncate_start("äöüßéè", 5), "...éè");
    assert_eq!(truncate_start("abcdef", 3), "...");
    assert_eq!(truncate_start("abc", 3), "abc");
}

#[test]
fn truncate_is_never_longer_than_the_column() {
    assert_eq!(truncate_start("abc", 2), "..");
    assert_eq!(truncate_start("abc", 1), ".");
    assert_eq!(truncate_start("abc", 0), "");
    for max in 0..12usize {
        for s in ["", "a", "abcde", "äöüßéèêë", "0123456789abcdef"] {
            assert!(truncate_start(s, max).chars().count() <= max);
        }
    }
}

#[test]
fn truncate_end_keeps_the_head() {
    assert_eq!(truncate_end("abcdef", 3), "abc");
    assert_eq!(truncate_end("äöü", 2), "äö");
    assert_eq!(truncate_end("ab", 2), "ab");
}

#[test]
fn trimming_as_the_standard_library() {
    for s in [
        "", " ", "a", " a ", "\t\na b\r\n", "\u{a0}x\u{3000}", "\u{200b}x", "\u{85}\u{2028}y ",
        "\u{1680}z\u{205f}", "\u{1c}w\u{1f}",
    ] {
        assert_eq!(text::trimmed(s), s.trim());
        assert_eq!(text::without_leading_white(s), s.trim_start());
    }
    for c in (0u32..0x3100).filter_map(char::from_u32) {
        assert_eq!(text::is_whitespace(c), c.is_whitespace(), "{:?}", c);
    }
    assert_eq!(text::without_trailing("a\n\n", '\n'), "a");
    assert_eq!(text::without_trailing("\na\r\n", '\n'), "\na\r");
}

#[test]
fn numbers_as_the_standard_library() {
    for s in [
        "0", "7", "42", "+5", "+", "", "-1", "007", "65535", "65536", "1 ", "0x1", "1_0", "²",
        "18446744073709551615", "18446744073709551616", "99999999999999999999999", "++1",
    ] {
        assert_eq!(text::parse_uint(s, 65535), s.parse::<u16>().ok().map(|n| n as u64), "{:?}", s);
        assert_eq!(text::parse_uint(s, u64::MAX), s.parse::<u64>().ok(), "{:?}", s);
    }
    for n in [0u64, 9, 10, 101, 65535, u64::MAX] {
        let mut s = "n=".to_string();
        text::push_decimal(&mut s, n);
        assert_eq!(s, format!("n={}", n));
        assert_eq!(text::parse_uint(&s[2..], u64::MAX), Some(n));
    }
}

#[test]
fn substrings_and_prefixes() {
    assert!(text::has_substring("hello", "ell"));
    assert!(text::has_substring("hello", ""));
    assert!(text::has_substring("hello", "hello"));
    assert!(text::has_substring("hello", "lo"));
    assert!(!text::has_substring("hello", "lol"));
    assert!(!text::has_substring("", "a"));
    assert_eq!(text::after_prefix("BOOKMARK /a", "BOOKMARK "), Some("/a".to_string()));
    assert_eq!(text::after_prefix("BOOK", "BOOKMARK "), None);
    assert_eq!(text::with_replaced("a\\b\\", '\\', '/'), "a/b/");
}

const WIN: PathStyle = PathStyle::Windows;

fn text_of(s: &str) -> Option<String> {
    Some(s.to_string())
}

#[test]
fn windows_parents() {
    for (p, want) in [
        ("C:\\", None),
        ("C:/", None),
        ("C:", None),
        ("\\", None),
        ("", None),
        ("\\\\server\\share", None),
        ("\\\\server\\share\\", None),
        ("\\\\.\\COM1", None),
        ("\\\\?\\C:\\", None),
        ("\\\\?\\C:", None),
        ("\\\\?\\UNC\\server\\share", None),
        ("C:\\Users", Some("C:\\")),
        ("C:\\Users\\me", Some("C:\\Users")),
        ("C:/Users\\\\me/", Some("C:/Users")),
        ("C:me", Some("C:")),
        ("\\me", Some("\\")),
        ("me", Some("")),
        (".\\me", Some(".")),
        (".", Some("")),
        ("\\\\server\\share\\x", Some("\\\\server\\share\\")),
        ("\\\\?\\C:\\a\\b", Some("\\\\?\\C:\\a")),
        ("\\\\?\\C:\\a/b", Some("\\\\?\\C:\\")),
        ("\\\\?\\C:\\a\\.", Some("\\\\?\\C:\\a")),
    ] {
        assert_eq!(path::parent(WIN, p), want.map(|s: &str| s.to_string()), "{:?}", p);
    }
}

#[test]
fn windows_names() {
    for (p, want) in [
        ("C:\\", None),
        ("C:", None),
        ("C:\\Users\\me\\", Some("me")),
        ("C:x", Some("x")),
        ("a/b", Some("b")),
        ("a\\b", Some("b")),
        ("\\\\server\\share", None),
        ("//server/share/x", Some("x")),
        ("\\\\server", Some("server")),
        ("C:\\a\\..", None),
        ("\\\\?\\C:\\a/b", Some("a/b")),
    ] {
        assert_eq!(path::file_name(WIN, p), want.map(|s: &str| s.to_string()), "{:?}", p);
    }
    assert_eq!(path::file_name(PathStyle::Unix, "a\\b"), text_of("a\\b"));
    assert_eq!(path::file_name(PathStyle::Unix, "C:"), text_of("C:"));
}

#[test]
fn windows_same_paths() {
    for (a, b, want) in [
        ("C:\\Users", "c:/Users/", true),
        ("C:\\Users", "C:\\users", false),
        ("C:\\a", "C:a", false),
        ("C:\\a", "D:\\a", false),
        ("C:a\\.\\b", "C:.\\a\\b", true),
        ("\\\\s\\h", "//s/h/", true),
        ("\\\\s\\h", "\\\\S\\h", false),
        ("\\\\?\\C:\\a", "C:\\a", false),
        ("\\\\?\\c:\\a", "\\\\?\\C:\\a", true),
        ("\\\\?\\C:\\a\\.", "\\\\?\\C:\\a", false),
        ("\\\\?\\x\\a", "\\\\?\\x\\a\\", true),
        ("\\\\.\\x", "\\\\.\\x\\", true),
        ("a\\b", "a/b", true),
    ] {
        assert_eq!(path::is_same_path(WIN, a, b), want, "{:?} {:?}", a, b);
        assert_eq!(path::is_same_path(WIN, b, a), want, "{:?} {:?}", b, a);
    }
}

#[test]
fn windows_prefixes_and_entries() {
    assert_eq!(path::strip_prefix(WIN, "C:\\Users\\me\\x\\y", "c:\\users"), None);
    assert_eq!(path::strip_prefix(WIN, "C:\\Users\\me\\x\\y\\", "c:/Users"), text_of("me\\x\\y"));
    assert_eq!(path::strip_prefix(WIN, "C:\\a", "C:"), text_of("\\a"));
    assert_eq!(path::strip_prefix(WIN, "C:\\a", "C:\\"), text_of("a"));
    assert_eq!(path::strip_prefix(WIN, "C:\\a\\", ""), text_of("C:\\a"));
    assert_eq!(path::strip_prefix(WIN, "a\\b\\", ""), text_of("a\\b"));
    for (dir, want) in [
        ("C:\\Users\\me", "C:\\Users\\me\\shell_state.ss"),
        ("C:/Users/me/", "C:/Users/me/shell_state.ss"),
        ("C:", "C:shell_state.ss"),
        ("", "shell_state.ss"),
        ("\\\\s\\h", "\\\\s\\h\\shell_state.ss"),
        ("\\\\?\\C:", "\\\\?\\C:\\shell_state.ss"),
        ("\\\\?\\C:\\a\\\\b\\", "\\\\?\\C:\\a\\b\\shell_state.ss"),
    ] {
        assert_eq!(default_path(text_of(dir), None, WIN), text_of(want), "{:?}", dir);
    }
}

#[test]
fn windows_tilde() {
    let home = Some("C:\\Users\\me");
    assert_eq!(render_with_tilde("C:\\Users\\me", home, WIN), "~");
    assert_eq!(render_with_tilde("c:\\Users\\me\\", home, WIN), "~");
    assert_eq!(render_with_tilde("C:\\Users\\me\\code\\x", home, WIN), "~/code/x");
    assert_eq!(render_with_tilde("D:\\x", home, WIN), "D:\\x");
}
