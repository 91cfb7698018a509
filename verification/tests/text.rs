use rloc::paths::{extension, file_name, parent};
use rloc::text::{
    char_ascii_lower, char_is_whitespace, chars_eq_ignore_ascii_case, chars_find, chars_less,
    decimal_string, split_lines, to_chars, trim_bounds,
};
use std::path::Path;

#[test]
fn whitespace_is_what_the_standard_library_calls_whitespace() {
    for code in 0u32..=0x10FFFF {
        if let Some(c) = char::from_u32(code) {
            assert_eq!(char_is_whitespace(c), c.is_whitespace(), "U+{:04X}", code);
        }
    }
}

#[test]
fn ascii_lower_agrees_with_the_standard_library() {
    for code in 0u32..=0x2FF {
        if let Some(c) = char::from_u32(code) {
            assert_eq!(char_ascii_lower(c), c.to_ascii_lowercase());
        }
    }
}

#[test]
fn trimming_agrees_with_the_standard_library() {
    let samples = [
        "",
        " ",
        "a",
        "  a",
        "a  ",
        " \t a b \r\n",
        "\u{a0}x\u{2003}",
        "\u{3000}\u{3000}",
        "x\u{85}",
    ];
    for s in samples {
        let chars = to_chars(s);
        let (start, end) = trim_bounds(&chars);
        let got: String = chars[start..end].iter().collect();
        assert_eq!(got, s.trim(), "{:?}", s);
    }
}

const PATHS: [&str; 40] = [
    "",
    ".",
    "..",
    "/",
    "//",
    "a",
    "a/",
    "a//",
    "/a",
    "a/b",
    "a/b/",
    "a/./b",
    "a/b/.",
    "a/b/..",
    "./a",
    "./a/b.rs",
    "../a",
    "a/../b",
    ".a",
    "a.",
    "a.b",
    "a.b.c",
    ".bashrc",
    ".a.b",
    "..a",
    "a..b",
    "dir.d/file",
    "dir.d/file.tar.gz",
    "/usr/lib/x.so.1",
    "src/main.rs",
    "./.",
    ".//a",
    "a/.b/c",
    "a/b.c/",
    "Makefile",
    "x/CMakeLists.txt",
    "/a/",
    "a/./",
    "...",
    "a/...",
];

#[test]
fn file_names_agree_with_the_standard_library() {
    for p in PATHS {
        let want = Path::new(p).file_name().map(|n| n.to_str().unwrap().to_string());
        assert_eq!(file_name(p), want, "{:?}", p);
    }
}

#[test]
fn extensions_agree_with_the_standard_library() {
    for p in PATHS {
        let want = Path::new(p).extension().map(|n| n.to_str().unwrap().to_string());
        assert_eq!(extension(p), want, "{:?}", p);
    }
}

#[test]
fn parents_agree_with_the_standard_library() {
    for p in PATHS {
        let want = Path::new(p).parent().map(|n| n.to_str().unwrap().to_string());
        assert_eq!(parent(p), want, "{:?}", p);
    }
}

#[test]
fn finding_agrees_with_the_standard_library() {
    let cases = [
        ("", ""),
        ("abc", ""),
        ("abc", "c"),
        ("abc", "d"),
        ("aXbXc", "X"),
        ("a//b//c", "//"),
        ("ab", "abc"),
        ("\u{e9}t\u{e9}//x", "//"),
    ];
    for (text, token) in cases {
        let chars = to_chars(text);
        let needle = to_chars(token);
        let want = text.find(token).map(|at| text[..at].chars().count());
        assert_eq!(chars_find(&chars, &needle), want, "{:?} {:?}", text, token);
    }
}

#[test]
fn comparing_agrees_with_the_standard_library() {
    let names = ["", "a", "A", "ab", "b", "C", "C++", "C#", "Rust", "rust", "\u{e9}"];
    for a in names {
        for b in names {
            let x = to_chars(a);
            let y = to_chars(b);
            assert_eq!(chars_less(&x, &y), a < b, "{:?} {:?}", a, b);
            assert_eq!(
                chars_eq_ignore_ascii_case(&x, &y),
                a.eq_ignore_ascii_case(b),
                "{:?} {:?}",
                a,
                b
            );
        }
    }
}

#[test]
fn numerals_are_decimal() {
    assert_eq!(decimal_string(0), "0");
    assert_eq!(decimal_string(7), "7");
    assert_eq!(decimal_string(10), "10");
    assert_eq!(decimal_string(1234567890), "1234567890");
    assert_eq!(decimal_string(u64::MAX), "18446744073709551615");
    for n in [9u64, 99, 100, 101, 999, 1000, 65535, 65536] {
        assert_eq!(decimal_string(n), n.to_string());
    }
}

#[test]
fn lines_agree_with_the_standard_library() {
    let texts = [
        "",
        "\n",
        "a",
        "a\n",
        "a\nb",
        "a\r\nb\r\n",
        "a\n\nb\n",
        "a\r",
        "\r\n",
        "  \n x \n\t\n",
        "a\rb\n",
    ];
    for text in texts {
        let all: Vec<String> = text.lines().map(|l| l.to_string()).collect();
        assert_eq!(split_lines(text, false), all, "{:?}", text);
        let kept: Vec<String> =
            text.lines().filter(|l| !l.trim().is_empty()).map(|l| l.to_string()).collect();
        assert_eq!(split_lines(text, true), kept, "{:?}", text);
    }
}
