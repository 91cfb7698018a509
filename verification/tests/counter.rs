use rloc::counter::{classify_line, content_is_binary, count_lines, LineType, State};
use rloc::languages::{get_language, Language};

#[test]
fn test_c_style_comments() {
    let rust = get_language("Rust").unwrap();

    let cases = [
        ("let x = 5;", State::Code, LineType::Code),
        ("// comment", State::Code, LineType::Comment),
        ("let x = 5; // comment", State::Code, LineType::Mixed),
        ("/* block */", State::Code, LineType::Comment),
        ("/* start", State::BlockComment { depth: 1 }, LineType::Comment),
    ];

    for (line, expected_state, expected_type) in cases {
        let (state, line_type) = classify_line(line, State::Code, &rust);
        assert_eq!(state, expected_state, "Failed state for: {}", line);
        assert_eq!(line_type, expected_type, "Failed type for: {}", line);
    }
}

#[test]
fn test_nested_comments() {
    let rust = get_language("Rust").unwrap();
    assert!(rust.nested_comments);

    let (state, _) = classify_line("/* outer /* inner */", State::Code, &rust);
    assert_eq!(state, State::BlockComment { depth: 1 });
}

#[test]
fn rust_file_with_line_and_block_comments() {
    let rust = get_language("Rust").unwrap();
    let content = b"fn main() {\n    // hi\n    let x = 5; /* block */\n}\n";
    let stats = count_lines("main.rs", content, &rust);
    assert_eq!(stats.path, "main.rs");
    assert_eq!(stats.language, "Rust");
    assert_eq!(stats.blanks, 0);
    assert_eq!(stats.comments, 1);
    assert_eq!(stats.code, 3);
    assert_eq!(stats.total(), 4);
}

#[test]
fn nested_comment_left_open_is_one_comment_line() {
    let rust = get_language("Rust").unwrap();
    let stats = count_lines("a.rs", b"/* outer /* inner */", &rust);
    assert_eq!((stats.code, stats.comments, stats.blanks), (0, 1, 0));
    let (state, kind) = classify_line("/* outer /* inner */", State::Code, &rust);
    assert_eq!(state, State::BlockComment { depth: 1 });
    assert_eq!(kind, LineType::Comment);
}

#[test]
fn nested_comment_needs_as_many_closings_as_openings() {
    let rust = get_language("Rust").unwrap();
    let (state, _) = classify_line("/* a /* b /* c */", State::Code, &rust);
    assert_eq!(state, State::BlockComment { depth: 2 });
    let (state, _) = classify_line("*/ */", state, &rust);
    assert_eq!(state, State::Code);
    let c = get_language("C").unwrap();
    let (state, _) = classify_line("/* a /* b */", State::Code, &c);
    assert_eq!(state, State::Code);
}

#[test]
fn python_hash_inside_string_is_code() {
    let python = get_language("Python").unwrap();
    let stats = count_lines("x.py", b"x = \"a # not a comment\"", &python);
    assert_eq!(stats.code, 1);
    assert_eq!(stats.comments, 0);
    let (state, kind) = classify_line("x = \"a # not a comment\"", State::Code, &python);
    assert_eq!(state, State::Code);
    assert_eq!(kind, LineType::Code);
}

#[test]
fn c_trailing_comment_counts_as_code() {
    let c = get_language("C").unwrap();
    let stats = count_lines("x.c", b"int x = 0; // trailing", &c);
    assert_eq!(stats.code, 1);
    assert_eq!(stats.comments, 0);
    assert_eq!(stats.blanks, 0);
}

#[test]
fn empty_file_counts_nothing() {
    let rust = get_language("Rust").unwrap();
    let stats = count_lines("empty.rs", b"", &rust);
    assert_eq!((stats.code, stats.comments, stats.blanks), (0, 0, 0));
}

#[test]
fn file_of_newlines_is_all_blank() {
    let rust = get_language("Rust").unwrap();
    let stats = count_lines("n.rs", b"\n\n\n\n\n", &rust);
    assert_eq!((stats.code, stats.comments, stats.blanks), (0, 0, 5));
    let json = get_language("JSON").unwrap();
    let stats = count_lines("n.json", b"\n\n\n", &json);
    assert_eq!((stats.code, stats.comments, stats.blanks), (0, 0, 3));
}

#[test]
fn last_line_without_newline_is_counted() {
    let rust = get_language("Rust").unwrap();
    let with = count_lines("a.rs", b"let a = 1;\nlet b = 2;\n", &rust);
    let without = count_lines("a.rs", b"let a = 1;\nlet b = 2;", &rust);
    assert_eq!(with.code, 2);
    assert_eq!(without.code, 2);
}

#[test]
fn unclosed_block_comment_runs_to_the_end() {
    let c = get_language("C").unwrap();
    let stats = count_lines("a.c", b"int a;\n/* open\nint b;\n\nint c;\n", &c);
    assert_eq!((stats.code, stats.comments, stats.blanks), (1, 4, 0));
}

#[test]
fn blank_line_inside_block_comment_is_a_comment() {
    let c = get_language("C").unwrap();
    let stats = count_lines("a.c", b"/*\n\n   \n*/\n\nint a;\n", &c);
    assert_eq!((stats.code, stats.comments, stats.blanks), (1, 4, 1));
}

#[test]
fn carriage_returns_are_not_part_of_a_line() {
    let c = get_language("C").unwrap();
    let stats = count_lines("a.c", b"int a;\r\n\r\n// c\r\n", &c);
    assert_eq!((stats.code, stats.comments, stats.blanks), (1, 1, 1));
}

#[test]
fn line_that_is_not_utf8_is_passed_over() {
    let c = get_language("C").unwrap();
    let stats = count_lines("a.c", b"int a;\n\xff\xfe\nint b;\n", &c);
    assert_eq!((stats.code, stats.comments, stats.blanks), (2, 0, 0));
}

#[test]
fn non_ascii_text_is_scanned_by_character() {
    let c = get_language("C").unwrap();
    let text = "int \u{e9}t\u{e9} = 1; // \u{4e2d}\u{6587}\n/* \u{1f600} */\n";
    let stats = count_lines("a.c", text.as_bytes(), &c);
    assert_eq!((stats.code, stats.comments, stats.blanks), (1, 1, 0));
}

#[test]
fn binary_content_counts_nothing() {
    let c = get_language("C").unwrap();
    let mut content = vec![0u8; 64];
    content.extend_from_slice(b"\nint a;\n");
    assert!(content_is_binary(&content));
    let stats = count_lines("a.bin", &content, &c);
    assert_eq!((stats.code, stats.comments, stats.blanks), (0, 0, 0));
    assert_eq!(stats.path, "a.bin");
    assert_eq!(stats.language, "C");
}

#[test]
fn binary_needs_more_than_one_nul_and_more_than_a_tenth() {
    assert!(!content_is_binary(b""));
    assert!(!content_is_binary(b"a\0b"));
    assert!(content_is_binary(b"a\0\0b"));
    let mut long = vec![b'a'; 100];
    for i in 0..10 {
        long[i] = 0;
    }
    assert!(!content_is_binary(&long));
    long[10] = 0;
    assert!(content_is_binary(&long));
    let mut late = vec![b'a'; 9000];
    for i in 8192..9000 {
        late[i] = 0;
    }
    assert!(!content_is_binary(&late));
}

#[test]
fn language_without_comments_counts_code_and_blanks() {
    let json = get_language("JSON").unwrap();
    assert!(!json.has_comments());
    let stats = count_lines("a.json", b"{\n  \"a\": \"// no\"\n\n}\n", &json);
    assert_eq!((stats.code, stats.comments, stats.blanks), (3, 0, 1));
}

#[test]
fn block_token_is_tried_before_line_tokens() {
    let lua = get_language("Lua").unwrap();
    let (state, kind) = classify_line("--[[ long", State::Code, &lua);
    assert_eq!(state, State::BlockComment { depth: 1 });
    assert_eq!(kind, LineType::Comment);
    let (state, kind) = classify_line("-- short", State::Code, &lua);
    assert_eq!(state, State::Code);
    assert_eq!(kind, LineType::Comment);
}

#[test]
fn line_tokens_are_tried_in_order() {
    let batch = get_language("Batch").unwrap();
    let (_, kind) = classify_line(":: note", State::Code, &batch);
    assert_eq!(kind, LineType::Comment);
    let (_, kind) = classify_line("echo hi", State::Code, &batch);
    assert_eq!(kind, LineType::Code);
}

#[test]
fn string_ends_with_its_line_and_escapes_are_skipped() {
    let c = get_language("C").unwrap();
    let (state, kind) = classify_line("char *s = \"open", State::Code, &c);
    assert_eq!(state, State::Code);
    assert_eq!(kind, LineType::Code);
    let (_, kind) = classify_line("s = \"a \\\" // b\";", State::Code, &c);
    assert_eq!(kind, LineType::Code);
    let (_, kind) = classify_line("s = \"a\"; // b", State::Code, &c);
    assert_eq!(kind, LineType::Mixed);
    let (_, kind) = classify_line("s = \"a\\", State::Code, &c);
    assert_eq!(kind, LineType::Code);
}

#[test]
fn any_single_character_delimiter_opens_a_string() {
    let lang = Language::c_style("Ticks").with_string_delimiters(&["`", "<<"]);
    let (_, kind) = classify_line("x = `a // b`", State::Code, &lang);
    assert_eq!(kind, LineType::Code);
    let (_, kind) = classify_line("x = <<a // b", State::Code, &lang);
    assert_eq!(kind, LineType::Mixed);
}

#[test]
fn code_after_a_closed_block_comment_makes_a_mixed_line() {
    let c = get_language("C").unwrap();
    let (state, kind) = classify_line("end */ int a;", State::BlockComment { depth: 1 }, &c);
    assert_eq!(state, State::Code);
    assert_eq!(kind, LineType::Mixed);
    let stats = count_lines("a.c", b"/* a\nend */ int a;\n", &c);
    assert_eq!((stats.code, stats.comments, stats.blanks), (1, 1, 0));
}

#[test]
fn counting_in_two_parts_gives_the_counts_of_the_whole() {
    let c = get_language("C").unwrap();
    let lines = ["int a;", "/* open", "", "still", "*/ int b;", "// c", ""];
    let mut whole = (0u64, 0u64, 0u64);
    let mut state = State::Code;
    for line in lines {
        let (next, kind) = step(line, state, &c);
        state = next;
        add(&mut whole, kind);
    }
    for cut in 0..=lines.len() {
        let mut parts = (0u64, 0u64, 0u64);
        let mut state = State::Code;
        for line in &lines[..cut] {
            let (next, kind) = step(line, state, &c);
            state = next;
            add(&mut parts, kind);
        }
        let carried = state;
        let mut state = carried;
        for line in &lines[cut..] {
            let (next, kind) = step(line, state, &c);
            state = next;
            add(&mut parts, kind);
        }
        assert_eq!(parts, whole);
    }
    let mut text = lines.join("\n");
    text.push('\n');
    let stats = count_lines("a.c", text.as_bytes(), &c);
    assert_eq!((stats.code, stats.comments, stats.blanks), whole);
}

fn step(line: &str, state: State, lang: &Language) -> (State, LineType) {
    let trimmed = line.trim();
    if trimmed.is_empty() {
        let kind = if matches!(state, State::BlockComment { .. }) {
            LineType::Comment
        } else {
            LineType::Blank
        };
        (state, kind)
    } else {
        classify_line(trimmed, state, lang)
    }
}

fn add(counts: &mut (u64, u64, u64), kind: LineType) {
    match kind {
        LineType::Code | LineType::Mixed => counts.0 += 1,
        LineType::Comment => counts.1 += 1,
        LineType::Blank => counts.2 += 1,
    }
}

#[test]
fn the_counts_add_up_to_the_number_of_lines() {
    let texts: [&[u8]; 8] = [
        b"",
        b"\n",
        b"a",
        b"a\n",
        b"a\n\n// b\n/* c\n\n d */ e\n",
        b"\r\n\r\n",
        b"x = 1 # y\n\"\"\"\ndoc\n\"\"\"\n",
        b"no newline at the end // c",
    ];
    for name in ["Rust", "C", "Python", "JSON", "HTML", "Batch"] {
        let language = get_language(name).unwrap();
        for text in texts {
            let lines = std::str::from_utf8(text).unwrap().lines().count() as u64;
            let stats = count_lines("f", text, &language);
            assert_eq!(stats.code + stats.comments + stats.blanks, lines, "{} {:?}", name, text);
        }
    }
}

#[test]
fn a_newline_behind_the_last_line_changes_no_count() {
    let texts: [&[u8]; 7] = [
        b"a",
        b"a\nb",
        b"int a; // c\n/* open",
        b"x\n\n  y  ",
        b"a\r",
        b"a\r\nb\r",
        b"\xc3\xa9t\xc3\xa9 // \xe4\xb8\xad",
    ];
    for name in ["Rust", "C", "Python", "JSON", "Haskell"] {
        let language = get_language(name).unwrap();
        for text in texts {
            let mut longer = text.to_vec();
            longer.push(b'\n');
            let short = count_lines("f", text, &language);
            let long = count_lines("f", &longer, &language);
            assert_eq!(
                (short.code, short.comments, short.blanks),
                (long.code, long.comments, long.blanks),
                "{} {:?}",
                name,
                text
            );
        }
    }
    let rust = get_language("Rust").unwrap();
    assert_eq!(count_lines("f", b"a\nb", &rust).code, 2);
}

#[test]
fn comments_inside_an_open_comment_do_not_end_it() {
    let rust = get_language("Rust").unwrap();
    let text = b"let a = 1; /* open\n/* inner */\n\n   \ncode? /* in /* deeper */ */ no\nlast\n";
    let stats = count_lines("a.rs", text, &rust);
    assert_eq!((stats.code, stats.comments, stats.blanks), (1, 5, 0));
    let text = b"/* open\n/* inner */\nstill\n";
    let stats = count_lines("a.rs", text, &rust);
    assert_eq!((stats.code, stats.comments, stats.blanks), (0, 3, 0));
    let balanced = b"/* open\n/* inner */ */ code\ncode\n";
    let stats = count_lines("a.rs", balanced, &rust);
    assert_eq!((stats.code, stats.comments, stats.blanks), (2, 1, 0));
}

#[test]
fn openers_and_closers_leave_the_difference() {
    for (name, open, close) in [("Rust", "/*", "*/"), ("Haskell", "{-", "-}"), ("OCaml", "(*", "*)")] {
        let language = get_language(name).unwrap();
        assert!(language.nested_comments);
        for n in 1u32..6 {
            for m in 0..=n {
                let mut tokens: Vec<&str> = Vec::new();
                for _ in 0..n {
                    tokens.push(open);
                }
                for _ in 0..m {
                    tokens.push(close);
                }
                let line = tokens.join(" ");
                let (state, kind) = classify_line(&line, State::Code, &language);
                let expected =
                    if m == n { State::Code } else { State::BlockComment { depth: n - m } };
                assert_eq!(state, expected, "{} {:?}", name, line);
                assert_eq!(kind, LineType::Comment, "{} {:?}", name, line);
            }
        }
    }
}
