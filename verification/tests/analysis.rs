use rloc::analysis::{
    analyze_hashed, bytes_fit, compute_file_hash, count_files, count_files_by_language,
    count_unique,
};
use rloc::languages::get_language;
use rloc::stats::Summary;
use rloc::walker::FileEntry;
use rloc::{analyze_files, config_to_walker, summary_to_analysis, AnalyzeConfig, Error, LoadedFile};

fn loaded(path: &str, language: &str, content: &[u8]) -> LoadedFile {
    LoadedFile {
        path: path.to_string(),
        language: get_language(language).unwrap(),
        content: Some(content.to_vec()),
    }
}

fn unreadable(path: &str, language: &str) -> LoadedFile {
    LoadedFile { path: path.to_string(), language: get_language(language).unwrap(), content: None }
}

#[test]
fn two_rust_files_are_analyzed() {
    let files = vec![
        loaded("main.rs", "Rust", b"fn main() {\n    println!(\"Hello\");\n}\n"),
        loaded("lib.rs", "Rust", b"pub fn add(a: i32, b: i32) -> i32 {\n    a + b\n}\n"),
    ];
    let analysis = analyze_files(&files, true).unwrap();
    assert_eq!(analysis.total_files, 2);
    assert_eq!(analysis.total_code, 6);
    assert_eq!(analysis.total_lines(), 6);
    let top = analysis.top_language().unwrap();
    assert_eq!(top.name, "Rust");
    assert_eq!(top.files, 2);
    assert_eq!(top.total_lines(), 6);
}

#[test]
fn the_language_with_most_code_stands_first() {
    let files = vec![
        loaded("lib.rs", "Rust", b"fn x() {}\n"),
        loaded("main.py", "Python", b"print('hello')\nprint('world')\n"),
    ];
    let analysis = analyze_files(&files, true).unwrap();
    assert_eq!(analysis.top_language().unwrap().name, "Python");
    assert_eq!(analysis.languages.len(), 2);
    assert_eq!(analysis.languages[1].name, "Rust");
}

#[test]
fn no_files_is_an_error() {
    let result = analyze_files(&Vec::new(), true);
    assert!(matches!(result, Err(Error::NoSourceFiles)));
    let result = count_files_by_language(&Vec::new());
    assert!(matches!(result, Err(Error::NoSourceFiles)));
}

#[test]
fn files_without_lines_leave_an_empty_analysis() {
    let files = vec![loaded("a.rs", "Rust", b""), unreadable("b.rs", "Rust")];
    let analysis = analyze_files(&files, true).unwrap();
    assert!(analysis.languages.is_empty());
    assert!(analysis.top_language().is_none());
    assert_eq!(analysis.total_files, 0);
}

#[test]
fn files_of_equal_content_are_counted_once() {
    let text = b"fn main() {\n    // hi\n}\n";
    let files = vec![
        loaded("a.rs", "Rust", text),
        loaded("copy/a.rs", "Rust", text),
        loaded("b.rs", "Rust", b"fn other() {}\n"),
        loaded("again/a.rs", "Rust", text),
    ];
    let analysis = analyze_files(&files, true).unwrap();
    assert_eq!(analysis.total_files, 2);
    assert_eq!(analysis.total_code, 3);
    assert_eq!(analysis.total_comments, 1);
    let stats = count_files(&files, true);
    let paths: Vec<&str> = stats.iter().map(|s| s.path.as_str()).collect();
    assert_eq!(paths, vec!["a.rs", "b.rs"]);
    let all = analyze_files(&files, false).unwrap();
    assert_eq!(all.total_files, 4);
    assert_eq!(all.total_code, 7);
}

#[test]
fn two_identical_files_count_as_one() {
    let files = vec![loaded("x.c", "C", b"int x;\n"), loaded("y.c", "C", b"int x;\n")];
    let analysis = analyze_files(&files, true).unwrap();
    assert_eq!(analysis.total_files, 1);
    assert_eq!(analysis.total_code, 1);
    let mut swapped = vec![loaded("y.c", "C", b"int x;\n"), loaded("x.c", "C", b"int x;\n")];
    let other = analyze_files(&swapped, true).unwrap();
    assert_eq!(other.total_files, 1);
    assert_eq!(other.total_code, 1);
    swapped.clear();
}

#[test]
fn hashes_decide_what_counts_as_equal() {
    let files = vec![
        loaded("a.rs", "Rust", b"fn a() {}\n"),
        unreadable("gone.rs", "Rust"),
        loaded("b.rs", "Rust", b"fn b() {}\nfn c() {}\n"),
        loaded("empty.rs", "Rust", b""),
        loaded("late.rs", "Rust", b"fn late() {}\n"),
    ];
    let same = vec![7, 7, 7, 9, 9];
    let paths = |unique: bool, hashes: &Vec<u64>| -> Vec<String> {
        count_unique(&files, hashes, unique).iter().map(|s| s.path.clone()).collect()
    };
    assert_eq!(paths(true, &same), vec!["a.rs"]);
    assert_eq!(paths(false, &same), vec!["a.rs", "b.rs", "late.rs"]);
    assert_eq!(paths(true, &vec![1, 2, 3, 4, 5]), vec!["a.rs", "b.rs", "late.rs"]);
    assert_eq!(paths(true, &vec![1, 1, 2, 2, 1]), vec!["a.rs", "b.rs"]);
    let stats = count_unique(&files, &vec![1, 2, 3, 4, 5], true);
    assert_eq!(stats[1].code, 2);
    assert_eq!(stats[1].language, "Rust");
}

#[test]
fn equal_bytes_hash_alike_and_others_do_not() {
    assert_eq!(compute_file_hash(b"fn main() {}"), compute_file_hash(b"fn main() {}"));
    assert_ne!(compute_file_hash(b"fn main() {}"), compute_file_hash(b"fn main() { }"));
    assert_ne!(compute_file_hash(b""), compute_file_hash(b"\0"));
    assert_ne!(compute_file_hash(b"12345678"), 0x3132333435363738);
}

#[test]
fn bytes_are_summed() {
    assert!(bytes_fit(&Vec::new()));
    assert!(bytes_fit(&vec![loaded("a.rs", "Rust", b"abc"), unreadable("b.rs", "Rust")]));
}

fn entry(path: &str, language: &str) -> FileEntry {
    FileEntry { path: path.to_string(), language: get_language(language).unwrap() }
}

#[test]
fn files_are_counted_by_language_without_reading() {
    let entries = vec![
        entry("main.rs", "Rust"),
        entry("app.ts", "TypeScript"),
        entry("lib.rs", "Rust"),
        entry("a.c", "C"),
    ];
    let analysis = count_files_by_language(&entries).unwrap();
    assert_eq!(analysis.total_files, 4);
    assert_eq!(analysis.total_code, 0);
    let view: Vec<(&str, u64, u64)> =
        analysis.languages.iter().map(|l| (l.name.as_str(), l.files, l.code)).collect();
    assert_eq!(view, vec![("Rust", 2, 0), ("C", 1, 0), ("TypeScript", 1, 0)]);
    let top = analysis.top_language().unwrap();
    assert_eq!(top.name, "Rust");
    assert_eq!(top.files, 2);
}

#[test]
fn an_analysis_walks_from_its_root() {
    let config = AnalyzeConfig::new("src");
    assert_eq!(config.paths, vec!["src"]);
    assert!(config.exclude_dirs.contains(&"node_modules".to_string()));
    assert_eq!(config.exclude_dirs.len(), 15);
    assert!(config.threads.is_none() && config.max_depth.is_none());
    let config = config
        .paths(vec!["a".to_string(), "b".to_string()])
        .exclude_dirs(vec!["out".to_string()])
        .include_langs(vec!["Rust".to_string()])
        .exclude_langs(vec!["C".to_string()])
        .max_depth(3)
        .threads(4);
    assert_eq!(config.paths, vec!["a", "b"]);
    assert_eq!(config.exclude_dirs, vec!["out"]);
    assert_eq!(config.include_langs, vec!["Rust"]);
    assert_eq!(config.exclude_langs, vec!["C"]);
    assert_eq!(config.max_depth, Some(3));
    assert_eq!(config.threads, Some(4));
    let walker = config_to_walker(&config);
    assert_eq!(walker.paths, vec!["a", "b"]);
    assert_eq!(walker.exclude_dirs, vec!["out"]);
    assert_eq!(walker.include_langs, vec!["Rust"]);
    assert_eq!(walker.exclude_langs, vec!["C"]);
    assert_eq!(walker.max_depth, Some(3));
    assert!(walker.force_lang.is_empty() && walker.vcs.is_none() && walker.list_file.is_none());
    let empty = config_to_walker(&AnalyzeConfig::default());
    assert_eq!(empty.paths, vec!["."]);
    assert!(empty.exclude_dirs.is_empty());
}

#[test]
fn a_summary_becomes_an_analysis() {
    let files = vec![
        loaded("a.rs", "Rust", b"fn a() {}\n// c\n\n"),
        loaded("b.py", "Python", b"x = 1\ny = 2\n"),
    ];
    let summary = Summary::from_file_stats(count_files(&files, true));
    let analysis = summary_to_analysis(&summary);
    assert_eq!(analysis.languages.len(), 2);
    assert_eq!(analysis.languages[0].name, "Python");
    assert_eq!(analysis.languages[0].code, 2);
    assert_eq!(analysis.languages[1].name, "Rust");
    assert_eq!(
        (analysis.languages[1].code, analysis.languages[1].comments, analysis.languages[1].blanks),
        (1, 1, 1)
    );
    assert_eq!(analysis.total_files, 2);
    assert_eq!(analysis.total_lines(), 5);
}

#[test]
fn copies_with_one_hash_are_one_file() {
    let text = b"fn main() {\n    // hi\n\n}\n";
    for copies in 1..5 {
        let files: Vec<LoadedFile> =
            (0..copies).map(|i| loaded(&format!("copy{}.rs", i), "Rust", text)).collect();
        let hashes = vec![42u64; copies];
        let analysis = analyze_hashed(&files, &hashes, true).unwrap();
        assert_eq!(analysis.total_files, 1);
        assert_eq!(
            (analysis.total_code, analysis.total_comments, analysis.total_blanks),
            (2, 1, 1)
        );
        assert_eq!(analysis.languages.len(), 1);
        assert_eq!(analysis.languages[0].name, "Rust");
        assert_eq!(analysis.languages[0].files, 1);
        assert_eq!(analysis.languages[0].code, 2);
        let all = analyze_hashed(&files, &hashes, false).unwrap();
        assert_eq!(all.total_files, copies as u64);
        let real = analyze_files(&files, true).unwrap();
        assert_eq!(real.total_files, 1);
        assert_eq!(real.total_code, 2);
    }
    assert!(matches!(analyze_hashed(&Vec::new(), &Vec::new(), true), Err(Error::NoSourceFiles)));
}

fn view(analysis: &rloc::Analysis) -> (u64, u64, u64, u64, Vec<(String, u64, u64, u64, u64)>) {
    (
        analysis.total_files,
        analysis.total_code,
        analysis.total_comments,
        analysis.total_blanks,
        analysis
            .languages
            .iter()
            .map(|l| (l.name.clone(), l.files, l.code, l.comments, l.blanks))
            .collect(),
    )
}

#[test]
fn the_order_of_the_files_does_not_change_the_analysis() {
    let contents: [(&str, &str, &[u8], u64); 6] = [
        ("a.rs", "Rust", b"fn a() {}\n// c\n", 1),
        ("b.rs", "Rust", b"fn a() {}\n// c\n", 1),
        ("c.py", "Python", b"x = 1\n\n# y\n", 2),
        ("d.rs", "Rust", b"fn d() {}\n", 3),
        ("e.py", "Python", b"x = 1\n\n# y\n", 2),
        ("f.c", "C", b"int f;\nint g;\n", 4),
    ];
    let build = |order: &[usize]| -> (Vec<LoadedFile>, Vec<u64>) {
        (
            order.iter().map(|&i| loaded(contents[i].0, contents[i].1, contents[i].2)).collect(),
            order.iter().map(|&i| contents[i].3).collect(),
        )
    };
    let (files, hashes) = build(&[0, 1, 2, 3, 4, 5]);
    let expected = view(&analyze_hashed(&files, &hashes, true).unwrap());
    assert_eq!(expected.0, 4);
    let mut order: Vec<usize> = vec![0, 1, 2, 3, 4, 5];
    let mut seen = 0;
    let mut counters = vec![0usize; order.len()];
    let mut i = 0;
    while i < order.len() {
        if counters[i] < i {
            if i % 2 == 0 {
                order.swap(0, i);
            } else {
                order.swap(counters[i], i);
            }
            let (files, hashes) = build(&order);
            assert_eq!(view(&analyze_hashed(&files, &hashes, true).unwrap()), expected);
            assert_eq!(view(&analyze_files(&files, true).unwrap()), expected);
            seen += 1;
            counters[i] += 1;
            i = 0;
        } else {
            counters[i] = 0;
            i += 1;
        }
    }
    assert_eq!(seen, 719);
}
