use rloc::counter::FileStats;
use rloc::output::{
    apply_summary_cutoff, escape_xml, sort_languages, OutputConfig, OutputFormat, SortBy,
};
use rloc::stats::{sums_fit, LanguageStats, Summary};
use std::time::Duration;

fn file(path: &str, language: &str, code: u64, comments: u64, blanks: u64) -> FileStats {
    FileStats { path: path.into(), language: language.into(), code, comments, blanks }
}

#[test]
fn test_summary_aggregation() {
    let stats = vec![
        FileStats {
            path: "a.rs".into(),
            language: "Rust".into(),
            code: 100,
            comments: 20,
            blanks: 10,
        },
        FileStats {
            path: "b.rs".into(),
            language: "Rust".into(),
            code: 50,
            comments: 10,
            blanks: 5,
        },
        FileStats {
            path: "c.py".into(),
            language: "Python".into(),
            code: 30,
            comments: 5,
            blanks: 3,
        },
    ];

    let summary = Summary::from_file_stats(stats);

    assert_eq!(summary.total_files, 3);
    assert_eq!(summary.total_code, 180);
    assert_eq!(summary.total_comments, 35);
    assert_eq!(summary.total_blanks, 18);
    assert_eq!(summary.languages.len(), 2);
}

#[test]
fn languages_stand_by_code_and_then_by_name() {
    let stats = vec![
        file("a.py", "Python", 10, 0, 0),
        file("a.rs", "Rust", 30, 1, 1),
        file("a.c", "C", 10, 2, 0),
        file("b.py", "Python", 20, 0, 3),
        file("a.go", "Go", 30, 0, 0),
        file("a.ada", "Ada", 10, 0, 0),
    ];
    let summary = Summary::from_file_stats(stats);
    let order: Vec<(&str, u64, u64)> =
        summary.languages.iter().map(|l| (l.name.as_str(), l.files, l.code)).collect();
    assert_eq!(
        order,
        vec![("Go", 1, 30), ("Python", 2, 30), ("Rust", 1, 30), ("Ada", 1, 10), ("C", 1, 10)]
    );
    assert_eq!(summary.languages[1].blanks, 3);
    assert_eq!(summary.languages[4].comments, 2);
    assert_eq!(summary.file_stats.len(), 6);
    assert_eq!(summary.file_stats[0].path, "a.py");
    assert!(summary.elapsed.is_none());
    assert_eq!(summary.total_lines(), 117);
}

#[test]
fn the_order_of_the_files_does_not_change_the_languages() {
    let forward = vec![
        file("a.py", "Python", 10, 1, 2),
        file("a.rs", "Rust", 30, 1, 1),
        file("b.py", "Python", 20, 0, 3),
    ];
    let mut backward: Vec<FileStats> = forward.iter().map(|f| f.clone()).collect();
    backward.reverse();
    let one = Summary::from_file_stats(forward);
    let two = Summary::from_file_stats(backward);
    let view = |s: &Summary| -> Vec<(String, u64, u64, u64, u64)> {
        s.languages
            .iter()
            .map(|l| (l.name.clone(), l.files, l.code, l.comments, l.blanks))
            .collect()
    };
    assert_eq!(view(&one), view(&two));
    assert_eq!(one.total_files, two.total_files);
    assert_eq!(one.total_code, two.total_code);
}

#[test]
fn a_language_without_a_line_is_left_out() {
    let stats = vec![
        file("a.rs", "Rust", 1, 0, 0),
        file("empty.py", "Python", 0, 0, 0),
        file("b.rs", "Rust", 0, 0, 0),
    ];
    let summary = Summary::from_file_stats(stats);
    assert_eq!(summary.languages.len(), 1);
    assert_eq!(summary.languages[0].name, "Rust");
    assert_eq!(summary.languages[0].files, 2);
    assert_eq!(summary.total_files, 2);
    assert_eq!(summary.file_stats.len(), 3);
}

#[test]
fn an_empty_run_has_an_empty_summary() {
    let summary = Summary::from_file_stats(Vec::new());
    assert!(summary.languages.is_empty());
    assert_eq!(summary.total_files, 0);
    assert_eq!(summary.total_lines(), 0);
    let fresh = Summary::new();
    assert!(fresh.languages.is_empty() && fresh.file_stats.is_empty());
    assert_eq!(fresh.total_files + fresh.total_code + fresh.total_comments + fresh.total_blanks, 0);
    assert!(fresh.elapsed.is_none());
}

#[test]
fn elapsed_time_is_kept() {
    let summary = Summary::from_file_stats(vec![file("a.rs", "Rust", 1, 2, 3)])
        .with_elapsed(Duration::from_millis(1500));
    assert_eq!(summary.elapsed, Some(Duration::from_millis(1500)));
    assert_eq!(summary.total_code, 1);
    assert_eq!(summary.languages.len(), 1);
    assert_eq!(summary.file_stats.len(), 1);
}

#[test]
fn sums_that_do_not_fit_are_told() {
    assert!(sums_fit(&vec![file("a", "A", 1, 2, 3), file("b", "B", 4, 5, 6)]));
    assert!(sums_fit(&vec![file("a", "A", u64::MAX, 0, 0)]));
    assert!(!sums_fit(&vec![file("a", "A", u64::MAX, 0, 0), file("b", "B", 1, 0, 0)]));
    assert!(!sums_fit(&vec![file("a", "A", 0, 0, u64::MAX), file("b", "B", 0, 0, 1)]));
}

#[test]
fn aggregates_add_files() {
    let mut stats = LanguageStats::default();
    stats.name = "Rust".into();
    stats.add(&file("a.rs", "Rust", 3, 2, 1));
    stats.add(&file("b.rs", "Rust", 10, 20, 30));
    assert_eq!((stats.files, stats.code, stats.comments, stats.blanks), (2, 13, 22, 31));
    assert_eq!(stats.total(), 66);
    assert!(stats.has_lines());
    assert!(!LanguageStats::default().has_lines());
    assert_eq!(stats.name, "Rust");
}

fn language(name: &str, files: u64, code: u64) -> LanguageStats {
    LanguageStats { name: name.into(), files, code, comments: 1, blanks: 2 }
}

#[test]
fn cutoff_folds_the_small_languages_into_one() {
    let languages = vec![
        language("Rust", 5, 50),
        language("C", 1, 10),
        language("Go", 3, 30),
        language("Ada", 2, 20),
    ];
    let folded = apply_summary_cutoff(&languages, 3);
    let view: Vec<(&str, u64, u64, u64, u64)> = folded
        .iter()
        .map(|l| (l.name.as_str(), l.files, l.code, l.comments, l.blanks))
        .collect();
    assert_eq!(view, vec![("Rust", 5, 50, 1, 2), ("Go", 3, 30, 1, 2), ("Other", 3, 30, 2, 4)]);
    let all = apply_summary_cutoff(&languages, 0);
    assert_eq!(all.len(), 4);
    assert_eq!(all[3].name, "Ada");
    let none = apply_summary_cutoff(&languages, 100);
    assert_eq!(none.len(), 1);
    assert_eq!((none[0].name.as_str(), none[0].files, none[0].code), ("Other", 11, 110));
    let empty = apply_summary_cutoff(&[language("Zero", 0, 0)], 1);
    assert!(empty.is_empty());
}

#[test]
fn markup_is_escaped() {
    assert_eq!(escape_xml("plain"), "plain");
    assert_eq!(escape_xml(""), "");
    assert_eq!(escape_xml("a & b"), "a &amp; b");
    assert_eq!(escape_xml("<C++ \"x\" 'y'>"), "&lt;C++ &quot;x&quot; &apos;y&apos;&gt;");
    assert_eq!(escape_xml("&amp;"), "&amp;amp;");
}

#[test]
fn renderers_default_to_a_table_by_code() {
    let config = OutputConfig::default();
    assert_eq!(config.format, OutputFormat::Table);
    assert_eq!(config.sort_by, SortBy::Code);
    assert_eq!(config.csv_delimiter, b',');
    assert!(!config.by_file && !config.by_file_by_lang && !config.hide_rate);
    assert!(!config.show_total_column && !config.by_percent);
    assert!(config.summary_cutoff.is_none());
    assert_eq!(OutputFormat::default(), OutputFormat::Table);
    assert_eq!(SortBy::default(), SortBy::Code);
}

#[test]
fn languages_are_ordered_by_a_column() {
    let list = vec![
        LanguageStats { name: "Go".into(), files: 2, code: 10, comments: 5, blanks: 0 },
        LanguageStats { name: "C".into(), files: 3, code: 10, comments: 1, blanks: 7 },
        LanguageStats { name: "Rust".into(), files: 1, code: 30, comments: 1, blanks: 2 },
        LanguageStats { name: "Ada".into(), files: 3, code: 5, comments: 9, blanks: 2 },
    ];
    let names = |by: SortBy| -> Vec<String> {
        sort_languages(&list, by).iter().map(|l| l.name.clone()).collect()
    };
    assert_eq!(names(SortBy::Language), vec!["Ada", "C", "Go", "Rust"]);
    assert_eq!(names(SortBy::Files), vec!["C", "Ada", "Go", "Rust"]);
    assert_eq!(names(SortBy::Code), vec!["Rust", "Go", "C", "Ada"]);
    assert_eq!(names(SortBy::Comments), vec!["Ada", "Go", "C", "Rust"]);
    assert_eq!(names(SortBy::Blanks), vec!["C", "Rust", "Ada", "Go"]);
    assert_eq!(names(SortBy::Total), vec!["Rust", "C", "Ada", "Go"]);
    let mut expected = list.iter().map(|l| l.name.clone()).collect::<Vec<String>>();
    expected.sort();
    assert_eq!(names(SortBy::Language), expected);
    assert!(sort_languages(&Vec::new(), SortBy::Code).is_empty());
}
