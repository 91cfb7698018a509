use rloc::archive::{archive_kind, is_archive, ArchiveKind};
use rloc::cli::{to_byte_limit, Cli, Format, SortField, Vcs};
use rloc::counter::FileStats;
use rloc::diff::{
    classify_change, compute_diff, format_diff_count, Change, DiffStats, LanguageDiff,
};
use rloc::languages::{get_language, Language};
use rloc::output::{OutputFormat, SortBy};
use rloc::stats::{JsonLanguageStats, JsonOutput};
use rloc::strip::{extract_comment_from_line, strip_comment_from_line, strip_lines, StripMode};
use rloc::walker::VcsMode;
use rloc::Error;

fn cli() -> Cli {
    Cli {
        paths: vec![".".to_string()],
        by_file: false,
        by_file_by_lang: false,
        format: None,
        json: false,
        csv: false,
        csv_delimiter: None,
        yaml: false,
        md: false,
        sql: false,
        xml: false,
        exclude_dir: vec![],
        exclude_ext: vec![],
        exclude_lang: vec![],
        include_ext: vec![],
        include_lang: vec![],
        force_lang: vec![],
        match_d: None,
        not_match_d: vec![],
        match_f: None,
        not_match_f: vec![],
        include_content: None,
        exclude_content: None,
        fullpath: false,
        vcs: None,
        files_from: None,
        follow_symlinks: false,
        hidden: false,
        no_ignore: false,
        skip_gitignore: false,
        skip_uniqueness: false,
        include_submodules: false,
        list_file: None,
        max_depth: None,
        no_recurse: false,
        max_file_size: None,
        sort: SortField::Code,
        summary_cutoff: None,
        hide_rate: false,
        by_percent: false,
        quiet: false,
        verbose: 0,
        out: None,
        report_file: None,
        show_total: false,
        show_lang: false,
        show_ext: false,
        sum_reports: vec![],
        threads: 0,
    }
}

#[test]
fn format_switches_come_before_the_named_format() {
    let mut options = cli();
    assert_eq!(options.to_output_config().format, OutputFormat::Table);
    options.format = Some(Format::Md);
    assert_eq!(options.to_output_config().format, OutputFormat::Markdown);
    options.format = Some(Format::Table);
    assert_eq!(options.to_output_config().format, OutputFormat::Table);
    options.xml = true;
    assert_eq!(options.to_output_config().format, OutputFormat::Xml);
    options.sql = true;
    assert_eq!(options.to_output_config().format, OutputFormat::Sql);
    options.md = true;
    assert_eq!(options.to_output_config().format, OutputFormat::Markdown);
    options.yaml = true;
    assert_eq!(options.to_output_config().format, OutputFormat::Yaml);
    options.csv = true;
    assert_eq!(options.to_output_config().format, OutputFormat::Csv);
    options.json = true;
    assert_eq!(options.to_output_config().format, OutputFormat::Json);
}

#[test]
fn output_options_are_taken_over() {
    let mut options = cli();
    let config = options.to_output_config();
    assert_eq!(config.sort_by, SortBy::Code);
    assert_eq!(config.csv_delimiter, b',');
    assert!(config.summary_cutoff.is_none());
    options.sort = SortField::Total;
    options.csv_delimiter = Some(';');
    options.summary_cutoff = Some(3);
    options.by_file = true;
    options.by_percent = true;
    options.show_total = true;
    options.hide_rate = true;
    let config = options.to_output_config();
    assert_eq!(config.sort_by, SortBy::Total);
    assert_eq!(config.csv_delimiter, b';');
    assert_eq!(config.summary_cutoff, Some(3));
    assert!(config.by_file && config.by_percent && config.show_total_column && config.hide_rate);
    assert!(!config.by_file_by_lang);
    options.csv_delimiter = Some('\u{141}');
    assert_eq!(options.to_output_config().csv_delimiter, 0x41);
    options.sort = SortField::Language;
    assert_eq!(options.to_output_config().sort_by, SortBy::Language);
}

#[test]
fn the_output_file_comes_before_the_report_file() {
    let mut options = cli();
    assert!(options.output_path().is_none());
    options.report_file = Some("report.txt".to_string());
    assert_eq!(options.output_path(), Some(&"report.txt".to_string()));
    options.out = Some("out.txt".to_string());
    assert_eq!(options.output_path(), Some(&"out.txt".to_string()));
}

#[test]
fn walk_options_are_taken_over() {
    let mut options = cli();
    options.paths = vec!["a".to_string(), "b".to_string()];
    options.exclude_dir = vec!["out".to_string()];
    options.exclude_ext = vec!["min.js".to_string()];
    options.include_lang = vec!["Rust".to_string()];
    options.force_lang = vec!["Rust,TXT".to_string(), "C++,h,x".to_string()];
    options.match_f = Some("^a".to_string());
    options.not_match_d = vec!["gen".to_string()];
    options.files_from = Some(Vcs::Git);
    options.max_depth = Some(5);
    options.max_file_size = Some(2);
    options.list_file = Some("files.txt".to_string());
    options.hidden = true;
    let config = options.to_walker_config().unwrap();
    assert_eq!(config.paths, vec!["a", "b"]);
    assert_eq!(config.exclude_dirs.len(), 16);
    assert_eq!(config.exclude_dirs[0], ".git");
    assert_eq!(config.exclude_dirs[15], "out");
    assert_eq!(config.exclude_exts, vec!["min.js"]);
    assert_eq!(config.include_langs, vec!["Rust"]);
    assert_eq!(
        config.force_lang,
        vec![("txt".to_string(), "Rust".to_string()), ("h,x".to_string(), "C++".to_string())]
    );
    assert_eq!(config.match_file.as_deref(), Some("^a"));
    assert_eq!(config.not_match_dir, vec!["gen"]);
    assert_eq!(config.vcs, Some(VcsMode::Git));
    assert_eq!(config.max_depth, Some(5));
    assert_eq!(config.max_file_size, Some(2 * 1024 * 1024));
    assert_eq!(config.list_file.as_deref(), Some("files.txt"));
    assert!(config.hidden && !config.follow_symlinks);
    options.vcs = Some(Vcs::Off);
    options.no_recurse = true;
    options.no_ignore = true;
    options.paths = vec![];
    let config = options.to_walker_config().unwrap();
    assert_eq!(config.vcs, Some(VcsMode::Off));
    assert_eq!(config.max_depth, Some(1));
    assert_eq!(config.exclude_dirs, vec!["out"]);
    assert_eq!(config.paths, vec!["."]);
}

#[test]
fn a_forced_language_needs_a_comma() {
    let mut options = cli();
    options.force_lang = vec!["Rust,txt".to_string(), "Rust".to_string()];
    options.match_d = Some("a(".to_string());
    assert_eq!(
        options.to_walker_config().unwrap_err(),
        "Invalid --force-lang format 'Rust', expected LANG,EXT"
    );
}

#[test]
fn a_pattern_has_to_compile() {
    let error = |set: fn(&mut Cli)| -> String {
        let mut options = cli();
        set(&mut options);
        options.to_walker_config().unwrap_err()
    };
    let cause = regex::Regex::new("a(").unwrap_err().to_string();
    assert_eq!(
        error(|o| o.match_d = Some("a(".to_string())),
        format!("Invalid --match-d regex: {}", cause)
    );
    assert_eq!(
        error(|o| o.not_match_d = vec!["ok".to_string(), "a(".to_string()]),
        format!("Invalid --not-match-d regex: {}", cause)
    );
    assert_eq!(
        error(|o| o.match_f = Some("a(".to_string())),
        format!("Invalid --match-f regex: {}", cause)
    );
    assert_eq!(
        error(|o| o.not_match_f = vec!["a(".to_string()]),
        format!("Invalid --not-match-f regex: {}", cause)
    );
    assert_eq!(
        error(|o| o.include_content = Some("a(".to_string())),
        format!("Invalid --include-content regex: {}", cause)
    );
    assert_eq!(
        error(|o| o.exclude_content = Some("a(".to_string())),
        format!("Invalid --exclude-content regex: {}", cause)
    );
    assert_eq!(
        error(|o| {
            o.exclude_content = Some("a(".to_string());
            o.match_f = Some("b(".to_string());
        }),
        format!("Invalid --match-f regex: {}", regex::Regex::new("b(").unwrap_err())
    );
}

#[test]
fn errors_say_what_went_wrong() {
    assert_eq!(Error::NoSourceFiles.message(), "No source files found");
    assert_eq!(Error::Io("denied".to_string()).message(), "IO error: denied");
    assert_eq!(Error::InvalidPath("/x".to_string()).message(), "Invalid path: /x");
    assert_eq!(
        Error::InvalidConfig("bad".to_string()).message(),
        "Invalid configuration: bad"
    );
}

#[test]
fn archives_are_told_by_their_names() {
    for path in ["a.zip", "x/a.tar", "a.gz", "a.tgz", "a.tar.gz", "dir/b.tar.gz"] {
        assert!(is_archive(path), "{}", path);
    }
    for path in ["a.rs", "zip", "a.ZIP", "a.tar.bz2", "", ".zip", "a.zip/b.txt"] {
        assert!(!is_archive(path), "{}", path);
    }
    assert_eq!(archive_kind("a.zip"), Some(ArchiveKind::Zip));
    assert_eq!(archive_kind("a.tgz"), Some(ArchiveKind::TarGz));
    assert_eq!(archive_kind("a.tar.gz"), Some(ArchiveKind::TarGz));
    assert_eq!(archive_kind("a.tar"), Some(ArchiveKind::Tar));
    assert_eq!(archive_kind("a.gz"), Some(ArchiveKind::TarGz));
    assert_eq!(archive_kind("a.rs"), None);
}

fn file(code: u64, comments: u64, blanks: u64) -> FileStats {
    FileStats { path: "a".into(), language: "A".into(), code, comments, blanks }
}

#[test]
fn differences_are_told_by_the_counts() {
    let a = file(1, 2, 3);
    let b = file(1, 2, 3);
    let c = file(1, 2, 4);
    assert_eq!(classify_change(Some(&a), Some(&b)), Some(Change::Same));
    assert_eq!(classify_change(Some(&a), Some(&c)), Some(Change::Modified));
    assert_eq!(classify_change(Some(&a), None), Some(Change::Removed));
    assert_eq!(classify_change(None, Some(&a)), Some(Change::Added));
    assert_eq!(classify_change(None, None), None);
    let mut stats = DiffStats::default();
    stats.record(Change::Same, &a);
    stats.record(Change::Modified, &c);
    stats.record(Change::Modified, &c);
    stats.record(Change::Added, &a);
    assert_eq!(stats.same, LanguageDiff { files: 1, code: 1, comments: 2, blanks: 3 });
    assert_eq!(stats.modified, LanguageDiff { files: 2, code: 2, comments: 4, blanks: 8 });
    assert_eq!(stats.added.files, 1);
    assert_eq!(stats.removed, LanguageDiff::default());
    assert_eq!(stats.modified.total(), 14);
    let mut side = LanguageDiff::default();
    side.add(&c);
    assert_eq!(side.total(), 7);
    assert_eq!(format_diff_count(0), "-");
    assert_eq!(format_diff_count(42), "42");
}

#[test]
fn report_entries_add_field_by_field() {
    let mut sum = JsonLanguageStats { n_files: 1, blank: 2, comment: 3, code: 4 };
    let other = JsonLanguageStats { n_files: 10, blank: 20, comment: 30, code: 40 };
    assert!(sum.can_add(&other));
    sum.add(&other);
    assert_eq!(sum, JsonLanguageStats { n_files: 11, blank: 22, comment: 33, code: 44 });
    let full = JsonLanguageStats { n_files: 0, blank: 0, comment: 0, code: u64::MAX };
    assert!(!sum.can_add(&full));
    assert!(JsonLanguageStats::default().can_add(&full));
}

#[test]
fn comments_are_cut_off_a_line() {
    let rust = get_language("Rust").unwrap();
    assert_eq!(
        strip_comment_from_line("let x = 5;  // five", &rust),
        Some("let x = 5;".to_string())
    );
    assert_eq!(strip_comment_from_line("   // only", &rust), None);
    assert_eq!(strip_comment_from_line("let x = 5;", &rust), None);
    assert_eq!(
        extract_comment_from_line("let x = 5;  // five", &rust),
        Some("// five".to_string())
    );
    assert_eq!(extract_comment_from_line("let x = 5;", &rust), None);
    let php = Language::c_style("P").with_line_comments(&["//", "#"]);
    assert_eq!(strip_comment_from_line("a # b // c", &php), Some("a # b".to_string()));
    assert_eq!(strip_comment_from_line("// a # b", &php), Some("// a".to_string()));
    assert_eq!(extract_comment_from_line("a # b // c", &php), Some("// c".to_string()));
    assert_eq!(extract_comment_from_line("a # b", &php), Some("# b".to_string()));
}

#[test]
fn a_file_is_stripped_line_by_line() {
    let rust = get_language("Rust").unwrap();
    let lines: Vec<String> = [
        "fn main() {",
        "    // comment",
        "    let x = 5; // five",
        "",
        "    /* block",
        "       more */",
        "    let y = 1; /* tail */",
        "}",
    ]
    .iter()
    .map(|s| s.to_string())
    .collect();
    assert_eq!(
        strip_lines(&lines, &rust, StripMode::Comments),
        vec!["fn main() {", "    let x = 5;", "", "    let y = 1; /* tail */", "}"]
    );
    assert_eq!(
        strip_lines(&lines, &rust, StripMode::Code),
        vec!["    // comment", "// five", "", "    /* block", "       more */"]
    );
    assert!(strip_lines(&Vec::new(), &rust, StripMode::Code).is_empty());
}

fn counted(path: &str, language: &str, code: u64, comments: u64, blanks: u64) -> FileStats {
    FileStats { path: path.into(), language: language.into(), code, comments, blanks }
}

#[test]
fn two_runs_are_compared_file_by_file() {
    let first = vec![
        counted("a/same.rs", "Rust", 10, 1, 1),
        counted("a/changed.rs", "Rust", 5, 0, 0),
        counted("a/gone.py", "Python", 3, 1, 0),
        counted("a/empty.py", "Python", 0, 0, 0),
        counted("a/twice.c", "C", 1, 0, 0),
        counted("a/sub/twice.c", "C", 2, 0, 0),
    ];
    let second = vec![
        counted("b/same.rs", "Rust", 10, 1, 1),
        counted("b/changed.rs", "Rust", 6, 0, 0),
        counted("b/new.go", "Go", 7, 2, 1),
        counted("b/empty.py", "Python", 0, 0, 0),
        counted("b/twice.c", "C", 2, 0, 0),
    ];
    let diff = compute_diff(&first, &second).unwrap();
    assert_eq!(diff.totals.same, LanguageDiff { files: 2, code: 12, comments: 1, blanks: 1 });
    assert_eq!(diff.totals.modified, LanguageDiff { files: 1, code: 5, comments: 0, blanks: 0 });
    assert_eq!(diff.totals.removed, LanguageDiff { files: 1, code: 3, comments: 1, blanks: 0 });
    assert_eq!(diff.totals.added, LanguageDiff { files: 1, code: 7, comments: 2, blanks: 1 });
    let names: Vec<&str> = diff.by_language.iter().map(|(name, _)| name.as_str()).collect();
    assert_eq!(names, vec!["Rust", "Python", "C", "Go"]);
    assert_eq!(diff.by_language[0].1.same.files, 1);
    assert_eq!(diff.by_language[0].1.modified.code, 5);
    assert_eq!(diff.by_language[1].1.removed.files, 1);
    assert_eq!(diff.by_language[2].1.same, LanguageDiff { files: 1, code: 2, comments: 0, blanks: 0 });
    assert_eq!(diff.by_language[3].1.added.code, 7);
    let none = compute_diff(&Vec::new(), &Vec::new()).unwrap();
    assert!(none.by_language.is_empty());
    assert_eq!(none.totals, DiffStats::default());
    let huge = vec![counted("x.rs", "Rust", u64::MAX, 0, 0), counted("y.rs", "Rust", 1, 0, 0)];
    assert!(compute_diff(&huge, &Vec::new()).is_none());
}

#[test]
fn reports_are_summed_by_language() {
    let entry = |n: u64| JsonLanguageStats { n_files: n, blank: 2 * n, comment: 3 * n, code: 4 * n };
    let reports = vec![
        JsonOutput {
            languages: vec![("Rust".to_string(), entry(1)), ("C".to_string(), entry(2))],
            sum: entry(3),
        },
        JsonOutput {
            languages: vec![("Go".to_string(), entry(5)), ("Rust".to_string(), entry(10))],
            sum: entry(15),
        },
    ];
    assert!(JsonOutput::can_sum(&reports));
    let sum = JsonOutput::sum_reports(&reports);
    assert_eq!(
        sum.languages,
        vec![
            ("Rust".to_string(), entry(11)),
            ("C".to_string(), entry(2)),
            ("Go".to_string(), entry(5))
        ]
    );
    assert_eq!(sum.sum, entry(18));
    let empty = JsonOutput::sum_reports(&Vec::new());
    assert!(empty.languages.is_empty());
    assert_eq!(empty.sum, JsonLanguageStats::default());
    let full = JsonLanguageStats { n_files: 1, blank: 0, comment: 0, code: u64::MAX };
    let too_much = vec![
        JsonOutput { languages: vec![("A".to_string(), full)], sum: entry(0) },
        JsonOutput { languages: vec![("B".to_string(), entry(1))], sum: entry(0) },
    ];
    assert!(!JsonOutput::can_sum(&too_much));
}

#[test]
fn the_size_limit_of_the_command_line_is_in_mebibytes() {
    assert_eq!(to_byte_limit(None), None);
    assert_eq!(to_byte_limit(Some(0)), Some(0));
    assert_eq!(to_byte_limit(Some(1)), Some(1048576));
    assert_eq!(to_byte_limit(Some(3)), Some(3 * 1048576));
    assert_eq!(to_byte_limit(Some(u64::MAX / 1048576)), Some((u64::MAX / 1048576) * 1048576));
    assert_eq!(to_byte_limit(Some(u64::MAX / 1048576 + 1)), Some(u64::MAX));
    assert_eq!(to_byte_limit(Some(u64::MAX)), Some(u64::MAX));
    let mut options = cli();
    options.max_file_size = Some(1);
    let config = options.to_walker_config().unwrap();
    assert_eq!(config.max_file_size, Some(1048576));
    let mut file = rloc::walker::Candidate { path: "a.rs".to_string(), size: Some(1048576), content: None };
    assert!(rloc::walker::passes_filters(&file, &config));
    file.size = Some(1048577);
    assert!(!rloc::walker::passes_filters(&file, &config));
}
