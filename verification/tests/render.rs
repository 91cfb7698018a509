use rloc::counter::FileStats;
use rloc::output::{OutputConfig, OutputFormat};
use rloc::render::{
    can_fold, can_render, csv_join, csv_rows, render_csv, render_markdown, render_plain,
    render_sql, render_xml,
};
use rloc::stats::LanguageStats;
use rloc::stats::Summary;

fn sample_summary() -> Summary {
    Summary::from_file_stats(vec![FileStats {
        path: "main.rs".into(),
        language: "Rust".into(),
        code: 100,
        comments: 20,
        blanks: 10,
    }])
}

fn two_languages() -> Summary {
    Summary::from_file_stats(vec![
        FileStats {
            path: "it's.rs".into(),
            language: "Rust".into(),
            code: 100,
            comments: 20,
            blanks: 10,
        },
        FileStats { path: "a.cc".into(), language: "C++".into(), code: 7, comments: 0, blanks: 1 },
        FileStats {
            path: "q.x".into(),
            language: "A<b>&\"c\"".into(),
            code: 1,
            comments: 1,
            blanks: 1,
        },
    ])
}

#[test]
fn output_test_csv_output() {
    let summary = sample_summary();
    let csv = render_csv(&summary, &OutputConfig::default()).unwrap();
    assert!(csv.contains("Language"));
    assert!(csv.contains("Rust"));
    assert!(csv.contains("SUM"));
}

#[test]
fn csv_is_written_record_by_record() {
    let summary = sample_summary();
    let mut config = OutputConfig::default();
    config.format = OutputFormat::Csv;
    assert_eq!(
        render_csv(&summary, &config).unwrap(),
        "Language,Files,Blank,Comment,Code\nRust,1,10,20,100\nSUM,1,10,20,100\n"
    );
    config.csv_delimiter = b';';
    assert_eq!(
        render_csv(&summary, &config).unwrap(),
        "Language;Files;Blank;Comment;Code\nRust;1;10;20;100\nSUM;1;10;20;100\n"
    );
    config.csv_delimiter = b',';
    config.by_file = true;
    assert_eq!(
        render_csv(&summary, &config).unwrap(),
        "File,Language,Blank,Comment,Code\nmain.rs,Rust,10,20,100\n"
    );
    let odd = Summary::from_file_stats(vec![FileStats {
        path: "a,b \"c\".rs".into(),
        language: "Rust".into(),
        code: 1,
        comments: 0,
        blanks: 0,
    }]);
    assert_eq!(
        render_csv(&odd, &config).unwrap(),
        "File,Language,Blank,Comment,Code\n\"a,b \"\"c\"\".rs\",Rust,0,0,1\n"
    );
    assert_eq!(
        csv_rows(&summary, &OutputConfig::default()),
        vec![
            vec!["Language", "Files", "Blank", "Comment", "Code"],
            vec!["Rust", "1", "10", "20", "100"],
            vec!["SUM", "1", "10", "20", "100"]
        ]
    );
    assert_eq!(
        csv_join(&vec![Some("a\n".to_string()), Some("b\n".to_string())]),
        Some("a\nb\n".to_string())
    );
    assert_eq!(csv_join(&vec![Some("a\n".to_string()), None]), None);
    assert_eq!(csv_join(&Vec::new()), Some(String::new()));
}

#[test]
fn sql_creates_a_table_and_fills_it() {
    let summary = two_languages();
    let config = OutputConfig::default();
    assert_eq!(
        render_sql(&summary, &config),
        "CREATE TABLE t (\n    Language TEXT,\n    nFiles INTEGER,\n    nBlank INTEGER,\n    nComment INTEGER,\n    nCode INTEGER\n);\n\n\
INSERT INTO t VALUES ('Rust', 1, 10, 20, 100);\n\
INSERT INTO t VALUES ('C++', 1, 1, 0, 7);\n\
INSERT INTO t VALUES ('A<b>&\"c\"', 1, 1, 1, 1);\n\
INSERT INTO t VALUES ('SUM', 3, 12, 21, 108);\n"
    );
    let mut by_file = OutputConfig::default();
    by_file.by_file = true;
    assert_eq!(
        render_sql(&summary, &by_file),
        "CREATE TABLE t (\n    File TEXT,\n    Language TEXT,\n    nBlank INTEGER,\n    nComment INTEGER,\n    nCode INTEGER\n);\n\n\
INSERT INTO t VALUES ('it''s.rs', 'Rust', 10, 20, 100);\n\
INSERT INTO t VALUES ('a.cc', 'C++', 1, 0, 7);\n\
INSERT INTO t VALUES ('q.x', 'A<b>&\"c\"', 1, 1, 1);\n"
    );
}

#[test]
fn a_cutoff_folds_small_languages_in_every_format() {
    let summary = Summary::from_file_stats(vec![
        FileStats { path: "a.rs".into(), language: "Rust".into(), code: 5, comments: 0, blanks: 0 },
        FileStats { path: "b.rs".into(), language: "Rust".into(), code: 5, comments: 0, blanks: 0 },
        FileStats { path: "a.c".into(), language: "C".into(), code: 3, comments: 1, blanks: 0 },
        FileStats { path: "a.go".into(), language: "Go".into(), code: 2, comments: 0, blanks: 1 },
    ]);
    let mut config = OutputConfig::default();
    config.summary_cutoff = Some(2);
    assert_eq!(
        render_csv(&summary, &config).unwrap(),
        "Language,Files,Blank,Comment,Code\nRust,2,0,0,10\nOther,2,1,1,5\nSUM,4,1,1,15\n"
    );
    assert!(render_sql(&summary, &config).contains("INSERT INTO t VALUES ('Other', 2, 1, 1, 5);\n"));
    assert!(render_xml(&summary, &config, None).contains("<language name=\"Other\">"));
    assert!(render_markdown(&summary, &config, None).contains("| Other | 2 | 1 | 1 | 5 |\n"));
}

#[test]
fn xml_is_a_document_of_languages_or_files() {
    let summary = two_languages();
    let config = OutputConfig::default();
    let expected = [
        "<?xml version=\"1.0\" encoding=\"UTF-8\"?>\n<results>\n",
        "  <header>\n    <n_files>3</n_files>\n    <n_lines>141</n_lines>\n",
        "    <elapsed_seconds>0.125</elapsed_seconds>\n  </header>\n  <languages>\n",
        "    <language name=\"Rust\">\n      <files>1</files>\n      <blank>10</blank>\n",
        "      <comment>20</comment>\n      <code>100</code>\n    </language>\n",
        "    <language name=\"C++\">\n      <files>1</files>\n      <blank>1</blank>\n",
        "      <comment>0</comment>\n      <code>7</code>\n    </language>\n",
        "    <language name=\"A&lt;b&gt;&amp;&quot;c&quot;\">\n      <files>1</files>\n",
        "      <blank>1</blank>\n      <comment>1</comment>\n      <code>1</code>\n",
        "    </language>\n  </languages>\n  <total>\n    <files>3</files>\n",
        "    <blank>12</blank>\n    <comment>21</comment>\n    <code>108</code>\n",
        "  </total>\n</results>\n",
    ]
    .concat();
    assert_eq!(render_xml(&summary, &config, Some("0.125")), expected);
    let mut by_file = OutputConfig::default();
    by_file.by_file = true;
    assert_eq!(
        render_xml(&sample_summary(), &by_file, None),
        "<?xml version=\"1.0\" encoding=\"UTF-8\"?>\n<results>\n  <files>\n    <file>\n      <name>main.rs</name>\n      <language>Rust</language>\n      <blank>10</blank>\n      <comment>20</comment>\n      <code>100</code>\n    </file>\n  </files>\n</results>\n"
    );
    assert!(render_xml(&summary, &by_file, None).contains("<name>it&apos;s.rs</name>"));
}

#[test]
fn markdown_is_a_table() {
    let summary = sample_summary();
    let mut config = OutputConfig::default();
    assert_eq!(
        render_markdown(&summary, &config, Some("1.500")),
        "\n**1 files** processed in **1.500s**\n\n| Language | Files | Blank | Comment | Code |\n| :--- | ---: | ---: | ---: | ---: |\n| Rust | 1 | 10 | 20 | 100 |\n| **SUM** | **1** | **10** | **20** | **100** |\n"
    );
    config.hide_rate = true;
    config.show_total_column = true;
    assert_eq!(
        render_markdown(&summary, &config, Some("1.500")),
        "| Language | Files | Blank | Comment | Code | Total |\n| :--- | ---: | ---: | ---: | ---: | ---: |\n| Rust | 1 | 10 | 20 | 100 | 130 |\n| **SUM** | **1** | **10** | **20** | **100** | **130** |\n"
    );
    config.by_file = true;
    assert_eq!(
        render_markdown(&summary, &config, None),
        "| File | Language | Blank | Comment | Code |\n|------|----------|------:|--------:|-----:|\n| main.rs | Rust | 10 | 20 | 100 |\n"
    );
}

#[test]
fn the_plain_table_has_columns_of_fixed_width() {
    let summary = two_languages();
    let expected = [
        "\nLanguage       Files    Blank  Comment     Code\n",
        "─────────────────────────────────────────────────\n",
        "Rust               1       10       20      100\n",
        "C++                1        1        0        7\n",
        "A<b>&\"c\"           1        1        1        1\n",
        "─────────────────────────────────────────────────\n",
        "SUM                3       12       21      108\n",
    ]
    .concat();
    assert_eq!(render_plain(&summary, None), expected);
    let with_rate = render_plain(&summary, Some("3 files processed in 0.001s"));
    assert_eq!(with_rate, format!("\n3 files processed in 0.001s\n{}", expected));
    let wide = Summary::from_file_stats(vec![FileStats {
        path: "a".into(),
        language: "A language with a long name".into(),
        code: 123456789012,
        comments: 0,
        blanks: 0,
    }]);
    let text = render_plain(&wide, None);
    assert!(text.contains("A language with a long name     1        0        0 123456789012\n"));
    for line in render_plain(&summary, None).lines().skip(3).take(3) {
        assert_eq!(line.chars().count(), 47);
        assert_eq!(
            line,
            format!(
                "{:<14} {:>5} {:>8} {:>8} {:>8}",
                line[..14].trim_end(),
                line[15..20].trim(),
                line[21..29].trim(),
                line[30..38].trim(),
                line[39..47].trim()
            )
        );
    }
}

#[test]
fn what_cannot_be_rendered_is_told() {
    let mut summary = sample_summary();
    let mut config = OutputConfig::default();
    assert!(can_render(&summary, &config));
    config.summary_cutoff = Some(5);
    assert!(can_render(&summary, &config));
    summary.languages.push(LanguageStats {
        name: "Huge".into(),
        files: 1,
        code: u64::MAX,
        comments: 0,
        blanks: 0,
    });
    assert!(!can_fold(&summary.languages, 5));
    assert!(can_fold(&summary.languages, 1));
    assert!(!can_render(&summary, &config));
    config.summary_cutoff = None;
    assert!(can_render(&summary, &config));
    summary.languages[1].blanks = 1;
    assert!(!can_render(&summary, &config));
}
