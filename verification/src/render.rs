//! A summary as text: SQL statements, an XML document, a Markdown table and
//! the records of a CSV document. Times are taken as text, since the library
//! holds no fractions.

use crate::counter::FileStats;
use crate::output::{apply_summary_cutoff, escaped, folded, kept, OutputConfig};
use crate::stats::{LanguageStats, Summary};
use crate::text::{
    decimal, decimal_string, opt_view, push_number, push_text, string_from_chars, strings_view,
    to_chars,
};
use vstd::prelude::*;

verus! {

/// What a renderer shows of a language, or of a file with its path for a
/// name.
pub ghost struct Row {
    pub name: Seq<char>,
    pub language: Seq<char>,
    pub files: nat,
    pub blanks: nat,
    pub comments: nat,
    pub code: nat,
}

/// The row of a language.
pub open spec fn language_row(stats: LanguageStats) -> Row {
    Row {
        name: stats.name@,
        language: stats.name@,
        files: stats.files as nat,
        blanks: stats.blanks as nat,
        comments: stats.comments as nat,
        code: stats.code as nat,
    }
}

/// The row of a file.
pub open spec fn file_row(stats: FileStats) -> Row {
    Row {
        name: stats.path@,
        language: stats.language@,
        files: 1,
        blanks: stats.blanks as nat,
        comments: stats.comments as nat,
        code: stats.code as nat,
    }
}

/// The rows of a list of languages.
pub open spec fn language_rows(list: Seq<LanguageStats>) -> Seq<Row> {
    Seq::new(list.len(), |i: int| language_row(list[i]))
}

/// The rows of a list of files.
pub open spec fn file_rows(list: Seq<FileStats>) -> Seq<Row> {
    Seq::new(list.len(), |i: int| file_row(list[i]))
}

/// The rows of the languages that a renderer shows: all of them, or, with a
/// cutoff, those with enough files and then the others folded into one row.
pub open spec fn shown_rows(languages: Seq<LanguageStats>, cutoff: Option<usize>) -> Seq<Row> {
    match cutoff {
        None => language_rows(languages),
        Some(least) => {
            let rest = folded(languages, least);
            if rest.files > 0 {
                language_rows(kept(languages, least)).push(
                    Row {
                        name: "Other"@,
                        language: "Other"@,
                        files: rest.files,
                        blanks: rest.blanks,
                        comments: rest.comments,
                        code: rest.code,
                    },
                )
            } else {
                language_rows(kept(languages, least))
            }
        },
    }
}

/// Whether the languages can be folded under the cutoff of the options, if
/// there is one, within 64 bits.
pub open spec fn cutoff_fits(summary: Summary, config: OutputConfig) -> bool {
    config.summary_cutoff matches Some(least) ==> folded(summary.languages@, least).fits()
}

/// The lines of the rows, one after the other.
pub open spec fn joined(rows: Seq<Row>, line: spec_fn(Row) -> Seq<char>) -> Seq<char>
    decreases rows.len(),
{
    if rows.len() == 0 {
        Seq::empty()
    } else {
        joined(rows.drop_last(), line) + line(rows.last())
    }
}

fn shown_languages(summary: &Summary, config: &OutputConfig) -> (r: Vec<LanguageStats>)
    requires
        cutoff_fits(*summary, *config),
    ensures
        language_rows(r@) == shown_rows(summary.languages@, config.summary_cutoff),
{
    match config.summary_cutoff {
        Some(least) => {
            let r = apply_summary_cutoff(summary.languages.as_slice(), least);
            proof {
                let rest = folded(summary.languages@, least);
                if rest.files > 0 {
                    assert(language_rows(r@) =~= language_rows(r@.drop_last()).push(
                        language_row(r@.last()),
                    ));
                }
            }
            r
        },
        None => {
            let mut r: Vec<LanguageStats> = Vec::new();
            let mut i: usize = 0;
            while i < summary.languages.len()
                invariant
                    i <= summary.languages.len(),
                    r@ == summary.languages@.take(i as int),
                decreases summary.languages.len() - i,
            {
                r.push(summary.languages[i].clone());
                assert(summary.languages@.take(i + 1) =~= summary.languages@.take(i as int).push(
                    summary.languages@[i as int],
                ));
                i += 1;
            }
            assert(summary.languages@.take(summary.languages.len() as int) =~= summary.languages@);
            r
        },
    }
}

/// Whether the languages of a summary can be folded under `least` within 64
/// bits, which [`apply_summary_cutoff`] asks for.
pub fn can_fold(languages: &Vec<LanguageStats>, least: usize) -> (r: bool)
    ensures
        r == folded(languages@, least).fits(),
{
    let mut files: u64 = 0;
    let mut code: u64 = 0;
    let mut comments: u64 = 0;
    let mut blanks: u64 = 0;
    let mut i: usize = 0;
    assert(languages@.take(0) =~= Seq::empty());
    while i < languages.len()
        invariant
            i <= languages.len(),
            files == folded(languages@.take(i as int), least).files,
            code == folded(languages@.take(i as int), least).code,
            comments == folded(languages@.take(i as int), least).comments,
            blanks == folded(languages@.take(i as int), least).blanks,
        decreases languages.len() - i,
    {
        let language = &languages[i];
        proof {
            assert(languages@.take(i + 1).drop_last() =~= languages@.take(i as int));
            assert(languages@.take(i + 1).last() == languages@[i as int]);
            crate::output::lemma_folded_prefix(languages@, least, i + 1);
        }
        if language.files < least as u64 {
            if language.files > u64::MAX - files || language.code > u64::MAX - code
                || language.comments > u64::MAX - comments || language.blanks > u64::MAX - blanks {
                return false;
            }
            files += language.files;
            code += language.code;
            comments += language.comments;
            blanks += language.blanks;
        }
        i += 1;
    }
    assert(languages@.take(languages.len() as int) =~= languages@);
    true
}

/// Whether a summary can be rendered with the options: the languages can be
/// folded under the cutoff, and the numbers of lines that are shown fit in 64
/// bits. The renderers ask for this.
pub fn can_render(summary: &Summary, config: &OutputConfig) -> (r: bool)
    ensures
        r == (cutoff_fits(*summary, *config) && totals_fit(*summary, *config)),
{
    if let Some(least) = config.summary_cutoff {
        if !can_fold(&summary.languages, least) {
            return false;
        }
    }
    if summary.total_code > u64::MAX - summary.total_comments || summary.total_code
        + summary.total_comments > u64::MAX - summary.total_blanks {
        return false;
    }
    let languages = shown_languages(summary, config);
    let ghost rows = shown_rows(summary.languages@, config.summary_cutoff);
    let mut i: usize = 0;
    while i < languages.len()
        invariant
            i <= languages.len(),
            rows == language_rows(languages@),
            rows == shown_rows(summary.languages@, config.summary_cutoff),
            cutoff_fits(*summary, *config),
            summary.total_code + summary.total_comments + summary.total_blanks <= u64::MAX,
            forall|k: int| 0 <= k < i ==> row_lines(#[trigger] rows[k]) <= u64::MAX,
        decreases languages.len() - i,
    {
        let language = &languages[i];
        assert(rows[i as int] == language_row(*language));
        if language.code > u64::MAX - language.comments || language.code + language.comments
            > u64::MAX - language.blanks {
            assert(row_lines(rows[i as int]) > u64::MAX);
            return false;
        }
        i += 1;
    }
    true
}

/// A text with each `'` doubled, as it stands between quotes in SQL.
pub open spec fn sql_quoted(s: Seq<char>) -> Seq<char>
    decreases s.len(),
{
    if s.len() == 0 {
        Seq::empty()
    } else if s.last() == '\'' {
        sql_quoted(s.drop_last()) + "''"@
    } else {
        sql_quoted(s.drop_last()).push(s.last())
    }
}

fn push_sql_quoted(out: &mut Vec<char>, text: &str)
    ensures
        final(out)@ == old(out)@ + sql_quoted(text@),
{
    let chars = to_chars(text);
    let ghost start = out@;
    let mut i: usize = 0;
    assert(chars@.take(0) =~= Seq::empty());
    assert(out@ =~= start + sql_quoted(chars@.take(0)));
    while i < chars.len()
        invariant
            i <= chars.len(),
            out@ == start + sql_quoted(chars@.take(i as int)),
        decreases chars.len() - i,
    {
        let c = chars[i];
        let ghost before = out@;
        proof {
            assert(chars@.take(i + 1).drop_last() =~= chars@.take(i as int));
            assert(chars@.take(i + 1).last() == c);
        }
        if c == '\'' {
            push_text(out, "''");
            assert(out@ =~= start + (sql_quoted(chars@.take(i as int)) + "''"@));
        } else {
            out.push(c);
            assert(out@ =~= start + sql_quoted(chars@.take(i as int)).push(c));
        }
        i += 1;
    }
    assert(chars@.take(chars.len() as int) =~= chars@);
}

fn push_escaped(out: &mut Vec<char>, text: &str)
    ensures
        final(out)@ == old(out)@ + escaped(text@),
{
    let done = crate::output::escape_xml(text);
    push_text(out, done.as_str());
}

/// The statement that creates the table of languages.
pub open spec fn sql_language_table() -> Seq<char> {
    "CREATE TABLE t (\n    Language TEXT,\n    nFiles INTEGER,\n    nBlank INTEGER,\n    nComment INTEGER,\n    nCode INTEGER\n);\n\n"@
}

/// The statement that creates the table of files.
pub open spec fn sql_file_table() -> Seq<char> {
    "CREATE TABLE t (\n    File TEXT,\n    Language TEXT,\n    nBlank INTEGER,\n    nComment INTEGER,\n    nCode INTEGER\n);\n\n"@
}

/// The statement that inserts a language.
pub open spec fn sql_language_line(row: Row) -> Seq<char> {
    "INSERT INTO t VALUES ('"@ + sql_quoted(row.name) + "', "@ + decimal(row.files) + ", "@
        + decimal(row.blanks) + ", "@ + decimal(row.comments) + ", "@ + decimal(row.code) + ");\n"@
}

/// The statement that inserts a file.
pub open spec fn sql_file_line(row: Row) -> Seq<char> {
    "INSERT INTO t VALUES ('"@ + sql_quoted(row.name) + "', '"@ + sql_quoted(row.language)
        + "', "@ + decimal(row.blanks) + ", "@ + decimal(row.comments) + ", "@ + decimal(row.code)
        + ");\n"@
}

/// The statement that inserts the totals.
pub open spec fn sql_sum_line(summary: Summary) -> Seq<char> {
    "INSERT INTO t VALUES ('SUM', "@ + decimal(summary.total_files as nat) + ", "@ + decimal(
        summary.total_blanks as nat,
    ) + ", "@ + decimal(summary.total_comments as nat) + ", "@ + decimal(
        summary.total_code as nat,
    ) + ");\n"@
}

/// A summary as SQL: a table of the files, or a table of the shown languages
/// with the totals as its last row.
pub open spec fn sql_text(summary: Summary, config: OutputConfig) -> Seq<char> {
    if config.by_file {
        sql_file_table() + joined(file_rows(summary.file_stats@), |row: Row| sql_file_line(row))
    } else {
        sql_language_table() + joined(
            shown_rows(summary.languages@, config.summary_cutoff),
            |row: Row| sql_language_line(row),
        ) + sql_sum_line(summary)
    }
}

fn push_sql_language(out: &mut Vec<char>, stats: &LanguageStats)
    ensures
        final(out)@ == old(out)@ + sql_language_line(language_row(*stats)),
{
    let ghost start = out@;
    push_text(out, "INSERT INTO t VALUES ('");
    push_sql_quoted(out, stats.name.as_str());
    push_text(out, "', ");
    push_number(out, stats.files);
    push_text(out, ", ");
    push_number(out, stats.blanks);
    push_text(out, ", ");
    push_number(out, stats.comments);
    push_text(out, ", ");
    push_number(out, stats.code);
    push_text(out, ");\n");
    assert(out@ =~= start + sql_language_line(language_row(*stats)));
}

fn push_sql_file(out: &mut Vec<char>, stats: &FileStats)
    ensures
        final(out)@ == old(out)@ + sql_file_line(file_row(*stats)),
{
    let ghost start = out@;
    push_text(out, "INSERT INTO t VALUES ('");
    push_sql_quoted(out, stats.path.as_str());
    push_text(out, "', '");
    push_sql_quoted(out, stats.language.as_str());
    push_text(out, "', ");
    push_number(out, stats.blanks);
    push_text(out, ", ");
    push_number(out, stats.comments);
    push_text(out, ", ");
    push_number(out, stats.code);
    push_text(out, ");\n");
    assert(out@ =~= start + sql_file_line(file_row(*stats)));
}

fn push_sql_files(out: &mut Vec<char>, files: &Vec<FileStats>)
    ensures
        final(out)@ == old(out)@ + joined(file_rows(files@), |row: Row| sql_file_line(row)),
{
    let ghost start = out@;
    let ghost rows = file_rows(files@);
    let ghost line = |row: Row| sql_file_line(row);
    let mut i: usize = 0;
    assert(rows.take(0) =~= Seq::empty());
    assert(out@ =~= start + joined(rows.take(0), line));
    while i < files.len()
        invariant
            i <= files.len(),
            rows == file_rows(files@),
            line == (|row: Row| sql_file_line(row)),
            out@ == start + joined(rows.take(i as int), line),
        decreases files.len() - i,
    {
        push_sql_file(out, &files[i]);
        proof {
            assert(rows.take(i + 1).drop_last() =~= rows.take(i as int));
            assert(rows.take(i + 1).last() == file_row(files@[i as int]));
            assert(out@ =~= start + joined(rows.take(i + 1), line));
        }
        i += 1;
    }
    assert(rows.take(rows.len() as int) =~= rows);
}

fn push_sql_languages(out: &mut Vec<char>, languages: &Vec<LanguageStats>)
    ensures
        final(out)@ == old(out)@ + joined(
            language_rows(languages@),
            |row: Row| sql_language_line(row),
        ),
{
    let ghost start = out@;
    let ghost rows = language_rows(languages@);
    let ghost line = |row: Row| sql_language_line(row);
    let mut i: usize = 0;
    assert(rows.take(0) =~= Seq::empty());
    assert(out@ =~= start + joined(rows.take(0), line));
    while i < languages.len()
        invariant
            i <= languages.len(),
            rows == language_rows(languages@),
            line == (|row: Row| sql_language_line(row)),
            out@ == start + joined(rows.take(i as int), line),
        decreases languages.len() - i,
    {
        push_sql_language(out, &languages[i]);
        proof {
            assert(rows.take(i + 1).drop_last() =~= rows.take(i as int));
            assert(rows.take(i + 1).last() == language_row(languages@[i as int]));
            assert(out@ =~= start + joined(rows.take(i + 1), line));
        }
        i += 1;
    }
    assert(rows.take(rows.len() as int) =~= rows);
}

fn push_sql_sum(out: &mut Vec<char>, summary: &Summary)
    ensures
        final(out)@ == old(out)@ + sql_sum_line(*summary),
{
    let ghost start = out@;
    push_text(out, "INSERT INTO t VALUES ('SUM', ");
    push_number(out, summary.total_files);
    push_text(out, ", ");
    push_number(out, summary.total_blanks);
    push_text(out, ", ");
    push_number(out, summary.total_comments);
    push_text(out, ", ");
    push_number(out, summary.total_code);
    push_text(out, ");\n");
    assert(out@ =~= start + sql_sum_line(*summary));
}

/// Renders a summary as SQL statements.
pub fn render_sql(summary: &Summary, config: &OutputConfig) -> (r: String)
    requires
        cutoff_fits(*summary, *config),
    ensures
        r@ == sql_text(*summary, *config),
{
    let mut out: Vec<char> = Vec::new();
    if config.by_file {
        push_text(
            &mut out,
            "CREATE TABLE t (\n    File TEXT,\n    Language TEXT,\n    nBlank INTEGER,\n    nComment INTEGER,\n    nCode INTEGER\n);\n\n",
        );
        assert(out@ =~= sql_file_table());
        push_sql_files(&mut out, &summary.file_stats);
    } else {
        let languages = shown_languages(summary, config);
        push_text(
            &mut out,
            "CREATE TABLE t (\n    Language TEXT,\n    nFiles INTEGER,\n    nBlank INTEGER,\n    nComment INTEGER,\n    nCode INTEGER\n);\n\n",
        );
        assert(out@ =~= sql_language_table());
        push_sql_languages(&mut out, &languages);
        push_sql_sum(&mut out, summary);
    }
    string_from_chars(out.as_slice())
}

/// One count between the tags of a field, on a line of its own behind
/// `indent`.
pub open spec fn xml_field(indent: Seq<char>, tag: Seq<char>, n: nat) -> Seq<char> {
    indent + "<"@ + tag + ">"@ + decimal(n) + "</"@ + tag + ">\n"@
}

/// The element of a language.
pub open spec fn xml_language_line(row: Row) -> Seq<char> {
    "    <language name=\""@ + escaped(row.name) + "\">\n"@ + xml_field(
        "      "@,
        "files"@,
        row.files,
    ) + xml_field("      "@, "blank"@, row.blanks) + xml_field("      "@, "comment"@, row.comments)
        + xml_field("      "@, "code"@, row.code) + "    </language>\n"@
}

/// The element of a file.
pub open spec fn xml_file_line(row: Row) -> Seq<char> {
    "    <file>\n      <name>"@ + escaped(row.name) + "</name>\n      <language>"@ + escaped(
        row.language,
    ) + "</language>\n"@ + xml_field("      "@, "blank"@, row.blanks) + xml_field(
        "      "@,
        "comment"@,
        row.comments,
    ) + xml_field("      "@, "code"@, row.code) + "    </file>\n"@
}

/// The header of the document, which says how long the run took.
pub open spec fn xml_header(summary: Summary, elapsed: Option<Seq<char>>) -> Seq<char> {
    match elapsed {
        Some(seconds) => "  <header>\n"@ + xml_field("    "@, "n_files"@, summary.total_files as nat)
            + xml_field(
            "    "@,
            "n_lines"@,
            (summary.total_code + summary.total_comments + summary.total_blanks) as nat,
        ) + "    <elapsed_seconds>"@ + seconds + "</elapsed_seconds>\n  </header>\n"@,
        None => Seq::empty(),
    }
}

/// The element of the totals.
pub open spec fn xml_total(summary: Summary) -> Seq<char> {
    "  <total>\n"@ + xml_field("    "@, "files"@, summary.total_files as nat) + xml_field(
        "    "@,
        "blank"@,
        summary.total_blanks as nat,
    ) + xml_field("    "@, "comment"@, summary.total_comments as nat) + xml_field(
        "    "@,
        "code"@,
        summary.total_code as nat,
    ) + "  </total>\n"@
}

/// A summary as an XML document: a header where the time of the run is
/// given, then the files, or the shown languages and the totals.
pub open spec fn xml_text(summary: Summary, config: OutputConfig, elapsed: Option<Seq<char>>) -> Seq<
    char,
> {
    let top = "<?xml version=\"1.0\" encoding=\"UTF-8\"?>\n<results>\n"@ + xml_header(
        summary,
        elapsed,
    );
    if config.by_file {
        top + "  <files>\n"@ + joined(
            file_rows(summary.file_stats@),
            |row: Row| xml_file_line(row),
        ) + "  </files>\n</results>\n"@
    } else {
        top + "  <languages>\n"@ + joined(
            shown_rows(summary.languages@, config.summary_cutoff),
            |row: Row| xml_language_line(row),
        ) + "  </languages>\n"@ + xml_total(summary) + "</results>\n"@
    }
}

fn push_xml_field(out: &mut Vec<char>, indent: &str, tag: &str, n: u64)
    ensures
        final(out)@ == old(out)@ + xml_field(indent@, tag@, n as nat),
{
    let ghost start = out@;
    push_text(out, indent);
    push_text(out, "<");
    push_text(out, tag);
    push_text(out, ">");
    push_number(out, n);
    push_text(out, "</");
    push_text(out, tag);
    push_text(out, ">\n");
    assert(out@ =~= start + xml_field(indent@, tag@, n as nat));
}

fn push_xml_language(out: &mut Vec<char>, stats: &LanguageStats)
    ensures
        final(out)@ == old(out)@ + xml_language_line(language_row(*stats)),
{
    let ghost start = out@;
    push_text(out, "    <language name=\"");
    push_escaped(out, stats.name.as_str());
    push_text(out, "\">\n");
    push_xml_field(out, "      ", "files", stats.files);
    push_xml_field(out, "      ", "blank", stats.blanks);
    push_xml_field(out, "      ", "comment", stats.comments);
    push_xml_field(out, "      ", "code", stats.code);
    push_text(out, "    </language>\n");
    assert(out@ =~= start + xml_language_line(language_row(*stats)));
}

fn push_xml_file(out: &mut Vec<char>, stats: &FileStats)
    ensures
        final(out)@ == old(out)@ + xml_file_line(file_row(*stats)),
{
    let ghost start = out@;
    push_text(out, "    <file>\n      <name>");
    push_escaped(out, stats.path.as_str());
    push_text(out, "</name>\n      <language>");
    push_escaped(out, stats.language.as_str());
    push_text(out, "</language>\n");
    push_xml_field(out, "      ", "blank", stats.blanks);
    push_xml_field(out, "      ", "comment", stats.comments);
    push_xml_field(out, "      ", "code", stats.code);
    push_text(out, "    </file>\n");
    assert(out@ =~= start + xml_file_line(file_row(*stats)));
}

/// The view of an optional string slice.
pub open spec fn opt_str_view(text: Option<&str>) -> Option<Seq<char>> {
    match text {
        Some(t) => Some(t@),
        None => None,
    }
}

fn push_xml_header(out: &mut Vec<char>, summary: &Summary, elapsed: Option<&str>)
    requires
        elapsed is Some ==> summary.total_code + summary.total_comments + summary.total_blanks
            <= u64::MAX,
    ensures
        final(out)@ == old(out)@ + xml_header(*summary, opt_str_view(elapsed)),
{
    let ghost start = out@;
    if let Some(seconds) = elapsed {
        push_text(out, "  <header>\n");
        push_xml_field(out, "    ", "n_files", summary.total_files);
        push_xml_field(out, "    ", "n_lines", summary.total_lines());
        push_text(out, "    <elapsed_seconds>");
        push_text(out, seconds);
        push_text(out, "</elapsed_seconds>\n  </header>\n");
    }
    assert(out@ =~= start + xml_header(*summary, opt_str_view(elapsed)));
}

fn push_xml_total(out: &mut Vec<char>, summary: &Summary)
    ensures
        final(out)@ == old(out)@ + xml_total(*summary),
{
    let ghost start = out@;
    push_text(out, "  <total>\n");
    push_xml_field(out, "    ", "files", summary.total_files);
    push_xml_field(out, "    ", "blank", summary.total_blanks);
    push_xml_field(out, "    ", "comment", summary.total_comments);
    push_xml_field(out, "    ", "code", summary.total_code);
    push_text(out, "  </total>\n");
    assert(out@ =~= start + xml_total(*summary));
}

fn push_xml_files(out: &mut Vec<char>, files: &Vec<FileStats>)
    ensures
        final(out)@ == old(out)@ + joined(file_rows(files@), |row: Row| xml_file_line(row)),
{
    let ghost start = out@;
    let ghost rows = file_rows(files@);
    let ghost line = |row: Row| xml_file_line(row);
    let mut i: usize = 0;
    assert(rows.take(0) =~= Seq::empty());
    assert(out@ =~= start + joined(rows.take(0), line));
    while i < files.len()
        invariant
            i <= files.len(),
            rows == file_rows(files@),
            line == (|row: Row| xml_file_line(row)),
            out@ == start + joined(rows.take(i as int), line),
        decreases files.len() - i,
    {
        push_xml_file(out, &files[i]);
        proof {
            assert(rows.take(i + 1).drop_last() =~= rows.take(i as int));
            assert(rows.take(i + 1).last() == file_row(files@[i as int]));
            assert(out@ =~= start + joined(rows.take(i + 1), line));
        }
        i += 1;
    }
    assert(rows.take(rows.len() as int) =~= rows);
}

fn push_xml_languages(out: &mut Vec<char>, languages: &Vec<LanguageStats>)
    ensures
        final(out)@ == old(out)@ + joined(
            language_rows(languages@),
            |row: Row| xml_language_line(row),
        ),
{
    let ghost start = out@;
    let ghost rows = language_rows(languages@);
    let ghost line = |row: Row| xml_language_line(row);
    let mut i: usize = 0;
    assert(rows.take(0) =~= Seq::empty());
    assert(out@ =~= start + joined(rows.take(0), line));
    while i < languages.len()
        invariant
            i <= languages.len(),
            rows == language_rows(languages@),
            line == (|row: Row| xml_language_line(row)),
            out@ == start + joined(rows.take(i as int), line),
        decreases languages.len() - i,
    {
        push_xml_language(out, &languages[i]);
        proof {
            assert(rows.take(i + 1).drop_last() =~= rows.take(i as int));
            assert(rows.take(i + 1).last() == language_row(languages@[i as int]));
            assert(out@ =~= start + joined(rows.take(i + 1), line));
        }
        i += 1;
    }
    assert(rows.take(rows.len() as int) =~= rows);
}

/// Renders a summary as an XML document. The time that the run took is given
/// as text, in seconds; without it the document has no header.
pub fn render_xml(summary: &Summary, config: &OutputConfig, elapsed: Option<&str>) -> (r: String)
    requires
        cutoff_fits(*summary, *config),
        elapsed is Some ==> summary.total_code + summary.total_comments + summary.total_blanks
            <= u64::MAX,
    ensures
        r@ == xml_text(*summary, *config, opt_str_view(elapsed)),
{
    let mut out: Vec<char> = Vec::new();
    push_text(&mut out, "<?xml version=\"1.0\" encoding=\"UTF-8\"?>\n<results>\n");
    push_xml_header(&mut out, summary, elapsed);
    if config.by_file {
        push_text(&mut out, "  <files>\n");
        push_xml_files(&mut out, &summary.file_stats);
        push_text(&mut out, "  </files>\n</results>\n");
    } else {
        let languages = shown_languages(summary, config);
        push_text(&mut out, "  <languages>\n");
        push_xml_languages(&mut out, &languages);
        push_text(&mut out, "  </languages>\n");
        push_xml_total(&mut out, summary);
        push_text(&mut out, "</results>\n");
    }
    string_from_chars(out.as_slice())
}

/// The number of lines of a row.
pub open spec fn row_lines(row: Row) -> nat {
    row.code + row.comments + row.blanks
}

/// Whether the number of lines of each row, and of the summary, fits in 64
/// bits.
pub open spec fn totals_fit(summary: Summary, config: OutputConfig) -> bool {
    &&& summary.total_code + summary.total_comments + summary.total_blanks <= u64::MAX
    &&& forall|i: int|
        0 <= i < shown_rows(summary.languages@, config.summary_cutoff).len() ==> row_lines(
            #[trigger] shown_rows(summary.languages@, config.summary_cutoff)[i],
        ) <= u64::MAX
}

/// The line that says how many files were looked at and how long that took;
/// it is left out where the rate is hidden or the time is not given.
pub open spec fn md_intro(summary: Summary, config: OutputConfig, elapsed: Option<Seq<char>>) -> Seq<
    char,
> {
    match elapsed {
        Some(seconds) => if config.hide_rate {
            Seq::empty()
        } else {
            "\n**"@ + decimal(summary.total_files as nat) + " files** processed in **"@ + seconds
                + "s**\n\n"@
        },
        None => Seq::empty(),
    }
}

/// The two lines that head the table of files.
pub open spec fn md_file_head() -> Seq<char> {
    "| File | Language | Blank | Comment | Code |\n|------|----------|------:|--------:|-----:|\n"@
}

/// The line of a file.
pub open spec fn md_file_line(row: Row) -> Seq<char> {
    "| "@ + row.name + " | "@ + row.language + " | "@ + decimal(row.blanks) + " | "@ + decimal(
        row.comments,
    ) + " | "@ + decimal(row.code) + " |\n"@
}

/// The two lines that head the table of languages.
pub open spec fn md_language_head(total: bool) -> Seq<char> {
    if total {
        "| Language | Files | Blank | Comment | Code | Total |\n| :--- | ---: | ---: | ---: | ---: | ---: |\n"@
    } else {
        "| Language | Files | Blank | Comment | Code |\n| :--- | ---: | ---: | ---: | ---: |\n"@
    }
}

/// The line of a language, with its number of lines where that is shown.
pub open spec fn md_language_line(row: Row, total: bool) -> Seq<char> {
    "| "@ + row.name + " | "@ + decimal(row.files) + " | "@ + decimal(row.blanks) + " | "@
        + decimal(row.comments) + " | "@ + decimal(row.code) + (if total {
        " | "@ + decimal(row_lines(row))
    } else {
        Seq::empty()
    }) + " |\n"@
}

/// The line of the totals.
pub open spec fn md_sum_line(summary: Summary, total: bool) -> Seq<char> {
    "| **SUM** | **"@ + decimal(summary.total_files as nat) + "** | **"@ + decimal(
        summary.total_blanks as nat,
    ) + "** | **"@ + decimal(summary.total_comments as nat) + "** | **"@ + decimal(
        summary.total_code as nat,
    ) + "**"@ + (if total {
        " | **"@ + decimal(
            (summary.total_code + summary.total_comments + summary.total_blanks) as nat,
        ) + "**"@
    } else {
        Seq::empty()
    }) + " |\n"@
}

/// A summary as a Markdown table: of the files, or of the shown languages
/// with the totals as the last line.
pub open spec fn md_text(summary: Summary, config: OutputConfig, elapsed: Option<Seq<char>>) -> Seq<
    char,
> {
    if config.by_file {
        md_intro(summary, config, elapsed) + md_file_head() + joined(
            file_rows(summary.file_stats@),
            |row: Row| md_file_line(row),
        )
    } else {
        md_intro(summary, config, elapsed) + md_language_head(config.show_total_column) + joined(
            shown_rows(summary.languages@, config.summary_cutoff),
            |row: Row| md_language_line(row, config.show_total_column),
        ) + md_sum_line(summary, config.show_total_column)
    }
}

fn push_md_file(out: &mut Vec<char>, stats: &FileStats)
    ensures
        final(out)@ == old(out)@ + md_file_line(file_row(*stats)),
{
    let ghost start = out@;
    push_text(out, "| ");
    push_text(out, stats.path.as_str());
    push_text(out, " | ");
    push_text(out, stats.language.as_str());
    push_text(out, " | ");
    push_number(out, stats.blanks);
    push_text(out, " | ");
    push_number(out, stats.comments);
    push_text(out, " | ");
    push_number(out, stats.code);
    push_text(out, " |\n");
    assert(out@ =~= start + md_file_line(file_row(*stats)));
}

fn push_md_language(out: &mut Vec<char>, stats: &LanguageStats, total: bool)
    requires
        total ==> stats.code + stats.comments + stats.blanks <= u64::MAX,
    ensures
        final(out)@ == old(out)@ + md_language_line(language_row(*stats), total),
{
    let ghost start = out@;
    push_text(out, "| ");
    push_text(out, stats.name.as_str());
    push_text(out, " | ");
    push_number(out, stats.files);
    push_text(out, " | ");
    push_number(out, stats.blanks);
    push_text(out, " | ");
    push_number(out, stats.comments);
    push_text(out, " | ");
    push_number(out, stats.code);
    if total {
        push_text(out, " | ");
        push_number(out, stats.total());
    }
    push_text(out, " |\n");
    assert(out@ =~= start + md_language_line(language_row(*stats), total));
}

fn push_md_intro(out: &mut Vec<char>, summary: &Summary, config: &OutputConfig, elapsed: Option<&str>)
    ensures
        final(out)@ == old(out)@ + md_intro(*summary, *config, opt_str_view(elapsed)),
{
    let ghost start = out@;
    if let Some(seconds) = elapsed {
        if !config.hide_rate {
            push_text(out, "\n**");
            push_number(out, summary.total_files);
            push_text(out, " files** processed in **");
            push_text(out, seconds);
            push_text(out, "s**\n\n");
        }
    }
    assert(out@ =~= start + md_intro(*summary, *config, opt_str_view(elapsed)));
}

fn push_md_sum(out: &mut Vec<char>, summary: &Summary, total: bool)
    requires
        total ==> summary.total_code + summary.total_comments + summary.total_blanks <= u64::MAX,
    ensures
        final(out)@ == old(out)@ + md_sum_line(*summary, total),
{
    let ghost start = out@;
    push_text(out, "| **SUM** | **");
    push_number(out, summary.total_files);
    push_text(out, "** | **");
    push_number(out, summary.total_blanks);
    push_text(out, "** | **");
    push_number(out, summary.total_comments);
    push_text(out, "** | **");
    push_number(out, summary.total_code);
    push_text(out, "**");
    if total {
        push_text(out, " | **");
        push_number(out, summary.total_lines());
        push_text(out, "**");
    }
    push_text(out, " |\n");
    assert(out@ =~= start + md_sum_line(*summary, total));
}

fn push_md_files(out: &mut Vec<char>, files: &Vec<FileStats>)
    ensures
        final(out)@ == old(out)@ + joined(file_rows(files@), |row: Row| md_file_line(row)),
{
    let ghost start = out@;
    let ghost rows = file_rows(files@);
    let ghost line = |row: Row| md_file_line(row);
    let mut i: usize = 0;
    assert(rows.take(0) =~= Seq::empty());
    assert(out@ =~= start + joined(rows.take(0), line));
    while i < files.len()
        invariant
            i <= files.len(),
            rows == file_rows(files@),
            line == (|row: Row| md_file_line(row)),
            out@ == start + joined(rows.take(i as int), line),
        decreases files.len() - i,
    {
        push_md_file(out, &files[i]);
        proof {
            assert(rows.take(i + 1).drop_last() =~= rows.take(i as int));
            assert(rows.take(i + 1).last() == file_row(files@[i as int]));
            assert(out@ =~= start + joined(rows.take(i + 1), line));
        }
        i += 1;
    }
    assert(rows.take(rows.len() as int) =~= rows);
}

fn push_md_languages(out: &mut Vec<char>, languages: &Vec<LanguageStats>, total: bool)
    requires
        total ==> forall|i: int|
            0 <= i < languages@.len() ==> row_lines(#[trigger] language_rows(languages@)[i])
                <= u64::MAX,
    ensures
        final(out)@ == old(out)@ + joined(
            language_rows(languages@),
            |row: Row| md_language_line(row, total),
        ),
{
    let ghost start = out@;
    let ghost rows = language_rows(languages@);
    let ghost line = |row: Row| md_language_line(row, total);
    let mut i: usize = 0;
    assert(rows.take(0) =~= Seq::empty());
    assert(out@ =~= start + joined(rows.take(0), line));
    while i < languages.len()
        invariant
            i <= languages.len(),
            rows == language_rows(languages@),
            total ==> forall|k: int|
                0 <= k < languages@.len() ==> row_lines(#[trigger] language_rows(languages@)[k])
                    <= u64::MAX,
            line == (|row: Row| md_language_line(row, total)),
            out@ == start + joined(rows.take(i as int), line),
        decreases languages.len() - i,
    {
        proof {
            if total {
                assert(row_lines(language_rows(languages@)[i as int]) <= u64::MAX);
            }
        }
        push_md_language(out, &languages[i], total);
        proof {
            assert(rows.take(i + 1).drop_last() =~= rows.take(i as int));
            assert(rows.take(i + 1).last() == language_row(languages@[i as int]));
            assert(out@ =~= start + joined(rows.take(i + 1), line));
        }
        i += 1;
    }
    assert(rows.take(rows.len() as int) =~= rows);
}

/// Renders a summary as a Markdown table. The time that the run took is given
/// as text, in seconds.
pub fn render_markdown(summary: &Summary, config: &OutputConfig, elapsed: Option<&str>) -> (r: String)
    requires
        cutoff_fits(*summary, *config),
        config.show_total_column && !config.by_file ==> totals_fit(*summary, *config),
    ensures
        r@ == md_text(*summary, *config, opt_str_view(elapsed)),
{
    let mut out: Vec<char> = Vec::new();
    push_md_intro(&mut out, summary, config, elapsed);
    assert(out@ =~= md_intro(*summary, *config, opt_str_view(elapsed)));
    if config.by_file {
        push_text(
            &mut out,
            "| File | Language | Blank | Comment | Code |\n|------|----------|------:|--------:|-----:|\n",
        );
        push_md_files(&mut out, &summary.file_stats);
    } else {
        let total = config.show_total_column;
        let languages = shown_languages(summary, config);
        if total {
            push_text(
                &mut out,
                "| Language | Files | Blank | Comment | Code | Total |\n| :--- | ---: | ---: | ---: | ---: | ---: |\n",
            );
        } else {
            push_text(
                &mut out,
                "| Language | Files | Blank | Comment | Code |\n| :--- | ---: | ---: | ---: | ---: |\n",
            );
        }
        push_md_languages(&mut out, &languages, total);
        push_md_sum(&mut out, summary, total);
    }
    string_from_chars(out.as_slice())
}

/// The fields of the record of a language, or of the totals.
pub open spec fn csv_fields(row: Row) -> Seq<Seq<char>> {
    seq![row.name, decimal(row.files), decimal(row.blanks), decimal(row.comments), decimal(row.code)]
}

/// The fields of the record of a file.
pub open spec fn csv_file_fields(row: Row) -> Seq<Seq<char>> {
    seq![row.name, row.language, decimal(row.blanks), decimal(row.comments), decimal(row.code)]
}

/// The row of the totals.
pub open spec fn sum_row(summary: Summary) -> Row {
    Row {
        name: "SUM"@,
        language: "SUM"@,
        files: summary.total_files as nat,
        blanks: summary.total_blanks as nat,
        comments: summary.total_comments as nat,
        code: summary.total_code as nat,
    }
}

/// The records of a summary: a header and the files, or a header, the shown
/// languages and the totals.
pub open spec fn csv_records(summary: Summary, config: OutputConfig) -> Seq<Seq<Seq<char>>> {
    if config.by_file {
        seq![seq!["File"@, "Language"@, "Blank"@, "Comment"@, "Code"@]] + Seq::new(
            summary.file_stats@.len(),
            |i: int| csv_file_fields(file_row(summary.file_stats@[i])),
        )
    } else {
        let rows = shown_rows(summary.languages@, config.summary_cutoff);
        (seq![seq!["Language"@, "Files"@, "Blank"@, "Comment"@, "Code"@]] + Seq::new(
            rows.len(),
            |i: int| csv_fields(rows[i]),
        )).push(csv_fields(sum_row(summary)))
    }
}

/// The views of a list of records.
pub open spec fn records_view(records: Seq<Vec<String>>) -> Seq<Seq<Seq<char>>> {
    Seq::new(records.len(), |i: int| strings_view(records[i]@))
}

fn record_of(a: String, b: String, c: u64, d: u64, e: u64) -> (r: Vec<String>)
    ensures
        strings_view(r@) == seq![a@, b@, decimal(c as nat), decimal(d as nat), decimal(e as nat)],
{
    let mut r: Vec<String> = Vec::new();
    r.push(a);
    r.push(b);
    r.push(decimal_string(c));
    r.push(decimal_string(d));
    r.push(decimal_string(e));
    assert(strings_view(r@) =~= seq![
        a@,
        b@,
        decimal(c as nat),
        decimal(d as nat),
        decimal(e as nat),
    ]);
    r
}

/// The records of a summary, field by field.
pub fn csv_rows(summary: &Summary, config: &OutputConfig) -> (r: Vec<Vec<String>>)
    requires
        cutoff_fits(*summary, *config),
    ensures
        records_view(r@) == csv_records(*summary, *config),
{
    let mut records: Vec<Vec<String>> = Vec::new();
    if config.by_file {
        let mut head: Vec<String> = Vec::new();
        head.push(String::from_str("File"));
        head.push(String::from_str("Language"));
        head.push(String::from_str("Blank"));
        head.push(String::from_str("Comment"));
        head.push(String::from_str("Code"));
        assert(strings_view(head@) =~= seq!["File"@, "Language"@, "Blank"@, "Comment"@, "Code"@]);
        records.push(head);
        let mut i: usize = 0;
        while i < summary.file_stats.len()
            invariant
                i <= summary.file_stats.len(),
                records@.len() == i + 1,
                strings_view(records@[0]@) == seq![
                    "File"@,
                    "Language"@,
                    "Blank"@,
                    "Comment"@,
                    "Code"@,
                ],
                forall|k: int|
                    0 <= k < i ==> strings_view((#[trigger] records@[k + 1])@) == csv_file_fields(
                        file_row(summary.file_stats@[k]),
                    ),
            decreases summary.file_stats.len() - i,
        {
            let file = &summary.file_stats[i];
            let ghost before = records@;
            records.push(
                record_of(file.path.clone(), file.language.clone(), file.blanks, file.comments, file.code),
            );
            proof {
                assert forall|k: int| 0 <= k < i + 1 implies strings_view(
                    (#[trigger] records@[k + 1])@,
                ) == csv_file_fields(file_row(summary.file_stats@[k])) by {
                    if k < i {
                        assert(records@[k + 1] == before[k + 1]);
                    }
                }
            }
            i += 1;
        }
        proof {
            let want = csv_records(*summary, *config);
            let got = records_view(records@);
            assert(got.len() == want.len());
            assert forall|k: int| 0 <= k < got.len() implies got[k] == want[k] by {
                if k > 0 {
                    assert(strings_view(records@[(k - 1) + 1]@) == csv_file_fields(
                        file_row(summary.file_stats@[k - 1]),
                    ));
                }
            }
            assert(got =~= want);
        }
    } else {
        let languages = shown_languages(summary, config);
        let mut head: Vec<String> = Vec::new();
        head.push(String::from_str("Language"));
        head.push(String::from_str("Files"));
        head.push(String::from_str("Blank"));
        head.push(String::from_str("Comment"));
        head.push(String::from_str("Code"));
        assert(strings_view(head@) =~= seq!["Language"@, "Files"@, "Blank"@, "Comment"@, "Code"@]);
        records.push(head);
        let ghost rows = language_rows(languages@);
        let mut i: usize = 0;
        while i < languages.len()
            invariant
                i <= languages.len(),
                rows == language_rows(languages@),
                records@.len() == i + 1,
                strings_view(records@[0]@) == seq![
                    "Language"@,
                    "Files"@,
                    "Blank"@,
                    "Comment"@,
                    "Code"@,
                ],
                forall|k: int|
                    0 <= k < i ==> strings_view((#[trigger] records@[k + 1])@) == csv_fields(rows[k]),
            decreases languages.len() - i,
        {
            let language = &languages[i];
            let ghost before = records@;
            let mut record: Vec<String> = Vec::new();
            record.push(language.name.clone());
            record.push(decimal_string(language.files));
            record.push(decimal_string(language.blanks));
            record.push(decimal_string(language.comments));
            record.push(decimal_string(language.code));
            assert(strings_view(record@) =~= csv_fields(rows[i as int]));
            records.push(record);
            proof {
                assert forall|k: int| 0 <= k < i + 1 implies strings_view(
                    (#[trigger] records@[k + 1])@,
                ) == csv_fields(rows[k]) by {
                    if k < i {
                        assert(records@[k + 1] == before[k + 1]);
                    }
                }
            }
            i += 1;
        }
        let mut sum: Vec<String> = Vec::new();
        sum.push(String::from_str("SUM"));
        sum.push(decimal_string(summary.total_files));
        sum.push(decimal_string(summary.total_blanks));
        sum.push(decimal_string(summary.total_comments));
        sum.push(decimal_string(summary.total_code));
        assert(strings_view(sum@) =~= csv_fields(sum_row(*summary)));
        let ghost before = records@;
        records.push(sum);
        proof {
            let want = csv_records(*summary, *config);
            let got = records_view(records@);
            assert(got.len() == want.len());
            assert forall|k: int| 0 <= k < got.len() implies got[k] == want[k] by {
                if k == 0 {
                    assert(records@[0] == before[0]);
                } else if k <= languages.len() {
                    assert(records@[k] == before[k]);
                    assert(strings_view(before[(k - 1) + 1]@) == csv_fields(rows[k - 1]));
                }
            }
            assert(got =~= want);
        }
    }
    records
}

/// The text of one record of a CSV document with the given delimiter, where
/// the record can be written.
pub uninterp spec fn csv_line(fields: Seq<Seq<char>>, delimiter: u8) -> Option<Seq<char>>;

/// Writes one record of a CSV document. Trusted: `csv::Writer::write_record`
/// writes the fields, quoted where they need it, with the delimiter between
/// them and a line end behind them; what it writes depends on the fields and
/// the delimiter alone, and has a name, [`csv_line`].
#[verifier::external_body]
pub(crate) fn csv_record(fields: &Vec<String>, delimiter: u8) -> (r: Option<String>)
    ensures
        opt_view(r) == csv_line(strings_view(fields@), delimiter),
{
    let mut writer = csv::WriterBuilder::new().delimiter(delimiter).from_writer(Vec::new());
    if writer.write_record(fields).is_err() {
        return None;
    }
    match writer.into_inner() {
        Ok(bytes) => String::from_utf8(bytes).ok(),
        Err(_) => None,
    }
}

/// The text of the records, one after the other, where each can be written.
pub open spec fn csv_document(records: Seq<Seq<Seq<char>>>, delimiter: u8) -> Option<Seq<char>>
    decreases records.len(),
{
    if records.len() == 0 {
        Some(Seq::empty())
    } else {
        match (csv_document(records.drop_last(), delimiter), csv_line(records.last(), delimiter)) {
            (Some(before), Some(line)) => Some(before + line),
            _ => None,
        }
    }
}

/// The text of a CSV document, from the text of each of its records; nothing
/// where a record has none.
pub fn csv_join(lines: &Vec<Option<String>>) -> (r: Option<String>)
    ensures
        r is Some <==> forall|i: int| 0 <= i < lines@.len() ==> (#[trigger] lines@[i]) is Some,
        r is Some ==> r->0@ == joined_lines(lines@),
{
    let mut out: Vec<char> = Vec::new();
    let mut i: usize = 0;
    assert(lines@.take(0) =~= Seq::empty());
    while i < lines.len()
        invariant
            i <= lines.len(),
            forall|k: int| 0 <= k < i ==> (#[trigger] lines@[k]) is Some,
            out@ == joined_lines(lines@.take(i as int)),
        decreases lines.len() - i,
    {
        match &lines[i] {
            Some(line) => {
                push_text(&mut out, line.as_str());
                proof {
                    assert(lines@.take(i + 1).drop_last() =~= lines@.take(i as int));
                    assert(lines@.take(i + 1).last() == lines@[i as int]);
                }
            },
            None => {
                return None;
            },
        }
        i += 1;
    }
    assert(lines@.take(lines.len() as int) =~= lines@);
    Some(string_from_chars(out.as_slice()))
}

/// The texts that are there, one after the other.
pub open spec fn joined_lines(lines: Seq<Option<String>>) -> Seq<char>
    decreases lines.len(),
{
    if lines.len() == 0 {
        Seq::empty()
    } else {
        joined_lines(lines.drop_last()) + (match lines.last() {
            Some(line) => line@,
            None => Seq::empty(),
        })
    }
}

/// Renders a summary as a CSV document: its records, each written with the
/// delimiter of the options. Nothing where a record cannot be written.
pub fn render_csv(summary: &Summary, config: &OutputConfig) -> (r: Option<String>)
    requires
        cutoff_fits(*summary, *config),
    ensures
        opt_view(r) == csv_document(csv_records(*summary, *config), config.csv_delimiter),
{
    let records = csv_rows(summary, config);
    let mut lines: Vec<Option<String>> = Vec::new();
    let mut i: usize = 0;
    while i < records.len()
        invariant
            i <= records.len(),
            lines@.len() == i,
            forall|k: int|
                0 <= k < i ==> opt_view(#[trigger] lines@[k]) == csv_line(
                    strings_view(records@[k]@),
                    config.csv_delimiter,
                ),
        decreases records.len() - i,
    {
        lines.push(csv_record(&records[i], config.csv_delimiter));
        i += 1;
    }
    let r = csv_join(&lines);
    proof {
        lemma_document(records@, lines@, config.csv_delimiter, records@.len() as int);
        assert(records@.take(records@.len() as int) =~= records@);
        assert(lines@.take(lines@.len() as int) =~= lines@);
    }
    r
}

proof fn lemma_document(records: Seq<Vec<String>>, lines: Seq<Option<String>>, delimiter: u8, n: int)
    requires
        0 <= n <= records.len(),
        lines.len() == records.len(),
        forall|k: int|
            0 <= k < records.len() ==> opt_view(#[trigger] lines[k]) == csv_line(
                strings_view(records[k]@),
                delimiter,
            ),
    ensures
        csv_document(records_view(records.take(n)), delimiter) is Some <==> forall|i: int|
            0 <= i < n ==> (#[trigger] lines[i]) is Some,
        csv_document(records_view(records.take(n)), delimiter) is Some ==> csv_document(
            records_view(records.take(n)),
            delimiter,
        )->0 == joined_lines(lines.take(n)),
    decreases n,
{
    if n > 0 {
        lemma_document(records, lines, delimiter, n - 1);
        let views = records_view(records.take(n));
        assert(views.drop_last() =~= records_view(records.take(n - 1)));
        assert(views.last() == strings_view(records[n - 1]@));
        assert(lines.take(n).drop_last() =~= lines.take(n - 1));
        assert(lines.take(n).last() == lines[n - 1]);
        assert(opt_view(lines[n - 1]) == csv_line(strings_view(records[n - 1]@), delimiter));
    } else {
        assert(records_view(records.take(0)) =~= Seq::empty());
        assert(lines.take(0) =~= Seq::empty());
    }
}

/// `n` spaces.
pub open spec fn spaces(n: nat) -> Seq<char> {
    Seq::new(n, |i: int| ' ')
}

/// A text with spaces behind it up to a width; a text that is as wide or wider
/// stays as it is.
pub open spec fn left_aligned(s: Seq<char>, width: nat) -> Seq<char> {
    if s.len() < width {
        s + spaces((width - s.len()) as nat)
    } else {
        s
    }
}

/// A text with spaces before it up to a width.
pub open spec fn right_aligned(s: Seq<char>, width: nat) -> Seq<char> {
    if s.len() < width {
        spaces((width - s.len()) as nat) + s
    } else {
        s
    }
}

/// One line of the plain table.
pub open spec fn plain_line(row: Row) -> Seq<char> {
    left_aligned(row.name, 14) + " "@ + right_aligned(decimal(row.files), 5) + " "@
        + right_aligned(decimal(row.blanks), 8) + " "@ + right_aligned(decimal(row.comments), 8)
        + " "@ + right_aligned(decimal(row.code), 8) + "\n"@
}

/// The line that heads the plain table, and the rule under it.
pub open spec fn plain_head() -> Seq<char> {
    "\nLanguage       Files    Blank  Comment     Code\n"@ + plain_rule()
}

/// The rule of the plain table.
pub open spec fn plain_rule() -> Seq<char> {
    "─────────────────────────────────────────────────\n"@
}

/// A summary as a plain table of its languages, with the totals under a
/// rule. A line about the rate of the run, where one is given, comes first
/// after an empty line.
pub open spec fn plain_text(summary: Summary, rate: Option<Seq<char>>) -> Seq<char> {
    (match rate {
        Some(line) => "\n"@ + line + "\n"@,
        None => Seq::empty(),
    }) + plain_head() + joined(language_rows(summary.languages@), |row: Row| plain_line(row))
        + plain_rule() + plain_line(sum_row(summary))
}

fn push_spaces(out: &mut Vec<char>, n: usize)
    ensures
        final(out)@ == old(out)@ + spaces(n as nat),
{
    let ghost start = out@;
    let mut i: usize = 0;
    assert(out@ =~= start + spaces(0));
    while i < n
        invariant
            i <= n,
            out@ == start + spaces(i as nat),
        decreases n - i,
    {
        out.push(' ');
        assert(out@ =~= start + spaces((i + 1) as nat));
        i += 1;
    }
}

fn push_left_aligned(out: &mut Vec<char>, text: &str, width: usize)
    ensures
        final(out)@ == old(out)@ + left_aligned(text@, width as nat),
{
    let ghost start = out@;
    let chars = to_chars(text);
    push_text(out, text);
    if chars.len() < width {
        push_spaces(out, width - chars.len());
    }
    assert(out@ =~= start + left_aligned(text@, width as nat));
}

fn push_right_aligned(out: &mut Vec<char>, n: u64, width: usize)
    ensures
        final(out)@ == old(out)@ + right_aligned(decimal(n as nat), width as nat),
{
    let ghost start = out@;
    let digits = crate::text::decimal_chars(n);
    if digits.len() < width {
        push_spaces(out, width - digits.len());
    }
    push_number(out, n);
    assert(out@ =~= start + right_aligned(decimal(n as nat), width as nat));
}

fn push_plain_line(out: &mut Vec<char>, name: &str, files: u64, blanks: u64, comments: u64, code: u64)
    ensures
        final(out)@ == old(out)@ + plain_line(
            Row {
                name: name@,
                language: name@,
                files: files as nat,
                blanks: blanks as nat,
                comments: comments as nat,
                code: code as nat,
            },
        ),
{
    let ghost start = out@;
    push_left_aligned(out, name, 14);
    push_text(out, " ");
    push_right_aligned(out, files, 5);
    push_text(out, " ");
    push_right_aligned(out, blanks, 8);
    push_text(out, " ");
    push_right_aligned(out, comments, 8);
    push_text(out, " ");
    push_right_aligned(out, code, 8);
    push_text(out, "\n");
    assert(out@ =~= start + plain_line(
        Row {
            name: name@,
            language: name@,
            files: files as nat,
            blanks: blanks as nat,
            comments: comments as nat,
            code: code as nat,
        },
    ));
}

fn push_plain_languages(out: &mut Vec<char>, languages: &Vec<LanguageStats>)
    ensures
        final(out)@ == old(out)@ + joined(language_rows(languages@), |row: Row| plain_line(row)),
{
    let ghost start = out@;
    let ghost rows = language_rows(languages@);
    let ghost line = |row: Row| plain_line(row);
    let mut i: usize = 0;
    assert(rows.take(0) =~= Seq::empty());
    assert(out@ =~= start + joined(rows.take(0), line));
    while i < languages.len()
        invariant
            i <= languages.len(),
            rows == language_rows(languages@),
            line == (|row: Row| plain_line(row)),
            out@ == start + joined(rows.take(i as int), line),
        decreases languages.len() - i,
    {
        let language = &languages[i];
        push_plain_line(
            out,
            language.name.as_str(),
            language.files,
            language.blanks,
            language.comments,
            language.code,
        );
        proof {
            assert(rows.take(i + 1).drop_last() =~= rows.take(i as int));
            assert(rows.take(i + 1).last() == language_row(languages@[i as int]));
            assert(out@ =~= start + joined(rows.take(i + 1), line));
        }
        i += 1;
    }
    assert(rows.take(rows.len() as int) =~= rows);
}

/// Renders a summary as a plain table, as it is written to a file. The line
/// about the rate of the run is given as text.
pub fn render_plain(summary: &Summary, rate: Option<&str>) -> (r: String)
    ensures
        r@ == plain_text(*summary, opt_str_view(rate)),
{
    let mut out: Vec<char> = Vec::new();
    if let Some(line) = rate {
        push_text(&mut out, "\n");
        push_text(&mut out, line);
        push_text(&mut out, "\n");
    }
    let ghost top = out@;
    assert(top =~= (match opt_str_view(rate) {
        Some(line) => "\n"@ + line + "\n"@,
        None => Seq::empty(),
    }));
    push_text(&mut out, "\nLanguage       Files    Blank  Comment     Code\n");
    push_text(&mut out, "─────────────────────────────────────────────────\n");
    assert(out@ =~= top + plain_head());
    push_plain_languages(&mut out, &summary.languages);
    push_text(&mut out, "─────────────────────────────────────────────────\n");
    push_plain_line(
        &mut out,
        "SUM",
        summary.total_files,
        summary.total_blanks,
        summary.total_comments,
        summary.total_code,
    );
    string_from_chars(out.as_slice())
}

} // verus!
