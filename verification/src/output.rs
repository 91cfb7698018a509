//! How a summary is shown: the options of the renderers and the parts of
//! rendering that are plain computation.

use crate::stats::LanguageStats;
use crate::text::{chars_less, lex_less, push_text, string_from_chars, to_chars};
use vstd::prelude::*;

verus! {

/// The formats in which a summary can be written.
#[derive(Debug, Clone, Copy, PartialEq, Eq, Default)]
pub enum OutputFormat {
    #[default]
    Table,
    Json,
    Csv,
    Yaml,
    Markdown,
    Sql,
    Xml,
}

/// The column by which the languages are ordered.
#[derive(Debug, Clone, Copy, PartialEq, Eq, Default)]
pub enum SortBy {
    Language,
    Files,
    #[default]
    Code,
    Comments,
    Blanks,
    Total,
}

/// The options of a renderer.
#[derive(Debug, Clone, Copy)]
pub struct OutputConfig {
    pub format: OutputFormat,
    pub by_file: bool,
    pub by_file_by_lang: bool,
    pub hide_rate: bool,
    pub sort_by: SortBy,
    pub show_total_column: bool,
    pub csv_delimiter: u8,
    pub by_percent: bool,
    pub summary_cutoff: Option<usize>,
}

impl Default for OutputConfig {
    fn default() -> (r: Self)
        ensures
            r.format is Table,
            r.sort_by is Code,
            r.csv_delimiter == 44,
            !r.by_file && !r.by_file_by_lang && !r.hide_rate && !r.show_total_column
                && !r.by_percent,
            r.summary_cutoff is None,
    {
        OutputConfig {
            format: OutputFormat::Table,
            by_file: false,
            by_file_by_lang: false,
            hide_rate: false,
            sort_by: SortBy::Code,
            show_total_column: false,
            csv_delimiter: 44,
            by_percent: false,
            summary_cutoff: None,
        }
    }
}

/// Sums of the languages that a cutoff folds together.
pub ghost struct Folded {
    pub files: nat,
    pub code: nat,
    pub comments: nat,
    pub blanks: nat,
}

impl Folded {
    /// Whether the four sums fit in 64 bits.
    pub open spec fn fits(self) -> bool {
        self.files <= u64::MAX && self.code <= u64::MAX && self.comments <= u64::MAX
            && self.blanks <= u64::MAX
    }
}

/// The sums of the languages among `languages` with fewer than `cutoff`
/// files.
pub open spec fn folded(languages: Seq<LanguageStats>, cutoff: usize) -> Folded
    decreases languages.len(),
{
    if languages.len() == 0 {
        Folded { files: 0, code: 0, comments: 0, blanks: 0 }
    } else {
        let before = folded(languages.drop_last(), cutoff);
        let last = languages.last();
        if last.files >= cutoff {
            before
        } else {
            Folded {
                files: before.files + last.files as nat,
                code: before.code + last.code as nat,
                comments: before.comments + last.comments as nat,
                blanks: before.blanks + last.blanks as nat,
            }
        }
    }
}

/// The languages among `languages` with at least `cutoff` files, in order.
pub open spec fn kept(languages: Seq<LanguageStats>, cutoff: usize) -> Seq<LanguageStats>
    decreases languages.len(),
{
    if languages.len() == 0 {
        Seq::empty()
    } else if languages.last().files >= cutoff {
        kept(languages.drop_last(), cutoff).push(languages.last())
    } else {
        kept(languages.drop_last(), cutoff)
    }
}

/// Whether `entry` is the entry called `Other` with the given sums.
pub open spec fn is_other(entry: LanguageStats, sums: Folded) -> bool {
    &&& entry.name@ == "Other"@
    &&& entry.files == sums.files
    &&& entry.code == sums.code
    &&& entry.comments == sums.comments
    &&& entry.blanks == sums.blanks
}

/// The sums over the first languages are within the sums over all.
pub proof fn lemma_folded_prefix(languages: Seq<LanguageStats>, cutoff: usize, n: int)
    requires
        0 <= n <= languages.len(),
    ensures
        folded(languages.take(n), cutoff).files <= folded(languages, cutoff).files,
        folded(languages.take(n), cutoff).code <= folded(languages, cutoff).code,
        folded(languages.take(n), cutoff).comments <= folded(languages, cutoff).comments,
        folded(languages.take(n), cutoff).blanks <= folded(languages, cutoff).blanks,
    decreases languages.len() - n,
{
    if n < languages.len() {
        lemma_folded_prefix(languages, cutoff, n + 1);
        assert(languages.take(n + 1).drop_last() =~= languages.take(n));
    } else {
        assert(languages.take(n) =~= languages);
    }
}

/// Folds the languages with fewer than `cutoff` files into one entry called
/// `Other`, which comes last; where they hold no file at all, there is no such
/// entry. The other languages stay as they are, in their order.
pub fn apply_summary_cutoff(languages: &[LanguageStats], cutoff: usize) -> (r: Vec<LanguageStats>)
    requires
        folded(languages@, cutoff).fits(),
    ensures
        folded(languages@, cutoff).files == 0 ==> r@ == kept(languages@, cutoff),
        folded(languages@, cutoff).files > 0 ==> r@.len() == kept(languages@, cutoff).len() + 1
            && r@.drop_last() == kept(languages@, cutoff) && is_other(
            r@.last(),
            folded(languages@, cutoff),
        ),
{
    let mut result: Vec<LanguageStats> = Vec::new();
    let mut files: u64 = 0;
    let mut code: u64 = 0;
    let mut comments: u64 = 0;
    let mut blanks: u64 = 0;
    let mut i: usize = 0;
    assert(languages@.take(0) =~= Seq::empty());
    while i < languages.len()
        invariant
            i <= languages.len(),
            folded(languages@, cutoff).fits(),
            result@ == kept(languages@.take(i as int), cutoff),
            files == folded(languages@.take(i as int), cutoff).files,
            code == folded(languages@.take(i as int), cutoff).code,
            comments == folded(languages@.take(i as int), cutoff).comments,
            blanks == folded(languages@.take(i as int), cutoff).blanks,
        decreases languages.len() - i,
    {
        let language = &languages[i];
        proof {
            assert(languages@.take(i + 1).drop_last() =~= languages@.take(i as int));
            assert(languages@.take(i + 1).last() == languages@[i as int]);
            lemma_folded_prefix(languages@, cutoff, i + 1);
        }
        if language.files >= cutoff as u64 {
            result.push(language.clone());
        } else {
            files += language.files;
            code += language.code;
            comments += language.comments;
            blanks += language.blanks;
        }
        i += 1;
    }
    assert(languages@.take(languages.len() as int) =~= languages@);
    if files > 0 {
        let ghost before = result@;
        result.push(LanguageStats { name: String::from_str("Other"), files, code, comments, blanks });
        assert(result@.drop_last() =~= before);
    }
    result
}

/// What stands for a character in a document of marked-up text.
pub open spec fn escaped_char(c: char) -> Seq<char> {
    if c == '&' {
        "&amp;"@
    } else if c == '<' {
        "&lt;"@
    } else if c == '>' {
        "&gt;"@
    } else if c == '"' {
        "&quot;"@
    } else if c == '\'' {
        "&apos;"@
    } else {
        seq![c]
    }
}

/// A text with each of `&`, `<`, `>`, `"` and `'` replaced by what stands for
/// it.
pub open spec fn escaped(s: Seq<char>) -> Seq<char>
    decreases s.len(),
{
    if s.len() == 0 {
        Seq::empty()
    } else {
        escaped(s.drop_last()) + escaped_char(s.last())
    }
}

/// Escapes a text for a document of marked-up text.
pub fn escape_xml(s: &str) -> (r: String)
    ensures
        r@ == escaped(s@),
{
    let chars = to_chars(s);
    let mut out: Vec<char> = Vec::new();
    let mut i: usize = 0;
    assert(chars@.take(0) =~= Seq::empty());
    while i < chars.len()
        invariant
            i <= chars.len(),
            chars@ == s@,
            out@ == escaped(chars@.take(i as int)),
        decreases chars.len() - i,
    {
        let c = chars[i];
        proof {
            assert(chars@.take(i + 1).drop_last() =~= chars@.take(i as int));
            assert(chars@.take(i + 1).last() == c);
        }
        if c == '&' {
            push_text(&mut out, "&amp;");
        } else if c == '<' {
            push_text(&mut out, "&lt;");
        } else if c == '>' {
            push_text(&mut out, "&gt;");
        } else if c == '"' {
            push_text(&mut out, "&quot;");
        } else if c == '\'' {
            push_text(&mut out, "&apos;");
        } else {
            let ghost before = out@;
            out.push(c);
            assert(out@ =~= before + seq![c]);
        }
        i += 1;
    }
    assert(chars@.take(chars.len() as int) =~= chars@);
    string_from_chars(out.as_slice())
}

/// Whether `a` goes before `b` when the languages are ordered by a column:
/// by rising name, or by falling count.
pub open spec fn goes_before(a: LanguageStats, b: LanguageStats, by: SortBy) -> bool {
    match by {
        SortBy::Language => lex_less(a.name@, b.name@),
        SortBy::Files => a.files > b.files,
        SortBy::Code => a.code > b.code,
        SortBy::Comments => a.comments > b.comments,
        SortBy::Blanks => a.blanks > b.blanks,
        SortBy::Total => a.code + a.comments + a.blanks > b.code + b.comments + b.blanks,
    }
}

/// The place of `x` in an ordered list: before the first entry at or after
/// `from` that `x` goes before, and behind all others.
pub open spec fn slot(sorted: Seq<LanguageStats>, x: LanguageStats, by: SortBy, from: int) -> int
    decreases sorted.len() - from,
{
    if from < 0 || from >= sorted.len() {
        sorted.len() as int
    } else if goes_before(x, sorted[from], by) {
        from
    } else {
        slot(sorted, x, by, from + 1)
    }
}

/// The languages ordered by a column. Languages that the column does not tell
/// apart keep the order in which they came.
pub open spec fn sorted_by(list: Seq<LanguageStats>, by: SortBy) -> Seq<LanguageStats>
    decreases list.len(),
{
    if list.len() == 0 {
        Seq::empty()
    } else {
        let before = sorted_by(list.drop_last(), by);
        before.insert(slot(before, list.last(), by, 0), list.last())
    }
}

/// Whether `a` goes before `b` when the languages are ordered by a column.
pub fn comes_first(a: &LanguageStats, b: &LanguageStats, by: SortBy) -> (r: bool)
    ensures
        r == goes_before(*a, *b, by),
{
    match by {
        SortBy::Language => {
            let x = to_chars(a.name.as_str());
            let y = to_chars(b.name.as_str());
            chars_less(x.as_slice(), y.as_slice())
        },
        SortBy::Files => a.files > b.files,
        SortBy::Code => a.code > b.code,
        SortBy::Comments => a.comments > b.comments,
        SortBy::Blanks => a.blanks > b.blanks,
        SortBy::Total => {
            let x: u128 = a.code as u128 + a.comments as u128 + a.blanks as u128;
            let y: u128 = b.code as u128 + b.comments as u128 + b.blanks as u128;
            x > y
        },
    }
}

/// Orders the languages by a column.
pub fn sort_languages(languages: &Vec<LanguageStats>, by: SortBy) -> (r: Vec<LanguageStats>)
    ensures
        r@ == sorted_by(languages@, by),
{
    let mut sorted: Vec<LanguageStats> = Vec::new();
    let mut i: usize = 0;
    assert(languages@.take(0) =~= Seq::empty());
    while i < languages.len()
        invariant
            i <= languages.len(),
            sorted@ == sorted_by(languages@.take(i as int), by),
        decreases languages.len() - i,
    {
        let item = languages[i].clone();
        proof {
            assert(languages@.take(i + 1).drop_last() =~= languages@.take(i as int));
            assert(languages@.take(i + 1).last() == languages@[i as int]);
        }
        let mut at: usize = 0;
        while at < sorted.len() && !comes_first(&item, &sorted[at], by)
            invariant
                at <= sorted@.len(),
                slot(sorted@, item, by, 0) == slot(sorted@, item, by, at as int),
            decreases sorted@.len() - at,
        {
            at += 1;
        }
        sorted.insert(at, item);
        i += 1;
    }
    assert(languages@.take(languages.len() as int) =~= languages@);
    sorted
}

} // verus!
