//! The options of the command line, and what they ask of the walk and of the
//! renderers.

use crate::output::{OutputConfig, OutputFormat, SortBy};
use crate::text::{
    chars_find, chars_slice, clone_opt_string, clone_strings, find, lowercase, opt_view,
    string_from_chars, strings_view, to_chars, unicode_lowercase,
};
use crate::walker::{default_exclude_dirs, pattern_compiles, VcsMode, WalkerConfig};
use vstd::prelude::*;

verus! {

/// The formats that can be asked for by name.
#[derive(Debug, Clone, Copy, PartialEq, Eq)]
pub enum Format {
    Table,
    Json,
    Csv,
    Yaml,
    Md,
    Sql,
    Xml,
}

/// How version control is used to find files.
#[derive(Debug, Clone, Copy, PartialEq, Eq)]
pub enum Vcs {
    Auto,
    Git,
    /// Version control is not used.
    Off,
}

/// The columns by which the output can be ordered.
#[derive(Debug, Clone, Copy, PartialEq, Eq)]
pub enum SortField {
    Language,
    Files,
    Code,
    Comments,
    Blanks,
    Total,
}

/// The options of the command line.
#[derive(Debug)]
pub struct Cli {
    pub paths: Vec<String>,
    pub by_file: bool,
    pub by_file_by_lang: bool,
    pub format: Option<Format>,
    pub json: bool,
    pub csv: bool,
    pub csv_delimiter: Option<char>,
    pub yaml: bool,
    pub md: bool,
    pub sql: bool,
    pub xml: bool,
    pub exclude_dir: Vec<String>,
    pub exclude_ext: Vec<String>,
    pub exclude_lang: Vec<String>,
    pub include_ext: Vec<String>,
    pub include_lang: Vec<String>,
    pub force_lang: Vec<String>,
    pub match_d: Option<String>,
    pub not_match_d: Vec<String>,
    pub match_f: Option<String>,
    pub not_match_f: Vec<String>,
    pub include_content: Option<String>,
    pub exclude_content: Option<String>,
    pub fullpath: bool,
    pub vcs: Option<Vcs>,
    pub files_from: Option<Vcs>,
    pub follow_symlinks: bool,
    pub hidden: bool,
    pub no_ignore: bool,
    pub skip_gitignore: bool,
    pub skip_uniqueness: bool,
    pub include_submodules: bool,
    pub list_file: Option<String>,
    pub max_depth: Option<usize>,
    pub no_recurse: bool,
    /// The largest size of a file that is looked at, in mebibytes.
    pub max_file_size: Option<u64>,
    pub sort: SortField,
    pub summary_cutoff: Option<usize>,
    pub hide_rate: bool,
    pub by_percent: bool,
    pub quiet: bool,
    pub verbose: u8,
    pub out: Option<String>,
    pub report_file: Option<String>,
    pub show_total: bool,
    pub show_lang: bool,
    pub show_ext: bool,
    pub sum_reports: Vec<String>,
    pub threads: usize,
}

/// The format that the options ask for: the first of the format switches that
/// is set, in the order JSON, CSV, YAML, Markdown, SQL, XML; else the format
/// asked for by name; else a table.
pub open spec fn format_of(cli: Cli) -> OutputFormat {
    if cli.json {
        OutputFormat::Json
    } else if cli.csv {
        OutputFormat::Csv
    } else if cli.yaml {
        OutputFormat::Yaml
    } else if cli.md {
        OutputFormat::Markdown
    } else if cli.sql {
        OutputFormat::Sql
    } else if cli.xml {
        OutputFormat::Xml
    } else {
        match cli.format {
            Some(Format::Json) => OutputFormat::Json,
            Some(Format::Csv) => OutputFormat::Csv,
            Some(Format::Yaml) => OutputFormat::Yaml,
            Some(Format::Md) => OutputFormat::Markdown,
            Some(Format::Sql) => OutputFormat::Sql,
            Some(Format::Xml) => OutputFormat::Xml,
            Some(Format::Table) | None => OutputFormat::Table,
        }
    }
}

/// The column that a sort field names.
pub open spec fn sort_of(field: SortField) -> SortBy {
    match field {
        SortField::Language => SortBy::Language,
        SortField::Files => SortBy::Files,
        SortField::Code => SortBy::Code,
        SortField::Comments => SortBy::Comments,
        SortField::Blanks => SortBy::Blanks,
        SortField::Total => SortBy::Total,
    }
}

/// The byte that separates the fields of a CSV record: the low byte of the
/// character asked for, and a comma where none is.
pub open spec fn delimiter_of(delimiter: Option<char>) -> u8 {
    match delimiter {
        Some(c) => ((c as u32) % 256) as u8,
        None => 44,
    }
}

/// The way of finding files that the options ask for.
pub open spec fn vcs_of(cli: Cli) -> Option<VcsMode> {
    let asked = if cli.vcs is Some {
        cli.vcs
    } else {
        cli.files_from
    };
    match asked {
        Some(Vcs::Auto) => Some(VcsMode::Auto),
        Some(Vcs::Git) => Some(VcsMode::Git),
        Some(Vcs::Off) => Some(VcsMode::Off),
        None => None,
    }
}

/// The number of bytes in a mebibyte.
pub const MEBIBYTE: u64 = 1048576;

/// The size limit of a walk, in bytes, that a limit in mebibytes asks for. A
/// limit beyond what 64 bits hold becomes the largest size there is, which
/// no file exceeds either.
pub open spec fn byte_limit(mebibytes: Option<u64>) -> Option<u64> {
    match mebibytes {
        Some(m) => Some(
            if m * MEBIBYTE <= u64::MAX {
                (m * MEBIBYTE) as u64
            } else {
                u64::MAX
            },
        ),
        None => None,
    }
}

/// The size limit of a walk, in bytes, that a limit in mebibytes asks for.
pub fn to_byte_limit(mebibytes: Option<u64>) -> (r: Option<u64>)
    ensures
        r == byte_limit(mebibytes),
{
    match mebibytes {
        Some(m) => {
            if m > u64::MAX / MEBIBYTE {
                assert(m * MEBIBYTE > u64::MAX) by (nonlinear_arith)
                    requires
                        m > u64::MAX / MEBIBYTE,
                        MEBIBYTE == 1048576,
                ;
                Some(u64::MAX)
            } else {
                assert(m * MEBIBYTE <= u64::MAX) by (nonlinear_arith)
                    requires
                        m <= u64::MAX / MEBIBYTE,
                        MEBIBYTE == 1048576,
                ;
                Some(m * MEBIBYTE)
            }
        },
        None => None,
    }
}

/// The comma as a text.
pub open spec fn comma() -> Seq<char> {
    seq![',']
}

/// The pair that a forced language makes: the extension after the first
/// comma, in lower case, and the language name before it.
pub open spec fn force_pair(spec: Seq<char>) -> Option<(Seq<char>, Seq<char>)> {
    match find(spec, comma()) {
        Some(at) => Some((unicode_lowercase(spec.skip(at + 1)), spec.take(at))),
        None => None,
    }
}

/// What is wrong with the first forced language from `from` on that holds no
/// comma.
pub open spec fn force_problem(specs: Seq<String>, from: int) -> Option<Seq<char>>
    decreases specs.len() - from,
{
    if from < 0 || from >= specs.len() {
        None
    } else if force_pair(specs[from]@) is None {
        Some("Invalid --force-lang format '"@ + specs[from]@ + "', expected LANG,EXT"@)
    } else {
        force_problem(specs, from + 1)
    }
}

/// Why a pattern does not compile, in the words of the pattern compiler, where
/// it does not.
pub uninterp spec fn regex_error(pattern: Seq<char>) -> Option<Seq<char>>;

/// Says why a pattern does not compile. Trusted: `Regex::new` refuses a
/// pattern with an error whose text depends on the pattern alone; the text has
/// a name, [`regex_error`], and there is none exactly when the pattern
/// compiles.
#[verifier::external_body]
pub(crate) fn regex_compile_error(pattern: &str) -> (r: Option<String>)
    ensures
        opt_view(r) == regex_error(pattern@),
        r is None == pattern_compiles(pattern@),
{
    match regex::Regex::new(pattern) {
        Ok(_) => None,
        Err(e) => Some(e.to_string()),
    }
}

/// What is wrong with an optional pattern, under the option's label.
pub open spec fn pattern_problem(label: Seq<char>, pattern: Option<String>) -> Option<Seq<char>> {
    match pattern {
        Some(p) => match regex_error(p@) {
            Some(e) => Some(label + e),
            None => None,
        },
        None => None,
    }
}

/// What is wrong with the first pattern from `from` on that does not compile.
pub open spec fn patterns_problem(label: Seq<char>, patterns: Seq<String>, from: int) -> Option<
    Seq<char>,
>
    decreases patterns.len() - from,
{
    if from < 0 || from >= patterns.len() {
        None
    } else if regex_error(patterns[from]@) is Some {
        Some(label + regex_error(patterns[from]@)->0)
    } else {
        patterns_problem(label, patterns, from + 1)
    }
}

/// The first of two optional texts that is there.
pub open spec fn first_of(a: Option<Seq<char>>, b: Option<Seq<char>>) -> Option<Seq<char>> {
    if a is Some {
        a
    } else {
        b
    }
}

/// What is wrong with the options, if anything: the first forced language
/// without a comma, or else the first pattern that does not compile, in the
/// order of the options that hold patterns.
pub open spec fn problem(cli: Cli) -> Option<Seq<char>> {
    first_of(
        force_problem(cli.force_lang@, 0),
        first_of(
            pattern_problem("Invalid --match-d regex: "@, cli.match_d),
            first_of(
                patterns_problem("Invalid --not-match-d regex: "@, cli.not_match_d@, 0),
                first_of(
                    pattern_problem("Invalid --match-f regex: "@, cli.match_f),
                    first_of(
                        patterns_problem("Invalid --not-match-f regex: "@, cli.not_match_f@, 0),
                        first_of(
                            pattern_problem("Invalid --include-content regex: "@, cli.include_content),
                            pattern_problem("Invalid --exclude-content regex: "@, cli.exclude_content),
                        ),
                    ),
                ),
            ),
        ),
    )
}

/// The pairs of a list of forced languages that all hold a comma.
pub open spec fn force_pairs(specs: Seq<String>) -> Seq<(Seq<char>, Seq<char>)> {
    Seq::new(specs.len(), |i: int| force_pair(specs[i]@)->0)
}

/// The views of a list of pairs of strings.
pub open spec fn pairs_view(pairs: Seq<(String, String)>) -> Seq<(Seq<char>, Seq<char>)> {
    Seq::new(pairs.len(), |i: int| (pairs[i].0@, pairs[i].1@))
}

/// Whether `config` is the walk that the options ask for.
pub open spec fn walk_of(config: WalkerConfig, cli: Cli) -> bool {
    &&& strings_view(config.paths@) == (if cli.paths@.len() == 0 {
        seq!["."@]
    } else {
        strings_view(cli.paths@)
    })
    &&& opt_view(config.list_file) == opt_view(cli.list_file)
    &&& strings_view(config.exclude_dirs@) == (if cli.no_ignore {
        Seq::<Seq<char>>::empty()
    } else {
        default_exclude_dirs()
    }) + strings_view(cli.exclude_dir@)
    &&& strings_view(config.exclude_exts@) == strings_view(cli.exclude_ext@)
    &&& strings_view(config.exclude_langs@) == strings_view(cli.exclude_lang@)
    &&& strings_view(config.include_exts@) == strings_view(cli.include_ext@)
    &&& strings_view(config.include_langs@) == strings_view(cli.include_lang@)
    &&& pairs_view(config.force_lang@) == force_pairs(cli.force_lang@)
    &&& opt_view(config.match_dir) == opt_view(cli.match_d)
    &&& strings_view(config.not_match_dir@) == strings_view(cli.not_match_d@)
    &&& opt_view(config.match_file) == opt_view(cli.match_f)
    &&& strings_view(config.not_match_file@) == strings_view(cli.not_match_f@)
    &&& opt_view(config.include_content) == opt_view(cli.include_content)
    &&& opt_view(config.exclude_content) == opt_view(cli.exclude_content)
    &&& config.vcs == vcs_of(cli)
    &&& config.follow_symlinks == cli.follow_symlinks
    &&& config.hidden == cli.hidden
    &&& config.fullpath == cli.fullpath
    &&& config.max_depth == (if cli.no_recurse {
        Some(1usize)
    } else {
        cli.max_depth
    })
    &&& config.skip_gitignore == cli.skip_gitignore
    &&& config.skip_uniqueness == cli.skip_uniqueness
    &&& config.include_submodules == cli.include_submodules
    &&& config.max_file_size == byte_limit(cli.max_file_size)
}

fn check_pattern(label: &str, pattern: &Option<String>) -> (r: Option<String>)
    ensures
        opt_view(r) == pattern_problem(label@, *pattern),
{
    match pattern {
        Some(p) => match regex_compile_error(p.as_str()) {
            Some(e) => Some(String::from_str(label).concat(e.as_str())),
            None => None,
        },
        None => None,
    }
}

fn check_pattern_list(label: &str, patterns: &Vec<String>) -> (r: Option<String>)
    ensures
        opt_view(r) == patterns_problem(label@, patterns@, 0),
{
    let mut i: usize = 0;
    while i < patterns.len()
        invariant
            i <= patterns.len(),
            patterns_problem(label@, patterns@, 0) == patterns_problem(label@, patterns@, i as int),
        decreases patterns.len() - i,
    {
        if let Some(e) = regex_compile_error(patterns[i].as_str()) {
            return Some(String::from_str(label).concat(e.as_str()));
        }
        i += 1;
    }
    None
}

fn split_forced(spec: &str) -> (r: Option<(String, String)>)
    ensures
        r is Some == force_pair(spec@) is Some,
        r matches Some((ext, lang)) ==> (ext@, lang@) == force_pair(spec@)->0,
{
    let chars = to_chars(spec);
    let mut token: Vec<char> = Vec::new();
    token.push(',');
    assert(token@ =~= comma());
    match chars_find(chars.as_slice(), token.as_slice()) {
        Some(at) => {
            proof {
                crate::strip::lemma_find_bounds(chars@, token@, 0);
                assert(token@.len() == 1);
                assert(crate::text::find_from(chars@, token@, 0) == Some(at as int));
            }
            let total = chars.len();
            let lang = chars_slice(chars.as_slice(), 0, at);
            let ext = chars_slice(chars.as_slice(), at + 1, total);
            assert(lang@ == spec@.take(at as int));
            assert(ext@ == spec@.skip(at + 1));
            let ext_text = string_from_chars(ext.as_slice());
            Some((lowercase(ext_text.as_str()), string_from_chars(lang.as_slice())))
        },
        None => None,
    }
}

fn append_strings(to: &mut Vec<String>, from: &Vec<String>)
    ensures
        strings_view(final(to)@) == strings_view(old(to)@) + strings_view(from@),
{
    let ghost start = to@;
    let mut i: usize = 0;
    assert(strings_view(to@) =~= strings_view(start) + strings_view(from@.take(0)));
    while i < from.len()
        invariant
            i <= from.len(),
            strings_view(to@) == strings_view(start) + strings_view(from@.take(i as int)),
        decreases from.len() - i,
    {
        let ghost before = to@;
        to.push(from[i].clone());
        assert(strings_view(to@) =~= strings_view(before).push(from@[i as int]@));
        assert(strings_view(from@.take(i + 1)) =~= strings_view(from@.take(i as int)).push(
            from@[i as int]@,
        ));
        assert(strings_view(to@) =~= strings_view(start) + strings_view(from@.take(i + 1)));
        i += 1;
    }
    assert(from@.take(from.len() as int) =~= from@);
}

impl Cli {
    /// The walk that the options ask for, or what is wrong with them.
    pub fn to_walker_config(&self) -> (r: Result<WalkerConfig, String>)
        ensures
            r is Err <==> problem(*self) is Some,
            r matches Err(message) ==> Some(message@) == problem(*self),
            r matches Ok(config) ==> walk_of(config, *self),
    {
        let mut config = WalkerConfig::default();
        if self.paths.len() > 0 {
            config.paths = clone_strings(&self.paths);
        }
        config.list_file = clone_opt_string(&self.list_file);
        if self.no_ignore {
            config.exclude_dirs = Vec::new();
            assert(strings_view(config.exclude_dirs@) =~= Seq::<Seq<char>>::empty());
        }
        append_strings(&mut config.exclude_dirs, &self.exclude_dir);
        config.exclude_exts = clone_strings(&self.exclude_ext);
        config.exclude_langs = clone_strings(&self.exclude_lang);
        config.include_exts = clone_strings(&self.include_ext);
        config.include_langs = clone_strings(&self.include_lang);
        let mut pairs: Vec<(String, String)> = Vec::new();
        let mut i: usize = 0;
        while i < self.force_lang.len()
            invariant
                i <= self.force_lang.len(),
                pairs@.len() == i,
                force_problem(self.force_lang@, 0) == force_problem(self.force_lang@, i as int),
                forall|k: int|
                    0 <= k < i ==> ((#[trigger] pairs@[k]).0@, pairs@[k].1@) == force_pair(
                        self.force_lang@[k]@,
                    )->0,
            decreases self.force_lang.len() - i,
        {
            match split_forced(self.force_lang[i].as_str()) {
                Some(pair) => {
                    pairs.push(pair);
                },
                None => {
                    let message = String::from_str("Invalid --force-lang format '").concat(
                        self.force_lang[i].as_str(),
                    ).concat("', expected LANG,EXT");
                    return Err(message);
                },
            }
            i += 1;
        }
        assert(pairs_view(pairs@) =~= force_pairs(self.force_lang@));
        config.force_lang = pairs;
        if let Some(message) = check_pattern("Invalid --match-d regex: ", &self.match_d) {
            return Err(message);
        }
        if let Some(message) = check_pattern_list("Invalid --not-match-d regex: ", &self.not_match_d) {
            return Err(message);
        }
        if let Some(message) = check_pattern("Invalid --match-f regex: ", &self.match_f) {
            return Err(message);
        }
        if let Some(message) = check_pattern_list("Invalid --not-match-f regex: ", &self.not_match_f) {
            return Err(message);
        }
        if let Some(message) = check_pattern(
            "Invalid --include-content regex: ",
            &self.include_content,
        ) {
            return Err(message);
        }
        if let Some(message) = check_pattern(
            "Invalid --exclude-content regex: ",
            &self.exclude_content,
        ) {
            return Err(message);
        }
        config.match_dir = clone_opt_string(&self.match_d);
        config.not_match_dir = clone_strings(&self.not_match_d);
        config.match_file = clone_opt_string(&self.match_f);
        config.not_match_file = clone_strings(&self.not_match_f);
        config.include_content = clone_opt_string(&self.include_content);
        config.exclude_content = clone_opt_string(&self.exclude_content);
        let asked = if self.vcs.is_some() {
            self.vcs
        } else {
            self.files_from
        };
        config.vcs =
        match asked {
            Some(Vcs::Auto) => Some(VcsMode::Auto),
            Some(Vcs::Git) => Some(VcsMode::Git),
            Some(Vcs::Off) => Some(VcsMode::Off),
            None => None,
        };
        config.follow_symlinks = self.follow_symlinks;
        config.hidden = self.hidden;
        config.fullpath = self.fullpath;
        config.max_depth =
        if self.no_recurse {
            Some(1)
        } else {
            self.max_depth
        };
        config.skip_gitignore = self.skip_gitignore;
        config.skip_uniqueness = self.skip_uniqueness;
        config.include_submodules = self.include_submodules;
        config.max_file_size = to_byte_limit(self.max_file_size);
        Ok(config)
    }

    /// What the options ask of the renderers.
    pub fn to_output_config(&self) -> (r: OutputConfig)
        ensures
            r.format == format_of(*self),
            r.by_file == self.by_file,
            r.by_file_by_lang == self.by_file_by_lang,
            r.hide_rate == self.hide_rate,
            r.sort_by == sort_of(self.sort),
            r.show_total_column == self.show_total,
            r.csv_delimiter == delimiter_of(self.csv_delimiter),
            r.by_percent == self.by_percent,
            r.summary_cutoff == self.summary_cutoff,
    {
        let format = if self.json {
            OutputFormat::Json
        } else if self.csv {
            OutputFormat::Csv
        } else if self.yaml {
            OutputFormat::Yaml
        } else if self.md {
            OutputFormat::Markdown
        } else if self.sql {
            OutputFormat::Sql
        } else if self.xml {
            OutputFormat::Xml
        } else {
            match self.format {
                Some(Format::Json) => OutputFormat::Json,
                Some(Format::Csv) => OutputFormat::Csv,
                Some(Format::Yaml) => OutputFormat::Yaml,
                Some(Format::Md) => OutputFormat::Markdown,
                Some(Format::Sql) => OutputFormat::Sql,
                Some(Format::Xml) => OutputFormat::Xml,
                Some(Format::Table) | None => OutputFormat::Table,
            }
        };
        let sort_by = match self.sort {
            SortField::Language => SortBy::Language,
            SortField::Files => SortBy::Files,
            SortField::Code => SortBy::Code,
            SortField::Comments => SortBy::Comments,
            SortField::Blanks => SortBy::Blanks,
            SortField::Total => SortBy::Total,
        };
        let csv_delimiter: u8 = match self.csv_delimiter {
            Some(c) => {
                let low: u32 = (c as u32) % 256;
                low as u8
            },
            None => 44,
        };
        OutputConfig {
            format,
            by_file: self.by_file,
            by_file_by_lang: self.by_file_by_lang,
            hide_rate: self.hide_rate,
            sort_by,
            show_total_column: self.show_total,
            csv_delimiter,
            by_percent: self.by_percent,
            summary_cutoff: self.summary_cutoff,
        }
    }

    /// Where the output goes, if it goes to a file: the output file before the
    /// report file.
    pub fn output_path(&self) -> (r: Option<&String>)
        ensures
            self.out matches Some(p) ==> r == Some(&p),
            self.out is None ==> (match self.report_file {
                Some(p) => r == Some(&p),
                None => r is None,
            }),
    {
        match &self.out {
            Some(p) => Some(p),
            None => match &self.report_file {
                Some(p) => Some(p),
                None => None,
            },
        }
    }
}

} // verus!
