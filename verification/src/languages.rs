//! Languages, their lexical rulesets, and how a path selects one.

use crate::custom_langs::{CustomLanguages, CustomRules};
use crate::paths::{chars_extension, chars_file_name, extension_of, file_name_of};
use crate::tables::{LanguageRow, EXTENSION_MAP, FILENAME_MAP, LANGUAGES};
use crate::text::{
    chars_end_with, chars_eq, chars_eq_ignore_ascii_case, chars_slice, clone_opt_string,
    clone_strings, ends_with, eq_ignore_ascii_case, lemma_rising_distinct, lex_less, lowercase,
    opt_view, rising, string_from_chars, strings_view, to_chars, unicode_lowercase,
};
use vstd::prelude::*;

verus! {

/// Families of comment syntax.
#[derive(Debug, Clone, Copy, PartialEq, Eq, Hash)]
pub enum CommentStyle {
    C,
    CShell,
    Shell,
    Html,
    Haskell,
    Fortran,
    Pascal,
    Ada,
    Sql,
    Lua,
    Lisp,
    Erlang,
    Prolog,
    Matlab,
    Ruby,
    Perl,
    Python,
    R,
    Vim,
    Assembly,
    Batch,
    Ini,
    Tex,
    Forth,
    Clojure,
    Julia,
    Nim,
    Crystal,
    Elm,
    Zig,
    Odin,
    V,
    Cobol,
    Ocaml,
    Fsharp,
    NoComment,
}

/// The lexical description of a language.
#[derive(Debug)]
pub struct Language {
    pub name: String,
    pub line_comments: Vec<String>,
    pub block_comment_start: Option<String>,
    pub block_comment_end: Option<String>,
    pub nested_comments: bool,
    pub string_delimiters: Vec<String>,
    pub raw_string_start: Option<String>,
    pub raw_string_end: Option<String>,
}

/// What a [`Language`] says, as plain sequences of characters.
pub ghost struct Ruleset {
    pub name: Seq<char>,
    pub line_comments: Seq<Seq<char>>,
    pub block_comment_start: Option<Seq<char>>,
    pub block_comment_end: Option<Seq<char>>,
    pub nested_comments: bool,
    pub string_delimiters: Seq<Seq<char>>,
    pub raw_string_start: Option<Seq<char>>,
    pub raw_string_end: Option<Seq<char>>,
}

impl Ruleset {
    /// Whether the language has any comment syntax.
    pub open spec fn has_comments(self) -> bool {
        self.line_comments.len() > 0 || self.block_comment_start is Some
    }

    /// The invariants of a ruleset: nesting needs both block tokens, and a
    /// line-comment token is non-empty and holds no newline.
    pub open spec fn well_formed(self) -> bool {
        &&& self.nested_comments ==> self.block_comment_start is Some && self.block_comment_end is Some
        &&& forall|i: int|
            0 <= i < self.line_comments.len() ==> {
                &&& (#[trigger] self.line_comments[i]).len() > 0
                &&& !self.line_comments[i].contains('\n')
            }
    }
}

impl View for Language {
    type V = Ruleset;

    open spec fn view(&self) -> Ruleset {
        Ruleset {
            name: self.name@,
            line_comments: strings_view(self.line_comments@),
            block_comment_start: opt_view(self.block_comment_start),
            block_comment_end: opt_view(self.block_comment_end),
            nested_comments: self.nested_comments,
            string_delimiters: strings_view(self.string_delimiters@),
            raw_string_start: opt_view(self.raw_string_start),
            raw_string_end: opt_view(self.raw_string_end),
        }
    }
}

impl Clone for Language {
    fn clone(&self) -> (r: Self)
        ensures
            r@ == self@,
    {
        Language {
            name: self.name.clone(),
            line_comments: clone_strings(&self.line_comments),
            block_comment_start: clone_opt_string(&self.block_comment_start),
            block_comment_end: clone_opt_string(&self.block_comment_end),
            nested_comments: self.nested_comments,
            string_delimiters: clone_strings(&self.string_delimiters),
            raw_string_start: clone_opt_string(&self.raw_string_start),
            raw_string_end: clone_opt_string(&self.raw_string_end),
        }
    }
}

/// The ruleset of a language without comments, with `"` and `'` as string
/// delimiters.
pub open spec fn plain_ruleset(name: Seq<char>) -> Ruleset {
    Ruleset {
        name,
        line_comments: Seq::empty(),
        block_comment_start: None,
        block_comment_end: None,
        nested_comments: false,
        string_delimiters: seq!["\""@, "'"@],
        raw_string_start: None,
        raw_string_end: None,
    }
}

/// The ruleset of the C family: `//` to the end of the line, `/* ... */`.
pub open spec fn c_style_ruleset(name: Seq<char>) -> Ruleset {
    Ruleset {
        line_comments: seq!["//"@],
        block_comment_start: Some("/*"@),
        block_comment_end: Some("*/"@),
        ..plain_ruleset(name)
    }
}

/// The ruleset of the shell family: `#` to the end of the line.
pub open spec fn shell_style_ruleset(name: Seq<char>) -> Ruleset {
    Ruleset { line_comments: seq!["#"@], ..plain_ruleset(name) }
}

/// The ruleset of the markup family: `<!-- ... -->`.
pub open spec fn html_style_ruleset(name: Seq<char>) -> Ruleset {
    Ruleset {
        block_comment_start: Some("<!--"@),
        block_comment_end: Some("-->"@),
        ..plain_ruleset(name)
    }
}

fn quote_delimiters() -> (r: Vec<String>)
    ensures
        strings_view(r@) == seq!["\""@, "'"@],
{
    let mut r: Vec<String> = Vec::new();
    r.push(String::from_str("\""));
    r.push(String::from_str("'"));
    assert(strings_view(r@) =~= seq!["\""@, "'"@]);
    r
}

fn one_token(token: &str) -> (r: Vec<String>)
    ensures
        strings_view(r@) == seq![token@],
{
    let mut r: Vec<String> = Vec::new();
    r.push(String::from_str(token));
    assert(strings_view(r@) =~= seq![token@]);
    r
}

/// Copies string slices into owned strings.
pub fn owned_tokens(tokens: &[&str]) -> (r: Vec<String>)
    ensures
        r@.len() == tokens@.len(),
        forall|i: int| 0 <= i < r@.len() ==> (#[trigger] r@[i])@ == tokens@[i]@,
{
    let mut r: Vec<String> = Vec::new();
    let mut i: usize = 0;
    while i < tokens.len()
        invariant
            i <= tokens.len(),
            r@.len() == i,
            forall|k: int| 0 <= k < i ==> (#[trigger] r@[k])@ == tokens@[k]@,
        decreases tokens.len() - i,
    {
        r.push(String::from_str(tokens[i]));
        i += 1;
    }
    r
}

impl Language {
    /// A language without comment syntax.
    pub fn new(name: &str) -> (r: Language)
        ensures
            r@ == plain_ruleset(name@),
            r@.well_formed(),
    {
        let r = Language {
            name: String::from_str(name),
            line_comments: Vec::new(),
            block_comment_start: None,
            block_comment_end: None,
            nested_comments: false,
            string_delimiters: quote_delimiters(),
            raw_string_start: None,
            raw_string_end: None,
        };
        assert(strings_view(r.line_comments@) =~= Seq::empty());
        r
    }

    /// A language of the C family.
    pub fn c_style(name: &str) -> (r: Language)
        ensures
            r@ == c_style_ruleset(name@),
            r@.well_formed(),
    {
        let r = Language {
            name: String::from_str(name),
            line_comments: one_token("//"),
            block_comment_start: Some(String::from_str("/*")),
            block_comment_end: Some(String::from_str("*/")),
            nested_comments: false,
            string_delimiters: quote_delimiters(),
            raw_string_start: None,
            raw_string_end: None,
        };
        proof {
            reveal_strlit("//");
            assert(!"//"@.contains('\n'));
        }
        r
    }

    /// A language of the shell family.
    pub fn shell_style(name: &str) -> (r: Language)
        ensures
            r@ == shell_style_ruleset(name@),
            r@.well_formed(),
    {
        let r = Language {
            name: String::from_str(name),
            line_comments: one_token("#"),
            block_comment_start: None,
            block_comment_end: None,
            nested_comments: false,
            string_delimiters: quote_delimiters(),
            raw_string_start: None,
            raw_string_end: None,
        };
        proof {
            reveal_strlit("#");
            assert(!"#"@.contains('\n'));
        }
        r
    }

    /// A language of the markup family.
    pub fn html_style(name: &str) -> (r: Language)
        ensures
            r@ == html_style_ruleset(name@),
            r@.well_formed(),
    {
        let r = Language {
            name: String::from_str(name),
            line_comments: Vec::new(),
            block_comment_start: Some(String::from_str("<!--")),
            block_comment_end: Some(String::from_str("-->")),
            nested_comments: false,
            string_delimiters: quote_delimiters(),
            raw_string_start: None,
            raw_string_end: None,
        };
        assert(strings_view(r.line_comments@) =~= Seq::empty());
        r
    }

    /// The same language with other line-comment tokens.
    pub fn with_line_comments(self, comments: &[&str]) -> (r: Language)
        ensures
            r@.line_comments.len() == comments@.len(),
            forall|i: int| 0 <= i < comments@.len() ==> r@.line_comments[i] == comments@[i]@,
            r@ == (Ruleset { line_comments: r@.line_comments, ..self@ }),
    {
        let mut r = self;
        r.line_comments = owned_tokens(comments);
        r
    }

    /// The same language with the given block-comment tokens.
    pub fn with_block_comments(self, start: &str, end: &str) -> (r: Language)
        ensures
            r@ == (Ruleset {
                block_comment_start: Some(start@),
                block_comment_end: Some(end@),
                ..self@
            }),
    {
        let mut r = self;
        r.block_comment_start = Some(String::from_str(start));
        r.block_comment_end = Some(String::from_str(end));
        r
    }

    /// The same language with nesting block comments.
    pub fn with_nested_comments(self) -> (r: Language)
        ensures
            r@ == (Ruleset { nested_comments: true, ..self@ }),
    {
        let mut r = self;
        r.nested_comments = true;
        r
    }

    /// The same language with other string delimiters.
    pub fn with_string_delimiters(self, delims: &[&str]) -> (r: Language)
        ensures
            r@.string_delimiters.len() == delims@.len(),
            forall|i: int| 0 <= i < delims@.len() ==> r@.string_delimiters[i] == delims@[i]@,
            r@ == (Ruleset { string_delimiters: r@.string_delimiters, ..self@ }),
    {
        let mut r = self;
        r.string_delimiters = owned_tokens(delims);
        r
    }

    /// Whether the language has any comment syntax.
    pub fn has_comments(&self) -> (r: bool)
        ensures
            r == self@.has_comments(),
    {
        self.line_comments.len() > 0 || self.block_comment_start.is_some()
    }

    /// Whether the ruleset keeps its invariants.
    pub fn is_well_formed(&self) -> (r: bool)
        ensures
            r == self@.well_formed(),
    {
        if self.nested_comments && (self.block_comment_start.is_none()
            || self.block_comment_end.is_none()) {
            return false;
        }
        let mut i: usize = 0;
        while i < self.line_comments.len()
            invariant
                i <= self.line_comments.len(),
                forall|k: int|
                    0 <= k < i ==> {
                        &&& (#[trigger] self@.line_comments[k]).len() > 0
                        &&& !self@.line_comments[k].contains('\n')
                    },
            decreases self.line_comments.len() - i,
        {
            let token = to_chars(self.line_comments[i].as_str());
            assert(token@ == self@.line_comments[i as int]);
            if token.len() == 0 {
                return false;
            }
            let mut j: usize = 0;
            while j < token.len()
                invariant
                    j <= token.len(),
                    i < self.line_comments.len(),
                    token@ == self@.line_comments[i as int],
                    forall|k: int| 0 <= k < j ==> token@[k] != '\n',
                decreases token.len() - j,
            {
                if token[j] == '\n' {
                    assert(self@.line_comments[i as int][j as int] == '\n');
                    return false;
                }
                j += 1;
            }
            i += 1;
        }
        true
    }
}

/// The non-empty entries of a row's token slots, in order.
pub open spec fn present(tokens: Seq<&'static str>) -> Seq<Seq<char>>
    decreases tokens.len(),
{
    if tokens.len() == 0 {
        Seq::empty()
    } else if tokens.last()@.len() == 0 {
        present(tokens.drop_last())
    } else {
        present(tokens.drop_last()).push(tokens.last()@)
    }
}

/// The ruleset that a row of the language table describes.
pub open spec fn row_ruleset(row: LanguageRow) -> Ruleset {
    Ruleset {
        name: row.0@,
        line_comments: present(row.1@),
        block_comment_start: if row.2@[0]@.len() == 0 {
            None
        } else {
            Some(row.2@[0]@)
        },
        block_comment_end: if row.2@[0]@.len() == 0 {
            None
        } else {
            Some(row.2@[1]@)
        },
        nested_comments: row.3,
        string_delimiters: present(row.4@),
        raw_string_start: None,
        raw_string_end: None,
    }
}

fn present_tokens(tokens: &[&'static str]) -> (r: Vec<String>)
    ensures
        strings_view(r@) == present(tokens@),
{
    let mut r: Vec<String> = Vec::new();
    let mut i: usize = 0;
    assert(tokens@.take(0) =~= Seq::empty());
    assert(strings_view(r@) =~= Seq::empty());
    while i < tokens.len()
        invariant
            i <= tokens.len(),
            strings_view(r@) == present(tokens@.take(i as int)),
        decreases tokens.len() - i,
    {
        let token = tokens[i];
        let ghost before = r@;
        proof {
            let next = tokens@.take(i + 1);
            assert(next.drop_last() =~= tokens@.take(i as int));
            assert(next.last() == token);
        }
        if !token.is_empty() {
            r.push(String::from_str(token));
            assert(strings_view(r@) =~= strings_view(before).push(token@));
        }
        i += 1;
    }
    assert(tokens@.take(tokens.len() as int) =~= tokens@);
    r
}

/// The language that a row of the language table describes.
pub fn language_from_row(row: &LanguageRow) -> (r: Language)
    ensures
        r@ == row_ruleset(*row),
{
    let has_block = !row.2[0].is_empty();
    Language {
        name: String::from_str(row.0),
        line_comments: present_tokens(&row.1),
        block_comment_start: if has_block {
            Some(String::from_str(row.2[0]))
        } else {
            None
        },
        block_comment_end: if has_block {
            Some(String::from_str(row.2[1]))
        } else {
            None
        },
        nested_comments: row.3,
        string_delimiters: present_tokens(&row.4),
        raw_string_start: None,
        raw_string_end: None,
    }
}

/// The first language at or after row `from` whose name is `name`.
pub open spec fn language_named_from(name: Seq<char>, from: int) -> Option<Ruleset>
    decreases LANGUAGES@.len() - from,
{
    if from < 0 || from >= LANGUAGES@.len() {
        None
    } else if LANGUAGES@[from].0@ == name {
        Some(row_ruleset(LANGUAGES@[from]))
    } else {
        language_named_from(name, from + 1)
    }
}

/// The built-in language called `name`.
pub open spec fn language_named(name: Seq<char>) -> Option<Ruleset> {
    language_named_from(name, 0)
}

/// The first language at or after row `from` whose name is `name` up to the
/// case of ASCII letters.
pub open spec fn language_named_ignore_case_from(name: Seq<char>, from: int) -> Option<Ruleset>
    decreases LANGUAGES@.len() - from,
{
    if from < 0 || from >= LANGUAGES@.len() {
        None
    } else if eq_ignore_ascii_case(LANGUAGES@[from].0@, name) {
        Some(row_ruleset(LANGUAGES@[from]))
    } else {
        language_named_ignore_case_from(name, from + 1)
    }
}

/// The built-in language called `name`, up to the case of ASCII letters.
pub open spec fn language_named_ignore_case(name: Seq<char>) -> Option<Ruleset> {
    language_named_ignore_case_from(name, 0)
}

/// The value of the first entry at or after `from` whose key is `key`.
pub open spec fn mapped_from(
    table: Seq<(&'static str, &'static str)>,
    key: Seq<char>,
    from: int,
) -> Option<Seq<char>>
    decreases table.len() - from,
{
    if from < 0 || from >= table.len() {
        None
    } else if table[from].0@ == key {
        Some(table[from].1@)
    } else {
        mapped_from(table, key, from + 1)
    }
}

/// The value that `table` gives for `key`.
pub open spec fn mapped(table: Seq<(&'static str, &'static str)>, key: Seq<char>) -> Option<
    Seq<char>,
> {
    mapped_from(table, key, 0)
}

/// The ruleset of an optional language.
pub open spec fn option_ruleset(language: Option<Language>) -> Option<Ruleset> {
    match language {
        Some(l) => Some(l@),
        None => None,
    }
}

fn language_by_chars(name: &[char]) -> (r: Option<Language>)
    ensures
        option_ruleset(r) == language_named(name@),
        r matches Some(language) ==> language@.well_formed(),
{
    let mut i: usize = 0;
    while i < LANGUAGES.len()
        invariant
            i <= LANGUAGES@.len(),
            language_named(name@) == language_named_from(name@, i as int),
        decreases LANGUAGES@.len() - i,
    {
        let row = LANGUAGES[i];
        let row_name = to_chars(row.0);
        if chars_eq(row_name.as_slice(), name) {
            proof {
                lemma_table_well_formed(i as int);
            }
            return Some(language_from_row(&row));
        }
        i += 1;
    }
    None
}

/// The built-in language called `name`.
pub fn get_language(name: &str) -> (r: Option<Language>)
    ensures
        option_ruleset(r) == language_named(name@),
        r matches Some(language) ==> language@.well_formed(),
{
    let chars = to_chars(name);
    language_by_chars(chars.as_slice())
}

/// The built-in language called `name`, whatever the case of its ASCII
/// letters.
pub fn get_language_ignore_case(name: &str) -> (r: Option<Language>)
    ensures
        option_ruleset(r) == language_named_ignore_case(name@),
        r matches Some(language) ==> language@.well_formed(),
{
    let chars = to_chars(name);
    let mut i: usize = 0;
    while i < LANGUAGES.len()
        invariant
            i <= LANGUAGES@.len(),
            chars@ == name@,
            language_named_ignore_case(name@) == language_named_ignore_case_from(name@, i as int),
        decreases LANGUAGES@.len() - i,
    {
        let row = LANGUAGES[i];
        let row_name = to_chars(row.0);
        if chars_eq_ignore_ascii_case(row_name.as_slice(), chars.as_slice()) {
            proof {
                lemma_table_well_formed(i as int);
            }
            return Some(language_from_row(&row));
        }
        i += 1;
    }
    None
}

fn table_lookup(table: &[(&'static str, &'static str)], key: &[char]) -> (r: Option<&'static str>)
    ensures
        r is Some == mapped(table@, key@) is Some,
        r is Some ==> r->0@ == mapped(table@, key@)->0,
{
    let mut i: usize = 0;
    while i < table.len()
        invariant
            i <= table.len(),
            mapped(table@, key@) == mapped_from(table@, key@, i as int),
        decreases table.len() - i,
    {
        let entry = table[i];
        let entry_key = to_chars(entry.0);
        if chars_eq(entry_key.as_slice(), key) {
            return Some(entry.1);
        }
        i += 1;
    }
    None
}

/// Every built-in language with its name, in table order.
pub fn list_languages() -> (r: Vec<(String, Language)>)
    ensures
        r@.len() == LANGUAGES@.len(),
        forall|i: int|
            0 <= i < r@.len() ==> (#[trigger] r@[i]).0@ == LANGUAGES@[i].0@ && r@[i].1@
                == row_ruleset(LANGUAGES@[i]) && r@[i].1@.well_formed(),
{
    let mut r: Vec<(String, Language)> = Vec::new();
    let mut i: usize = 0;
    while i < LANGUAGES.len()
        invariant
            i <= LANGUAGES@.len(),
            r@.len() == i,
            forall|k: int|
                0 <= k < i ==> (#[trigger] r@[k]).0@ == LANGUAGES@[k].0@ && r@[k].1@
                    == row_ruleset(LANGUAGES@[k]) && r@[k].1@.well_formed(),
        decreases LANGUAGES@.len() - i,
    {
        let row = LANGUAGES[i];
        proof {
            lemma_table_well_formed(i as int);
        }
        r.push((String::from_str(row.0), language_from_row(&row)));
        i += 1;
    }
    r
}

/// Every built-in extension with the name of its language, in table order.
pub fn list_extensions() -> (r: Vec<(&'static str, &'static str)>)
    ensures
        r@ == EXTENSION_MAP@,
{
    let mut r: Vec<(&'static str, &'static str)> = Vec::new();
    let mut i: usize = 0;
    while i < EXTENSION_MAP.len()
        invariant
            i <= EXTENSION_MAP@.len(),
            r@ == EXTENSION_MAP@.take(i as int),
        decreases EXTENSION_MAP@.len() - i,
    {
        r.push(EXTENSION_MAP[i]);
        assert(EXTENSION_MAP@.take(i + 1) == EXTENSION_MAP@.take(i as int).push(
            EXTENSION_MAP@[i as int],
        ));
        i += 1;
    }
    assert(EXTENSION_MAP@.take(EXTENSION_MAP@.len() as int) == EXTENSION_MAP@);
    r
}

/// Whether a lower-cased file name marks generated C# code.
pub open spec fn is_generated_csharp(lowered_name: Seq<char>) -> bool {
    ends_with(lowered_name, ".g.cs"@) || ends_with(lowered_name, ".designer.cs"@)
}

/// The language of a file, from its file name and extension, each with its
/// lower-case form. In order: a custom language keyed by the lower-cased
/// extension; the language that the file-name table gives for the full name;
/// generated C# by its double suffix; the language that the extension table
/// gives for the extension as written.
pub open spec fn resolve(
    name: Option<(Seq<char>, Seq<char>)>,
    ext: Option<(Seq<char>, Seq<char>)>,
    custom: CustomRules,
) -> Option<Ruleset> {
    let custom_hit = match ext {
        Some(e) => custom.by_extension(e.1),
        None => None,
    };
    let by_name = match name {
        Some(n) => mapped(FILENAME_MAP@, n.0),
        None => None,
    };
    let generated = match name {
        Some(n) => is_generated_csharp(n.1),
        None => false,
    };
    let by_ext = match ext {
        Some(e) => mapped(EXTENSION_MAP@, e.0),
        None => None,
    };
    if custom_hit is Some {
        custom_hit
    } else if by_name is Some {
        language_named(by_name->0)
    } else if generated {
        language_named("C# Generated"@)
    } else if by_ext is Some {
        language_named(by_ext->0)
    } else {
        None
    }
}

/// Whether the lower-cased extension selects a custom language.
pub open spec fn is_custom(ext: Option<(Seq<char>, Seq<char>)>, custom: CustomRules) -> bool {
    match ext {
        Some(e) => custom.by_extension(e.1) is Some,
        None => false,
    }
}

/// A text paired with its lower-case form.
pub open spec fn with_lowercase(s: Option<Seq<char>>) -> Option<(Seq<char>, Seq<char>)> {
    match s {
        Some(t) => Some((t, unicode_lowercase(t))),
        None => None,
    }
}

/// The language that `path` selects, given the custom languages.
pub open spec fn detect(path: Seq<char>, custom: CustomRules) -> Option<Ruleset> {
    resolve(with_lowercase(file_name_of(path)), with_lowercase(extension_of(path)), custom)
}

/// The views of an optional pair of strings.
pub open spec fn pair_view(p: Option<(&str, &str)>) -> Option<(Seq<char>, Seq<char>)> {
    match p {
        Some((a, b)) => Some((a@, b@)),
        None => None,
    }
}

/// Resolves a language from a file name and an extension, each given with its
/// lower-case form.
pub fn resolve_language(
    name: Option<(&str, &str)>,
    ext: Option<(&str, &str)>,
    custom: &CustomLanguages,
) -> (r: Option<Language>)
    ensures
        option_ruleset(r) == resolve(pair_view(name), pair_view(ext), custom@),
        r is Some <==> selects(pair_view(name), pair_view(ext), custom@),
        r matches Some(language) ==> language@.well_formed() || is_custom(pair_view(ext), custom@),
{
    proof {
        lemma_resolve_finds(pair_view(name), pair_view(ext), custom@);
    }
    if let Some((_, lowered_ext)) = ext {
        let found = custom.get_by_lowered_extension(lowered_ext);
        if found.is_some() {
            return found;
        }
    }
    if let Some((full_name, lowered_name)) = name {
        let name_chars = to_chars(full_name);
        if let Some(language_name) = table_lookup(&FILENAME_MAP, name_chars.as_slice()) {
            return get_language(language_name);
        }
        let lowered = to_chars(lowered_name);
        let short_suffix = to_chars(".g.cs");
        let long_suffix = to_chars(".designer.cs");
        if chars_end_with(lowered.as_slice(), short_suffix.as_slice()) || chars_end_with(
            lowered.as_slice(),
            long_suffix.as_slice(),
        ) {
            return get_language("C# Generated");
        }
    }
    if let Some((extension, _)) = ext {
        let ext_chars = to_chars(extension);
        if let Some(language_name) = table_lookup(&EXTENSION_MAP, ext_chars.as_slice()) {
            return get_language(language_name);
        }
    }
    None
}

/// The language that `path` selects, with custom languages taking precedence
/// over the built-in ones.
pub fn detect_language_with(path: &str, custom: &CustomLanguages) -> (r: Option<Language>)
    ensures
        option_ruleset(r) == detect(path@, custom@),
        r is Some <==> selects(
            with_lowercase(file_name_of(path@)),
            with_lowercase(extension_of(path@)),
            custom@,
        ),
        r matches Some(language) ==> language@.well_formed() || is_custom(
            with_lowercase(extension_of(path@)),
            custom@,
        ),
{
    let p = to_chars(path);
    let name: Option<String> = match chars_file_name(p.as_slice()) {
        Some((start, end)) => {
            let part = chars_slice(p.as_slice(), start, end);
            Some(string_from_chars(part.as_slice()))
        },
        None => None,
    };
    let ext: Option<String> = match chars_extension(p.as_slice()) {
        Some((start, end)) => {
            let part = chars_slice(p.as_slice(), start, end);
            Some(string_from_chars(part.as_slice()))
        },
        None => None,
    };
    let lowered_name: Option<String> = match &name {
        Some(n) => Some(lowercase(n.as_str())),
        None => None,
    };
    let lowered_ext: Option<String> = match &ext {
        Some(e) => Some(lowercase(e.as_str())),
        None => None,
    };
    let name_pair: Option<(&str, &str)> = match (&name, &lowered_name) {
        (Some(n), Some(l)) => Some((n.as_str(), l.as_str())),
        _ => None,
    };
    let ext_pair: Option<(&str, &str)> = match (&ext, &lowered_ext) {
        (Some(e), Some(l)) => Some((e.as_str(), l.as_str())),
        _ => None,
    };
    resolve_language(name_pair, ext_pair, custom)
}

/// The built-in language that `path` selects.
pub fn detect_language(path: &str) -> (r: Option<Language>)
    ensures
        option_ruleset(r) == detect(path@, CustomRules::empty()),
        r is Some <==> selects(
            with_lowercase(file_name_of(path@)),
            with_lowercase(extension_of(path@)),
            CustomRules::empty(),
        ),
        r matches Some(language) ==> language@.well_formed(),
{
    let custom = CustomLanguages::new();
    detect_language_with(path, &custom)
}

/// A name that a row of the language table bears is the name of a language.
pub proof fn lemma_named_row(name: Seq<char>, k: int, from: int)
    requires
        0 <= from <= k < LANGUAGES@.len(),
        LANGUAGES@[k].0@ == name,
    ensures
        language_named_from(name, from) is Some,
    decreases k - from,
{
    if LANGUAGES@[from].0@ != name {
        lemma_named_row(name, k, from + 1);
    }
}

/// Whether a name is borne by a row of the language table.
pub open spec fn is_row_name(name: &'static str) -> bool {
    exists|k: int| 0 <= k < LANGUAGES@.len() && (#[trigger] LANGUAGES@[k]).0 == name
}

/// Every name that the extension table or the file-name table gives, and the
/// name of generated C#, is borne by a row of the language table.
#[verifier::rlimit(100)]
proof fn lemma_targets()
    ensures
        forall|i: int| 0 <= i < EXTENSION_MAP@.len() ==> is_row_name((#[trigger] EXTENSION_MAP@[i]).1),
        forall|i: int| 0 <= i < FILENAME_MAP@.len() ==> is_row_name((#[trigger] FILENAME_MAP@[i]).1),
        is_row_name("C# Generated"),
{
    assert(LANGUAGES@[0].0 == "ARM Assembly");
    assert(LANGUAGES@[1].0 == "AXAML");
    assert(LANGUAGES@[2].0 == "ActionScript");
    assert(LANGUAGES@[3].0 == "Ada");
    assert(LANGUAGES@[4].0 == "Aria");
    assert(LANGUAGES@[5].0 == "AsciiDoc");
    assert(LANGUAGES@[6].0 == "Assembly");
    assert(LANGUAGES@[7].0 == "Awk");
    assert(LANGUAGES@[8].0 == "Bash");
    assert(LANGUAGES@[9].0 == "Batch");
    assert(LANGUAGES@[10].0 == "Bazel");
    assert(LANGUAGES@[11].0 == "Bicep");
    assert(LANGUAGES@[12].0 == "BitBake");
    assert(LANGUAGES@[13].0 == "C");
    assert(LANGUAGES@[14].0 == "C Header");
    assert(LANGUAGES@[15].0 == "C#");
    assert(LANGUAGES@[16].0 == "C# Generated");
    assert(LANGUAGES@[17].0 == "C++");
    assert(LANGUAGES@[18].0 == "C++ Header");
    assert(LANGUAGES@[19].0 == "CMake");
    assert(LANGUAGES@[20].0 == "COBOL");
    assert(LANGUAGES@[21].0 == "CSS");
    assert(LANGUAGES@[22].0 == "CUE");
    assert(LANGUAGES@[23].0 == "Cap'n Proto");
    assert(LANGUAGES@[24].0 == "Civet");
    assert(LANGUAGES@[25].0 == "Clarity");
    assert(LANGUAGES@[26].0 == "Clojure");
    assert(LANGUAGES@[27].0 == "CoffeeScript");
    assert(LANGUAGES@[28].0 == "Crystal");
    assert(LANGUAGES@[29].0 == "D");
    assert(LANGUAGES@[30].0 == "Dart");
    assert(LANGUAGES@[31].0 == "Delphi");
    assert(LANGUAGES@[32].0 == "Dhall");
    assert(LANGUAGES@[33].0 == "Docker Compose");
    assert(LANGUAGES@[34].0 == "Dockerfile");
    assert(LANGUAGES@[35].0 == "EJS");
    assert(LANGUAGES@[36].0 == "ERB");
    assert(LANGUAGES@[37].0 == "Elixir");
    assert(LANGUAGES@[38].0 == "Elm");
    assert(LANGUAGES@[39].0 == "Emacs Lisp");
    assert(LANGUAGES@[40].0 == "Erlang");
    assert(LANGUAGES@[41].0 == "F#");
    assert(LANGUAGES@[42].0 == "Fish");
    assert(LANGUAGES@[43].0 == "FlatBuffers");
    assert(LANGUAGES@[44].0 == "Forth");
    assert(LANGUAGES@[45].0 == "Fortran");
    assert(LANGUAGES@[46].0 == "Gleam");
    assert(LANGUAGES@[47].0 == "Go");
    assert(LANGUAGES@[48].0 == "Grain");
    assert(LANGUAGES@[49].0 == "GraphQL");
    assert(LANGUAGES@[50].0 == "Groovy");
    assert(LANGUAGES@[51].0 == "HCL");
    assert(LANGUAGES@[52].0 == "HTML");
    assert(LANGUAGES@[53].0 == "Handlebars");
    assert(LANGUAGES@[54].0 == "Haskell");
    assert(LANGUAGES@[55].0 == "INI");
    assert(LANGUAGES@[56].0 == "InstallShield");
    assert(LANGUAGES@[57].0 == "JSON");
    assert(LANGUAGES@[58].0 == "JSON5");
    assert(LANGUAGES@[59].0 == "JSX");
    assert(LANGUAGES@[60].0 == "Java");
    assert(LANGUAGES@[61].0 == "JavaScript");
    assert(LANGUAGES@[62].0 == "Jinja2");
    assert(LANGUAGES@[63].0 == "Jsonnet");
    assert(LANGUAGES@[64].0 == "Julia");
    assert(LANGUAGES@[65].0 == "Just");
    assert(LANGUAGES@[66].0 == "KDL");
    assert(LANGUAGES@[67].0 == "Kotlin");
    assert(LANGUAGES@[68].0 == "LaTeX");
    assert(LANGUAGES@[69].0 == "Less");
    assert(LANGUAGES@[70].0 == "Lisp");
    assert(LANGUAGES@[71].0 == "Lua");
    assert(LANGUAGES@[72].0 == "MATLAB");
    assert(LANGUAGES@[73].0 == "MSBuild");
    assert(LANGUAGES@[74].0 == "Magik");
    assert(LANGUAGES@[75].0 == "Makefile");
    assert(LANGUAGES@[76].0 == "Markdown");
    assert(LANGUAGES@[77].0 == "Meson");
    assert(LANGUAGES@[78].0 == "Move");
    assert(LANGUAGES@[79].0 == "Nim");
    assert(LANGUAGES@[80].0 == "Nix");
    assert(LANGUAGES@[81].0 == "OCaml");
    assert(LANGUAGES@[82].0 == "Objective-C");
    assert(LANGUAGES@[83].0 == "Objective-C++");
    assert(LANGUAGES@[84].0 == "Octave");
    assert(LANGUAGES@[85].0 == "Odin");
    assert(LANGUAGES@[86].0 == "Org");
    assert(LANGUAGES@[87].0 == "PHP");
    assert(LANGUAGES@[88].0 == "Pascal");
    assert(LANGUAGES@[89].0 == "Perl");
    assert(LANGUAGES@[90].0 == "PowerShell");
    assert(LANGUAGES@[91].0 == "Prolog");
    assert(LANGUAGES@[92].0 == "Properties");
    assert(LANGUAGES@[93].0 == "Protocol Buffers");
    assert(LANGUAGES@[94].0 == "Python");
    assert(LANGUAGES@[95].0 == "R");
    assert(LANGUAGES@[96].0 == "Racket");
    assert(LANGUAGES@[97].0 == "Rego");
    assert(LANGUAGES@[98].0 == "Roc");
    assert(LANGUAGES@[99].0 == "Ruby");
    assert(LANGUAGES@[100].0 == "Rust");
    assert(LANGUAGES@[101].0 == "SCSS");
    assert(LANGUAGES@[102].0 == "SQL");
    assert(LANGUAGES@[103].0 == "SVG");
    assert(LANGUAGES@[104].0 == "Sass");
    assert(LANGUAGES@[105].0 == "Scala");
    assert(LANGUAGES@[106].0 == "Scheme");
    assert(LANGUAGES@[107].0 == "Shell");
    assert(LANGUAGES@[108].0 == "Solidity");
    assert(LANGUAGES@[109].0 == "Standard ML");
    assert(LANGUAGES@[110].0 == "Svelte");
    assert(LANGUAGES@[111].0 == "Swift");
    assert(LANGUAGES@[112].0 == "SystemVerilog");
    assert(LANGUAGES@[113].0 == "TOML");
    assert(LANGUAGES@[114].0 == "TSX");
    assert(LANGUAGES@[115].0 == "Tcl");
    assert(LANGUAGES@[116].0 == "TeX");
    assert(LANGUAGES@[117].0 == "Terraform");
    assert(LANGUAGES@[118].0 == "Text");
    assert(LANGUAGES@[119].0 == "Thrift");
    assert(LANGUAGES@[120].0 == "TypeScript");
    assert(LANGUAGES@[121].0 == "USS");
    assert(LANGUAGES@[122].0 == "UXML");
    assert(LANGUAGES@[123].0 == "V");
    assert(LANGUAGES@[124].0 == "VHDL");
    assert(LANGUAGES@[125].0 == "VSCode Workspace");
    assert(LANGUAGES@[126].0 == "Verilog");
    assert(LANGUAGES@[127].0 == "Vim Script");
    assert(LANGUAGES@[128].0 == "Visual Basic");
    assert(LANGUAGES@[129].0 == "Visual Studio Solution");
    assert(LANGUAGES@[130].0 == "Vue");
    assert(LANGUAGES@[131].0 == "Vyper");
    assert(LANGUAGES@[132].0 == "WebAssembly");
    assert(LANGUAGES@[133].0 == "Windows Module Definition");
    assert(LANGUAGES@[134].0 == "Windows Resource");
    assert(LANGUAGES@[135].0 == "XML");
    assert(LANGUAGES@[136].0 == "XSD");
    assert(LANGUAGES@[137].0 == "YAML");
    assert(LANGUAGES@[138].0 == "Yarn");
    assert(LANGUAGES@[139].0 == "Zig");
    assert(LANGUAGES@[140].0 == "Zsh");
    assert(LANGUAGES@[141].0 == "reStructuredText");
}

/// What a table gives for a key is the value of one of its entries.
pub proof fn lemma_mapped_entry(table: Seq<(&'static str, &'static str)>, key: Seq<char>, from: int)
    requires
        0 <= from,
        mapped_from(table, key, from) is Some,
    ensures
        exists|i: int|
            from <= i < table.len() && (#[trigger] table[i]).0@ == key && mapped_from(
                table,
                key,
                from,
            ) == Some(table[i].1@),
    decreases table.len() - from,
{
    if from < table.len() && table[from].0@ != key {
        lemma_mapped_entry(table, key, from + 1);
        let i = choose|i: int|
            from + 1 <= i < table.len() && (#[trigger] table[i]).0@ == key && mapped_from(
                table,
                key,
                from + 1,
            ) == Some(table[i].1@);
        assert(table[i].0@ == key);
    } else {
        assert(table[from].0@ == key);
    }
}

/// Every mapping of the registry names a built-in language: what the
/// extension table or the file-name table gives for a key is the name of a
/// language, and so is the name of generated C#.
pub proof fn lemma_mappings_name_languages(key: Seq<char>)
    ensures
        mapped(EXTENSION_MAP@, key) matches Some(name) ==> language_named(name) is Some,
        mapped(FILENAME_MAP@, key) matches Some(name) ==> language_named(name) is Some,
        language_named("C# Generated"@) is Some,
{
    lemma_targets();
    if mapped(EXTENSION_MAP@, key) is Some {
        lemma_mapped_entry(EXTENSION_MAP@, key, 0);
        let i = choose|i: int|
            0 <= i < EXTENSION_MAP@.len() && (#[trigger] EXTENSION_MAP@[i]).0@ == key && mapped_from(
                EXTENSION_MAP@,
                key,
                0,
            ) == Some(EXTENSION_MAP@[i].1@);
        assert(is_row_name(EXTENSION_MAP@[i].1));
        let k = choose|k: int|
            0 <= k < LANGUAGES@.len() && (#[trigger] LANGUAGES@[k]).0 == EXTENSION_MAP@[i].1;
        lemma_named_row(EXTENSION_MAP@[i].1@, k, 0);
    }
    if mapped(FILENAME_MAP@, key) is Some {
        lemma_mapped_entry(FILENAME_MAP@, key, 0);
        let i = choose|i: int|
            0 <= i < FILENAME_MAP@.len() && (#[trigger] FILENAME_MAP@[i]).0@ == key && mapped_from(
                FILENAME_MAP@,
                key,
                0,
            ) == Some(FILENAME_MAP@[i].1@);
        assert(is_row_name(FILENAME_MAP@[i].1));
        let k = choose|k: int|
            0 <= k < LANGUAGES@.len() && (#[trigger] LANGUAGES@[k]).0 == FILENAME_MAP@[i].1;
        lemma_named_row(FILENAME_MAP@[i].1@, k, 0);
    }
    let k = choose|k: int| 0 <= k < LANGUAGES@.len() && (#[trigger] LANGUAGES@[k]).0 == "C# Generated";
    lemma_named_row("C# Generated"@, k, 0);
}

/// Whether a file name and an extension select a language: the lower-cased
/// extension selects a custom one, or the file-name table knows the name, or
/// the name marks generated C#, or the extension table knows the extension.
pub open spec fn selects(
    name: Option<(Seq<char>, Seq<char>)>,
    ext: Option<(Seq<char>, Seq<char>)>,
    custom: CustomRules,
) -> bool {
    ||| is_custom(ext, custom)
    ||| name matches Some(n) && (mapped(FILENAME_MAP@, n.0) is Some || is_generated_csharp(n.1))
    ||| ext matches Some(e) && mapped(EXTENSION_MAP@, e.0) is Some
}

/// A language is found exactly for what selects one.
pub proof fn lemma_resolve_finds(
    name: Option<(Seq<char>, Seq<char>)>,
    ext: Option<(Seq<char>, Seq<char>)>,
    custom: CustomRules,
)
    ensures
        resolve(name, ext, custom) is Some <==> selects(name, ext, custom),
{
    if let Some(n) = name {
        lemma_mappings_name_languages(n.0);
    }
    if let Some(e) = ext {
        lemma_mappings_name_languages(e.0);
    }
    lemma_mappings_name_languages(Seq::empty());
}

/// Whether a token slot is unused or holds a token without a newline.
pub open spec fn plain_slot(slot: &'static str) -> bool {
    slot@.len() == 0 || !slot@.contains('\n')
}

/// What `present` keeps are the tokens of the slots that are in use.
pub proof fn lemma_present_members(slots: Seq<&'static str>, k: int)
    requires
        0 <= k < present(slots).len(),
    ensures
        exists|j: int|
            0 <= j < slots.len() && (#[trigger] slots[j])@.len() > 0 && present(slots)[k]
                == slots[j]@,
    decreases slots.len(),
{
    if slots.len() > 0 {
        let before = present(slots.drop_last());
        if k < before.len() {
            lemma_present_members(slots.drop_last(), k);
            let j = choose|j: int|
                0 <= j < slots.drop_last().len() && (#[trigger] slots.drop_last()[j])@.len() > 0
                    && before[k] == slots.drop_last()[j]@;
            assert(slots[j] == slots.drop_last()[j]);
        } else {
            assert(slots[slots.len() - 1] == slots.last());
        }
    }
}

/// The line-comment slots of the table hold no newline, and a language whose
/// comments nest has a block-comment opening token.
proof fn lemma_table_slots()
    ensures
        forall|i: int, j: int|
            0 <= i < LANGUAGES@.len() && 0 <= j < 4 ==> plain_slot(
                #[trigger] (#[trigger] LANGUAGES@[i]).1@[j],
            ),
        forall|i: int|
            0 <= i < LANGUAGES@.len() && (#[trigger] LANGUAGES@[i]).3 ==> LANGUAGES@[i].2@[0]@.len()
                > 0,
{
    reveal_strlit("");
    reveal_strlit("!");
    reveal_strlit("\"");
    reveal_strlit("#");
    reveal_strlit("%");
    reveal_strlit("'");
    reveal_strlit("*");
    reveal_strlit("--");
    reveal_strlit("..");
    reveal_strlit("//");
    reveal_strlit("::");
    reveal_strlit(";");
    reveal_strlit(";;");
    reveal_strlit("@");
    reveal_strlit("C");
    reveal_strlit("REM");
    reveal_strlit("\\");
    reveal_strlit("c");
    reveal_strlit("rem");
    reveal_strlit("#[");
    reveal_strlit("#|");
    reveal_strlit("(*");
    reveal_strlit("(;");
    reveal_strlit("/*");
    reveal_strlit("{-");
    assert(!"!"@.contains('\n'));
    assert(!"\""@.contains('\n'));
    assert(!"#"@.contains('\n'));
    assert(!"%"@.contains('\n'));
    assert(!"'"@.contains('\n'));
    assert(!"*"@.contains('\n'));
    assert(!"--"@.contains('\n'));
    assert(!".."@.contains('\n'));
    assert(!"//"@.contains('\n'));
    assert(!"::"@.contains('\n'));
    assert(!";"@.contains('\n'));
    assert(!";;"@.contains('\n'));
    assert(!"@"@.contains('\n'));
    assert(!"C"@.contains('\n'));
    assert(!"REM"@.contains('\n'));
    assert(!"\\"@.contains('\n'));
    assert(!"c"@.contains('\n'));
    assert(!"rem"@.contains('\n'));
}

/// Every built-in language keeps the invariants of a ruleset: nesting comes
/// with both block tokens, and no line-comment token is empty or holds a
/// newline.
pub proof fn lemma_table_well_formed(i: int)
    requires
        0 <= i < LANGUAGES@.len(),
    ensures
        row_ruleset(LANGUAGES@[i]).well_formed(),
{
    lemma_table_slots();
    let row = LANGUAGES@[i];
    let rules = row_ruleset(row);
    assert forall|k: int| 0 <= k < rules.line_comments.len() implies (
    #[trigger] rules.line_comments[k]).len() > 0 && !rules.line_comments[k].contains('\n') by {
        lemma_present_members(row.1@, k);
        let j = choose|j: int|
            0 <= j < row.1@.len() && (#[trigger] row.1@[j])@.len() > 0 && present(row.1@)[k]
                == row.1@[j]@;
        assert(plain_slot(LANGUAGES@[i].1@[j]));
    }
}

/// The names of the built-in languages, in table order.
pub open spec fn language_names() -> Seq<Seq<char>> {
    Seq::new(LANGUAGES@.len(), |i: int| LANGUAGES@[i].0@)
}

/// The keys of a table of pairs, in table order.
pub open spec fn table_keys(table: Seq<(&'static str, &'static str)>) -> Seq<Seq<char>> {
    Seq::new(table.len(), |i: int| table[i].0@)
}

/// The language table stands by rising name, so that the display names of
/// the built-in languages are all different.
#[verifier::rlimit(100)]
pub proof fn lemma_language_names_rise()
    ensures
        rising(language_names()),
{
    assert forall|i: int| 0 <= i < LANGUAGES@.len() - 1 implies lex_less(
        (#[trigger] LANGUAGES@[i]).0@,
        LANGUAGES@[i + 1].0@,
    ) by {
        lemma_names_rise(i);
    }
    assert forall|i: int| 0 <= i < language_names().len() - 1 implies lex_less(
        #[trigger] language_names()[i],
        language_names()[i + 1],
    ) by {
        assert(lex_less(LANGUAGES@[i].0@, LANGUAGES@[i + 1].0@));
    }
}

#[verifier::rlimit(100)]
proof fn lemma_names_rise(i: int)
    requires
        0 <= i < LANGUAGES@.len() - 1,
    ensures
        lex_less(LANGUAGES@[i].0@, LANGUAGES@[i + 1].0@),
{
    reveal_with_fuel(lex_less, 16);
    reveal_strlit("ARM Assembly");
    reveal_strlit("AXAML");
    reveal_strlit("ActionScript");
    reveal_strlit("Ada");
    reveal_strlit("Aria");
    reveal_strlit("AsciiDoc");
    reveal_strlit("Assembly");
    reveal_strlit("Awk");
    reveal_strlit("Bash");
    reveal_strlit("Batch");
    reveal_strlit("Bazel");
    reveal_strlit("Bicep");
    reveal_strlit("BitBake");
    reveal_strlit("C");
    reveal_strlit("C Header");
    reveal_strlit("C#");
    reveal_strlit("C# Generated");
    reveal_strlit("C++");
    reveal_strlit("C++ Header");
    reveal_strlit("CMake");
    reveal_strlit("COBOL");
    reveal_strlit("CSS");
    reveal_strlit("CUE");
    reveal_strlit("Cap'n Proto");
    reveal_strlit("Civet");
    reveal_strlit("Clarity");
    reveal_strlit("Clojure");
    reveal_strlit("CoffeeScript");
    reveal_strlit("Crystal");
    reveal_strlit("D");
    reveal_strlit("Dart");
    reveal_strlit("Delphi");
    reveal_strlit("Dhall");
    reveal_strlit("Docker Compose");
    reveal_strlit("Dockerfile");
    reveal_strlit("EJS");
    reveal_strlit("ERB");
    reveal_strlit("Elixir");
    reveal_strlit("Elm");
    reveal_strlit("Emacs Lisp");
    reveal_strlit("Erlang");
    reveal_strlit("F#");
    reveal_strlit("Fish");
    reveal_strlit("FlatBuffers");
    reveal_strlit("Forth");
    reveal_strlit("Fortran");
    reveal_strlit("Gleam");
    reveal_strlit("Go");
    reveal_strlit("Grain");
    reveal_strlit("GraphQL");
    reveal_strlit("Groovy");
    reveal_strlit("HCL");
    reveal_strlit("HTML");
    reveal_strlit("Handlebars");
    reveal_strlit("Haskell");
    reveal_strlit("INI");
    reveal_strlit("InstallShield");
    reveal_strlit("JSON");
    reveal_strlit("JSON5");
    reveal_strlit("JSX");
    reveal_strlit("Java");
    reveal_strlit("JavaScript");
    reveal_strlit("Jinja2");
    reveal_strlit("Jsonnet");
    reveal_strlit("Julia");
    reveal_strlit("Just");
    reveal_strlit("KDL");
    reveal_strlit("Kotlin");
    reveal_strlit("LaTeX");
    reveal_strlit("Less");
    reveal_strlit("Lisp");
    reveal_strlit("Lua");
    reveal_strlit("MATLAB");
    reveal_strlit("MSBuild");
    reveal_strlit("Magik");
    reveal_strlit("Makefile");
    reveal_strlit("Markdown");
    reveal_strlit("Meson");
    reveal_strlit("Move");
    reveal_strlit("Nim");
    reveal_strlit("Nix");
    reveal_strlit("OCaml");
    reveal_strlit("Objective-C");
    reveal_strlit("Objective-C++");
    reveal_strlit("Octave");
    reveal_strlit("Odin");
    reveal_strlit("Org");
    reveal_strlit("PHP");
    reveal_strlit("Pascal");
    reveal_strlit("Perl");
    reveal_strlit("PowerShell");
    reveal_strlit("Prolog");
    reveal_strlit("Properties");
    reveal_strlit("Protocol Buffers");
    reveal_strlit("Python");
    reveal_strlit("R");
    reveal_strlit("Racket");
    reveal_strlit("Rego");
    reveal_strlit("Roc");
    reveal_strlit("Ruby");
    reveal_strlit("Rust");
    reveal_strlit("SCSS");
    reveal_strlit("SQL");
    reveal_strlit("SVG");
    reveal_strlit("Sass");
    reveal_strlit("Scala");
    reveal_strlit("Scheme");
    reveal_strlit("Shell");
    reveal_strlit("Solidity");
    reveal_strlit("Standard ML");
    reveal_strlit("Svelte");
    reveal_strlit("Swift");
    reveal_strlit("SystemVerilog");
    reveal_strlit("TOML");
    reveal_strlit("TSX");
    reveal_strlit("Tcl");
    reveal_strlit("TeX");
    reveal_strlit("Terraform");
    reveal_strlit("Text");
    reveal_strlit("Thrift");
    reveal_strlit("TypeScript");
    reveal_strlit("USS");
    reveal_strlit("UXML");
    reveal_strlit("V");
    reveal_strlit("VHDL");
    reveal_strlit("VSCode Workspace");
    reveal_strlit("Verilog");
    reveal_strlit("Vim Script");
    reveal_strlit("Visual Basic");
    reveal_strlit("Visual Studio Solution");
    reveal_strlit("Vue");
    reveal_strlit("Vyper");
    reveal_strlit("WebAssembly");
    reveal_strlit("Windows Module Definition");
    reveal_strlit("Windows Resource");
    reveal_strlit("XML");
    reveal_strlit("XSD");
    reveal_strlit("YAML");
    reveal_strlit("Yarn");
    reveal_strlit("Zig");
    reveal_strlit("Zsh");
    reveal_strlit("reStructuredText");
}

/// The extension table stands by rising extension, so that no extension is
/// mapped twice.
#[verifier::rlimit(100)]
pub proof fn lemma_extension_keys_rise()
    ensures
        rising(table_keys(EXTENSION_MAP@)),
{
    assert forall|i: int| 0 <= i < EXTENSION_MAP@.len() - 1 implies lex_less(
        (#[trigger] EXTENSION_MAP@[i]).0@,
        EXTENSION_MAP@[i + 1].0@,
    ) by {
        lemma_extensions_rise(i);
    }
    let keys = table_keys(EXTENSION_MAP@);
    assert forall|i: int| 0 <= i < keys.len() - 1 implies lex_less(#[trigger] keys[i], keys[i + 1]) by {
        assert(lex_less(EXTENSION_MAP@[i].0@, EXTENSION_MAP@[i + 1].0@));
    }
}

#[verifier::rlimit(100)]
proof fn lemma_extensions_rise(i: int)
    requires
        0 <= i < EXTENSION_MAP@.len() - 1,
    ensures
        lex_less(EXTENSION_MAP@[i].0@, EXTENSION_MAP@[i + 1].0@),
{
    reveal_with_fuel(lex_less, 8);
    reveal_strlit("4th");
    reveal_strlit("Dsr");
    reveal_strlit("P");
    reveal_strlit("R");
    reveal_strlit("S");
    reveal_strlit("ada");
    reveal_strlit("adb");
    reveal_strlit("adoc");
    reveal_strlit("ads");
    reveal_strlit("aria");
    reveal_strlit("as");
    reveal_strlit("asciidoc");
    reveal_strlit("asm");
    reveal_strlit("awk");
    reveal_strlit("axaml");
    reveal_strlit("bash");
    reveal_strlit("bat");
    reveal_strlit("bb");
    reveal_strlit("bbappend");
    reveal_strlit("bbclass");
    reveal_strlit("bib");
    reveal_strlit("bicep");
    reveal_strlit("bicepparam");
    reveal_strlit("bzl");
    reveal_strlit("c");
    reveal_strlit("c++");
    reveal_strlit("capnp");
    reveal_strlit("cbl");
    reveal_strlit("cc");
    reveal_strlit("cfg");
    reveal_strlit("civet");
    reveal_strlit("cjs");
    reveal_strlit("cl");
    reveal_strlit("clar");
    reveal_strlit("clj");
    reveal_strlit("cljc");
    reveal_strlit("cljs");
    reveal_strlit("cls");
    reveal_strlit("cmake");
    reveal_strlit("cmd");
    reveal_strlit("cob");
    reveal_strlit("code-workspace");
    reveal_strlit("coffee");
    reveal_strlit("conf");
    reveal_strlit("cpp");
    reveal_strlit("cpy");
    reveal_strlit("cr");
    reveal_strlit("cs");
    reveal_strlit("csproj");
    reveal_strlit("css");
    reveal_strlit("csx");
    reveal_strlit("cts");
    reveal_strlit("cue");
    reveal_strlit("cxx");
    reveal_strlit("d");
    reveal_strlit("dart");
    reveal_strlit("def");
    reveal_strlit("dhall");
    reveal_strlit("di");
    reveal_strlit("dockerfile");
    reveal_strlit("dpk");
    reveal_strlit("dpr");
    reveal_strlit("dtd");
    reveal_strlit("edn");
    reveal_strlit("ejs");
    reveal_strlit("el");
    reveal_strlit("elc");
    reveal_strlit("elm");
    reveal_strlit("erb");
    reveal_strlit("erl");
    reveal_strlit("ex");
    reveal_strlit("exs");
    reveal_strlit("f");
    reveal_strlit("f03");
    reveal_strlit("f08");
    reveal_strlit("f77");
    reveal_strlit("f90");
    reveal_strlit("f95");
    reveal_strlit("fbs");
    reveal_strlit("fish");
    reveal_strlit("for");
    reveal_strlit("forth");
    reveal_strlit("fs");
    reveal_strlit("fsi");
    reveal_strlit("fsproj");
    reveal_strlit("fsscript");
    reveal_strlit("fsx");
    reveal_strlit("fth");
    reveal_strlit("fun");
    reveal_strlit("gawk");
    reveal_strlit("gemspec");
    reveal_strlit("gleam");
    reveal_strlit("go");
    reveal_strlit("gql");
    reveal_strlit("gr");
    reveal_strlit("gradle");
    reveal_strlit("graphql");
    reveal_strlit("groovy");
    reveal_strlit("gvy");
    reveal_strlit("gy");
    reveal_strlit("h");
    reveal_strlit("h++");
    reveal_strlit("handlebars");
    reveal_strlit("hbs");
    reveal_strlit("hcl");
    reveal_strlit("heex");
    reveal_strlit("hh");
    reveal_strlit("hpp");
    reveal_strlit("hrl");
    reveal_strlit("hs");
    reveal_strlit("htm");
    reveal_strlit("html");
    reveal_strlit("hxx");
    reveal_strlit("ini");
    reveal_strlit("inl");
    reveal_strlit("ipp");
    reveal_strlit("ism");
    reveal_strlit("iss");
    reveal_strlit("j2");
    reveal_strlit("java");
    reveal_strlit("jinja");
    reveal_strlit("jinja2");
    reveal_strlit("jl");
    reveal_strlit("js");
    reveal_strlit("json");
    reveal_strlit("json5");
    reveal_strlit("jsonnet");
    reveal_strlit("jsx");
    reveal_strlit("just");
    reveal_strlit("kdl");
    reveal_strlit("kt");
    reveal_strlit("kts");
    reveal_strlit("latex");
    reveal_strlit("leex");
    reveal_strlit("less");
    reveal_strlit("lhs");
    reveal_strlit("libsonnet");
    reveal_strlit("lisp");
    reveal_strlit("lsp");
    reveal_strlit("lua");
    reveal_strlit("m");
    reveal_strlit("magik");
    reveal_strlit("markdown");
    reveal_strlit("mat");
    reveal_strlit("md");
    reveal_strlit("meson");
    reveal_strlit("mjs");
    reveal_strlit("mk");
    reveal_strlit("ml");
    reveal_strlit("mli");
    reveal_strlit("mm");
    reveal_strlit("move");
    reveal_strlit("mts");
    reveal_strlit("mysql");
    reveal_strlit("nim");
    reveal_strlit("nimble");
    reveal_strlit("nims");
    reveal_strlit("nix");
    reveal_strlit("odin");
    reveal_strlit("org");
    reveal_strlit("pas");
    reveal_strlit("pgsql");
    reveal_strlit("php");
    reveal_strlit("php3");
    reveal_strlit("php4");
    reveal_strlit("php5");
    reveal_strlit("php7");
    reveal_strlit("phtml");
    reveal_strlit("pl");
    reveal_strlit("plsql");
    reveal_strlit("pm");
    reveal_strlit("pod");
    reveal_strlit("pp");
    reveal_strlit("pro");
    reveal_strlit("properties");
    reveal_strlit("props");
    reveal_strlit("proto");
    reveal_strlit("ps1");
    reveal_strlit("psd1");
    reveal_strlit("psm1");
    reveal_strlit("pxd");
    reveal_strlit("py");
    reveal_strlit("pyi");
    reveal_strlit("pyw");
    reveal_strlit("pyx");
    reveal_strlit("r");
    reveal_strlit("rake");
    reveal_strlit("rb");
    reveal_strlit("rc");
    reveal_strlit("rc2");
    reveal_strlit("rego");
    reveal_strlit("rkt");
    reveal_strlit("roc");
    reveal_strlit("rs");
    reveal_strlit("rst");
    reveal_strlit("s");
    reveal_strlit("sass");
    reveal_strlit("sc");
    reveal_strlit("scala");
    reveal_strlit("scm");
    reveal_strlit("scss");
    reveal_strlit("sh");
    reveal_strlit("sig");
    reveal_strlit("sln");
    reveal_strlit("sml");
    reveal_strlit("sol");
    reveal_strlit("sql");
    reveal_strlit("ss");
    reveal_strlit("sty");
    reveal_strlit("sv");
    reveal_strlit("svelte");
    reveal_strlit("svg");
    reveal_strlit("svh");
    reveal_strlit("swift");
    reveal_strlit("t");
    reveal_strlit("targets");
    reveal_strlit("tcl");
    reveal_strlit("tex");
    reveal_strlit("tf");
    reveal_strlit("tfvars");
    reveal_strlit("thrift");
    reveal_strlit("tk");
    reveal_strlit("toml");
    reveal_strlit("ts");
    reveal_strlit("tsx");
    reveal_strlit("txt");
    reveal_strlit("uss");
    reveal_strlit("uxml");
    reveal_strlit("v");
    reveal_strlit("vb");
    reveal_strlit("vbproj");
    reveal_strlit("vbs");
    reveal_strlit("vcxproj");
    reveal_strlit("vhd");
    reveal_strlit("vhdl");
    reveal_strlit("vim");
    reveal_strlit("vimrc");
    reveal_strlit("vue");
    reveal_strlit("vv");
    reveal_strlit("vy");
    reveal_strlit("wast");
    reveal_strlit("wat");
    reveal_strlit("xhtml");
    reveal_strlit("xml");
    reveal_strlit("xsd");
    reveal_strlit("xsl");
    reveal_strlit("xslt");
    reveal_strlit("yaml");
    reveal_strlit("yml");
    reveal_strlit("zig");
    reveal_strlit("zsh");
}

/// The file-name table stands by rising file name, so that no file name is
/// mapped twice.
#[verifier::rlimit(100)]
pub proof fn lemma_file_name_keys_rise()
    ensures
        rising(table_keys(FILENAME_MAP@)),
{
    assert forall|i: int| 0 <= i < FILENAME_MAP@.len() - 1 implies lex_less(
        (#[trigger] FILENAME_MAP@[i]).0@,
        FILENAME_MAP@[i + 1].0@,
    ) by {
        lemma_file_names_rise(i);
    }
    let keys = table_keys(FILENAME_MAP@);
    assert forall|i: int| 0 <= i < keys.len() - 1 implies lex_less(#[trigger] keys[i], keys[i + 1]) by {
        assert(lex_less(FILENAME_MAP@[i].0@, FILENAME_MAP@[i + 1].0@));
    }
}

#[verifier::rlimit(100)]
proof fn lemma_file_names_rise(i: int)
    requires
        0 <= i < FILENAME_MAP@.len() - 1,
    ensures
        lex_less(FILENAME_MAP@[i].0@, FILENAME_MAP@[i + 1].0@),
{
    reveal_with_fuel(lex_less, 20);
    reveal_strlit(".bash_aliases");
    reveal_strlit(".bash_profile");
    reveal_strlit(".bashrc");
    reveal_strlit(".emacs");
    reveal_strlit(".eslintrc");
    reveal_strlit(".gvimrc");
    reveal_strlit(".justfile");
    reveal_strlit(".prettierrc");
    reveal_strlit(".profile");
    reveal_strlit(".vimrc");
    reveal_strlit(".zprofile");
    reveal_strlit(".zshenv");
    reveal_strlit(".zshrc");
    reveal_strlit("Appfile");
    reveal_strlit("BUILD");
    reveal_strlit("BUILD.bazel");
    reveal_strlit("Berksfile");
    reveal_strlit("CMakeLists.txt");
    reveal_strlit("Cargo.lock");
    reveal_strlit("Cargo.toml");
    reveal_strlit("Containerfile");
    reveal_strlit("Dangerfile");
    reveal_strlit("Dockerfile");
    reveal_strlit("Fastfile");
    reveal_strlit("GNUmakefile");
    reveal_strlit("Gemfile");
    reveal_strlit("Guardfile");
    reveal_strlit("Justfile");
    reveal_strlit("Makefile");
    reveal_strlit("Podfile");
    reveal_strlit("Rakefile");
    reveal_strlit("Vagrantfile");
    reveal_strlit("WORKSPACE");
    reveal_strlit("WORKSPACE.bazel");
    reveal_strlit("_vimrc");
    reveal_strlit("compose.yaml");
    reveal_strlit("compose.yml");
    reveal_strlit("config.fish");
    reveal_strlit("default.nix");
    reveal_strlit("docker-compose.yaml");
    reveal_strlit("docker-compose.yml");
    reveal_strlit("dockerfile");
    reveal_strlit("flake.lock");
    reveal_strlit("flake.nix");
    reveal_strlit("go.mod");
    reveal_strlit("go.sum");
    reveal_strlit("jsconfig.json");
    reveal_strlit("justfile");
    reveal_strlit("makefile");
    reveal_strlit("meson.build");
    reveal_strlit("meson_options.txt");
    reveal_strlit("package-lock.json");
    reveal_strlit("package.json");
    reveal_strlit("poetry.lock");
    reveal_strlit("pyproject.toml");
    reveal_strlit("shell.nix");
    reveal_strlit("tsconfig.json");
}

/// No two built-in languages have the same display name.
pub proof fn lemma_language_names_unique(i: int, j: int)
    requires
        0 <= i < j < LANGUAGES@.len(),
    ensures
        language_names()[i] != language_names()[j],
{
    lemma_language_names_rise();
    lemma_rising_distinct(language_names(), i, j);
}

/// A name is looked up to the row that bears it: no row before it bears the
/// same name.
pub proof fn lemma_row_found(k: int, from: int)
    requires
        0 <= from <= k < LANGUAGES@.len(),
    ensures
        language_named_from(LANGUAGES@[k].0@, from) == Some(row_ruleset(LANGUAGES@[k])),
    decreases k - from,
{
    if from < k {
        lemma_language_names_unique(from, k);
        assert(language_names()[from] == LANGUAGES@[from].0@);
        assert(language_names()[k] == LANGUAGES@[k].0@);
        lemma_row_found(k, from + 1);
    }
}

/// A key of a table that stands by rising key is looked up to the value of
/// its own entry.
pub proof fn lemma_entry_found(table: Seq<(&'static str, &'static str)>, k: int, from: int)
    requires
        rising(table_keys(table)),
        0 <= from <= k < table.len(),
    ensures
        mapped_from(table, table[k].0@, from) == Some(table[k].1@),
    decreases k - from,
{
    if from < k {
        lemma_rising_distinct(table_keys(table), from, k);
        assert(table_keys(table)[from] == table[from].0@);
        assert(table_keys(table)[k] == table[k].0@);
        lemma_entry_found(table, k, from + 1);
    }
}

} // verus!
