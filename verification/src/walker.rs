//! Which files a run looks at: the configuration of a walk, the filters that
//! a candidate has to pass, and the language that it is given.

use crate::custom_langs::{extensions_map, pairs_lookup, CustomLanguages, CustomRules};
use crate::languages::{
    detect, detect_language_with, get_language_ignore_case, language_named_ignore_case,
    option_ruleset, Language, Ruleset,
};
use crate::paths::{
    chars_extension, chars_file_name, chars_parent_len, extension_of, file_name_of, parent_of,
};
use crate::text::{
    chars_eq_ignore_ascii_case, chars_slice, eq_ignore_ascii_case, lines_kept, lowercase,
    split_lines, string_from_chars, strings_view, text_lines, to_chars, unicode_lowercase,
};
use vstd::prelude::*;

verus! {

/// How version control is used to find files.
#[derive(Debug, Clone, Copy, PartialEq, Eq)]
pub enum VcsMode {
    Auto,
    Git,
    /// Version control is not used.
    Off,
}

/// The options of a walk.
///
/// Patterns are regular expressions in source form. A pattern that does not
/// compile matches nothing.
#[derive(Debug)]
pub struct WalkerConfig {
    pub paths: Vec<String>,
    pub list_file: Option<String>,
    pub exclude_dirs: Vec<String>,
    pub exclude_exts: Vec<String>,
    pub exclude_langs: Vec<String>,
    pub include_exts: Vec<String>,
    pub include_langs: Vec<String>,
    /// Language name by lower-cased extension; a later pair overrides an
    /// earlier one with the same extension.
    pub force_lang: Vec<(String, String)>,
    pub match_dir: Option<String>,
    pub not_match_dir: Vec<String>,
    pub match_file: Option<String>,
    pub not_match_file: Vec<String>,
    pub include_content: Option<String>,
    pub exclude_content: Option<String>,
    pub vcs: Option<VcsMode>,
    pub follow_symlinks: bool,
    pub hidden: bool,
    pub fullpath: bool,
    pub max_depth: Option<usize>,
    pub skip_gitignore: bool,
    pub skip_uniqueness: bool,
    pub include_submodules: bool,
    /// The largest size of a file that is looked at, in bytes.
    pub max_file_size: Option<u64>,
}

/// The names of the directories that a walk leaves out unless told otherwise.
pub open spec fn default_exclude_dirs() -> Seq<Seq<char>> {
    seq![
        ".git"@,
        ".svn"@,
        ".hg"@,
        "node_modules"@,
        "target"@,
        "vendor"@,
        "dist"@,
        "build"@,
        "__pycache__"@,
        ".tox"@,
        ".eggs"@,
        "venv"@,
        ".venv"@,
        "env"@,
        ".env"@,
    ]
}

impl Default for WalkerConfig {
    fn default() -> (r: Self)
        ensures
            strings_view(r.paths@) == seq!["."@],
            strings_view(r.exclude_dirs@) == default_exclude_dirs(),
            r.list_file is None,
            r.exclude_exts@.len() == 0,
            r.exclude_langs@.len() == 0,
            r.include_exts@.len() == 0,
            r.include_langs@.len() == 0,
            r.force_lang@.len() == 0,
            r.match_dir is None,
            r.not_match_dir@.len() == 0,
            r.match_file is None,
            r.not_match_file@.len() == 0,
            r.include_content is None,
            r.exclude_content is None,
            r.vcs is None,
            !r.follow_symlinks && !r.hidden && !r.fullpath,
            r.max_depth is None,
            !r.skip_gitignore && !r.skip_uniqueness && !r.include_submodules,
            r.max_file_size is None,
    {
        let mut paths: Vec<String> = Vec::new();
        paths.push(String::from_str("."));
        assert(strings_view(paths@) =~= seq!["."@]);
        let mut dirs: Vec<String> = Vec::new();
        dirs.push(String::from_str(".git"));
        dirs.push(String::from_str(".svn"));
        dirs.push(String::from_str(".hg"));
        dirs.push(String::from_str("node_modules"));
        dirs.push(String::from_str("target"));
        dirs.push(String::from_str("vendor"));
        dirs.push(String::from_str("dist"));
        dirs.push(String::from_str("build"));
        dirs.push(String::from_str("__pycache__"));
        dirs.push(String::from_str(".tox"));
        dirs.push(String::from_str(".eggs"));
        dirs.push(String::from_str("venv"));
        dirs.push(String::from_str(".venv"));
        dirs.push(String::from_str("env"));
        dirs.push(String::from_str(".env"));
        assert(strings_view(dirs@) =~= default_exclude_dirs());
        WalkerConfig {
            paths,
            list_file: None,
            exclude_dirs: dirs,
            exclude_exts: Vec::new(),
            exclude_langs: Vec::new(),
            include_exts: Vec::new(),
            include_langs: Vec::new(),
            force_lang: Vec::new(),
            match_dir: None,
            not_match_dir: Vec::new(),
            match_file: None,
            not_match_file: Vec::new(),
            include_content: None,
            exclude_content: None,
            vcs: None,
            follow_symlinks: false,
            hidden: false,
            fullpath: false,
            max_depth: None,
            skip_gitignore: false,
            skip_uniqueness: false,
            include_submodules: false,
            max_file_size: None,
        }
    }
}

/// A file that a run looks at, with its language.
#[derive(Debug)]
pub struct FileEntry {
    pub path: String,
    pub language: Language,
}

/// A path that a walk came up with, and what was found out about the file:
/// its size in bytes where that could be had, and its text where it was read
/// and could be read.
#[derive(Debug)]
pub struct Candidate {
    pub path: String,
    pub size: Option<u64>,
    pub content: Option<String>,
}

/// Whether a pattern compiles, and if so whether it matches somewhere in a
/// text.
pub uninterp spec fn regex_match(pattern: Seq<char>, text: Seq<char>) -> Option<bool>;

/// Whether a pattern compiles.
pub open spec fn pattern_compiles(pattern: Seq<char>) -> bool {
    regex_match(pattern, Seq::empty()) is Some
}

/// Whether a pattern matches somewhere in a text. A pattern that does not
/// compile matches nothing.
pub open spec fn pattern_matches(pattern: Seq<char>, text: Seq<char>) -> bool {
    regex_match(pattern, text) == Some(true)
}

/// Matches a pattern against a text. Trusted: `Regex::new` compiles the
/// pattern or refuses it, whatever the text; `Regex::is_match` says whether
/// the compiled pattern matches somewhere in the text. Both depend on the
/// pattern and the text alone, so the outcome has a name, [`regex_match`].
#[verifier::external_body]
pub(crate) fn regex_is_match(pattern: &str, text: &str) -> (r: Option<bool>)
    ensures
        r == regex_match(pattern@, text@),
        r is Some == pattern_compiles(pattern@),
{
    match regex::Regex::new(pattern) {
        Ok(compiled) => Some(compiled.is_match(text)),
        Err(_) => None,
    }
}

/// Whether `pattern` is a regular expression that compiles.
pub fn pattern_is_valid(pattern: &str) -> (r: bool)
    ensures
        r == pattern_compiles(pattern@),
{
    regex_is_match(pattern, "").is_some()
}

/// Whether the size of a candidate is within the limit, both in bytes. A
/// candidate of unknown size is.
pub open spec fn size_ok(size: Option<u64>, limit: Option<u64>) -> bool {
    match (size, limit) {
        (Some(bytes), Some(most)) => bytes <= most,
        _ => true,
    }
}

/// Whether some entry of `list` equals `text` up to the case of ASCII
/// letters.
pub open spec fn any_ignore_case(list: Seq<String>, text: Seq<char>) -> bool {
    exists|i: int| 0 <= i < list.len() && eq_ignore_ascii_case((#[trigger] list[i])@, text)
}

/// Whether the extension of a candidate passes the two extension lists. A
/// path without an extension passes unless extensions are asked for.
pub open spec fn extension_ok(ext: Option<Seq<char>>, wanted: Seq<String>, unwanted: Seq<String>) -> bool {
    match ext {
        Some(e) => (wanted.len() == 0 || any_ignore_case(wanted, e)) && !any_ignore_case(
            unwanted,
            e,
        ),
        None => wanted.len() == 0,
    }
}

/// The text of an optional text, and the empty text for none.
pub open spec fn or_empty(text: Option<Seq<char>>) -> Seq<char> {
    match text {
        Some(t) => t,
        None => Seq::empty(),
    }
}

/// Whether some pattern of `patterns` matches `text`.
pub open spec fn any_pattern_matches(patterns: Seq<String>, text: Seq<char>) -> bool {
    exists|i: int| 0 <= i < patterns.len() && pattern_matches((#[trigger] patterns[i])@, text)
}

/// Whether `text` passes a pattern that it must match, if there is one, and
/// the patterns that it must not match.
pub open spec fn patterns_ok(text: Seq<char>, must: Option<String>, must_not: Seq<String>) -> bool {
    &&& must matches Some(p) ==> pattern_matches(p@, text)
    &&& !any_pattern_matches(must_not, text)
}

/// What the file patterns are held against: the whole path, or the file name.
pub open spec fn file_subject(path: Seq<char>, fullpath: bool) -> Seq<char> {
    if fullpath {
        path
    } else {
        or_empty(file_name_of(path))
    }
}

/// What the directory patterns that must not match are held against: the
/// whole parent path, or the name of the parent directory.
pub open spec fn dir_subject(path: Seq<char>, fullpath: bool) -> Seq<char> {
    if fullpath {
        or_empty(parent_of(path))
    } else {
        match parent_of(path) {
            Some(dir) => or_empty(file_name_of(dir)),
            None => Seq::empty(),
        }
    }
}

/// Whether the file patterns let a path pass.
pub open spec fn file_patterns_ok(path: Seq<char>, config: WalkerConfig) -> bool {
    patterns_ok(file_subject(path, config.fullpath), config.match_file, config.not_match_file@)
}

/// Whether the directory patterns let a path pass. The pattern that must match
/// is held against the whole parent path.
pub open spec fn dir_patterns_ok(path: Seq<char>, config: WalkerConfig) -> bool {
    &&& config.match_dir matches Some(p) ==> pattern_matches(p@, or_empty(parent_of(path)))
    &&& !any_pattern_matches(config.not_match_dir@, dir_subject(path, config.fullpath))
}

/// Whether the content patterns let a file pass. Where one is set, a file
/// whose text could not be had does not pass.
pub open spec fn content_ok(content: Option<String>, config: WalkerConfig) -> bool {
    if config.include_content is None && config.exclude_content is None {
        true
    } else {
        match content {
            Some(text) => {
                &&& config.include_content matches Some(p) ==> pattern_matches(p@, text@)
                &&& config.exclude_content matches Some(p) ==> !pattern_matches(p@, text@)
            },
            None => false,
        }
    }
}

/// Whether a candidate passes the filters on size and extension, given what
/// the patterns said.
pub open spec fn admits(
    candidate: Candidate,
    config: WalkerConfig,
    file_ok: bool,
    dir_ok: bool,
    text_ok: bool,
) -> bool {
    &&& size_ok(candidate.size, config.max_file_size)
    &&& extension_ok(extension_of(candidate.path@), config.include_exts@, config.exclude_exts@)
    &&& file_ok
    &&& dir_ok
    &&& text_ok
}

/// Whether a candidate passes every filter: size, extensions, file patterns,
/// directory patterns, content patterns.
pub open spec fn passes(candidate: Candidate, config: WalkerConfig) -> bool {
    admits(
        candidate,
        config,
        file_patterns_ok(candidate.path@, config),
        dir_patterns_ok(candidate.path@, config),
        content_ok(candidate.content, config),
    )
}

/// The language that is given to a file: the forced one, looked up whatever
/// its case, or else the detected one.
pub open spec fn language_given(
    forced: Option<Seq<char>>,
    detected: Option<Ruleset>,
) -> Option<Ruleset> {
    match forced {
        Some(name) => language_named_ignore_case(name),
        None => detected,
    }
}

/// The language of a path: the one forced on its extension, looked up
/// whatever its case, or else the one detected.
pub open spec fn selected_language(path: Seq<char>, config: WalkerConfig, custom: CustomRules) -> Option<
    Ruleset,
> {
    let forced = match extension_of(path) {
        Some(ext) => {
            let key = unicode_lowercase(ext);
            if extensions_map(config.force_lang@).contains_key(key) {
                Some(extensions_map(config.force_lang@)[key])
            } else {
                None
            }
        },
        None => None,
    };
    language_given(forced, detect(path, custom))
}

/// Whether some entry of `list`, lower-cased, equals `name` up to the case of
/// ASCII letters.
pub open spec fn any_lowered(list: Seq<String>, name: Seq<char>) -> bool {
    exists|i: int|
        0 <= i < list.len() && eq_ignore_ascii_case(unicode_lowercase((#[trigger] list[i])@), name)
}

/// Whether a language passes the two language lists.
pub open spec fn language_ok(name: Seq<char>, config: WalkerConfig) -> bool {
    (config.include_langs@.len() == 0 || any_lowered(config.include_langs@, name)) && !any_lowered(
        config.exclude_langs@,
        name,
    )
}

/// The language under which a candidate is counted, if it is counted at all.
pub open spec fn entry_for(candidate: Candidate, config: WalkerConfig, custom: CustomRules) -> Option<
    Ruleset,
> {
    if passes(candidate, config) {
        match selected_language(candidate.path@, config, custom) {
            Some(rules) => if language_ok(rules.name, config) {
                Some(rules)
            } else {
                None
            },
            None => None,
        }
    } else {
        None
    }
}

/// The candidates that are counted, in their order.
pub open spec fn accepted(candidates: Seq<Candidate>, config: WalkerConfig, custom: CustomRules) -> Seq<
    Candidate,
>
    decreases candidates.len(),
{
    if candidates.len() == 0 {
        Seq::empty()
    } else {
        let before = accepted(candidates.drop_last(), config, custom);
        if entry_for(candidates.last(), config, custom) is Some {
            before.push(candidates.last())
        } else {
            before
        }
    }
}

/// Whether `entries` are the accepted candidates, each with its language.
pub open spec fn entries_of(
    entries: Seq<FileEntry>,
    candidates: Seq<Candidate>,
    config: WalkerConfig,
    custom: CustomRules,
) -> bool {
    let kept = accepted(candidates, config, custom);
    &&& entries.len() == kept.len()
    &&& forall|i: int|
        0 <= i < entries.len() ==> (#[trigger] entries[i]).path@ == kept[i].path@ && Some(
            entries[i].language@,
        ) == entry_for(kept[i], config, custom)
}

/// Filtering what was accepted accepts all of it again: a second run of the
/// filters over the accepted candidates changes nothing.
pub proof fn lemma_filter_idempotent(
    candidates: Seq<Candidate>,
    config: WalkerConfig,
    custom: CustomRules,
)
    ensures
        accepted(accepted(candidates, config, custom), config, custom) == accepted(
            candidates,
            config,
            custom,
        ),
    decreases candidates.len(),
{
    if candidates.len() > 0 {
        let before = accepted(candidates.drop_last(), config, custom);
        lemma_filter_idempotent(candidates.drop_last(), config, custom);
        if entry_for(candidates.last(), config, custom) is Some {
            let kept = before.push(candidates.last());
            assert(kept.drop_last() =~= before);
            assert(kept.last() == candidates.last());
        }
    }
}

fn any_equal_ignore_case(list: &Vec<String>, text: &[char]) -> (r: bool)
    ensures
        r == any_ignore_case(list@, text@),
{
    let mut i: usize = 0;
    while i < list.len()
        invariant
            i <= list.len(),
            forall|k: int| 0 <= k < i ==> !eq_ignore_ascii_case((#[trigger] list@[k])@, text@),
        decreases list.len() - i,
    {
        let entry = to_chars(list[i].as_str());
        if chars_eq_ignore_ascii_case(entry.as_slice(), text) {
            return true;
        }
        i += 1;
    }
    false
}

fn any_regex_matches(patterns: &Vec<String>, text: &str) -> (r: bool)
    ensures
        r == any_pattern_matches(patterns@, text@),
{
    let mut i: usize = 0;
    while i < patterns.len()
        invariant
            i <= patterns.len(),
            forall|k: int| 0 <= k < i ==> !pattern_matches((#[trigger] patterns@[k])@, text@),
        decreases patterns.len() - i,
    {
        if let Some(true) = regex_is_match(patterns[i].as_str(), text) {
            return true;
        }
        i += 1;
    }
    false
}

fn check_patterns(text: &str, must: &Option<String>, must_not: &Vec<String>) -> (r: bool)
    ensures
        r == patterns_ok(text@, *must, must_not@),
{
    if let Some(pattern) = must {
        match regex_is_match(pattern.as_str(), text) {
            Some(true) => {},
            _ => {
                return false;
            },
        }
    }
    !any_regex_matches(must_not, text)
}

/// Whether a size is within a limit, both in bytes.
pub fn size_within(size: Option<u64>, limit: Option<u64>) -> (r: bool)
    ensures
        r == size_ok(size, limit),
{
    match (size, limit) {
        (Some(bytes), Some(most)) => bytes <= most,
        _ => true,
    }
}

fn lowered_list(list: &Vec<String>) -> (r: Vec<String>)
    ensures
        r@.len() == list@.len(),
        forall|i: int| 0 <= i < r@.len() ==> (#[trigger] r@[i])@ == unicode_lowercase(list@[i]@),
{
    let mut r: Vec<String> = Vec::new();
    let mut i: usize = 0;
    while i < list.len()
        invariant
            i <= list.len(),
            r@.len() == i,
            forall|k: int| 0 <= k < i ==> (#[trigger] r@[k])@ == unicode_lowercase(list@[k]@),
        decreases list.len() - i,
    {
        r.push(lowercase(list[i].as_str()));
        i += 1;
    }
    r
}

/// The parts of a path that the filters look at.
struct PathParts {
    name: Option<String>,
    ext: Option<String>,
    dir: Option<String>,
    dir_name: Option<String>,
}

fn part(p: &[char], bounds: Option<(usize, usize)>) -> (r: Option<String>)
    requires
        bounds matches Some((s, e)) ==> s <= e <= p.len(),
    ensures
        r is Some == bounds is Some,
        bounds matches Some((s, e)) ==> r->0@ == p@.subrange(s as int, e as int),
{
    match bounds {
        Some((start, end)) => {
            let chars = chars_slice(p, start, end);
            Some(string_from_chars(chars.as_slice()))
        },
        None => None,
    }
}

fn split_path(path: &str) -> (r: PathParts)
    ensures
        crate::text::opt_view(r.name) == file_name_of(path@),
        crate::text::opt_view(r.ext) == extension_of(path@),
        crate::text::opt_view(r.dir) == parent_of(path@),
        crate::text::opt_view(r.dir_name) == (match parent_of(path@) {
            Some(dir) => file_name_of(dir),
            None => None,
        }),
{
    let p = to_chars(path);
    let name = part(p.as_slice(), chars_file_name(p.as_slice()));
    let ext = part(p.as_slice(), chars_extension(p.as_slice()));
    let (dir, dir_name) = match chars_parent_len(p.as_slice()) {
        Some(n) => {
            let d = chars_slice(p.as_slice(), 0, n);
            assert(d@ == p@.take(n as int));
            let dn = part(d.as_slice(), chars_file_name(d.as_slice()));
            (Some(string_from_chars(d.as_slice())), dn)
        },
        None => (None, None),
    };
    PathParts { name, ext, dir, dir_name }
}

fn text_or_empty(text: &Option<String>) -> (r: &str)
    ensures
        r@ == or_empty(crate::text::opt_view(*text)),
{
    match text {
        Some(t) => t.as_str(),
        None => {
            proof {
                reveal_strlit("");
            }
            assert(""@ =~= Seq::<char>::empty());
            ""
        },
    }
}

/// Whether a candidate passes the filters on size and extension, given what
/// the file, directory and content patterns said.
pub fn passes_with(candidate: &Candidate, config: &WalkerConfig, file_ok: bool, dir_ok: bool, text_ok: bool) -> (r: bool)
    ensures
        r == admits(*candidate, *config, file_ok, dir_ok, text_ok),
{
    if !size_within(candidate.size, config.max_file_size) {
        return false;
    }
    let p = to_chars(candidate.path.as_str());
    let ext_ok = match chars_extension(p.as_slice()) {
        Some((start, end)) => {
            let ext = chars_slice(p.as_slice(), start, end);
            (config.include_exts.len() == 0 || any_equal_ignore_case(
                &config.include_exts,
                ext.as_slice(),
            )) && !any_equal_ignore_case(&config.exclude_exts, ext.as_slice())
        },
        None => config.include_exts.len() == 0,
    };
    ext_ok && file_ok && dir_ok && text_ok
}

fn check_content(content: &Option<String>, config: &WalkerConfig) -> (r: bool)
    ensures
        r == content_ok(*content, *config),
{
    if config.include_content.is_none() && config.exclude_content.is_none() {
        return true;
    }
    match content {
        Some(text) => {
            if let Some(pattern) = &config.include_content {
                match regex_is_match(pattern.as_str(), text.as_str()) {
                    Some(true) => {},
                    _ => {
                        return false;
                    },
                }
            }
            if let Some(pattern) = &config.exclude_content {
                if let Some(true) = regex_is_match(pattern.as_str(), text.as_str()) {
                    return false;
                }
            }
            true
        },
        None => false,
    }
}

/// Whether a candidate passes every filter.
pub fn passes_filters(candidate: &Candidate, config: &WalkerConfig) -> (r: bool)
    ensures
        r == passes(*candidate, *config),
{
    let parts = split_path(candidate.path.as_str());
    let file_subject = if config.fullpath {
        candidate.path.as_str()
    } else {
        text_or_empty(&parts.name)
    };
    let file_ok = check_patterns(file_subject, &config.match_file, &config.not_match_file);
    let dir_text = text_or_empty(&parts.dir);
    let dir_must = match &config.match_dir {
        Some(pattern) => match regex_is_match(pattern.as_str(), dir_text) {
            Some(true) => true,
            _ => false,
        },
        None => true,
    };
    let dir_subject = if config.fullpath {
        dir_text
    } else {
        text_or_empty(&parts.dir_name)
    };
    let dir_ok = dir_must && !any_regex_matches(&config.not_match_dir, dir_subject);
    let text_ok = check_content(&candidate.content, config);
    passes_with(candidate, config, file_ok, dir_ok, text_ok)
}

/// The language that is forced, looked up whatever its case, or else the one
/// that was detected.
pub fn choose_language(forced: Option<&str>, detected: Option<Language>) -> (r: Option<Language>)
    ensures
        option_ruleset(r) == language_given(
            match forced {
                Some(name) => Some(name@),
                None => None,
            },
            option_ruleset(detected),
        ),
{
    match forced {
        Some(name) => get_language_ignore_case(name),
        None => detected,
    }
}

fn select_language(path: &str, config: &WalkerConfig, custom: &CustomLanguages) -> (r: Option<Language>)
    ensures
        option_ruleset(r) == selected_language(path@, *config, custom@),
{
    let p = to_chars(path);
    let forced: Option<&String> = match chars_extension(p.as_slice()) {
        Some((start, end)) => {
            let ext = chars_slice(p.as_slice(), start, end);
            let ext_text = string_from_chars(ext.as_slice());
            let key = lowercase(ext_text.as_str());
            let key_chars = to_chars(key.as_str());
            pairs_lookup(&config.force_lang, key_chars.as_slice())
        },
        None => None,
    };
    match forced {
        Some(name) => choose_language(Some(name.as_str()), None),
        None => {
            let detected = detect_language_with(path, custom);
            choose_language(None, detected)
        },
    }
}

fn any_lowered_equal(lowered: &Vec<String>, name: &[char], list: Ghost<Seq<String>>) -> (r: bool)
    requires
        lowered@.len() == list@.len(),
        forall|i: int|
            0 <= i < lowered@.len() ==> (#[trigger] lowered@[i])@ == unicode_lowercase(list@[i]@),
    ensures
        r == any_lowered(list@, name@),
{
    let mut i: usize = 0;
    while i < lowered.len()
        invariant
            i <= lowered.len(),
            lowered@.len() == list@.len(),
            forall|k: int|
                0 <= k < lowered@.len() ==> (#[trigger] lowered@[k])@ == unicode_lowercase(
                    list@[k]@,
                ),
            forall|k: int|
                0 <= k < i ==> !eq_ignore_ascii_case(
                    unicode_lowercase((#[trigger] list@[k])@),
                    name@,
                ),
        decreases lowered.len() - i,
    {
        let entry = to_chars(lowered[i].as_str());
        if chars_eq_ignore_ascii_case(entry.as_slice(), name) {
            assert(eq_ignore_ascii_case(unicode_lowercase(list@[i as int]@), name@));
            return true;
        }
        i += 1;
    }
    false
}

/// Applies the filters to the candidates and gives each one that passes its
/// language. A candidate without a language, or with one that the language
/// lists leave out, is dropped. The order of the candidates is kept.
pub fn filter_files(candidates: &Vec<Candidate>, config: &WalkerConfig, custom: &CustomLanguages) -> (r:
    Vec<FileEntry>)
    ensures
        entries_of(r@, candidates@, *config, custom@),
{
    let wanted_langs = lowered_list(&config.include_langs);
    let unwanted_langs = lowered_list(&config.exclude_langs);
    let mut entries: Vec<FileEntry> = Vec::new();
    let mut i: usize = 0;
    assert(candidates@.take(0) =~= Seq::empty());
    while i < candidates.len()
        invariant
            i <= candidates.len(),
            wanted_langs@.len() == config.include_langs@.len(),
            forall|k: int|
                0 <= k < wanted_langs@.len() ==> (#[trigger] wanted_langs@[k])@ == unicode_lowercase(
                    config.include_langs@[k]@,
                ),
            unwanted_langs@.len() == config.exclude_langs@.len(),
            forall|k: int|
                0 <= k < unwanted_langs@.len() ==> (#[trigger] unwanted_langs@[k])@ == unicode_lowercase(
                    config.exclude_langs@[k]@,
                ),
            entries_of(entries@, candidates@.take(i as int), *config, custom@),
        decreases candidates.len() - i,
    {
        let candidate = &candidates[i];
        let ghost before = candidates@.take(i as int);
        let ghost upto = candidates@.take(i + 1);
        let ghost old_entries = entries@;
        proof {
            assert(upto.drop_last() =~= before);
            assert(upto.last() == *candidate);
        }
        let mut kept = false;
        if passes_filters(candidate, config) {
            if let Some(language) = select_language(candidate.path.as_str(), config, custom) {
                let name = to_chars(language.name.as_str());
                let asked_for = config.include_langs.len() == 0 || any_lowered_equal(
                    &wanted_langs,
                    name.as_slice(),
                    Ghost(config.include_langs@),
                );
                if asked_for && !any_lowered_equal(
                    &unwanted_langs,
                    name.as_slice(),
                    Ghost(config.exclude_langs@),
                ) {
                    entries.push(FileEntry { path: candidate.path.clone(), language });
                    kept = true;
                }
            }
        }
        proof {
            let kept_before = accepted(before, *config, custom@);
            let kept_upto = accepted(upto, *config, custom@);
            assert(kept == (entry_for(*candidate, *config, custom@) is Some));
            assert forall|k: int| 0 <= k < entries@.len() implies (#[trigger] entries@[k]).path@
                == kept_upto[k].path@ && Some(entries@[k].language@) == entry_for(
                kept_upto[k],
                *config,
                custom@,
            ) by {
                if k < old_entries.len() {
                    assert(entries@[k] == old_entries[k]);
                    assert(kept_upto[k] == kept_before[k]);
                }
            }
        }
        i += 1;
    }
    assert(candidates@.take(candidates.len() as int) =~= candidates@);
    entries
}

/// Where the candidates of a walk come from.
#[derive(Debug)]
pub enum FileSource {
    /// The lines of the named file.
    ListFile(String),
    /// What version control lists; the file system where that fails.
    Git,
    /// The file system, walked from the roots.
    Filesystem,
}

/// Where the candidates come from: a list file before all else, then version
/// control where it is asked for, or found when left to choose, then the file
/// system.
pub fn choose_source(config: &WalkerConfig, git_dir_present: bool) -> (r: FileSource)
    ensures
        config.list_file matches Some(f) ==> r matches FileSource::ListFile(g) && g@ == f@,
        config.list_file is None ==> (r is Git <==> (config.vcs == Some(VcsMode::Git) || (config.vcs
            == Some(VcsMode::Auto) && git_dir_present))),
        config.list_file is None ==> !(r is ListFile),
{
    if let Some(file) = &config.list_file {
        return FileSource::ListFile(file.clone());
    }
    match config.vcs {
        Some(VcsMode::Git) => FileSource::Git,
        Some(VcsMode::Auto) => {
            if git_dir_present {
                FileSource::Git
            } else {
                FileSource::Filesystem
            }
        },
        _ => FileSource::Filesystem,
    }
}

/// The arguments with which version control is asked for its files.
pub open spec fn git_args(submodules: bool) -> Seq<Seq<char>> {
    let base = seq!["ls-files"@, "--cached"@, "--others"@, "--exclude-standard"@];
    if submodules {
        base.push("--recurse-submodules"@)
    } else {
        base
    }
}

/// The arguments with which version control is asked for its files.
pub fn git_arguments(config: &WalkerConfig) -> (r: Vec<String>)
    ensures
        strings_view(r@) == git_args(config.include_submodules),
{
    let mut r: Vec<String> = Vec::new();
    r.push(String::from_str("ls-files"));
    r.push(String::from_str("--cached"));
    r.push(String::from_str("--others"));
    r.push(String::from_str("--exclude-standard"));
    if config.include_submodules {
        r.push(String::from_str("--recurse-submodules"));
    }
    assert(strings_view(r@) =~= git_args(config.include_submodules));
    r
}

/// The candidates that a list file names: its lines that hold more than
/// whitespace, as they stand.
pub fn list_file_paths(content: &str) -> (r: Vec<String>)
    ensures
        strings_view(r@) == lines_kept(text_lines(content@), true),
{
    split_lines(content, true)
}

/// The candidates that version control names: the lines of its output.
pub fn git_listed_paths(output: &str) -> (r: Vec<String>)
    ensures
        strings_view(r@) == lines_kept(text_lines(output@), false),
{
    split_lines(output, false)
}

/// The two patterns that keep a directory name out of a walk: the name at any
/// depth, and the name at the root.
pub open spec fn exclude_patterns(dir: Seq<char>) -> (Seq<char>, Seq<char>) {
    ("!**/"@ + dir + "/"@, "!"@ + dir + "/"@)
}

/// The patterns that keep the given directory names out of a walk, two for
/// each name.
pub open spec fn exclude_globs_for(dirs: Seq<String>) -> Seq<Seq<char>>
    decreases dirs.len(),
{
    if dirs.len() == 0 {
        Seq::empty()
    } else {
        let patterns = exclude_patterns(dirs.last()@);
        exclude_globs_for(dirs.drop_last()).push(patterns.0).push(patterns.1)
    }
}

/// The patterns that keep the excluded directories out of a walk.
pub fn exclude_globs(config: &WalkerConfig) -> (r: Vec<String>)
    ensures
        strings_view(r@) == exclude_globs_for(config.exclude_dirs@),
{
    let mut r: Vec<String> = Vec::new();
    let mut i: usize = 0;
    assert(config.exclude_dirs@.take(0) =~= Seq::empty());
    assert(strings_view(r@) =~= Seq::empty());
    while i < config.exclude_dirs.len()
        invariant
            i <= config.exclude_dirs.len(),
            strings_view(r@) == exclude_globs_for(config.exclude_dirs@.take(i as int)),
        decreases config.exclude_dirs.len() - i,
    {
        let dir = config.exclude_dirs[i].as_str();
        let deep = String::from_str("!**/").concat(dir).concat("/");
        let top = String::from_str("!").concat(dir).concat("/");
        let ghost old_r = r@;
        r.push(deep);
        r.push(top);
        proof {
            let upto = config.exclude_dirs@.take(i + 1);
            assert(upto.drop_last() =~= config.exclude_dirs@.take(i as int));
            assert(upto.last() == config.exclude_dirs@[i as int]);
            assert(strings_view(r@) =~= strings_view(old_r).push(deep@).push(top@));
        }
        i += 1;
    }
    assert(config.exclude_dirs@.take(config.exclude_dirs.len() as int) =~= config.exclude_dirs@);
    r
}

} // verus!
