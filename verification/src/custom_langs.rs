//! Languages that the user defines, which take precedence over the built-in
//! ones.

use crate::languages::{Language, Ruleset};
use crate::text::{
    chars_eq, clone_opt_string, clone_strings, lowercase, opt_view, strings_view, to_chars,
    unicode_lowercase,
};
use vstd::prelude::*;

verus! {

/// The definition of one custom language, as its author wrote it.
#[derive(Debug)]
pub struct CustomLanguageDef {
    pub extensions: Vec<String>,
    pub line_comments: Vec<String>,
    pub block_comment_start: Option<String>,
    pub block_comment_end: Option<String>,
    pub nested_comments: bool,
    pub string_delimiters: Vec<String>,
}

/// The string delimiters of a definition that names none: `"` and `'`.
pub fn default_string_delimiters() -> (r: Vec<String>)
    ensures
        strings_view(r@) == seq!["\""@, "'"@],
{
    let mut r: Vec<String> = Vec::new();
    r.push(String::from_str("\""));
    r.push(String::from_str("'"));
    assert(strings_view(r@) =~= seq!["\""@, "'"@]);
    r
}

/// The custom languages of a run: rulesets by name, and names by lower-cased
/// extension. Where a name or an extension was given more than once, the last
/// one counts.
pub struct CustomLanguages {
    languages: Vec<Language>,
    extensions: Vec<(String, String)>,
}

/// What a [`CustomLanguages`] holds.
pub ghost struct CustomRules {
    pub languages: Map<Seq<char>, Ruleset>,
    pub extensions: Map<Seq<char>, Seq<char>>,
}

impl CustomRules {
    /// No custom language at all.
    pub open spec fn empty() -> CustomRules {
        CustomRules { languages: Map::empty(), extensions: Map::empty() }
    }

    /// The custom language that a lower-cased extension selects.
    pub open spec fn by_extension(self, lowered_ext: Seq<char>) -> Option<Ruleset> {
        if self.extensions.contains_key(lowered_ext) && self.languages.contains_key(
            self.extensions[lowered_ext],
        ) {
            Some(self.languages[self.extensions[lowered_ext]])
        } else {
            None
        }
    }
}

/// The ruleset that a definition gives to the language `name`.
pub open spec fn def_ruleset(name: Seq<char>, def: CustomLanguageDef) -> Ruleset {
    Ruleset {
        name,
        line_comments: strings_view(def.line_comments@),
        block_comment_start: opt_view(def.block_comment_start),
        block_comment_end: opt_view(def.block_comment_end),
        nested_comments: def.nested_comments,
        string_delimiters: strings_view(def.string_delimiters@),
        raw_string_start: None,
        raw_string_end: None,
    }
}

/// `map` after each of `exts`, lower-cased, was given to `name`.
pub open spec fn claim_extensions(
    map: Map<Seq<char>, Seq<char>>,
    exts: Seq<String>,
    name: Seq<char>,
) -> Map<Seq<char>, Seq<char>>
    decreases exts.len(),
{
    if exts.len() == 0 {
        map
    } else {
        claim_extensions(map, exts.drop_last(), name).insert(
            unicode_lowercase(exts.last()@),
            name,
        )
    }
}

/// The custom rules that a list of named definitions makes, taken in order.
pub open spec fn rules_from_defs(defs: Seq<(String, CustomLanguageDef)>) -> CustomRules
    decreases defs.len(),
{
    if defs.len() == 0 {
        CustomRules::empty()
    } else {
        let before = rules_from_defs(defs.drop_last());
        let name = defs.last().0@;
        let def = defs.last().1;
        CustomRules {
            languages: before.languages.insert(name, def_ruleset(name, def)),
            extensions: claim_extensions(before.extensions, def.extensions@, name),
        }
    }
}

/// The map that a list of languages stands for: each under its name, later
/// ones over earlier ones.
pub open spec fn languages_map(list: Seq<Language>) -> Map<Seq<char>, Ruleset>
    decreases list.len(),
{
    if list.len() == 0 {
        Map::empty()
    } else {
        languages_map(list.drop_last()).insert(list.last()@.name, list.last()@)
    }
}

/// The map that a list of pairs stands for, later pairs over earlier ones.
pub open spec fn extensions_map(list: Seq<(String, String)>) -> Map<Seq<char>, Seq<char>>
    decreases list.len(),
{
    if list.len() == 0 {
        Map::empty()
    } else {
        extensions_map(list.drop_last()).insert(list.last().0@, list.last().1@)
    }
}

/// The value that the last pair with the key `key` holds.
pub fn pairs_lookup<'a>(list: &'a Vec<(String, String)>, key: &[char]) -> (r: Option<&'a String>)
    ensures
        r is Some == extensions_map(list@).contains_key(key@),
        r is Some ==> r->0@ == extensions_map(list@)[key@],
{
    let mut j: usize = list.len();
    assert(list@.take(j as int) =~= list@);
    while j > 0
        invariant
            j <= list.len(),
            extensions_map(list@).contains_key(key@) == extensions_map(
                list@.take(j as int),
            ).contains_key(key@),
            extensions_map(list@).contains_key(key@) ==> extensions_map(list@)[key@]
                == extensions_map(list@.take(j as int))[key@],
        decreases j,
    {
        let entry_key = to_chars(list[j - 1].0.as_str());
        proof {
            let upto = list@.take(j as int);
            assert(upto.drop_last() =~= list@.take(j - 1));
            assert(upto.last() == list@[j - 1]);
        }
        if chars_eq(entry_key.as_slice(), key) {
            return Some(&list[j - 1].1);
        }
        j -= 1;
    }
    None
}

impl View for CustomLanguages {
    type V = CustomRules;

    closed spec fn view(&self) -> CustomRules {
        CustomRules {
            languages: languages_map(self.languages@),
            extensions: extensions_map(self.extensions@),
        }
    }
}

fn language_from_def(name: &String, def: &CustomLanguageDef) -> (r: Language)
    ensures
        r@ == def_ruleset(name@, *def),
{
    Language {
        name: name.clone(),
        line_comments: clone_strings(&def.line_comments),
        block_comment_start: clone_opt_string(&def.block_comment_start),
        block_comment_end: clone_opt_string(&def.block_comment_end),
        nested_comments: def.nested_comments,
        string_delimiters: clone_strings(&def.string_delimiters),
        raw_string_start: None,
        raw_string_end: None,
    }
}

impl CustomLanguages {
    /// No custom language at all.
    pub fn new() -> (r: CustomLanguages)
        ensures
            r@ == CustomRules::empty(),
    {
        CustomLanguages { languages: Vec::new(), extensions: Vec::new() }
    }

    /// The custom languages that a list of named definitions makes. The
    /// definitions are taken in order: a later one replaces an earlier one of
    /// the same name, and takes over the extensions that both claim.
    pub fn from_defs(defs: &Vec<(String, CustomLanguageDef)>) -> (r: CustomLanguages)
        ensures
            r@ == rules_from_defs(defs@),
    {
        let mut languages: Vec<Language> = Vec::new();
        let mut extensions: Vec<(String, String)> = Vec::new();
        let mut i: usize = 0;
        assert(defs@.take(0) =~= Seq::empty());
        while i < defs.len()
            invariant
                i <= defs.len(),
                languages_map(languages@) == rules_from_defs(defs@.take(i as int)).languages,
                extensions_map(extensions@) == rules_from_defs(defs@.take(i as int)).extensions,
            decreases defs.len() - i,
        {
            let name = &defs[i].0;
            let def = &defs[i].1;
            let ghost before = extensions@;
            let mut j: usize = 0;
            assert(def.extensions@.take(0) =~= Seq::empty());
            while j < def.extensions.len()
                invariant
                    j <= def.extensions.len(),
                    extensions_map(extensions@) == claim_extensions(
                        extensions_map(before),
                        def.extensions@.take(j as int),
                        name@,
                    ),
                decreases def.extensions.len() - j,
            {
                let lowered = lowercase(def.extensions[j].as_str());
                let ghost prior = extensions@;
                extensions.push((lowered, name.clone()));
                proof {
                    assert(extensions@.drop_last() =~= prior);
                    let next = def.extensions@.take(j + 1);
                    assert(next.drop_last() =~= def.extensions@.take(j as int));
                    assert(next.last() == def.extensions@[j as int]);
                }
                j += 1;
            }
            let ghost prior_languages = languages@;
            languages.push(language_from_def(name, def));
            proof {
                assert(languages@.drop_last() =~= prior_languages);
                assert(def.extensions@.take(def.extensions.len() as int) =~= def.extensions@);
                let next = defs@.take(i + 1);
                assert(next.drop_last() =~= defs@.take(i as int));
                assert(next.last() == defs@[i as int]);
            }
            i += 1;
        }
        assert(defs@.take(defs.len() as int) =~= defs@);
        CustomLanguages { languages, extensions }
    }

    /// Installs the custom languages of a run. They can be installed once: a
    /// second attempt is refused and changes nothing.
    pub fn load(slot: &mut Option<CustomLanguages>, defs: &Vec<(String, CustomLanguageDef)>) -> (r:
        Result<(), String>)
        ensures
            *old(slot) is Some ==> r is Err && r->Err_0@ == "Custom languages already loaded"@
                && *final(slot) == *old(slot),
            *old(slot) is None ==> r is Ok && *final(slot) is Some && (*final(slot))->0@
                == rules_from_defs(defs@),
    {
        if slot.is_some() {
            return Err(String::from_str("Custom languages already loaded"));
        }
        *slot = Some(CustomLanguages::from_defs(defs));
        Ok(())
    }

    fn name_for(&self, lowered_ext: &[char]) -> (r: Option<&String>)
        ensures
            r is Some == self@.extensions.contains_key(lowered_ext@),
            r is Some ==> r->0@ == self@.extensions[lowered_ext@],
    {
        pairs_lookup(&self.extensions, lowered_ext)
    }

    fn language_for(&self, name: &[char]) -> (r: Option<Language>)
        ensures
            r is Some == self@.languages.contains_key(name@),
            r is Some ==> r->0@ == self@.languages[name@],
    {
        let mut j: usize = self.languages.len();
        assert(self.languages@.take(j as int) =~= self.languages@);
        while j > 0
            invariant
                j <= self.languages.len(),
                self@.languages.contains_key(name@) == languages_map(
                    self.languages@.take(j as int),
                ).contains_key(name@),
                self@.languages.contains_key(name@) ==> self@.languages[name@] == languages_map(
                    self.languages@.take(j as int),
                )[name@],
            decreases j,
        {
            let key = to_chars(self.languages[j - 1].name.as_str());
            proof {
                let upto = self.languages@.take(j as int);
                assert(upto.drop_last() =~= self.languages@.take(j - 1));
                assert(upto.last() == self.languages@[j - 1]);
            }
            if chars_eq(key.as_slice(), name) {
                return Some(self.languages[j - 1].clone());
            }
            j -= 1;
        }
        None
    }

    /// The custom language that an extension, already in lower case, selects.
    pub fn get_by_lowered_extension(&self, lowered_ext: &str) -> (r: Option<Language>)
        ensures
            r is Some == self@.by_extension(lowered_ext@) is Some,
            r is Some ==> r->0@ == self@.by_extension(lowered_ext@)->0,
    {
        let key = to_chars(lowered_ext);
        match self.name_for(key.as_slice()) {
            Some(name) => {
                let name_chars = to_chars(name.as_str());
                self.language_for(name_chars.as_slice())
            },
            None => None,
        }
    }

    /// The custom language that an extension selects, whatever its case.
    pub fn get_by_extension(&self, ext: &str) -> (r: Option<Language>)
        ensures
            r is Some == self@.by_extension(unicode_lowercase(ext@)) is Some,
            r is Some ==> r->0@ == self@.by_extension(unicode_lowercase(ext@))->0,
    {
        let lowered = lowercase(ext);
        self.get_by_lowered_extension(lowered.as_str())
    }
}

} // verus!
