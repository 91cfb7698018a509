//! Taking the comments out of a line, or keeping nothing else.

use crate::counter::{classify_file_line, line_outcome, Lexicon, LineType, State};
use crate::languages::{Language, Ruleset};
use crate::text::{
    chars_find, chars_skip_whitespace_back, chars_slice, find, skip_whitespace_back,
    string_from_chars, strings_view, to_chars, trim,
};
use vstd::prelude::*;

verus! {

/// What is taken out of a file.
#[derive(Debug, Clone, Copy, PartialEq, Eq)]
pub enum StripMode {
    /// The comments go, the code stays.
    Comments,
    /// The code goes, the comments stay.
    Code,
}

/// What stands before the first occurrence of `token` in `line`, without its
/// trailing whitespace, where the token occurs and something other than
/// whitespace stands before it.
pub open spec fn code_before(line: Seq<char>, token: Seq<char>) -> Option<Seq<char>> {
    match find(line, token) {
        Some(at) => {
            let end = skip_whitespace_back(line, 0, at);
            if end > 0 {
                Some(line.subrange(0, end))
            } else {
                None
            }
        },
        None => None,
    }
}

/// The code of a line that a line comment follows: what stands before the
/// first of the line-comment tokens, tried in order from `from` on, that
/// occurs in the line after something other than whitespace.
pub open spec fn stripped_from(line: Seq<char>, tokens: Seq<Seq<char>>, from: int) -> Option<Seq<char>>
    decreases tokens.len() - from,
{
    if from < 0 || from >= tokens.len() {
        None
    } else if code_before(line, tokens[from]) is Some {
        code_before(line, tokens[from])
    } else {
        stripped_from(line, tokens, from + 1)
    }
}

/// The comment of a line: the line from the first occurrence on of the first
/// of the line-comment tokens, tried in order from `from` on, that occurs in
/// the line.
pub open spec fn comment_from(line: Seq<char>, tokens: Seq<Seq<char>>, from: int) -> Option<Seq<char>>
    decreases tokens.len() - from,
{
    if from < 0 || from >= tokens.len() {
        None
    } else if find(line, tokens[from]) is Some {
        Some(line.skip(find(line, tokens[from])->0))
    } else {
        comment_from(line, tokens, from + 1)
    }
}

/// The code of a line without the line comment that follows it.
pub fn strip_comment_from_line(line: &str, lang: &Language) -> (r: Option<String>)
    ensures
        r is Some == stripped_from(line@, lang@.line_comments, 0) is Some,
        r is Some ==> r->0@ == stripped_from(line@, lang@.line_comments, 0)->0,
{
    let chars = to_chars(line);
    let mut i: usize = 0;
    while i < lang.line_comments.len()
        invariant
            i <= lang.line_comments.len(),
            chars@ == line@,
            stripped_from(line@, lang@.line_comments, 0) == stripped_from(
                line@,
                lang@.line_comments,
                i as int,
            ),
        decreases lang.line_comments.len() - i,
    {
        let token = to_chars(lang.line_comments[i].as_str());
        assert(token@ == lang@.line_comments[i as int]);
        if let Some(at) = chars_find(chars.as_slice(), token.as_slice()) {
            proof {
                lemma_find_bounds(chars@, token@, 0);
            }
            let end = chars_skip_whitespace_back(chars.as_slice(), 0, at);
            if end > 0 {
                let kept = chars_slice(chars.as_slice(), 0, end);
                return Some(string_from_chars(kept.as_slice()));
            }
        }
        i += 1;
    }
    None
}

/// Where a token is found, it fits into the text.
pub proof fn lemma_find_bounds(s: Seq<char>, token: Seq<char>, from: int)
    requires
        0 <= from,
    ensures
        crate::text::find_from(s, token, from) matches Some(at) ==> from <= at && at + token.len()
            <= s.len(),
    decreases s.len() + 1 - from,
{
    if from + token.len() <= s.len() && !crate::text::matches_at(s, from, token) {
        lemma_find_bounds(s, token, from + 1);
    }
}

/// The line comment of a line, from its token on.
pub fn extract_comment_from_line(line: &str, lang: &Language) -> (r: Option<String>)
    ensures
        r is Some == comment_from(line@, lang@.line_comments, 0) is Some,
        r is Some ==> r->0@ == comment_from(line@, lang@.line_comments, 0)->0,
{
    let chars = to_chars(line);
    let mut i: usize = 0;
    while i < lang.line_comments.len()
        invariant
            i <= lang.line_comments.len(),
            chars@ == line@,
            comment_from(line@, lang@.line_comments, 0) == comment_from(
                line@,
                lang@.line_comments,
                i as int,
            ),
        decreases lang.line_comments.len() - i,
    {
        let token = to_chars(lang.line_comments[i].as_str());
        assert(token@ == lang@.line_comments[i as int]);
        if let Some(at) = chars_find(chars.as_slice(), token.as_slice()) {
            proof {
                lemma_find_bounds(chars@, token@, 0);
            }
            let kept = chars_slice(chars.as_slice(), at, chars.len());
            return Some(string_from_chars(kept.as_slice()));
        }
        i += 1;
    }
    None
}

/// What a line becomes when a file is stripped, given the kind of the line
/// and what the two line functions make of it; `None` where the line is left
/// out. A line that is empty once trimmed becomes an empty line. When
/// comments go, code and blank lines stay as they are, a mixed line keeps its
/// code where that can be told, and a comment line is left out. When code
/// goes, a comment line stays, a mixed line keeps its comment where that can
/// be told, and the rest is left out.
pub open spec fn stripped_line(
    line: Seq<char>,
    kind: LineType,
    mode: StripMode,
    code: Option<Seq<char>>,
    comment: Option<Seq<char>>,
) -> Option<Seq<char>> {
    if trim(line).len() == 0 {
        Some(Seq::empty())
    } else {
        match mode {
            StripMode::Comments => match kind {
                LineType::Code | LineType::Blank => Some(line),
                LineType::Mixed => match code {
                    Some(kept) => Some(kept),
                    None => Some(line),
                },
                LineType::Comment => None,
            },
            StripMode::Code => match kind {
                LineType::Comment => Some(line),
                LineType::Mixed => comment,
                LineType::Code | LineType::Blank => None,
            },
        }
    }
}

/// The lines of a stripped file, from the lines of the file: each line is
/// classified in the state that the lines before it left behind, and becomes
/// what [`stripped_line`] says.
pub open spec fn stripped_lines(
    lines: Seq<String>,
    state: State,
    rules: Ruleset,
    mode: StripMode,
) -> Seq<Seq<char>>
    decreases lines.len(),
{
    if lines.len() == 0 {
        Seq::empty()
    } else {
        let line = lines[0]@;
        let outcome = line_outcome(line, state, rules);
        let next = if trim(line).len() == 0 {
            state
        } else {
            outcome.0
        };
        let rest = stripped_lines(lines.drop_first(), next, rules, mode);
        match stripped_line(
            line,
            outcome.1,
            mode,
            stripped_from(line, rules.line_comments, 0),
            comment_from(line, rules.line_comments, 0),
        ) {
            Some(out) => seq![out] + rest,
            None => rest,
        }
    }
}

/// Strips the lines of a file: gives the lines of the stripped file.
pub fn strip_lines(lines: &Vec<String>, language: &Language, mode: StripMode) -> (r: Vec<String>)
    ensures
        strings_view(r@) == stripped_lines(lines@, State::Code, language@, mode),
{
    let lexicon = Lexicon::new(language);
    let mut out: Vec<String> = Vec::new();
    let mut state = State::Code;
    let mut i: usize = 0;
    let ghost rules = language@;
    assert(lines@.skip(0) =~= lines@);
    assert(strings_view(out@) =~= Seq::empty());
    while i < lines.len()
        invariant
            i <= lines.len(),
            lexicon@ == rules,
            rules == language@,
            stripped_lines(lines@, State::Code, rules, mode) == strings_view(out@)
                + stripped_lines(lines@.skip(i as int), state, rules, mode),
        decreases lines.len() - i,
    {
        let line = &lines[i];
        let chars = to_chars(line.as_str());
        let ghost rest = lines@.skip(i as int);
        let ghost old_out = out@;
        proof {
            assert(rest[0] == lines@[i as int]);
            assert(rest.drop_first() =~= lines@.skip(i + 1));
        }
        let (next, kind) = classify_file_line(chars.as_slice(), state, &lexicon);
        let (start, end) = crate::text::trim_bounds(chars.as_slice());
        let produced: Option<String> = if start == end {
            proof {
                reveal_strlit("");
            }
            assert(""@ =~= Seq::<char>::empty());
            Some(String::from_str(""))
        } else {
            match mode {
                StripMode::Comments => match kind {
                    LineType::Code | LineType::Blank => Some(line.clone()),
                    LineType::Mixed => match strip_comment_from_line(line.as_str(), language) {
                        Some(kept) => Some(kept),
                        None => Some(line.clone()),
                    },
                    LineType::Comment => None,
                },
                StripMode::Code => match kind {
                    LineType::Comment => Some(line.clone()),
                    LineType::Mixed => extract_comment_from_line(line.as_str(), language),
                    LineType::Code | LineType::Blank => None,
                },
            }
        };
        state = next;
        if let Some(text) = produced {
            out.push(text);
            assert(strings_view(out@) =~= strings_view(old_out).push(text@));
            assert(strings_view(old_out).push(text@) + stripped_lines(
                lines@.skip(i + 1),
                state,
                rules,
                mode,
            ) =~= strings_view(old_out) + (seq![text@] + stripped_lines(
                lines@.skip(i + 1),
                state,
                rules,
                mode,
            )));
        }
        i += 1;
    }
    assert(lines@.skip(lines.len() as int) =~= Seq::<String>::empty());
    assert(strings_view(out@) + Seq::<Seq<char>>::empty() =~= strings_view(out@));
    out
}

} // verus!
