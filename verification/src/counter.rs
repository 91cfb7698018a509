//! The line classifier and the file counter.
//!
//! A line is scanned character by character with a small state machine. The
//! state that a line leaves behind is the state in which the next line starts,
//! so a block comment can run over many lines.

use crate::languages::{Language, Ruleset};
use crate::text::{
    char_is_whitespace, chars_match_at, is_whitespace, matches_at, opt_token_view,
    skip_whitespace, skip_whitespace_back, to_chars, tokens_view, trim, trim_bounds,
};
use vstd::prelude::*;
use vstd::slice::slice_subrange;
use vstd::utf8::{decode_utf8, valid_utf8};

verus! {

/// The counts of one file.
#[derive(Debug, Default)]
pub struct FileStats {
    pub path: String,
    pub language: String,
    pub code: u64,
    pub comments: u64,
    pub blanks: u64,
}

impl FileStats {
    /// The number of lines counted: `code + comments + blanks`.
    pub open spec fn spec_total(&self) -> nat {
        (self.code + self.comments + self.blanks) as nat
    }

    /// The number of lines counted: `code + comments + blanks`.
    pub fn total(&self) -> (r: u64)
        requires
            self.code + self.comments + self.blanks <= u64::MAX,
        ensures
            r == self.code + self.comments + self.blanks,
    {
        self.code + self.comments + self.blanks
    }
}

impl Clone for FileStats {
    fn clone(&self) -> (r: Self)
        ensures
            r == *self,
    {
        FileStats {
            path: self.path.clone(),
            language: self.language.clone(),
            code: self.code,
            comments: self.comments,
            blanks: self.blanks,
        }
    }
}

/// Where the scanner stands between two characters.
#[derive(Debug, Clone, Copy, PartialEq, Eq)]
pub enum State {
    /// In code.
    Code,
    /// Inside `depth` open block comments; `depth` is at least 1.
    BlockComment { depth: u32 },
    /// Inside a string literal that `delimiter` opened.
    String { delimiter: char },
}

impl State {
    /// A block-comment state is inside at least one comment.
    pub open spec fn well_formed(self) -> bool {
        self matches State::BlockComment { depth } ==> depth >= 1
    }
}

/// What a line holds.
#[derive(Debug, Clone, Copy, PartialEq, Eq)]
pub enum LineType {
    Code,
    Comment,
    Mixed,
    Blank,
}

/// The number of characters that the scanner passes over when it meets
/// `token`: the token's length, and one character for an empty token.
pub open spec fn advance(token: Seq<char>) -> int {
    if token.len() == 0 {
        1
    } else {
        token.len() as int
    }
}

/// Whether the block-comment opening token stands at `pos`.
pub open spec fn opens_block(line: Seq<char>, pos: int, rules: Ruleset) -> bool {
    rules.block_comment_start is Some && matches_at(line, pos, rules.block_comment_start->0)
}

/// Whether the block-comment closing token stands at `pos`.
pub open spec fn closes_block(line: Seq<char>, pos: int, rules: Ruleset) -> bool {
    rules.block_comment_end is Some && matches_at(line, pos, rules.block_comment_end->0)
}

/// Whether one of the line-comment tokens stands at `pos`.
pub open spec fn starts_line_comment(line: Seq<char>, pos: int, rules: Ruleset) -> bool {
    exists|i: int|
        0 <= i < rules.line_comments.len() && matches_at(line, pos, #[trigger] rules.line_comments[i])
}

/// Whether `c` alone is one of the string delimiters.
pub open spec fn delimits_string(c: char, rules: Ruleset) -> bool {
    exists|i: int|
        0 <= i < rules.string_delimiters.len() && (#[trigger] rules.string_delimiters[i]).len()
            == 1 && rules.string_delimiters[i][0] == c
}

/// The state that a line hands to the next one: a string literal ends with its
/// line, a block comment goes on.
pub open spec fn end_state(state: State) -> State {
    match state {
        State::String { .. } => State::Code,
        _ => state,
    }
}

/// The kind of a line on which code, a comment, both or neither was seen.
pub open spec fn line_kind(has_code: bool, has_comment: bool) -> LineType {
    if has_code && has_comment {
        LineType::Mixed
    } else if has_code {
        LineType::Code
    } else if has_comment {
        LineType::Comment
    } else {
        LineType::Blank
    }
}

/// The state inside a string literal that `delimiter` opened.
pub open spec fn in_string(delimiter: char) -> State {
    State::String { delimiter }
}

/// The state after one more block comment was opened at `depth`. The depth
/// stops growing at `u32::MAX`.
pub open spec fn deeper(depth: u32) -> State {
    State::BlockComment {
        depth: if depth < u32::MAX {
            (depth + 1) as u32
        } else {
            depth
        },
    }
}

/// The state after one block comment was closed at `depth`.
pub open spec fn shallower(depth: u32) -> State {
    if depth <= 1 {
        State::Code
    } else {
        State::BlockComment { depth: (depth - 1) as u32 }
    }
}

/// The scan of `line` from `pos` on, in `state`, when code and comment were
/// seen before `pos` as the two flags say. Gives the state that the line
/// leaves behind and the kind of the line.
///
/// In code, whitespace is passed over; the block-comment opening token is
/// tried before the line-comment tokens, then the string delimiters; anything
/// else is code. A line comment ends the scan: the rest of the line belongs to
/// it. In a block comment only the closing token and, where comments nest, the
/// opening token count. In a string a backslash takes the next character with
/// it, and the delimiter that opened the string closes it.
pub open spec fn scan(
    line: Seq<char>,
    pos: int,
    state: State,
    has_code: bool,
    has_comment: bool,
    rules: Ruleset,
) -> (State, LineType)
    decreases line.len() + 2 - pos,
{
    if pos < 0 || pos >= line.len() {
        (end_state(state), line_kind(has_code, has_comment))
    } else {
        match state {
            State::Code => {
                if is_whitespace(line[pos]) {
                    scan(line, pos + 1, state, has_code, has_comment, rules)
                } else if opens_block(line, pos, rules) {
                    scan(
                        line,
                        pos + advance(rules.block_comment_start->0),
                        State::BlockComment { depth: 1 },
                        has_code,
                        true,
                        rules,
                    )
                } else if starts_line_comment(line, pos, rules) {
                    (State::Code, line_kind(has_code, true))
                } else if delimits_string(line[pos], rules) {
                    scan(line, pos + 1, in_string(line[pos]), true, has_comment, rules)
                } else {
                    scan(line, pos + 1, state, true, has_comment, rules)
                }
            },
            State::BlockComment { depth } => {
                if closes_block(line, pos, rules) {
                    scan(
                        line,
                        pos + advance(rules.block_comment_end->0),
                        shallower(depth),
                        has_code,
                        has_comment,
                        rules,
                    )
                } else if rules.nested_comments && opens_block(line, pos, rules) {
                    scan(
                        line,
                        pos + advance(rules.block_comment_start->0),
                        deeper(depth),
                        has_code,
                        has_comment,
                        rules,
                    )
                } else {
                    scan(line, pos + 1, state, has_code, has_comment, rules)
                }
            },
            State::String { delimiter } => {
                if line[pos] == '\\' {
                    scan(line, pos + 2, state, has_code, has_comment, rules)
                } else if line[pos] == delimiter {
                    scan(line, pos + 1, State::Code, has_code, has_comment, rules)
                } else {
                    scan(line, pos + 1, state, has_code, has_comment, rules)
                }
            },
        }
    }
}

/// The state after `line` and the kind of `line`, when the line before left
/// `state` behind. A line that starts inside a block comment holds a comment.
pub open spec fn classify(line: Seq<char>, state: State, rules: Ruleset) -> (State, LineType) {
    scan(line, 0, state, false, state is BlockComment, rules)
}

/// The tokens of a language as characters, ready for scanning.
pub struct Lexicon {
    pub name: Vec<char>,
    pub line_comments: Vec<Vec<char>>,
    pub block_comment_start: Option<Vec<char>>,
    pub block_comment_end: Option<Vec<char>>,
    pub nested_comments: bool,
    pub string_delimiters: Vec<Vec<char>>,
    pub raw_string_start: Option<Vec<char>>,
    pub raw_string_end: Option<Vec<char>>,
}

impl View for Lexicon {
    type V = Ruleset;

    open spec fn view(&self) -> Ruleset {
        Ruleset {
            name: self.name@,
            line_comments: tokens_view(self.line_comments@),
            block_comment_start: opt_token_view(self.block_comment_start),
            block_comment_end: opt_token_view(self.block_comment_end),
            nested_comments: self.nested_comments,
            string_delimiters: tokens_view(self.string_delimiters@),
            raw_string_start: opt_token_view(self.raw_string_start),
            raw_string_end: opt_token_view(self.raw_string_end),
        }
    }
}

fn tokens_of(strings: &Vec<String>) -> (r: Vec<Vec<char>>)
    ensures
        tokens_view(r@) == crate::text::strings_view(strings@),
{
    let mut r: Vec<Vec<char>> = Vec::new();
    let mut i: usize = 0;
    while i < strings.len()
        invariant
            i <= strings.len(),
            r@.len() == i,
            forall|k: int| 0 <= k < i ==> (#[trigger] r@[k])@ == strings@[k]@,
        decreases strings.len() - i,
    {
        r.push(to_chars(strings[i].as_str()));
        i += 1;
    }
    assert(tokens_view(r@) =~= crate::text::strings_view(strings@));
    r
}

fn token_of(string: &Option<String>) -> (r: Option<Vec<char>>)
    ensures
        opt_token_view(r) == crate::text::opt_view(*string),
{
    match string {
        Some(s) => Some(to_chars(s.as_str())),
        None => None,
    }
}

fn token_advance(token: &Vec<char>) -> (r: usize)
    ensures
        r as int == advance(token@),
{
    if token.len() == 0 {
        1
    } else {
        token.len()
    }
}

impl Lexicon {
    /// The tokens of `language`.
    pub fn new(language: &Language) -> (r: Lexicon)
        ensures
            r@ == language@,
    {
        Lexicon {
            name: to_chars(language.name.as_str()),
            line_comments: tokens_of(&language.line_comments),
            block_comment_start: token_of(&language.block_comment_start),
            block_comment_end: token_of(&language.block_comment_end),
            nested_comments: language.nested_comments,
            string_delimiters: tokens_of(&language.string_delimiters),
            raw_string_start: token_of(&language.raw_string_start),
            raw_string_end: token_of(&language.raw_string_end),
        }
    }

    fn opens_block_at(&self, line: &[char], pos: usize) -> (r: bool)
        ensures
            r == opens_block(line@, pos as int, self@),
    {
        match &self.block_comment_start {
            Some(token) => chars_match_at(line, pos, token.as_slice()),
            None => false,
        }
    }

    fn closes_block_at(&self, line: &[char], pos: usize) -> (r: bool)
        ensures
            r == closes_block(line@, pos as int, self@),
    {
        match &self.block_comment_end {
            Some(token) => chars_match_at(line, pos, token.as_slice()),
            None => false,
        }
    }

    fn starts_line_comment_at(&self, line: &[char], pos: usize) -> (r: bool)
        ensures
            r == starts_line_comment(line@, pos as int, self@),
    {
        let mut i: usize = 0;
        while i < self.line_comments.len()
            invariant
                i <= self.line_comments.len(),
                forall|k: int|
                    0 <= k < i ==> !matches_at(line@, pos as int, #[trigger] self@.line_comments[k]),
            decreases self.line_comments.len() - i,
        {
            if chars_match_at(line, pos, self.line_comments[i].as_slice()) {
                assert(matches_at(line@, pos as int, self@.line_comments[i as int]));
                return true;
            }
            i += 1;
        }
        false
    }

    fn is_string_delimiter(&self, c: char) -> (r: bool)
        ensures
            r == delimits_string(c, self@),
    {
        let mut i: usize = 0;
        while i < self.string_delimiters.len()
            invariant
                i <= self.string_delimiters.len(),
                forall|k: int|
                    0 <= k < i ==> !((#[trigger] self@.string_delimiters[k]).len() == 1
                        && self@.string_delimiters[k][0] == c),
            decreases self.string_delimiters.len() - i,
        {
            let token = &self.string_delimiters[i];
            if token.len() == 1 && token[0] == c {
                assert(self@.string_delimiters[i as int].len() == 1
                    && self@.string_delimiters[i as int][0] == c);
                return true;
            }
            i += 1;
        }
        false
    }

    fn block_start_advance(&self) -> (r: usize)
        requires
            self.block_comment_start is Some,
        ensures
            r as int == advance(self@.block_comment_start->0),
    {
        match &self.block_comment_start {
            Some(token) => token_advance(token),
            None => 1,
        }
    }

    fn block_end_advance(&self) -> (r: usize)
        requires
            self.block_comment_end is Some,
        ensures
            r as int == advance(self@.block_comment_end->0),
    {
        match &self.block_comment_end {
            Some(token) => token_advance(token),
            None => 1,
        }
    }
}

/// The position `by` characters after `pos`, or the end of the line where
/// that lies beyond it.
pub open spec fn forward_to(line: Seq<char>, pos: int, by: int) -> int {
    if pos + by <= line.len() {
        pos + by
    } else {
        line.len() as int
    }
}

fn forward(line: &[char], pos: usize, by: usize) -> (r: usize)
    requires
        pos < line.len(),
    ensures
        r as int == forward_to(line@, pos as int, by as int),
{
    if by <= line.len() - pos {
        pos + by
    } else {
        line.len()
    }
}

/// Scans one line, given as characters, with the tokens of a language.
pub fn classify_chars(line: &[char], initial: State, lexicon: &Lexicon) -> (r: (State, LineType))
    ensures
        r == classify(line@, initial, lexicon@),
{
    let mut state = initial;
    let mut has_code = false;
    let mut has_comment = match initial {
        State::BlockComment { .. } => true,
        _ => false,
    };
    let mut pos: usize = 0;
    while pos < line.len()
        invariant
            pos <= line.len(),
            classify(line@, initial, lexicon@) == scan(
                line@,
                pos as int,
                state,
                has_code,
                has_comment,
                lexicon@,
            ),
        decreases line.len() - pos,
    {
        let c = line[pos];
        match state {
            State::Code => {
                if char_is_whitespace(c) {
                    pos += 1;
                } else if lexicon.opens_block_at(line, pos) {
                    has_comment = true;
                    state = State::BlockComment { depth: 1 };
                    pos = forward(line, pos, lexicon.block_start_advance());
                } else if lexicon.starts_line_comment_at(line, pos) {
                    return (
                        State::Code,
                        if has_code {
                            LineType::Mixed
                        } else {
                            LineType::Comment
                        },
                    );
                } else if lexicon.is_string_delimiter(c) {
                    has_code = true;
                    state = State::String { delimiter: c };
                    pos += 1;
                } else {
                    has_code = true;
                    pos += 1;
                }
            },
            State::BlockComment { depth } => {
                if lexicon.closes_block_at(line, pos) {
                    state =
                    if depth <= 1 {
                        State::Code
                    } else {
                        State::BlockComment { depth: depth - 1 }
                    };
                    pos = forward(line, pos, lexicon.block_end_advance());
                } else if lexicon.nested_comments && lexicon.opens_block_at(line, pos) {
                    state =
                    State::BlockComment {
                        depth: if depth < u32::MAX {
                            depth + 1
                        } else {
                            depth
                        },
                    };
                    pos = forward(line, pos, lexicon.block_start_advance());
                } else {
                    pos += 1;
                }
            },
            State::String { delimiter } => {
                if c == '\\' {
                    assert(scan(line@, pos + 2, state, has_code, has_comment, lexicon@) == scan(
                        line@,
                        forward_to(line@, pos as int, 2),
                        state,
                        has_code,
                        has_comment,
                        lexicon@,
                    ));
                    pos = forward(line, pos, 2);
                } else if c == delimiter {
                    state = State::Code;
                    pos += 1;
                } else {
                    pos += 1;
                }
            },
        }
    }
    let last = match state {
        State::String { .. } => State::Code,
        _ => state,
    };
    let kind = if has_code && has_comment {
        LineType::Mixed
    } else if has_code {
        LineType::Code
    } else if has_comment {
        LineType::Comment
    } else {
        LineType::Blank
    };
    (last, kind)
}

/// Scans one line: gives the state that the line leaves behind and the kind of
/// the line, when the line before left `initial_state` behind.
pub fn classify_line(line: &str, initial_state: State, lang: &Language) -> (r: (State, LineType))
    ensures
        r == classify(line@, initial_state, lang@),
{
    let chars = to_chars(line);
    let lexicon = Lexicon::new(lang);
    classify_chars(chars.as_slice(), initial_state, &lexicon)
}

/// The counters of a file while it is read, and the state that the lines so
/// far have left behind.
pub ghost struct Tally {
    pub code: nat,
    pub comments: nat,
    pub blanks: nat,
    pub state: State,
}

impl Tally {
    /// Nothing counted yet, in code.
    pub open spec fn start() -> Tally {
        Tally { code: 0, comments: 0, blanks: 0, state: State::Code }
    }

    /// The number of lines counted.
    pub open spec fn total(self) -> nat {
        self.code + self.comments + self.blanks
    }

    /// One more line of the given kind; a mixed line counts as code.
    pub open spec fn add(self, kind: LineType, state: State) -> Tally {
        match kind {
            LineType::Code | LineType::Mixed => Tally { code: self.code + 1, state, ..self },
            LineType::Comment => Tally { comments: self.comments + 1, state, ..self },
            LineType::Blank => Tally { blanks: self.blanks + 1, state, ..self },
        }
    }
}

/// What one line of a file does: a line that is empty once trimmed is a
/// comment inside a block comment and a blank elsewhere, and leaves the state
/// as it was; any other line is scanned, trimmed.
pub open spec fn line_outcome(line: Seq<char>, state: State, rules: Ruleset) -> (State, LineType) {
    let trimmed = trim(line);
    if trimmed.len() == 0 {
        (
            state,
            if state is BlockComment {
                LineType::Comment
            } else {
                LineType::Blank
            },
        )
    } else {
        classify(trimmed, state, rules)
    }
}

/// The tally after one more line.
pub open spec fn count_line(tally: Tally, line: Seq<char>, rules: Ruleset) -> Tally {
    let outcome = line_outcome(line, tally.state, rules);
    tally.add(outcome.1, outcome.0)
}

/// The tally after the given lines, taken in order from `tally` on.
pub open spec fn count_from(tally: Tally, lines: Seq<Seq<char>>, rules: Ruleset) -> Tally
    decreases lines.len(),
{
    if lines.len() == 0 {
        tally
    } else {
        count_from(count_line(tally, lines[0], rules), lines.drop_first(), rules)
    }
}

/// The index of the first newline at or after `from`, or the length of
/// `bytes` when there is none.
pub open spec fn line_end(bytes: Seq<u8>, from: int) -> int
    decreases bytes.len() - from,
{
    if from < 0 || from >= bytes.len() {
        bytes.len() as int
    } else if bytes[from] == 10 {
        from
    } else {
        line_end(bytes, from + 1)
    }
}

/// The line `bytes[start..end]` as a reader hands it out: a line that a
/// newline ends loses a carriage return just before it.
pub open spec fn line_content(bytes: Seq<u8>, start: int, end: int) -> Seq<u8> {
    if start < end < bytes.len() && bytes[end - 1] == 13 {
        bytes.subrange(start, end - 1)
    } else {
        bytes.subrange(start, end)
    }
}

/// The physical lines of `bytes` from index `from` on: every run of bytes that
/// a newline or the end of the file ends.
pub open spec fn physical_lines_from(bytes: Seq<u8>, from: int) -> Seq<Seq<u8>>
    decreases bytes.len() + 1 - from,
{
    if from < 0 || from >= bytes.len() {
        Seq::empty()
    } else {
        let end = line_end(bytes, from);
        if from <= end <= bytes.len() {
            seq![line_content(bytes, from, end)] + physical_lines_from(bytes, end + 1)
        } else {
            Seq::empty()
        }
    }
}

/// The physical lines of a file.
pub open spec fn physical_lines(bytes: Seq<u8>) -> Seq<Seq<u8>> {
    physical_lines_from(bytes, 0)
}

/// The lines that can be read as text: those that are valid UTF-8, decoded.
/// A line that is not valid UTF-8 is passed over.
pub open spec fn readable_lines(lines: Seq<Seq<u8>>) -> Seq<Seq<char>>
    decreases lines.len(),
{
    if lines.len() == 0 {
        Seq::empty()
    } else if valid_utf8(lines[0]) {
        seq![decode_utf8(lines[0])] + readable_lines(lines.drop_first())
    } else {
        readable_lines(lines.drop_first())
    }
}

/// The number of NUL bytes in `bytes`.
pub open spec fn count_nul(bytes: Seq<u8>) -> nat
    decreases bytes.len(),
{
    if bytes.len() == 0 {
        0
    } else {
        count_nul(bytes.drop_last()) + if bytes.last() == 0 {
            1nat
        } else {
            0nat
        }
    }
}

/// How many bytes at the start of a file are probed for binary content.
pub const PROBE_LEN: usize = 8192;

/// What is probed of a file: its first `PROBE_LEN` bytes.
pub open spec fn probe(bytes: Seq<u8>) -> Seq<u8> {
    if bytes.len() <= PROBE_LEN {
        bytes
    } else {
        bytes.take(PROBE_LEN as int)
    }
}

/// Whether a file is taken for binary: among the probed bytes, more than a
/// tenth, and more than one, are NUL.
pub open spec fn is_binary(bytes: Seq<u8>) -> bool {
    let probed = probe(bytes);
    let tenth = probed.len() / 10;
    count_nul(probed) > if tenth > 1 {
        tenth
    } else {
        1
    }
}

/// The tally of a whole file: nothing for a binary file, and else the count of
/// its readable lines.
pub open spec fn file_tally(bytes: Seq<u8>, rules: Ruleset) -> Tally {
    if is_binary(bytes) {
        Tally::start()
    } else {
        count_from(Tally::start(), readable_lines(physical_lines(bytes)), rules)
    }
}

/// Counting adds one to the total for each line.
pub proof fn lemma_count_total(tally: Tally, lines: Seq<Seq<char>>, rules: Ruleset)
    ensures
        count_from(tally, lines, rules).total() == tally.total() + lines.len(),
    decreases lines.len(),
{
    if lines.len() > 0 {
        lemma_count_total(count_line(tally, lines[0], rules), lines.drop_first(), rules);
    }
}

/// Whether the probed part of `content` marks the file as binary.
pub fn content_is_binary(content: &[u8]) -> (r: bool)
    ensures
        r == is_binary(content@),
{
    let n: usize = if content.len() <= PROBE_LEN {
        content.len()
    } else {
        PROBE_LEN
    };
    let mut nul: usize = 0;
    let mut i: usize = 0;
    assert(content@.take(0) =~= Seq::empty());
    while i < n
        invariant
            i <= n <= content.len(),
            nul <= i,
            nul as nat == count_nul(content@.take(i as int)),
        decreases n - i,
    {
        proof {
            let next = content@.take(i + 1);
            assert(next.drop_last() =~= content@.take(i as int));
            assert(next.last() == content@[i as int]);
        }
        if content[i] == 0 {
            nul += 1;
        }
        i += 1;
    }
    assert(content@.take(content.len() as int) =~= content@);
    let tenth: usize = n / 10;
    let threshold: usize = if tenth > 1 {
        tenth
    } else {
        1
    };
    nul > threshold
}

/// Decodes a line. Trusted: `core::str::from_utf8` accepts exactly the byte
/// strings that are valid UTF-8, and the text it gives holds the characters
/// that those bytes encode.
#[verifier::external_body]
fn decode_line(bytes: &[u8]) -> (r: Option<Vec<char>>)
    ensures
        r is Some == valid_utf8(bytes@),
        r is Some ==> r->0@ == decode_utf8(bytes@),
{
    match core::str::from_utf8(bytes) {
        Ok(text) => Some(text.chars().collect()),
        Err(_) => None,
    }
}

fn find_line_end(content: &[u8], from: usize) -> (r: usize)
    requires
        from <= content.len(),
    ensures
        r as int == line_end(content@, from as int),
        from <= r <= content.len(),
{
    let mut i: usize = from;
    while i < content.len() && content[i] != 10
        invariant
            from <= i <= content.len(),
            line_end(content@, from as int) == line_end(content@, i as int),
        decreases content.len() - i,
    {
        i += 1;
    }
    i
}

/// The state and kind that one line of a file gives.
pub fn classify_file_line(line: &[char], state: State, lexicon: &Lexicon) -> (r: (State, LineType))
    ensures
        r == line_outcome(line@, state, lexicon@),
{
    let (start, end) = trim_bounds(line);
    if start == end {
        let kind = match state {
            State::BlockComment { .. } => LineType::Comment,
            _ => LineType::Blank,
        };
        (state, kind)
    } else {
        let trimmed = slice_subrange(line, start, end);
        classify_chars(trimmed, state, lexicon)
    }
}

/// Counts the lines of a file from its content.
///
/// A file whose first bytes look binary counts for nothing. Else each physical
/// line that is valid UTF-8 is counted once, as code, comment or blank; a line
/// that holds both code and a comment counts as code.
pub fn count_lines(path: &str, content: &[u8], language: &Language) -> (r: FileStats)
    ensures
        r.path@ == path@,
        r.language@ == language@.name,
        r.code == file_tally(content@, language@).code,
        r.comments == file_tally(content@, language@).comments,
        r.blanks == file_tally(content@, language@).blanks,
        is_binary(content@) ==> r.code + r.comments + r.blanks == 0,
        !is_binary(content@) ==> r.code + r.comments + r.blanks == readable_lines(
            physical_lines(content@),
        ).len(),
        r.code + r.comments + r.blanks <= physical_lines(content@).len(),
        r.code + r.comments + r.blanks <= content@.len(),
{
    let mut stats = FileStats {
        path: String::from_str(path),
        language: language.name.clone(),
        code: 0,
        comments: 0,
        blanks: 0,
    };
    proof {
        lemma_readable_lines_bound(physical_lines(content@));
    }
    if content_is_binary(content) {
        return stats;
    }
    let lexicon = Lexicon::new(language);
    let plain = !language.has_comments();
    let mut state = State::Code;
    let mut pos: usize = 0;
    let ghost all = readable_lines(physical_lines(content@));
    let ghost rules = language@;
    proof {
        lemma_count_total(Tally::start(), all, rules);
    }
    while pos < content.len()
        invariant
            pos <= content.len(),
            lexicon@ == rules,
            rules == language@,
            plain == !rules.has_comments(),
            plain ==> state is Code,
            stats.path@ == path@,
            stats.language@ == language@.name,
            stats.code + stats.comments + stats.blanks <= pos,
            count_from(Tally::start(), all, rules) == count_from(
                Tally {
                    code: stats.code as nat,
                    comments: stats.comments as nat,
                    blanks: stats.blanks as nat,
                    state,
                },
                readable_lines(physical_lines_from(content@, pos as int)),
                rules,
            ),
        decreases content.len() - pos,
    {
        let end = find_line_end(content, pos);
        let stop: usize = if pos < end && end < content.len() && content[end - 1] == 13 {
            end - 1
        } else {
            end
        };
        let raw = slice_subrange(content, pos, stop);
        let ghost rest = physical_lines_from(content@, end + 1);
        proof {
            let lines = physical_lines_from(content@, pos as int);
            assert(lines == seq![raw@] + rest);
            assert(lines[0] == raw@);
            assert(lines.drop_first() =~= rest);
        }
        match decode_line(raw) {
            Some(chars) => {
                let ghost before = Tally {
                    code: stats.code as nat,
                    comments: stats.comments as nat,
                    blanks: stats.blanks as nat,
                    state,
                };
                proof {
                    let texts = readable_lines(physical_lines_from(content@, pos as int));
                    assert(texts == seq![chars@] + readable_lines(rest));
                    assert(texts[0] == chars@);
                    assert(texts.drop_first() =~= readable_lines(rest));
                }
                let (next, kind) = if plain {
                    let (start, stop_at) = trim_bounds(chars.as_slice());
                    proof {
                        if start != stop_at {
                            lemma_plain_line(chars@, rules);
                        }
                    }
                    if start == stop_at {
                        (State::Code, LineType::Blank)
                    } else {
                        (State::Code, LineType::Code)
                    }
                } else {
                    classify_file_line(chars.as_slice(), state, &lexicon)
                };
                assert((next, kind) == line_outcome(chars@, state, rules));
                state = next;
                match kind {
                    LineType::Code | LineType::Mixed => {
                        stats.code += 1;
                    },
                    LineType::Comment => {
                        stats.comments += 1;
                    },
                    LineType::Blank => {
                        stats.blanks += 1;
                    },
                }
                assert(Tally {
                    code: stats.code as nat,
                    comments: stats.comments as nat,
                    blanks: stats.blanks as nat,
                    state,
                } == count_line(before, chars@, rules));
            },
            None => {},
        }
        if end < content.len() {
            pos = end + 1;
        } else {
            assert(physical_lines_from(content@, end + 1) == physical_lines_from(
                content@,
                end as int,
            ));
            pos = end;
        }
    }
    stats
}

/// The first non-whitespace character of a text that is not all whitespace.
pub proof fn lemma_skip_whitespace(s: Seq<char>, from: int)
    requires
        0 <= from,
    ensures
        from <= s.len() ==> from <= skip_whitespace(s, from) <= s.len(),
        skip_whitespace(s, from) < s.len() ==> !is_whitespace(s[skip_whitespace(s, from)]),
    decreases s.len() - from,
{
    if from < s.len() && is_whitespace(s[from]) {
        lemma_skip_whitespace(s, from + 1);
    }
}

/// Bounds of the backward skip.
pub proof fn lemma_skip_whitespace_back(s: Seq<char>, lo: int, hi: int)
    requires
        0 <= lo <= hi <= s.len(),
    ensures
        lo <= skip_whitespace_back(s, lo, hi) <= hi,
    decreases hi,
{
    if lo < hi && is_whitespace(s[hi - 1]) {
        lemma_skip_whitespace_back(s, lo, hi - 1);
    }
}

/// A trimmed text that is not empty starts with a character that is no
/// whitespace.
pub proof fn lemma_trim_starts_with_text(s: Seq<char>)
    requires
        trim(s).len() > 0,
    ensures
        !is_whitespace(trim(s)[0]),
{
    lemma_skip_whitespace(s, 0);
    let start = skip_whitespace(s, 0);
    lemma_skip_whitespace_back(s, start, s.len() as int);
}

/// In a language without comments, a scan that has seen code ends in code.
pub proof fn lemma_scan_plain(line: Seq<char>, pos: int, state: State, rules: Ruleset)
    requires
        !rules.has_comments(),
        !(state is BlockComment),
        0 <= pos,
    ensures
        scan(line, pos, state, true, false, rules) == (State::Code, LineType::Code),
    decreases line.len() + 2 - pos,
{
    if pos < line.len() {
        match state {
            State::Code => {
                if is_whitespace(line[pos]) {
                    lemma_scan_plain(line, pos + 1, state, rules);
                } else if delimits_string(line[pos], rules) {
                    lemma_scan_plain(line, pos + 1, in_string(line[pos]), rules);
                } else {
                    lemma_scan_plain(line, pos + 1, state, rules);
                }
            },
            State::BlockComment { .. } => {},
            State::String { delimiter } => {
                if line[pos] == '\\' {
                    lemma_scan_plain(line, pos + 2, state, rules);
                } else if line[pos] == delimiter {
                    lemma_scan_plain(line, pos + 1, State::Code, rules);
                } else {
                    lemma_scan_plain(line, pos + 1, state, rules);
                }
            },
        }
    }
}

/// In a language without comments, a line that holds more than whitespace is
/// code.
pub proof fn lemma_plain_line(line: Seq<char>, rules: Ruleset)
    requires
        !rules.has_comments(),
        trim(line).len() > 0,
    ensures
        line_outcome(line, State::Code, rules) == (State::Code, LineType::Code),
{
    let t = trim(line);
    lemma_trim_starts_with_text(line);
    if delimits_string(t[0], rules) {
        lemma_scan_plain(t, 1, in_string(t[0]), rules);
    } else {
        lemma_scan_plain(t, 1, State::Code, rules);
    }
}

/// Where every line is valid UTF-8, every line is read.
pub proof fn lemma_all_lines_readable(lines: Seq<Seq<u8>>)
    requires
        forall|i: int| 0 <= i < lines.len() ==> valid_utf8(#[trigger] lines[i]),
    ensures
        readable_lines(lines).len() == lines.len(),
    decreases lines.len(),
{
    if lines.len() > 0 {
        assert(valid_utf8(lines[0]));
        assert forall|i: int| 0 <= i < lines.drop_first().len() implies valid_utf8(
            #[trigger] lines.drop_first()[i],
        ) by {
            assert(lines.drop_first()[i] == lines[i + 1]);
        }
        lemma_all_lines_readable(lines.drop_first());
    }
}

/// No more lines are read than there are.
pub proof fn lemma_readable_lines_bound(lines: Seq<Seq<u8>>)
    ensures
        readable_lines(lines).len() <= lines.len(),
    decreases lines.len(),
{
    if lines.len() > 0 {
        lemma_readable_lines_bound(lines.drop_first());
    }
}

/// Counting a file in two parts, the second begun in the state and with the
/// counts that the first has left, gives the counts of the whole.
pub proof fn lemma_count_split(
    tally: Tally,
    first: Seq<Seq<char>>,
    rest: Seq<Seq<char>>,
    rules: Ruleset,
)
    ensures
        count_from(tally, first + rest, rules) == count_from(
            count_from(tally, first, rules),
            rest,
            rules,
        ),
    decreases first.len(),
{
    if first.len() == 0 {
        assert(first + rest =~= rest);
    } else {
        assert((first + rest)[0] == first[0]);
        assert((first + rest).drop_first() =~= first.drop_first() + rest);
        lemma_count_split(count_line(tally, first[0], rules), first.drop_first(), rest, rules);
    }
}

/// Lines that hold nothing but whitespace, met outside a block comment, are
/// blanks.
pub proof fn lemma_blank_lines(tally: Tally, lines: Seq<Seq<char>>, rules: Ruleset)
    requires
        !(tally.state is BlockComment),
        forall|i: int| 0 <= i < lines.len() ==> trim(#[trigger] lines[i]).len() == 0,
    ensures
        count_from(tally, lines, rules) == (Tally { blanks: tally.blanks + lines.len(), ..tally }),
    decreases lines.len(),
{
    if lines.len() > 0 {
        assert(trim(lines[0]).len() == 0);
        let next = count_line(tally, lines[0], rules);
        assert forall|i: int| 0 <= i < lines.drop_first().len() implies trim(
            #[trigger] lines.drop_first()[i],
        ).len() == 0 by {
            assert(lines.drop_first()[i] == lines[i + 1]);
        }
        lemma_blank_lines(next, lines.drop_first(), rules);
    }
}

/// Bytes without a NUL hold no NUL.
pub proof fn lemma_no_nul(bytes: Seq<u8>)
    requires
        forall|i: int| 0 <= i < bytes.len() ==> #[trigger] bytes[i] != 0,
    ensures
        count_nul(bytes) == 0,
    decreases bytes.len(),
{
    if bytes.len() > 0 {
        assert(bytes.last() == bytes[bytes.len() - 1]);
        assert forall|i: int| 0 <= i < bytes.drop_last().len() implies #[trigger] bytes.drop_last()[i]
            != 0 by {
            assert(bytes.drop_last()[i] == bytes[i]);
        }
        lemma_no_nul(bytes.drop_last());
    }
}

/// From `from` on, a file of newlines holds one empty line for each byte.
pub proof fn lemma_newline_lines(bytes: Seq<u8>, from: int)
    requires
        0 <= from <= bytes.len(),
        forall|i: int| 0 <= i < bytes.len() ==> #[trigger] bytes[i] == 10,
    ensures
        readable_lines(physical_lines_from(bytes, from)).len() == bytes.len() - from,
        physical_lines_from(bytes, from).len() == bytes.len() - from,
        forall|i: int|
            0 <= i < bytes.len() - from ==> (#[trigger] readable_lines(
                physical_lines_from(bytes, from),
            )[i]).len() == 0,
    decreases bytes.len() - from,
{
    if from < bytes.len() {
        assert(bytes[from] == 10);
        assert(line_end(bytes, from) == from);
        let first = line_content(bytes, from, from);
        assert(first =~= Seq::<u8>::empty());
        let rest = physical_lines_from(bytes, from + 1);
        let lines = physical_lines_from(bytes, from);
        assert(lines == seq![first] + rest);
        assert(lines[0] == first);
        assert(lines.drop_first() =~= rest);
        lemma_newline_lines(bytes, from + 1);
        assert(valid_utf8(first));
        assert(decode_utf8(first) =~= Seq::<char>::empty());
        let texts = readable_lines(lines);
        assert(texts == seq![decode_utf8(first)] + readable_lines(rest));
        assert forall|i: int| 0 <= i < bytes.len() - from implies (#[trigger] texts[i]).len()
            == 0 by {
            if i > 0 {
                assert(texts[i] == readable_lines(rest)[i - 1]);
            }
        }
    }
}

/// A file that holds nothing but newlines has one blank line for each of
/// them, and no other line.
pub proof fn lemma_only_newlines(bytes: Seq<u8>, rules: Ruleset)
    requires
        forall|i: int| 0 <= i < bytes.len() ==> #[trigger] bytes[i] == 10,
    ensures
        physical_lines(bytes).len() == bytes.len(),
        file_tally(bytes, rules) == (Tally {
            code: 0,
            comments: 0,
            blanks: bytes.len(),
            state: State::Code,
        }),
{
    let probed = probe(bytes);
    assert forall|i: int| 0 <= i < probed.len() implies #[trigger] probed[i] != 0 by {
        assert(probed[i] == bytes[i]);
    }
    lemma_no_nul(probed);
    lemma_newline_lines(bytes, 0);
    let texts = readable_lines(physical_lines(bytes));
    assert forall|i: int| 0 <= i < texts.len() implies trim(#[trigger] texts[i]).len() == 0 by {
        assert(texts[i].len() == 0);
    }
    lemma_blank_lines(Tally::start(), texts, rules);
}

/// An empty file counts for nothing.
pub proof fn lemma_empty_file(rules: Ruleset)
    ensures
        file_tally(Seq::<u8>::empty(), rules) == Tally::start(),
{
    lemma_only_newlines(Seq::<u8>::empty(), rules);
}

/// The end of a line does not lie before its start.
pub proof fn lemma_line_end_bounds(bytes: Seq<u8>, from: int)
    requires
        0 <= from <= bytes.len(),
    ensures
        from <= line_end(bytes, from) <= bytes.len(),
        line_end(bytes, from) < bytes.len() ==> bytes[line_end(bytes, from)] == 10,
        forall|i: int| from <= i < line_end(bytes, from) ==> bytes[i] != 10,
    decreases bytes.len() - from,
{
    if from < bytes.len() && bytes[from] != 10 {
        lemma_line_end_bounds(bytes, from + 1);
    }
}

/// Where a newline follows, the line ends at the first one.
pub proof fn lemma_line_end_at(bytes: Seq<u8>, from: int, at: int)
    requires
        0 <= from <= at < bytes.len(),
        bytes[at] == 10,
        forall|i: int| from <= i < at ==> bytes[i] != 10,
    ensures
        line_end(bytes, from) == at,
    decreases at - from,
{
    if from < at {
        lemma_line_end_at(bytes, from + 1, at);
    }
}

/// Where no newline follows, the line ends with the file.
pub proof fn lemma_line_end_none(bytes: Seq<u8>, from: int)
    requires
        0 <= from <= bytes.len(),
        forall|i: int| from <= i < bytes.len() ==> bytes[i] != 10,
    ensures
        line_end(bytes, from) == bytes.len(),
    decreases bytes.len() - from,
{
    if from < bytes.len() {
        lemma_line_end_none(bytes, from + 1);
    }
}

/// The lines of a file that goes on, after its last newline, with text that
/// no newline ends: those of the file up to that newline, and that text as
/// one more line. So a last line counts though no newline ends it.
pub proof fn lemma_last_line_is_a_line(head: Seq<u8>, tail: Seq<u8>, from: int)
    requires
        head.len() == 0 || head.last() == 10,
        tail.len() > 0,
        forall|i: int| 0 <= i < tail.len() ==> tail[i] != 10,
        0 <= from <= head.len(),
    ensures
        physical_lines_from(head + tail, from) == physical_lines_from(head, from).push(tail),
    decreases head.len() - from,
{
    let whole = head + tail;
    if from == head.len() {
        assert forall|i: int| from <= i < whole.len() implies whole[i] != 10 by {
            assert(whole[i] == tail[i - head.len()]);
        }
        lemma_line_end_none(whole, from);
        assert(line_content(whole, from, whole.len() as int) =~= tail);
        assert(physical_lines_from(whole, (whole.len() + 1) as int) =~= Seq::<Seq<u8>>::empty());
        assert(physical_lines_from(head, from) =~= Seq::<Seq<u8>>::empty());
        assert(physical_lines_from(whole, from) =~= Seq::<Seq<u8>>::empty().push(tail));
    } else {
        lemma_line_end_bounds(head, from);
        let end = line_end(head, from);
        assert(end < head.len()) by {
            if end == head.len() {
                assert(head[head.len() - 1] == head.last());
            }
        }
        assert forall|i: int| from <= i < end implies whole[i] != 10 by {
            assert(whole[i] == head[i]);
        }
        assert(whole[end] == head[end]);
        lemma_line_end_at(whole, from, end);
        assert(line_content(whole, from, end) =~= line_content(head, from, end)) by {
            if from < end {
                assert(whole[end - 1] == head[end - 1]);
            }
        }
        lemma_last_line_is_a_line(head, tail, end + 1);
        assert(physical_lines_from(whole, from) =~= physical_lines_from(head, from).push(tail));
    }
}

/// Whitespace behind a text does not change where its first text starts.
pub proof fn lemma_skip_whitespace_push(s: Seq<char>, c: char, from: int)
    requires
        is_whitespace(c),
        0 <= from <= s.len(),
    ensures
        skip_whitespace(s.push(c), from) == (if skip_whitespace(s, from) < s.len() {
            skip_whitespace(s, from)
        } else {
            (s.len() + 1) as int
        }),
    decreases s.len() - from,
{
    let longer = s.push(c);
    if from < s.len() {
        assert(longer[from] == s[from]);
        if is_whitespace(s[from]) {
            lemma_skip_whitespace_push(s, c, from + 1);
        }
    } else {
        assert(longer[from] == c);
        assert(skip_whitespace(longer, from + 1) == longer.len());
    }
}

/// Whitespace behind a text does not change where the text before it ends.
pub proof fn lemma_skip_whitespace_back_push(s: Seq<char>, c: char, lo: int, hi: int)
    requires
        0 <= lo <= hi <= s.len(),
    ensures
        skip_whitespace_back(s.push(c), lo, hi) == skip_whitespace_back(s, lo, hi),
    decreases hi,
{
    if lo < hi {
        assert(s.push(c)[hi - 1] == s[hi - 1]);
        if is_whitespace(s[hi - 1]) {
            lemma_skip_whitespace_back_push(s, c, lo, hi - 1);
        }
    }
}

/// Whitespace behind a text is trimmed away.
pub proof fn lemma_trim_push(s: Seq<char>, c: char)
    requires
        is_whitespace(c),
    ensures
        trim(s.push(c)) == trim(s),
{
    let longer = s.push(c);
    lemma_skip_whitespace_push(s, c, 0);
    lemma_skip_whitespace(s, 0);
    let start = skip_whitespace(s, 0);
    if start < s.len() {
        assert(longer[s.len() as int] == c);
        assert(skip_whitespace_back(longer, start, longer.len() as int) == skip_whitespace_back(
            longer,
            start,
            s.len() as int,
        ));
        lemma_skip_whitespace_back_push(s, c, start, s.len() as int);
        lemma_skip_whitespace_back(s, start, s.len() as int);
        assert(trim(longer) =~= trim(s));
    } else {
        assert(trim(longer) =~= trim(s));
    }
}

/// A carriage return behind bytes is one more character: the bytes with it
/// are valid UTF-8 exactly when they are without it, and decode to the same
/// text with a carriage return behind it.
pub proof fn lemma_carriage_return(bytes: Seq<u8>)
    ensures
        valid_utf8(bytes.push(13)) == valid_utf8(bytes),
        valid_utf8(bytes) ==> decode_utf8(bytes.push(13)) == decode_utf8(bytes).push('\r'),
{
    let cr = seq![13u8];
    let longer = bytes + cr;
    assert(bytes.push(13) =~= longer);
    assert(valid_utf8(cr) && decode_utf8(cr) =~= seq!['\r']) by {
        reveal_with_fuel(valid_utf8, 2);
        reveal_with_fuel(decode_utf8, 2);
        assert(13u8 & 0x7F == 13u8) by (bit_vector);
        assert(vstd::utf8::pop_first_scalar(cr) =~= Seq::<u8>::empty());
        assert(vstd::utf8::decode_first_scalar(cr) == 13u32);
        assert(13u32 as char == '\r');
    }
    assert(longer.subrange(0, bytes.len() as int) =~= bytes);
    assert(longer.subrange(bytes.len() as int, longer.len() as int) =~= cr);
    if valid_utf8(bytes) {
        vstd::utf8::valid_utf8_concat(bytes, cr);
    }
    if valid_utf8(longer) {
        assert(longer[bytes.len() as int] == 13u8);
        vstd::utf8::is_char_boundary_iff_not_is_continuation_byte(longer, bytes.len() as int);
        vstd::utf8::valid_utf8_split(longer, bytes.len() as int);
        vstd::utf8::decode_utf8_split(longer, bytes.len() as int);
        assert(decode_utf8(bytes) + seq!['\r'] =~= decode_utf8(bytes).push('\r'));
    }
}

/// A carriage return behind a line changes nothing in what the line counts
/// for.
pub proof fn lemma_carriage_return_counts(tally: Tally, line: Seq<u8>, rules: Ruleset)
    ensures
        count_from(tally, readable_lines(seq![line.push(13)]), rules) == count_from(
            tally,
            readable_lines(seq![line]),
            rules,
        ),
{
    lemma_carriage_return(line);
    let with = seq![line.push(13)];
    let without = seq![line];
    assert(with.drop_first() =~= Seq::<Seq<u8>>::empty());
    assert(without.drop_first() =~= Seq::<Seq<u8>>::empty());
    assert(readable_lines(Seq::<Seq<u8>>::empty()) =~= Seq::<Seq<char>>::empty());
    if valid_utf8(line) {
        let text = decode_utf8(line);
        assert(is_whitespace('\r'));
        lemma_trim_push(text, '\r');
        assert(readable_lines(with) =~= seq![text.push('\r')]);
        assert(readable_lines(without) =~= seq![text]);
        assert(seq![text.push('\r')].drop_first() =~= Seq::<Seq<char>>::empty());
        assert(seq![text].drop_first() =~= Seq::<Seq<char>>::empty());
        assert(count_from(tally, seq![text.push('\r')], rules) == count_line(
            tally,
            text.push('\r'),
            rules,
        )) by {
            assert(count_from(
                count_line(tally, text.push('\r'), rules),
                Seq::<Seq<char>>::empty(),
                rules,
            ) == count_line(tally, text.push('\r'), rules));
        }
        assert(count_from(tally, seq![text], rules) == count_line(tally, text, rules)) by {
            assert(count_from(count_line(tally, text, rules), Seq::<Seq<char>>::empty(), rules)
                == count_line(tally, text, rules));
        }
    } else {
        assert(readable_lines(with) =~= Seq::<Seq<char>>::empty());
        assert(readable_lines(without) =~= Seq::<Seq<char>>::empty());
    }
}

/// The count of the lines behind a first line, from the count of that line.
proof fn lemma_count_first_line(
    tally: Tally,
    first: Seq<u8>,
    rest: Seq<Seq<u8>>,
    rules: Ruleset,
)
    ensures
        count_from(tally, readable_lines(seq![first] + rest), rules) == count_from(
            count_from(tally, readable_lines(seq![first]), rules),
            readable_lines(rest),
            rules,
        ),
{
    let lines = seq![first] + rest;
    assert(lines[0] == first);
    assert(lines.drop_first() =~= rest);
    let one = seq![first];
    assert(one.drop_first() =~= Seq::<Seq<u8>>::empty());
    assert(readable_lines(Seq::<Seq<u8>>::empty()) =~= Seq::<Seq<char>>::empty());
    if valid_utf8(first) {
        assert(readable_lines(one) =~= seq![decode_utf8(first)]);
        assert(readable_lines(lines) == seq![decode_utf8(first)] + readable_lines(rest));
        lemma_count_split(tally, seq![decode_utf8(first)], readable_lines(rest), rules);
    } else {
        assert(readable_lines(one) =~= Seq::<Seq<char>>::empty());
        assert(readable_lines(lines) == readable_lines(rest));
    }
}

/// A newline behind a last line that no newline ends leaves the count of the
/// lines from `from` on as it is.
pub proof fn lemma_final_newline_from(bytes: Seq<u8>, from: int, tally: Tally, rules: Ruleset)
    requires
        bytes.len() > 0,
        bytes.last() != 10,
        0 <= from < bytes.len(),
    ensures
        count_from(tally, readable_lines(physical_lines_from(bytes.push(10), from)), rules)
            == count_from(tally, readable_lines(physical_lines_from(bytes, from)), rules),
    decreases bytes.len() - from,
{
    let longer = bytes.push(10);
    lemma_line_end_bounds(bytes, from);
    let end = line_end(bytes, from);
    assert forall|i: int| from <= i < end implies longer[i] != 10 by {
        assert(longer[i] == bytes[i]);
    }
    assert(longer[end] == 10) by {
        if end < bytes.len() {
            assert(longer[end] == bytes[end]);
        }
    }
    lemma_line_end_at(longer, from, end);
    if end < bytes.len() {
        assert(end + 1 < bytes.len()) by {
            assert(bytes[bytes.len() - 1] == bytes.last());
        }
        let first = line_content(bytes, from, end);
        assert(line_content(longer, from, end) =~= first) by {
            if from < end {
                assert(longer[end - 1] == bytes[end - 1]);
            }
        }
        lemma_count_first_line(tally, first, physical_lines_from(longer, end + 1), rules);
        lemma_count_first_line(tally, first, physical_lines_from(bytes, end + 1), rules);
        lemma_final_newline_from(
            bytes,
            end + 1,
            count_from(tally, readable_lines(seq![first]), rules),
            rules,
        );
    } else {
        assert(longer[end - 1] == bytes.last());
        assert(physical_lines_from(longer, end + 1) =~= Seq::<Seq<u8>>::empty());
        assert(physical_lines_from(bytes, end + 1) =~= Seq::<Seq<u8>>::empty());
        let last = line_content(bytes, from, end);
        assert(last =~= bytes.subrange(from, end));
        assert(physical_lines_from(bytes, from) =~= seq![last]);
        if bytes.last() == 13 {
            let stem = bytes.subrange(from, end - 1);
            assert(line_content(longer, from, end) =~= stem);
            assert(last =~= stem.push(13));
            assert(physical_lines_from(longer, from) =~= seq![stem]);
            lemma_carriage_return_counts(tally, stem, rules);
        } else {
            assert(line_content(longer, from, end) =~= last);
            assert(physical_lines_from(longer, from) =~= seq![last]);
        }
    }
}

/// A last line that no newline ends is counted like one that a newline ends:
/// a file without a NUL that does not end in a newline has the counts of the
/// same file with a newline behind it.
pub proof fn lemma_final_newline(bytes: Seq<u8>, rules: Ruleset)
    requires
        bytes.len() > 0,
        bytes.last() != 10,
        forall|i: int| 0 <= i < bytes.len() ==> #[trigger] bytes[i] != 0,
    ensures
        file_tally(bytes.push(10), rules).code == file_tally(bytes, rules).code,
        file_tally(bytes.push(10), rules).comments == file_tally(bytes, rules).comments,
        file_tally(bytes.push(10), rules).blanks == file_tally(bytes, rules).blanks,
        file_tally(bytes.push(10), rules).state == file_tally(bytes, rules).state,
{
    let longer = bytes.push(10);
    lemma_final_newline_from(bytes, 0, Tally::start(), rules);
    let first = probe(bytes);
    let second = probe(longer);
    assert forall|i: int| 0 <= i < first.len() implies #[trigger] first[i] != 0 by {
        assert(first[i] == bytes[i]);
    }
    assert forall|i: int| 0 <= i < second.len() implies #[trigger] second[i] != 0 by {
        if i < bytes.len() {
            assert(second[i] == bytes[i]);
        }
    }
    lemma_no_nul(first);
    lemma_no_nul(second);
}

/// The number of places at or after `from` where the block-comment closing
/// token stands in `line`.
pub open spec fn closings(line: Seq<char>, rules: Ruleset, from: int) -> nat
    decreases line.len() - from,
{
    if from < 0 || from >= line.len() {
        0
    } else if closes_block(line, from, rules) {
        1 + closings(line, rules, from + 1)
    } else {
        closings(line, rules, from + 1)
    }
}

/// Further on in a line there are no more closing tokens than before.
pub proof fn lemma_closings_fall(line: Seq<char>, rules: Ruleset, from: int, to: int)
    requires
        0 <= from <= to,
    ensures
        closings(line, rules, to) <= closings(line, rules, from),
    decreases to - from,
{
    if from < to {
        lemma_closings_fall(line, rules, from + 1, to);
    }
}

/// A block comment is left only by closing it as often as it was opened: a
/// scan that starts `depth` comments deep and meets fewer closing tokens than
/// that ends inside a block comment, at most that many comments less deep,
/// and has seen a comment and no code that it had not seen before.
pub proof fn lemma_block_comment_depth(
    line: Seq<char>,
    pos: int,
    depth: u32,
    has_code: bool,
    rules: Ruleset,
)
    requires
        0 <= pos,
        closings(line, rules, pos) < depth,
    ensures
        scan(line, pos, State::BlockComment { depth }, has_code, true, rules).0 matches State::BlockComment {
            depth: left,
        } && left >= depth - closings(line, rules, pos) && left >= 1,
        scan(line, pos, State::BlockComment { depth }, has_code, true, rules).1 == line_kind(
            has_code,
            true,
        ),
    decreases line.len() + 2 - pos,
{
    if pos < line.len() {
        if closes_block(line, pos, rules) {
            let step = advance(rules.block_comment_end->0);
            lemma_closings_fall(line, rules, pos + 1, pos + step);
            lemma_block_comment_depth(line, pos + step, (depth - 1) as u32, has_code, rules);
        } else if rules.nested_comments && opens_block(line, pos, rules) {
            let step = advance(rules.block_comment_start->0);
            lemma_closings_fall(line, rules, pos + 1, pos + step);
            let next: u32 = if depth < u32::MAX {
                (depth + 1) as u32
            } else {
                depth
            };
            lemma_block_comment_depth(line, pos + step, next, has_code, rules);
        } else {
            lemma_block_comment_depth(line, pos + 1, depth, has_code, rules);
        }
    }
}

/// The number of places where the block-comment closing token stands in the
/// lines, each taken trimmed.
pub open spec fn closings_in(lines: Seq<Seq<char>>, rules: Ruleset) -> nat
    decreases lines.len(),
{
    if lines.len() == 0 {
        0
    } else {
        closings(trim(lines[0]), rules, 0) + closings_in(lines.drop_first(), rules)
    }
}

/// Inside a block comment that is `depth` deep, lines that hold fewer closing
/// tokens than that are all comments, and leave the count inside a block
/// comment. So a block comment that is never closed takes every line to the
/// end of the file, and a nested one that is closed less often than it was
/// opened does too.
pub proof fn lemma_comment_runs_on(tally: Tally, depth: u32, lines: Seq<Seq<char>>, rules: Ruleset)
    requires
        tally.state == (State::BlockComment { depth }),
        closings_in(lines, rules) < depth,
    ensures
        count_from(tally, lines, rules).code == tally.code,
        count_from(tally, lines, rules).blanks == tally.blanks,
        count_from(tally, lines, rules).comments == tally.comments + lines.len(),
        count_from(tally, lines, rules).state matches State::BlockComment { depth: left } && left
            >= depth - closings_in(lines, rules) && left >= 1,
    decreases lines.len(),
{
    if lines.len() > 0 {
        let trimmed = trim(lines[0]);
        let next = count_line(tally, lines[0], rules);
        if trimmed.len() > 0 {
            lemma_block_comment_depth(trimmed, 0, depth, false, rules);
        }
        let left = next.state->BlockComment_depth;
        lemma_comment_runs_on(next, left, lines.drop_first(), rules);
    }
}

/// The depth at which the scan of `line` from `pos` on ends, when it starts
/// `depth` block comments deep and never leaves the comment; nothing where a
/// closing token closes the outermost comment.
pub open spec fn depth_left(line: Seq<char>, pos: int, depth: u32, rules: Ruleset) -> Option<u32>
    decreases line.len() + 2 - pos,
{
    if pos < 0 || pos >= line.len() {
        Some(depth)
    } else if closes_block(line, pos, rules) {
        if depth <= 1 {
            None
        } else {
            depth_left(line, pos + advance(rules.block_comment_end->0), (depth - 1) as u32, rules)
        }
    } else if rules.nested_comments && opens_block(line, pos, rules) {
        depth_left(
            line,
            pos + advance(rules.block_comment_start->0),
            deeper(depth)->BlockComment_depth,
            rules,
        )
    } else {
        depth_left(line, pos + 1, depth, rules)
    }
}

/// A block comment that no closing token balances on a line takes the rest
/// of the line: the scan ends inside the comment, at the depth left, and
/// sees no code that it had not seen before.
pub proof fn lemma_comment_stays_open(
    line: Seq<char>,
    pos: int,
    depth: u32,
    has_code: bool,
    rules: Ruleset,
)
    requires
        0 <= pos,
        depth >= 1,
        depth_left(line, pos, depth, rules) is Some,
    ensures
        depth_left(line, pos, depth, rules)->0 >= 1,
        scan(line, pos, State::BlockComment { depth }, has_code, true, rules) == (
            State::BlockComment { depth: depth_left(line, pos, depth, rules)->0 },
            line_kind(has_code, true),
        ),
    decreases line.len() + 2 - pos,
{
    if pos < line.len() {
        if closes_block(line, pos, rules) {
            lemma_comment_stays_open(
                line,
                pos + advance(rules.block_comment_end->0),
                (depth - 1) as u32,
                has_code,
                rules,
            );
        } else if rules.nested_comments && opens_block(line, pos, rules) {
            lemma_comment_stays_open(
                line,
                pos + advance(rules.block_comment_start->0),
                deeper(depth)->BlockComment_depth,
                has_code,
                rules,
            );
        } else {
            lemma_comment_stays_open(line, pos + 1, depth, has_code, rules);
        }
    }
}

/// A line on which a block comment opens in code and is not balanced holds
/// code if code stands before the opening token, and a comment if not.
pub proof fn lemma_comment_opens(line: Seq<char>, pos: int, has_code: bool, rules: Ruleset)
    requires
        0 <= pos < line.len(),
        !is_whitespace(line[pos]),
        opens_block(line, pos, rules),
        depth_left(line, pos + advance(rules.block_comment_start->0), 1, rules) is Some,
    ensures
        scan(line, pos, State::Code, has_code, false, rules) == (
            State::BlockComment {
                depth: depth_left(line, pos + advance(rules.block_comment_start->0), 1, rules)->0,
            },
            line_kind(has_code, true),
        ),
        scan(line, pos, State::Code, has_code, true, rules) == scan(
            line,
            pos,
            State::Code,
            has_code,
            false,
            rules,
        ),
{
    lemma_comment_stays_open(line, pos + advance(rules.block_comment_start->0), 1, has_code, rules);
}

/// The depth at which the lines end, each taken trimmed, when they start
/// `depth` block comments deep and never leave the comment.
pub open spec fn depth_after(lines: Seq<Seq<char>>, depth: u32, rules: Ruleset) -> Option<u32>
    decreases lines.len(),
{
    if lines.len() == 0 {
        Some(depth)
    } else {
        match depth_left(trim(lines[0]), 0, depth, rules) {
            Some(left) => depth_after(lines.drop_first(), left, rules),
            None => None,
        }
    }
}

/// A block comment that is never balanced runs to the end of the file: every
/// line after its opening is a comment, a line of whitespace too, and none is
/// code or blank. Comments that open and close again inside it change
/// nothing.
pub proof fn lemma_comment_runs_to_the_end(
    tally: Tally,
    depth: u32,
    lines: Seq<Seq<char>>,
    rules: Ruleset,
)
    requires
        tally.state == (State::BlockComment { depth }),
        depth >= 1,
        depth_after(lines, depth, rules) is Some,
    ensures
        count_from(tally, lines, rules) == (Tally {
            comments: tally.comments + lines.len(),
            state: State::BlockComment { depth: depth_after(lines, depth, rules)->0 },
            ..tally
        }),
    decreases lines.len(),
{
    if lines.len() > 0 {
        let trimmed = trim(lines[0]);
        let left = depth_left(trimmed, 0, depth, rules)->0;
        lemma_comment_stays_open(trimmed, 0, depth, false, rules);
        let next = count_line(tally, lines[0], rules);
        assert(next.state == (State::BlockComment { depth: left }));
        lemma_comment_runs_to_the_end(next, left, lines.drop_first(), rules);
    }
}

/// The lines behind lines that end inside a block comment are comments, all
/// of them, where the comment is never balanced.
pub proof fn lemma_lines_after_open_comment(
    tally: Tally,
    before: Seq<Seq<char>>,
    after: Seq<Seq<char>>,
    depth: u32,
    rules: Ruleset,
)
    requires
        count_from(tally, before, rules).state == (State::BlockComment { depth }),
        depth >= 1,
        depth_after(after, depth, rules) is Some,
    ensures
        count_from(tally, before + after, rules) == (Tally {
            comments: count_from(tally, before, rules).comments + after.len(),
            state: State::BlockComment { depth: depth_after(after, depth, rules)->0 },
            ..count_from(tally, before, rules)
        }),
{
    lemma_count_split(tally, before, after, rules);
    lemma_comment_runs_to_the_end(count_from(tally, before, rules), depth, after, rules);
}

/// Whether block comments nest between two tokens that can be told apart on
/// a line of tokens and single spaces: neither token is empty, the opening
/// token starts with no whitespace, the closing token holds no space, and the
/// closing token is no beginning of the opening token.
pub open spec fn nests_between(rules: Ruleset, open: Seq<char>, close: Seq<char>) -> bool {
    &&& rules.nested_comments
    &&& rules.block_comment_start == Some(open)
    &&& rules.block_comment_end == Some(close)
    &&& open.len() > 0
    &&& close.len() > 0
    &&& !is_whitespace(open[0])
    &&& forall|i: int| 0 <= i < close.len() ==> close[i] != ' '
    &&& !(close.len() <= open.len() && open.take(close.len() as int) == close)
}

/// What follows a token on a line of `n` more opening tokens and then `m`
/// closing tokens, each with a single space before it.
pub open spec fn more_tokens(n: nat, m: nat, open: Seq<char>, close: Seq<char>) -> Seq<char>
    decreases n + m,
{
    if n > 0 {
        seq![' '] + open + more_tokens((n - 1) as nat, m, open, close)
    } else if m > 0 {
        seq![' '] + close + more_tokens(0, (m - 1) as nat, open, close)
    } else {
        Seq::empty()
    }
}

/// A line of `n` opening tokens and then `m` closing tokens, with single
/// spaces between them; `n` is at least 1.
pub open spec fn token_line(n: nat, m: nat, open: Seq<char>, close: Seq<char>) -> Seq<char> {
    open + more_tokens((n - 1) as nat, m, open, close)
}

/// The state after `opened` openings and `closed` closings.
pub open spec fn state_at(opened: int, closed: int) -> State {
    if closed >= opened {
        State::Code
    } else {
        State::BlockComment { depth: (opened - closed) as u32 }
    }
}

/// Inside a comment that is `depth` deep, `n` more opening tokens and then
/// `m` closing tokens leave the comment `depth + n - m` deep, and in code
/// where that is nothing.
pub proof fn lemma_tokens_balance(
    line: Seq<char>,
    pos: int,
    depth: u32,
    n: nat,
    m: nat,
    open: Seq<char>,
    close: Seq<char>,
    rules: Ruleset,
)
    requires
        nests_between(rules, open, close),
        0 <= pos <= line.len(),
        line.skip(pos) == more_tokens(n, m, open, close),
        depth >= 1,
        depth + n <= u32::MAX,
        m <= depth + n,
    ensures
        scan(line, pos, State::BlockComment { depth }, false, true, rules) == (
            state_at(depth + n, m as int),
            LineType::Comment,
        ),
    decreases n + m,
{
    let rest = line.skip(pos);
    let inside = State::BlockComment { depth };
    assert(rest.len() == line.len() - pos);
    if n + m > 0 {
        let token = if n > 0 {
            open
        } else {
            close
        };
        let tail = if n > 0 {
            more_tokens((n - 1) as nat, m, open, close)
        } else {
            more_tokens(0, (m - 1) as nat, open, close)
        };
        assert(rest == seq![' '] + token + tail);
        assert(rest.len() == 1 + token.len() + tail.len());
        assert(line.len() - pos == rest.len());
        assert(line[pos] == rest[0]);
        assert(rest[0] == ' ');
        // Neither token stands at the space.
        assert(!matches_at(line, pos, close)) by {
            if matches_at(line, pos, close) {
                assert(line.subrange(pos, pos + close.len())[0] == close[0]);
            }
        }
        assert(!matches_at(line, pos, open)) by {
            if matches_at(line, pos, open) {
                assert(line.subrange(pos, pos + open.len())[0] == open[0]);
                assert(is_whitespace(' '));
            }
        }
        assert(scan(line, pos, inside, false, true, rules) == scan(
            line,
            pos + 1,
            inside,
            false,
            true,
            rules,
        ));
        // The token stands behind the space.
        let at = pos + 1;
        assert(line.subrange(at, at + token.len()) =~= token) by {
            assert forall|i: int| 0 <= i < token.len() implies line.subrange(
                at,
                at + token.len(),
            )[i] == token[i] by {
                assert(line[at + i] == rest[1 + i]);
            }
        }
        assert(matches_at(line, at, token));
        assert(line.skip(at + token.len()) =~= tail) by {
            assert forall|i: int| 0 <= i < tail.len() implies line.skip(at + token.len())[i]
                == tail[i] by {
                assert(line[at + token.len() + i] == rest[1 + token.len() + i]);
            }
        }
        if n > 0 {
            // The closing token does not stand where the opening token does.
            assert(!matches_at(line, at, close)) by {
                if matches_at(line, at, close) {
                    if close.len() <= open.len() {
                        assert(open.take(close.len() as int) =~= close) by {
                            assert forall|i: int| 0 <= i < close.len() implies open.take(
                                close.len() as int,
                            )[i] == close[i] by {
                                assert(line.subrange(at, at + close.len())[i] == close[i]);
                                assert(line.subrange(at, at + open.len())[i] == open[i]);
                            }
                        }
                    } else {
                        assert(tail.len() > 0);
                        assert(tail[0] == ' ') by {
                            if n > 1 {
                                assert(tail == seq![' '] + open + more_tokens(
                                    (n - 2) as nat,
                                    m,
                                    open,
                                    close,
                                ));
                            } else {
                                assert(tail == seq![' '] + close + more_tokens(
                                    0,
                                    (m - 1) as nat,
                                    open,
                                    close,
                                ));
                            }
                        }
                        assert(line.subrange(at, at + close.len())[open.len() as int]
                            == close[open.len() as int]);
                        assert(line[at + open.len()] == rest[(1 + open.len()) as int]);
                    }
                }
            }
            assert(advance(open) == open.len());
            assert(scan(line, at, inside, false, true, rules) == scan(
                line,
                at + token.len(),
                State::BlockComment { depth: (depth + 1) as u32 },
                false,
                true,
                rules,
            ));
            lemma_tokens_balance(
                line,
                at + token.len(),
                (depth + 1) as u32,
                (n - 1) as nat,
                m,
                open,
                close,
                rules,
            );
        } else if depth > 1 {
            assert(advance(close) == close.len());
            assert(scan(line, at, inside, false, true, rules) == scan(
                line,
                at + token.len(),
                State::BlockComment { depth: (depth - 1) as u32 },
                false,
                true,
                rules,
            ));
            lemma_tokens_balance(
                line,
                at + token.len(),
                (depth - 1) as u32,
                0,
                (m - 1) as nat,
                open,
                close,
                rules,
            );
        } else {
            assert(m == 1);
            assert(tail.len() == 0);
            assert(advance(close) == close.len());
            assert(at + token.len() == line.len());
            assert(scan(line, at, inside, false, true, rules) == scan(
                line,
                at + token.len(),
                State::Code,
                false,
                true,
                rules,
            ));
        }
    }
}

/// Nested block comments are left only by closing each one: a line of `n`
/// opening tokens and then `m` closing tokens, met in code, is a comment and
/// leaves the scan `n - m` comments deep, and in code where all are closed.
pub proof fn lemma_nested_tokens(n: nat, m: nat, open: Seq<char>, close: Seq<char>, rules: Ruleset)
    requires
        nests_between(rules, open, close),
        1 <= n <= u32::MAX,
        m <= n,
    ensures
        classify(token_line(n, m, open, close), State::Code, rules) == (
            state_at(n as int, m as int),
            LineType::Comment,
        ),
{
    let line = token_line(n, m, open, close);
    let tail = more_tokens((n - 1) as nat, m, open, close);
    assert(line[0] == open[0]);
    assert(line.subrange(0, open.len() as int) =~= open);
    assert(matches_at(line, 0, open));
    assert(line.skip(open.len() as int) =~= tail);
    lemma_tokens_balance(line, open.len() as int, 1, (n - 1) as nat, m, open, close, rules);
}

} // verus!
