//! Character-level text primitives.
//!
//! Every string the library looks into is modelled as a `Seq<char>`. The
//! executable helpers work on `&[char]`, so that indexing is constant time and
//! a scan never lands inside a multi-byte character.

use vstd::prelude::*;

verus! {

/// Whether `c` carries the Unicode `White_Space` property.
pub open spec fn is_whitespace(c: char) -> bool {
    let n = c as u32;
    ||| 0x09 <= n <= 0x0D
    ||| n == 0x20
    ||| n == 0x85
    ||| n == 0xA0
    ||| n == 0x1680
    ||| 0x2000 <= n <= 0x200A
    ||| n == 0x2028
    ||| n == 0x2029
    ||| n == 0x202F
    ||| n == 0x205F
    ||| n == 0x3000
}

/// Executable form of [`is_whitespace`].
pub fn char_is_whitespace(c: char) -> (r: bool)
    ensures
        r == is_whitespace(c),
{
    let n: u32 = c as u32;
    (0x09 <= n && n <= 0x0D) || n == 0x20 || n == 0x85 || n == 0xA0 || n == 0x1680 || (0x2000 <= n
        && n <= 0x200A) || n == 0x2028 || n == 0x2029 || n == 0x202F || n == 0x205F || n == 0x3000
}

/// The first index at or after `from` that holds a non-whitespace character,
/// or `s.len()` when there is none.
pub open spec fn skip_whitespace(s: Seq<char>, from: int) -> int
    decreases s.len() - from,
{
    if from < 0 || from >= s.len() {
        s.len() as int
    } else if !is_whitespace(s[from]) {
        from
    } else {
        skip_whitespace(s, from + 1)
    }
}

/// The end of the last non-whitespace character of `s[lo..hi]`, or `lo` when
/// that range holds whitespace only.
pub open spec fn skip_whitespace_back(s: Seq<char>, lo: int, hi: int) -> int
    decreases hi,
{
    if hi <= lo || hi > s.len() || lo < 0 {
        lo
    } else if !is_whitespace(s[hi - 1]) {
        hi
    } else {
        skip_whitespace_back(s, lo, hi - 1)
    }
}

/// Start of the trimmed part of `s`.
pub open spec fn trim_start_index(s: Seq<char>) -> int {
    skip_whitespace(s, 0)
}

/// End of the trimmed part of `s`.
pub open spec fn trim_end_index(s: Seq<char>) -> int {
    skip_whitespace_back(s, trim_start_index(s), s.len() as int)
}

/// `s` without its leading and trailing whitespace.
pub open spec fn trim(s: Seq<char>) -> Seq<char> {
    s.subrange(trim_start_index(s), trim_end_index(s))
}

/// `s` without its trailing whitespace.
pub open spec fn trim_end(s: Seq<char>) -> Seq<char> {
    s.subrange(0, skip_whitespace_back(s, 0, s.len() as int))
}

/// Whether `s` holds nothing but whitespace.
pub open spec fn is_blank(s: Seq<char>) -> bool {
    forall|i: int| 0 <= i < s.len() ==> is_whitespace(#[trigger] s[i])
}

/// Whether `token` stands in `s` at index `pos`.
pub open spec fn matches_at(s: Seq<char>, pos: int, token: Seq<char>) -> bool {
    &&& 0 <= pos
    &&& pos + token.len() <= s.len()
    &&& s.subrange(pos, pos + token.len()) == token
}

/// Whether `s` ends with `suffix`.
pub open spec fn ends_with(s: Seq<char>, suffix: Seq<char>) -> bool {
    suffix.len() <= s.len() && matches_at(s, s.len() - suffix.len(), suffix)
}

/// The first index at or after `from` where `token` stands in `s`.
pub open spec fn find_from(s: Seq<char>, token: Seq<char>, from: int) -> Option<int>
    decreases s.len() + 1 - from,
{
    if from < 0 || from + token.len() > s.len() {
        None
    } else if matches_at(s, from, token) {
        Some(from)
    } else {
        find_from(s, token, from + 1)
    }
}

/// The first index where `token` stands in `s`.
pub open spec fn find(s: Seq<char>, token: Seq<char>) -> Option<int> {
    find_from(s, token, 0)
}

/// The lower-case form of an ASCII letter; any other character unchanged.
pub open spec fn ascii_lower(c: char) -> char {
    if 'A' <= c <= 'Z' {
        ((c as u32) + 32) as char
    } else {
        c
    }
}

/// Equality up to the case of ASCII letters.
pub open spec fn eq_ignore_ascii_case(a: Seq<char>, b: Seq<char>) -> bool {
    &&& a.len() == b.len()
    &&& forall|i: int| 0 <= i < a.len() ==> ascii_lower(#[trigger] a[i]) == ascii_lower(b[i])
}

/// Strict lexicographic order by code point.
pub open spec fn lex_less(a: Seq<char>, b: Seq<char>) -> bool
    decreases a.len(),
{
    if b.len() == 0 {
        false
    } else if a.len() == 0 {
        true
    } else if a[0] != b[0] {
        a[0] < b[0]
    } else {
        lex_less(a.drop_first(), b.drop_first())
    }
}

/// The views of a sequence of strings.
pub open spec fn strings_view(v: Seq<String>) -> Seq<Seq<char>> {
    Seq::new(v.len(), |i: int| v[i]@)
}

/// The views of a sequence of character vectors.
pub open spec fn tokens_view(v: Seq<Vec<char>>) -> Seq<Seq<char>> {
    Seq::new(v.len(), |i: int| v[i]@)
}

/// The view of an optional string.
pub open spec fn opt_view(o: Option<String>) -> Option<Seq<char>> {
    match o {
        Some(s) => Some(s@),
        None => None,
    }
}

/// The view of an optional character vector.
pub open spec fn opt_token_view(o: Option<Vec<char>>) -> Option<Seq<char>> {
    match o {
        Some(s) => Some(s@),
        None => None,
    }
}

/// The lower-case form of a string under the Unicode case mapping.
pub uninterp spec fn unicode_lowercase(s: Seq<char>) -> Seq<char>;

/// Lower-cases a string. Trusted: `str::to_lowercase` is a function of the
/// string alone; its result is named [`unicode_lowercase`], and nothing more is
/// claimed of it.
#[verifier::external_body]
pub(crate) fn lowercase(s: &str) -> (r: String)
    ensures
        r@ == unicode_lowercase(s@),
{
    s.to_lowercase()
}

/// The characters of `s`.
pub fn to_chars(s: &str) -> (v: Vec<char>)
    ensures
        v@ == s@,
{
    let mut v: Vec<char> = Vec::new();
    for c in it: s.chars()
        invariant
            v@ == it.seq().take(it.index()),
            it.seq() == s@,
    {
        v.push(c);
    }
    v
}

/// Builds a `String` from characters. Trusted: `String::from_iter` over the
/// slice's characters yields a string with exactly those characters, in order.
#[verifier::external_body]
pub(crate) fn string_from_chars(chars: &[char]) -> (s: String)
    ensures
        s@ == chars@,
{
    chars.iter().collect()
}

/// Whether two character slices are equal.
pub fn chars_eq(a: &[char], b: &[char]) -> (r: bool)
    ensures
        r == (a@ == b@),
{
    if a.len() != b.len() {
        return false;
    }
    let mut i: usize = 0;
    while i < a.len()
        invariant
            i <= a.len(),
            a.len() == b.len(),
            a@.take(i as int) == b@.take(i as int),
        decreases a.len() - i,
    {
        if a[i] != b[i] {
            return false;
        }
        assert(a@.take(i + 1) == a@.take(i as int).push(a@[i as int]));
        assert(b@.take(i + 1) == b@.take(i as int).push(b@[i as int]));
        i += 1;
    }
    assert(a@.take(a.len() as int) == a@);
    assert(b@.take(b.len() as int) == b@);
    true
}

/// A copy of a list of strings.
pub fn clone_strings(v: &Vec<String>) -> (r: Vec<String>)
    ensures
        r@ == v@,
{
    let mut r: Vec<String> = Vec::new();
    let mut i: usize = 0;
    while i < v.len()
        invariant
            i <= v.len(),
            r@ == v@.take(i as int),
        decreases v.len() - i,
    {
        r.push(v[i].clone());
        assert(v@.take(i + 1) == v@.take(i as int).push(v@[i as int]));
        i += 1;
    }
    assert(v@.take(v.len() as int) == v@);
    r
}

/// A copy of an optional string.
pub fn clone_opt_string(o: &Option<String>) -> (r: Option<String>)
    ensures
        r == *o,
{
    match o {
        Some(s) => Some(s.clone()),
        None => None,
    }
}

/// Whether two strings hold the same characters.
pub fn str_eq(a: &str, b: &str) -> (r: bool)
    ensures
        r == (a@ == b@),
{
    let x = to_chars(a);
    let y = to_chars(b);
    chars_eq(x.as_slice(), y.as_slice())
}

/// Whether `token` stands in `s` at index `pos`.
pub fn chars_match_at(s: &[char], pos: usize, token: &[char]) -> (r: bool)
    ensures
        r == matches_at(s@, pos as int, token@),
{
    if pos > s.len() || token.len() > s.len() - pos {
        return false;
    }
    let mut i: usize = 0;
    while i < token.len()
        invariant
            i <= token.len(),
            pos + token.len() <= s.len(),
            s@.subrange(pos as int, pos + i) == token@.take(i as int),
        decreases token.len() - i,
    {
        if s[pos + i] != token[i] {
            assert(s@.subrange(pos as int, pos + token.len())[i as int] != token@[i as int]);
            return false;
        }
        assert(s@.subrange(pos as int, pos + i + 1) == s@.subrange(pos as int, pos + i).push(
            s@[pos + i],
        ));
        assert(token@.take(i + 1) == token@.take(i as int).push(token@[i as int]));
        i += 1;
    }
    assert(token@.take(token.len() as int) == token@);
    true
}

/// Whether `s` ends with `suffix`.
pub fn chars_end_with(s: &[char], suffix: &[char]) -> (r: bool)
    ensures
        r == ends_with(s@, suffix@),
{
    if suffix.len() > s.len() {
        return false;
    }
    chars_match_at(s, s.len() - suffix.len(), suffix)
}

/// The first index where `token` stands in `s`.
pub fn chars_find(s: &[char], token: &[char]) -> (r: Option<usize>)
    ensures
        r is Some == find(s@, token@) is Some,
        r is Some ==> r->0 as int == find(s@, token@)->0,
{
    if token.len() > s.len() {
        return None;
    }
    let limit: usize = s.len() - token.len();
    let mut i: usize = 0;
    while i < limit
        invariant
            i <= limit,
            limit + token.len() == s.len(),
            find(s@, token@) == find_from(s@, token@, i as int),
        decreases limit - i,
    {
        if chars_match_at(s, i, token) {
            return Some(i);
        }
        i += 1;
    }
    if chars_match_at(s, i, token) {
        Some(i)
    } else {
        assert(find_from(s@, token@, i + 1) is None);
        None
    }
}

/// The index of the first non-whitespace character at or after `from`.
pub fn chars_skip_whitespace(s: &[char], from: usize) -> (r: usize)
    ensures
        r as int == skip_whitespace(s@, from as int),
        from <= s.len() ==> from <= r <= s.len(),
{
    let mut i: usize = from;
    while i < s.len() && char_is_whitespace(s[i])
        invariant
            from <= i,
            from <= s.len() ==> i <= s.len(),
            skip_whitespace(s@, from as int) == skip_whitespace(s@, i as int),
        decreases s.len() - i,
    {
        i += 1;
    }
    if i >= s.len() {
        s.len()
    } else {
        i
    }
}

/// The end of the last non-whitespace character of `s[lo..hi]`.
pub fn chars_skip_whitespace_back(s: &[char], lo: usize, hi: usize) -> (r: usize)
    ensures
        r as int == skip_whitespace_back(s@, lo as int, hi as int),
        lo <= hi <= s.len() ==> lo <= r <= hi,
{
    if hi > s.len() {
        return lo;
    }
    let mut j: usize = hi;
    while j > lo && char_is_whitespace(s[j - 1])
        invariant
            j <= hi <= s.len(),
            lo <= hi ==> lo <= j,
            skip_whitespace_back(s@, lo as int, hi as int) == skip_whitespace_back(
                s@,
                lo as int,
                j as int,
            ),
        decreases j,
    {
        j -= 1;
    }
    if j <= lo {
        lo
    } else {
        j
    }
}

/// The bounds of the trimmed part of `s`: `s[start..end]` is `trim(s)`.
pub fn trim_bounds(s: &[char]) -> (r: (usize, usize))
    ensures
        r.0 as int == trim_start_index(s@),
        r.1 as int == trim_end_index(s@),
        r.0 <= r.1 <= s.len(),
{
    let start = chars_skip_whitespace(s, 0);
    let end = chars_skip_whitespace_back(s, start, s.len());
    (start, end)
}

/// A copy of `s[from..to]`.
pub fn chars_slice(s: &[char], from: usize, to: usize) -> (v: Vec<char>)
    requires
        from <= to <= s.len(),
    ensures
        v@ == s@.subrange(from as int, to as int),
{
    let mut v: Vec<char> = Vec::new();
    let mut i: usize = from;
    while i < to
        invariant
            from <= i <= to <= s.len(),
            v@ == s@.subrange(from as int, i as int),
        decreases to - i,
    {
        v.push(s[i]);
        assert(s@.subrange(from as int, i + 1) == s@.subrange(from as int, i as int).push(
            s@[i as int],
        ));
        i += 1;
    }
    v
}

/// The lower-case form of an ASCII letter; any other character unchanged.
pub fn char_ascii_lower(c: char) -> (r: char)
    ensures
        r == ascii_lower(c),
{
    if 'A' <= c && c <= 'Z' {
        let n: u32 = c as u32 + 32;
        let low: u8 = n as u8;
        low as char
    } else {
        c
    }
}

/// Whether two character slices are equal up to the case of ASCII letters.
pub fn chars_eq_ignore_ascii_case(a: &[char], b: &[char]) -> (r: bool)
    ensures
        r == eq_ignore_ascii_case(a@, b@),
{
    if a.len() != b.len() {
        return false;
    }
    let mut i: usize = 0;
    while i < a.len()
        invariant
            i <= a.len(),
            a.len() == b.len(),
            forall|k: int| 0 <= k < i ==> ascii_lower(#[trigger] a@[k]) == ascii_lower(b@[k]),
        decreases a.len() - i,
    {
        if char_ascii_lower(a[i]) != char_ascii_lower(b[i]) {
            return false;
        }
        i += 1;
    }
    true
}

/// Whether `a` comes strictly before `b` in lexicographic order.
pub fn chars_less(a: &[char], b: &[char]) -> (r: bool)
    ensures
        r == lex_less(a@, b@),
{
    let mut i: usize = 0;
    assert(a@.skip(0) == a@);
    assert(b@.skip(0) == b@);
    while i < a.len() && i < b.len()
        invariant
            i <= a.len(),
            i <= b.len(),
            lex_less(a@, b@) == lex_less(a@.skip(i as int), b@.skip(i as int)),
        decreases a.len() - i,
    {
        let x: char = a[i];
        let y: char = b[i];
        proof {
            let sa = a@.skip(i as int);
            let sb = b@.skip(i as int);
            assert(sa.len() > 0 && sb.len() > 0);
            assert(sa[0] == a@[i as int]);
            assert(sb[0] == b@[i as int]);
            assert(sa.drop_first() == a@.skip(i + 1));
            assert(sb.drop_first() == b@.skip(i + 1));
        }
        if x != y {
            return x < y;
        }
        i += 1;
    }
    assert(a@.skip(i as int).len() == a.len() - i);
    assert(b@.skip(i as int).len() == b.len() - i);
    i < b.len()
}

/// The character of a decimal digit.
pub open spec fn digit_char(d: nat) -> char {
    ((48 + d) as u8) as char
}

/// The decimal numeral of a number, without leading zeros.
pub open spec fn decimal(n: nat) -> Seq<char>
    decreases n,
{
    if n < 10 {
        seq![digit_char(n)]
    } else {
        decimal(n / 10).push(digit_char(n % 10))
    }
}

fn digit(d: u64) -> (c: char)
    requires
        d < 10,
    ensures
        c == digit_char(d as nat),
{
    let b: u8 = 48 + (d as u8);
    b as char
}

/// The decimal numeral of a number.
pub fn decimal_chars(n: u64) -> (r: Vec<char>)
    ensures
        r@ == decimal(n as nat),
{
    let mut low_first: Vec<char> = Vec::new();
    let mut m: u64 = n;
    assert(decimal(n as nat) =~= decimal(m as nat) + low_first@.reverse());
    while m >= 10
        invariant
            decimal(n as nat) == decimal(m as nat) + low_first@.reverse(),
        decreases m,
    {
        let ghost before = low_first@;
        let ghost whole = m;
        let d = digit(m % 10);
        low_first.push(d);
        m = m / 10;
        proof {
            assert(decimal(whole as nat) == decimal(m as nat).push(d));
            assert(low_first@.reverse() =~= seq![d] + before.reverse());
            assert(decimal(m as nat).push(d) + before.reverse() =~= decimal(m as nat) + (seq![d]
                + before.reverse()));
        }
    }
    let ghost before = low_first@;
    let last = digit(m);
    low_first.push(last);
    proof {
        assert(low_first@.reverse() =~= seq![last] + before.reverse());
    }
    let mut out: Vec<char> = Vec::new();
    let mut i: usize = low_first.len();
    while i > 0
        invariant
            i <= low_first.len(),
            out@ == low_first@.reverse().take(low_first.len() - i),
        decreases i,
    {
        let ghost old_out = out@;
        out.push(low_first[i - 1]);
        proof {
            let reversed = low_first@.reverse();
            let k = low_first.len() - i;
            assert(reversed[k] == low_first@[i - 1]);
            assert(reversed.take(k + 1) =~= reversed.take(k).push(reversed[k]));
        }
        i -= 1;
    }
    assert(low_first@.reverse().take(low_first.len() as int) =~= low_first@.reverse());
    out
}

/// The decimal numeral of a number, as a string.
pub fn decimal_string(n: u64) -> (r: String)
    ensures
        r@ == decimal(n as nat),
{
    let chars = decimal_chars(n);
    string_from_chars(chars.as_slice())
}

/// The index of the first line feed at or after `from`, or the length of the
/// text when there is none.
pub open spec fn text_line_end(text: Seq<char>, from: int) -> int
    decreases text.len() - from,
{
    if from < 0 || from >= text.len() {
        text.len() as int
    } else if text[from] == '\n' {
        from
    } else {
        text_line_end(text, from + 1)
    }
}

/// The line `text[start..end]`: a line that a line feed ends loses a carriage
/// return just before it.
pub open spec fn text_line(text: Seq<char>, start: int, end: int) -> Seq<char> {
    if start < end < text.len() && text[end - 1] == '\r' {
        text.subrange(start, end - 1)
    } else {
        text.subrange(start, end)
    }
}

/// The lines of a text from index `from` on.
pub open spec fn text_lines_from(text: Seq<char>, from: int) -> Seq<Seq<char>>
    decreases text.len() + 1 - from,
{
    if from < 0 || from >= text.len() {
        Seq::empty()
    } else {
        let end = text_line_end(text, from);
        if from <= end <= text.len() {
            seq![text_line(text, from, end)] + text_lines_from(text, end + 1)
        } else {
            Seq::empty()
        }
    }
}

/// The lines of a text. A line ends with a line feed, or with a carriage
/// return and a line feed, or with the text.
pub open spec fn text_lines(text: Seq<char>) -> Seq<Seq<char>> {
    text_lines_from(text, 0)
}

/// The lines among `lines` that hold more than whitespace, or all of them.
pub open spec fn lines_kept(lines: Seq<Seq<char>>, skip_blank: bool) -> Seq<Seq<char>>
    decreases lines.len(),
{
    if lines.len() == 0 {
        Seq::empty()
    } else if skip_blank && trim(lines[0]).len() == 0 {
        lines_kept(lines.drop_first(), skip_blank)
    } else {
        seq![lines[0]] + lines_kept(lines.drop_first(), skip_blank)
    }
}

/// The lines of a text, as strings; with `skip_blank`, without those that
/// hold nothing but whitespace.
pub fn split_lines(text: &str, skip_blank: bool) -> (r: Vec<String>)
    ensures
        strings_view(r@) == lines_kept(text_lines(text@), skip_blank),
{
    let chars = to_chars(text);
    let mut out: Vec<String> = Vec::new();
    let mut pos: usize = 0;
    assert(strings_view(out@) =~= Seq::empty());
    while pos < chars.len()
        invariant
            pos <= chars.len(),
            chars@ == text@,
            lines_kept(text_lines(text@), skip_blank) == strings_view(out@) + lines_kept(
                text_lines_from(text@, pos as int),
                skip_blank,
            ),
        decreases chars.len() - pos,
    {
        let mut end: usize = pos;
        while end < chars.len() && chars[end] != '\n'
            invariant
                pos <= end <= chars.len(),
                text_line_end(chars@, pos as int) == text_line_end(chars@, end as int),
            decreases chars.len() - end,
        {
            end += 1;
        }
        let stop: usize = if pos < end && end < chars.len() && chars[end - 1] == '\r' {
            end - 1
        } else {
            end
        };
        let line = chars_slice(chars.as_slice(), pos, stop);
        let ghost rest = text_lines_from(text@, end + 1);
        let ghost old_out = out@;
        proof {
            let lines = text_lines_from(text@, pos as int);
            assert(lines == seq![line@] + rest);
            assert(lines[0] == line@);
            assert(lines.drop_first() =~= rest);
        }
        let (start, finish) = trim_bounds(line.as_slice());
        if !(skip_blank && start == finish) {
            out.push(string_from_chars(line.as_slice()));
            assert(strings_view(out@) =~= strings_view(old_out).push(line@));
            assert(strings_view(old_out).push(line@) + lines_kept(rest, skip_blank) =~= strings_view(
                old_out,
            ) + (seq![line@] + lines_kept(rest, skip_blank)));
        }
        if end < chars.len() {
            pos = end + 1;
        } else {
            assert(text_lines_from(text@, end + 1) == text_lines_from(text@, end as int));
            pos = end;
        }
    }
    assert(strings_view(out@) + Seq::<Seq<char>>::empty() =~= strings_view(out@));
    out
}

/// Appends a text to a buffer of characters.
pub fn push_text(out: &mut Vec<char>, text: &str)
    ensures
        final(out)@ == old(out)@ + text@,
{
    let chars = to_chars(text);
    let ghost start = out@;
    let mut i: usize = 0;
    assert(chars@.take(0) =~= Seq::empty());
    assert(out@ =~= start + chars@.take(0));
    while i < chars.len()
        invariant
            i <= chars.len(),
            chars@ == text@,
            out@ == start + chars@.take(i as int),
        decreases chars.len() - i,
    {
        out.push(chars[i]);
        assert(chars@.take(i + 1) =~= chars@.take(i as int).push(chars@[i as int]));
        assert(out@ =~= start + chars@.take(i + 1));
        i += 1;
    }
    assert(chars@.take(chars.len() as int) =~= chars@);
}

/// Appends the decimal numeral of a number to a buffer of characters.
pub fn push_number(out: &mut Vec<char>, n: u64)
    ensures
        final(out)@ == old(out)@ + decimal(n as nat),
{
    let digits = decimal_chars(n);
    let ghost start = out@;
    let mut i: usize = 0;
    assert(out@ =~= start + digits@.take(0));
    while i < digits.len()
        invariant
            i <= digits.len(),
            out@ == start + digits@.take(i as int),
        decreases digits.len() - i,
    {
        out.push(digits[i]);
        assert(digits@.take(i + 1) =~= digits@.take(i as int).push(digits@[i as int]));
        assert(out@ =~= start + digits@.take(i + 1));
        i += 1;
    }
    assert(digits@.take(digits.len() as int) =~= digits@);
}

/// The order of names is transitive.
pub proof fn lemma_lex_less_transitive(a: Seq<char>, b: Seq<char>, c: Seq<char>)
    requires
        lex_less(a, b),
        lex_less(b, c),
    ensures
        lex_less(a, c),
    decreases a.len(),
{
    if a.len() > 0 && b.len() > 0 && c.len() > 0 {
        if a[0] == b[0] && b[0] == c[0] {
            lemma_lex_less_transitive(a.drop_first(), b.drop_first(), c.drop_first());
        }
    }
}

/// Of two different names one is the lesser.
pub proof fn lemma_lex_less_total(a: Seq<char>, b: Seq<char>)
    requires
        a != b,
    ensures
        lex_less(a, b) || lex_less(b, a),
    decreases a.len(),
{
    if a.len() > 0 && b.len() > 0 {
        if a[0] == b[0] {
            assert(a.drop_first() != b.drop_first()) by {
                if a.drop_first() == b.drop_first() {
                    assert(a =~= seq![a[0]] + a.drop_first());
                    assert(b =~= seq![b[0]] + b.drop_first());
                }
            }
            lemma_lex_less_total(a.drop_first(), b.drop_first());
        }
    } else {
        assert(a.len() != b.len()) by {
            if a.len() == b.len() {
                assert(a =~= b);
            }
        }
    }
}

/// No text is less than itself.
pub proof fn lemma_lex_less_irreflexive(a: Seq<char>)
    ensures
        !lex_less(a, a),
    decreases a.len(),
{
    if a.len() > 0 {
        lemma_lex_less_irreflexive(a.drop_first());
    }
}

/// Whether each text is less than the next.
pub open spec fn rising(keys: Seq<Seq<char>>) -> bool {
    forall|i: int| 0 <= i < keys.len() - 1 ==> lex_less(#[trigger] keys[i], keys[i + 1])
}

/// In a rising list an earlier text is less than a later one, so that no text
/// occurs twice.
pub proof fn lemma_rising_distinct(keys: Seq<Seq<char>>, i: int, j: int)
    requires
        rising(keys),
        0 <= i < j < keys.len(),
    ensures
        lex_less(keys[i], keys[j]),
        keys[i] != keys[j],
    decreases j - i,
{
    if i + 1 < j {
        lemma_rising_distinct(keys, i, j - 1);
        assert(lex_less(keys[j - 1], keys[j]));
        lemma_lex_less_transitive(keys[i], keys[j - 1], keys[j]);
    }
    lemma_lex_less_irreflexive(keys[i]);
}

} // verus!
