//! Paths as text.
//!
//! A path is a string whose components are separated by `/`. Empty components
//! (doubled or trailing separators) and `.` components carry no meaning and are
//! passed over; `..` is a component of its own but never a file name.

use crate::text::{chars_slice, string_from_chars, to_chars};
use vstd::prelude::*;

verus! {

/// The index just after the last `/` before `end`, or 0 when there is none.
pub open spec fn segment_start(p: Seq<char>, end: int) -> int
    decreases end,
{
    if end <= 0 || end > p.len() {
        0
    } else if p[end - 1] == '/' {
        end
    } else {
        segment_start(p, end - 1)
    }
}

/// Whether `p[start..end]` is empty or a lone `.`.
pub open spec fn is_trivial_segment(p: Seq<char>, start: int, end: int) -> bool {
    start == end || (start + 1 == end && 0 <= start < p.len() && p[start] == '.')
}

/// The bounds of the last component of `p[..end]` that is neither empty nor
/// `.`, if there is one.
pub open spec fn last_component(p: Seq<char>, end: int) -> Option<(int, int)>
    decreases end,
{
    if end <= 0 || end > p.len() {
        None
    } else {
        let start = segment_start(p, end);
        if is_trivial_segment(p, start, end) {
            if start == 0 {
                None
            } else {
                last_component(p, start - 1)
            }
        } else {
            Some((start, end))
        }
    }
}

/// Whether `p[start..end]` is `..`.
pub open spec fn is_parent_segment(p: Seq<char>, start: int, end: int) -> bool {
    start + 2 == end && 0 <= start && end <= p.len() && p[start] == '.' && p[start + 1] == '.'
}

/// The bounds of the file name of `p`: its last component, unless that is `..`.
pub open spec fn file_name_bounds(p: Seq<char>) -> Option<(int, int)> {
    match last_component(p, p.len() as int) {
        Some((start, end)) => if is_parent_segment(p, start, end) {
            None
        } else {
            Some((start, end))
        },
        None => None,
    }
}

/// The file name of `p`.
pub open spec fn file_name_of(p: Seq<char>) -> Option<Seq<char>> {
    match file_name_bounds(p) {
        Some((start, end)) => Some(p.subrange(start, end)),
        None => None,
    }
}

/// The index of the last `.` in `p[start..end]`, if there is one.
pub open spec fn last_dot(p: Seq<char>, start: int, end: int) -> Option<int>
    decreases end,
{
    if end <= start || start < 0 || end > p.len() {
        None
    } else if p[end - 1] == '.' {
        Some(end - 1)
    } else {
        last_dot(p, start, end - 1)
    }
}

/// The bounds of the extension of `p`: what follows the last `.` of the file
/// name, unless that `.` is the file name's first character.
pub open spec fn extension_bounds(p: Seq<char>) -> Option<(int, int)> {
    match file_name_bounds(p) {
        Some((start, end)) => match last_dot(p, start, end) {
            Some(dot) => if dot == start {
                None
            } else {
                Some((dot + 1, end))
            },
            None => None,
        },
        None => None,
    }
}

/// The extension of `p`.
pub open spec fn extension_of(p: Seq<char>) -> Option<Seq<char>> {
    match extension_bounds(p) {
        Some((start, end)) => Some(p.subrange(start, end)),
        None => None,
    }
}

/// The length of what precedes the components proper: a leading `/`, or a
/// leading `.` that stands for the current directory.
pub open spec fn body_start(p: Seq<char>) -> int {
    if p.len() > 0 && p[0] == '/' {
        1
    } else if p.len() > 0 && p[0] == '.' && (p.len() == 1 || p[1] == '/') {
        1
    } else {
        0
    }
}

/// The length of the parent of `p`, if `p` has one. A path that is empty or
/// names the root has none.
pub open spec fn parent_len(p: Seq<char>) -> Option<int> {
    match last_component(p, p.len() as int) {
        Some((start, _)) => match last_component(p, start - 1) {
            Some((_, end)) => Some(end),
            None => Some(body_start(p)),
        },
        None => if p.len() > 0 && p[0] != '/' {
            Some(0)
        } else {
            None
        },
    }
}

/// The parent of `p`: the path without its last component.
pub open spec fn parent_of(p: Seq<char>) -> Option<Seq<char>> {
    match parent_len(p) {
        Some(n) => Some(p.take(n)),
        None => None,
    }
}

/// The name of the directory that holds `p`.
pub open spec fn parent_name_of(p: Seq<char>) -> Option<Seq<char>> {
    match parent_of(p) {
        Some(dir) => file_name_of(dir),
        None => None,
    }
}

pub proof fn lemma_segment_start_bounds(p: Seq<char>, end: int)
    requires
        0 <= end <= p.len(),
    ensures
        0 <= segment_start(p, end) <= end,
    decreases end,
{
    if end > 0 && p[end - 1] != '/' {
        lemma_segment_start_bounds(p, end - 1);
    }
}

fn find_segment_start(p: &[char], end: usize) -> (r: usize)
    requires
        end <= p.len(),
    ensures
        r as int == segment_start(p@, end as int),
        r <= end,
{
    let mut i: usize = end;
    while i > 0 && p[i - 1] != '/'
        invariant
            i <= end <= p.len(),
            segment_start(p@, end as int) == segment_start(p@, i as int),
        decreases i,
    {
        i -= 1;
    }
    i
}

fn find_last_component(p: &[char], end: usize) -> (r: Option<(usize, usize)>)
    ensures
        r is Some == last_component(p@, end as int) is Some,
        r matches Some((s, e)) ==> last_component(p@, end as int) == Some((s as int, e as int))
            && s < e <= end && e <= p.len(),
{
    if end > p.len() {
        return None;
    }
    let mut hi: usize = end;
    while hi > 0
        invariant
            hi <= end <= p.len(),
            last_component(p@, end as int) == last_component(p@, hi as int),
        decreases hi,
    {
        let start = find_segment_start(p, hi);
        let trivial = start == hi || (start + 1 == hi && p[start] == '.');
        if !trivial {
            return Some((start, hi));
        }
        if start == 0 {
            return None;
        }
        hi = start - 1;
    }
    None
}

/// The bounds of the file name of `p`, as indices into `p`.
pub fn chars_file_name(p: &[char]) -> (r: Option<(usize, usize)>)
    ensures
        r is Some == file_name_bounds(p@) is Some,
        r matches Some((s, e)) ==> file_name_bounds(p@) == Some((s as int, e as int)) && s < e
            <= p.len(),
{
    match find_last_component(p, p.len()) {
        Some((start, end)) => {
            if end - start == 2 && p[start] == '.' && p[start + 1] == '.' {
                None
            } else {
                Some((start, end))
            }
        },
        None => None,
    }
}

fn find_last_dot(p: &[char], start: usize, end: usize) -> (r: Option<usize>)
    requires
        start <= end <= p.len(),
    ensures
        r is Some == last_dot(p@, start as int, end as int) is Some,
        r matches Some(d) ==> last_dot(p@, start as int, end as int) == Some(d as int) && start
            <= d < end,
{
    let mut i: usize = end;
    while i > start
        invariant
            start <= i <= end <= p.len(),
            last_dot(p@, start as int, end as int) == last_dot(p@, start as int, i as int),
        decreases i,
    {
        if p[i - 1] == '.' {
            return Some(i - 1);
        }
        i -= 1;
    }
    None
}

/// The bounds of the extension of `p`, as indices into `p`.
pub fn chars_extension(p: &[char]) -> (r: Option<(usize, usize)>)
    ensures
        r is Some == extension_bounds(p@) is Some,
        r matches Some((s, e)) ==> extension_bounds(p@) == Some((s as int, e as int)) && s <= e
            <= p.len(),
{
    match chars_file_name(p) {
        Some((start, end)) => match find_last_dot(p, start, end) {
            Some(dot) => {
                if dot == start {
                    None
                } else {
                    Some((dot + 1, end))
                }
            },
            None => None,
        },
        None => None,
    }
}

/// The length of the parent of `p`.
pub fn chars_parent_len(p: &[char]) -> (r: Option<usize>)
    ensures
        r is Some == parent_len(p@) is Some,
        r matches Some(n) ==> parent_len(p@) == Some(n as int) && n <= p.len(),
{
    match find_last_component(p, p.len()) {
        Some((start, _)) => {
            if start == 0 {
                assert(last_component(p@, start - 1) is None);
                assert(body_start(p@) == 0) by {
                    lemma_first_component_at_zero(p@, p@.len() as int);
                }
                return Some(0);
            }
            match find_last_component(p, start - 1) {
                Some((_, end)) => Some(end),
                None => {
                    let rooted = p.len() > 0 && p[0] == '/';
                    let current = p.len() > 0 && p[0] == '.' && (p.len() == 1 || p[1] == '/');
                    if rooted || current {
                        Some(1)
                    } else {
                        Some(0)
                    }
                },
            }
        },
        None => {
            if p.len() > 0 && p[0] != '/' {
                Some(0)
            } else {
                None
            }
        },
    }
}

/// A component that starts at index 0 leaves nothing before the components.
pub proof fn lemma_first_component_at_zero(p: Seq<char>, end: int)
    requires
        last_component(p, end) matches Some((s, e)) && s == 0,
    ensures
        body_start(p) == 0,
    decreases end,
{
    if 0 < end <= p.len() {
        let start = segment_start(p, end);
        lemma_segment_start_bounds(p, end);
        if is_trivial_segment(p, start, end) {
            if start != 0 {
                lemma_first_component_at_zero(p, start - 1);
            }
        } else {
            // the component is p[0..end], and it holds no separator
            lemma_segment_has_no_separator(p, end, 0);
            if p.len() > 1 && end >= 2 {
                lemma_segment_has_no_separator(p, end, 1);
            }
        }
    }
}

/// No `/` stands between the start of a segment and its end.
pub proof fn lemma_segment_has_no_separator(p: Seq<char>, end: int, i: int)
    requires
        0 <= end <= p.len(),
        segment_start(p, end) <= i < end,
    ensures
        p[i] != '/',
    decreases end,
{
    if end > 0 && p[end - 1] != '/' {
        if i < end - 1 {
            lemma_segment_has_no_separator(p, end - 1, i);
        }
    }
}

/// The file name of `path`: its last component, unless the path ends in `..`.
pub fn file_name(path: &str) -> (r: Option<String>)
    ensures
        r is Some == file_name_of(path@) is Some,
        r is Some ==> r->0@ == file_name_of(path@)->0,
{
    let p = to_chars(path);
    match chars_file_name(p.as_slice()) {
        Some((start, end)) => {
            let name = chars_slice(p.as_slice(), start, end);
            Some(string_from_chars(name.as_slice()))
        },
        None => None,
    }
}

/// The extension of `path`: what follows the last `.` of its file name.
pub fn extension(path: &str) -> (r: Option<String>)
    ensures
        r is Some == extension_of(path@) is Some,
        r is Some ==> r->0@ == extension_of(path@)->0,
{
    let p = to_chars(path);
    match chars_extension(p.as_slice()) {
        Some((start, end)) => {
            let ext = chars_slice(p.as_slice(), start, end);
            Some(string_from_chars(ext.as_slice()))
        },
        None => None,
    }
}

/// The parent of `path`: the path without its last component.
pub fn parent(path: &str) -> (r: Option<String>)
    ensures
        r is Some == parent_of(path@) is Some,
        r is Some ==> r->0@ == parent_of(path@)->0,
{
    let p = to_chars(path);
    match chars_parent_len(p.as_slice()) {
        Some(n) => {
            let dir = chars_slice(p.as_slice(), 0, n);
            Some(string_from_chars(dir.as_slice()))
        },
        None => None,
    }
}

} // verus!
