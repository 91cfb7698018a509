//! The difference between two runs.

use crate::counter::FileStats;
use crate::paths::{chars_file_name, file_name_of};
use crate::text::{chars_eq, chars_slice, decimal, decimal_string, to_chars};
use vstd::prelude::*;

verus! {

/// Counts of files and lines on one side of a difference.
#[derive(Debug, Default, Clone, Copy, PartialEq, Eq)]
pub struct LanguageDiff {
    pub files: u64,
    pub code: u64,
    pub comments: u64,
    pub blanks: u64,
}

impl LanguageDiff {
    /// Takes one more file in.
    pub fn add(&mut self, stats: &FileStats)
        requires
            old(self).files < u64::MAX,
            old(self).code + stats.code <= u64::MAX,
            old(self).comments + stats.comments <= u64::MAX,
            old(self).blanks + stats.blanks <= u64::MAX,
        ensures
            final(self).files == old(self).files + 1,
            final(self).code == old(self).code + stats.code,
            final(self).comments == old(self).comments + stats.comments,
            final(self).blanks == old(self).blanks + stats.blanks,
    {
        self.files += 1;
        self.code += stats.code;
        self.comments += stats.comments;
        self.blanks += stats.blanks;
    }

    /// The number of lines: `code + comments + blanks`.
    pub fn total(&self) -> (r: u64)
        requires
            self.code + self.comments + self.blanks <= u64::MAX,
        ensures
            r == self.code + self.comments + self.blanks,
    {
        self.code + self.comments + self.blanks
    }
}

/// The files of a language by what became of them between two runs.
#[derive(Debug, Default, Clone, Copy, PartialEq, Eq)]
pub struct DiffStats {
    pub same: LanguageDiff,
    pub modified: LanguageDiff,
    pub added: LanguageDiff,
    pub removed: LanguageDiff,
}

/// The difference between two runs, by language and in all.
#[derive(Debug)]
pub struct DiffResult {
    pub by_language: Vec<(String, DiffStats)>,
    pub totals: DiffStats,
}

/// What became of a file between two runs.
#[derive(Debug, Clone, Copy, PartialEq, Eq)]
pub enum Change {
    Same,
    Modified,
    Added,
    Removed,
}

/// What became of a file, from its counts in the first run and in the second,
/// where it was there: a file in both runs is the same if its three counts are,
/// and modified if not.
pub open spec fn change_of(before: Option<FileStats>, after: Option<FileStats>) -> Option<Change> {
    match (before, after) {
        (Some(a), Some(b)) => if a.code == b.code && a.comments == b.comments && a.blanks
            == b.blanks {
            Some(Change::Same)
        } else {
            Some(Change::Modified)
        },
        (Some(_), None) => Some(Change::Removed),
        (None, Some(_)) => Some(Change::Added),
        (None, None) => None,
    }
}

/// What became of a file between two runs.
pub fn classify_change(before: Option<&FileStats>, after: Option<&FileStats>) -> (r: Option<Change>)
    ensures
        r == change_of(
            match before {
                Some(a) => Some(*a),
                None => None,
            },
            match after {
                Some(b) => Some(*b),
                None => None,
            },
        ),
{
    match (before, after) {
        (Some(a), Some(b)) => {
            if a.code == b.code && a.comments == b.comments && a.blanks == b.blanks {
                Some(Change::Same)
            } else {
                Some(Change::Modified)
            }
        },
        (Some(_), None) => Some(Change::Removed),
        (None, Some(_)) => Some(Change::Added),
        (None, None) => None,
    }
}

impl DiffStats {
    /// Takes one more file in, on the side that its change names. The counts
    /// are those of the first run for a file that was there, and of the second
    /// for one that was added.
    pub fn record(&mut self, change: Change, stats: &FileStats)
        requires
            old(self).side(change).files < u64::MAX,
            old(self).side(change).code + stats.code <= u64::MAX,
            old(self).side(change).comments + stats.comments <= u64::MAX,
            old(self).side(change).blanks + stats.blanks <= u64::MAX,
        ensures
            final(self).side(change).files == old(self).side(change).files + 1,
            final(self).side(change).code == old(self).side(change).code + stats.code,
            final(self).side(change).comments == old(self).side(change).comments + stats.comments,
            final(self).side(change).blanks == old(self).side(change).blanks + stats.blanks,
            forall|other: Change| other != change ==> final(self).side(other) == old(self).side(other),
    {
        match change {
            Change::Same => self.same.add(stats),
            Change::Modified => self.modified.add(stats),
            Change::Added => self.added.add(stats),
            Change::Removed => self.removed.add(stats),
        }
    }

    /// The side of the difference that a change names.
    pub open spec fn side(self, change: Change) -> LanguageDiff {
        match change {
            Change::Same => self.same,
            Change::Modified => self.modified,
            Change::Added => self.added,
            Change::Removed => self.removed,
        }
    }
}

/// A count as a difference shows it: a dash for nothing, else the number.
pub open spec fn diff_count(n: u64) -> Seq<char> {
    if n == 0 {
        "-"@
    } else {
        decimal(n as nat)
    }
}

/// A count as a difference shows it.
pub fn format_diff_count(n: u64) -> (r: String)
    ensures
        r@ == diff_count(n),
{
    if n == 0 {
        String::from_str("-")
    } else {
        decimal_string(n)
    }
}

/// The name by which a file is found again in the other run: its file name,
/// or its whole path where it has none.
pub open spec fn key_of(file: FileStats) -> Seq<char> {
    match file_name_of(file.path@) {
        Some(name) => name,
        None => file.path@,
    }
}

/// Whether a file holds any line.
pub open spec fn has_lines(file: FileStats) -> bool {
    file.code + file.comments + file.blanks > 0
}

/// The file of a run that stands for a key: the last one with lines that has
/// the key.
pub open spec fn latest(side: Seq<FileStats>, key: Seq<char>) -> Option<FileStats>
    decreases side.len(),
{
    if side.len() == 0 {
        None
    } else if has_lines(side.last()) && key_of(side.last()) == key {
        Some(side.last())
    } else {
        latest(side.drop_last(), key)
    }
}

/// Whether file `i` stands for its key in its run: it has lines, and no later
/// file with lines has its key.
pub open spec fn is_latest(side: Seq<FileStats>, i: int) -> bool {
    has_lines(side[i]) && forall|j: int|
        i < j < side.len() && has_lines(#[trigger] side[j]) ==> key_of(side[j]) != key_of(side[i])
}

/// One file of a difference: its language, what became of it, and its counts.
pub ghost struct DiffRecord {
    pub language: Seq<char>,
    pub change: Change,
    pub code: nat,
    pub comments: nat,
    pub blanks: nat,
}

/// The record of a file with the given change.
pub open spec fn record_of(file: FileStats, change: Change) -> DiffRecord {
    DiffRecord {
        language: file.language@,
        change,
        code: file.code as nat,
        comments: file.comments as nat,
        blanks: file.blanks as nat,
    }
}

/// The records of the first `n` files of the first run: each file that stands
/// for its key is the same, modified or removed, by what stands for that key in
/// the second run.
pub open spec fn first_records(first: Seq<FileStats>, second: Seq<FileStats>, n: int) -> Seq<
    DiffRecord,
>
    decreases n,
{
    if n <= 0 || n > first.len() {
        Seq::empty()
    } else if is_latest(first, n - 1) {
        first_records(first, second, n - 1).push(
            record_of(
                first[n - 1],
                change_of(Some(first[n - 1]), latest(second, key_of(first[n - 1])))->0,
            ),
        )
    } else {
        first_records(first, second, n - 1)
    }
}

/// The records of the first `n` files of the second run: each file that stands
/// for its key, and whose key stands for nothing in the first run, is added.
pub open spec fn second_records(first: Seq<FileStats>, second: Seq<FileStats>, n: int) -> Seq<
    DiffRecord,
>
    decreases n,
{
    if n <= 0 || n > second.len() {
        Seq::empty()
    } else if is_latest(second, n - 1) && latest(first, key_of(second[n - 1])) is None {
        second_records(first, second, n - 1).push(record_of(second[n - 1], Change::Added))
    } else {
        second_records(first, second, n - 1)
    }
}

/// The records of a difference: those of the first run, then those of the
/// second.
pub open spec fn records(first: Seq<FileStats>, second: Seq<FileStats>) -> Seq<DiffRecord> {
    first_records(first, second, first.len() as int) + second_records(
        first,
        second,
        second.len() as int,
    )
}

/// Sums over the records of one side of a difference.
pub ghost struct SideSum {
    pub files: nat,
    pub code: nat,
    pub comments: nat,
    pub blanks: nat,
}

impl SideSum {
    /// Whether `side` holds these sums.
    pub open spec fn is(self, side: LanguageDiff) -> bool {
        self.files == side.files && self.code == side.code && self.comments == side.comments
            && self.blanks == side.blanks
    }

    /// Whether the three sums of lines fit in 64 bits.
    pub open spec fn fits(self) -> bool {
        self.code <= u64::MAX && self.comments <= u64::MAX && self.blanks <= u64::MAX
    }
}

/// Whether a record belongs to a language, or to any where none is named.
pub open spec fn belongs(record: DiffRecord, language: Option<Seq<char>>) -> bool {
    match language {
        Some(name) => record.language == name,
        None => true,
    }
}

/// The sums over the records with the given change, of one language or of
/// all.
pub open spec fn side_sum(list: Seq<DiffRecord>, language: Option<Seq<char>>, change: Change) -> SideSum
    decreases list.len(),
{
    if list.len() == 0 {
        SideSum { files: 0, code: 0, comments: 0, blanks: 0 }
    } else {
        let before = side_sum(list.drop_last(), language, change);
        let last = list.last();
        if last.change == change && belongs(last, language) {
            SideSum {
                files: before.files + 1,
                code: before.code + last.code,
                comments: before.comments + last.comments,
                blanks: before.blanks + last.blanks,
            }
        } else {
            before
        }
    }
}

/// The languages of the records, each once, in the order in which they first
/// occur.
pub open spec fn first_languages(list: Seq<DiffRecord>) -> Seq<Seq<char>>
    decreases list.len(),
{
    if list.len() == 0 {
        Seq::empty()
    } else {
        let before = first_languages(list.drop_last());
        if before.contains(list.last().language) {
            before
        } else {
            before.push(list.last().language)
        }
    }
}

/// Whether `stats` holds the sums of the records of one language, or of all.
pub open spec fn sums_up(stats: DiffStats, list: Seq<DiffRecord>, language: Option<Seq<char>>) -> bool {
    &&& side_sum(list, language, Change::Same).is(stats.same)
    &&& side_sum(list, language, Change::Modified).is(stats.modified)
    &&& side_sum(list, language, Change::Added).is(stats.added)
    &&& side_sum(list, language, Change::Removed).is(stats.removed)
}

/// Whether the sums over all records fit in 64 bits, whatever the change.
pub open spec fn sums_fit(list: Seq<DiffRecord>) -> bool {
    &&& side_sum(list, None, Change::Same).fits()
    &&& side_sum(list, None, Change::Modified).fits()
    &&& side_sum(list, None, Change::Added).fits()
    &&& side_sum(list, None, Change::Removed).fits()
}

/// Whether `result` is the difference that the records make: the totals sum
/// all records, and there is one entry for each language, in the order in
/// which the languages first occur, that sums the records of the language.
pub open spec fn differs_by(result: DiffResult, list: Seq<DiffRecord>) -> bool {
    &&& sums_up(result.totals, list, None)
    &&& result.by_language@.len() == first_languages(list).len()
    &&& forall|k: int|
        0 <= k < result.by_language@.len() ==> (#[trigger] result.by_language@[k]).0@
            == first_languages(list)[k] && sums_up(
            result.by_language@[k].1,
            list,
            Some(result.by_language@[k].0@),
        )
}

/// The sums of a language are within the sums of all, and the sums of the
/// first records within the sums of all records.
pub proof fn lemma_side_sum_within(
    list: Seq<DiffRecord>,
    language: Option<Seq<char>>,
    change: Change,
    n: int,
)
    requires
        0 <= n <= list.len(),
    ensures
        side_sum(list.take(n), language, change).files <= side_sum(list, None, change).files,
        side_sum(list.take(n), language, change).code <= side_sum(list, None, change).code,
        side_sum(list.take(n), language, change).comments <= side_sum(list, None, change).comments,
        side_sum(list.take(n), language, change).blanks <= side_sum(list, None, change).blanks,
        side_sum(list, None, change).files <= list.len(),
    decreases list.len(),
{
    if list.len() > 0 {
        if n == list.len() {
            assert(list.take(n) =~= list);
            lemma_side_sum_within(list.drop_last(), language, change, n - 1);
            assert(list.drop_last().take(n - 1) =~= list.drop_last());
        } else {
            lemma_side_sum_within(list.drop_last(), language, change, n);
            assert(list.drop_last().take(n) =~= list.take(n));
        }
    } else {
        assert(list.take(n) =~= list);
    }
}

/// A language that is not among the first languages has no record.
pub proof fn lemma_no_record(list: Seq<DiffRecord>, language: Seq<char>, change: Change)
    requires
        !first_languages(list).contains(language),
    ensures
        side_sum(list, Some(language), change) == (SideSum {
            files: 0,
            code: 0,
            comments: 0,
            blanks: 0,
        }),
    decreases list.len(),
{
    if list.len() > 0 {
        let before = first_languages(list.drop_last());
        if before.contains(list.last().language) {
            lemma_no_record(list.drop_last(), language, change);
        } else {
            let now = before.push(list.last().language);
            assert(now[now.len() - 1] == list.last().language);
            assert(!before.contains(language)) by {
                if before.contains(language) {
                    let i = choose|i: int| 0 <= i < before.len() && before[i] == language;
                    assert(now[i] == language);
                }
            }
            lemma_no_record(list.drop_last(), language, change);
        }
    }
}

/// The first languages are all different.
pub proof fn lemma_languages_distinct(list: Seq<DiffRecord>, a: int, b: int)
    requires
        0 <= a < first_languages(list).len(),
        0 <= b < first_languages(list).len(),
        a != b,
    ensures
        first_languages(list)[a] != first_languages(list)[b],
    decreases list.len(),
{
    if list.len() > 0 {
        let before = first_languages(list.drop_last());
        if before.contains(list.last().language) {
            lemma_languages_distinct(list.drop_last(), a, b);
        } else {
            if a < before.len() && b < before.len() {
                lemma_languages_distinct(list.drop_last(), a, b);
            } else if a < before.len() {
                assert(before.contains(before[a]));
            } else if b < before.len() {
                assert(before.contains(before[b]));
            }
        }
    }
}

/// One file of a difference, as the library holds it while it sums.
struct Entry {
    change: Change,
    stats: FileStats,
}

/// The records of a list of entries.
spec fn entry_records(entries: Seq<Entry>) -> Seq<DiffRecord> {
    Seq::new(entries.len(), |i: int| record_of(entries[i].stats, entries[i].change))
}

fn file_has_lines(file: &FileStats) -> (r: bool)
    ensures
        r == has_lines(*file),
{
    file.code > 0 || file.comments > 0 || file.blanks > 0
}

fn key_chars(file: &FileStats) -> (r: Vec<char>)
    ensures
        r@ == key_of(*file),
{
    let p = to_chars(file.path.as_str());
    match chars_file_name(p.as_slice()) {
        Some((start, end)) => chars_slice(p.as_slice(), start, end),
        None => p,
    }
}

fn find_latest(side: &Vec<FileStats>, key: &[char]) -> (r: Option<usize>)
    ensures
        r is Some == latest(side@, key@) is Some,
        r matches Some(at) ==> at < side@.len() && latest(side@, key@) == Some(side@[at as int]),
{
    let mut j: usize = side.len();
    assert(side@.take(j as int) =~= side@);
    while j > 0
        invariant
            j <= side.len(),
            latest(side@, key@) == latest(side@.take(j as int), key@),
        decreases j,
    {
        proof {
            assert(side@.take(j as int).drop_last() =~= side@.take(j - 1));
            assert(side@.take(j as int).last() == side@[j - 1]);
        }
        if file_has_lines(&side[j - 1]) {
            let other = key_chars(&side[j - 1]);
            if chars_eq(other.as_slice(), key) {
                return Some(j - 1);
            }
        }
        j -= 1;
    }
    None
}

fn stands_for_key(side: &Vec<FileStats>, i: usize) -> (r: bool)
    requires
        i < side.len(),
    ensures
        r == is_latest(side@, i as int),
{
    if !file_has_lines(&side[i]) {
        return false;
    }
    let key = key_chars(&side[i]);
    let mut j: usize = i + 1;
    while j < side.len()
        invariant
            i < j <= side.len(),
            key@ == key_of(side@[i as int]),
            forall|k: int|
                i < k < j && has_lines(#[trigger] side@[k]) ==> key_of(side@[k]) != key_of(
                    side@[i as int],
                ),
        decreases side.len() - j,
    {
        if file_has_lines(&side[j]) {
            let other = key_chars(&side[j]);
            if chars_eq(other.as_slice(), key.as_slice()) {
                return false;
            }
        }
        j += 1;
    }
    true
}

fn collect_records(first: &Vec<FileStats>, second: &Vec<FileStats>) -> (r: Vec<Entry>)
    ensures
        entry_records(r@) == records(first@, second@),
{
    let mut list: Vec<Entry> = Vec::new();
    let mut i: usize = 0;
    assert(entry_records(list@) =~= first_records(first@, second@, 0));
    while i < first.len()
        invariant
            i <= first.len(),
            entry_records(list@) == first_records(first@, second@, i as int),
        decreases first.len() - i,
    {
        if stands_for_key(first, i) {
            let key = key_chars(&first[i]);
            let other = match find_latest(second, key.as_slice()) {
                Some(at) => Some(&second[at]),
                None => None,
            };
            let change = match classify_change(Some(&first[i]), other) {
                Some(change) => change,
                None => Change::Removed,
            };
            let ghost before = list@;
            list.push(Entry { change, stats: first[i].clone() });
            assert(entry_records(list@) =~= entry_records(before).push(
                record_of(first@[i as int], change),
            ));
        }
        i += 1;
    }
    let ghost head = list@;
    let mut j: usize = 0;
    assert(entry_records(list@) =~= entry_records(head) + second_records(first@, second@, 0));
    while j < second.len()
        invariant
            j <= second.len(),
            entry_records(head) == first_records(first@, second@, first@.len() as int),
            entry_records(list@) == entry_records(head) + second_records(
                first@,
                second@,
                j as int,
            ),
        decreases second.len() - j,
    {
        if stands_for_key(second, j) {
            let key = key_chars(&second[j]);
            if find_latest(first, key.as_slice()).is_none() {
                let ghost before = list@;
                list.push(Entry { change: Change::Added, stats: second[j].clone() });
                assert(entry_records(list@) =~= entry_records(before).push(
                    record_of(second@[j as int], Change::Added),
                ));
                assert(entry_records(list@) =~= entry_records(head) + second_records(
                    first@,
                    second@,
                    j + 1,
                ));
            }
        }
        j += 1;
    }
    list
}

fn language_position(list: &Vec<(String, DiffStats)>, name: &[char]) -> (r: Option<usize>)
    ensures
        r matches Some(at) ==> at < list@.len() && list@[at as int].0@ == name@,
        r is None ==> forall|k: int| 0 <= k < list@.len() ==> (#[trigger] list@[k]).0@ != name@,
{
    let mut at: usize = 0;
    while at < list.len()
        invariant
            at <= list.len(),
            forall|k: int| 0 <= k < at ==> (#[trigger] list@[k]).0@ != name@,
        decreases list.len() - at,
    {
        let other = to_chars(list[at].0.as_str());
        if chars_eq(other.as_slice(), name) {
            return Some(at);
        }
        at += 1;
    }
    None
}

fn side_of(stats: &DiffStats, change: Change) -> (r: LanguageDiff)
    ensures
        r == stats.side(change),
{
    match change {
        Change::Same => stats.same,
        Change::Modified => stats.modified,
        Change::Added => stats.added,
        Change::Removed => stats.removed,
    }
}

/// Taking a record into the sums of its side keeps the sums right.
proof fn lemma_record_taken(
    before: DiffStats,
    after: DiffStats,
    done: Seq<DiffRecord>,
    last: DiffRecord,
    language: Option<Seq<char>>,
)
    requires
        sums_up(before, done, language),
        belongs(last, language),
        after.side(last.change).files == before.side(last.change).files + 1,
        after.side(last.change).code == before.side(last.change).code + last.code,
        after.side(last.change).comments == before.side(last.change).comments + last.comments,
        after.side(last.change).blanks == before.side(last.change).blanks + last.blanks,
        forall|other: Change| other != last.change ==> after.side(other) == before.side(other),
    ensures
        sums_up(after, done.push(last), language),
{
    let upto = done.push(last);
    assert(upto.drop_last() =~= done);
    assert(upto.last() == last);
    assert(after.side(Change::Same) == after.same);
    assert(after.side(Change::Modified) == after.modified);
    assert(after.side(Change::Added) == after.added);
    assert(after.side(Change::Removed) == after.removed);
    assert(before.side(Change::Same) == before.same);
    assert(before.side(Change::Modified) == before.modified);
    assert(before.side(Change::Added) == before.added);
    assert(before.side(Change::Removed) == before.removed);
}

/// A record of another language leaves the sums of a language as they were.
proof fn lemma_record_passed(stats: DiffStats, done: Seq<DiffRecord>, last: DiffRecord, name: Seq<char>)
    requires
        sums_up(stats, done, Some(name)),
        last.language != name,
    ensures
        sums_up(stats, done.push(last), Some(name)),
{
    let upto = done.push(last);
    assert(upto.drop_last() =~= done);
    assert(upto.last() == last);
}

/// Sums that do not fit for one change do not fit.
proof fn lemma_does_not_fit(list: Seq<DiffRecord>, change: Change)
    requires
        !side_sum(list, None, change).fits(),
    ensures
        !sums_fit(list),
{
    match change {
        Change::Same => {},
        Change::Modified => {},
        Change::Added => {},
        Change::Removed => {},
    }
}

fn no_difference() -> (r: DiffStats)
    ensures
        forall|change: Change|
            (#[trigger] r.side(change)) == (LanguageDiff {
                files: 0,
                code: 0,
                comments: 0,
                blanks: 0,
            }),
{
    let none = LanguageDiff { files: 0, code: 0, comments: 0, blanks: 0 };
    DiffStats { same: none, modified: none, added: none, removed: none }
}

/// The difference between two runs, from the counts of their files.
///
/// A file is found again in the other run by its file name; of several files
/// of one name in a run, the last one with lines counts, and files without
/// lines do not count at all. A file of the first run is the same if its three
/// counts are those of its partner, modified if they are not, and removed if
/// it has no partner; a file of the second run without a partner is added.
/// There is no difference where the sums do not fit in 64 bits.
pub fn compute_diff(first: &Vec<FileStats>, second: &Vec<FileStats>) -> (r: Option<DiffResult>)
    ensures
        r is Some <==> sums_fit(records(first@, second@)),
        r matches Some(result) ==> differs_by(result, records(first@, second@)),
{
    let entries = collect_records(first, second);
    let ghost all = records(first@, second@);
    let mut totals = no_difference();
    let mut by_language: Vec<(String, DiffStats)> = Vec::new();
    let mut i: usize = 0;
    assert(all.take(0) =~= Seq::empty());
    assert(totals.side(Change::Same).files == 0 && totals.side(Change::Modified).files == 0
        && totals.side(Change::Added).files == 0 && totals.side(Change::Removed).files == 0);
    while i < entries.len()
        invariant
            i <= entries.len(),
            all == entry_records(entries@),
            all == records(first@, second@),
            sums_up(totals, all.take(i as int), None),
            by_language@.len() == first_languages(all.take(i as int)).len(),
            forall|k: int|
                0 <= k < by_language@.len() ==> (#[trigger] by_language@[k]).0@ == first_languages(
                    all.take(i as int),
                )[k] && sums_up(by_language@[k].1, all.take(i as int), Some(by_language@[k].0@)),
        decreases entries.len() - i,
    {
        let entry = &entries[i];
        let change = entry.change;
        let ghost done = all.take(i as int);
        let ghost upto = all.take(i + 1);
        let ghost name = entry.stats.language@;
        let ghost old_list = by_language@;
        proof {
            assert(upto.drop_last() =~= done);
            assert(upto.last() == record_of(entry.stats, change));
            assert(done.take(done.len() as int) =~= done);
            assert(upto.take(upto.len() as int) =~= upto);
            lemma_side_sum_within(done, None, change, done.len() as int);
            lemma_side_sum_within(done, Some(name), change, done.len() as int);
            lemma_side_sum_within(upto, Some(name), change, upto.len() as int);
            lemma_side_sum_within(all, None, change, i + 1);
        }
        let now = side_of(&totals, change);
        let ghost last = record_of(entry.stats, change);
        let ghost old_totals = totals;
        proof {
            assert(upto =~= done.push(last));
            match change {
                Change::Same => {},
                Change::Modified => {},
                Change::Added => {},
                Change::Removed => {},
            }
            assert(side_sum(done, None, change).is(now));
        }
        if entry.stats.code > u64::MAX - now.code || entry.stats.comments > u64::MAX - now.comments
            || entry.stats.blanks > u64::MAX - now.blanks {
            proof {
                assert(!side_sum(all, None, change).fits());
                lemma_does_not_fit(all, change);
            }
            return None;
        }
        totals.record(change, &entry.stats);
        proof {
            lemma_record_taken(old_totals, totals, done, last, None);
        }
        let name_chars = to_chars(entry.stats.language.as_str());
        match language_position(&by_language, name_chars.as_slice()) {
            Some(at) => {
                let before = by_language[at].1;
                proof {
                    assert(first_languages(done)[at as int] == name);
                    assert(first_languages(done).contains(name));
                    assert(sums_up(before, done, Some(name)));
                    match change {
                        Change::Same => {},
                        Change::Modified => {},
                        Change::Added => {},
                        Change::Removed => {},
                    }
                    assert(side_sum(done, Some(name), change).is(before.side(change)));
                }
                let mut stats = before;
                stats.record(change, &entry.stats);
                by_language.set(at, (entry.stats.language.clone(), stats));
                proof {
                    lemma_record_taken(before, stats, done, last, Some(name));
                    assert forall|k: int| 0 <= k < by_language@.len() implies (
                    #[trigger] by_language@[k]).0@ == first_languages(upto)[k] && sums_up(
                        by_language@[k].1,
                        upto,
                        Some(by_language@[k].0@),
                    ) by {
                        if k != at {
                            assert(by_language@[k] == old_list[k]);
                            assert(old_list[k].0@ == first_languages(done)[k]);
                            lemma_languages_distinct(done, k, at as int);
                            lemma_record_passed(old_list[k].1, done, last, old_list[k].0@);
                        }
                    }
                }
            },
            None => {
                let mut stats = no_difference();
                let ghost fresh = stats;
                proof {
                    assert(!first_languages(done).contains(name)) by {
                        if first_languages(done).contains(name) {
                            let k = choose|k: int|
                                0 <= k < first_languages(done).len() && first_languages(done)[k]
                                    == name;
                            assert(old_list[k].0@ == name);
                        }
                    }
                    lemma_no_record(done, name, Change::Same);
                    lemma_no_record(done, name, Change::Modified);
                    lemma_no_record(done, name, Change::Added);
                    lemma_no_record(done, name, Change::Removed);
                    assert(fresh.side(Change::Same).files == 0 && fresh.side(
                        Change::Modified,
                    ).files == 0 && fresh.side(Change::Added).files == 0 && fresh.side(
                        Change::Removed,
                    ).files == 0);
                    assert(sums_up(fresh, done, Some(name)));
                    assert(fresh.side(change).files == 0);
                }
                stats.record(change, &entry.stats);
                by_language.push((entry.stats.language.clone(), stats));
                proof {
                    lemma_record_taken(fresh, stats, done, last, Some(name));
                    assert forall|k: int| 0 <= k < by_language@.len() implies (
                    #[trigger] by_language@[k]).0@ == first_languages(upto)[k] && sums_up(
                        by_language@[k].1,
                        upto,
                        Some(by_language@[k].0@),
                    ) by {
                        if k < old_list.len() {
                            assert(by_language@[k] == old_list[k]);
                            assert(old_list[k].0@ == first_languages(done)[k]);
                            assert(first_languages(done).contains(old_list[k].0@));
                            lemma_record_passed(old_list[k].1, done, last, old_list[k].0@);
                        }
                    }
                }
            },
        }
        i += 1;
    }
    assert(all.take(entries.len() as int) =~= all);
    Some(DiffResult { by_language, totals })
}

} // verus!
