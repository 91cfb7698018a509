//! Per-language aggregates and the summary of a run.

use crate::counter::FileStats;
use crate::index::{index_entries, index_get, index_insert, index_new};
use crate::text::{
    chars_less, lemma_lex_less_total, lemma_lex_less_transitive, lex_less, to_chars,
};
use core::time::Duration;
use vstd::prelude::*;

verus! {

/// The counts of all files of one language.
#[derive(Debug, Default)]
pub struct LanguageStats {
    pub name: String,
    pub files: u64,
    pub code: u64,
    pub comments: u64,
    pub blanks: u64,
}

impl Clone for LanguageStats {
    fn clone(&self) -> (r: Self)
        ensures
            r == *self,
    {
        LanguageStats {
            name: self.name.clone(),
            files: self.files,
            code: self.code,
            comments: self.comments,
            blanks: self.blanks,
        }
    }
}

impl LanguageStats {
    /// The number of lines: `code + comments + blanks`.
    pub fn total(&self) -> (r: u64)
        requires
            self.code + self.comments + self.blanks <= u64::MAX,
        ensures
            r == self.code + self.comments + self.blanks,
    {
        self.code + self.comments + self.blanks
    }

    /// Takes one more file into the aggregate.
    pub fn add(&mut self, file_stats: &FileStats)
        requires
            old(self).files < u64::MAX,
            old(self).code + file_stats.code <= u64::MAX,
            old(self).comments + file_stats.comments <= u64::MAX,
            old(self).blanks + file_stats.blanks <= u64::MAX,
        ensures
            final(self).name == old(self).name,
            final(self).files == old(self).files + 1,
            final(self).code == old(self).code + file_stats.code,
            final(self).comments == old(self).comments + file_stats.comments,
            final(self).blanks == old(self).blanks + file_stats.blanks,
    {
        self.files += 1;
        self.code += file_stats.code;
        self.comments += file_stats.comments;
        self.blanks += file_stats.blanks;
    }

    /// Whether the aggregate holds any line.
    pub fn has_lines(&self) -> (r: bool)
        ensures
            r == (self.code + self.comments + self.blanks > 0),
    {
        self.code > 0 || self.comments > 0 || self.blanks > 0
    }
}

/// Sums of files and lines.
pub ghost struct Totals {
    pub files: nat,
    pub code: nat,
    pub comments: nat,
    pub blanks: nat,
}

impl Totals {
    /// Nothing.
    pub open spec fn zero() -> Totals {
        Totals { files: 0, code: 0, comments: 0, blanks: 0 }
    }

    /// The sums with one more file.
    pub open spec fn plus(self, file: FileStats) -> Totals {
        Totals {
            files: self.files + 1,
            code: self.code + file.code as nat,
            comments: self.comments + file.comments as nat,
            blanks: self.blanks + file.blanks as nat,
        }
    }

    /// The number of lines.
    pub open spec fn lines(self) -> nat {
        self.code + self.comments + self.blanks
    }

    /// Whether no sum here exceeds the one in `other`.
    pub open spec fn within(self, other: Totals) -> bool {
        &&& self.files <= other.files
        &&& self.code <= other.code
        &&& self.comments <= other.comments
        &&& self.blanks <= other.blanks
    }

    /// Whether the three sums of lines fit in 64 bits.
    pub open spec fn fits(self) -> bool {
        self.code <= u64::MAX && self.comments <= u64::MAX && self.blanks <= u64::MAX
    }
}

/// The sums over the files of the language `name`.
pub open spec fn totals_of(stats: Seq<FileStats>, name: Seq<char>) -> Totals
    decreases stats.len(),
{
    if stats.len() == 0 {
        Totals::zero()
    } else if stats.last().language@ == name {
        totals_of(stats.drop_last(), name).plus(stats.last())
    } else {
        totals_of(stats.drop_last(), name)
    }
}

/// The sums over all files.
pub open spec fn totals_all(stats: Seq<FileStats>) -> Totals
    decreases stats.len(),
{
    if stats.len() == 0 {
        Totals::zero()
    } else {
        totals_all(stats.drop_last()).plus(stats.last())
    }
}

/// Whether the language of file `k` holds any line over all of `stats`.
pub open spec fn language_has_lines(stats: Seq<FileStats>, k: int) -> bool {
    totals_of(stats, stats[k].language@).lines() > 0
}

/// The sums over those of the first `n` files whose language holds any line
/// over all of `stats`.
pub open spec fn counted_upto(stats: Seq<FileStats>, n: int) -> Totals
    decreases n,
{
    if n <= 0 || n > stats.len() {
        Totals::zero()
    } else if language_has_lines(stats, n - 1) {
        counted_upto(stats, n - 1).plus(stats[n - 1])
    } else {
        counted_upto(stats, n - 1)
    }
}

/// The sums over the files whose language holds any line.
pub open spec fn counted(stats: Seq<FileStats>) -> Totals {
    counted_upto(stats, stats.len() as int)
}

/// Whether `a` comes before `b` in a summary: more code first, and among
/// equals the lesser name first.
pub open spec fn precedes(a: LanguageStats, b: LanguageStats) -> bool {
    a.code > b.code || (a.code == b.code && lex_less(a.name@, b.name@))
}

/// Whether `entry` is the aggregate of its language over `stats`.
pub open spec fn aggregates(entry: LanguageStats, stats: Seq<FileStats>) -> bool {
    let sums = totals_of(stats, entry.name@);
    &&& entry.files == sums.files
    &&& entry.code == sums.code
    &&& entry.comments == sums.comments
    &&& entry.blanks == sums.blanks
}

/// Whether `languages` is the ranked list of aggregates of `stats`: each entry
/// sums the files of its language and holds a line, the entries stand in
/// order, and every language with a line has its entry.
pub open spec fn summarizes(languages: Seq<LanguageStats>, stats: Seq<FileStats>) -> bool {
    &&& forall|i: int|
        0 <= i < languages.len() ==> aggregates(#[trigger] languages[i], stats)
            && languages[i].code + languages[i].comments + languages[i].blanks > 0
    &&& forall|i: int, j: int|
        0 <= i < j < languages.len() ==> precedes(#[trigger] languages[i], #[trigger] languages[j])
    &&& forall|k: int|
        0 <= k < stats.len() && #[trigger] language_has_lines(stats, k) ==> exists|i: int|
            0 <= i < languages.len() && (#[trigger] languages[i]).name@ == stats[k].language@
}

/// The result of a run.
#[derive(Debug, Default)]
pub struct Summary {
    pub languages: Vec<LanguageStats>,
    pub total_files: u64,
    pub total_code: u64,
    pub total_comments: u64,
    pub total_blanks: u64,
    pub elapsed: Option<Duration>,
    pub file_stats: Vec<FileStats>,
}

/// The files of a language are among all files.
pub proof fn lemma_totals_of_within_all(stats: Seq<FileStats>, name: Seq<char>)
    ensures
        totals_of(stats, name).within(totals_all(stats)),
    decreases stats.len(),
{
    if stats.len() > 0 {
        lemma_totals_of_within_all(stats.drop_last(), name);
    }
}

/// The first files are among all files.
pub proof fn lemma_totals_all_prefix(stats: Seq<FileStats>, n: int)
    requires
        0 <= n <= stats.len(),
    ensures
        totals_all(stats.take(n)).within(totals_all(stats)),
    decreases stats.len() - n,
{
    if n < stats.len() {
        lemma_totals_all_prefix(stats, n + 1);
        assert(stats.take(n + 1).drop_last() =~= stats.take(n));
    } else {
        assert(stats.take(n) =~= stats);
    }
}

/// The counted files are among the first files.
pub proof fn lemma_counted_within_all(stats: Seq<FileStats>, n: int)
    requires
        0 <= n <= stats.len(),
    ensures
        counted_upto(stats, n).within(totals_all(stats.take(n))),
    decreases n,
{
    if n > 0 {
        lemma_counted_within_all(stats, n - 1);
        assert(stats.take(n).drop_last() =~= stats.take(n - 1));
        assert(stats.take(n).last() == stats[n - 1]);
    }
}

/// A language that no file names has no file.
pub proof fn lemma_totals_of_absent(stats: Seq<FileStats>, name: Seq<char>)
    requires
        forall|j: int| 0 <= j < stats.len() ==> (#[trigger] stats[j]).language@ != name,
    ensures
        totals_of(stats, name) == Totals::zero(),
    decreases stats.len(),
{
    if stats.len() > 0 {
        assert(stats.last() == stats[stats.len() - 1]);
        assert forall|j: int| 0 <= j < stats.drop_last().len() implies (
        #[trigger] stats.drop_last()[j]).language@ != name by {
            assert(stats.drop_last()[j] == stats[j]);
        }
        lemma_totals_of_absent(stats.drop_last(), name);
    }
}

/// The order of a summary is transitive.
pub proof fn lemma_precedes_transitive(a: LanguageStats, b: LanguageStats, c: LanguageStats)
    requires
        precedes(a, b),
        precedes(b, c),
    ensures
        precedes(a, c),
{
    if a.code == b.code && b.code == c.code {
        lemma_lex_less_transitive(a.name@, b.name@, c.name@);
    }
}

/// Whether `a` comes before `b` in a summary.
pub fn comes_before(a: &LanguageStats, b: &LanguageStats) -> (r: bool)
    ensures
        r == precedes(*a, *b),
{
    if a.code != b.code {
        a.code > b.code
    } else {
        let x = to_chars(a.name.as_str());
        let y = to_chars(b.name.as_str());
        chars_less(x.as_slice(), y.as_slice())
    }
}

/// Whether the sums of lines over all of `stats` fit in 64 bits, which
/// [`Summary::from_file_stats`] asks for.
pub fn sums_fit(stats: &Vec<FileStats>) -> (r: bool)
    ensures
        r == totals_all(stats@).fits(),
{
    let mut code: u64 = 0;
    let mut comments: u64 = 0;
    let mut blanks: u64 = 0;
    let mut i: usize = 0;
    assert(stats@.take(0) =~= Seq::empty());
    while i < stats.len()
        invariant
            i <= stats.len(),
            code == totals_all(stats@.take(i as int)).code,
            comments == totals_all(stats@.take(i as int)).comments,
            blanks == totals_all(stats@.take(i as int)).blanks,
        decreases stats.len() - i,
    {
        let file = &stats[i];
        proof {
            assert(stats@.take(i + 1).drop_last() =~= stats@.take(i as int));
            assert(stats@.take(i + 1).last() == stats@[i as int]);
            lemma_totals_all_prefix(stats@, i + 1);
        }
        if file.code > u64::MAX - code || file.comments > u64::MAX - comments || file.blanks
            > u64::MAX - blanks {
            return false;
        }
        code += file.code;
        comments += file.comments;
        blanks += file.blanks;
        i += 1;
    }
    assert(stats@.take(stats.len() as int) =~= stats@);
    true
}

/// Whether the index knows the position of every entry of `list`, and
/// nothing else.
pub open spec fn indexes(index: Map<Seq<char>, usize>, list: Seq<LanguageStats>) -> bool {
    &&& forall|k: int|
        0 <= k < list.len() ==> index.contains_key((#[trigger] list[k]).name@)
            && index[list[k].name@] == k
    &&& forall|name: Seq<char>| #[trigger]
        index.contains_key(name) ==> index[name] < list.len() && list[index[name] as int].name@
            == name
}

/// The aggregates of `stats`, one for each language in the order in which the
/// languages first occur, with an index from name to position.
fn group_by_language(stats: &Vec<FileStats>) -> (r: (Vec<LanguageStats>, ahash::AHashMap<
    String,
    usize,
>))
    requires
        totals_all(stats@).fits(),
    ensures
        indexes(index_entries(r.1), r.0@),
        forall|k: int| 0 <= k < r.0@.len() ==> aggregates(#[trigger] r.0@[k], stats@),
        forall|j: int|
            0 <= j < stats@.len() ==> index_entries(r.1).contains_key(
                (#[trigger] stats@[j]).language@,
            ),
{
    let mut list: Vec<LanguageStats> = Vec::new();
    let mut index = index_new();
    let mut i: usize = 0;
    assert(stats@.take(0) =~= Seq::empty());
    while i < stats.len()
        invariant
            i <= stats.len(),
            totals_all(stats@).fits(),
            indexes(index_entries(index), list@),
            forall|k: int|
                0 <= k < list@.len() ==> aggregates(#[trigger] list@[k], stats@.take(i as int)),
            forall|j: int|
                0 <= j < i ==> index_entries(index).contains_key((#[trigger] stats@[j]).language@),
        decreases stats.len() - i,
    {
        let file = &stats[i];
        let ghost before = stats@.take(i as int);
        let ghost after = stats@.take(i + 1);
        let ghost name = file.language@;
        let ghost old_list = list@;
        proof {
            assert(after.drop_last() =~= before);
            assert(after.last() == stats@[i as int]);
            lemma_totals_all_prefix(stats@, i + 1);
            lemma_totals_of_within_all(after, name);
            lemma_totals_of_within_all(before, name);
            lemma_totals_all_files(before);
        }
        match index_get(&index, file.language.as_str()) {
            Some(at) => {
                let mut entry = list[at].clone();
                entry.add(file);
                list.set(at, entry);
                proof {
                    assert forall|k: int| 0 <= k < list@.len() implies aggregates(
                        #[trigger] list@[k],
                        after,
                    ) by {
                        assert(aggregates(old_list[k], before));
                        if k != at {
                            assert(old_list[k].name@ != name);
                        }
                    }
                }
            },
            None => {
                proof {
                    assert forall|j: int| 0 <= j < before.len() implies (
                    #[trigger] before[j]).language@ != name by {
                        assert(before[j] == stats@[j]);
                    }
                    lemma_totals_of_absent(before, name);
                }
                let entry = LanguageStats {
                    name: file.language.clone(),
                    files: 1,
                    code: file.code,
                    comments: file.comments,
                    blanks: file.blanks,
                };
                let at = list.len();
                list.push(entry);
                index_insert(&mut index, file.language.clone(), at);
                proof {
                    assert forall|k: int| 0 <= k < list@.len() implies aggregates(
                        #[trigger] list@[k],
                        after,
                    ) by {
                        if k < old_list.len() {
                            assert(list@[k] == old_list[k]);
                            assert(aggregates(old_list[k], before));
                            assert(old_list[k].name@ != name);
                        }
                    }
                }
            },
        }
        i += 1;
    }
    assert(stats@.take(stats.len() as int) =~= stats@);
    (list, index)
}

/// Whether `sorted` stands in the order of a summary.
pub open spec fn ranked(sorted: Seq<LanguageStats>) -> bool {
    forall|i: int, j: int|
        0 <= i < j < sorted.len() ==> precedes(#[trigger] sorted[i], #[trigger] sorted[j])
}

/// The entries of `list` that hold a line, in the order of a summary.
fn rank(list: Vec<LanguageStats>) -> (sorted: Vec<LanguageStats>)
    requires
        forall|a: int, b: int|
            0 <= a < b < list@.len() ==> (#[trigger] list@[a]).name@ != (#[trigger] list@[b]).name@,
    ensures
        ranked(sorted@),
        forall|i: int|
            0 <= i < sorted@.len() ==> list@.contains(#[trigger] sorted@[i]) && sorted@[i].code
                + sorted@[i].comments + sorted@[i].blanks > 0,
        forall|k: int|
            0 <= k < list@.len() && (#[trigger] list@[k]).code + list@[k].comments
                + list@[k].blanks > 0 ==> sorted@.contains(list@[k]),
{
    let ghost all = list@;
    let mut rest = list;
    let mut sorted: Vec<LanguageStats> = Vec::new();
    while rest.len() > 0
        invariant
            rest@ == all.take(rest@.len() as int),
            rest@.len() <= all.len(),
            forall|a: int, b: int|
                0 <= a < b < all.len() ==> (#[trigger] all[a]).name@ != (#[trigger] all[b]).name@,
            ranked(sorted@),
            forall|i: int|
                0 <= i < sorted@.len() ==> exists|k: int|
                    rest@.len() <= k < all.len() && all[k] == #[trigger] sorted@[i],
            forall|i: int|
                0 <= i < sorted@.len() ==> (#[trigger] sorted@[i]).code + sorted@[i].comments
                    + sorted@[i].blanks > 0,
            forall|k: int|
                rest@.len() <= k < all.len() && (#[trigger] all[k]).code + all[k].comments
                    + all[k].blanks > 0 ==> sorted@.contains(all[k]),
        decreases rest@.len(),
    {
        let ghost n = rest@.len() - 1;
        let ghost shorter = rest@;
        let popped = rest.pop();
        let item = match popped {
            Some(item) => item,
            None => {
                return sorted;
            },
        };
        assert(item == all[n]);
        assert(rest@ =~= all.take(n));
        if item.has_lines() {
            let mut at: usize = 0;
            while at < sorted.len() && comes_before(&sorted[at], &item)
                invariant
                    at <= sorted@.len(),
                    forall|i: int| 0 <= i < at ==> precedes(#[trigger] sorted@[i], item),
                decreases sorted@.len() - at,
            {
                at += 1;
            }
            let ghost old_sorted = sorted@;
            proof {
                // Every entry placed so far has another name than the item.
                assert forall|i: int| 0 <= i < old_sorted.len() implies (
                #[trigger] old_sorted[i]).name@ != item.name@ by {
                    let k = choose|k: int| n < k < all.len() && all[k] == old_sorted[i];
                    assert(all[n].name@ != all[k].name@);
                }
                // From `at` on, the item comes first.
                assert forall|i: int| at <= i < old_sorted.len() implies precedes(
                    item,
                    #[trigger] old_sorted[i],
                ) by {
                    let first = old_sorted[at as int];
                    assert(first.name@ != item.name@);
                    lemma_lex_less_total(first.name@, item.name@);
                    assert(precedes(item, first));
                    if i > at {
                        assert(precedes(first, old_sorted[i]));
                        lemma_precedes_transitive(item, first, old_sorted[i]);
                    }
                }
            }
            sorted.insert(at, item);
            proof {
                assert forall|i: int, j: int| 0 <= i < j < sorted@.len() implies precedes(
                    #[trigger] sorted@[i],
                    #[trigger] sorted@[j],
                ) by {
                    if i < at && j > at {
                        assert(sorted@[i] == old_sorted[i]);
                        assert(sorted@[j] == old_sorted[j - 1]);
                    } else if i < at && j < at {
                        assert(sorted@[i] == old_sorted[i]);
                        assert(sorted@[j] == old_sorted[j]);
                    } else if i > at {
                        assert(sorted@[i] == old_sorted[i - 1]);
                        assert(sorted@[j] == old_sorted[j - 1]);
                    } else if i == at {
                        assert(sorted@[j] == old_sorted[j - 1]);
                    }
                }
                assert forall|i: int| 0 <= i < sorted@.len() implies exists|k: int|
                    rest@.len() <= k < all.len() && all[k] == #[trigger] sorted@[i] by {
                    if i < at {
                        assert(sorted@[i] == old_sorted[i]);
                        let k = choose|k: int| n < k < all.len() && all[k] == old_sorted[i];
                        assert(all[k] == sorted@[i]);
                    } else if i == at {
                        assert(all[n] == sorted@[i]);
                    } else {
                        assert(sorted@[i] == old_sorted[i - 1]);
                        let k = choose|k: int| n < k < all.len() && all[k] == old_sorted[i - 1];
                        assert(all[k] == sorted@[i]);
                    }
                }
                assert forall|i: int| 0 <= i < sorted@.len() implies (#[trigger] sorted@[i]).code
                    + sorted@[i].comments + sorted@[i].blanks > 0 by {
                    if i < at {
                        assert(sorted@[i] == old_sorted[i]);
                    } else if i > at {
                        assert(sorted@[i] == old_sorted[i - 1]);
                    }
                }
                assert forall|k: int|
                    rest@.len() <= k < all.len() && (#[trigger] all[k]).code + all[k].comments
                        + all[k].blanks > 0 implies sorted@.contains(all[k]) by {
                    if k == n {
                        assert(sorted@[at as int] == all[k]);
                    } else {
                        assert(old_sorted.contains(all[k]));
                        let i = choose|i: int| 0 <= i < old_sorted.len() && old_sorted[i] == all[k];
                        if i < at {
                            assert(sorted@[i] == all[k]);
                        } else {
                            assert(sorted@[i + 1] == all[k]);
                        }
                    }
                }
            }
        }
    }
    proof {
        assert forall|i: int| 0 <= i < sorted@.len() implies all.contains(#[trigger] sorted@[i]) by {
            let k = choose|k: int| 0 <= k < all.len() && all[k] == sorted@[i];
            assert(all[k] == sorted@[i]);
        }
    }
    sorted
}

impl Summary {
    /// An empty summary.
    pub fn new() -> (r: Summary)
        ensures
            r.languages@.len() == 0,
            r.file_stats@.len() == 0,
            r.total_files == 0,
            r.total_code == 0,
            r.total_comments == 0,
            r.total_blanks == 0,
            r.elapsed is None,
    {
        Summary {
            languages: Vec::new(),
            total_files: 0,
            total_code: 0,
            total_comments: 0,
            total_blanks: 0,
            elapsed: None,
            file_stats: Vec::new(),
        }
    }

    /// The number of lines of all files: code, comments and blanks together.
    pub fn total_lines(&self) -> (r: u64)
        requires
            self.total_code + self.total_comments + self.total_blanks <= u64::MAX,
        ensures
            r == self.total_code + self.total_comments + self.total_blanks,
    {
        self.total_code + self.total_comments + self.total_blanks
    }

    /// Folds the counts of files into a summary.
    ///
    /// The files are grouped by the name of their language. A language all of
    /// whose files are empty is left out, with its files. The languages stand
    /// by falling count of code lines, and by name where that count is equal.
    /// The totals are those of the files that were not left out. The counts of
    /// the files are kept as they came.
    pub fn from_file_stats(stats: Vec<FileStats>) -> (r: Summary)
        requires
            totals_all(stats@).fits(),
        ensures
            r.file_stats == stats,
            r.elapsed is None,
            summarizes(r.languages@, stats@),
            r.total_files == counted(stats@).files,
            r.total_code == counted(stats@).code,
            r.total_comments == counted(stats@).comments,
            r.total_blanks == counted(stats@).blanks,
    {
        let (list, index) = group_by_language(&stats);
        let mut total_files: u64 = 0;
        let mut total_code: u64 = 0;
        let mut total_comments: u64 = 0;
        let mut total_blanks: u64 = 0;
        let mut j: usize = 0;
        while j < stats.len()
            invariant
                j <= stats.len(),
                totals_all(stats@).fits(),
                indexes(index_entries(index), list@),
                forall|k: int| 0 <= k < list@.len() ==> aggregates(#[trigger] list@[k], stats@),
                forall|k: int|
                    0 <= k < stats@.len() ==> index_entries(index).contains_key(
                        (#[trigger] stats@[k]).language@,
                    ),
                total_files == counted_upto(stats@, j as int).files,
                total_code == counted_upto(stats@, j as int).code,
                total_comments == counted_upto(stats@, j as int).comments,
                total_blanks == counted_upto(stats@, j as int).blanks,
            decreases stats.len() - j,
        {
            let file = &stats[j];
            proof {
                lemma_counted_within_all(stats@, j + 1);
                lemma_totals_all_prefix(stats@, j + 1);
                lemma_totals_all_files(stats@.take(j + 1));
            }
            let counts = match index_get(&index, file.language.as_str()) {
                Some(at) => list[at].has_lines(),
                None => false,
            };
            assert(counts == language_has_lines(stats@, j as int)) by {
                let at = index_entries(index)[file.language@];
                assert(aggregates(list@[at as int], stats@));
            }
            if counts {
                total_files += 1;
                total_code += file.code;
                total_comments += file.comments;
                total_blanks += file.blanks;
            }
            j += 1;
        }
        proof {
            assert forall|a: int, b: int| 0 <= a < b < list@.len() implies (
            #[trigger] list@[a]).name@ != (#[trigger] list@[b]).name@ by {
                assert(index_entries(index)[list@[a].name@] == a);
                assert(index_entries(index)[list@[b].name@] == b);
            }
        }
        let ghost grouped = list@;
        let languages = rank(list);
        proof {
            assert forall|i: int| 0 <= i < languages@.len() implies aggregates(
                #[trigger] languages@[i],
                stats@,
            ) by {
                assert(grouped.contains(languages@[i]));
                let k = choose|k: int| 0 <= k < grouped.len() && grouped[k] == languages@[i];
                assert(aggregates(grouped[k], stats@));
            }
            assert forall|k: int|
                0 <= k < stats@.len() && #[trigger] language_has_lines(stats@, k) implies exists|
                i: int,
            |
                0 <= i < languages@.len() && (#[trigger] languages@[i]).name@
                    == stats@[k].language@ by {
                let at = index_entries(index)[stats@[k].language@] as int;
                assert(aggregates(grouped[at], stats@));
                assert(languages@.contains(grouped[at]));
                let i = choose|i: int| 0 <= i < languages@.len() && languages@[i] == grouped[at];
                assert(languages@[i].name@ == stats@[k].language@);
            }
        }
        Summary {
            languages,
            total_files,
            total_code,
            total_comments,
            total_blanks,
            elapsed: None,
            file_stats: stats,
        }
    }

    /// The same summary with the time that the run took.
    pub fn with_elapsed(self, elapsed: Duration) -> (r: Summary)
        ensures
            r.elapsed == Some(elapsed),
            r.languages == self.languages,
            r.file_stats == self.file_stats,
            r.total_files == self.total_files,
            r.total_code == self.total_code,
            r.total_comments == self.total_comments,
            r.total_blanks == self.total_blanks,
    {
        let mut r = self;
        r.elapsed = Some(elapsed);
        r
    }
}

/// The number of files summed is the number of files.
pub proof fn lemma_totals_all_files(stats: Seq<FileStats>)
    ensures
        totals_all(stats).files == stats.len(),
    decreases stats.len(),
{
    if stats.len() > 0 {
        lemma_totals_all_files(stats.drop_last());
    }
}

/// The sums of a language take in each of its files.
pub proof fn lemma_totals_of_includes(stats: Seq<FileStats>, k: int)
    requires
        0 <= k < stats.len(),
    ensures
        totals_of(stats, stats[k].language@).code >= stats[k].code,
        totals_of(stats, stats[k].language@).comments >= stats[k].comments,
        totals_of(stats, stats[k].language@).blanks >= stats[k].blanks,
    decreases stats.len(),
{
    if k < stats.len() - 1 {
        assert(stats.drop_last()[k] == stats[k]);
        lemma_totals_of_includes(stats.drop_last(), k);
    }
}

/// Where every file holds a line, every file is counted.
pub proof fn lemma_counted_is_all(stats: Seq<FileStats>, n: int)
    requires
        0 <= n <= stats.len(),
        forall|k: int|
            0 <= k < stats.len() ==> (#[trigger] stats[k]).code + stats[k].comments
                + stats[k].blanks > 0,
    ensures
        counted_upto(stats, n) == totals_all(stats.take(n)),
    decreases n,
{
    if n > 0 {
        lemma_counted_is_all(stats, n - 1);
        lemma_totals_of_includes(stats, n - 1);
        assert(stats[n - 1].code + stats[n - 1].comments + stats[n - 1].blanks > 0);
        assert(stats.take(n).drop_last() =~= stats.take(n - 1));
        assert(stats.take(n).last() == stats[n - 1]);
    } else {
        assert(stats.take(0) =~= Seq::<FileStats>::empty());
    }
}

/// One entry of an exported report: the counts of a language, or of the sum.
#[derive(Debug, Default, Clone, Copy, PartialEq, Eq)]
pub struct JsonLanguageStats {
    pub n_files: u64,
    pub blank: u64,
    pub comment: u64,
    pub code: u64,
}

impl JsonLanguageStats {
    /// The entry that exports an aggregate.
    pub fn from_language(stats: &LanguageStats) -> (r: JsonLanguageStats)
        ensures
            r.n_files == stats.files,
            r.blank == stats.blanks,
            r.comment == stats.comments,
            r.code == stats.code,
    {
        JsonLanguageStats {
            n_files: stats.files,
            blank: stats.blanks,
            comment: stats.comments,
            code: stats.code,
        }
    }

    /// The entry that exports the totals of a summary.
    pub fn from_totals(summary: &Summary) -> (r: JsonLanguageStats)
        ensures
            r.n_files == summary.total_files,
            r.blank == summary.total_blanks,
            r.comment == summary.total_comments,
            r.code == summary.total_code,
    {
        JsonLanguageStats {
            n_files: summary.total_files,
            blank: summary.total_blanks,
            comment: summary.total_comments,
            code: summary.total_code,
        }
    }

    /// Whether adding `other` stays within 64 bits.
    pub fn can_add(&self, other: &JsonLanguageStats) -> (r: bool)
        ensures
            r == (self.n_files + other.n_files <= u64::MAX && self.blank + other.blank <= u64::MAX
                && self.comment + other.comment <= u64::MAX && self.code + other.code
                <= u64::MAX),
    {
        other.n_files <= u64::MAX - self.n_files && other.blank <= u64::MAX - self.blank
            && other.comment <= u64::MAX - self.comment && other.code <= u64::MAX - self.code
    }

    /// Adds the counts of `other`, field by field, as the sum of two reports
    /// does.
    pub fn add(&mut self, other: &JsonLanguageStats)
        requires
            old(self).n_files + other.n_files <= u64::MAX,
            old(self).blank + other.blank <= u64::MAX,
            old(self).comment + other.comment <= u64::MAX,
            old(self).code + other.code <= u64::MAX,
        ensures
            final(self).n_files == old(self).n_files + other.n_files,
            final(self).blank == old(self).blank + other.blank,
            final(self).comment == old(self).comment + other.comment,
            final(self).code == old(self).code + other.code,
    {
        self.n_files += other.n_files;
        self.blank += other.blank;
        self.comment += other.comment;
        self.code += other.code;
    }
}

/// An exported report: the counts of each language by name, and their sum.
#[derive(Debug, Default)]
pub struct JsonOutput {
    pub languages: Vec<(String, JsonLanguageStats)>,
    pub sum: JsonLanguageStats,
}

/// Sums of the four counts of report entries.
pub ghost struct EntrySum {
    pub n_files: nat,
    pub blank: nat,
    pub comment: nat,
    pub code: nat,
}

impl EntrySum {
    /// Nothing.
    pub open spec fn zero() -> EntrySum {
        EntrySum { n_files: 0, blank: 0, comment: 0, code: 0 }
    }

    /// The sum with one more entry.
    pub open spec fn plus(self, entry: JsonLanguageStats) -> EntrySum {
        EntrySum {
            n_files: self.n_files + entry.n_files as nat,
            blank: self.blank + entry.blank as nat,
            comment: self.comment + entry.comment as nat,
            code: self.code + entry.code as nat,
        }
    }

    /// Whether the four sums fit in 64 bits.
    pub open spec fn fits(self) -> bool {
        self.n_files <= u64::MAX && self.blank <= u64::MAX && self.comment <= u64::MAX
            && self.code <= u64::MAX
    }

    /// Whether no sum here exceeds the one in `other`.
    pub open spec fn within(self, other: EntrySum) -> bool {
        self.n_files <= other.n_files && self.blank <= other.blank && self.comment
            <= other.comment && self.code <= other.code
    }

    /// Whether `entry` holds these sums.
    pub open spec fn is(self, entry: JsonLanguageStats) -> bool {
        self.n_files == entry.n_files && self.blank == entry.blank && self.comment
            == entry.comment && self.code == entry.code
    }
}

/// The entries of all reports, one report after the other.
pub open spec fn all_entries(reports: Seq<JsonOutput>) -> Seq<(String, JsonLanguageStats)>
    decreases reports.len(),
{
    if reports.len() == 0 {
        Seq::empty()
    } else {
        all_entries(reports.drop_last()) + reports.last().languages@
    }
}

/// The sum of the entries called `name`.
pub open spec fn named_sum(entries: Seq<(String, JsonLanguageStats)>, name: Seq<char>) -> EntrySum
    decreases entries.len(),
{
    if entries.len() == 0 {
        EntrySum::zero()
    } else if entries.last().0@ == name {
        named_sum(entries.drop_last(), name).plus(entries.last().1)
    } else {
        named_sum(entries.drop_last(), name)
    }
}

/// The sum of all entries.
pub open spec fn entries_sum(entries: Seq<(String, JsonLanguageStats)>) -> EntrySum
    decreases entries.len(),
{
    if entries.len() == 0 {
        EntrySum::zero()
    } else {
        entries_sum(entries.drop_last()).plus(entries.last().1)
    }
}

/// The sum of the sums of the reports.
pub open spec fn sums_sum(reports: Seq<JsonOutput>) -> EntrySum
    decreases reports.len(),
{
    if reports.len() == 0 {
        EntrySum::zero()
    } else {
        sums_sum(reports.drop_last()).plus(reports.last().sum)
    }
}

/// The names of the entries, each once, in the order in which they first
/// occur.
pub open spec fn first_names(entries: Seq<(String, JsonLanguageStats)>) -> Seq<Seq<char>>
    decreases entries.len(),
{
    if entries.len() == 0 {
        Seq::empty()
    } else {
        let before = first_names(entries.drop_last());
        if before.contains(entries.last().0@) {
            before
        } else {
            before.push(entries.last().0@)
        }
    }
}

/// Whether `list` holds, for each name of `entries` in the order of first
/// occurrence, the sum of the entries of that name.
pub open spec fn sums_by_name(
    list: Seq<(String, JsonLanguageStats)>,
    entries: Seq<(String, JsonLanguageStats)>,
) -> bool {
    &&& list.len() == first_names(entries).len()
    &&& forall|i: int|
        0 <= i < list.len() ==> (#[trigger] list[i]).0@ == first_names(entries)[i] && named_sum(
            entries,
            list[i].0@,
        ).is(list[i].1)
}

/// A name that is not among the first names names no entry.
pub proof fn lemma_absent_name(entries: Seq<(String, JsonLanguageStats)>, name: Seq<char>)
    requires
        !first_names(entries).contains(name),
    ensures
        named_sum(entries, name) == EntrySum::zero(),
    decreases entries.len(),
{
    if entries.len() > 0 {
        let before = first_names(entries.drop_last());
        if before.contains(entries.last().0@) {
            lemma_absent_name(entries.drop_last(), name);
        } else {
            let now = before.push(entries.last().0@);
            assert(now[now.len() - 1] == entries.last().0@);
            assert(entries.last().0@ != name);
            assert(!before.contains(name)) by {
                if before.contains(name) {
                    let i = choose|i: int| 0 <= i < before.len() && before[i] == name;
                    assert(now[i] == name);
                }
            }
            lemma_absent_name(entries.drop_last(), name);
        }
    }
}

/// The entries of a name are among all entries.
pub proof fn lemma_named_within(entries: Seq<(String, JsonLanguageStats)>, name: Seq<char>)
    ensures
        named_sum(entries, name).within(entries_sum(entries)),
    decreases entries.len(),
{
    if entries.len() > 0 {
        lemma_named_within(entries.drop_last(), name);
    }
}

/// The first entries are among all entries.
pub proof fn lemma_entries_prefix(entries: Seq<(String, JsonLanguageStats)>, n: int)
    requires
        0 <= n <= entries.len(),
    ensures
        entries_sum(entries.take(n)).within(entries_sum(entries)),
    decreases entries.len() - n,
{
    if n < entries.len() {
        lemma_entries_prefix(entries, n + 1);
        assert(entries.take(n + 1).drop_last() =~= entries.take(n));
    } else {
        assert(entries.take(n) =~= entries);
    }
}

/// The sums of the first reports are among the sums of all.
pub proof fn lemma_sums_prefix(reports: Seq<JsonOutput>, n: int)
    requires
        0 <= n <= reports.len(),
    ensures
        sums_sum(reports.take(n)).within(sums_sum(reports)),
    decreases reports.len() - n,
{
    if n < reports.len() {
        lemma_sums_prefix(reports, n + 1);
        assert(reports.take(n + 1).drop_last() =~= reports.take(n));
    } else {
        assert(reports.take(n) =~= reports);
    }
}

/// The entries of the first reports and of some of the next are the first
/// entries of all.
pub proof fn lemma_entries_of_prefix(reports: Seq<JsonOutput>, i: int, j: int)
    requires
        0 <= i < reports.len(),
        0 <= j <= reports[i].languages@.len(),
    ensures
        all_entries(reports.take(i)) + reports[i].languages@.take(j) == all_entries(reports).take(
            all_entries(reports.take(i)).len() + j,
        ),
        all_entries(reports.take(i)).len() + j <= all_entries(reports).len(),
    decreases reports.len() - i,
{
    let head = all_entries(reports.take(i));
    let here = reports[i].languages@;
    assert(reports.take(i + 1).drop_last() =~= reports.take(i));
    assert(reports.take(i + 1).last() == reports[i]);
    assert(all_entries(reports.take(i + 1)) == head + here);
    if i + 1 < reports.len() {
        lemma_entries_of_prefix(reports, i + 1, 0);
        let next = all_entries(reports.take(i + 1));
        assert(next + reports[i + 1].languages@.take(0) =~= next);
        assert(next == all_entries(reports).take(next.len() as int));
        assert(head + here.take(j) =~= all_entries(reports).take(head.len() + j));
    } else {
        assert(reports.take(i + 1) =~= reports);
        assert(head + here.take(j) =~= (head + here).take(head.len() + j));
    }
}

fn position_of(list: &Vec<(String, JsonLanguageStats)>, name: &[char]) -> (r: Option<usize>)
    ensures
        r matches Some(at) ==> at < list@.len() && list@[at as int].0@ == name@,
        r is None ==> forall|k: int| 0 <= k < list@.len() ==> (#[trigger] list@[k]).0@ != name@,
{
    let mut at: usize = 0;
    while at < list.len()
        invariant
            at <= list.len(),
            forall|k: int| 0 <= k < at ==> (#[trigger] list@[k]).0@ != name@,
        decreases list.len() - at,
    {
        let other = to_chars(list[at].0.as_str());
        if crate::text::chars_eq(other.as_slice(), name) {
            return Some(at);
        }
        at += 1;
    }
    None
}

impl JsonOutput {
    /// Whether the counts of the reports can be summed within 64 bits, which
    /// [`JsonOutput::sum_reports`] asks for.
    pub fn can_sum(reports: &Vec<JsonOutput>) -> (r: bool)
        ensures
            r == (entries_sum(all_entries(reports@)).fits() && sums_sum(reports@).fits()),
    {
        let mut entries = JsonLanguageStats { n_files: 0, blank: 0, comment: 0, code: 0 };
        let mut sums = JsonLanguageStats { n_files: 0, blank: 0, comment: 0, code: 0 };
        let mut i: usize = 0;
        assert(reports@.take(0) =~= Seq::empty());
        while i < reports.len()
            invariant
                i <= reports.len(),
                entries_sum(all_entries(reports@.take(i as int))).is(entries),
                sums_sum(reports@.take(i as int)).is(sums),
            decreases reports.len() - i,
        {
            let report = &reports[i];
            let ghost head = all_entries(reports@.take(i as int));
            proof {
                assert(reports@.take(i + 1).drop_last() =~= reports@.take(i as int));
                assert(reports@.take(i + 1).last() == reports@[i as int]);
                lemma_sums_prefix(reports@, i + 1);
            }
            if !sums.can_add(&report.sum) {
                return false;
            }
            sums.add(&report.sum);
            let mut j: usize = 0;
            assert(head + report.languages@.take(0) =~= head);
            while j < report.languages.len()
                invariant
                    j <= report.languages.len(),
                    i < reports.len(),
                    report == &reports@[i as int],
                    head == all_entries(reports@.take(i as int)),
                    entries_sum(head + report.languages@.take(j as int)).is(entries),
                decreases report.languages.len() - j,
            {
                let entry = &report.languages[j].1;
                proof {
                    let upto = head + report.languages@.take(j + 1);
                    assert(upto.drop_last() =~= head + report.languages@.take(j as int));
                    assert(upto.last() == report.languages@[j as int]);
                    lemma_entries_of_prefix(reports@, i as int, j + 1);
                    lemma_entries_prefix(all_entries(reports@), head.len() + j + 1);
                }
                if !entries.can_add(entry) {
                    return false;
                }
                entries.add(entry);
                j += 1;
            }
            assert(report.languages@.take(report.languages.len() as int) =~= report.languages@);
            i += 1;
        }
        assert(reports@.take(reports.len() as int) =~= reports@);
        true
    }

    /// Sums reports: the counts of each language over all reports, by name,
    /// in the order in which the names first occur, and the sum of the sums.
    pub fn sum_reports(reports: &Vec<JsonOutput>) -> (r: JsonOutput)
        requires
            entries_sum(all_entries(reports@)).fits(),
            sums_sum(reports@).fits(),
        ensures
            sums_by_name(r.languages@, all_entries(reports@)),
            sums_sum(reports@).is(r.sum),
    {
        let mut list: Vec<(String, JsonLanguageStats)> = Vec::new();
        let mut sums = JsonLanguageStats { n_files: 0, blank: 0, comment: 0, code: 0 };
        let mut i: usize = 0;
        assert(reports@.take(0) =~= Seq::empty());
        while i < reports.len()
            invariant
                i <= reports.len(),
                entries_sum(all_entries(reports@)).fits(),
                sums_sum(reports@).fits(),
                sums_by_name(list@, all_entries(reports@.take(i as int))),
                sums_sum(reports@.take(i as int)).is(sums),
            decreases reports.len() - i,
        {
            let report = &reports[i];
            let ghost head = all_entries(reports@.take(i as int));
            proof {
                assert(reports@.take(i + 1).drop_last() =~= reports@.take(i as int));
                assert(reports@.take(i + 1).last() == reports@[i as int]);
                lemma_sums_prefix(reports@, i + 1);
            }
            sums.add(&report.sum);
            let mut j: usize = 0;
            assert(head + report.languages@.take(0) =~= head);
            while j < report.languages.len()
                invariant
                    j <= report.languages.len(),
                    i < reports.len(),
                    report == &reports@[i as int],
                    head == all_entries(reports@.take(i as int)),
                    entries_sum(all_entries(reports@)).fits(),
                    sums_by_name(list@, head + report.languages@.take(j as int)),
                decreases report.languages.len() - j,
            {
                let name = &report.languages[j].0;
                let entry = &report.languages[j].1;
                let ghost done = head + report.languages@.take(j as int);
                let ghost upto = head + report.languages@.take(j + 1);
                let ghost old_list = list@;
                proof {
                    assert(upto.drop_last() =~= done);
                    assert(upto.last() == report.languages@[j as int]);
                    lemma_entries_of_prefix(reports@, i as int, j + 1);
                    lemma_entries_prefix(all_entries(reports@), head.len() + j + 1);
                    lemma_named_within(upto, name@);
                }
                let name_chars = to_chars(name.as_str());
                let position = position_of(&list, name_chars.as_slice());
                if let Some(at) = position {
                    let mut sum = list[at].1;
                    proof {
                        assert(first_names(done)[at as int] == name@);
                        assert(first_names(done).contains(name@));
                        assert(named_sum(done, name@).is(old_list[at as int].1));
                    }
                    sum.add(entry);
                    list.set(at, (name.clone(), sum));
                    proof {
                        assert forall|k: int| 0 <= k < list@.len() implies (#[trigger] list@[k]).0@
                            == first_names(upto)[k] && named_sum(upto, list@[k].0@).is(
                            list@[k].1,
                        ) by {
                            if k != at {
                                assert(list@[k] == old_list[k]);
                                assert(old_list[k].0@ == first_names(done)[k]);
                                assert(old_list[k].0@ != name@) by {
                                    lemma_first_names_distinct(done, k, at as int);
                                }
                            }
                        }
                    }
                } else {
                    proof {
                        assert(!first_names(done).contains(name@)) by {
                            if first_names(done).contains(name@) {
                                let k = choose|k: int|
                                    0 <= k < first_names(done).len() && first_names(done)[k]
                                        == name@;
                                assert(old_list[k].0@ == name@);
                            }
                        }
                        lemma_absent_name(done, name@);
                    }
                    list.push((name.clone(), *entry));
                    proof {
                        assert forall|k: int| 0 <= k < list@.len() implies (#[trigger] list@[k]).0@
                            == first_names(upto)[k] && named_sum(upto, list@[k].0@).is(
                            list@[k].1,
                        ) by {
                            if k < old_list.len() {
                                assert(list@[k] == old_list[k]);
                                assert(old_list[k].0@ == first_names(done)[k]);
                                assert(first_names(done).contains(old_list[k].0@));
                            }
                        }
                    }
                }
                j += 1;
            }
            assert(report.languages@.take(report.languages.len() as int) =~= report.languages@);
            i += 1;
        }
        assert(reports@.take(reports.len() as int) =~= reports@);
        JsonOutput { languages: list, sum: sums }
    }
}

/// The first names are all different.
pub proof fn lemma_first_names_distinct(entries: Seq<(String, JsonLanguageStats)>, a: int, b: int)
    requires
        0 <= a < first_names(entries).len(),
        0 <= b < first_names(entries).len(),
        a != b,
    ensures
        first_names(entries)[a] != first_names(entries)[b],
    decreases entries.len(),
{
    if entries.len() > 0 {
        let before = first_names(entries.drop_last());
        if before.contains(entries.last().0@) {
            lemma_first_names_distinct(entries.drop_last(), a, b);
        } else {
            if a < before.len() && b < before.len() {
                lemma_first_names_distinct(entries.drop_last(), a, b);
            } else if a < before.len() {
                assert(before.contains(before[a]));
            } else if b < before.len() {
                assert(before.contains(before[b]));
            }
        }
    }
}

} // verus!
