//! The aggregation pipeline: from files that were read to the counts of a
//! run, with files of equal content counted once.

use crate::counter::{count_lines, file_tally, FileStats, Tally};
use crate::error::Error;
use crate::index::{seen_hashes, seen_insert, seen_new};
use crate::languages::Language;
use crate::stats::{totals_all, totals_of, LanguageStats, Summary, Totals};
use crate::text::{clone_strings, lex_less, strings_view};
use crate::walker::{default_exclude_dirs, FileEntry, WalkerConfig};
use core::hash::{Hash, Hasher};
use vstd::prelude::*;

verus! {

/// A file of a run as it was read: its path, its language, and its bytes
/// where they could be read.
#[derive(Debug)]
pub struct LoadedFile {
    pub path: String,
    pub language: Language,
    pub content: Option<Vec<u8>>,
}

/// The hash of a file's content, by which equal files are told. Trusted, and
/// nothing is claimed of the value: the hasher's keys are drawn once for each
/// process, so the same bytes hash alike within a run and not beyond it.
#[verifier::external_body]
pub fn compute_file_hash(content: &[u8]) -> u64 {
    let mut hasher = ahash::AHasher::default();
    content.hash(&mut hasher);
    hasher.finish()
}

/// Whether an earlier file that could be read has the hash of file `i`.
pub open spec fn seen_earlier(files: Seq<LoadedFile>, hashes: Seq<u64>, i: int) -> bool {
    exists|j: int| 0 <= j < i && #[trigger] files[j].content is Some && hashes[j] == hashes[i]
}

/// Whether file `i` is scanned: it could be read and, where duplicates are
/// left out, no earlier file that could be read has its hash.
pub open spec fn is_scanned(files: Seq<LoadedFile>, hashes: Seq<u64>, unique: bool, i: int) -> bool {
    files[i].content is Some && !(unique && seen_earlier(files, hashes, i))
}

/// Whether file `i` is counted: it is scanned and holds at least one line.
pub open spec fn is_counted(files: Seq<LoadedFile>, hashes: Seq<u64>, unique: bool, i: int) -> bool {
    is_scanned(files, hashes, unique, i) && file_tally(
        files[i].content->0@,
        files[i].language@,
    ).total() > 0
}

/// The indices of the counted files among the first `n`, in order.
pub open spec fn counted_indices(files: Seq<LoadedFile>, hashes: Seq<u64>, unique: bool, n: int) -> Seq<
    int,
>
    decreases n,
{
    if n <= 0 || n > files.len() {
        Seq::empty()
    } else if is_counted(files, hashes, unique, n - 1) {
        counted_indices(files, hashes, unique, n - 1).push(n - 1)
    } else {
        counted_indices(files, hashes, unique, n - 1)
    }
}

/// Whether `stats` holds the counts of `file`.
pub open spec fn counts_of(stats: FileStats, file: LoadedFile) -> bool {
    &&& file.content is Some
    &&& stats.path@ == file.path@
    &&& stats.language@ == file.language@.name
    &&& stats.code == file_tally(file.content->0@, file.language@).code
    &&& stats.comments == file_tally(file.content->0@, file.language@).comments
    &&& stats.blanks == file_tally(file.content->0@, file.language@).blanks
}

/// Whether `stats` holds the counts of the counted files, in order.
pub open spec fn counts_all(
    stats: Seq<FileStats>,
    files: Seq<LoadedFile>,
    hashes: Seq<u64>,
    unique: bool,
    n: int,
) -> bool {
    let counted = counted_indices(files, hashes, unique, n);
    &&& stats.len() == counted.len()
    &&& forall|k: int| 0 <= k < stats.len() ==> counts_of(#[trigger] stats[k], files[counted[k]])
}

/// The counted files among the first `n` are files among the first `n`, in
/// rising order.
pub proof fn lemma_counted_in_range(
    files: Seq<LoadedFile>,
    hashes: Seq<u64>,
    unique: bool,
    n: int,
    k: int,
)
    requires
        0 <= k < counted_indices(files, hashes, unique, n).len(),
    ensures
        0 <= counted_indices(files, hashes, unique, n)[k] < n,
        n <= files.len(),
        is_counted(files, hashes, unique, counted_indices(files, hashes, unique, n)[k]),
    decreases n,
{
    if !(n <= 0 || n > files.len()) {
        let before = counted_indices(files, hashes, unique, n - 1);
        if k < before.len() {
            lemma_counted_in_range(files, hashes, unique, n - 1, k);
        }
    }
}

/// The number of bytes of a file that was read.
pub open spec fn content_len(file: LoadedFile) -> nat {
    match file.content {
        Some(bytes) => bytes@.len(),
        None => 0,
    }
}

/// The number of bytes of all files that were read.
pub open spec fn total_bytes(files: Seq<LoadedFile>) -> nat
    decreases files.len(),
{
    if files.len() == 0 {
        0
    } else {
        total_bytes(files.drop_last()) + content_len(files.last())
    }
}

/// The first files hold no more bytes than all of them.
pub proof fn lemma_total_bytes_prefix(files: Seq<LoadedFile>, n: int)
    requires
        0 <= n <= files.len(),
    ensures
        total_bytes(files.take(n)) <= total_bytes(files),
    decreases files.len() - n,
{
    if n < files.len() {
        lemma_total_bytes_prefix(files, n + 1);
        assert(files.take(n + 1).drop_last() =~= files.take(n));
    } else {
        assert(files.take(n) =~= files);
    }
}

/// Of two files with the same hash that could be read, the later one is not
/// counted where duplicates are left out: files of equal content are counted
/// once.
pub proof fn lemma_duplicate_not_counted(
    files: Seq<LoadedFile>,
    hashes: Seq<u64>,
    i: int,
    j: int,
)
    requires
        0 <= i < j < files.len(),
        files[i].content is Some,
        hashes[i] == hashes[j],
    ensures
        !is_counted(files, hashes, true, j),
{
    assert(seen_earlier(files, hashes, j));
}

/// The first file of its hash that could be read is counted if it holds a
/// line.
pub proof fn lemma_first_is_counted(files: Seq<LoadedFile>, hashes: Seq<u64>, i: int)
    requires
        0 <= i < files.len(),
        files[i].content is Some,
        forall|j: int| 0 <= j < i && #[trigger] files[j].content is Some ==> hashes[j] != hashes[i],
        file_tally(files[i].content->0@, files[i].language@).total() > 0,
    ensures
        is_counted(files, hashes, true, i),
{
}

/// Among files that could all be read and share one hash, exactly the first is
/// scanned; it is counted if it holds a line, and no other is.
pub proof fn lemma_identical_files_counted_once(files: Seq<LoadedFile>, hashes: Seq<u64>, n: int)
    requires
        0 < n <= files.len(),
        hashes.len() == files.len(),
        forall|i: int| 0 <= i < files.len() ==> (#[trigger] files[i]).content is Some,
        forall|i: int| 0 <= i < files.len() ==> #[trigger] hashes[i] == hashes[0],
    ensures
        counted_indices(files, hashes, true, n) == (if is_counted(files, hashes, true, 0) {
            seq![0int]
        } else {
            Seq::<int>::empty()
        }),
    decreases n,
{
    if n == 1 {
        assert(counted_indices(files, hashes, true, 0) =~= Seq::<int>::empty());
        assert(Seq::<int>::empty().push(0) =~= seq![0int]);
    } else {
        lemma_identical_files_counted_once(files, hashes, n - 1);
        assert(files[0].content is Some);
        assert(hashes[n - 1] == hashes[0]);
        lemma_duplicate_not_counted(files, hashes, 0, n - 1);
    }
}

/// The hashes of the files among the first `n` that could be read.
pub open spec fn hashes_seen(files: Seq<LoadedFile>, hashes: Seq<u64>, n: int) -> Set<u64> {
    Set::new(|h: u64| exists|j: int| 0 <= j < n && #[trigger] files[j].content is Some && hashes[j] == h)
}

/// Counts the files that were read, given the hash of each.
///
/// A file is scanned if it could be read and, where `unique` is set, no
/// earlier file that could be read has its hash. A scanned file is counted if
/// it holds at least one line. The counts come in the order of the files.
pub fn count_unique(files: &Vec<LoadedFile>, hashes: &Vec<u64>, unique: bool) -> (r: Vec<FileStats>)
    requires
        hashes@.len() == files@.len(),
    ensures
        counts_all(r@, files@, hashes@, unique, files@.len() as int),
        totals_all(r@).code + totals_all(r@).comments + totals_all(r@).blanks <= total_bytes(
            files@,
        ),
{
    let mut stats: Vec<FileStats> = Vec::new();
    let mut seen = seen_new();
    let mut i: usize = 0;
    assert(files@.take(0) =~= Seq::empty());
    assert(hashes_seen(files@, hashes@, 0) =~= Set::<u64>::empty());
    while i < files.len()
        invariant
            i <= files.len(),
            hashes@.len() == files@.len(),
            unique ==> seen_hashes(seen) == hashes_seen(files@, hashes@, i as int),
            counts_all(stats@, files@, hashes@, unique, i as int),
            totals_all(stats@).code + totals_all(stats@).comments + totals_all(stats@).blanks
                <= total_bytes(files@.take(i as int)),
        decreases files.len() - i,
    {
        let file = &files[i];
        let ghost old_stats = stats@;
        let ghost before = counted_indices(files@, hashes@, unique, i as int);
        let ghost mut pushed = false;
        proof {
            assert(files@.take(i + 1).drop_last() =~= files@.take(i as int));
            assert(files@.take(i + 1).last() == files@[i as int]);
        }
        if let Some(content) = &file.content {
            let fresh = if unique {
                let ghost old_seen = seen_hashes(seen);
                let fresh = seen_insert(&mut seen, hashes[i]);
                proof {
                    assert(hashes_seen(files@, hashes@, i + 1) =~= old_seen.insert(hashes@[i as int]));
                    if !fresh {
                        let j = choose|j: int|
                            0 <= j < i && #[trigger] files@[j].content is Some && hashes@[j]
                                == hashes@[i as int];
                        assert(seen_earlier(files@, hashes@, i as int));
                    }
                }
                fresh
            } else {
                true
            };
            assert(fresh == is_scanned(files@, hashes@, unique, i as int));
            if fresh {
                let counts = count_lines(file.path.as_str(), content.as_slice(), &file.language);
                if counts.code > 0 || counts.comments > 0 || counts.blanks > 0 {
                    stats.push(counts);
                    proof {
                        pushed = true;
                        assert(stats@.drop_last() =~= old_stats);
                        let after = counted_indices(files@, hashes@, unique, i + 1);
                        assert(after == before.push(i as int));
                        assert forall|k: int| 0 <= k < stats@.len() implies counts_of(
                            #[trigger] stats@[k],
                            files@[after[k]],
                        ) by {
                            if k < old_stats.len() {
                                assert(stats@[k] == old_stats[k]);
                            }
                        }
                    }
                }
            }
        } else {
            proof {
                if unique {
                    assert(hashes_seen(files@, hashes@, i + 1) =~= hashes_seen(
                        files@,
                        hashes@,
                        i as int,
                    ));
                }
            }
        }
        proof {
            if !pushed {
                assert(!is_counted(files@, hashes@, unique, i as int));
                assert(counted_indices(files@, hashes@, unique, i + 1) == before);
            }
        }
        i += 1;
    }
    assert(files@.take(files.len() as int) =~= files@);
    stats
}

/// Counts the files that were read, leaving out duplicates where `unique` is
/// set. Whatever hashes the contents are given, the result is what
/// [`count_unique`] makes of the files with those hashes.
pub fn count_files(files: &Vec<LoadedFile>, unique: bool) -> (r: Vec<FileStats>)
    ensures
        exists|hashes: Seq<u64>|
            hashes.len() == files@.len() && #[trigger] counts_all(
                r@,
                files@,
                hashes,
                unique,
                files@.len() as int,
            ),
        totals_all(r@).code + totals_all(r@).comments + totals_all(r@).blanks <= total_bytes(
            files@,
        ),
{
    let hashes = hash_all(files);
    count_unique(files, &hashes, unique)
}

/// The counts of one language in an analysis.
#[derive(Debug, Default)]
pub struct LanguageBreakdown {
    pub name: String,
    pub files: u64,
    pub code: u64,
    pub comments: u64,
    pub blanks: u64,
}

impl Clone for LanguageBreakdown {
    fn clone(&self) -> (r: Self)
        ensures
            r == *self,
    {
        LanguageBreakdown {
            name: self.name.clone(),
            files: self.files,
            code: self.code,
            comments: self.comments,
            blanks: self.blanks,
        }
    }
}

impl LanguageBreakdown {
    /// The number of lines: `code + comments + blanks`.
    pub fn total_lines(&self) -> (r: u64)
        requires
            self.code + self.comments + self.blanks <= u64::MAX,
        ensures
            r == self.code + self.comments + self.blanks,
    {
        self.code + self.comments + self.blanks
    }
}

/// The result of an analysis: the languages, the one with most code first,
/// and the totals.
#[derive(Debug, Default)]
pub struct Analysis {
    pub languages: Vec<LanguageBreakdown>,
    pub total_files: u64,
    pub total_code: u64,
    pub total_comments: u64,
    pub total_blanks: u64,
}

impl Analysis {
    /// The language that stands first, if there is any.
    pub fn top_language(&self) -> (r: Option<&LanguageBreakdown>)
        ensures
            self.languages@.len() == 0 ==> r is None,
            self.languages@.len() > 0 ==> r == Some(&self.languages@[0]),
    {
        if self.languages.len() == 0 {
            None
        } else {
            Some(&self.languages[0])
        }
    }

    /// The number of lines of all files.
    pub fn total_lines(&self) -> (r: u64)
        requires
            self.total_code + self.total_comments + self.total_blanks <= u64::MAX,
        ensures
            r == self.total_code + self.total_comments + self.total_blanks,
    {
        self.total_code + self.total_comments + self.total_blanks
    }
}

/// The options of an analysis.
#[derive(Debug, Default)]
pub struct AnalyzeConfig {
    pub paths: Vec<String>,
    pub exclude_dirs: Vec<String>,
    pub exclude_exts: Vec<String>,
    pub exclude_langs: Vec<String>,
    pub include_exts: Vec<String>,
    pub include_langs: Vec<String>,
    pub follow_symlinks: bool,
    pub hidden: bool,
    pub max_depth: Option<usize>,
    pub skip_gitignore: bool,
    /// The largest size of a file that is looked at, in bytes.
    pub max_file_size: Option<u64>,
    pub threads: Option<usize>,
}

impl AnalyzeConfig {
    /// The options for one root, with the default excluded directories.
    pub fn new(path: &str) -> (r: AnalyzeConfig)
        ensures
            strings_view(r.paths@) == seq![path@],
            strings_view(r.exclude_dirs@) == default_exclude_dirs(),
            r.exclude_exts@.len() == 0,
            r.exclude_langs@.len() == 0,
            r.include_exts@.len() == 0,
            r.include_langs@.len() == 0,
            !r.follow_symlinks && !r.hidden && !r.skip_gitignore,
            r.max_depth is None,
            r.max_file_size is None,
            r.threads is None,
    {
        let defaults = WalkerConfig::default();
        let mut paths: Vec<String> = Vec::new();
        paths.push(String::from_str(path));
        assert(strings_view(paths@) =~= seq![path@]);
        AnalyzeConfig {
            paths,
            exclude_dirs: defaults.exclude_dirs,
            exclude_exts: Vec::new(),
            exclude_langs: Vec::new(),
            include_exts: Vec::new(),
            include_langs: Vec::new(),
            follow_symlinks: false,
            hidden: false,
            max_depth: None,
            skip_gitignore: false,
            max_file_size: None,
            threads: None,
        }
    }

    /// The same options with other roots.
    pub fn paths(self, paths: Vec<String>) -> (r: AnalyzeConfig)
        ensures
            r == (AnalyzeConfig { paths, ..self }),
    {
        let mut r = self;
        r.paths = paths;
        r
    }

    /// The same options with other excluded directories.
    pub fn exclude_dirs(self, dirs: Vec<String>) -> (r: AnalyzeConfig)
        ensures
            r == (AnalyzeConfig { exclude_dirs: dirs, ..self }),
    {
        let mut r = self;
        r.exclude_dirs = dirs;
        r
    }

    /// The same options, counting only the given languages.
    pub fn include_langs(self, langs: Vec<String>) -> (r: AnalyzeConfig)
        ensures
            r == (AnalyzeConfig { include_langs: langs, ..self }),
    {
        let mut r = self;
        r.include_langs = langs;
        r
    }

    /// The same options, leaving out the given languages.
    pub fn exclude_langs(self, langs: Vec<String>) -> (r: AnalyzeConfig)
        ensures
            r == (AnalyzeConfig { exclude_langs: langs, ..self }),
    {
        let mut r = self;
        r.exclude_langs = langs;
        r
    }

    /// The same options with a largest depth.
    pub fn max_depth(self, depth: usize) -> (r: AnalyzeConfig)
        ensures
            r == (AnalyzeConfig { max_depth: Some(depth), ..self }),
    {
        let mut r = self;
        r.max_depth = Some(depth);
        r
    }

    /// The same options with a number of threads.
    pub fn threads(self, threads: usize) -> (r: AnalyzeConfig)
        ensures
            r == (AnalyzeConfig { threads: Some(threads), ..self }),
    {
        let mut r = self;
        r.threads = Some(threads);
        r
    }
}

/// The walk that an analysis asks for: its own options, the current directory
/// where no root is named, and the defaults for everything else.
pub fn config_to_walker(config: &AnalyzeConfig) -> (r: WalkerConfig)
    ensures
        strings_view(r.paths@) == (if config.paths@.len() == 0 {
            seq!["."@]
        } else {
            strings_view(config.paths@)
        }),
        r.exclude_dirs@ == config.exclude_dirs@,
        r.exclude_exts@ == config.exclude_exts@,
        r.exclude_langs@ == config.exclude_langs@,
        r.include_exts@ == config.include_exts@,
        r.include_langs@ == config.include_langs@,
        r.follow_symlinks == config.follow_symlinks,
        r.hidden == config.hidden,
        r.max_depth == config.max_depth,
        r.skip_gitignore == config.skip_gitignore,
        r.max_file_size == config.max_file_size,
        r.list_file is None,
        r.force_lang@.len() == 0,
        r.match_dir is None && r.match_file is None,
        r.not_match_dir@.len() == 0 && r.not_match_file@.len() == 0,
        r.include_content is None && r.exclude_content is None,
        r.vcs is None,
        !r.fullpath && !r.skip_uniqueness && !r.include_submodules,
{
    let mut r = WalkerConfig::default();
    if config.paths.len() > 0 {
        r.paths = clone_strings(&config.paths);
    }
    r.exclude_dirs = clone_strings(&config.exclude_dirs);
    r.exclude_exts = clone_strings(&config.exclude_exts);
    r.exclude_langs = clone_strings(&config.exclude_langs);
    r.include_exts = clone_strings(&config.include_exts);
    r.include_langs = clone_strings(&config.include_langs);
    r.follow_symlinks = config.follow_symlinks;
    r.hidden = config.hidden;
    r.max_depth = config.max_depth;
    r.skip_gitignore = config.skip_gitignore;
    r.max_file_size = config.max_file_size;
    r
}

/// Whether `entry` says what `stats` says.
pub open spec fn same_counts(entry: LanguageBreakdown, stats: LanguageStats) -> bool {
    &&& entry.name@ == stats.name@
    &&& entry.files == stats.files
    &&& entry.code == stats.code
    &&& entry.comments == stats.comments
    &&& entry.blanks == stats.blanks
}

/// The analysis that a summary stands for: its languages in their order, and
/// its totals.
pub fn summary_to_analysis(summary: &Summary) -> (r: Analysis)
    ensures
        r.languages@.len() == summary.languages@.len(),
        forall|i: int|
            0 <= i < r.languages@.len() ==> same_counts(
                #[trigger] r.languages@[i],
                summary.languages@[i],
            ),
        r.total_files == summary.total_files,
        r.total_code == summary.total_code,
        r.total_comments == summary.total_comments,
        r.total_blanks == summary.total_blanks,
{
    let mut languages: Vec<LanguageBreakdown> = Vec::new();
    let mut i: usize = 0;
    while i < summary.languages.len()
        invariant
            i <= summary.languages.len(),
            languages@.len() == i,
            forall|k: int|
                0 <= k < i ==> same_counts(#[trigger] languages@[k], summary.languages@[k]),
        decreases summary.languages.len() - i,
    {
        let stats = &summary.languages[i];
        languages.push(
            LanguageBreakdown {
                name: stats.name.clone(),
                files: stats.files,
                code: stats.code,
                comments: stats.comments,
                blanks: stats.blanks,
            },
        );
        i += 1;
    }
    Analysis {
        languages,
        total_files: summary.total_files,
        total_code: summary.total_code,
        total_comments: summary.total_comments,
        total_blanks: summary.total_blanks,
    }
}

/// Whether the bytes of all files that were read can be counted in 64 bits,
/// which [`analyze_files`] asks for.
pub fn bytes_fit(files: &Vec<LoadedFile>) -> (r: bool)
    ensures
        r == (total_bytes(files@) <= u64::MAX),
{
    let mut sum: u64 = 0;
    let mut i: usize = 0;
    assert(files@.take(0) =~= Seq::empty());
    while i < files.len()
        invariant
            i <= files.len(),
            sum == total_bytes(files@.take(i as int)),
        decreases files.len() - i,
    {
        proof {
            assert(files@.take(i + 1).drop_last() =~= files@.take(i as int));
            assert(files@.take(i + 1).last() == files@[i as int]);
            lemma_total_bytes_prefix(files@, i + 1);
        }
        let len: usize = match &files[i].content {
            Some(bytes) => bytes.len(),
            None => 0,
        };
        if len as u64 > u64::MAX - sum {
            return false;
        }
        sum += len as u64;
        i += 1;
    }
    assert(files@.take(files.len() as int) =~= files@);
    true
}

/// Whether the totals of `analysis` are the sums `sums`.
pub open spec fn totals_are(analysis: Analysis, sums: Totals) -> bool {
    &&& analysis.total_files == sums.files
    &&& analysis.total_code == sums.code
    &&& analysis.total_comments == sums.comments
    &&& analysis.total_blanks == sums.blanks
}

/// Whether each language of `analysis` holds the sums over the counted files
/// of that language.
pub open spec fn languages_are(
    analysis: Analysis,
    files: Seq<LoadedFile>,
    hashes: Seq<u64>,
    unique: bool,
) -> bool {
    forall|i: int|
        0 <= i < analysis.languages@.len() ==> sums_are(
            #[trigger] analysis.languages@[i],
            counted_sums(
                files,
                hashes,
                unique,
                Some(analysis.languages@[i].name@),
                files.len() as int,
            ),
        )
}

/// Whether the counts of `entry` are the sums `sums`.
pub open spec fn sums_are(entry: LanguageBreakdown, sums: Totals) -> bool {
    &&& entry.files == sums.files
    &&& entry.code == sums.code
    &&& entry.comments == sums.comments
    &&& entry.blanks == sums.blanks
}

/// Whether `analysis` is the analysis of the files with the given hashes:
/// that of the counts of the counted files, with the sums over the counted
/// files for totals and, for each language, the sums over its counted files.
pub open spec fn analyzes(
    analysis: Analysis,
    files: Seq<LoadedFile>,
    hashes: Seq<u64>,
    unique: bool,
) -> bool {
    &&& exists|stats: Seq<FileStats>| #[trigger]
        counts_all(stats, files, hashes, unique, files.len() as int) && analysis_of(analysis, stats)
    &&& totals_are(analysis, counted_sums(files, hashes, unique, None, files.len() as int))
    &&& languages_are(analysis, files, hashes, unique)
}

/// Analyzes the files of a run, given the hash of each.
///
/// With no file at all there is nothing to analyze. Else the files are
/// counted as [`count_unique`] counts them, and the counts folded by
/// language.
pub fn analyze_hashed(files: &Vec<LoadedFile>, hashes: &Vec<u64>, unique: bool) -> (r: Result<
    Analysis,
    Error,
>)
    requires
        hashes@.len() == files@.len(),
        total_bytes(files@) <= u64::MAX,
    ensures
        r is Err <==> files@.len() == 0,
        r matches Err(e) ==> e is NoSourceFiles,
        r matches Ok(analysis) ==> analyzes(analysis, files@, hashes@, unique),
{
    if files.len() == 0 {
        return Err(Error::NoSourceFiles);
    }
    let stats = count_unique(files, hashes, unique);
    let ghost counted = stats@;
    let summary = Summary::from_file_stats(stats);
    let analysis = summary_to_analysis(&summary);
    proof {
        let n = files@.len() as int;
        assert forall|k: int| 0 <= k < counted.len() implies (#[trigger] counted[k]).code
            + counted[k].comments + counted[k].blanks > 0 by {
            lemma_counted_in_range(files@, hashes@, unique, n, k);
            assert(counts_of(counted[k], files@[counted_indices(files@, hashes@, unique, n)[k]]));
        }
        crate::stats::lemma_counted_is_all(counted, counted.len() as int);
        assert(counted.take(counted.len() as int) =~= counted);
        lemma_counts_sum(counted, files@, hashes@, unique, None, n);
        assert(counts_all(counted, files@, hashes@, unique, n) && analysis_of(analysis, counted));
        assert forall|i: int| 0 <= i < analysis.languages@.len() implies sums_are(
            #[trigger] analysis.languages@[i],
            counted_sums(files@, hashes@, unique, Some(analysis.languages@[i].name@), n),
        ) by {
            assert(same_counts(analysis.languages@[i], summary.languages@[i]));
            assert(crate::stats::aggregates(summary.languages@[i], counted));
            lemma_counts_sum(counted, files@, hashes@, unique, Some(analysis.languages@[i].name@), n);
        }
    }
    Ok(analysis)
}

fn hash_all(files: &Vec<LoadedFile>) -> (r: Vec<u64>)
    ensures
        r@.len() == files@.len(),
{
    let mut hashes: Vec<u64> = Vec::new();
    let mut i: usize = 0;
    while i < files.len()
        invariant
            i <= files.len(),
            hashes@.len() == i,
        decreases files.len() - i,
    {
        let hash = match &files[i].content {
            Some(content) => compute_file_hash(content.as_slice()),
            None => 0,
        };
        hashes.push(hash);
        i += 1;
    }
    hashes
}

/// Analyzes the files of a run.
///
/// Each file that could be read is given the hash of its content, and the
/// files are analyzed as [`analyze_hashed`] does with those hashes. Nothing
/// is known of the hashes themselves.
pub fn analyze_files(files: &Vec<LoadedFile>, unique: bool) -> (r: Result<Analysis, Error>)
    requires
        total_bytes(files@) <= u64::MAX,
    ensures
        r is Err <==> files@.len() == 0,
        r matches Err(e) ==> e is NoSourceFiles,
        r matches Ok(analysis) ==> exists|hashes: Seq<u64>|
            hashes.len() == files@.len() && #[trigger] analyzes(analysis, files@, hashes, unique),
{
    let hashes = hash_all(files);
    let r = analyze_hashed(files, &hashes, unique);
    proof {
        if r is Ok {
            assert(analyzes(r->Ok_0, files@, hashes@, unique));
        }
    }
    r
}

/// Whether `analysis` is the analysis of the counts `stats`: the ranked
/// aggregates of the languages that hold a line, and the totals of their
/// files.
pub open spec fn analysis_of(analysis: Analysis, stats: Seq<FileStats>) -> bool {
    &&& exists|languages: Seq<LanguageStats>|
        #[trigger] crate::stats::summarizes(languages, stats) && languages.len()
            == analysis.languages@.len() && forall|i: int|
            0 <= i < languages.len() ==> same_counts(
                #[trigger] analysis.languages@[i],
                languages[i],
            )
    &&& analysis.total_files == crate::stats::counted(stats).files
    &&& analysis.total_code == crate::stats::counted(stats).code
    &&& analysis.total_comments == crate::stats::counted(stats).comments
    &&& analysis.total_blanks == crate::stats::counted(stats).blanks
}

/// The number of entries whose language is called `name`.
pub open spec fn files_named(entries: Seq<FileEntry>, name: Seq<char>) -> nat
    decreases entries.len(),
{
    if entries.len() == 0 {
        0
    } else if entries.last().language@.name == name {
        files_named(entries.drop_last(), name) + 1
    } else {
        files_named(entries.drop_last(), name)
    }
}

/// Whether `a` comes before `b` in a count of files: more files first, and
/// among equals the lesser name first.
pub open spec fn more_files(a: LanguageBreakdown, b: LanguageBreakdown) -> bool {
    a.files > b.files || (a.files == b.files && lex_less(a.name@, b.name@))
}

/// Whether `list` is the ranked count of the files of `entries` by language:
/// each entry of the list counts the files of its language and no lines, the
/// entries stand in order, and every language has its entry.
pub open spec fn counts_files(list: Seq<LanguageBreakdown>, entries: Seq<FileEntry>) -> bool {
    &&& forall|i: int|
        0 <= i < list.len() ==> (#[trigger] list[i]).files == files_named(entries, list[i].name@)
            && list[i].files > 0 && list[i].code == 0 && list[i].comments == 0 && list[i].blanks
            == 0
    &&& forall|i: int, j: int|
        0 <= i < j < list.len() ==> more_files(#[trigger] list[i], #[trigger] list[j])
    &&& forall|k: int|
        0 <= k < entries.len() ==> exists|i: int|
            0 <= i < list.len() && (#[trigger] list[i]).name@ == (
            #[trigger] entries[k]).language@.name
}

/// Whether `units` holds one line of code for each entry, under the entry's
/// language.
pub open spec fn one_each(units: Seq<FileStats>, entries: Seq<FileEntry>) -> bool {
    &&& units.len() == entries.len()
    &&& forall|k: int|
        0 <= k < units.len() ==> (#[trigger] units[k]).language@ == entries[k].language@.name
            && units[k].code == 1 && units[k].comments == 0 && units[k].blanks == 0
}

proof fn lemma_units_total(units: Seq<FileStats>, entries: Seq<FileEntry>, name: Seq<char>)
    requires
        one_each(units, entries),
    ensures
        totals_of(units, name).files == files_named(entries, name),
        totals_of(units, name).code == files_named(entries, name),
        totals_of(units, name).comments == 0,
        totals_of(units, name).blanks == 0,
        totals_all(units).code == units.len(),
        totals_all(units).comments == 0,
        totals_all(units).blanks == 0,
    decreases units.len(),
{
    if units.len() > 0 {
        assert(units.last() == units[units.len() - 1]);
        assert(entries.last() == entries[entries.len() - 1]);
        assert(one_each(units.drop_last(), entries.drop_last())) by {
            assert forall|k: int| 0 <= k < units.drop_last().len() implies (
            #[trigger] units.drop_last()[k]).language@ == entries.drop_last()[k].language@.name
                && units.drop_last()[k].code == 1 && units.drop_last()[k].comments == 0
                && units.drop_last()[k].blanks == 0 by {
                assert(units.drop_last()[k] == units[k]);
                assert(entries.drop_last()[k] == entries[k]);
            }
        }
        lemma_units_total(units.drop_last(), entries.drop_last(), name);
    }
}

proof fn lemma_units_counted(units: Seq<FileStats>, entries: Seq<FileEntry>, n: int)
    requires
        one_each(units, entries),
        0 <= n <= units.len(),
    ensures
        crate::stats::counted_upto(units, n).files == n,
        crate::stats::counted_upto(units, n).code == n,
        crate::stats::counted_upto(units, n).comments == 0,
        crate::stats::counted_upto(units, n).blanks == 0,
    decreases n,
{
    if n > 0 {
        lemma_units_counted(units, entries, n - 1);
        let name = units[n - 1].language@;
        lemma_units_total(units, entries, name);
        lemma_named_at_least_one(entries, n - 1);
    }
}

proof fn lemma_named_at_least_one(entries: Seq<FileEntry>, k: int)
    requires
        0 <= k < entries.len(),
    ensures
        files_named(entries, entries[k].language@.name) >= 1,
    decreases entries.len(),
{
    if k < entries.len() - 1 {
        assert(entries.drop_last()[k] == entries[k]);
        lemma_named_at_least_one(entries.drop_last(), k);
    }
}

/// Counts the files of each language, without reading any of them.
///
/// With no entry at all there is nothing to count. Else the languages stand by
/// falling number of files, and by name where that number is equal; no line is
/// counted.
pub fn count_files_by_language(entries: &Vec<FileEntry>) -> (r: Result<Analysis, Error>)
    ensures
        r is Err <==> entries@.len() == 0,
        r matches Err(e) ==> e is NoSourceFiles,
        r matches Ok(analysis) ==> counts_files(analysis.languages@, entries@)
            && analysis.total_files == entries@.len() && analysis.total_code == 0
            && analysis.total_comments == 0 && analysis.total_blanks == 0,
{
    if entries.len() == 0 {
        return Err(Error::NoSourceFiles);
    }
    let mut units: Vec<FileStats> = Vec::new();
    let mut i: usize = 0;
    while i < entries.len()
        invariant
            i <= entries.len(),
            one_each(units@, entries@.take(i as int)),
        decreases entries.len() - i,
    {
        let ghost before = units@;
        units.push(
            FileStats {
                path: entries[i].path.clone(),
                language: entries[i].language.name.clone(),
                code: 1,
                comments: 0,
                blanks: 0,
            },
        );
        proof {
            assert forall|k: int| 0 <= k < units@.len() implies (#[trigger] units@[k]).language@
                == entries@.take(i + 1)[k].language@.name && units@[k].code == 1
                && units@[k].comments == 0 && units@[k].blanks == 0 by {
                if k < i {
                    assert(units@[k] == before[k]);
                    assert(entries@.take(i as int)[k] == entries@[k]);
                }
            }
        }
        i += 1;
    }
    assert(entries@.take(entries.len() as int) =~= entries@);
    let ghost synthetic = units@;
    proof {
        lemma_units_total(synthetic, entries@, Seq::empty());
        lemma_units_counted(synthetic, entries@, synthetic.len() as int);
    }
    let summary = Summary::from_file_stats(units);
    let mut languages: Vec<LanguageBreakdown> = Vec::new();
    let mut j: usize = 0;
    while j < summary.languages.len()
        invariant
            j <= summary.languages.len(),
            languages@.len() == j,
            forall|k: int|
                0 <= k < j ==> (#[trigger] languages@[k]).name@ == summary.languages@[k].name@
                    && languages@[k].files == summary.languages@[k].files && languages@[k].code == 0
                    && languages@[k].comments == 0 && languages@[k].blanks == 0,
        decreases summary.languages.len() - j,
    {
        languages.push(
            LanguageBreakdown {
                name: summary.languages[j].name.clone(),
                files: summary.languages[j].files,
                code: 0,
                comments: 0,
                blanks: 0,
            },
        );
        j += 1;
    }
    proof {
        let ranked = summary.languages@;
        assert forall|k: int| 0 <= k < languages@.len() implies (#[trigger] languages@[k]).files
            == files_named(entries@, languages@[k].name@) && languages@[k].files > 0
            && ranked[k].code == ranked[k].files by {
            assert(crate::stats::aggregates(ranked[k], synthetic));
            lemma_units_total(synthetic, entries@, ranked[k].name@);
        }
        assert forall|a: int, b: int| 0 <= a < b < languages@.len() implies more_files(
            #[trigger] languages@[a],
            #[trigger] languages@[b],
        ) by {
            assert(crate::stats::precedes(ranked[a], ranked[b]));
            assert(crate::stats::aggregates(ranked[a], synthetic));
            assert(crate::stats::aggregates(ranked[b], synthetic));
            lemma_units_total(synthetic, entries@, ranked[a].name@);
            lemma_units_total(synthetic, entries@, ranked[b].name@);
        }
        assert forall|k: int| 0 <= k < entries@.len() implies exists|i: int|
            0 <= i < languages@.len() && (#[trigger] languages@[i]).name@ == (
            #[trigger] entries@[k]).language@.name by {
            lemma_units_total(synthetic, entries@, synthetic[k].language@);
            lemma_named_at_least_one(entries@, k);
            assert(crate::stats::language_has_lines(synthetic, k));
            let i = choose|i: int|
                0 <= i < ranked.len() && (#[trigger] ranked[i]).name@ == synthetic[k].language@;
            assert(languages@[i].name@ == entries@[k].language@.name);
        }
    }
    Ok(
        Analysis {
            languages,
            total_files: summary.total_files,
            total_code: 0,
            total_comments: 0,
            total_blanks: 0,
        },
    )
}

/// The counts of a file that was read.
pub open spec fn tally_of(file: LoadedFile) -> Tally {
    file_tally(file.content->0@, file.language@)
}

/// The sums with one more file of the given counts.
pub open spec fn with_tally(sums: Totals, tally: Tally) -> Totals {
    Totals {
        files: sums.files + 1,
        code: sums.code + tally.code,
        comments: sums.comments + tally.comments,
        blanks: sums.blanks + tally.blanks,
    }
}

/// Whether a file belongs to the language called `only`, or to any where none
/// is named.
pub open spec fn in_language(file: LoadedFile, only: Option<Seq<char>>) -> bool {
    match only {
        Some(name) => file.language@.name == name,
        None => true,
    }
}

/// The sums of the counts of the counted files among the first `n`: of the
/// files of one language, or of all.
pub open spec fn counted_sums(
    files: Seq<LoadedFile>,
    hashes: Seq<u64>,
    unique: bool,
    only: Option<Seq<char>>,
    n: int,
) -> Totals
    decreases n,
{
    if n <= 0 || n > files.len() {
        Totals::zero()
    } else if is_counted(files, hashes, unique, n - 1) && in_language(files[n - 1], only) {
        with_tally(counted_sums(files, hashes, unique, only, n - 1), tally_of(files[n - 1]))
    } else {
        counted_sums(files, hashes, unique, only, n - 1)
    }
}

/// A sequence with the elements at `k` and `k + 1` exchanged.
pub open spec fn exchanged<T>(s: Seq<T>, k: int) -> Seq<T> {
    s.update(k, s[k + 1]).update(k + 1, s[k])
}

/// Whether files that could be read and have the same hash have the same
/// language and the same counts, as files of equal content and language
/// have.
pub open spec fn hashes_tell_counts(files: Seq<LoadedFile>, hashes: Seq<u64>) -> bool {
    forall|i: int, j: int|
        0 <= i < files.len() && 0 <= j < files.len() && files[i].content is Some
            && files[j].content is Some && #[trigger] hashes[i] == #[trigger] hashes[j] ==> {
            &&& files[i].language@.name == files[j].language@.name
            &&& tally_of(files[i]).code == tally_of(files[j]).code
            &&& tally_of(files[i]).comments == tally_of(files[j]).comments
            &&& tally_of(files[i]).blanks == tally_of(files[j]).blanks
        }
}

proof fn lemma_exchange_before(
    files: Seq<LoadedFile>,
    hashes: Seq<u64>,
    unique: bool,
    only: Option<Seq<char>>,
    k: int,
    n: int,
)
    requires
        hashes.len() == files.len(),
        0 <= k,
        k + 1 < files.len(),
        0 <= n <= k,
    ensures
        counted_sums(exchanged(files, k), exchanged(hashes, k), unique, only, n) == counted_sums(
            files,
            hashes,
            unique,
            only,
            n,
        ),
    decreases n,
{
    if n > 0 {
        lemma_exchange_before(files, hashes, unique, only, k, n - 1);
        let f = exchanged(files, k);
        let h = exchanged(hashes, k);
        let i = n - 1;
        assert(f[i] == files[i]);
        assert(h[i] == hashes[i]);
        assert(seen_earlier(f, h, i) == seen_earlier(files, hashes, i)) by {
            if seen_earlier(f, h, i) {
                let j = choose|j: int| 0 <= j < i && #[trigger] f[j].content is Some && h[j] == h[i];
                assert(files[j].content is Some && hashes[j] == hashes[i]);
            }
            if seen_earlier(files, hashes, i) {
                let j = choose|j: int|
                    0 <= j < i && #[trigger] files[j].content is Some && hashes[j] == hashes[i];
                assert(f[j].content is Some && h[j] == h[i]);
            }
        }
    }
}

/// Whether a hash was met among the first `k` files that could be read.
pub open spec fn met_before(files: Seq<LoadedFile>, hashes: Seq<u64>, k: int, hash: u64) -> bool {
    exists|j: int| 0 <= j < k && #[trigger] files[j].content is Some && hashes[j] == hash
}

proof fn lemma_exchange_pair(
    files: Seq<LoadedFile>,
    hashes: Seq<u64>,
    unique: bool,
    only: Option<Seq<char>>,
    k: int,
)
    requires
        hashes.len() == files.len(),
        0 <= k,
        k + 1 < files.len(),
        hashes_tell_counts(files, hashes),
    ensures
        counted_sums(exchanged(files, k), exchanged(hashes, k), unique, only, k + 2) == counted_sums(
            files,
            hashes,
            unique,
            only,
            k + 2,
        ),
{
    let f = exchanged(files, k);
    let h = exchanged(hashes, k);
    lemma_exchange_before(files, hashes, unique, only, k, k);
    let a = files[k];
    let b = files[k + 1];
    let ha = hashes[k];
    let hb = hashes[k + 1];
    assert(f[k] == b && f[k + 1] == a && h[k] == hb && h[k + 1] == ha);
    // What was met before the pair is the same in both orders.
    assert(met_before(f, h, k, ha) == met_before(files, hashes, k, ha)) by {
        if met_before(f, h, k, ha) {
            let j = choose|j: int| 0 <= j < k && #[trigger] f[j].content is Some && h[j] == ha;
            assert(files[j].content is Some && hashes[j] == ha);
        }
        if met_before(files, hashes, k, ha) {
            let j = choose|j: int|
                0 <= j < k && #[trigger] files[j].content is Some && hashes[j] == ha;
            assert(f[j].content is Some && h[j] == ha);
        }
    }
    assert(met_before(f, h, k, hb) == met_before(files, hashes, k, hb)) by {
        if met_before(f, h, k, hb) {
            let j = choose|j: int| 0 <= j < k && #[trigger] f[j].content is Some && h[j] == hb;
            assert(files[j].content is Some && hashes[j] == hb);
        }
        if met_before(files, hashes, k, hb) {
            let j = choose|j: int|
                0 <= j < k && #[trigger] files[j].content is Some && hashes[j] == hb;
            assert(f[j].content is Some && h[j] == hb);
        }
    }
    let clash = a.content is Some && b.content is Some && ha == hb;
    // The first of the pair sees what was met before the pair.
    assert(seen_earlier(files, hashes, k) == met_before(files, hashes, k, ha));
    assert(seen_earlier(f, h, k) == met_before(f, h, k, hb));
    // The second of the pair sees the first as well.
    assert(seen_earlier(files, hashes, k + 1) == (met_before(files, hashes, k, hb) || (
    a.content is Some && ha == hb))) by {
        if seen_earlier(files, hashes, k + 1) {
            let j = choose|j: int|
                0 <= j < k + 1 && #[trigger] files[j].content is Some && hashes[j] == hashes[k + 1];
            if j < k {
                assert(met_before(files, hashes, k, hb));
            }
        }
        if met_before(files, hashes, k, hb) {
            let j = choose|j: int|
                0 <= j < k && #[trigger] files[j].content is Some && hashes[j] == hb;
            assert(files[j].content is Some && hashes[j] == hashes[k + 1]);
        }
        if a.content is Some && ha == hb {
            assert(files[k].content is Some && hashes[k] == hashes[k + 1]);
        }
    }
    assert(seen_earlier(f, h, k + 1) == (met_before(f, h, k, ha) || (b.content is Some && ha
        == hb))) by {
        if seen_earlier(f, h, k + 1) {
            let j = choose|j: int|
                0 <= j < k + 1 && #[trigger] f[j].content is Some && h[j] == h[k + 1];
            if j < k {
                assert(met_before(f, h, k, ha));
            }
        }
        if met_before(f, h, k, ha) {
            let j = choose|j: int| 0 <= j < k && #[trigger] f[j].content is Some && h[j] == ha;
            assert(f[j].content is Some && h[j] == h[k + 1]);
        }
        if b.content is Some && ha == hb {
            assert(f[k].content is Some && h[k] == h[k + 1]);
        }
    }
    if clash {
        assert(tally_of(a).code == tally_of(b).code && tally_of(a).comments == tally_of(b).comments
            && tally_of(a).blanks == tally_of(b).blanks && a.language@.name == b.language@.name) by {
            assert(hashes[k] == hashes[k + 1]);
        }
        assert(!is_counted(files, hashes, unique, k + 1) || !unique);
        assert(!is_counted(f, h, unique, k + 1) || !unique);
    }
    // Unfold the two sums over the pair.
    assert(counted_sums(f, h, unique, only, k + 2) == (if is_counted(f, h, unique, k + 1) && in_language(a, only) {
        with_tally(counted_sums(f, h, unique, only, k + 1), tally_of(a))
    } else {
        counted_sums(f, h, unique, only, k + 1)
    }));
    assert(counted_sums(f, h, unique, only, k + 1) == (if is_counted(f, h, unique, k) && in_language(b, only) {
        with_tally(counted_sums(f, h, unique, only, k), tally_of(b))
    } else {
        counted_sums(f, h, unique, only, k)
    }));
    assert(counted_sums(files, hashes, unique, only, k + 2) == (if is_counted(
        files,
        hashes,
        unique,
        k + 1,
    ) && in_language(b, only) {
        with_tally(counted_sums(files, hashes, unique, only, k + 1), tally_of(b))
    } else {
        counted_sums(files, hashes, unique, only, k + 1)
    }));
    assert(counted_sums(files, hashes, unique, only, k + 1) == (if is_counted(files, hashes, unique, k) && in_language(a, only) {
        with_tally(counted_sums(files, hashes, unique, only, k), tally_of(a))
    } else {
        counted_sums(files, hashes, unique, only, k)
    }));
}

/// The totals of a run do not depend on the order in which the files are
/// taken: where files of equal hash have equal counts, exchanging two
/// neighbours leaves the sums of the counted files as they were. Any other
/// order is reached by such exchanges.
pub proof fn lemma_order_keeps_totals(
    files: Seq<LoadedFile>,
    hashes: Seq<u64>,
    unique: bool,
    only: Option<Seq<char>>,
    k: int,
    n: int,
)
    requires
        hashes.len() == files.len(),
        0 <= k,
        k + 1 < files.len(),
        k + 2 <= n <= files.len(),
        hashes_tell_counts(files, hashes),
    ensures
        counted_sums(exchanged(files, k), exchanged(hashes, k), unique, only, n) == counted_sums(
            files,
            hashes,
            unique,
            only,
            n,
        ),
    decreases n,
{
    if n == k + 2 {
        lemma_exchange_pair(files, hashes, unique, only, k);
    } else {
        lemma_order_keeps_totals(files, hashes, unique, only, k, n - 1);
        let f = exchanged(files, k);
        let h = exchanged(hashes, k);
        let i = n - 1;
        assert(f[i] == files[i]);
        assert(h[i] == hashes[i]);
        assert(seen_earlier(f, h, i) == seen_earlier(files, hashes, i)) by {
            if seen_earlier(f, h, i) {
                let j = choose|j: int| 0 <= j < i && #[trigger] f[j].content is Some && h[j] == h[i];
                let m = if j == k {
                    k + 1
                } else if j == k + 1 {
                    k
                } else {
                    j
                };
                assert(files[m].content is Some && hashes[m] == hashes[i]);
            }
            if seen_earlier(files, hashes, i) {
                let j = choose|j: int|
                    0 <= j < i && #[trigger] files[j].content is Some && hashes[j] == hashes[i];
                let m = if j == k {
                    k + 1
                } else if j == k + 1 {
                    k
                } else {
                    j
                };
                assert(f[m].content is Some && h[m] == h[i]);
            }
        }
    }
}

/// The sums over the counts of one language, or of all.
pub open spec fn totals_in(stats: Seq<FileStats>, only: Option<Seq<char>>) -> Totals {
    match only {
        Some(name) => totals_of(stats, name),
        None => totals_all(stats),
    }
}

/// The sums over the counts of a run are the sums of the counted files, for
/// each language and for all.
pub proof fn lemma_counts_sum(
    stats: Seq<FileStats>,
    files: Seq<LoadedFile>,
    hashes: Seq<u64>,
    unique: bool,
    only: Option<Seq<char>>,
    n: int,
)
    requires
        0 <= n <= files.len(),
        counts_all(stats, files, hashes, unique, n),
    ensures
        totals_in(stats, only) == counted_sums(files, hashes, unique, only, n),
    decreases n,
{
    if n > 0 {
        let before = counted_indices(files, hashes, unique, n - 1);
        if is_counted(files, hashes, unique, n - 1) {
            assert(counted_indices(files, hashes, unique, n) == before.push(n - 1));
            let shorter = stats.drop_last();
            assert forall|k: int| 0 <= k < shorter.len() implies counts_of(
                #[trigger] shorter[k],
                files[before[k]],
            ) by {
                assert(shorter[k] == stats[k]);
                assert(counted_indices(files, hashes, unique, n)[k] == before[k]);
            }
            lemma_counts_sum(shorter, files, hashes, unique, only, n - 1);
            assert(counts_of(stats[stats.len() - 1], files[n - 1])) by {
                assert(counted_indices(files, hashes, unique, n)[stats.len() - 1] == n - 1);
            }
            assert(stats.last() == stats[stats.len() - 1]);
        } else {
            lemma_counts_sum(stats, files, hashes, unique, only, n - 1);
        }
    } else {
        assert(stats.len() == 0);
    }
}

/// The analysis of the counts of a single file with lines: one language, with
/// that file for its only file.
pub proof fn lemma_one_file_analysis(analysis: Analysis, stats: Seq<FileStats>)
    requires
        stats.len() == 1,
        stats[0].code + stats[0].comments + stats[0].blanks > 0,
        analysis_of(analysis, stats),
    ensures
        analysis.languages@.len() == 1,
        analysis.languages@[0].name@ == stats[0].language@,
        analysis.languages@[0].files == 1,
        analysis.languages@[0].code == stats[0].code,
        analysis.languages@[0].comments == stats[0].comments,
        analysis.languages@[0].blanks == stats[0].blanks,
{
    let languages = choose|languages: Seq<LanguageStats>|
        #[trigger] crate::stats::summarizes(languages, stats) && languages.len()
            == analysis.languages@.len() && forall|i: int|
            0 <= i < languages.len() ==> same_counts(
                #[trigger] analysis.languages@[i],
                languages[i],
            );
    let name = stats[0].language@;
    assert(stats.drop_last() =~= Seq::<FileStats>::empty());
    assert(stats.last() == stats[0]);
    assert(totals_of(stats.drop_last(), name) == Totals::zero());
    assert(totals_of(stats, name) == Totals::zero().plus(stats[0]));
    assert(crate::stats::language_has_lines(stats, 0));
    let at = choose|i: int| 0 <= i < languages.len() && (#[trigger] languages[i]).name@ == name;
    assert forall|j: int| 0 <= j < languages.len() implies (#[trigger] languages[j]).name@
        == name by {
        assert(crate::stats::aggregates(languages[j], stats));
        if languages[j].name@ != name {
            assert(totals_of(stats.drop_last(), languages[j].name@) == Totals::zero());
            assert(totals_of(stats, languages[j].name@) == Totals::zero());
        }
    }
    if languages.len() >= 2 {
        assert(crate::stats::aggregates(languages[0], stats));
        assert(crate::stats::aggregates(languages[1], stats));
        assert(crate::stats::precedes(languages[0], languages[1]));
        crate::text::lemma_lex_less_irreflexive(name);
    }
    assert(crate::stats::aggregates(languages[0], stats));
    assert(same_counts(analysis.languages@[0], languages[0]));
}

/// Files of equal content are counted once: where every file could be read,
/// all have the hash of the first, and the first holds a line, the analysis
/// has one file, the counts of the first file for totals, and one language
/// with one file and those counts. The other files are not counted at all.
pub proof fn lemma_copies_counted_once(
    analysis: Analysis,
    files: Seq<LoadedFile>,
    hashes: Seq<u64>,
)
    requires
        files.len() >= 1,
        hashes.len() == files.len(),
        forall|i: int| 0 <= i < files.len() ==> (#[trigger] files[i]).content is Some,
        forall|i: int| 0 <= i < files.len() ==> #[trigger] hashes[i] == hashes[0],
        tally_of(files[0]).total() > 0,
        analyzes(analysis, files, hashes, true),
    ensures
        analysis.total_files == 1,
        analysis.total_code == tally_of(files[0]).code,
        analysis.total_comments == tally_of(files[0]).comments,
        analysis.total_blanks == tally_of(files[0]).blanks,
        analysis.languages@.len() == 1,
        analysis.languages@[0].name@ == files[0].language@.name,
        analysis.languages@[0].files == 1,
        analysis.languages@[0].code == tally_of(files[0]).code,
        analysis.languages@[0].comments == tally_of(files[0]).comments,
        analysis.languages@[0].blanks == tally_of(files[0]).blanks,
{
    let n = files.len() as int;
    let stats = choose|stats: Seq<FileStats>| #[trigger]
        counts_all(stats, files, hashes, true, n) && analysis_of(analysis, stats);
    lemma_identical_files_counted_once(files, hashes, n);
    assert(seen_earlier(files, hashes, 0) == false);
    assert(is_counted(files, hashes, true, 0));
    assert(counted_indices(files, hashes, true, n) == seq![0int]);
    assert(stats.len() == 1);
    assert(counts_of(stats[0], files[seq![0int][0]]));
    lemma_one_file_analysis(analysis, stats);
    lemma_counts_sum(stats, files, hashes, true, None, n);
    assert(stats.drop_last() =~= Seq::<FileStats>::empty());
    assert(stats.last() == stats[0]);
    assert(totals_all(stats.drop_last()) == Totals::zero());
    assert(totals_all(stats) == Totals::zero().plus(stats[0]));
}

/// A sequence after the exchanges of neighbours that `swaps` names, made in
/// turn. An exchange that names no pair of neighbours changes nothing.
pub open spec fn reordered<T>(s: Seq<T>, swaps: Seq<int>) -> Seq<T>
    decreases swaps.len(),
{
    if swaps.len() == 0 {
        s
    } else {
        let before = reordered(s, swaps.drop_last());
        let k = swaps.last();
        if 0 <= k && k + 1 < before.len() {
            exchanged(before, k)
        } else {
            before
        }
    }
}

/// Exchanging two neighbours leaves files of equal hash with equal counts.
pub proof fn lemma_exchange_keeps_counts_told(files: Seq<LoadedFile>, hashes: Seq<u64>, k: int)
    requires
        hashes.len() == files.len(),
        0 <= k,
        k + 1 < files.len(),
        hashes_tell_counts(files, hashes),
    ensures
        hashes_tell_counts(exchanged(files, k), exchanged(hashes, k)),
{
    let f = exchanged(files, k);
    let h = exchanged(hashes, k);
    let back = |i: int|
        if i == k {
            k + 1
        } else if i == k + 1 {
            k
        } else {
            i
        };
    assert forall|i: int, j: int|
        0 <= i < f.len() && 0 <= j < f.len() && f[i].content is Some && f[j].content is Some
            && #[trigger] h[i] == #[trigger] h[j] implies {
        &&& f[i].language@.name == f[j].language@.name
        &&& tally_of(f[i]).code == tally_of(f[j]).code
        &&& tally_of(f[i]).comments == tally_of(f[j]).comments
        &&& tally_of(f[i]).blanks == tally_of(f[j]).blanks
    } by {
        let a = back(i);
        let b = back(j);
        assert(f[i] == files[a] && h[i] == hashes[a]);
        assert(f[j] == files[b] && h[j] == hashes[b]);
        assert(hashes[a] == hashes[b]);
    }
}

/// The sums of a run do not depend on the order of its files: where files of
/// equal hash have equal language and counts, the sums over the counted
/// files, of each language and of all, are the same after any sequence of
/// exchanges of neighbours, by which every order is reached.
pub proof fn lemma_any_order_keeps_sums(
    files: Seq<LoadedFile>,
    hashes: Seq<u64>,
    unique: bool,
    only: Option<Seq<char>>,
    swaps: Seq<int>,
)
    requires
        hashes.len() == files.len(),
        hashes_tell_counts(files, hashes),
    ensures
        reordered(files, swaps).len() == files.len(),
        reordered(hashes, swaps).len() == files.len(),
        hashes_tell_counts(reordered(files, swaps), reordered(hashes, swaps)),
        counted_sums(
            reordered(files, swaps),
            reordered(hashes, swaps),
            unique,
            only,
            files.len() as int,
        ) == counted_sums(files, hashes, unique, only, files.len() as int),
    decreases swaps.len(),
{
    if swaps.len() > 0 {
        lemma_any_order_keeps_sums(files, hashes, unique, only, swaps.drop_last());
        let f = reordered(files, swaps.drop_last());
        let h = reordered(hashes, swaps.drop_last());
        let k = swaps.last();
        if 0 <= k && k + 1 < f.len() {
            lemma_exchange_keeps_counts_told(f, h, k);
            lemma_order_keeps_totals(f, h, unique, only, k, f.len() as int);
        }
    }
}

/// Whether two entries of analyses say the same.
pub open spec fn same_entry(a: LanguageBreakdown, b: LanguageBreakdown) -> bool {
    &&& a.name@ == b.name@
    &&& a.files == b.files
    &&& a.code == b.code
    &&& a.comments == b.comments
    &&& a.blanks == b.blanks
}

/// Whether a list of entries holds one that says what `entry` says.
pub open spec fn found_in(entry: LanguageBreakdown, list: Seq<LanguageBreakdown>) -> bool {
    exists|j: int| 0 <= j < list.len() && same_entry(entry, #[trigger] list[j])
}

/// A language that holds a line has a file.
proof fn lemma_language_occurs(stats: Seq<FileStats>, name: Seq<char>)
    requires
        totals_of(stats, name).lines() > 0,
    ensures
        exists|k: int| 0 <= k < stats.len() && (#[trigger] stats[k]).language@ == name,
{
    if !(exists|k: int| 0 <= k < stats.len() && (#[trigger] stats[k]).language@ == name) {
        crate::stats::lemma_totals_of_absent(stats, name);
    }
}

/// Every language of the analysis of a run is a language of the analysis of
/// the same files in another order, with the same counts.
proof fn lemma_entries_found(
    first: Analysis,
    second: Analysis,
    files: Seq<LoadedFile>,
    hashes: Seq<u64>,
    others: Seq<LoadedFile>,
    other_hashes: Seq<u64>,
    unique: bool,
    i: int,
)
    requires
        hashes.len() == files.len(),
        others.len() == files.len(),
        other_hashes.len() == files.len(),
        analyzes(first, files, hashes, unique),
        analyzes(second, others, other_hashes, unique),
        forall|only: Option<Seq<char>>|
            #[trigger] counted_sums(others, other_hashes, unique, only, files.len() as int)
                == counted_sums(files, hashes, unique, only, files.len() as int),
        0 <= i < first.languages@.len(),
    ensures
        found_in(first.languages@[i], second.languages@),
{
    let n = files.len() as int;
    let entry = first.languages@[i];
    let name = entry.name@;
    let sums = counted_sums(files, hashes, unique, Some(name), n);
    assert(sums_are(entry, sums));
    assert(counted_sums(others, other_hashes, unique, Some(name), n) == sums);
    // The entry holds a line.
    let stats1 = choose|stats: Seq<FileStats>| #[trigger]
        counts_all(stats, files, hashes, unique, n) && analysis_of(first, stats);
    let languages1 = choose|languages: Seq<LanguageStats>|
        #[trigger] crate::stats::summarizes(languages, stats1) && languages.len()
            == first.languages@.len() && forall|k: int|
            0 <= k < languages.len() ==> same_counts(#[trigger] first.languages@[k], languages[k]);
    assert(same_counts(first.languages@[i], languages1[i]));
    assert(languages1[i].code + languages1[i].comments + languages1[i].blanks > 0);
    // So its language has a file among the counts of the other order.
    let stats2 = choose|stats: Seq<FileStats>| #[trigger]
        counts_all(stats, others, other_hashes, unique, n) && analysis_of(second, stats);
    lemma_counts_sum(stats2, others, other_hashes, unique, Some(name), n);
    assert(totals_of(stats2, name) == sums);
    lemma_language_occurs(stats2, name);
    let k = choose|k: int| 0 <= k < stats2.len() && (#[trigger] stats2[k]).language@ == name;
    assert(crate::stats::language_has_lines(stats2, k));
    let languages2 = choose|languages: Seq<LanguageStats>|
        #[trigger] crate::stats::summarizes(languages, stats2) && languages.len()
            == second.languages@.len() && forall|k: int|
            0 <= k < languages.len() ==> same_counts(#[trigger] second.languages@[k], languages[k]);
    let j = choose|j: int| 0 <= j < languages2.len() && (#[trigger] languages2[j]).name@ == name;
    assert(crate::stats::aggregates(languages2[j], stats2));
    assert(same_counts(second.languages@[j], languages2[j]));
    assert(same_entry(first.languages@[i], second.languages@[j]));
}

/// Exchanges made in turn: first those of `first`, then those of `then`.
pub proof fn lemma_reordered_in_turn<T>(s: Seq<T>, first: Seq<int>, then: Seq<int>)
    ensures
        reordered(s, first + then) == reordered(reordered(s, first), then),
    decreases then.len(),
{
    if then.len() == 0 {
        assert(first + then =~= first);
    } else {
        assert((first + then).drop_last() =~= first + then.drop_last());
        assert((first + then).last() == then.last());
        lemma_reordered_in_turn(s, first, then.drop_last());
    }
}

/// Exchanges keep the length.
pub proof fn lemma_reordered_len<T>(s: Seq<T>, swaps: Seq<int>)
    ensures
        reordered(s, swaps).len() == s.len(),
    decreases swaps.len(),
{
    if swaps.len() > 0 {
        lemma_reordered_len(s, swaps.drop_last());
    }
}

/// The numbers below `n`, in rising order.
pub open spec fn in_order(n: nat) -> Seq<int> {
    Seq::new(n, |i: int| i)
}

/// The elements of `s` in the order that `order` names: at each place the
/// element whose index stands there.
pub open spec fn permuted<T>(s: Seq<T>, order: Seq<int>) -> Seq<T> {
    Seq::new(order.len(), |i: int| s[order[i]])
}

/// Whether `order` names every index below `n` once.
pub open spec fn is_order(order: Seq<int>, n: nat) -> bool {
    &&& order.len() == n
    &&& forall|i: int| 0 <= i < n ==> 0 <= #[trigger] order[i] < n
    &&& forall|i: int, j: int| 0 <= i < j < n ==> #[trigger] order[i] != #[trigger] order[j]
    &&& forall|v: int| 0 <= v < n ==> #[trigger] order.contains(v)
}

/// Exchanges move the elements as they move their indices.
pub proof fn lemma_reordered_by_index<T>(s: Seq<T>, swaps: Seq<int>)
    ensures
        is_index_list(reordered(in_order(s.len()), swaps), s.len()),
        reordered(s, swaps) == permuted(s, reordered(in_order(s.len()), swaps)),
    decreases swaps.len(),
{
    let indices = in_order(s.len());
    if swaps.len() == 0 {
        assert(reordered(s, swaps) =~= permuted(s, indices));
    } else {
        lemma_reordered_by_index(s, swaps.drop_last());
        lemma_reordered_len(s, swaps.drop_last());
        lemma_reordered_len(indices, swaps.drop_last());
        let before = reordered(s, swaps.drop_last());
        let before_indices = reordered(indices, swaps.drop_last());
        let k = swaps.last();
        if 0 <= k && k + 1 < before.len() {
            assert(exchanged(before, k) =~= permuted(s, exchanged(before_indices, k)));
        }
    }
}

/// Whether every entry of `list` is an index below `n`.
pub open spec fn is_index_list(list: Seq<int>, n: nat) -> bool {
    list.len() == n && forall|i: int| 0 <= i < n ==> 0 <= #[trigger] list[i] < n
}

/// An exchange of neighbours leaves an order an order.
proof fn lemma_exchange_keeps_order(order: Seq<int>, n: nat, k: int)
    requires
        is_order(order, n),
        0 <= k,
        k + 1 < n,
    ensures
        is_order(exchanged(order, k), n),
{
    let next = exchanged(order, k);
    assert forall|v: int| 0 <= v < n implies #[trigger] next.contains(v) by {
        assert(order.contains(v));
        let i = choose|i: int| 0 <= i < order.len() && order[i] == v;
        let at = if i == k {
            k + 1
        } else if i == k + 1 {
            k
        } else {
            i
        };
        assert(next[at] == v);
    }
}

/// An element is brought forward to any place before it by exchanges of
/// neighbours that touch nothing before that place.
proof fn lemma_bring_forward(list: Seq<int>, n: nat, to: int, from: int) -> (swaps: Seq<int>)
    requires
        is_order(list, n),
        0 <= to <= from < n,
    ensures
        is_order(reordered(list, swaps), n),
        reordered(list, swaps)[to] == list[from],
        reordered(list, swaps).take(to) == list.take(to),
    decreases from - to,
{
    if from == to {
        let swaps = Seq::<int>::empty();
        assert(reordered(list, swaps) == list);
        swaps
    } else {
        let nearer = exchanged(list, from - 1);
        lemma_exchange_keeps_order(list, n, from - 1);
        let more = lemma_bring_forward(nearer, n, to, from - 1);
        let one = seq![from - 1];
        assert(one.drop_last() =~= Seq::<int>::empty());
        assert(reordered(list, one) == nearer) by {
            assert(reordered(list, one.drop_last()) == list);
        }
        lemma_reordered_in_turn(list, one, more);
        assert(nearer.take(to) =~= list.take(to));
        one + more
    }
}

/// Every order is reached by exchanges of neighbours: the first `k` places
/// of any order are reached from the rising order.
proof fn lemma_order_reached_upto(order: Seq<int>, n: nat, k: int) -> (swaps: Seq<int>)
    requires
        is_order(order, n),
        0 <= k <= n,
    ensures
        is_order(reordered(in_order(n), swaps), n),
        reordered(in_order(n), swaps).take(k) == order.take(k),
    decreases k,
{
    if k == 0 {
        let swaps = Seq::<int>::empty();
        let start = in_order(n);
        assert(reordered(start, swaps) == start);
        assert forall|v: int| 0 <= v < n implies #[trigger] start.contains(v) by {
            assert(start[v] == v);
        }
        assert(start.take(0) =~= order.take(0));
        swaps
    } else {
        let before = lemma_order_reached_upto(order, n, k - 1);
        let list = reordered(in_order(n), before);
        let wanted = order[k - 1];
        assert(list.contains(wanted));
        let from = choose|i: int| 0 <= i < list.len() && list[i] == wanted;
        assert(from >= k - 1) by {
            if from < k - 1 {
                assert(list.take(k - 1)[from] == order.take(k - 1)[from]);
                assert(order[from] == order[k - 1]);
            }
        }
        let more = lemma_bring_forward(list, n, k - 1, from);
        lemma_reordered_in_turn(in_order(n), before, more);
        let reached = reordered(list, more);
        assert(reached.take(k) =~= order.take(k)) by {
            assert forall|i: int| 0 <= i < k implies reached.take(k)[i] == order.take(k)[i] by {
                if i < k - 1 {
                    assert(reached.take(k - 1)[i] == list.take(k - 1)[i]);
                    assert(list.take(k - 1)[i] == order.take(k - 1)[i]);
                }
            }
        }
        before + more
    }
}

/// Every order of the files of a run is reached by exchanges of neighbours.
pub proof fn lemma_every_order_reached(files: Seq<LoadedFile>, hashes: Seq<u64>, order: Seq<int>) -> (swaps:
    Seq<int>)
    requires
        hashes.len() == files.len(),
        is_order(order, files.len()),
    ensures
        reordered(files, swaps) == permuted(files, order),
        reordered(hashes, swaps) == permuted(hashes, order),
{
    let n = files.len();
    let swaps = lemma_order_reached_upto(order, n, n as int);
    let reached = reordered(in_order(n), swaps);
    assert(reached.take(n as int) =~= reached);
    assert(order.take(n as int) =~= order);
    lemma_reordered_by_index(files, swaps);
    lemma_reordered_by_index(hashes, swaps);
    swaps
}

/// Whether `a` stands before `b` in an analysis: more code first, and among
/// equals the lesser name first.
pub open spec fn ranks_before(a: LanguageBreakdown, b: LanguageBreakdown) -> bool {
    a.code > b.code || (a.code == b.code && lex_less(a.name@, b.name@))
}

/// Whether the entries stand in the order of an analysis.
pub open spec fn ranked_entries(list: Seq<LanguageBreakdown>) -> bool {
    forall|i: int, j: int|
        0 <= i < j < list.len() ==> ranks_before(#[trigger] list[i], #[trigger] list[j])
}

/// The languages of an analysis stand in order.
pub proof fn lemma_analysis_ranked(analysis: Analysis, stats: Seq<FileStats>)
    requires
        analysis_of(analysis, stats),
    ensures
        ranked_entries(analysis.languages@),
{
    let languages = choose|languages: Seq<LanguageStats>|
        #[trigger] crate::stats::summarizes(languages, stats) && languages.len()
            == analysis.languages@.len() && forall|i: int|
            0 <= i < languages.len() ==> same_counts(
                #[trigger] analysis.languages@[i],
                languages[i],
            );
    assert forall|i: int, j: int| 0 <= i < j < analysis.languages@.len() implies ranks_before(
        #[trigger] analysis.languages@[i],
        #[trigger] analysis.languages@[j],
    ) by {
        assert(crate::stats::precedes(languages[i], languages[j]));
        assert(same_counts(analysis.languages@[i], languages[i]));
        assert(same_counts(analysis.languages@[j], languages[j]));
    }
}

/// No entry stands before one that says the same.
proof fn lemma_rank_tells_apart(a: LanguageBreakdown, b: LanguageBreakdown)
    requires
        ranks_before(a, b),
    ensures
        !same_entry(a, b),
        !same_entry(b, a),
{
    crate::text::lemma_lex_less_irreflexive(a.name@);
}

/// Two ordered lists that hold the same entries are the same list.
pub proof fn lemma_ranked_lists_agree(a: Seq<LanguageBreakdown>, b: Seq<LanguageBreakdown>)
    requires
        ranked_entries(a),
        ranked_entries(b),
        forall|i: int| 0 <= i < a.len() ==> found_in(#[trigger] a[i], b),
        forall|j: int| 0 <= j < b.len() ==> found_in(#[trigger] b[j], a),
    ensures
        a.len() == b.len(),
        forall|i: int| 0 <= i < a.len() ==> same_entry(#[trigger] a[i], b[i]),
    decreases a.len(),
{
    if a.len() == 0 {
        if b.len() > 0 {
            assert(found_in(b[0], a));
        }
    } else {
        assert(found_in(a[0], b));
        let j = choose|j: int| 0 <= j < b.len() && same_entry(a[0], #[trigger] b[j]);
        assert(found_in(b[0], a));
        let i = choose|i: int| 0 <= i < a.len() && same_entry(b[0], #[trigger] a[i]);
        if j > 0 {
            assert(ranks_before(b[0], b[j]));
            assert(ranks_before(a[i], a[0]));
            if i > 0 {
                assert(ranks_before(a[0], a[i]));
                if a[0].code == a[i].code {
                    crate::text::lemma_lex_less_transitive(a[0].name@, a[i].name@, a[0].name@);
                }
            }
            crate::text::lemma_lex_less_irreflexive(a[0].name@);
        }
        assert(same_entry(a[0], b[0]));
        let rest_a = a.skip(1);
        let rest_b = b.skip(1);
        assert forall|x: int, y: int| 0 <= x < y < rest_a.len() implies ranks_before(
            #[trigger] rest_a[x],
            #[trigger] rest_a[y],
        ) by {
            assert(ranks_before(a[x + 1], a[y + 1]));
        }
        assert forall|x: int, y: int| 0 <= x < y < rest_b.len() implies ranks_before(
            #[trigger] rest_b[x],
            #[trigger] rest_b[y],
        ) by {
            assert(ranks_before(b[x + 1], b[y + 1]));
        }
        assert forall|x: int| 0 <= x < rest_a.len() implies found_in(#[trigger] rest_a[x], rest_b) by {
            assert(found_in(a[x + 1], b));
            let y = choose|y: int| 0 <= y < b.len() && same_entry(a[x + 1], #[trigger] b[y]);
            assert(ranks_before(a[0], a[x + 1]));
            lemma_rank_tells_apart(a[0], a[x + 1]);
            assert(y > 0);
            assert(rest_b[y - 1] == b[y]);
        }
        assert forall|y: int| 0 <= y < rest_b.len() implies found_in(#[trigger] rest_b[y], rest_a) by {
            assert(found_in(b[y + 1], a));
            let x = choose|x: int| 0 <= x < a.len() && same_entry(b[y + 1], #[trigger] a[x]);
            assert(ranks_before(b[0], b[y + 1]));
            lemma_rank_tells_apart(b[0], b[y + 1]);
            assert(x > 0);
            assert(rest_a[x - 1] == a[x]);
        }
        lemma_ranked_lists_agree(rest_a, rest_b);
        assert forall|x: int| 0 <= x < a.len() implies same_entry(#[trigger] a[x], b[x]) by {
            if x > 0 {
                assert(rest_a[x - 1] == a[x]);
                assert(rest_b[x - 1] == b[x]);
                assert(same_entry(rest_a[x - 1], rest_b[x - 1]));
            }
        }
    }
}

/// The analysis of a run does not depend on the order of its files: where
/// files of equal hash have equal language and counts, the analysis of the
/// files in any other order has the same totals and the same languages with
/// the same counts, in the same order. Another order is given by the
/// exchanges of neighbours that lead to it.
pub proof fn lemma_order_keeps_analysis(
    first: Analysis,
    second: Analysis,
    files: Seq<LoadedFile>,
    hashes: Seq<u64>,
    unique: bool,
    swaps: Seq<int>,
)
    requires
        hashes.len() == files.len(),
        hashes_tell_counts(files, hashes),
        analyzes(first, files, hashes, unique),
        analyzes(second, reordered(files, swaps), reordered(hashes, swaps), unique),
    ensures
        second.total_files == first.total_files,
        second.total_code == first.total_code,
        second.total_comments == first.total_comments,
        second.total_blanks == first.total_blanks,
        second.languages@.len() == first.languages@.len(),
        forall|i: int|
            0 <= i < first.languages@.len() ==> same_entry(
                #[trigger] first.languages@[i],
                second.languages@[i],
            ),
{
    let others = reordered(files, swaps);
    let other_hashes = reordered(hashes, swaps);
    let n = files.len() as int;
    lemma_any_order_keeps_sums(files, hashes, unique, None, swaps);
    assert forall|only: Option<Seq<char>>|
        #[trigger] counted_sums(others, other_hashes, unique, only, n) == counted_sums(
            files,
            hashes,
            unique,
            only,
            n,
        ) by {
        lemma_any_order_keeps_sums(files, hashes, unique, only, swaps);
    }
    assert forall|i: int| 0 <= i < first.languages@.len() implies found_in(
        #[trigger] first.languages@[i],
        second.languages@,
    ) by {
        lemma_entries_found(first, second, files, hashes, others, other_hashes, unique, i);
    }
    assert forall|j: int| 0 <= j < second.languages@.len() implies found_in(
        #[trigger] second.languages@[j],
        first.languages@,
    ) by {
        lemma_entries_found(second, first, others, other_hashes, files, hashes, unique, j);
    }
    let stats1 = choose|stats: Seq<FileStats>| #[trigger]
        counts_all(stats, files, hashes, unique, n) && analysis_of(first, stats);
    let stats2 = choose|stats: Seq<FileStats>| #[trigger]
        counts_all(stats, others, other_hashes, unique, n) && analysis_of(second, stats);
    lemma_analysis_ranked(first, stats1);
    lemma_analysis_ranked(second, stats2);
    lemma_ranked_lists_agree(first.languages@, second.languages@);
}

/// The analysis of a run does not depend on the order in which its files
/// are taken: where files of equal hash have equal language and counts, the
/// analysis of the files in any order whatever has the same totals and the
/// same languages with the same counts.
pub proof fn lemma_any_order_keeps_analysis(
    first: Analysis,
    second: Analysis,
    files: Seq<LoadedFile>,
    hashes: Seq<u64>,
    unique: bool,
    order: Seq<int>,
)
    requires
        hashes.len() == files.len(),
        hashes_tell_counts(files, hashes),
        is_order(order, files.len()),
        analyzes(first, files, hashes, unique),
        analyzes(second, permuted(files, order), permuted(hashes, order), unique),
    ensures
        second.total_files == first.total_files,
        second.total_code == first.total_code,
        second.total_comments == first.total_comments,
        second.total_blanks == first.total_blanks,
        second.languages@.len() == first.languages@.len(),
        forall|i: int|
            0 <= i < first.languages@.len() ==> same_entry(
                #[trigger] first.languages@[i],
                second.languages@[i],
            ),
{
    let swaps = lemma_every_order_reached(files, hashes, order);
    lemma_order_keeps_analysis(first, second, files, hashes, unique, swaps);
}

} // verus!
