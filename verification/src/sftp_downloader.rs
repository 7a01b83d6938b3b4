use vstd::prelude::*;
use crate::glob::matches_any_spec;
use crate::paths::{join_remote, joined, relative_path, relative_to};
use crate::progress::{format_bytes, human_bytes};
use crate::text::{decimal, decimal_string, pad_left, pad_left_spec, pad_right, pad_right_spec};
use vstd::string::StringSliceAdditionalSpecFns;
use vstd::utf8::decode_utf8;

pub use crate::glob::{glob_match, glob_match_recursive, matches_any_glob};

verus! {

/// Download options
#[derive(Debug, Clone)]
pub struct DownloadOptions {
    pub skip_existing: bool,
    pub resume: bool,
    pub parallel: usize,
    /// Glob patterns matched against file basename; any match -> excluded.
    pub exclude_patterns: Vec<String>,
    /// Glob patterns matched against file basename; if non-empty, only matches are kept.
    pub include_patterns: Vec<String>,
    /// Case-insensitive glob matching when true.
    pub ignore_case: bool,
    /// Lower-bound mtime (inclusive), Unix seconds UTC. None = no lower bound.
    pub since: Option<i64>,
    /// Upper-bound mtime (inclusive), Unix seconds UTC. None = no upper bound.
    pub until: Option<i64>,
    /// Keep only the N most recently modified files (applied after include/exclude/since/until).
    pub latest: Option<usize>,
}

impl Default for DownloadOptions {
    fn default() -> (r: Self)
        ensures
            !r.skip_existing,
            !r.resume,
            r.parallel == 4,
            r.exclude_patterns@.len() == 0,
            r.include_patterns@.len() == 0,
            !r.ignore_case,
            r.since is None,
            r.until is None,
            r.latest is None,
    {
        DownloadOptions {
            skip_existing: false,
            resume: false,
            parallel: 4,
            exclude_patterns: Vec::new(),
            include_patterns: Vec::new(),
            ignore_case: false,
            since: None,
            until: None,
            latest: None,
        }
    }
}

/// Download task
#[derive(Debug)]
pub struct DownloadTask {
    pub remote_path: String,
    pub local_path: String,
    pub file_size: u64,
    /// File mtime in Unix seconds, when known.
    pub mtime: Option<i64>,
}

impl Clone for DownloadTask {
    fn clone(&self) -> (r: Self)
        ensures
            r == *self,
    {
        DownloadTask {
            remote_path: self.remote_path.clone(),
            local_path: self.local_path.clone(),
            file_size: self.file_size,
            mtime: self.mtime,
        }
    }
}

/// Modification time `a` is more recent than `b`; an unknown time is older than any
/// known one.
pub open spec fn newer(a: Option<i64>, b: Option<i64>) -> bool {
    match (a, b) {
        (Some(x), Some(y)) => x > y,
        (Some(_), None) => true,
        _ => false,
    }
}

/// In the newest-first order of `tasks`, position `i` comes before position `j`: it is
/// more recent, or as recent and earlier in `tasks`.
pub open spec fn comes_before(tasks: Seq<DownloadTask>, i: int, j: int) -> bool {
    newer(tasks[i].mtime, tasks[j].mtime) || (!newer(tasks[j].mtime, tasks[i].mtime) && i < j)
}

/// `order` lists every position of `tasks` once, newest first, equal times in their
/// input order.
pub open spec fn newest_first(tasks: Seq<DownloadTask>, order: Seq<int>) -> bool {
    &&& order.len() == tasks.len()
    &&& forall|r: int| 0 <= r < order.len() ==> 0 <= #[trigger] order[r] < tasks.len()
    &&& forall|r: int, q: int| 0 <= r < q < order.len() ==> comes_before(tasks, #[trigger] order[r], #[trigger] order[q])
}

/// What `keep_latest` keeps of `tasks`: with `Some(n)`, the `n` most recently modified
/// tasks, newest first (tasks without mtime last, ties in their input order); all
/// tasks, in their input order, when there are no more than `n`; none when `n` is 0.
pub open spec fn latest_kept(tasks: Seq<DownloadTask>, latest: Option<usize>, kept: Seq<DownloadTask>) -> bool {
    match latest {
        None => kept == tasks,
        Some(n) => if n == 0 {
            kept.len() == 0
        } else if tasks.len() <= n {
            kept == tasks
        } else {
            exists|order: Seq<int>| #[trigger] newest_first(tasks, order) && kept.len() == n
                && forall|r: int| 0 <= r < n ==> #[trigger] kept[r] == tasks[order[r]]
        },
    }
}

fn is_newer(a: Option<i64>, b: Option<i64>) -> (r: bool)
    ensures
        r == newer(a, b),
{
    match (a, b) {
        (Some(x), Some(y)) => x > y,
        (Some(_), None) => true,
        _ => false,
    }
}

/// Positions of `tasks`, newest first, equal times in their input order (a stable
/// insertion sort).
fn newest_first_order(tasks: &Vec<DownloadTask>) -> (order: Vec<usize>)
    ensures
        newest_first(tasks@, order@.map_values(|i: usize| i as int)),
{
    let ghost s = tasks@;
    let mut order: Vec<usize> = Vec::new();
    let mut i: usize = 0;
    while i < tasks.len()
        invariant
            s == tasks@,
            i <= s.len(),
            order@.len() == i,
            forall|r: int| 0 <= r < i ==> #[trigger] order@[r] < i,
            forall|r: int, q: int| 0 <= r < q < i ==> comes_before(s, #[trigger] order@[r] as int, #[trigger] order@[q] as int),
        decreases s.len() - i,
    {
        let key = tasks[i].mtime;
        let mut p: usize = 0;
        while p < order.len() && !is_newer(key, tasks[order[p]].mtime)
            invariant
                s == tasks@,
                i < s.len(),
                key == s[i as int].mtime,
                order@.len() == i,
                p <= i,
                forall|r: int| 0 <= r < i ==> #[trigger] order@[r] < i,
                forall|r: int| 0 <= r < p ==> !newer(s[i as int].mtime, s[#[trigger] order@[r] as int].mtime),
            decreases i - p,
        {
            p += 1;
        }
        let ghost old_order = order@;
        order.insert(p, i);
        proof {
            assert forall|r: int, q: int| 0 <= r < q < i + 1 implies comes_before(s, #[trigger] order@[r] as int, #[trigger] order@[q] as int) by {
                if q < p {
                    assert(order@[r] == old_order[r] && order@[q] == old_order[q]);
                } else if q == p {
                    assert(order@[r] == old_order[r]);
                    assert(!newer(s[i as int].mtime, s[old_order[r] as int].mtime));
                } else if r < p {
                    assert(order@[r] == old_order[r] && order@[q] == old_order[q - 1]);
                } else if r == p {
                    assert(order@[q] == old_order[q - 1]);
                    assert(newer(s[i as int].mtime, s[old_order[p as int] as int].mtime));
                    if q - 1 > p {
                        assert(comes_before(s, old_order[p as int] as int, old_order[q - 1] as int));
                    }
                } else {
                    assert(order@[r] == old_order[r - 1] && order@[q] == old_order[q - 1]);
                }
            }
            assert forall|r: int| 0 <= r < i + 1 implies #[trigger] order@[r] < i + 1 by {
                if r < p {
                    assert(order@[r] == old_order[r]);
                } else if r > p {
                    assert(order@[r] == old_order[r - 1]);
                }
            }
        }
        i += 1;
    }
    proof {
        let m = order@.map_values(|i: usize| i as int);
        assert forall|r: int, q: int| 0 <= r < q < m.len() implies comes_before(s, #[trigger] m[r], #[trigger] m[q]) by {
            assert(comes_before(s, order@[r] as int, order@[q] as int));
        }
        assert forall|r: int| 0 <= r < m.len() implies 0 <= #[trigger] m[r] < s.len() by {
            assert(order@[r] < i);
        }
    }
    order
}

/// Apply `--latest`: keep only the N most recently modified files (mtime desc).
/// Files without mtime sink to the bottom; equal times keep their order.
pub fn keep_latest(tasks: Vec<DownloadTask>, latest: Option<usize>) -> (kept: Vec<DownloadTask>)
    ensures
        latest_kept(tasks@, latest, kept@),
{
    let mut tasks = tasks;
    if let Some(n) = latest {
        if n == 0 {
            tasks.clear();
        } else if tasks.len() > n {
            let order = newest_first_order(&tasks);
            let ghost m = order@.map_values(|i: usize| i as int);
            let mut kept: Vec<DownloadTask> = Vec::new();
            let mut r: usize = 0;
            while r < n
                invariant
                    n < tasks@.len(),
                    order@.len() == tasks@.len(),
                    newest_first(tasks@, m),
                    m == order@.map_values(|i: usize| i as int),
                    r <= n,
                    kept@.len() == r,
                    forall|q: int| 0 <= q < r ==> #[trigger] kept@[q] == tasks@[m[q]],
                decreases n - r,
            {
                assert(0 <= m[r as int] < tasks@.len());
                let t = tasks[order[r]].clone();
                kept.push(t);
                r += 1;
            }
            return kept;
        }
    }
    tasks
}


/// A newest-first order lists every position of `tasks`.
pub proof fn lemma_newest_first_covers(tasks: Seq<DownloadTask>, order: Seq<int>, k: int)
    requires
        newest_first(tasks, order),
        0 <= k < tasks.len(),
    ensures
        exists|r: int| 0 <= r < order.len() && order[r] == k,
{
    assert(order.no_duplicates()) by {
        assert forall|r: int, q: int| 0 <= r < order.len() && 0 <= q < order.len() && r != q implies order[r] != order[q] by {
            if r < q {
                assert(comes_before(tasks, order[r], order[q]));
            } else {
                assert(comes_before(tasks, order[q], order[r]));
            }
        }
    }
    order.unique_seq_to_set();
    vstd::set_lib::lemma_int_range(0, tasks.len() as int);
    let range = vstd::set_lib::set_int_range(0, tasks.len() as int);
    assert(order.to_set().subset_of(range));
    order.lemma_cardinality_of_set();
    vstd::set_lib::lemma_subset_equality(order.to_set(), range);
    assert(range.contains(k));
    assert(order.to_set().contains(k));
}

proof fn lemma_newest_first_agree(tasks: Seq<DownloadTask>, o1: Seq<int>, o2: Seq<int>, i: int)
    requires
        newest_first(tasks, o1),
        newest_first(tasks, o2),
        0 <= i <= tasks.len(),
    ensures
        forall|j: int| 0 <= j < i ==> #[trigger] o1[j] == o2[j],
    decreases i,
{
    if i > 0 {
        lemma_newest_first_agree(tasks, o1, o2, i - 1);
        let m = i - 1;
        let x = o1[m];
        let y = o2[m];
        if x != y {
            lemma_newest_first_covers(tasks, o2, x);
            let j = choose|j: int| 0 <= j < o2.len() && o2[j] == x;
            if j < m {
                assert(o1[j] == o2[j]);
                assert(comes_before(tasks, o1[j], o1[m]));
            }
            assert(comes_before(tasks, y, x));
            lemma_newest_first_covers(tasks, o1, y);
            let k = choose|k: int| 0 <= k < o1.len() && o1[k] == y;
            if k < m {
                assert(o1[k] == o2[k]);
                assert(comes_before(tasks, o2[k], o2[m]));
            }
            assert(comes_before(tasks, x, y));
        }
    }
}

/// There is only one newest-first order of a task list: the arrangement that
/// `keep_latest` takes its prefix of is fully determined.
pub proof fn law_newest_first_unique(tasks: Seq<DownloadTask>, o1: Seq<int>, o2: Seq<int>)
    requires
        newest_first(tasks, o1),
        newest_first(tasks, o2),
    ensures
        o1 == o2,
{
    lemma_newest_first_agree(tasks, o1, o2, tasks.len() as int);
    assert(o1 =~= o2);
}

/// In a newest-first order, files without a modification time come after every file
/// that has one.
pub proof fn law_unknown_times_last(tasks: Seq<DownloadTask>, order: Seq<int>, r: int, q: int)
    requires
        newest_first(tasks, order),
        0 <= r < q < order.len(),
        tasks[order[q]].mtime is Some,
    ensures
        tasks[order[r]].mtime is Some,
{
    assert(comes_before(tasks, order[r], order[q]));
}

/// What `--latest n` keeps is at least as recent as what it drops, and no more than `n`
/// tasks are kept.
pub proof fn law_latest_keeps_newest(tasks: Seq<DownloadTask>, n: usize, kept: Seq<DownloadTask>, order: Seq<int>)
    requires
        0 < n < tasks.len(),
        newest_first(tasks, order),
        latest_kept(tasks, Some(n), kept),
    ensures
        kept.len() == n,
        forall|r: int| 0 <= r < n ==> #[trigger] kept[r] == tasks[order[r]],
        forall|r: int, q: int| 0 <= r < n <= q < tasks.len() ==> !newer(tasks[#[trigger] order[q]].mtime, tasks[#[trigger] order[r]].mtime),
{
    let o = choose|o: Seq<int>| #[trigger] newest_first(tasks, o) && kept.len() == n
        && forall|r: int| 0 <= r < n ==> #[trigger] kept[r] == tasks[o[r]];
    law_newest_first_unique(tasks, o, order);
    assert forall|r: int, q: int| 0 <= r < n <= q < tasks.len() implies !newer(tasks[#[trigger] order[q]].mtime, tasks[#[trigger] order[r]].mtime) by {
        assert(comes_before(tasks, order[r], order[q]));
    }
}


/// Size of the blocks a file is read in.
pub const CHUNK_SIZE: usize = 65536;

/// A download in progress is flushed to disk each time its offset reaches a multiple of
/// this many bytes.
pub const FLUSH_INTERVAL: u64 = 1048576;

/// `mtime` lies within `[since, until]`, a missing bound leaving that side open.
pub open spec fn in_time_range(mtime: i64, since: Option<i64>, until: Option<i64>) -> bool {
    &&& (since matches Some(s) ==> s <= mtime)
    &&& (until matches Some(u) ==> mtime <= u)
}

/// Check whether a file mtime (Unix seconds) falls within [since, until].
/// `None` bounds mean unbounded on that side. If `mtime` itself is unknown,
/// callers should decide their own policy (we keep the file by skipping this check).
pub fn mtime_in_range(mtime: i64, since: Option<i64>, until: Option<i64>) -> (r: bool)
    ensures
        r == in_time_range(mtime, since, until),
{
    if let Some(s) = since {
        if mtime < s {
            return false;
        }
    }
    if let Some(u) = until {
        if mtime > u {
            return false;
        }
    }
    true
}

/// What the filters decide of one remote file.
#[derive(Debug, Clone, Copy, PartialEq, Eq, Structural)]
pub enum FileVerdict {
    /// Passes every filter.
    Keep,
    /// The include list is not empty and no pattern of it matches.
    NotIncluded,
    /// An exclude pattern matches.
    Excluded,
    /// The modification time is known and out of the `[since, until]` range.
    OutOfRange,
}

/// The filter pipeline: include (whitelist) first, then exclude (blacklist), then the
/// modification-time range.
pub open spec fn file_verdict(name: Seq<char>, mtime: Option<i64>, options: DownloadOptions) -> FileVerdict {
    if options.include_patterns@.len() > 0 && !matches_any_spec(name, options.include_patterns@, options.ignore_case) {
        FileVerdict::NotIncluded
    } else if matches_any_spec(name, options.exclude_patterns@, options.ignore_case) {
        FileVerdict::Excluded
    } else if mtime matches Some(t) && !in_time_range(t, options.since, options.until) {
        FileVerdict::OutOfRange
    } else {
        FileVerdict::Keep
    }
}

/// Apply the include, exclude and time filters to the file `file_name` (a basename)
/// whose modification time is `mtime`.
pub fn filter_file(file_name: &str, mtime: Option<i64>, options: &DownloadOptions) -> (r: FileVerdict)
    ensures
        r == file_verdict(file_name@, mtime, *options),
        // A file is kept exactly when it passes the whitelist (if any), escapes the
        // blacklist, and its known time lies in range.
        (r == FileVerdict::Keep) == ((options.include_patterns@.len() == 0
            || matches_any_spec(file_name@, options.include_patterns@, options.ignore_case))
            && !matches_any_spec(file_name@, options.exclude_patterns@, options.ignore_case)
            && (mtime matches Some(t) ==> in_time_range(t, options.since, options.until))),
{
    if options.include_patterns.len() > 0
        && !matches_any_glob(file_name, options.include_patterns.as_slice(), options.ignore_case) {
        return FileVerdict::NotIncluded;
    }
    if matches_any_glob(file_name, options.exclude_patterns.as_slice(), options.ignore_case) {
        return FileVerdict::Excluded;
    }
    if let Some(t) = mtime {
        if !mtime_in_range(t, options.since, options.until) {
            return FileVerdict::OutOfRange;
        }
    }
    FileVerdict::Keep
}

/// What to do with one entry of a remote directory listing.
#[derive(Debug)]
pub enum EntryPlan {
    /// `.`, `..`, or a file the filters drop.
    Skip,
    /// A subdirectory, to be listed in turn.
    Descend(String),
    /// A file to download.
    Fetch {
        remote_path: String,
        /// Path below the remote root; the local path is the local root joined with it.
        relative_path: String,
        file_size: u64,
        mtime: Option<i64>,
    },
}

/// `name` is `.` or `..`.
pub open spec fn is_dot_entry(name: Seq<char>) -> bool {
    name == seq!['.'] || name == seq!['.', '.']
}

fn dot_entry(name: &str) -> (r: bool)
    ensures
        r == is_dot_entry(name@),
{
    let n = name.unicode_len();
    let ghost one = seq!['.'];
    let ghost two = seq!['.', '.'];
    if n == 1 {
        let r = name.get_char(0) == '.';
        assert(r ==> name@ =~= one);
        assert(name@ != two);
        r
    } else if n == 2 {
        let r = name.get_char(0) == '.' && name.get_char(1) == '.';
        assert(r ==> name@ =~= two);
        assert(name@ != one);
        assert(!r ==> name@ != two) by {
            if !r {
                assert(two[0] == '.' && two[1] == '.');
            }
        }
        r
    } else {
        assert(one.len() == 1 && two.len() == 2);
        false
    }
}

/// Of all the names that start with a dot, only `.` and `..` are passed over: a hidden
/// file or directory such as `.bashrc` or `.config` is an entry like any other.
pub proof fn law_hidden_names_are_entries(name: Seq<char>)
    requires
        name.len() >= 1,
        name[0] == '.',
        name.len() != 1,
        !(name.len() == 2 && name[1] == '.'),
    ensures
        !is_dot_entry(name),
{
    let one = seq!['.'];
    let two = seq!['.', '.'];
    assert(name != one) by {
        assert(one.len() == 1);
    }
    assert(name != two) by {
        if name.len() == 2 {
            assert(two[1] == '.');
        }
    }
}

/// Decide what to do with entry `file_name` of the remote directory `current_dir`, while
/// collecting the files below `remote_root` (given without trailing `/`).
pub fn plan_entry(
    current_dir: &str,
    remote_root: &str,
    file_name: &str,
    is_dir: bool,
    size: Option<u64>,
    mtime: Option<i64>,
    options: &DownloadOptions,
) -> (r: EntryPlan)
    ensures
        is_dot_entry(file_name@) ==> r is Skip,
        !is_dot_entry(file_name@) && is_dir ==> (r matches EntryPlan::Descend(full) && full@ == joined(current_dir@, file_name@)),
        !is_dot_entry(file_name@) && !is_dir && file_verdict(file_name@, mtime, *options) != FileVerdict::Keep ==> r is Skip,
        !is_dot_entry(file_name@) && !is_dir && file_verdict(file_name@, mtime, *options) == FileVerdict::Keep ==> (
            r matches EntryPlan::Fetch { remote_path, relative_path, file_size, mtime: t }
            && remote_path@ == joined(current_dir@, file_name@)
            && relative_path@ == relative_to(joined(current_dir@, file_name@), remote_root@)
            && file_size == (match size { Some(z) => z, None => 0 })
            && t == mtime),
        // Only the names `.` and `..` are passed over as such; hidden names are entries.
        file_name@ != seq!['.'] && file_name@ != seq!['.', '.'] && is_dir ==> r is Descend,
        file_name@ != seq!['.'] && file_name@ != seq!['.', '.'] && !is_dir
            && file_verdict(file_name@, mtime, *options) == FileVerdict::Keep ==> r is Fetch,
        is_dir && r is Skip ==> (file_name@ == seq!['.'] || file_name@ == seq!['.', '.']),
{
    if dot_entry(file_name) {
        return EntryPlan::Skip;
    }
    let full_path = join_remote(current_dir, file_name);
    if is_dir {
        return EntryPlan::Descend(full_path);
    }
    if filter_file(file_name, mtime, options) != FileVerdict::Keep {
        return EntryPlan::Skip;
    }
    let relative = relative_path(full_path.as_str(), remote_root);
    let file_size = match size {
        Some(z) => z,
        None => 0,
    };
    EntryPlan::Fetch { remote_path: full_path, relative_path: relative, file_size, mtime }
}

/// Sum of the sizes of `tasks`.
pub open spec fn size_sum(tasks: Seq<DownloadTask>) -> int
    decreases tasks.len(),
{
    if tasks.len() == 0 {
        0
    } else {
        size_sum(tasks.drop_last()) + tasks.last().file_size
    }
}

/// Total size of all tasks.
pub fn total_size(tasks: &Vec<DownloadTask>) -> (r: u64)
    requires
        size_sum(tasks@) <= u64::MAX,
    ensures
        r == size_sum(tasks@),
{
    let mut total: u64 = 0;
    let mut i: usize = 0;
    while i < tasks.len()
        invariant
            i <= tasks@.len(),
            size_sum(tasks@) <= u64::MAX,
            total == size_sum(tasks@.subrange(0, i as int)),
        decreases tasks@.len() - i,
    {
        proof {
            assert(tasks@.subrange(0, i + 1).drop_last() =~= tasks@.subrange(0, i as int));
            lemma_size_sum_prefix(tasks@, i + 1);
        }
        total = total + tasks[i].file_size;
        i += 1;
    }
    assert(tasks@.subrange(0, i as int) =~= tasks@);
    total
}

proof fn lemma_size_sum_prefix(tasks: Seq<DownloadTask>, k: int)
    requires
        0 <= k <= tasks.len(),
    ensures
        size_sum(tasks.subrange(0, k)) <= size_sum(tasks),
    decreases tasks.len(),
{
    if k < tasks.len() {
        assert(tasks.drop_last().subrange(0, k) =~= tasks.subrange(0, k));
        lemma_size_sum_prefix(tasks.drop_last(), k);
    } else {
        assert(tasks.subrange(0, k) =~= tasks);
    }
}

/// How a single-file download starts, given the size of the local file (`None` when
/// there is none).
#[derive(Debug, Clone, Copy, PartialEq, Eq, Structural)]
pub enum FilePlan {
    /// Nothing to fetch: the local file is kept as it is (skipping an existing file, or
    /// resuming one that already holds the whole remote file); its size is reported.
    AlreadyComplete(u64),
    /// Append to the local file, reading from this offset.
    ResumeFrom(u64),
    /// Create the local file (and its parent directories) and read from the start.
    Fresh,
}

/// Decide how to start downloading a file of `file_size` bytes: `--skip` leaves any
/// existing local file alone, `--resume` continues a shorter one, and by default the
/// file is overwritten.
pub fn plan_file(local_size: Option<u64>, file_size: u64, skip_existing: bool, resume: bool) -> (r: FilePlan)
    ensures
        r == (match local_size {
            Some(existing) => if skip_existing && !resume {
                FilePlan::AlreadyComplete(existing)
            } else if resume && existing >= file_size {
                FilePlan::AlreadyComplete(existing)
            } else if resume {
                FilePlan::ResumeFrom(existing)
            } else {
                FilePlan::Fresh
            },
            None => FilePlan::Fresh,
        }),
        // Skipping (without resuming) never touches an existing file.
        skip_existing && !resume && local_size is Some ==> r == FilePlan::AlreadyComplete(local_size->0),
{
    if let Some(existing) = local_size {
        if skip_existing && !resume {
            return FilePlan::AlreadyComplete(existing);
        }
        if resume {
            if existing >= file_size {
                return FilePlan::AlreadyComplete(existing);
            }
            return FilePlan::ResumeFrom(existing);
        }
    }
    FilePlan::Fresh
}

/// Progress of reading a remote file of `file_size` bytes in chunks.
#[derive(Debug)]
pub struct FileTransfer {
    pub offset: u64,
    pub file_size: u64,
}

impl FileTransfer {
    /// Start at `offset` (0, or where a resumed download left off).
    pub fn new(offset: u64, file_size: u64) -> (r: Self)
        ensures
            r.offset == offset,
            r.file_size == file_size,
    {
        FileTransfer { offset, file_size }
    }

    /// Whether reading goes on: bytes remain.
    pub fn wants_more(&self) -> (r: bool)
        ensures
            r == (self.offset < self.file_size),
    {
        self.offset < self.file_size
    }

    /// How many bytes to ask for next: a chunk, or what remains if that is less.
    pub fn next_read_len(&self) -> (r: usize)
        requires
            self.offset < self.file_size,
        ensures
            r as int == (if self.file_size - self.offset < CHUNK_SIZE { self.file_size - self.offset } else { CHUNK_SIZE as int }),
            0 < r <= CHUNK_SIZE,
    {
        let remaining = self.file_size - self.offset;
        if remaining < CHUNK_SIZE as u64 {
            remaining as usize
        } else {
            CHUNK_SIZE
        }
    }

    /// Account for `bytes_read` bytes received; returns whether to flush now.
    pub fn advance(&mut self, bytes_read: usize) -> (flush: bool)
        requires
            old(self).offset + bytes_read <= old(self).file_size,
        ensures
            final(self).offset == old(self).offset + bytes_read,
            final(self).file_size == old(self).file_size,
            final(self).offset <= final(self).file_size,
            flush == (final(self).offset % FLUSH_INTERVAL == 0),
    {
        self.offset = self.offset + bytes_read as u64;
        self.offset % FLUSH_INTERVAL == 0
    }
}

/// `s` cut to at most `max_len` bytes: unchanged when it fits, else `...` followed by its
/// last `max_len - 3` bytes.
pub open spec fn truncated(s: &str, max_len: usize) -> Seq<char> {
    let len = s.spec_bytes().len();
    if len <= max_len {
        s@
    } else {
        seq!['.', '.', '.'] + decode_utf8(s.spec_bytes().subrange(len - (max_len - 3), len as int))
    }
}

/// `truncate_str` can cut `s` there: it fits, or the cut falls on a character boundary
/// and leaves room for `...` (its byte length fits in memory, as that of any `str`).
pub open spec fn truncatable(s: &str, max_len: usize) -> bool {
    let len = s.spec_bytes().len();
    &&& len <= usize::MAX
    &&& len > max_len ==> (max_len >= 3 && vstd::utf8::is_char_boundary(s.spec_bytes(), len - (max_len - 3)))
}

/// Shorten `s` for display.
pub fn truncate_str(s: &str, max_len: usize) -> (r: String)
    requires
        truncatable(s, max_len),
    ensures
        r@ == truncated(s, max_len),
{
    let len = s.len();
    if len <= max_len {
        String::from_str(s)
    } else {
        let (_, tail) = s.split_at(len - (max_len - 3));
        proof {
            vstd::utf8::encode_utf8_decode_utf8(tail@);
            reveal_strlit("...");
        }
        let mut r = String::from_str("...");
        r.append(tail);
        r
    }
}

/// Percentage of `size` that `transferred` is (100 for an empty file).
pub open spec fn percent_of(size: u64, transferred: u64) -> int {
    if size > 0 { (transferred * 100) / (size as int) } else { 100 }
}

fn percent(size: u64, transferred: u64) -> (r: u64)
    requires
        size == 0 || transferred * 100 <= u64::MAX,
    ensures
        r == percent_of(size, transferred),
{
    if size > 0 { transferred * 100 / size } else { 100 }
}

/// `(current/total) `.
pub open spec fn counter_text(current: usize, total: usize) -> Seq<char> {
    seq!['('] + decimal(current as nat) + seq!['/'] + decimal(total as nat) + seq![')', ' ']
}

/// The speed text: the human-readable rate with `/s`, or `none` when unknown.
pub open spec fn speed_text(speed: Option<u64>, none: Seq<char>) -> Seq<char> {
    match speed {
        Some(s) => human_bytes(s) + seq!['/', 's'],
        None => none,
    }
}

fn counter_string(current: usize, total: usize) -> (r: String)
    ensures
        r@ == counter_text(current, total),
{
    proof {
        reveal_strlit("(");
        reveal_strlit("/");
        reveal_strlit(") ");
    }
    let mut r = String::from_str("(");
    r.append(decimal_string(current as u64).as_str());
    r.append("/");
    r.append(decimal_string(total as u64).as_str());
    r.append(") ");
    r
}

fn speed_string(speed: Option<u64>, none: &str) -> (r: String)
    ensures
        r@ == speed_text(speed, none@),
{
    proof {
        reveal_strlit("/s");
    }
    match speed {
        Some(s) => {
            let mut r = format_bytes(s);
            r.append("/s");
            r
        },
        None => String::from_str(none),
    }
}

/// The line printed for a finished single-file download.
pub open spec fn file_result_text(current: usize, total: usize, name: &str, size: u64, transferred: u64, speed: Option<u64>) -> Seq<char> {
    counter_text(current, total) + pad_right_spec(truncated(name, 30), 30) + seq![' ']
        + pad_left_spec(human_bytes(transferred), 10) + seq![' ', ' ']
        + pad_left_spec(decimal(percent_of(size, transferred) as nat), 3) + seq!['%', ' ', ' ']
        + speed_text(speed, seq!['N', '/', 'A'])
}

/// `(current/total) name  size  percent%  speed`, the name cut to 30 bytes and padded.
pub fn format_file_result(current: usize, total: usize, name: &str, size: u64, transferred: u64, speed: Option<u64>) -> (r: String)
    requires
        size == 0 || transferred * 100 <= u64::MAX,
        truncatable(name, 30),
    ensures
        r@ == file_result_text(current, total, name, size, transferred, speed),
{
    proof {
        reveal_strlit(" ");
        reveal_strlit("  ");
        reveal_strlit("%  ");
        reveal_strlit("N/A");
    }
    let p = percent(size, transferred);
    let mut r = counter_string(current, total);
    r.append(pad_right(truncate_str(name, 30).as_str(), 30).as_str());
    r.append(" ");
    r.append(pad_left(format_bytes(transferred).as_str(), 10).as_str());
    r.append("  ");
    r.append(pad_left(decimal_string(p).as_str(), 3).as_str());
    r.append("%  ");
    r.append(speed_string(speed, "N/A").as_str());
    r
}

/// The label of a file's progress line while a directory downloads: `(order/total) `
/// followed by the name cut to 28 bytes and padded to 28 characters.
pub open spec fn progress_prefix_text(order: usize, total: usize, name: &str) -> Seq<char> {
    counter_text(order, total) + pad_right_spec(truncated(name, 28), 28)
}

/// Build the progress line label of one file.
pub fn progress_prefix(order: usize, total: usize, name: &str) -> (r: String)
    requires
        truncatable(name, 28),
    ensures
        r@ == progress_prefix_text(order, total, name),
{
    let mut r = counter_string(order, total);
    r.append(pad_right(truncate_str(name, 28).as_str(), 28).as_str());
    r
}

/// The line that replaces a file's progress bar when it is done.
pub open spec fn finish_line_text(prefix: Seq<char>, size: u64, transferred: u64, speed: Option<u64>) -> Seq<char> {
    prefix + seq![' '] + pad_left_spec(human_bytes(transferred), 10) + seq![' ', ' ']
        + pad_left_spec(decimal(percent_of(size, transferred) as nat), 3) + seq!['%', ' ', ' ']
        + speed_text(speed, seq!['-'])
}

/// `prefix size  percent%  speed` for a finished file of a directory download.
pub fn finish_line(prefix: &str, size: u64, transferred: u64, speed: Option<u64>) -> (r: String)
    requires
        size == 0 || transferred * 100 <= u64::MAX,
    ensures
        r@ == finish_line_text(prefix@, size, transferred, speed),
{
    proof {
        reveal_strlit(" ");
        reveal_strlit("  ");
        reveal_strlit("%  ");
        reveal_strlit("-");
    }
    let p = percent(size, transferred);
    let mut r = String::from_str(prefix);
    r.append(" ");
    r.append(pad_left(format_bytes(transferred).as_str(), 10).as_str());
    r.append("  ");
    r.append(pad_left(decimal_string(p).as_str(), 3).as_str());
    r.append("%  ");
    r.append(speed_string(speed, "-").as_str());
    r
}
} // verus!
