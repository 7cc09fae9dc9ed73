//! The host's log files: when they are rotated and which archives go.

use crate::ordering;
use crate::ordering::order_by_key;
use crate::text;
use crate::text::{push_decimal, starts_with, to_chars};
use vstd::prelude::*;
use vstd::string::*;

verus! {

/// One MiB.
pub const MB: u64 = 1_048_576;

/// The seconds of a day.
pub const DAY: u64 = 86_400;

/// How the host logs.
#[derive(Debug, Clone)]
pub struct HostLoggingConfig {
    pub level: String,
    pub max_file_size_mb: u64,
    /// How many archives are kept.
    pub max_files: usize,
    /// How long archives are kept, zero for ever.
    pub max_age_days: u64,
}

impl HostLoggingConfig {
    /// The values that are used unless told otherwise.
    pub open spec fn is_default(self) -> bool {
        &&& self.level@ == "info"@
        &&& self.max_file_size_mb == 8
        &&& self.max_files == 5
        &&& self.max_age_days == 7
    }

    /// The size that a log file is kept below.
    pub open spec fn limit(self) -> nat {
        let size = self.max_file_size_mb as nat * MB as nat;
        if size > u64::MAX {
            u64::MAX as nat
        } else if size < MB {
            MB as nat
        } else {
            size
        }
    }
}

impl Default for HostLoggingConfig {
    fn default() -> (r: Self)
        ensures
            r.is_default(),
    {
        HostLoggingConfig {
            level: "info".to_owned(),
            max_file_size_mb: 8,
            max_files: 5,
            max_age_days: 7,
        }
    }
}

/// The product of two numbers, the largest number if it is larger.
fn times(a: u64, b: u64) -> (r: u64)
    ensures
        r == (if a * b > u64::MAX {
            u64::MAX as int
        } else {
            a * b
        }),
{
    match a.checked_mul(b) {
        Some(n) => n,
        None => u64::MAX,
    }
}

impl HostLoggingConfig {
    /// The size that a log file is kept below.
    pub fn max_bytes(&self) -> (n: u64)
        ensures
            n == self.limit(),
    {
        let size: u64 = times(self.max_file_size_mb, MB);
        if size < MB {
            MB
        } else {
            size
        }
    }

    /// Whether the log file is rotated before `incoming_len` more bytes are
    /// written to it.
    pub fn rotates(&self, current_size: u64, incoming_len: usize) -> (r: bool)
        ensures
            r == (current_size + incoming_len >= self.limit()),
    {
        !(current_size.saturating_add(incoming_len as u64) < self.max_bytes())
    }

    /// The age in seconds from which on an archive goes, if there is one.
    pub fn retention(&self) -> (r: Option<u64>)
        ensures
            r == (if self.max_age_days == 0 {
                None
            } else if self.max_age_days * DAY > u64::MAX {
                Some(u64::MAX)
            } else {
                Some((self.max_age_days * DAY) as u64)
            }),
    {
        if self.max_age_days == 0 {
            None
        } else {
            Some(times(self.max_age_days, DAY))
        }
    }
}

/// The name of the archive made at `secs` after the Unix epoch.
pub fn rotated_name(base: &str, secs: u64) -> (s: String)
    ensures
        s@ == base@ + "."@ + text::decimal(secs as nat),
{
    let mut s = base.to_owned();
    s.append(".");
    push_decimal(&mut s, secs as u128);
    s
}

/// The name of the file that is written to while the log file is replaced.
pub fn placeholder_name(base: &str) -> (s: String)
    ensures
        s@ == base@ + ".active"@,
{
    let mut s = base.to_owned();
    s.append(".active");
    s
}

/// A file in the directory of the log file.
#[derive(Debug, Clone)]
pub struct LogFile {
    pub name: String,
    /// Nanoseconds from the Unix epoch to the last change, if they are known.
    pub modified: Option<i128>,
}

/// Whether a file is an archive of the log file `base`.
pub open spec fn is_archive(f: LogFile, base: Seq<char>) -> bool {
    text::begins(f.name@, base + "."@)
}

/// Whether a name is that of an archive of the log file `base`.
pub fn names_archive(name: &str, base: &str) -> (r: bool)
    ensures
        r == text::begins(name@, base@ + "."@),
{
    let mut prefix = base.to_owned();
    prefix.append(".");
    starts_with(to_chars(name).as_slice(), prefix.as_str())
}

/// Whether a file has been changed before `cutoff` and not since.
pub open spec fn is_expired(f: LogFile, cutoff: Option<i128>) -> bool {
    match (cutoff, f.modified) {
        (Some(c), Some(m)) => m < c,
        _ => false,
    }
}

/// When a file was changed, the Unix epoch if that is not known.
pub open spec fn changed(f: LogFile) -> i128 {
    match f.modified {
        Some(m) => m,
        None => 0,
    }
}

/// The positions of the archives among `files` that are expired, or that are
/// not.
pub open spec fn archives(
    files: Seq<LogFile>,
    base: Seq<char>,
    cutoff: Option<i128>,
    expired: bool,
) -> Seq<usize>
    decreases files.len(),
{
    if files.len() == 0 {
        Seq::empty()
    } else {
        let rest = archives(files.drop_last(), base, cutoff, expired);
        if is_archive(files.last(), base) && is_expired(files.last(), cutoff) == expired {
            rest.push((files.len() - 1) as usize)
        } else {
            rest
        }
    }
}

/// When the files at the given positions were changed.
pub open spec fn ages(files: Seq<LogFile>, at: Seq<usize>) -> Seq<i128> {
    at.map_values(|i: usize| changed(files[i as int]))
}

/// How many of `n` archives are too many.
pub open spec fn surplus(n: nat, max_files: usize) -> nat {
    if n > max_files {
        (n - max_files) as nat
    } else {
        0
    }
}

/// The first `n` of `at`, in the given order.
pub open spec fn leading(at: Seq<usize>, order: Seq<usize>, n: nat) -> Seq<usize> {
    Seq::new(n, |k: int| at[order[k] as int])
}

/// `gone` are the positions of the archives that go, by `order`: those that
/// are expired, then the oldest of the others that are too many.
pub open spec fn pruned(
    files: Seq<LogFile>,
    base: Seq<char>,
    cutoff: Option<i128>,
    max_files: usize,
    order: Seq<usize>,
    gone: Seq<usize>,
) -> bool {
    let live = archives(files, base, cutoff, false);
    &&& ordering::stable_order(ages(files, live), order)
    &&& gone == archives(files, base, cutoff, true) + leading(
        live,
        order,
        surplus(live.len(), max_files),
    )
}

proof fn lemma_archives(files: Seq<LogFile>, base: Seq<char>, cutoff: Option<i128>, expired: bool)
    requires
        files.len() <= usize::MAX,
    ensures
        archives(files, base, cutoff, expired).len() <= files.len(),
        forall|i: int|
            0 <= i < archives(files, base, cutoff, expired).len() ==> {
                let p = #[trigger] archives(files, base, cutoff, expired)[i] as int;
                &&& p < files.len()
                &&& is_archive(files[p], base)
                &&& is_expired(files[p], cutoff) == expired
            },
    decreases files.len(),
{
    if files.len() > 0 {
        lemma_archives(files.drop_last(), base, cutoff, expired);
        let rest = archives(files.drop_last(), base, cutoff, expired);
        let all = archives(files, base, cutoff, expired);
        assert forall|i: int| 0 <= i < all.len() implies {
            let p = #[trigger] all[i] as int;
            &&& p < files.len()
            &&& is_archive(files[p], base)
            &&& is_expired(files[p], cutoff) == expired
        } by {
            if i < rest.len() {
                assert(all[i] == rest[i]);
                assert(files.drop_last()[rest[i] as int] == files[rest[i] as int]);
            }
        }
    }
}

impl HostLoggingConfig {
    /// The positions of the archives of the log file `base` that go, in the
    /// order in which they go.
    pub fn doomed_archives(&self, base: &str, files: &Vec<LogFile>, cutoff: Option<i128>)
        -> (gone: Vec<usize>)
        ensures
            exists|order: Seq<usize>| #[trigger]
                pruned(files@, base@, cutoff, self.max_files, order, gone@),
    {
        let mut gone: Vec<usize> = Vec::new();
        let mut live: Vec<usize> = Vec::new();
        let mut keys: Vec<i128> = Vec::new();
        let mut i: usize = 0;
        while i < files.len()
            invariant
                i <= files@.len(),
                gone@ == archives(files@.take(i as int), base@, cutoff, true),
                live@ == archives(files@.take(i as int), base@, cutoff, false),
                keys@ =~= ages(files@, live@),
            decreases files@.len() - i,
        {
            assert(files@.take(i as int + 1).drop_last() =~= files@.take(i as int));
            assert(files@.take(i as int + 1).last() == files@[i as int]);
            let f = &files[i];
            if names_archive(f.name.as_str(), base) {
                let expired = match (cutoff, f.modified) {
                    (Some(c), Some(m)) => m < c,
                    _ => false,
                };
                if expired {
                    gone.push(i);
                } else {
                    live.push(i);
                    keys.push(
                        match f.modified {
                            Some(m) => m,
                            None => 0,
                        },
                    );
                }
            }
            i = i + 1;
        }
        assert(files@.take(i as int) =~= files@);
        let ghost expired = gone@;
        let order = order_by_key(keys.as_slice());
        let mut n: usize = 0;
        assert(gone@ =~= expired + leading(live@, order@, 0));
        while live.len() - n > self.max_files
            invariant
                n <= live@.len(),
                order@.len() == live@.len(),
                forall|k: int| 0 <= k < order@.len() ==> (#[trigger] order@[k]) < live@.len(),
                n <= surplus(live@.len(), self.max_files),
                gone@ =~= expired + leading(live@, order@, n as nat),
            decreases live@.len() - n,
        {
            gone.push(live[order[n]]);
            n = n + 1;
        }
        assert(n == surplus(live@.len(), self.max_files));
        assert(pruned(files@, base@, cutoff, self.max_files, order@, gone@));
        gone
    }
}

proof fn lemma_archives_ascend(
    files: Seq<LogFile>,
    base: Seq<char>,
    cutoff: Option<i128>,
    expired: bool,
)
    requires
        files.len() <= usize::MAX,
    ensures
        forall|i: int, j: int|
            0 <= i < j < archives(files, base, cutoff, expired).len() ==> (
            #[trigger] archives(files, base, cutoff, expired)[i]) < (
            #[trigger] archives(files, base, cutoff, expired)[j]),
    decreases files.len(),
{
    if files.len() > 0 {
        lemma_archives_ascend(files.drop_last(), base, cutoff, expired);
        lemma_archives(files.drop_last(), base, cutoff, expired);
    }
}

/// Each archive that goes does so once, and no more are left than are kept.
pub proof fn archives_stay_bounded(
    files: Seq<LogFile>,
    base: Seq<char>,
    cutoff: Option<i128>,
    max_files: usize,
    order: Seq<usize>,
    gone: Seq<usize>,
)
    requires
        files.len() <= usize::MAX,
        pruned(files, base, cutoff, max_files, order, gone),
    ensures
        gone.no_duplicates(),
        archives(files, base, cutoff, true).len() + archives(files, base, cutoff, false).len()
            - gone.len() <= max_files,
        // no more go than have to
        ({
            let expired = archives(files, base, cutoff, true).len();
            let live = archives(files, base, cutoff, false).len();
            &&& live >= max_files ==> expired + live - gone.len() == max_files
            &&& live <= max_files ==> gone.len() == expired
        }),
{
    let expired = archives(files, base, cutoff, true);
    let live = archives(files, base, cutoff, false);
    let n = expired.len() as int;
    lemma_archives(files, base, cutoff, true);
    lemma_archives(files, base, cutoff, false);
    lemma_archives_ascend(files, base, cutoff, true);
    lemma_archives_ascend(files, base, cutoff, false);
    assert forall|i: int, j: int| 0 <= i < j < gone.len() implies gone[i] != gone[j] by {
        if j < n {
            assert(gone[i] == expired[i] && gone[j] == expired[j]);
        } else if i < n {
            assert(gone[i] == expired[i] && gone[j] == live[order[j - n] as int]);
        } else {
            let a = order[i - n];
            let b = order[j - n];
            assert(ordering::before(ages(files, live), a, b));
            assert(gone[i] == live[a as int] && gone[j] == live[b as int]);
            assert(a != b);
        }
    }
}

/// The archives that are too many are no younger than those that stay.
pub proof fn oldest_archives_go_first(
    files: Seq<LogFile>,
    base: Seq<char>,
    cutoff: Option<i128>,
    max_files: usize,
    order: Seq<usize>,
    gone: Seq<usize>,
    i: int,
    j: int,
)
    requires
        pruned(files, base, cutoff, max_files, order, gone),
        0 <= i < surplus(archives(files, base, cutoff, false).len(), max_files) <= j,
        j < order.len(),
    ensures
        ({
            let live = archives(files, base, cutoff, false);
            changed(files[live[order[i] as int] as int]) <= changed(
                files[live[order[j] as int] as int],
            )
        }),
{
    let live = archives(files, base, cutoff, false);
    assert(ordering::before(ages(files, live), order[i], order[j]));
}

/// Nothing goes but archives of the log file.
pub proof fn only_archives_go(
    files: Seq<LogFile>,
    base: Seq<char>,
    cutoff: Option<i128>,
    max_files: usize,
    order: Seq<usize>,
    gone: Seq<usize>,
    k: int,
)
    requires
        files.len() <= usize::MAX,
        pruned(files, base, cutoff, max_files, order, gone),
        0 <= k < gone.len(),
    ensures
        gone[k] < files.len(),
        is_archive(files[gone[k] as int], base),
{
    lemma_archives(files, base, cutoff, true);
    lemma_archives(files, base, cutoff, false);
    let expired = archives(files, base, cutoff, true);
    let live = archives(files, base, cutoff, false);
    if k < expired.len() {
        assert(gone[k] == expired[k]);
    } else {
        let p = order[k - expired.len()];
        assert(gone[k] == live[p as int]);
    }
}

/// A log file may always grow to one MiB.
pub proof fn limit_is_at_least_one_megabyte(cfg: HostLoggingConfig)
    ensures
        MB <= cfg.limit() <= u64::MAX,
{
}

/// Every archive that was last changed before the cutoff goes.
pub proof fn expired_archives_go(
    files: Seq<LogFile>,
    base: Seq<char>,
    cutoff: i128,
    max_files: usize,
    order: Seq<usize>,
    gone: Seq<usize>,
    p: usize,
)
    requires
        files.len() <= usize::MAX,
        pruned(files, base, Some(cutoff), max_files, order, gone),
        p < files.len(),
        text::begins(files[p as int].name@, base + "."@),
        files[p as int].modified matches Some(m) && m < cutoff,
    ensures
        gone.contains(p),
{
    lemma_listed(files, base, Some(cutoff), true, p);
    let expired = archives(files, base, Some(cutoff), true);
    let i = choose|i: int| 0 <= i < expired.len() && expired[i] == p;
    assert(gone[i] == p);
}

proof fn lemma_listed(
    files: Seq<LogFile>,
    base: Seq<char>,
    cutoff: Option<i128>,
    expired: bool,
    p: usize,
)
    requires
        files.len() <= usize::MAX,
        p < files.len(),
        is_archive(files[p as int], base),
        is_expired(files[p as int], cutoff) == expired,
    ensures
        archives(files, base, cutoff, expired).contains(p),
    decreases files.len(),
{
    let all = archives(files, base, cutoff, expired);
    if p == files.len() - 1 {
        assert(all.last() == p);
    } else {
        lemma_listed(files.drop_last(), base, cutoff, expired, p);
        let rest = archives(files.drop_last(), base, cutoff, expired);
        let i = choose|i: int| 0 <= i < rest.len() && rest[i] == p;
        assert(all[i] == p);
    }
}

/// Where all archives are young enough and no more than are kept, all of them
/// stay. A file whose last change is not known does not expire.
pub proof fn young_archives_stay(
    files: Seq<LogFile>,
    base: Seq<char>,
    cutoff: Option<i128>,
    max_files: usize,
    order: Seq<usize>,
    gone: Seq<usize>,
)
    requires
        files.len() <= usize::MAX,
        files.len() <= max_files,
        pruned(files, base, cutoff, max_files, order, gone),
        forall|i: int|
            0 <= i < files.len() && cutoff is Some && (#[trigger] files[i]).modified is Some ==> (
            files[i].modified->0 >= cutoff->0),
    ensures
        gone.len() == 0,
{
    lemma_archives(files, base, cutoff, true);
    lemma_archives(files, base, cutoff, false);
    let expired = archives(files, base, cutoff, true);
    if expired.len() > 0 {
        let f = files[expired[0] as int];
        assert(is_expired(f, cutoff));
    }
}

/// What is written without a rotation leaves the file below its limit, and a
/// file is never rotated for less.
pub proof fn file_stays_below_its_limit(cfg: HostLoggingConfig)
    ensures
        cfg.max_file_size_mb <= 1 ==> cfg.limit() == 1024 * 1024,
        1 <= cfg.max_file_size_mb && cfg.max_file_size_mb * 1024 * 1024 <= u64::MAX ==> cfg.limit()
            == cfg.max_file_size_mb * 1024 * 1024,
        cfg.max_file_size_mb * 1024 * 1024 > u64::MAX ==> cfg.limit() == u64::MAX,
{
}

/// What is written without a rotation leaves the file below its limit, and
/// nothing is rotated that would.
pub proof fn rotation_keeps_the_file_below_its_limit(
    cfg: &HostLoggingConfig,
    size: u64,
    incoming: usize,
    rotates: bool,
    limit: u64,
)
    requires
        call_ensures(HostLoggingConfig::rotates, (cfg, size, incoming), rotates),
        call_ensures(HostLoggingConfig::max_bytes, (cfg,), limit),
    ensures
        !rotates <==> size + incoming < limit,
        limit >= 1024 * 1024,
{
}

/// Archives are kept for as many days of 86400 seconds as are given, and for
/// ever if that is none.
pub proof fn archives_are_kept_for_days(cfg: &HostLoggingConfig, r: Option<u64>)
    requires
        call_ensures(HostLoggingConfig::retention, (cfg,), r),
    ensures
        r is None <==> cfg.max_age_days == 0,
        r is Some && cfg.max_age_days <= 200_000_000_000_000 ==> r->0 == cfg.max_age_days * 86400,
{
}

/// A rotated file is an archive of its log file, and one of another second has
/// another name.
pub proof fn rotated_files_are_archives(
    base: &str,
    a: u64,
    b: u64,
    first: String,
    second: String,
    placeholder: String,
)
    requires
        call_ensures(rotated_name, (base, a), first),
        call_ensures(rotated_name, (base, b), second),
        call_ensures(placeholder_name, (base,), placeholder),
    ensures
        text::begins(first@, base@ + "."@),
        a != b ==> first@ != second@,
        placeholder@ != first@,
{
    let prefix = base@ + "."@;
    reveal_strlit(".");
    reveal_strlit(".active");
    text::lemma_decimal(a as nat);
    text::lemma_decimal(b as nat);
    assert(first@.take(prefix.len() as int) =~= prefix);
    assert(first@.skip(prefix.len() as int) =~= text::decimal(a as nat));
    assert(second@.skip(prefix.len() as int) =~= text::decimal(b as nat));
    if placeholder@ == first@ {
        assert(first@[prefix.len() as int] == text::decimal(a as nat)[0]);
        assert(text::is_digit(text::decimal(a as nat)[0]));
        assert(placeholder@[prefix.len() as int] == ".active"@[1]);
    }
}

/// An archive whose last change is not known counts as changed at the Unix
/// epoch, so that it goes before all that were changed since.
pub proof fn unknown_changes_count_as_oldest(f: LogFile, g: LogFile)
    requires
        f.modified is None,
    ensures
        g.modified matches Some(m) ==> (m >= 0 <==> changed(f) <= changed(g)) && changed(g) == m,
        g.modified is None ==> changed(f) == changed(g),
        forall|cutoff: Option<i128>| !is_expired(f, cutoff),
{
}

} // verus!
