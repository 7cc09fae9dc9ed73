//! What the kernel tells of memory, CPU and disks under `/proc`.

use crate::binary;
use crate::binary::Single;
use crate::guest_local::GuestLocalMetrics;
use crate::number_laws;
use crate::text;
use crate::text::{parse_number, pieces, same, starts_with, to_chars, tokens};
use vstd::prelude::*;

verus! {

/// The number that a word writes, zero if it writes none.
pub open spec fn value(word: Seq<char>) -> nat {
    match text::number(word, u64::MAX as nat) {
        Some(n) => n,
        None => 0,
    }
}

/// The number that a word writes, zero if it writes none.
fn value_of(word: &[char]) -> (n: u64)
    ensures
        n == value(word@),
{
    match parse_number(word, u64::MAX) {
        Some(n) => n,
        None => 0,
    }
}

/// The lines of a text.
pub open spec fn lines(s: Seq<char>) -> Seq<Seq<char>> {
    text::split(s, '\n')
}

/// The size, in bytes, that a line gives in KiB behind the name `key`.
pub open spec fn entry(line: Seq<char>, key: Seq<char>) -> Option<nat> {
    let w = text::words(line);
    if w.len() >= 2 && w[0] == key {
        Some(value(w[1]) * 1024)
    } else {
        None
    }
}

/// The size that the last of the lines on `key` gives, zero if there is none.
pub open spec fn field(ls: Seq<Seq<char>>, key: Seq<char>) -> nat
    decreases ls.len(),
{
    if ls.len() == 0 {
        0
    } else {
        match entry(ls.last(), key) {
            Some(n) => n,
            None => field(ls.drop_last(), key),
        }
    }
}

/// The size of a line can be counted in bytes.
pub open spec fn line_fits(line: Seq<char>) -> bool {
    let w = text::words(line);
    w.len() >= 2 ==> value(w[1]) * 1024 <= u64::MAX
}

/// The sizes of `/proc/meminfo` can be counted in bytes.
pub open spec fn meminfo_fits(s: Seq<char>) -> bool {
    let ls = lines(s);
    &&& forall|i: int| 0 <= i < ls.len() ==> line_fits(#[trigger] ls[i])
    &&& field(ls, "Cached:"@) + field(ls, "SReclaimable:"@) + field(ls, "Buffers:"@) <= u64::MAX
}

/// What `/proc/meminfo` tells, in bytes.
#[derive(Debug, Clone, Copy)]
pub struct MemInfo {
    pub total: u64,
    pub available: u64,
    pub free: u64,
    pub cached: u64,
    pub s_reclaimable: u64,
    pub buffers: u64,
}

impl MemInfo {
    /// These are the sizes that the lines give.
    pub open spec fn of(self, ls: Seq<Seq<char>>) -> bool {
        &&& self.total == field(ls, "MemTotal:"@)
        &&& self.available == field(ls, "MemAvailable:"@)
        &&& self.free == field(ls, "MemFree:"@)
        &&& self.cached == field(ls, "Cached:"@)
        &&& self.s_reclaimable == field(ls, "SReclaimable:"@)
        &&& self.buffers == field(ls, "Buffers:"@)
    }
}

/// The names of the fields differ.
proof fn lemma_names_differ()
    ensures
        "MemTotal:"@ != "MemAvailable:"@,
        "MemTotal:"@ != "MemFree:"@,
        "MemTotal:"@ != "Cached:"@,
        "MemTotal:"@ != "SReclaimable:"@,
        "MemTotal:"@ != "Buffers:"@,
        "MemAvailable:"@ != "MemFree:"@,
        "MemAvailable:"@ != "Cached:"@,
        "MemAvailable:"@ != "SReclaimable:"@,
        "MemAvailable:"@ != "Buffers:"@,
        "MemFree:"@ != "Cached:"@,
        "MemFree:"@ != "SReclaimable:"@,
        "MemFree:"@ != "Buffers:"@,
        "Cached:"@ != "SReclaimable:"@,
        "Cached:"@ != "Buffers:"@,
        "SReclaimable:"@ != "Buffers:"@,
{
    reveal_strlit("MemTotal:");
    reveal_strlit("MemAvailable:");
    reveal_strlit("MemFree:");
    reveal_strlit("Cached:");
    reveal_strlit("SReclaimable:");
    reveal_strlit("Buffers:");
    assert("MemTotal:"@.len() == 9);
    assert("MemAvailable:"@.len() == 13);
    assert("MemFree:"@.len() == 8);
    assert("Cached:"@.len() == 7);
    assert("SReclaimable:"@.len() == 13);
    assert("Buffers:"@.len() == 8);
    assert("MemAvailable:"@[0] == 'M');
    assert("SReclaimable:"@[0] == 'S');
    assert("MemFree:"@[0] == 'M');
    assert("Buffers:"@[0] == 'B');
}

/// Reads `/proc/meminfo`.
pub fn read_meminfo(s: &str) -> (m: MemInfo)
    requires
        forall|i: int| 0 <= i < lines(s@).len() ==> line_fits(#[trigger] lines(s@)[i]),
    ensures
        m.of(lines(s@)),
{
    let chars = to_chars(s);
    let ls = pieces(chars.as_slice(), '\n');
    let ghost all = lines(s@);
    let mut m = MemInfo {
        total: 0,
        available: 0,
        free: 0,
        cached: 0,
        s_reclaimable: 0,
        buffers: 0,
    };
    let mut i: usize = 0;
    while i < ls.len()
        invariant
            i <= ls@.len(),
            text::contents(ls@) == all,
            forall|j: int| 0 <= j < all.len() ==> line_fits(#[trigger] all[j]),
            m.of(all.take(i as int)),
        decreases ls@.len() - i,
    {
        let w = tokens(ls[i]);
        proof {
            let upto = all.take(i as int + 1);
            assert(all[i as int] == ls@[i as int]@);
            assert(upto.last() == ls@[i as int]@);
            assert(upto.drop_last() =~= all.take(i as int));
            assert(line_fits(all[i as int]));
            lemma_names_differ();
        }
        if w.len() >= 2 {
            proof {
                assert(text::words(ls@[i as int]@)[0] == w@[0]@);
                assert(text::words(ls@[i as int]@)[1] == w@[1]@);
            }
            let val: u64 = value_of(w[1]) * 1024;
            if same(w[0], "MemTotal:") {
                m.total = val;
            } else if same(w[0], "MemAvailable:") {
                m.available = val;
            } else if same(w[0], "MemFree:") {
                m.free = val;
            } else if same(w[0], "Cached:") {
                m.cached = val;
            } else if same(w[0], "SReclaimable:") {
                m.s_reclaimable = val;
            } else if same(w[0], "Buffers:") {
                m.buffers = val;
            }
        }
        i = i + 1;
    }
    assert(all.take(i as int) =~= all);
    m
}

/// What is left of `a` when `b` is taken away, nothing if `b` is larger.
pub open spec fn minus(a: nat, b: nat) -> nat {
    if a >= b {
        (a - b) as nat
    } else {
        0
    }
}

/// The size of the file cache.
pub open spec fn file_cache(s: Seq<char>) -> nat {
    field(lines(s), "Cached:"@) + field(lines(s), "SReclaimable:"@) + field(lines(s), "Buffers:"@)
}

/// The memory that is in use.
pub open spec fn resident(s: Seq<char>) -> nat {
    minus(field(lines(s), "MemTotal:"@), field(lines(s), "MemFree:"@))
}

/// The memory in use that is no file cache.
pub open spec fn anon(s: Seq<char>) -> nat {
    minus(resident(s), file_cache(s))
}

/// Whether the sizes of `/proc/meminfo` can be counted in bytes.
pub fn check_meminfo(s: &str) -> (r: bool)
    ensures
        r == meminfo_fits(s@),
{
    let chars = to_chars(s);
    let ls = pieces(chars.as_slice(), '\n');
    let ghost all = lines(s@);
    let mut i: usize = 0;
    while i < ls.len()
        invariant
            i <= ls@.len(),
            text::contents(ls@) == all,
            all == lines(s@),
            forall|j: int| 0 <= j < i ==> line_fits(#[trigger] all[j]),
        decreases ls@.len() - i,
    {
        let w = tokens(ls[i]);
        assert(all[i as int] == ls@[i as int]@);
        if w.len() >= 2 {
            assert(text::words(ls@[i as int]@)[1] == w@[1]@);
            if value_of(w[1]) > u64::MAX / 1024 {
                assert(!line_fits(all[i as int]));
                return false;
            }
        }
        assert(line_fits(all[i as int]));
        i = i + 1;
    }
    let m = read_meminfo(s);
    m.cached as u128 + m.s_reclaimable as u128 + m.buffers as u128 <= u64::MAX as u128
}

/// The memory in use, the file cache, and the memory in use that is no file
/// cache, out of `/proc/meminfo`.
pub fn parse_meminfo(s: &str) -> (r: (u64, u64, u64))
    requires
        meminfo_fits(s@),
    ensures
        r.0 == resident(s@),
        r.1 == file_cache(s@),
        r.2 == anon(s@),
{
    let m = read_meminfo(s);
    let file_cache: u64 = m.cached + m.s_reclaimable + m.buffers;
    let resident: u64 = m.total.saturating_sub(m.free);
    (resident, file_cache, resident.saturating_sub(file_cache))
}

/// What the guest's own reclaimer looks at, out of `/proc/meminfo` and two
/// rates.
pub fn local_metrics(s: &str, cpu_percent: Single, io_rate: Single) -> (r: GuestLocalMetrics)
    requires
        meminfo_fits(s@),
    ensures
        r.mem_total == field(lines(s@), "MemTotal:"@),
        r.mem_available == field(lines(s@), "MemAvailable:"@),
        r.file_cache == file_cache(s@),
        r.resident == resident(s@),
        r.cpu_percent == cpu_percent,
        r.io_rate == io_rate,
{
    let m = read_meminfo(s);
    GuestLocalMetrics {
        mem_total: m.total,
        mem_available: m.available,
        file_cache: m.cached + m.s_reclaimable + m.buffers,
        resident: m.total.saturating_sub(m.free),
        cpu_percent,
        io_rate,
    }
}

/// The number in the `i`th word, zero if there is none.
pub open spec fn word_value(w: Seq<Seq<char>>, i: int) -> nat {
    if 0 <= i < w.len() {
        value(w[i])
    } else {
        0
    }
}

/// The ticks of CPU time that the words of the `cpu` line count: all of them,
/// and those in use.
pub open spec fn cpu_words(w: Seq<Seq<char>>) -> (nat, nat) {
    let active = word_value(w, 1) + word_value(w, 2) + word_value(w, 3);
    (active + word_value(w, 4) + word_value(w, 5), active)
}

/// The ticks of CPU time that `/proc/stat` counts, all and in use; none where
/// its first line is not on all CPUs.
pub open spec fn cpu_ticks(s: Seq<char>) -> (nat, nat) {
    let first = lines(s)[0];
    if text::begins(first, "cpu "@) {
        cpu_words(text::words(first))
    } else {
        (0, 0)
    }
}

/// The number in the `i`th word, zero if there is none.
fn word_at(w: &Vec<&[char]>, i: usize) -> (n: u64)
    ensures
        n == word_value(text::contents(w@), i as int),
{
    if i < w.len() {
        value_of(w[i])
    } else {
        0
    }
}

/// The ticks of CPU time, all and in use, in words that are wide enough.
fn count_ticks(s: &str) -> (r: (u128, u128))
    ensures
        r.0 == cpu_ticks(s@).0,
        r.1 == cpu_ticks(s@).1,
{
    let chars = to_chars(s);
    let ls = pieces(chars.as_slice(), '\n');
    let first = ls[0];
    assert(text::contents(ls@)[0] == first@);
    if !starts_with(first, "cpu ") {
        return (0, 0);
    }
    let w = tokens(first);
    let active: u128 = word_at(&w, 1) as u128 + word_at(&w, 2) as u128 + word_at(&w, 3) as u128;
    (active + word_at(&w, 4) as u128 + word_at(&w, 5) as u128, active)
}

/// Whether the ticks of `/proc/stat` can be counted.
pub fn check_proc_stat(s: &str) -> (r: bool)
    ensures
        r == (cpu_ticks(s@).0 <= u64::MAX),
{
    count_ticks(s).0 <= u64::MAX as u128
}

/// The ticks of CPU time that `/proc/stat` counts, all and in use.
pub fn parse_proc_stat(s: &str) -> (r: (u64, u64))
    requires
        cpu_ticks(s@).0 <= u64::MAX,
    ensures
        r.0 == cpu_ticks(s@).0,
        r.1 == cpu_ticks(s@).1,
{
    let (total, active) = count_ticks(s);
    (total as u64, active as u64)
}

/// The sectors read and written that a line of `/proc/diskstats` counts.
pub open spec fn line_sectors(line: Seq<char>) -> nat {
    let w = text::words(line);
    if w.len() > 9 {
        match (text::number(w[5], u64::MAX as nat), text::number(w[9], u64::MAX as nat)) {
            (Some(read), Some(written)) => read + written,
            _ => 0,
        }
    } else {
        0
    }
}

/// The sectors that lines count together.
pub open spec fn sectors(ls: Seq<Seq<char>>) -> nat
    decreases ls.len(),
{
    if ls.len() == 0 {
        0
    } else {
        sectors(ls.drop_last()) + line_sectors(ls.last())
    }
}

proof fn lemma_sectors_grow(ls: Seq<Seq<char>>, i: int)
    requires
        0 <= i <= ls.len(),
    ensures
        sectors(ls.take(i)) <= sectors(ls),
    decreases ls.len(),
{
    if i < ls.len() {
        assert(ls.drop_last().take(i) =~= ls.take(i));
        lemma_sectors_grow(ls.drop_last(), i);
    } else {
        assert(ls.take(i) =~= ls);
    }
}

/// The sectors that a line counts.
fn count_line(line: &[char]) -> (n: u128)
    ensures
        n == line_sectors(line@),
        n <= 2 * u64::MAX,
{
    let w = tokens(line);
    if w.len() <= 9 {
        return 0;
    }
    assert(text::contents(w@)[5] == w@[5]@);
    assert(text::contents(w@)[9] == w@[9]@);
    match (parse_number(w[5], u64::MAX), parse_number(w[9], u64::MAX)) {
        (Some(read), Some(written)) => read as u128 + written as u128,
        _ => 0,
    }
}

/// The sectors that `/proc/diskstats` counts, if they can be counted.
pub fn count_sectors(s: &str) -> (r: Option<u64>)
    ensures
        match r {
            Some(n) => n == sectors(lines(s@)),
            None => sectors(lines(s@)) > u64::MAX,
        },
{
    let chars = to_chars(s);
    let ls = pieces(chars.as_slice(), '\n');
    let ghost all = lines(s@);
    let mut n: u64 = 0;
    let mut i: usize = 0;
    while i < ls.len()
        invariant
            i <= ls@.len(),
            text::contents(ls@) == all,
            all == lines(s@),
            n == sectors(all.take(i as int)),
        decreases ls@.len() - i,
    {
        proof {
            let upto = all.take(i as int + 1);
            assert(all[i as int] == ls@[i as int]@);
            assert(upto.last() == ls@[i as int]@);
            assert(upto.drop_last() =~= all.take(i as int));
            lemma_sectors_grow(all, i as int + 1);
        }
        let more: u128 = count_line(ls[i]);
        if n as u128 + more > u64::MAX as u128 {
            return None;
        }
        n = n + more as u64;
        i = i + 1;
    }
    assert(all.take(i as int) =~= all);
    Some(n)
}

/// The percentage of CPU time in use between two looks at `/proc/stat`, given
/// all ticks and those in use at either.
pub open spec fn cpu_share(before: (u64, u64), after: (u64, u64)) -> binary::Num {
    binary::percentage(
        minus(after.1 as nat, before.1 as nat) as u64,
        minus(after.0 as nat, before.0 as nat) as u64,
    )
}

/// The traffic between two looks at `/proc/diskstats`.
pub open spec fn disk_rate(before: u64, after: u64, elapsed: binary::Num) -> binary::Num {
    binary::transfer_rate(minus(after as nat, before as nat) as u64, elapsed)
}

/// The CPU time between two looks at `/proc/stat`.
#[derive(Debug, Clone, Copy)]
pub struct CpuSampler {
    pub prev_total: u64,
    pub prev_active: u64,
}

impl CpuSampler {
    /// A sampler that begins at the given ticks, all and in use.
    pub fn new(ticks: (u64, u64)) -> (r: Self)
        ensures
            r.prev_total == ticks.0,
            r.prev_active == ticks.1,
    {
        CpuSampler { prev_total: ticks.0, prev_active: ticks.1 }
    }

    /// The percentage of the ticks since the last sample that were in use.
    pub fn sample(&mut self, ticks: (u64, u64)) -> (r: Single)
        ensures
            final(self).prev_total == ticks.0,
            final(self).prev_active == ticks.1,
            r@ == cpu_share((old(self).prev_total, old(self).prev_active), ticks),
    {
        let dt: u64 = ticks.0.saturating_sub(self.prev_total);
        let da: u64 = ticks.1.saturating_sub(self.prev_active);
        self.prev_total = ticks.0;
        self.prev_active = ticks.1;
        Single::percentage(da, dt)
    }
}

/// The traffic between two looks at `/proc/diskstats`.
#[derive(Debug, Clone, Copy)]
pub struct IoSampler {
    pub prev_sectors: u64,
}

impl IoSampler {
    /// A sampler that begins at the given number of sectors.
    pub fn new(sectors: u64) -> (r: Self)
        ensures
            r.prev_sectors == sectors,
    {
        IoSampler { prev_sectors: sectors }
    }

    /// The traffic since the last sample, `elapsed` seconds ago, in MiB per
    /// second.
    pub fn sample(&mut self, sectors: u64, elapsed: Single) -> (r: Single)
        ensures
            final(self).prev_sectors == sectors,
            r@ == disk_rate(old(self).prev_sectors, sectors, elapsed@),
    {
        let delta: u64 = sectors.saturating_sub(self.prev_sectors);
        self.prev_sectors = sectors;
        Single::transfer_rate(delta, elapsed)
    }
}

/// A later line on the same field wins, and lines on other fields, or without a
/// value, do not matter.
pub proof fn later_line_wins(ls: Seq<Seq<char>>, line: Seq<char>, key: Seq<char>)
    ensures
        ({
            let w = text::words(line);
            &&& w.len() >= 2 && w[0] == key ==> field(ls.push(line), key) == 1024 * (
            match text::number(w[1], u64::MAX as nat) {
                Some(n) => n,
                None => 0,
            })
            &&& w.len() < 2 || w[0] != key ==> field(ls.push(line), key) == field(ls, key)
        }),
        field(Seq::empty(), key) == 0,
{
    assert(ls.push(line).drop_last() =~= ls);
}

/// Memory in use and free memory make up all memory; the file cache and the
/// rest make up the memory in use, as far as they fit.
pub proof fn memory_adds_up(s: Seq<char>)
    ensures
        ({
            let ls = lines(s);
            let total = field(ls, "MemTotal:"@);
            let free = field(ls, "MemFree:"@);
            let cache = field(ls, "Cached:"@) + field(ls, "SReclaimable:"@) + field(
                ls,
                "Buffers:"@,
            );
            &&& free <= total ==> resident(s) + free == total
            &&& free > total ==> resident(s) == 0
            &&& file_cache(s) == cache
            &&& cache <= resident(s) ==> anon(s) + cache == resident(s)
            &&& cache > resident(s) ==> anon(s) == 0
        }),
{
}

/// The ticks of the CPU: user, nice and system are in use, idle and waiting for
/// IO are not, and other columns do not count.
pub proof fn ticks_add_up(s: Seq<char>, t: Seq<char>)
    ensures
        cpu_ticks(s).1 <= cpu_ticks(s).0,
        text::begins(lines(s)[0], "cpu "@) ==> {
            let w = text::words(lines(s)[0]);
            &&& w.len() >= 6 ==> cpu_ticks(s).0 == cpu_ticks(s).1 + value(w[4]) + value(w[5])
            &&& w.len() >= 4 ==> cpu_ticks(s).1 == value(w[1]) + value(w[2]) + value(w[3])
            // columns that are missing count as none
            &&& w.len() == 5 ==> cpu_ticks(s).0 == cpu_ticks(s).1 + value(w[4])
            &&& w.len() <= 4 ==> cpu_ticks(s).0 == cpu_ticks(s).1
            &&& w.len() == 3 ==> cpu_ticks(s).1 == value(w[1]) + value(w[2])
            &&& w.len() == 2 ==> cpu_ticks(s).1 == value(w[1])
        },
        !text::begins(lines(s)[0], "cpu "@) ==> cpu_ticks(s) == (0nat, 0nat),
        lines(s)[0] == lines(t)[0] ==> cpu_ticks(s) == cpu_ticks(t),
{
}

/// The sectors of the disks add up, line by line; a line counts the sectors
/// read and written, or nothing.
pub proof fn sectors_add_up(a: Seq<Seq<char>>, b: Seq<Seq<char>>, line: Seq<char>)
    ensures
        sectors(a + b) == sectors(a) + sectors(b),
        sectors(seq![line]) == line_sectors(line),
        ({
            let w = text::words(line);
            let read = text::number(w[5], u64::MAX as nat);
            let written = text::number(w[9], u64::MAX as nat);
            &&& w.len() < 10 ==> line_sectors(line) == 0
            &&& w.len() >= 10 && read is Some && written is Some ==> line_sectors(line) == read->0
                + written->0
            &&& w.len() >= 10 && (read is None || written is None) ==> line_sectors(line) == 0
        }),
    decreases b.len(),
{
    assert(seq![line].drop_last() =~= Seq::empty());
    assert(sectors(Seq::empty()) == 0);
    if b.len() == 0 {
        assert(a + b =~= a);
    } else {
        assert((a + b).drop_last() =~= a + b.drop_last());
        sectors_add_up(a, b.drop_last(), line);
    }
}

/// The rates go by what has been counted between two looks, not by how much was
/// counted before; counters that run backwards count as standing still.
pub proof fn rates_go_by_differences(
    before: (u64, u64),
    after: (u64, u64),
    more: (u64, u64),
    elapsed: binary::Num,
)
    requires
        before.0 + more.0 <= u64::MAX,
        after.0 + more.0 <= u64::MAX,
        before.1 + more.1 <= u64::MAX,
        after.1 + more.1 <= u64::MAX,
    ensures
        cpu_share(
            ((before.0 + more.0) as u64, (before.1 + more.1) as u64),
            ((after.0 + more.0) as u64, (after.1 + more.1) as u64),
        ) == cpu_share(before, after),
        before.0 <= after.0 && before.1 <= after.1 ==> cpu_share(before, after) == cpu_share(
            (0, 0),
            ((after.0 - before.0) as u64, (after.1 - before.1) as u64),
        ),
        after.0 <= before.0 ==> cpu_share(before, after) == (binary::Num::Finite { units: 0 }),
        disk_rate((before.0 + more.0) as u64, (after.0 + more.0) as u64, elapsed) == disk_rate(
            before.0,
            after.0,
            elapsed,
        ),
        before.0 <= after.0 ==> disk_rate(before.0, after.0, elapsed) == binary::transfer_rate(
            (after.0 - before.0) as u64,
            elapsed,
        ),
        after.0 <= before.0 ==> disk_rate(before.0, after.0, elapsed) == binary::transfer_rate(
            0,
            elapsed,
        ),
{
}

/// A CPU that was busy all the time has a share of a hundred per cent, and one
/// that was idle all the time has none.
pub proof fn busy_cpu_has_all_of_its_time(before: (u64, u64), ticks: u64)
    requires
        ticks > 0,
        before.0 + ticks <= u64::MAX,
        before.1 + ticks <= u64::MAX,
    ensures
        cpu_share(before, ((before.0 + ticks) as u64, (before.1 + ticks) as u64)) == (
        binary::Num::Finite { units: 100 * binary::one() as int }),
        cpu_share(before, ((before.0 + ticks) as u64, before.1)) == (binary::Num::Finite {
            units: 0,
        }),
{
    number_laws::all_ticks_are_a_hundred_per_cent(ticks);
}

/// What the guest's own reclaimer looks at adds up like what is reported to the
/// host.
pub proof fn local_metrics_add_up(s: &str, cpu: Single, io: Single, m: GuestLocalMetrics)
    requires
        meminfo_fits(s@),
        call_ensures(local_metrics, (s, cpu, io), m),
    ensures
        ({
            let free = field(lines(s@), "MemFree:"@);
            &&& free <= m.mem_total ==> m.resident + free == m.mem_total
            &&& free > m.mem_total ==> m.resident == 0
        }),
        m.mem_total == field(lines(s@), "MemTotal:"@),
        m.mem_available == field(lines(s@), "MemAvailable:"@),
        m.file_cache == field(lines(s@), "Cached:"@) + field(lines(s@), "SReclaimable:"@) + field(
            lines(s@),
            "Buffers:"@,
        ),
        m.cpu_percent == cpu && m.io_rate == io,
{
}

} // verus!
