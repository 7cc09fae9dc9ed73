//! Which reclamation interfaces the running kernel offers.

use crate::commands::{ReclaimCapabilities, COMPACT_MEMORY};
use crate::network;
use crate::procfs;
use crate::text;
use crate::text::{cut, pieces, starts_with, to_chars, to_text};
use vstd::prelude::*;
use vstd::slice::slice_subrange;
use vstd::string::*;

verus! {

/// Where cgroups are mounted.
pub const CGROUP_BASE: &'static str = "/sys/fs/cgroup";

/// Makes the kernel drop its caches.
pub const DROP_CACHES: &'static str = "/proc/sys/vm/drop_caches";

/// `s` without any number of `p` before it.
pub open spec fn without_prefixes(s: Seq<char>, p: Seq<char>) -> Seq<char>
    decreases s.len(),
{
    if p.len() > 0 && text::begins(s, p) {
        without_prefixes(s.skip(p.len() as int), p)
    } else {
        s
    }
}

/// `s` without the slashes before it.
pub open spec fn slash_start(s: Seq<char>) -> Seq<char>
    decreases s.len(),
{
    if s.len() > 0 && s[0] == '/' {
        slash_start(s.skip(1))
    } else {
        s
    }
}

/// `s` without the slashes behind it.
pub open spec fn slash_end(s: Seq<char>) -> Seq<char>
    decreases s.len(),
{
    if s.len() > 0 && s.last() == '/' {
        slash_end(s.drop_last())
    } else {
        s
    }
}

/// The cgroup that the first line of cgroup v2 names, the root if there is no
/// such line.
pub open spec fn cgroup_of(ls: Seq<Seq<char>>) -> Seq<char>
    decreases ls.len(),
{
    if ls.len() == 0 {
        "/"@
    } else if text::begins(ls[0], "0::"@) {
        text::trim(without_prefixes(ls[0], "0::"@))
    } else {
        cgroup_of(ls.skip(1))
    }
}

/// The cgroup of the process, out of `/proc/self/cgroup`.
pub open spec fn own_cgroup(content: Option<Seq<char>>) -> Seq<char> {
    match content {
        Some(s) => cgroup_of(procfs::lines(s)),
        None => "/"@,
    }
}

/// `memory.reclaim` of the root cgroup.
pub open spec fn root_path() -> Seq<char> {
    CGROUP_BASE@ + "/memory.reclaim"@
}

/// `memory.reclaim` of a cgroup.
pub open spec fn reclaim_path(cgroup: Seq<char>) -> Seq<char> {
    let rel = slash_end(slash_start(cgroup));
    if rel.len() == 0 {
        root_path()
    } else {
        CGROUP_BASE@ + "/"@ + rel + "/memory.reclaim"@
    }
}

/// What may be found to reclaim through: the path of the own cgroup if it
/// exists, else that of the root cgroup if it exists.
pub open spec fn detected<F: Fn(&String) -> bool>(
    exists_at: F,
    cgroup: Seq<char>,
    r: Option<Seq<char>>,
) -> bool {
    ||| r == Some(reclaim_path(cgroup)) && network::answered(exists_at, reclaim_path(cgroup), true)
    ||| {
        &&& network::answered(exists_at, reclaim_path(cgroup), false)
        &&& network::answered(exists_at, root_path(), r is Some)
        &&& r is Some ==> r == Some(root_path())
    }
}

fn cut_prefixes<'a>(s: &'a [char], p: &str) -> (r: &'a [char])
    ensures
        r@ == without_prefixes(s@, p@),
{
    let n = to_chars(p).len();
    if n == 0 {
        return s;
    }
    let mut rest = s;
    while starts_with(rest, p)
        invariant
            n == p@.len(),
            n > 0,
            without_prefixes(s@, p@) == without_prefixes(rest@, p@),
        decreases rest@.len(),
    {
        assert(rest@.skip(n as int) =~= rest@.subrange(n as int, rest@.len() as int));
        rest = slice_subrange(rest, n, rest.len());
    }
    rest
}

fn cut_slashes(s: &[char]) -> (r: &[char])
    ensures
        r@ == slash_end(slash_start(s@)),
{
    let mut a: usize = 0;
    assert(s@.skip(0) =~= s@);
    while a < s.len() && s[a] == '/'
        invariant
            a <= s.len(),
            slash_start(s@) == slash_start(s@.skip(a as int)),
        decreases s.len() - a,
    {
        assert(s@.skip(a as int).skip(1) =~= s@.skip(a as int + 1));
        a = a + 1;
    }
    let t = slice_subrange(s, a, s.len());
    assert(t@ =~= s@.skip(a as int));
    let mut b: usize = t.len();
    assert(t@.take(b as int) =~= t@);
    while b > 0 && t[b - 1] == '/'
        invariant
            b <= t.len(),
            slash_end(t@) == slash_end(t@.take(b as int)),
        decreases b,
    {
        assert(t@.take(b as int).drop_last() =~= t@.take(b as int - 1));
        b = b - 1;
    }
    assert(t@.take(b as int) =~= t@.subrange(0, b as int));
    slice_subrange(t, 0, b)
}

/// The cgroup of the process, out of `/proc/self/cgroup`.
pub fn find_cgroup(content: &Option<String>) -> (r: String)
    ensures
        r@ == own_cgroup(text::text_of(*content)),
{
    let s = match content {
        Some(s) => s,
        None => {
            return "/".to_owned();
        },
    };
    let chars = to_chars(s.as_str());
    let ls = pieces(chars.as_slice(), '\n');
    let ghost all = procfs::lines(s@);
    let mut i: usize = 0;
    assert(all.skip(0) =~= all);
    while i < ls.len()
        invariant
            i <= ls@.len(),
            all == text::contents(ls@),
            all == procfs::lines(s@),
            Some(*s) == *content,
            cgroup_of(all) == cgroup_of(all.skip(i as int)),
        decreases ls@.len() - i,
    {
        assert(all.skip(i as int)[0] == ls@[i as int]@);
        if starts_with(ls[i], "0::") {
            return to_text(cut(cut_prefixes(ls[i], "0::")));
        }
        assert(all.skip(i as int).skip(1) =~= all.skip(i as int + 1));
        i = i + 1;
    }
    "/".to_owned()
}

/// `memory.reclaim` of a cgroup.
pub fn memory_reclaim_path(cgroup: &str) -> (r: String)
    ensures
        r@ == reclaim_path(cgroup@),
{
    let chars = to_chars(cgroup);
    let rel = cut_slashes(chars.as_slice());
    let mut path = CGROUP_BASE.to_owned();
    if rel.len() > 0 {
        path.append("/");
        path.append(to_text(rel).as_str());
    }
    path.append("/memory.reclaim");
    path
}

/// Resolves `memory.reclaim` of the own cgroup, and falls back to that of the
/// root cgroup. `content` is that of `/proc/self/cgroup`.
pub fn detect_memory_reclaim_path<F: Fn(&String) -> bool>(
    content: &Option<String>,
    exists_at: &F,
) -> (r: Option<String>)
    requires
        forall|p: &String| #[trigger] exists_at.requires((p,)),
    ensures
        detected(
            *exists_at,
            own_cgroup(text::text_of(*content)),
            text::text_of(r),
        ),
{
    let cgroup = find_cgroup(content);
    let path = memory_reclaim_path(cgroup.as_str());
    if exists_at(&path) {
        assert(network::answered(*exists_at, path@, true));
        return Some(path);
    }
    assert(network::answered(*exists_at, path@, false));
    let mut fallback = CGROUP_BASE.to_owned();
    fallback.append("/memory.reclaim");
    if exists_at(&fallback) {
        assert(network::answered(*exists_at, fallback@, true));
        Some(fallback)
    } else {
        assert(network::answered(*exists_at, fallback@, false));
        None
    }
}

/// Finds out which interfaces are there. `content` is that of
/// `/proc/self/cgroup`.
pub fn probe_capabilities<F: Fn(&String) -> bool>(content: &Option<String>, exists_at: &F)
    -> (caps: ReclaimCapabilities)
    requires
        forall|p: &String| #[trigger] exists_at.requires((p,)),
    ensures
        detected(
            *exists_at,
            own_cgroup(text::text_of(*content)),
            caps@.memory_reclaim,
        ),
        network::answered(*exists_at, COMPACT_MEMORY@, caps@.compact),
        network::answered(*exists_at, DROP_CACHES@, caps@.drop_caches),
{
    let memory_reclaim = detect_memory_reclaim_path(content, exists_at);
    let c = COMPACT_MEMORY.to_owned();
    let compact = exists_at(&c);
    let d = DROP_CACHES.to_owned();
    let drop_caches = exists_at(&d);
    assert(network::answered(*exists_at, c@, compact));
    assert(network::answered(*exists_at, d@, drop_caches));
    ReclaimCapabilities { memory_reclaim, compact, drop_caches }
}

proof fn lemma_slash_start(s: Seq<char>, t: Seq<char>)
    requires
        forall|i: int| 0 <= i < s.len() ==> s[i] == '/',
    ensures
        slash_start(s + t) == slash_start(t),
    decreases s.len(),
{
    if s.len() == 0 {
        assert(s + t =~= t);
    } else {
        assert((s + t)[0] == '/');
        assert((s + t).skip(1) =~= s.skip(1) + t);
        lemma_slash_start(s.skip(1), t);
    }
}

/// Slashes around a cgroup do not matter to its path.
pub proof fn slashes_do_not_matter(cgroup: Seq<char>)
    requires
        cgroup.len() > 0,
        cgroup[0] != '/',
        cgroup.last() != '/',
    ensures
        reclaim_path(cgroup) == "/sys/fs/cgroup"@ + "/"@ + cgroup + "/memory.reclaim"@,
        reclaim_path("/"@ + cgroup) == reclaim_path(cgroup),
        reclaim_path("/"@ + cgroup + "/"@) == reclaim_path(cgroup),
        reclaim_path("/"@) == "/sys/fs/cgroup"@ + "/memory.reclaim"@,
        reclaim_path(Seq::empty()) == "/sys/fs/cgroup"@ + "/memory.reclaim"@,
{
    reveal_strlit("/");
    let slash = "/"@;
    assert(slash =~= seq!['/']);
    lemma_slash_start(slash, cgroup);
    assert(slash + cgroup + slash =~= slash + (cgroup + slash));
    lemma_slash_start(slash, cgroup + slash);
    assert((cgroup + slash)[0] == cgroup[0]);
    assert((cgroup + slash).last() == '/');
    assert((cgroup + slash).drop_last() =~= cgroup);
    lemma_slash_start(slash, Seq::empty());
    assert(slash + Seq::<char>::empty() =~= slash);
}

/// The first line of cgroup v2 names the own cgroup, whatever other lines there
/// are; without one it is the root.
pub proof fn first_line_names_the_cgroup(ls: Seq<Seq<char>>, k: int)
    requires
        0 <= k < ls.len(),
        text::begins(ls[k], "0::"@),
        forall|j: int| 0 <= j < k ==> !text::begins(#[trigger] ls[j], "0::"@),
    ensures
        cgroup_of(ls) == cgroup_of(seq![ls[k]]),
        !text::begins(ls[k].skip(3), "0::"@) ==> cgroup_of(ls) == text::trim(ls[k].skip(3)),
        cgroup_of(Seq::empty()) == "/"@,
        own_cgroup(None) == "/"@,
    decreases k,
{
    reveal_strlit("0::");
    reveal_with_fuel(without_prefixes, 3);
    if k > 0 {
        assert(!text::begins(ls[0], "0::"@));
        assert forall|j: int| 0 <= j < k - 1 implies !text::begins(
            #[trigger] ls.skip(1)[j],
            "0::"@,
        ) by {
            assert(ls.skip(1)[j] == ls[j + 1]);
        }
        first_line_names_the_cgroup(ls.skip(1), k - 1);
    }
}

/// The path of the own cgroup is used where it exists, that of the root where
/// only that one does, and none where neither does.
pub proof fn own_cgroup_comes_first<F: Fn(&String) -> bool>(
    exists_at: F,
    cgroup: Seq<char>,
    r: Option<Seq<char>>,
)
    requires
        detected(exists_at, cgroup, r),
    ensures
        !network::answered(exists_at, reclaim_path(cgroup), false) ==> r == Some(
            reclaim_path(cgroup),
        ),
        !network::answered(exists_at, reclaim_path(cgroup), true) && !network::answered(
            exists_at,
            "/sys/fs/cgroup"@ + "/memory.reclaim"@,
            false,
        ) ==> r == Some("/sys/fs/cgroup"@ + "/memory.reclaim"@),
        !network::answered(exists_at, reclaim_path(cgroup), true) && !network::answered(
            exists_at,
            "/sys/fs/cgroup"@ + "/memory.reclaim"@,
            true,
        ) ==> r is None,
{
}

} // verus!
