//! The order in which cvm lists cached source archives and build profiles.
use vstd::prelude::*;

use crate::text::same_text;
use crate::tool::Tool;
use crate::version::{law_version_order_total, version_less, version_text, Version, VersionView};

verus! {

broadcast use vstd::seq_lib::group_filter_ensures;

/// A cached source archive.
pub struct CacheEntry {
    pub tool: Tool,
    pub version: Version,
    /// The cache directory of the release.
    pub dir: String,
    /// The archive file in it.
    pub path: String,
    /// The archive's size in bytes.
    pub bytes: u64,
    /// When the entry was last used, in seconds since the epoch.
    pub last_used: u64,
}

/// What a `CacheEntry` holds.
pub struct CacheEntryView {
    pub tool: Tool,
    pub version: VersionView,
    pub dir: Seq<char>,
    pub path: Seq<char>,
    pub bytes: u64,
    pub last_used: u64,
}

pub open spec fn cache_entry_view(e: CacheEntry) -> CacheEntryView {
    CacheEntryView {
        tool: e.tool,
        version: e.version@,
        dir: e.dir@,
        path: e.path@,
        bytes: e.bytes,
        last_used: e.last_used,
    }
}

pub open spec fn cache_entries_view(s: Seq<CacheEntry>) -> Seq<CacheEntryView> {
    s.map_values(|e: CacheEntry| cache_entry_view(e))
}

/// Families are listed by name: `gcc` before `llvm`.
pub open spec fn tool_rank(t: Tool) -> nat {
    match t {
        Tool::Gcc => 0,
        Tool::Llvm => 1,
    }
}

/// `a` is listed before `b`: an earlier family, or the same family and a newer version.
pub open spec fn listed_before(a: CacheEntryView, b: CacheEntryView) -> bool {
    tool_rank(a.tool) < tool_rank(b.tool) || (a.tool == b.tool && version_less(b.version, a.version))
}

/// Two entries of the same family and version: the order leaves them as they came.
pub open spec fn same_place(a: CacheEntryView, b: CacheEntryView) -> bool {
    a.tool == b.tool && a.version == b.version
}

/// No entry is listed after one it should precede.
pub open spec fn in_listing_order(s: Seq<CacheEntryView>) -> bool {
    forall|i: int, j: int| 0 <= i < j < s.len() ==> !listed_before(#[trigger] s[j], #[trigger] s[i])
}

/// The entries that share `k`'s family and version, in their order.
pub open spec fn same_place_entries(s: Seq<CacheEntryView>, k: CacheEntryView) -> Seq<CacheEntryView> {
    s.filter(|x: CacheEntryView| same_place(x, k))
}

/// `out` lists the entries of `input` as cvm lists its cache: ordered by
/// family, then newest first, entries of the same family and version kept in
/// the order they came (a stable sort).
pub open spec fn is_cache_listing(input: Seq<CacheEntryView>, out: Seq<CacheEntryView>) -> bool {
    &&& in_listing_order(out)
    &&& forall|k: CacheEntryView| #[trigger] same_place_entries(out, k) == same_place_entries(input, k)
}

proof fn lemma_listed_before_order(a: CacheEntryView, b: CacheEntryView, c: CacheEntryView)
    ensures
        !(listed_before(a, b) && listed_before(b, a)),
        listed_before(a, b) && listed_before(b, c) ==> listed_before(a, c),
        same_place(a, b) ==> !listed_before(a, b),
        same_place(a, b) ==> (listed_before(a, c) == listed_before(b, c)),
        same_place(a, b) ==> (listed_before(c, a) == listed_before(c, b)),
{
    law_version_order_total(a.version, b.version, c.version);
    law_version_order_total(c.version, b.version, a.version);
    law_version_order_total(b.version, a.version, c.version);
    law_version_order_total(a.version, c.version, b.version);
    law_version_order_total(b.version, c.version, a.version);
    law_version_order_total(c.version, a.version, b.version);
}

/// Whether `a` is listed before `b`.
fn entry_listed_before(a: &CacheEntry, b: &CacheEntry) -> (r: bool)
    ensures
        r == listed_before(cache_entry_view(*a), cache_entry_view(*b)),
{
    let ra: u8 = match a.tool {
        Tool::Gcc => 0,
        Tool::Llvm => 1,
    };
    let rb: u8 = match b.tool {
        Tool::Gcc => 0,
        Tool::Llvm => 1,
    };
    ra < rb || (a.tool == b.tool && b.version.is_older_than(&a.version))
}

/// Inserting an entry before the first entry it precedes keeps a listing in order,
/// and adds it last among the entries of its family and version.
proof fn lemma_insert_listing(out: Seq<CacheEntryView>, p: int, x: CacheEntryView)
    requires
        0 <= p <= out.len(),
        in_listing_order(out),
        forall|i: int| 0 <= i < p ==> !listed_before(x, #[trigger] out[i]),
        p < out.len() ==> listed_before(x, out[p]),
    ensures
        in_listing_order(out.insert(p, x)),
        forall|k: CacheEntryView|
            #[trigger] same_place_entries(out.insert(p, x), k) == if same_place(x, k) {
                same_place_entries(out, k).push(x)
            } else {
                same_place_entries(out, k)
            },
{
    let after = out.insert(p, x);
    assert forall|i: int, j: int| 0 <= i < j < after.len() implies !listed_before(
        #[trigger] after[j],
        #[trigger] after[i],
    ) by {
        if j < p {
            assert(after[i] == out[i] && after[j] == out[j]);
        } else if j == p {
            assert(after[i] == out[i]);
            lemma_listed_before_order(x, out[i], x);
        } else if i > p {
            assert(after[i] == out[i - 1] && after[j] == out[j - 1]);
        } else if i == p {
            assert(after[j] == out[j - 1]);
            lemma_listed_before_order(out[j - 1], x, out[p]);
            if j - 1 > p {
                assert(!listed_before(out[j - 1], out[p]));
            }
        } else {
            assert(after[i] == out[i] && after[j] == out[j - 1]);
        }
    }
    // no entry from `p` on shares `x`'s place
    assert forall|i: int| p <= i < out.len() implies !same_place(#[trigger] out[i], x) by {
        if same_place(out[i], x) {
            lemma_listed_before_order(out[i], x, out[p]);
            lemma_listed_before_order(x, out[i], out[p]);
            if i > p {
                assert(!listed_before(out[i], out[p]));
            }
        }
    }
    assert(out =~= out.take(p) + out.skip(p));
    assert(after =~= out.take(p) + seq![x] + out.skip(p));
    assert forall|k: CacheEntryView| #[trigger] same_place_entries(after, k) == if same_place(x, k) {
        same_place_entries(out, k).push(x)
    } else {
        same_place_entries(out, k)
    } by {
        let f = |y: CacheEntryView| same_place(y, k);
        Seq::filter_distributes_over_add(out.take(p), out.skip(p), f);
        Seq::filter_distributes_over_add(out.take(p) + seq![x], out.skip(p), f);
        Seq::filter_distributes_over_add(out.take(p), seq![x], f);
        reveal_with_fuel(Seq::filter, 2);
        assert(seq![x].drop_last() =~= Seq::<CacheEntryView>::empty());
        if same_place(x, k) {
            assert(out.skip(p).filter(f) =~= Seq::<CacheEntryView>::empty()) by {
                out.skip(p).lemma_all_neg_filter_empty(f);
            }
        }
    }
}

/// Orders cache entries for listing: by family, then newest first, entries
/// of the same family and version in the order they came.
pub fn sort_cache_entries(entries: Vec<CacheEntry>) -> (r: Vec<CacheEntry>)
    ensures
        is_cache_listing(cache_entries_view(entries@), cache_entries_view(r@)),
{
    let ghost all = entries@;
    let ghost input = cache_entries_view(all);
    let mut rest = entries;
    let mut reversed: Vec<CacheEntry> = Vec::new();
    while rest.len() > 0
        invariant
            rest@.len() + reversed@.len() == all.len(),
            forall|k: int| 0 <= k < rest@.len() ==> #[trigger] rest@[k] == all[k],
            forall|k: int| 0 <= k < reversed@.len() ==> #[trigger] reversed@[k] == all[all.len() - 1 - k],
        decreases rest@.len(),
    {
        let x = rest.pop().unwrap();
        reversed.push(x);
    }
    let n = reversed.len();
    let mut out: Vec<CacheEntry> = Vec::new();
    let mut i: usize = 0;
    assert forall|k: CacheEntryView| #[trigger] same_place_entries(cache_entries_view(out@), k) == same_place_entries(input.take(0), k) by {
        reveal_with_fuel(Seq::filter, 1);
        assert(cache_entries_view(out@) =~= Seq::<CacheEntryView>::empty());
        assert(input.take(0) =~= Seq::<CacheEntryView>::empty());
    }
    while i < n
        invariant
            i <= n,
            n == all.len(),
            input == cache_entries_view(all),
            reversed@.len() == n - i,
            forall|k: int| 0 <= k < reversed@.len() ==> #[trigger] reversed@[k] == all[all.len() - 1 - k],
            in_listing_order(cache_entries_view(out@)),
            forall|k: CacheEntryView| #[trigger] same_place_entries(cache_entries_view(out@), k) == same_place_entries(input.take(i as int), k),
        decreases n - i,
    {
        let x = reversed.pop().unwrap();
        assert(x == all[i as int]);
        let ghost ov = cache_entries_view(out@);
        let ghost xv = cache_entry_view(x);
        let mut p: usize = 0;
        while p < out.len() && !entry_listed_before(&x, &out[p])
            invariant
                p <= out@.len(),
                ov == cache_entries_view(out@),
                xv == cache_entry_view(x),
                forall|q: int| 0 <= q < p ==> !listed_before(xv, #[trigger] ov[q]),
            decreases out@.len() - p,
        {
            p = p + 1;
        }
        proof {
            lemma_insert_listing(ov, p as int, xv);
            assert(input.take(i + 1) =~= input.take(i as int).push(xv));
            assert forall|k: CacheEntryView| #[trigger] same_place_entries(input.take(i + 1), k) == if same_place(xv, k) {
                same_place_entries(input.take(i as int), k).push(xv)
            } else {
                same_place_entries(input.take(i as int), k)
            } by {
                reveal_with_fuel(Seq::filter, 1);
                assert(input.take(i + 1).drop_last() =~= input.take(i as int));
            }
        }
        out.insert(p, x);
        assert(cache_entries_view(out@) =~= ov.insert(p as int, xv));
        i = i + 1;
    }
    assert(input.take(n as int) =~= input);
    out
}

pub open spec fn versions_view(s: Seq<Version>) -> Seq<VersionView> {
    s.map_values(|x: Version| x@)
}

/// No version is listed after a newer one.
pub open spec fn in_ascending_order(s: Seq<VersionView>) -> bool {
    forall|i: int, j: int| 0 <= i < j < s.len() ==> !version_less(#[trigger] s[j], #[trigger] s[i])
}

/// The copies of `v` in `s`.
pub open spec fn copies_of(s: Seq<VersionView>, v: VersionView) -> Seq<VersionView> {
    s.filter(|x: VersionView| x == v)
}

/// Inserting a version before the first version newer than it keeps a list
/// ascending and adds one copy of it.
proof fn lemma_insert_ascending(out: Seq<VersionView>, p: int, x: VersionView)
    requires
        0 <= p <= out.len(),
        in_ascending_order(out),
        forall|i: int| 0 <= i < p ==> !version_less(x, #[trigger] out[i]),
        p < out.len() ==> version_less(x, out[p]),
    ensures
        in_ascending_order(out.insert(p, x)),
        forall|v: VersionView|
            #[trigger] copies_of(out.insert(p, x), v) == if x == v {
                copies_of(out, v).push(x)
            } else {
                copies_of(out, v)
            },
{
    let after = out.insert(p, x);
    assert forall|i: int, j: int| 0 <= i < j < after.len() implies !version_less(
        #[trigger] after[j],
        #[trigger] after[i],
    ) by {
        if j < p {
            assert(after[i] == out[i] && after[j] == out[j]);
        } else if j == p {
            assert(after[i] == out[i]);
        } else if i > p {
            assert(after[i] == out[i - 1] && after[j] == out[j - 1]);
        } else if i == p {
            assert(after[j] == out[j - 1]);
            law_version_order_total(out[j - 1], x, out[p]);
            if j - 1 > p {
                assert(!version_less(out[j - 1], out[p]));
            }
        } else {
            assert(after[i] == out[i] && after[j] == out[j - 1]);
        }
    }
    // every version from `p` on is newer than `x`
    assert forall|i: int| p <= i < out.len() implies out[i] != x by {
        law_version_order_total(x, out[p], out[i]);
        if i > p {
            assert(!version_less(out[i], out[p]));
        }
    }
    assert(out =~= out.take(p) + out.skip(p));
    assert(after =~= out.take(p) + seq![x] + out.skip(p));
    assert forall|v: VersionView| #[trigger] copies_of(after, v) == if x == v {
        copies_of(out, v).push(x)
    } else {
        copies_of(out, v)
    } by {
        let f = |y: VersionView| y == v;
        Seq::filter_distributes_over_add(out.take(p), out.skip(p), f);
        Seq::filter_distributes_over_add(out.take(p) + seq![x], out.skip(p), f);
        Seq::filter_distributes_over_add(out.take(p), seq![x], f);
        reveal_with_fuel(Seq::filter, 2);
        assert(seq![x].drop_last() =~= Seq::<VersionView>::empty());
        if x == v {
            assert(out.skip(p).filter(f) =~= Seq::<VersionView>::empty()) by {
                assert forall|i: int| 0 <= i < out.skip(p).len() implies !f(#[trigger] out.skip(p)[i]) by {
                    assert(out.skip(p)[i] == out[p + i]);
                }
                out.skip(p).lemma_all_neg_filter_empty(f);
            }
        }
    }
}

/// Orders versions oldest first, as `cvm ls` lists the installed ones.
pub fn sort_versions(versions: Vec<Version>) -> (r: Vec<Version>)
    ensures
        in_ascending_order(versions_view(r@)),
        forall|v: VersionView| #[trigger] copies_of(versions_view(r@), v) == copies_of(versions_view(versions@), v),
{
    let ghost input = versions_view(versions@);
    let n = versions.len();
    let mut out: Vec<Version> = Vec::new();
    let mut i: usize = 0;
    assert forall|v: VersionView| #[trigger] copies_of(versions_view(out@), v) == copies_of(input.take(0), v) by {
        reveal_with_fuel(Seq::filter, 1);
        assert(versions_view(out@) =~= Seq::<VersionView>::empty());
        assert(input.take(0) =~= Seq::<VersionView>::empty());
    }
    while i < n
        invariant
            i <= n,
            n == versions@.len(),
            input == versions_view(versions@),
            in_ascending_order(versions_view(out@)),
            forall|v: VersionView| #[trigger] copies_of(versions_view(out@), v) == copies_of(input.take(i as int), v),
        decreases n - i,
    {
        let x = versions[i];
        let ghost ov = versions_view(out@);
        let mut p: usize = 0;
        while p < out.len() && !x.is_older_than(&out[p])
            invariant
                p <= out@.len(),
                ov == versions_view(out@),
                forall|q: int| 0 <= q < p ==> !version_less(x@, #[trigger] ov[q]),
            decreases out@.len() - p,
        {
            p = p + 1;
        }
        proof {
            lemma_insert_ascending(ov, p as int, x@);
            assert(input.take(i + 1) =~= input.take(i as int).push(x@));
            assert forall|v: VersionView| #[trigger] copies_of(input.take(i + 1), v) == if x@ == v {
                copies_of(input.take(i as int), v).push(x@)
            } else {
                copies_of(input.take(i as int), v)
            } by {
                reveal_with_fuel(Seq::filter, 1);
                assert(input.take(i + 1).drop_last() =~= input.take(i as int));
            }
        }
        out.insert(p, x);
        assert(versions_view(out@) =~= ov.insert(p as int, x@));
        i = i + 1;
    }
    assert(input.take(n as int) =~= input);
    out
}

/// A line of `cvm ls`: the version, marked when it is the persistent default.
pub open spec fn list_line_text(v: VersionView, default: Option<Seq<char>>) -> Seq<char> {
    let marker = if default == Some(version_text(v)) { "default -> "@ } else { Seq::empty() };
    "  "@ + marker + version_text(v)
}

/// The line `cvm ls` prints for an installed version, given the recorded default.
pub fn list_line(version: &Version, default: Option<&str>) -> (r: String)
    ensures
        r@ == list_line_text(version@, match default {
            Some(d) => Some(d@),
            None => None,
        }),
{
    let text = version.to_string();
    let is_default = match default {
        Some(d) => same_text(d, text.as_str()),
        None => false,
    };
    let mut line = String::from_str("  ");
    if is_default {
        line.append("default -> ");
    }
    line.append(text.as_str());
    proof {
        reveal_strlit("  ");
        reveal_strlit("default -> ");
    }
    line
}

/// Text order, as `str`'s `Ord` compares (character by character, a proper
/// prefix first).
pub open spec fn text_less(a: Seq<char>, b: Seq<char>) -> bool
    decreases a.len(),
{
    if a.len() == 0 {
        b.len() > 0
    } else if b.len() == 0 {
        false
    } else if a[0] != b[0] {
        a[0] < b[0]
    } else {
        text_less(a.skip(1), b.skip(1))
    }
}

/// Text order is a strict order: irreflexive, transitive and asymmetric.
pub proof fn law_text_order(a: Seq<char>, b: Seq<char>, c: Seq<char>)
    ensures
        !text_less(a, a),
        text_less(a, b) && text_less(b, c) ==> text_less(a, c),
        !(text_less(a, b) && text_less(b, a)),
        a != b ==> text_less(a, b) || text_less(b, a),
    decreases a.len(),
{
    if a.len() > 0 && b.len() > 0 && c.len() > 0 {
        law_text_order(a.skip(1), b.skip(1), c.skip(1));
    }
    if a.len() > 0 && b.len() > 0 {
        law_text_order(a.skip(1), b.skip(1), a.skip(1));
        if a != b && a[0] == b[0] {
            assert(a.skip(1) != b.skip(1)) by {
                if a.skip(1) == b.skip(1) {
                    assert(a =~= seq![a[0]] + a.skip(1));
                    assert(b =~= seq![b[0]] + b.skip(1));
                }
            }
        }
    }
    if a.len() > 0 {
        law_text_order(a.skip(1), a.skip(1), a.skip(1));
    }
    if a.len() == 0 && b.len() == 0 {
        assert(a =~= b);
    }
}

/// Whether `a` sorts before `b` in text order.
pub fn text_is_less(a: &str, b: &str) -> (r: bool)
    ensures
        r == text_less(a@, b@),
{
    let alen = a.unicode_len();
    let blen = b.unicode_len();
    let mut i: usize = 0;
    assert(a@.skip(0) =~= a@ && b@.skip(0) =~= b@);
    while i < alen && i < blen
        invariant
            alen == a@.len(),
            blen == b@.len(),
            i <= alen,
            i <= blen,
            text_less(a@, b@) == text_less(a@.skip(i as int), b@.skip(i as int)),
        decreases alen - i,
    {
        let x = a.get_char(i);
        let y = b.get_char(i);
        assert(a@.skip(i as int)[0] == x && b@.skip(i as int)[0] == y);
        if x != y {
            return x < y;
        }
        assert(a@.skip(i as int).skip(1) =~= a@.skip(i + 1));
        assert(b@.skip(i as int).skip(1) =~= b@.skip(i + 1));
        i = i + 1;
    }
    i == alen && i < blen
}

/// The name of a build profile file: the file's stem when its extension is
/// `toml` (a file name starting with its only dot has no extension).
pub open spec fn toml_stem(name: Seq<char>) -> Option<Seq<char>> {
    match last_dot(name) {
        Some(i) => if i > 0 && name.skip(i + 1) == "toml"@ {
            Some(name.take(i))
        } else {
            None
        },
        None => None,
    }
}

/// The index of the last `.` in a text.
pub open spec fn last_dot(s: Seq<char>) -> Option<int>
    decreases s.len(),
{
    if s.len() == 0 {
        None
    } else if s.last() == '.' {
        Some(s.len() - 1)
    } else {
        last_dot(s.drop_last())
    }
}

proof fn lemma_last_dot_bounds(s: Seq<char>)
    ensures
        last_dot(s) matches Some(i) ==> 0 <= i < s.len() && s[i] == '.' && forall|j: int| i < j < s.len() ==> s[j] != '.',
        last_dot(s) is None ==> forall|j: int| 0 <= j < s.len() ==> s[j] != '.',
    decreases s.len(),
{
    if s.len() > 0 {
        lemma_last_dot_bounds(s.drop_last());
        assert(s[s.len() - 1] == s.last());
        if s.last() != '.' {
            assert forall|j: int| 0 <= j < s.len() - 1 implies s[j] == s.drop_last()[j] by {}
        }
    }
}

/// The profile name of a file in a profile directory, when it is a `.toml` file.
pub fn profile_name_of(file_name: &str) -> (r: Option<String>)
    ensures
        match toml_stem(file_name@) {
            Some(stem) => r matches Some(x) && x@ == stem,
            None => r is None,
        },
{
    let len = file_name.unicode_len();
    let mut i: usize = len;
    assert(file_name@.take(len as int) =~= file_name@);
    while i > 0 && file_name.get_char(i - 1) != '.'
        invariant
            len == file_name@.len(),
            i <= len,
            forall|j: int| i <= j < len ==> file_name@[j] != '.',
            last_dot(file_name@) == last_dot(file_name@.take(i as int)),
        decreases i,
    {
        assert(file_name@.take(i as int).drop_last() =~= file_name@.take(i - 1));
        i = i - 1;
    }
    proof {
        reveal_strlit("toml");
    }
    if i == 0 {
        assert(file_name@.take(0) =~= Seq::<char>::empty());
        return None;
    }
    let dot = i - 1;
    assert(file_name@.take(i as int).last() == '.');
    assert(last_dot(file_name@) == Some(dot as int));
    if dot == 0 {
        return None;
    }
    let ext = file_name.substring_char(dot + 1, len);
    assert(ext@ =~= file_name@.skip(dot + 1));
    if !same_text(ext, "toml") {
        return None;
    }
    let stem = file_name.substring_char(0, dot);
    assert(stem@ =~= file_name@.take(dot as int));
    Some(String::from_str(stem))
}

/// A build profile found on disk: its name and its path.
pub struct ProfileEntry {
    pub name: String,
    pub path: String,
}

pub open spec fn profile_entry_view(e: ProfileEntry) -> (Seq<char>, Seq<char>) {
    (e.name@, e.path@)
}

pub open spec fn profile_entries_view(s: Seq<ProfileEntry>) -> Seq<(Seq<char>, Seq<char>)> {
    s.map_values(|e: ProfileEntry| profile_entry_view(e))
}

/// No profile is listed after one whose name sorts after its own.
pub open spec fn in_name_order(s: Seq<(Seq<char>, Seq<char>)>) -> bool {
    forall|i: int, j: int| 0 <= i < j < s.len() ==> !text_less(#[trigger] s[j].0, #[trigger] s[i].0)
}

/// The profiles named `name`, in their order.
pub open spec fn named(s: Seq<(Seq<char>, Seq<char>)>, name: Seq<char>) -> Seq<(Seq<char>, Seq<char>)> {
    s.filter(|x: (Seq<char>, Seq<char>)| x.0 == name)
}

/// `out` lists the profiles of `input` sorted by name, profiles of the same
/// name in the order they came (a stable sort).
pub open spec fn is_name_listing(input: Seq<(Seq<char>, Seq<char>)>, out: Seq<(Seq<char>, Seq<char>)>) -> bool {
    &&& in_name_order(out)
    &&& forall|name: Seq<char>| #[trigger] named(out, name) == named(input, name)
}

proof fn lemma_insert_by_name(out: Seq<(Seq<char>, Seq<char>)>, p: int, x: (Seq<char>, Seq<char>))
    requires
        0 <= p <= out.len(),
        in_name_order(out),
        forall|i: int| 0 <= i < p ==> !text_less(x.0, #[trigger] out[i].0),
        p < out.len() ==> text_less(x.0, out[p].0),
    ensures
        in_name_order(out.insert(p, x)),
        forall|name: Seq<char>|
            #[trigger] named(out.insert(p, x), name) == if x.0 == name {
                named(out, name).push(x)
            } else {
                named(out, name)
            },
{
    let after = out.insert(p, x);
    assert forall|i: int, j: int| 0 <= i < j < after.len() implies !text_less(
        #[trigger] after[j].0,
        #[trigger] after[i].0,
    ) by {
        if j < p {
            assert(after[i] == out[i] && after[j] == out[j]);
        } else if j == p {
            assert(after[i] == out[i]);
        } else if i > p {
            assert(after[i] == out[i - 1] && after[j] == out[j - 1]);
        } else if i == p {
            assert(after[j] == out[j - 1]);
            law_text_order(out[j - 1].0, x.0, out[p].0);
            if j - 1 > p {
                assert(!text_less(out[j - 1].0, out[p].0));
            }
        } else {
            assert(after[i] == out[i] && after[j] == out[j - 1]);
        }
    }
    assert forall|i: int| p <= i < out.len() implies #[trigger] out[i].0 != x.0 by {
        if out[i].0 == x.0 {
            law_text_order(x.0, out[p].0, x.0);
            if i > p {
                assert(!text_less(out[i].0, out[p].0));
            }
        }
    }
    assert(out =~= out.take(p) + out.skip(p));
    assert(after =~= out.take(p) + seq![x] + out.skip(p));
    assert forall|name: Seq<char>| #[trigger] named(after, name) == if x.0 == name {
        named(out, name).push(x)
    } else {
        named(out, name)
    } by {
        let f = |y: (Seq<char>, Seq<char>)| y.0 == name;
        Seq::filter_distributes_over_add(out.take(p), out.skip(p), f);
        Seq::filter_distributes_over_add(out.take(p) + seq![x], out.skip(p), f);
        Seq::filter_distributes_over_add(out.take(p), seq![x], f);
        reveal_with_fuel(Seq::filter, 2);
        assert(seq![x].drop_last() =~= Seq::<(Seq<char>, Seq<char>)>::empty());
        if x.0 == name {
            assert(out.skip(p).filter(f) =~= Seq::<(Seq<char>, Seq<char>)>::empty()) by {
                out.skip(p).lemma_all_neg_filter_empty(f);
            }
        }
    }
}

/// Orders build profiles by name, profiles of the same name in the order they came.
pub fn sort_profiles_by_name(entries: Vec<ProfileEntry>) -> (r: Vec<ProfileEntry>)
    ensures
        is_name_listing(profile_entries_view(entries@), profile_entries_view(r@)),
{
    let ghost all = entries@;
    let ghost input = profile_entries_view(all);
    let mut rest = entries;
    let mut reversed: Vec<ProfileEntry> = Vec::new();
    while rest.len() > 0
        invariant
            rest@.len() + reversed@.len() == all.len(),
            forall|k: int| 0 <= k < rest@.len() ==> #[trigger] rest@[k] == all[k],
            forall|k: int| 0 <= k < reversed@.len() ==> #[trigger] reversed@[k] == all[all.len() - 1 - k],
        decreases rest@.len(),
    {
        let x = rest.pop().unwrap();
        reversed.push(x);
    }
    let n = reversed.len();
    let mut out: Vec<ProfileEntry> = Vec::new();
    let mut i: usize = 0;
    assert forall|name: Seq<char>| #[trigger] named(profile_entries_view(out@), name) == named(input.take(0), name) by {
        reveal_with_fuel(Seq::filter, 1);
        assert(profile_entries_view(out@) =~= Seq::<(Seq<char>, Seq<char>)>::empty());
        assert(input.take(0) =~= Seq::<(Seq<char>, Seq<char>)>::empty());
    }
    while i < n
        invariant
            i <= n,
            n == all.len(),
            input == profile_entries_view(all),
            reversed@.len() == n - i,
            forall|k: int| 0 <= k < reversed@.len() ==> #[trigger] reversed@[k] == all[all.len() - 1 - k],
            in_name_order(profile_entries_view(out@)),
            forall|name: Seq<char>| #[trigger] named(profile_entries_view(out@), name) == named(input.take(i as int), name),
        decreases n - i,
    {
        let x = reversed.pop().unwrap();
        assert(x == all[i as int]);
        let ghost ov = profile_entries_view(out@);
        let ghost xv = profile_entry_view(x);
        let mut p: usize = 0;
        while p < out.len() && !text_is_less(x.name.as_str(), out[p].name.as_str())
            invariant
                p <= out@.len(),
                ov == profile_entries_view(out@),
                xv == profile_entry_view(x),
                forall|q: int| 0 <= q < p ==> !text_less(xv.0, #[trigger] ov[q].0),
            decreases out@.len() - p,
        {
            p = p + 1;
        }
        proof {
            lemma_insert_by_name(ov, p as int, xv);
            assert(input.take(i + 1) =~= input.take(i as int).push(xv));
            assert forall|name: Seq<char>| #[trigger] named(input.take(i + 1), name) == if xv.0 == name {
                named(input.take(i as int), name).push(xv)
            } else {
                named(input.take(i as int), name)
            } by {
                reveal_with_fuel(Seq::filter, 1);
                assert(input.take(i + 1).drop_last() =~= input.take(i as int));
            }
        }
        out.insert(p, x);
        assert(profile_entries_view(out@) =~= ov.insert(p as int, xv));
        i = i + 1;
    }
    assert(input.take(n as int) =~= input);
    out
}

/// Whether a file name is that of a compiler source archive (`.tar.xz`).
pub open spec fn is_archive_name(name: Seq<char>) -> bool {
    name.len() >= 7 && name.skip(name.len() - 7) == ".tar.xz"@
}

/// The archive of a cache directory: of the `.tar.xz` files (name and size),
/// the first by name.
pub open spec fn chooses_archive(files: Seq<(Seq<char>, u64)>, r: Option<int>) -> bool {
    match r {
        None => forall|i: int| 0 <= i < files.len() ==> !is_archive_name(#[trigger] files[i].0),
        Some(k) => {
            &&& 0 <= k < files.len()
            &&& is_archive_name(files[k].0)
            &&& forall|i: int| 0 <= i < files.len() && is_archive_name(#[trigger] files[i].0) ==> !text_less(files[i].0, files[k].0)
            &&& forall|i: int| 0 <= i < k && is_archive_name(#[trigger] files[i].0) ==> files[i].0 != files[k].0
        },
    }
}

/// Whether a file name ends in `.tar.xz`.
pub fn archive_name(name: &str) -> (r: bool)
    ensures
        r == is_archive_name(name@),
{
    let len = name.unicode_len();
    if len < 7 {
        return false;
    }
    let tail = name.substring_char(len - 7, len);
    assert(tail@ =~= name@.skip(len - 7));
    same_text(tail, ".tar.xz")
}

/// The index of a cache directory's archive among its files, if it has one.
pub fn pick_cache_archive(files: &Vec<(String, u64)>) -> (r: Option<usize>)
    ensures
        chooses_archive(files@.map_values(|f: (String, u64)| (f.0@, f.1)), match r {
            Some(k) => Some(k as int),
            None => None,
        }),
{
    let ghost fs = files@.map_values(|f: (String, u64)| (f.0@, f.1));
    let mut best: Option<usize> = None;
    let mut i: usize = 0;
    while i < files.len()
        invariant
            i <= files@.len(),
            fs == files@.map_values(|f: (String, u64)| (f.0@, f.1)),
            chooses_archive(fs.take(i as int), match best {
                Some(k) => Some(k as int),
                None => None,
            }),
            best matches Some(k) ==> k < i,
        decreases files@.len() - i,
    {
        let ghost pre = fs.take(i as int);
        let ghost next = fs.take(i + 1);
        assert forall|j: int| 0 <= j < i implies #[trigger] next[j] == pre[j] by {}
        assert(next[i as int] == fs[i as int]);
        let name = files[i].0.as_str();
        assert(name@ == next[i as int].0);
        if archive_name(name) {
            match best {
                None => {
                    proof {
                        assert forall|j: int| 0 <= j < i + 1 && is_archive_name(#[trigger] next[j].0) implies !text_less(
                            next[j].0,
                            next[i as int].0,
                        ) by {
                            if j < i {
                                assert(!is_archive_name(pre[j].0));
                            } else {
                                law_text_order(next[j].0, next[j].0, next[j].0);
                            }
                        }
                        assert forall|j: int| 0 <= j < i && is_archive_name(#[trigger] next[j].0) implies next[j].0 != next[i as int].0 by {
                            assert(!is_archive_name(pre[j].0));
                        }
                    }
                    best = Some(i);
                },
                Some(k) => {
                    assert(pre[k as int] == next[k as int]);
                    assert(files[k as int].0@ == next[k as int].0);
                    if text_is_less(name, files[k].0.as_str()) {
                        proof {
                            assert forall|j: int| 0 <= j < i + 1 && is_archive_name(#[trigger] next[j].0) implies !text_less(
                                next[j].0,
                                next[i as int].0,
                            ) by {
                                if j < i {
                                    assert(!text_less(pre[j].0, pre[k as int].0));
                                    law_text_order(next[j].0, next[i as int].0, next[k as int].0);
                                } else {
                                    law_text_order(next[j].0, next[j].0, next[j].0);
                                }
                            }
                            assert forall|j: int| 0 <= j < i && is_archive_name(#[trigger] next[j].0) implies next[j].0 != next[i as int].0 by {
                                assert(!text_less(pre[j].0, pre[k as int].0));
                            }
                        }
                        best = Some(i);
                    } else {
                        proof {
                            assert forall|j: int| 0 <= j < i + 1 && is_archive_name(#[trigger] next[j].0) implies !text_less(
                                next[j].0,
                                next[k as int].0,
                            ) by {
                                if j < i {
                                    assert(!text_less(pre[j].0, pre[k as int].0));
                                }
                            }
                            assert forall|j: int| 0 <= j < k && is_archive_name(#[trigger] next[j].0) implies next[j].0 != next[k as int].0 by {
                                assert(pre[j].0 != pre[k as int].0);
                            }
                        }
                    }
                },
            }
        } else {
            proof {
                match best {
                    None => {
                        assert forall|j: int| 0 <= j < i + 1 implies !is_archive_name(#[trigger] next[j].0) by {
                            if j < i {
                                assert(!is_archive_name(pre[j].0));
                            }
                        }
                    },
                    Some(k) => {
                        assert(pre[k as int] == next[k as int]);
                        assert forall|j: int| 0 <= j < i + 1 && is_archive_name(#[trigger] next[j].0) implies !text_less(
                            next[j].0,
                            next[k as int].0,
                        ) by {
                            assert(j < i);
                            assert(!text_less(pre[j].0, pre[k as int].0));
                        }
                        assert forall|j: int| 0 <= j < k && is_archive_name(#[trigger] next[j].0) implies next[j].0 != next[k as int].0 by {
                            assert(pre[j].0 != pre[k as int].0);
                        }
                    },
                }
            }
        }
        i = i + 1;
    }
    assert(fs.take(files@.len() as int) =~= fs);
    best
}

} // verus!
