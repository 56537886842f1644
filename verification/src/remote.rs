//! The remote index of compiler releases and of cvm's own latest release.
use vstd::prelude::*;

use crate::text::{decimal_string, decimal_text, join2};
use crate::tool::Tool;
use crate::version::{
    law_version_order_total, lemma_version_view_injective, parse_version, version_less,
    version_result, Version, VersionView,
};

verus! {

/// One release of a compiler as the remote index lists it.
#[derive(Debug, Clone, PartialEq, Eq)]
pub struct RemoteVersion {
    pub version: Version,
    pub date: Option<String>,
    pub url: String,
}

/// What a `RemoteVersion` holds.
pub struct RemoteVersionView {
    pub version: VersionView,
    pub date: Option<Seq<char>>,
    pub url: Seq<char>,
}

pub open spec fn remote_version_view(r: RemoteVersion) -> RemoteVersionView {
    RemoteVersionView {
        version: r.version@,
        date: match r.date {
            Some(d) => Some(d@),
            None => None,
        },
        url: r.url@,
    }
}

/// An entry of the remote index, as written in its JSON.
#[derive(Debug, Clone)]
pub struct RemoteIndexEntry {
    pub version: String,
    pub date: String,
    pub url: String,
}

/// The cvm section of the remote index.
#[derive(Debug, Clone)]
pub struct CvmRemoteIndex {
    pub latest: String,
}

/// The compiler section of the remote index.
#[derive(Debug, Clone)]
pub struct CompilerRemoteIndex {
    pub llvm: Vec<RemoteIndexEntry>,
    pub gcc: Vec<RemoteIndexEntry>,
}

/// The remote index document.
#[derive(Debug, Clone)]
pub struct RemoteIndex {
    pub schema_version: u32,
    pub generated_at: String,
    pub cvm: CvmRemoteIndex,
    pub compilers: CompilerRemoteIndex,
}

/// The version an entry names, where its text is a valid version.
#[verifier::opaque]
pub open spec fn entry_version(e: RemoteIndexEntry) -> Option<VersionView> {
    match parse_version(e.version@) {
        Ok(v) => Some(v),
        Err(_) => None,
    }
}

/// The release that an entry with version `v` stands for.
pub open spec fn entry_release(e: RemoteIndexEntry, v: VersionView) -> RemoteVersionView {
    RemoteVersionView { version: v, date: Some(e.date@), url: e.url@ }
}

/// Entry `i` is the first one that names its version.
pub open spec fn first_with_version(entries: Seq<RemoteIndexEntry>, i: int) -> bool {
    &&& 0 <= i < entries.len()
    &&& entry_version(entries[i]) is Some
    &&& forall|j: int| 0 <= j < i ==> entry_version(entries[j]) != entry_version(entries[i])
}

/// `r` is the release of one of the first `n` entries, the first to name its version.
pub open spec fn comes_from(entries: Seq<RemoteIndexEntry>, n: int, r: RemoteVersionView) -> bool {
    exists|i: int|
        #![trigger first_with_version(entries, i)]
        0 <= i < n && first_with_version(entries, i) && r == entry_release(
            entries[i],
            entry_version(entries[i]).unwrap(),
        )
}

/// Some release in `list` has version `v`.
pub open spec fn lists_version(list: Seq<RemoteVersionView>, v: VersionView) -> bool {
    exists|k: int| 0 <= k < list.len() && #[trigger] list[k].version == v
}

/// `list` lists the releases named by the first `n` entries: newest first,
/// each version once, each from the first entry that names it.
pub open spec fn lists_releases_upto(
    entries: Seq<RemoteIndexEntry>,
    n: int,
    list: Seq<RemoteVersionView>,
) -> bool {
    &&& forall|k: int, l: int|
        0 <= k < l < list.len() ==> version_less(#[trigger] list[l].version, #[trigger] list[k].version)
    &&& forall|k: int| 0 <= k < list.len() ==> comes_from(entries, n, #[trigger] list[k])
    &&& forall|i: int|
        0 <= i < n && #[trigger] entry_version(entries[i]) is Some ==> lists_version(
            list,
            entry_version(entries[i]).unwrap(),
        )
}

/// `list` lists every release that `entries` names, as `remote_versions_from_index`
/// reports them.
pub open spec fn lists_releases(entries: Seq<RemoteIndexEntry>, list: Seq<RemoteVersionView>) -> bool {
    lists_releases_upto(entries, entries.len() as int, list)
}

/// Releases ordered strictly newest first.
pub open spec fn newest_first(list: Seq<RemoteVersionView>) -> bool {
    forall|k: int, l: int|
        0 <= k < l < list.len() ==> version_less(#[trigger] list[l].version, #[trigger] list[k].version)
}

/// Two lists ordered strictly newest first that name the same versions name
/// them in the same places.
proof fn lemma_same_versions_same_places(a: Seq<RemoteVersionView>, b: Seq<RemoteVersionView>)
    requires
        newest_first(a),
        newest_first(b),
        forall|k: int| 0 <= k < a.len() ==> lists_version(b, #[trigger] a[k].version),
        forall|k: int| 0 <= k < b.len() ==> lists_version(a, #[trigger] b[k].version),
    ensures
        a.len() == b.len(),
        forall|k: int| 0 <= k < a.len() ==> #[trigger] a[k].version == b[k].version,
    decreases a.len(),
{
    if a.len() == 0 {
        if b.len() > 0 {
            assert(lists_version(a, b[0].version));
        }
    } else {
        assert(lists_version(b, a[0].version));
        let j = choose|j: int| 0 <= j < b.len() && #[trigger] b[j].version == a[0].version;
        assert(lists_version(a, b[0].version));
        let i = choose|i: int| 0 <= i < a.len() && #[trigger] a[i].version == b[0].version;
        if j > 0 {
            assert(version_less(b[j].version, b[0].version));
            law_version_order_total(a[0].version, a[i].version, a[0].version);
            if i > 0 {
                assert(version_less(a[i].version, a[0].version));
            }
        }
        let a1 = a.skip(1);
        let b1 = b.skip(1);
        assert forall|k: int| 0 <= k < a1.len() implies lists_version(b1, #[trigger] a1[k].version) by {
            assert(a1[k] == a[k + 1]);
            assert(lists_version(b, a[k + 1].version));
            let m = choose|m: int| 0 <= m < b.len() && #[trigger] b[m].version == a[k + 1].version;
            assert(version_less(a[k + 1].version, a[0].version));
            law_version_order_total(a[0].version, a[0].version, a[0].version);
            assert(m != 0);
            assert(b1[m - 1] == b[m]);
        }
        assert forall|k: int| 0 <= k < b1.len() implies lists_version(a1, #[trigger] b1[k].version) by {
            assert(b1[k] == b[k + 1]);
            assert(lists_version(a, b[k + 1].version));
            let m = choose|m: int| 0 <= m < a.len() && #[trigger] a[m].version == b[k + 1].version;
            assert(version_less(b[k + 1].version, b[0].version));
            law_version_order_total(b[0].version, b[0].version, b[0].version);
            assert(m != 0);
            assert(a1[m - 1] == a[m]);
        }
        assert forall|k: int, l: int| 0 <= k < l < a1.len() implies version_less(
            #[trigger] a1[l].version,
            #[trigger] a1[k].version,
        ) by {
            assert(a1[l] == a[l + 1] && a1[k] == a[k + 1]);
        }
        assert forall|k: int, l: int| 0 <= k < l < b1.len() implies version_less(
            #[trigger] b1[l].version,
            #[trigger] b1[k].version,
        ) by {
            assert(b1[l] == b[l + 1] && b1[k] == b[k + 1]);
        }
        lemma_same_versions_same_places(a1, b1);
        assert forall|k: int| 0 <= k < a.len() implies #[trigger] a[k].version == b[k].version by {
            if k > 0 {
                assert(a[k] == a1[k - 1] && b[k] == b1[k - 1]);
            }
        }
    }
}

/// Every version that a list of releases from the entries names, a list that
/// names every entry's version names too.
proof fn lemma_listings_share_versions(
    entries: Seq<RemoteIndexEntry>,
    a: Seq<RemoteVersionView>,
    b: Seq<RemoteVersionView>,
)
    requires
        forall|k: int| 0 <= k < a.len() ==> comes_from(entries, entries.len() as int, #[trigger] a[k]),
        forall|i: int|
            0 <= i < entries.len() && #[trigger] entry_version(entries[i]) is Some ==> lists_version(
                b,
                entry_version(entries[i]).unwrap(),
            ),
    ensures
        forall|k: int| 0 <= k < a.len() ==> lists_version(b, #[trigger] a[k].version),
{
    let n = entries.len() as int;
    assert forall|k: int| 0 <= k < a.len() implies lists_version(b, #[trigger] a[k].version) by {
        assert(comes_from(entries, n, a[k]));
        let i = choose|i: int|
            #![trigger first_with_version(entries, i)]
            0 <= i < n && first_with_version(entries, i) && a[k] == entry_release(
                entries[i],
                entry_version(entries[i]).unwrap(),
            );
        assert(entry_version(entries[i]) is Some);
    }
}

/// Two releases that come from the entries with the same version are the same release.
proof fn lemma_release_of_version(
    entries: Seq<RemoteIndexEntry>,
    x: RemoteVersionView,
    y: RemoteVersionView,
)
    requires
        comes_from(entries, entries.len() as int, x),
        comes_from(entries, entries.len() as int, y),
        x.version == y.version,
    ensures
        x == y,
{
    let n = entries.len() as int;
    let i = choose|i: int|
        #![trigger first_with_version(entries, i)]
        0 <= i < n && first_with_version(entries, i) && x == entry_release(
            entries[i],
            entry_version(entries[i]).unwrap(),
        );
    let j = choose|j: int|
        #![trigger first_with_version(entries, j)]
        0 <= j < n && first_with_version(entries, j) && y == entry_release(
            entries[j],
            entry_version(entries[j]).unwrap(),
        );
    assert(entry_version(entries[i]) == entry_version(entries[j]));
    if i < j {
        assert(entry_version(entries[i]) != entry_version(entries[j]));
    } else if j < i {
        assert(entry_version(entries[j]) != entry_version(entries[i]));
    }
}

/// The listing of an index's releases is determined by its entries: two
/// lists that both list them are the same list.
pub proof fn law_release_listing_unique(
    entries: Seq<RemoteIndexEntry>,
    a: Seq<RemoteVersionView>,
    b: Seq<RemoteVersionView>,
)
    requires
        lists_releases(entries, a),
        lists_releases(entries, b),
    ensures
        a == b,
{
    lemma_listings_share_versions(entries, a, b);
    lemma_listings_share_versions(entries, b, a);
    lemma_same_versions_same_places(a, b);
    assert forall|k: int| 0 <= k < a.len() implies #[trigger] a[k] == b[k] by {
        assert(a[k].version == b[k].version);
        lemma_release_of_version(entries, a[k], b[k]);
    }
    assert(a =~= b);
}

/// The entries of one compiler family.
pub open spec fn tool_entries(index: RemoteIndex, tool: Tool) -> Seq<RemoteIndexEntry> {
    match tool {
        Tool::Llvm => index.compilers.llvm@,
        Tool::Gcc => index.compilers.gcc@,
    }
}

/// The views of a list of releases.
pub open spec fn remote_versions_view(v: Seq<RemoteVersion>) -> Seq<RemoteVersionView> {
    v.map_values(|r: RemoteVersion| remote_version_view(r))
}

/// The schema error, naming the version found.
pub open spec fn schema_error(n: u32) -> Seq<char> {
    "unsupported remote index schema version: "@ + decimal_text(n as nat)
}

/// The position where a release of version `v` belongs in a list ordered
/// newest first: every release before it is newer.
fn insertion_point(list: &Vec<RemoteVersion>, v: &Version) -> (r: usize)
    requires
        forall|k: int, l: int|
            0 <= k < l < list@.len() ==> version_less(
                #[trigger] list@[l].version@,
                #[trigger] list@[k].version@,
            ),
    ensures
        r <= list@.len(),
        forall|k: int| 0 <= k < r ==> version_less(v@, #[trigger] list@[k].version@),
        r < list@.len() ==> !version_less(v@, list@[r as int].version@),
{
    let mut p: usize = 0;
    while p < list.len()
        invariant
            p <= list@.len(),
            forall|k: int| 0 <= k < p ==> version_less(v@, #[trigger] list@[k].version@),
        decreases list@.len() - p,
    {
        if !v.is_older_than(&list[p].version) {
            return p;
        }
        p = p + 1;
    }
    p
}

/// A release from the first `n` entries also comes from the first `m >= n`.
proof fn lemma_comes_from_grow(es: Seq<RemoteIndexEntry>, n: int, m: int, r: RemoteVersionView)
    requires
        n <= m,
        comes_from(es, n, r),
    ensures
        comes_from(es, m, r),
{
    let j = choose|j: int|
        #![trigger first_with_version(es, j)]
        0 <= j < n && first_with_version(es, j) && r == entry_release(
            es[j],
            entry_version(es[j]).unwrap(),
        );
    assert(first_with_version(es, j));
}

/// An entry whose version text does not parse adds nothing.
proof fn lemma_lists_skip_unparsed(es: Seq<RemoteIndexEntry>, i: int, list: Seq<RemoteVersionView>)
    requires
        0 <= i < es.len(),
        lists_releases_upto(es, i, list),
        entry_version(es[i]) is None,
    ensures
        lists_releases_upto(es, i + 1, list),
{
    assert forall|k: int| 0 <= k < list.len() implies comes_from(es, i + 1, #[trigger] list[k]) by {
        lemma_comes_from_grow(es, i, i + 1, list[k]);
    }
}

/// An entry naming a version that is already listed adds nothing.
proof fn lemma_lists_skip_duplicate(
    es: Seq<RemoteIndexEntry>,
    i: int,
    list: Seq<RemoteVersionView>,
    p: int,
)
    requires
        0 <= i < es.len(),
        0 <= p < list.len(),
        lists_releases_upto(es, i, list),
        entry_version(es[i]) == Some(list[p].version),
    ensures
        lists_releases_upto(es, i + 1, list),
{
    assert forall|k: int| 0 <= k < list.len() implies comes_from(es, i + 1, #[trigger] list[k]) by {
        lemma_comes_from_grow(es, i, i + 1, list[k]);
    }
    assert(lists_version(list, entry_version(es[i]).unwrap())) by {
        assert(list[p].version == entry_version(es[i]).unwrap());
    }
}

/// Inserting a version at the place the order gives it keeps the list ordered.
proof fn lemma_insert_keeps_order(list: Seq<RemoteVersionView>, p: int, r: RemoteVersionView)
    requires
        0 <= p <= list.len(),
        forall|k: int, l: int|
            0 <= k < l < list.len() ==> version_less(#[trigger] list[l].version, #[trigger] list[k].version),
        forall|k: int| 0 <= k < p ==> version_less(r.version, #[trigger] list[k].version),
        p < list.len() ==> version_less(list[p].version, r.version),
    ensures
        forall|k: int, l: int|
            0 <= k < l < list.len() + 1 ==> version_less(
                #[trigger] list.insert(p, r)[l].version,
                #[trigger] list.insert(p, r)[k].version,
            ),
{
    let after = list.insert(p, r);
    assert forall|k: int, l: int| 0 <= k < l < after.len() implies version_less(
        #[trigger] after[l].version,
        #[trigger] after[k].version,
    ) by {
        if l < p {
            assert(after[l] == list[l] && after[k] == list[k]);
        } else if l == p {
            assert(after[k] == list[k]);
        } else if k > p {
            assert(after[l] == list[l - 1] && after[k] == list[k - 1]);
        } else if k == p {
            assert(after[l] == list[l - 1]);
            if l - 1 > p {
                law_version_order_total(list[l - 1].version, list[p].version, r.version);
            }
        } else {
            assert(after[l] == list[l - 1] && after[k] == list[k]);
            if l - 1 > p {
                law_version_order_total(list[l - 1].version, list[p].version, r.version);
            }
            law_version_order_total(list[l - 1].version, r.version, list[k].version);
        }
    }
}

/// An entry whose version is not yet listed is the first to name it.
proof fn lemma_new_version_is_first(es: Seq<RemoteIndexEntry>, i: int, list: Seq<RemoteVersionView>, v: VersionView)
    requires
        0 <= i < es.len(),
        lists_releases_upto(es, i, list),
        entry_version(es[i]) == Some(v),
        !lists_version(list, v),
    ensures
        first_with_version(es, i),
{
    assert forall|j: int| 0 <= j < i implies entry_version(es[j]) != entry_version(es[i]) by {
        if entry_version(es[j]) == entry_version(es[i]) {
            assert(entry_version(es[j]) is Some);
        }
    }
}

/// An entry naming a version not yet listed is the first to name it, and its
/// release goes in at the place the order gives it.
proof fn lemma_lists_insert_new(
    es: Seq<RemoteIndexEntry>,
    i: int,
    list: Seq<RemoteVersionView>,
    p: int,
    v: VersionView,
)
    requires
        0 <= i < es.len(),
        0 <= p <= list.len(),
        lists_releases_upto(es, i, list),
        entry_version(es[i]) == Some(v),
        forall|k: int| 0 <= k < p ==> version_less(v, #[trigger] list[k].version),
        p < list.len() ==> !version_less(v, list[p].version) && list[p].version != v,
    ensures
        lists_releases_upto(es, i + 1, list.insert(p, entry_release(es[i], v))),
{
    let r = entry_release(es[i], v);
    let after = list.insert(p, r);
    assert(!lists_version(list, v)) by {
        if lists_version(list, v) {
            let k = choose|k: int| 0 <= k < list.len() && #[trigger] list[k].version == v;
            if k < p {
                law_version_order_total(v, v, v);
            } else if k > p {
                law_version_order_total(v, list[p].version, v);
                assert(version_less(list[k].version, list[p].version));
            }
        }
    }
    lemma_new_version_is_first(es, i, list, v);
    if p < list.len() {
        law_version_order_total(v, list[p].version, v);
    }
    lemma_insert_keeps_order(list, p, r);
    assert forall|k: int| 0 <= k < after.len() implies comes_from(es, i + 1, #[trigger] after[k]) by {
        if k == p {
            assert(after[k] == r);
            assert(first_with_version(es, i));
        } else {
            let kk = if k < p { k } else { k - 1 };
            assert(after[k] == list[kk]);
            lemma_comes_from_grow(es, i, i + 1, list[kk]);
        }
    }
    assert forall|j: int| 0 <= j < i + 1 && #[trigger] entry_version(es[j]) is Some implies lists_version(
        after,
        entry_version(es[j]).unwrap(),
    ) by {
        if j == i {
            assert(after[p].version == v);
        } else {
            assert(lists_version(list, entry_version(es[j]).unwrap()));
            let k = choose|k: int|
                0 <= k < list.len() && #[trigger] list[k].version == entry_version(es[j]).unwrap();
            if k < p {
                assert(after[k] == list[k]);
            } else {
                assert(after[k + 1] == list[k]);
            }
        }
    }
}

/// The releases of one compiler family: entries whose version text is not a
/// valid version are skipped, the rest are ordered newest first, and of
/// entries naming the same version only the first is kept.
pub fn remote_versions_from_index(index: &RemoteIndex, tool: Tool) -> (r: Vec<RemoteVersion>)
    ensures
        lists_releases(tool_entries(*index, tool), remote_versions_view(r@)),
{
    let entries = match tool {
        Tool::Llvm => &index.compilers.llvm,
        Tool::Gcc => &index.compilers.gcc,
    };
    let ghost es = entries@;
    let mut list: Vec<RemoteVersion> = Vec::new();
    let mut i: usize = 0;
    assert(remote_versions_view(list@) =~= Seq::<RemoteVersionView>::empty());
    while i < entries.len()
        invariant
            es == entries@,
            es == tool_entries(*index, tool),
            i <= es.len(),
            lists_releases_upto(es, i as int, remote_versions_view(list@)),
        decreases es.len() - i,
    {
        let entry = &entries[i];
        let ghost before = remote_versions_view(list@);
        match Version::parse(entry.version.as_str()) {
            Err(_) => {
                proof {
                    reveal(entry_version);
                    lemma_lists_skip_unparsed(es, i as int, before);
                }
            },
            Ok(v) => {
                proof {
                    reveal(entry_version);
                }
                assert forall|k: int, l: int| 0 <= k < l < list@.len() implies version_less(
                    #[trigger] list@[l].version@,
                    #[trigger] list@[k].version@,
                ) by {
                    assert(before[k].version == list@[k].version@);
                    assert(before[l].version == list@[l].version@);
                }
                let p = insertion_point(&list, &v);
                if p < list.len() && v == list[p].version {
                    proof {
                        assert(before[p as int].version == v@);
                        lemma_lists_skip_duplicate(es, i as int, before, p as int);
                    }
                } else {
                    let release = RemoteVersion {
                        version: v,
                        date: Some(entry.date.clone()),
                        url: entry.url.clone(),
                    };
                    proof {
                        assert(remote_version_view(release) == entry_release(es[i as int], v@));
                        assert forall|k: int| 0 <= k < p implies version_less(
                            v@,
                            #[trigger] before[k].version,
                        ) by {
                            assert(before[k].version == list@[k].version@);
                        }
                        if p < list.len() {
                            assert(before[p as int].version == list@[p as int].version@);
                            if list@[p as int].version@ == v@ {
                                lemma_version_view_injective(v, list@[p as int].version);
                            }
                        }
                        lemma_lists_insert_new(es, i as int, before, p as int, v@);
                    }
                    list.insert(p, release);
                    assert(remote_versions_view(list@) =~= before.insert(
                        p as int,
                        entry_release(es[i as int], v@),
                    ));
                }
            },
        }
        i = i + 1;
    }
    list
}

/// Checks that the index uses the schema this version of cvm reads.
pub fn parse_remote_index(index: RemoteIndex) -> (r: Result<RemoteIndex, String>)
    ensures
        index.schema_version == 1 ==> r == Ok::<RemoteIndex, String>(index),
        index.schema_version != 1 ==> (r matches Err(e) && e@ == schema_error(index.schema_version)),
{
    if index.schema_version != 1 {
        let n = decimal_string(index.schema_version);
        return Err(join2("unsupported remote index schema version: ", n.as_str()));
    }
    Ok(index)
}

/// The releases of `tool` that an index lists, once its schema is accepted.
pub fn parse_remote_index_versions(index: RemoteIndex, tool: Tool) -> (r: Result<
    Vec<RemoteVersion>,
    String,
>)
    ensures
        index.schema_version == 1 ==> (r matches Ok(list) && lists_releases(
            tool_entries(index, tool),
            remote_versions_view(list@),
        )),
        index.schema_version != 1 ==> (r matches Err(e) && e@ == schema_error(index.schema_version)),
{
    let index = match parse_remote_index(index) {
        Ok(i) => i,
        Err(e) => return Err(e),
    };
    Ok(remote_versions_from_index(&index, tool))
}

/// The tag text of a cvm release without its leading `v`.
pub open spec fn strip_tag_prefix(input: Seq<char>) -> Seq<char> {
    if input.len() > 0 && input[0] == 'v' {
        input.skip(1)
    } else {
        input
    }
}

/// A normalized tag names the same release as the text it came from, and
/// normalizing it again changes nothing.
pub proof fn law_normalized_tag(input: Seq<char>)
    ensures
        strip_tag_prefix(seq!['v'] + strip_tag_prefix(input)) == strip_tag_prefix(input),
{
    assert((seq!['v'] + strip_tag_prefix(input)).skip(1) =~= strip_tag_prefix(input));
}

/// Reads a cvm release tag: an optional `v` then a version.
pub fn parse_cvm_tag(input: &str) -> (r: Result<Version, String>)
    ensures
        version_result(r) == parse_version(strip_tag_prefix(input@)),
{
    let len = input.unicode_len();
    if len > 0 && input.get_char(0) == 'v' {
        let rest = input.substring_char(1, len);
        assert(rest@ =~= input@.skip(1));
        Version::parse(rest)
    } else {
        Version::parse(input)
    }
}

/// The tag of a cvm release, always written with a leading `v`.
pub fn normalize_cvm_tag(input: &str) -> (r: Result<String, String>)
    ensures
        match parse_version(strip_tag_prefix(input@)) {
            Ok(_) => r matches Ok(t) && t@ == seq!['v'] + strip_tag_prefix(input@),
            Err(e) => r matches Err(x) && x@ == e,
        },
{
    match parse_cvm_tag(input) {
        Ok(_) => {},
        Err(e) => return Err(e),
    }
    let len = input.unicode_len();
    proof {
        reveal_strlit("v");
    }
    if len > 0 && input.get_char(0) == 'v' {
        let rest = input.substring_char(1, len);
        assert(rest@ =~= input@.skip(1));
        Ok(join2("v", rest))
    } else {
        Ok(join2("v", input))
    }
}

/// The latest cvm release that an index names, once its schema is accepted.
pub fn parse_remote_index_latest(index: RemoteIndex) -> (r: Result<Version, String>)
    ensures
        index.schema_version == 1 ==> version_result(r) == parse_version(
            strip_tag_prefix(index.cvm.latest@),
        ),
        index.schema_version != 1 ==> (r matches Err(e) && e@ == schema_error(index.schema_version)),
{
    let index = match parse_remote_index(index) {
        Ok(i) => i,
        Err(e) => return Err(e),
    };
    parse_cvm_tag(index.cvm.latest.as_str())
}

} // verus!
