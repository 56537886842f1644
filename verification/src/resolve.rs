//! Choosing the version a command acts on: an exact version, the highest
//! installed or remote version under a prefix, or the persistent default.
use vstd::prelude::*;

use crate::remote::{remote_version_view, RemoteVersion, RemoteVersionView};
use crate::text::{join2, string_result};
use crate::tool::{
    parse_tool_text, split_tool_spec, tool_name, tool_spec_result, tool_spec_shape_error,
    parse_tool, Tool, ToolSpec,
};
use crate::text::{decimal_text, find};
use crate::version::{
    law_parse_version_text, law_prefix_text, law_version_order_total, parse_prefix, parse_version,
    prefix_matches,
    version_less, version_result, version_text, Version, VersionPrefix, VersionView,
};

verus! {

/// What cvm found on disk for the compiler families: the versions installed
/// under each and the persistent default of each, every one the outcome of
/// reading it (an error where the read failed).
pub struct LocalToolchains {
    pub llvm_installed: Result<Vec<Version>, String>,
    pub gcc_installed: Result<Vec<Version>, String>,
    pub llvm_default: Result<Option<String>, String>,
    pub gcc_default: Result<Option<String>, String>,
}

/// The installed versions of a family, or the error of reading them.
pub open spec fn installed_of(state: LocalToolchains, tool: Tool) -> Result<Seq<VersionView>, Seq<char>> {
    let r = match tool {
        Tool::Llvm => state.llvm_installed,
        Tool::Gcc => state.gcc_installed,
    };
    match r {
        Ok(v) => Ok(v@.map_values(|x: Version| x@)),
        Err(e) => Err(e@),
    }
}

/// The persistent default of a family, or the error of reading it.
pub open spec fn default_of(state: LocalToolchains, tool: Tool) -> Result<Option<Seq<char>>, Seq<char>> {
    let r = match tool {
        Tool::Llvm => state.llvm_default,
        Tool::Gcc => state.gcc_default,
    };
    match r {
        Ok(Some(s)) => Ok(Some(s@)),
        Ok(None) => Ok(None),
        Err(e) => Err(e@),
    }
}

/// The highest version under `p`; of equal versions the later one.
pub open spec fn highest_matching(vs: Seq<VersionView>, p: VersionPrefix) -> Option<VersionView>
    decreases vs.len(),
{
    if vs.len() == 0 {
        None
    } else {
        let rest = highest_matching(vs.drop_last(), p);
        let v = vs.last();
        if !prefix_matches(v, p) {
            rest
        } else {
            match rest {
                None => Some(v),
                Some(b) => if version_less(v, b) { Some(b) } else { Some(v) },
            }
        }
    }
}

/// The highest release under `p`; of releases with equal versions the later one.
pub open spec fn highest_matching_release(rs: Seq<RemoteVersionView>, p: VersionPrefix) -> Option<RemoteVersionView>
    decreases rs.len(),
{
    if rs.len() == 0 {
        None
    } else {
        let rest = highest_matching_release(rs.drop_last(), p);
        let r = rs.last();
        if !prefix_matches(r.version, p) {
            rest
        } else {
            match rest {
                None => Some(r),
                Some(b) => if version_less(r.version, b.version) { Some(b) } else { Some(r) },
            }
        }
    }
}

/// The highest matching version is a version of the list that lies under the
/// prefix and that no other such version exceeds; there is one exactly when
/// some version of the list lies under the prefix.
pub proof fn law_highest_matching(vs: Seq<VersionView>, p: VersionPrefix)
    ensures
        highest_matching(vs, p) is None <==> forall|i: int| 0 <= i < vs.len() ==> !prefix_matches(#[trigger] vs[i], p),
        highest_matching(vs, p) matches Some(h) ==> {
            &&& vs.contains(h)
            &&& prefix_matches(h, p)
            &&& forall|i: int| 0 <= i < vs.len() && prefix_matches(vs[i], p) ==> !version_less(h, #[trigger] vs[i])
        },
    decreases vs.len(),
{
    if vs.len() > 0 {
        let init = vs.drop_last();
        law_highest_matching(init, p);
        let v = vs.last();
        assert(vs[vs.len() - 1] == v);
        assert forall|i: int| 0 <= i < init.len() implies #[trigger] init[i] == vs[i] by {}
        let h = highest_matching(vs, p);
        if !prefix_matches(v, p) {
            assert(h == highest_matching(init, p));
            if h is None {
                assert forall|i: int| 0 <= i < vs.len() implies !prefix_matches(#[trigger] vs[i], p) by {
                    if i < vs.len() - 1 {
                        assert(init[i] == vs[i]);
                    }
                }
            } else {
                let b = h.unwrap();
                let bi = choose|bi: int| 0 <= bi < init.len() && init[bi] == b;
                assert(vs[bi] == b);
                assert forall|i: int| 0 <= i < vs.len() && prefix_matches(vs[i], p) implies !version_less(
                    b,
                    #[trigger] vs[i],
                ) by {
                    assert(i < vs.len() - 1);
                    assert(init[i] == vs[i]);
                }
            }
        } else {
            assert(h is Some);
            match highest_matching(init, p) {
                None => {
                    assert(h == Some(v));
                    assert forall|i: int| 0 <= i < vs.len() && prefix_matches(vs[i], p) implies !version_less(
                        v,
                        #[trigger] vs[i],
                    ) by {
                        if i < vs.len() - 1 {
                            assert(init[i] == vs[i]);
                        } else {
                            law_version_order_total(v, v, v);
                        }
                    }
                },
                Some(b) => {
                    let bi = choose|bi: int| 0 <= bi < init.len() && init[bi] == b;
                    assert(vs[bi] == b);
                    let hh = h.unwrap();
                    law_version_order_total(v, b, v);
                    law_version_order_total(b, b, b);
                    law_version_order_total(v, v, v);
                    assert forall|i: int| 0 <= i < vs.len() && prefix_matches(vs[i], p) implies !version_less(
                        hh,
                        #[trigger] vs[i],
                    ) by {
                        if i < vs.len() - 1 {
                            assert(init[i] == vs[i]);
                            assert(!version_less(b, vs[i]));
                            law_version_order_total(v, b, vs[i]);
                            law_version_order_total(b, v, vs[i]);
                        }
                    }
                },
            }
        }
    }
}

/// The remote release chosen for a prefix is a release of the list whose
/// version lies under the prefix and that no other such release exceeds; there
/// is one exactly when some release of the list lies under the prefix.
pub proof fn law_highest_matching_release(rs: Seq<RemoteVersionView>, p: VersionPrefix)
    ensures
        highest_matching_release(rs, p) is None <==> forall|i: int| 0 <= i < rs.len() ==> !prefix_matches(#[trigger] rs[i].version, p),
        highest_matching_release(rs, p) matches Some(h) ==> {
            &&& rs.contains(h)
            &&& prefix_matches(h.version, p)
            &&& forall|i: int| 0 <= i < rs.len() && prefix_matches(rs[i].version, p) ==> !version_less(h.version, #[trigger] rs[i].version)
        },
    decreases rs.len(),
{
    if rs.len() > 0 {
        let init = rs.drop_last();
        law_highest_matching_release(init, p);
        let v = rs.last();
        assert(rs[rs.len() - 1] == v);
        assert forall|i: int| 0 <= i < init.len() implies #[trigger] init[i] == rs[i] by {}
        let h = highest_matching_release(rs, p);
        if !prefix_matches(v.version, p) {
            assert(h == highest_matching_release(init, p));
            if h is None {
                assert forall|i: int| 0 <= i < rs.len() implies !prefix_matches(#[trigger] rs[i].version, p) by {
                    if i < rs.len() - 1 {
                        assert(init[i] == rs[i]);
                    }
                }
            } else {
                let b = h.unwrap();
                let bi = choose|bi: int| 0 <= bi < init.len() && init[bi] == b;
                assert(rs[bi] == b);
                assert forall|i: int| 0 <= i < rs.len() && prefix_matches(rs[i].version, p) implies !version_less(
                    b.version,
                    #[trigger] rs[i].version,
                ) by {
                    assert(i < rs.len() - 1);
                    assert(init[i] == rs[i]);
                }
            }
        } else {
            assert(h is Some);
            match highest_matching_release(init, p) {
                None => {
                    assert(h == Some(v));
                    assert forall|i: int| 0 <= i < rs.len() && prefix_matches(rs[i].version, p) implies !version_less(
                        v.version,
                        #[trigger] rs[i].version,
                    ) by {
                        if i < rs.len() - 1 {
                            assert(init[i] == rs[i]);
                        } else {
                            law_version_order_total(v.version, v.version, v.version);
                        }
                    }
                },
                Some(b) => {
                    let bi = choose|bi: int| 0 <= bi < init.len() && init[bi] == b;
                    assert(rs[bi] == b);
                    let hh = h.unwrap();
                    law_version_order_total(v.version, b.version, v.version);
                    law_version_order_total(b.version, b.version, b.version);
                    law_version_order_total(v.version, v.version, v.version);
                    assert forall|i: int| 0 <= i < rs.len() && prefix_matches(rs[i].version, p) implies !version_less(
                        hh.version,
                        #[trigger] rs[i].version,
                    ) by {
                        if i < rs.len() - 1 {
                            assert(init[i] == rs[i]);
                            assert(!version_less(b.version, rs[i].version));
                            law_version_order_total(v.version, b.version, rs[i].version);
                            law_version_order_total(b.version, v.version, rs[i].version);
                        }
                    }
                },
            }
        }
    }
}

/// The versions named by a list of directory names: those that are valid
/// version texts, in order.
pub open spec fn parsed_names(names: Seq<Seq<char>>) -> Seq<VersionView>
    decreases names.len(),
{
    if names.len() == 0 {
        Seq::empty()
    } else {
        let rest = parsed_names(names.drop_last());
        match parse_version(names.last()) {
            Ok(v) => rest.push(v),
            Err(_) => rest,
        }
    }
}

/// The versions installed, from the names of the directories under a
/// family's toolchain root; names that are not versions are skipped.
pub fn installed_versions_from_names(names: &Vec<String>) -> (r: Vec<Version>)
    ensures
        r@.map_values(|x: Version| x@) == parsed_names(names@.map_values(|s: String| s@)),
{
    let mut out: Vec<Version> = Vec::new();
    let mut i: usize = 0;
    let ghost ns = names@.map_values(|s: String| s@);
    while i < names.len()
        invariant
            i <= names@.len(),
            ns == names@.map_values(|s: String| s@),
            out@.map_values(|x: Version| x@) == parsed_names(ns.take(i as int)),
        decreases names@.len() - i,
    {
        assert(ns.take(i + 1).drop_last() =~= ns.take(i as int));
        assert(ns.take(i + 1).last() == names@[i as int]@);
        match Version::parse(names[i].as_str()) {
            Ok(v) => {
                out.push(v);
                assert(out@.map_values(|x: Version| x@) =~= parsed_names(ns.take(i as int)).push(v@));
            },
            Err(_) => {},
        }
        i = i + 1;
    }
    assert(ns.take(names@.len() as int) =~= ns);
    out
}

/// The highest of `versions` that lies under `prefix`.
pub fn resolve_highest_matching_version(versions: Vec<Version>, prefix: &VersionPrefix) -> (r: Option<Version>)
    ensures
        match r {
            Some(v) => highest_matching(versions@.map_values(|x: Version| x@), *prefix) == Some(v@),
            None => highest_matching(versions@.map_values(|x: Version| x@), *prefix) is None,
        },
{
    let ghost vs = versions@.map_values(|x: Version| x@);
    let mut best: Option<Version> = None;
    let mut i: usize = 0;
    while i < versions.len()
        invariant
            i <= versions@.len(),
            vs == versions@.map_values(|x: Version| x@),
            match best {
                Some(b) => highest_matching(vs.take(i as int), *prefix) == Some(b@),
                None => highest_matching(vs.take(i as int), *prefix) is None,
            },
        decreases versions@.len() - i,
    {
        assert(vs.take(i + 1).drop_last() =~= vs.take(i as int));
        assert(vs.take(i + 1).last() == versions@[i as int]@);
        let v = &versions[i];
        if v.matches_prefix(prefix) {
            let keep_best = match &best {
                Some(b) => v.is_older_than(b),
                None => false,
            };
            if !keep_best {
                best = Some(*v);
            }
        }
        i = i + 1;
    }
    assert(vs.take(versions@.len() as int) =~= vs);
    best
}

/// The highest of `releases` that lies under `prefix`.
fn highest_matching_remote(releases: Vec<RemoteVersion>, prefix: &VersionPrefix) -> (r: Option<RemoteVersion>)
    ensures
        match r {
            Some(v) => highest_matching_release(releases@.map_values(|x: RemoteVersion| remote_version_view(x)), *prefix)
                == Some(remote_version_view(v)),
            None => highest_matching_release(releases@.map_values(|x: RemoteVersion| remote_version_view(x)), *prefix) is None,
        },
{
    let ghost rs = releases@.map_values(|x: RemoteVersion| remote_version_view(x));
    let mut best: Option<RemoteVersion> = None;
    let mut releases = releases;
    let ghost all = releases@;
    let mut i: usize = 0;
    let n = releases.len();
    // take the releases out from the back, then walk them front to back
    let mut reversed: Vec<RemoteVersion> = Vec::new();
    while releases.len() > 0
        invariant
            releases@.len() + reversed@.len() == all.len(),
            n == all.len(),
            forall|k: int| 0 <= k < releases@.len() ==> #[trigger] releases@[k] == all[k],
            forall|k: int| 0 <= k < reversed@.len() ==> #[trigger] reversed@[k] == all[all.len() - 1 - k],
        decreases releases@.len(),
    {
        let x = releases.pop().unwrap();
        reversed.push(x);
    }
    while i < n
        invariant
            i <= n,
            n == all.len(),
            rs == all.map_values(|x: RemoteVersion| remote_version_view(x)),
            reversed@.len() == n - i,
            forall|k: int| 0 <= k < reversed@.len() ==> #[trigger] reversed@[k] == all[all.len() - 1 - k],
            match best {
                Some(b) => highest_matching_release(rs.take(i as int), *prefix) == Some(remote_version_view(b)),
                None => highest_matching_release(rs.take(i as int), *prefix) is None,
            },
        decreases n - i,
    {
        let x = reversed.pop().unwrap();
        assert(x == all[i as int]);
        assert(rs.take(i + 1).drop_last() =~= rs.take(i as int));
        assert(rs.take(i + 1).last() == remote_version_view(x));
        if x.version.matches_prefix(prefix) {
            let keep_best = match &best {
                Some(b) => x.version.is_older_than(&b.version),
                None => false,
            };
            if !keep_best {
                best = Some(x);
            }
        }
        i = i + 1;
    }
    assert(rs.take(n as int) =~= rs);
    best
}

/// The error when no installed version lies under a prefix.
pub open spec fn no_installed_match_error(tool: Tool, input: Seq<char>) -> Seq<char> {
    "no installed "@ + tool_name(tool) + " version matches prefix "@ + input
}

/// What `resolve_local_or_exact_version` gives: an exact version as written,
/// else the highest installed version under the prefix written.
pub open spec fn local_or_exact(tool: Tool, input: Seq<char>, installed: Result<Seq<VersionView>, Seq<char>>) -> Result<VersionView, Seq<char>> {
    match parse_version(input) {
        Ok(v) => Ok(v),
        Err(_) => match parse_prefix(input) {
            Err(e) => Err(e),
            Ok(p) => match installed {
                Err(e) => Err(e),
                Ok(vs) => match highest_matching(vs, p) {
                    Some(v) => Ok(v),
                    None => Err(no_installed_match_error(tool, input)),
                },
            },
        },
    }
}

/// The version a command acts on, resolved against what is installed: an
/// exact version is taken as written; a prefix gives an installed version
/// that agrees with every number the prefix gives (major, and minor and patch
/// where given) and that no installed version agreeing with them exceeds,
/// and fails only when no installed version agrees with them.
pub proof fn law_local_resolution(tool: Tool, input: Seq<char>, vs: Seq<VersionView>)
    ensures
        parse_version(input) matches Ok(v) ==> local_or_exact(tool, input, Ok(vs)) == Ok::<
            VersionView,
            Seq<char>,
        >(v),
        parse_version(input) is Err && parse_prefix(input) is Ok ==> ({
            let p = parse_prefix(input)->Ok_0;
            match local_or_exact(tool, input, Ok(vs)) {
                Ok(v) => {
                    &&& vs.contains(v)
                    &&& v.major == p.major
                    &&& (p.minor matches Some(m) ==> v.minor == m)
                    &&& (p.patch matches Some(q) ==> v.patch == q)
                    &&& forall|i: int|
                        0 <= i < vs.len() && vs[i].major == p.major && (p.minor matches Some(m)
                            ==> vs[i].minor == m) && (p.patch matches Some(q) ==> vs[i].patch == q)
                            ==> !version_less(v, #[trigger] vs[i])
                },
                Err(_) => forall|i: int|
                    0 <= i < vs.len() ==> !(#[trigger] vs[i].major == p.major && (p.minor matches Some(
                        m,
                    ) ==> vs[i].minor == m) && (p.patch matches Some(q) ==> vs[i].patch == q)),
            }
        }),
{
    if parse_version(input) is Err && parse_prefix(input) is Ok {
        let p = parse_prefix(input)->Ok_0;
        law_highest_matching(vs, p);
        assert forall|i: int| 0 <= i < vs.len() implies prefix_matches(vs[i], p) == (vs[i].major
            == p.major && (p.minor matches Some(m) ==> vs[i].minor == m) && (p.patch matches Some(q)
            ==> vs[i].patch == q)) by {}
    }
}

/// Resolving `X.Y` against the installed versions gives the highest installed
/// version with major `X` and minor `Y`, and `X` the highest with major `X`:
/// `14.1` among 14.1.0 and 14.2.0 is 14.1.0.
pub proof fn law_local_resolution_of_numbers(tool: Tool, major: u32, minor: u32, vs: Seq<VersionView>)
    ensures
        local_or_exact(tool, decimal_text(major as nat) + "."@ + decimal_text(minor as nat), Ok(vs)) matches Ok(v)
            ==> vs.contains(v) && v.major == major && v.minor == minor && forall|i: int|
            0 <= i < vs.len() && vs[i].major == major && vs[i].minor == minor ==> !version_less(
                v,
                #[trigger] vs[i],
            ),
        (exists|i: int| 0 <= i < vs.len() && #[trigger] vs[i].major == major && vs[i].minor == minor)
            ==> local_or_exact(tool, decimal_text(major as nat) + "."@ + decimal_text(minor as nat), Ok(vs)) is Ok,
        local_or_exact(tool, decimal_text(major as nat), Ok(vs)) matches Ok(v) ==> vs.contains(v)
            && v.major == major && forall|i: int|
            0 <= i < vs.len() && vs[i].major == major ==> !version_less(v, #[trigger] vs[i]),
{
    law_prefix_text(major, minor);
    law_local_resolution(tool, decimal_text(major as nat) + "."@ + decimal_text(minor as nat), vs);
    law_local_resolution(tool, decimal_text(major as nat), vs);
}

/// A message naming a family and a text: `start` `tool` `middle` `text`.
fn tool_message(start: &str, tool: Tool, middle: &str, text: &str) -> (r: String)
    ensures
        r@ == start@ + tool_name(tool) + middle@ + text@,
{
    let mut m = join2(start, tool.as_str());
    m.append(middle);
    m.append(text);
    m
}

fn installed_for(state: &LocalToolchains, tool: Tool) -> (r: Result<Vec<Version>, String>)
    ensures
        match r {
            Ok(v) => installed_of(*state, tool) == Ok::<Seq<VersionView>, Seq<char>>(v@.map_values(|x: Version| x@)),
            Err(e) => installed_of(*state, tool) == Err::<Seq<VersionView>, Seq<char>>(e@),
        },
{
    let src = match tool {
        Tool::Llvm => &state.llvm_installed,
        Tool::Gcc => &state.gcc_installed,
    };
    match src {
        Ok(v) => Ok(clone_versions(v)),
        Err(e) => Err(e.clone()),
    }
}

fn clone_versions(v: &Vec<Version>) -> (r: Vec<Version>)
    ensures
        r@ == v@,
{
    let mut out: Vec<Version> = Vec::new();
    let mut i: usize = 0;
    while i < v.len()
        invariant
            i <= v@.len(),
            out@ == v@.take(i as int),
        decreases v@.len() - i,
    {
        out.push(v[i]);
        assert(out@ =~= v@.take(i + 1));
        i = i + 1;
    }
    assert(v@.take(v@.len() as int) =~= v@);
    out
}

/// An exact version as written, else the highest installed version of `tool`
/// under the prefix written.
pub fn resolve_local_or_exact_version(tool: Tool, input: &str, state: &LocalToolchains) -> (r: Result<Version, String>)
    ensures
        version_result(r) == local_or_exact(tool, input@, installed_of(*state, tool)),
{
    match Version::parse(input) {
        Ok(v) => return Ok(v),
        Err(_) => {},
    }
    let prefix = match VersionPrefix::parse(input) {
        Ok(p) => p,
        Err(e) => return Err(e),
    };
    let installed = match installed_for(state, tool) {
        Ok(v) => v,
        Err(e) => return Err(e),
    };
    match resolve_highest_matching_version(installed, &prefix) {
        Some(v) => Ok(v),
        None => Err(tool_message("no installed ", tool, " version matches prefix ", input)),
    }
}

/// The error when a family has no persistent default.
pub open spec fn no_default_error(tool: Tool) -> Seq<char> {
    "no default version configured for "@ + tool_name(tool)
}

/// What `resolve_requested_version` gives: the version written (exact or a
/// prefix of an installed one), else the family's persistent default.
pub open spec fn requested_version(tool: Tool, explicit: Option<Seq<char>>, state: LocalToolchains) -> Result<VersionView, Seq<char>> {
    match explicit {
        Some(input) => local_or_exact(tool, input, installed_of(state, tool)),
        None => match default_of(state, tool) {
            Err(e) => Err(e),
            Ok(None) => Err(no_default_error(tool)),
            Ok(Some(d)) => parse_version(d),
        },
    }
}

/// The version a command acts on: the one written, else the default.
pub fn resolve_requested_version(tool: Tool, explicit: Option<&str>, state: &LocalToolchains) -> (r: Result<Version, String>)
    ensures
        version_result(r) == requested_version(
            tool,
            match explicit {
                Some(s) => Some(s@),
                None => None,
            },
            *state,
        ),
{
    if let Some(version) = explicit {
        return resolve_local_or_exact_version(tool, version, state);
    }
    let default = match tool {
        Tool::Llvm => &state.llvm_default,
        Tool::Gcc => &state.gcc_default,
    };
    match default {
        Err(e) => Err(e.clone()),
        Ok(None) => Err(join2("no default version configured for ", tool.as_str())),
        Ok(Some(d)) => Version::parse(d.as_str()),
    }
}

/// What `parse_tool_spec_request` gives: `tool@version-or-prefix`, the
/// version resolved against what is installed.
pub open spec fn tool_spec_request(input: Seq<char>, state: LocalToolchains) -> Result<(Tool, VersionView), Seq<char>> {
    match find(input, seq!['@']) {
        None => Err(tool_spec_shape_error(input)),
        Some(i) => match parse_tool_text(input.take(i)) {
            Err(e) => Err(e),
            Ok(tool) => match requested_version(tool, Some(input.skip(i + 1)), state) {
                Err(e) => Err(e),
                Ok(v) => Ok((tool, v)),
            },
        },
    }
}

/// Reads `llvm@X[.Y[.Z]]` or `gcc@...`, a prefix standing for the highest
/// installed version under it.
pub fn parse_tool_spec_request(input: &str, state: &LocalToolchains) -> (r: Result<ToolSpec, String>)
    ensures
        tool_spec_result(r) == tool_spec_request(input@, *state),
{
    let (tool, version) = match split_tool_spec(input) {
        Some(pair) => pair,
        None => {
            return Err(join2("tool spec must look like llvm@21.1.8 or gcc@15.1.0: ", input));
        },
    };
    let tool = match parse_tool(tool) {
        Ok(t) => t,
        Err(e) => return Err(e),
    };
    let version = match resolve_requested_version(tool, Some(version), state) {
        Ok(v) => v,
        Err(e) => return Err(e),
    };
    Ok(ToolSpec { tool, version })
}

/// The oldest LLVM release cvm builds.
pub open spec fn llvm_min_supported() -> VersionView {
    VersionView { major: 9, minor: 0, patch: 1, rc: None }
}

/// The first LLVM release whose source archive carries `.src`.
pub open spec fn llvm_src_suffix_from() -> VersionView {
    VersionView { major: 11, minor: 0, patch: 1, rc: None }
}

/// What `default_source_url` gives: the upstream source archive of a release.
pub open spec fn source_url(tool: Tool, v: VersionView) -> Result<Seq<char>, Seq<char>> {
    let t = version_text(v);
    match tool {
        Tool::Gcc => Ok("https://ftp.gnu.org/gnu/gcc/gcc-"@ + t + "/gcc-"@ + t + ".tar.xz"@),
        Tool::Llvm => if version_less(v, llvm_min_supported()) {
            Err("LLVM versions older than 9.0.1 are not supported"@)
        } else if !version_less(v, llvm_src_suffix_from()) {
            Ok("https://github.com/llvm/llvm-project/releases/download/llvmorg-"@ + t
                + "/llvm-project-"@ + t + ".src.tar.xz"@)
        } else {
            Ok("https://github.com/llvm/llvm-project/releases/download/llvmorg-"@ + t
                + "/llvm-project-"@ + t + ".tar.xz"@)
        },
    }
}

/// The upstream archive of a release: GCC releases from ftp.gnu.org; LLVM
/// releases refused below 9.0.1, and from 11.0.1 on (release candidates of
/// later releases included) the `.src.tar.xz` archive, before it the
/// `.tar.xz` one. Which archive is chosen depends only on where the version
/// lies in the version order.
pub proof fn law_source_archive_url(v: VersionView, w: VersionView)
    ensures
        source_url(Tool::Gcc, v) == Ok::<Seq<char>, Seq<char>>(
            "https://ftp.gnu.org/gnu/gcc/gcc-"@ + version_text(v) + "/gcc-"@ + version_text(v) + ".tar.xz"@,
        ),
        version_less(v, VersionView { major: 9, minor: 0, patch: 1, rc: None }) <==> source_url(
            Tool::Llvm,
            v,
        ) is Err,
        v.major < 9 ==> source_url(Tool::Llvm, v) == Err::<Seq<char>, Seq<char>>(
            "LLVM versions older than 9.0.1 are not supported"@,
        ),
        !version_less(v, VersionView { major: 11, minor: 0, patch: 1, rc: None }) ==> source_url(
            Tool::Llvm,
            v,
        ) == Ok::<Seq<char>, Seq<char>>(
            "https://github.com/llvm/llvm-project/releases/download/llvmorg-"@ + version_text(v)
                + "/llvm-project-"@ + version_text(v) + ".src.tar.xz"@,
        ),
        v.major >= 12 ==> source_url(Tool::Llvm, v) == Ok::<Seq<char>, Seq<char>>(
            "https://github.com/llvm/llvm-project/releases/download/llvmorg-"@ + version_text(v)
                + "/llvm-project-"@ + version_text(v) + ".src.tar.xz"@,
        ),
        !version_less(v, VersionView { major: 9, minor: 0, patch: 1, rc: None }) && version_less(
            v,
            VersionView { major: 11, minor: 0, patch: 1, rc: None },
        ) ==> source_url(Tool::Llvm, v) == Ok::<Seq<char>, Seq<char>>(
            "https://github.com/llvm/llvm-project/releases/download/llvmorg-"@ + version_text(v)
                + "/llvm-project-"@ + version_text(v) + ".tar.xz"@,
        ),
        v.major == w.major && v.minor == w.minor && v.patch == w.patch && v.major >= 12 ==> (
        source_url(Tool::Llvm, v) is Ok && source_url(Tool::Llvm, w) is Ok),
{
}

/// `start` `version` `middle` `version` `end`.
fn url_around(start: &str, t: &str, middle: &str, end: &str) -> (r: String)
    ensures
        r@ == start@ + t@ + middle@ + t@ + end@,
{
    let mut u = join2(start, t);
    u.append(middle);
    u.append(t);
    u.append(end);
    u
}

/// A release version fixed in cvm's rules.
fn release(text: &str, Ghost(v): Ghost<VersionView>) -> (r: Version)
    requires
        v.rc is None,
        text@ == version_text(v),
    ensures
        r@ == v,
{
    proof {
        law_parse_version_text(v);
    }
    match Version::parse(text) {
        Ok(r) => r,
        Err(_) => vstd::pervasive::unreached(),
    }
}

/// The upstream source archive of a release; LLVM releases before 9.0.1 are refused.
pub fn default_source_url(tool: Tool, version: &Version) -> (r: Result<String, String>)
    ensures
        string_result(r) == source_url(tool, version@),
{
    let t = version.to_string();
    match tool {
        Tool::Gcc => Ok(url_around("https://ftp.gnu.org/gnu/gcc/gcc-", t.as_str(), "/gcc-", ".tar.xz")),
        Tool::Llvm => {
            proof {
                reveal_strlit("9.0.1");
                reveal_strlit("11.0.1");
                reveal_strlit(".");
                assert(version_text(llvm_min_supported()) =~= "9.0.1"@);
                assert(version_text(llvm_src_suffix_from()) =~= "11.0.1"@);
            }
            let min_supported = release("9.0.1", Ghost(llvm_min_supported()));
            let src_suffix = release("11.0.1", Ghost(llvm_src_suffix_from()));
            if version.is_older_than(&min_supported) {
                return Err(String::from_str("LLVM versions older than 9.0.1 are not supported"));
            }
            if !version.is_older_than(&src_suffix) {
                Ok(url_around(
                    "https://github.com/llvm/llvm-project/releases/download/llvmorg-",
                    t.as_str(),
                    "/llvm-project-",
                    ".src.tar.xz",
                ))
            } else {
                Ok(url_around(
                    "https://github.com/llvm/llvm-project/releases/download/llvmorg-",
                    t.as_str(),
                    "/llvm-project-",
                    ".tar.xz",
                ))
            }
        },
    }
}

/// Where a release to install comes from.
pub struct InstallTarget {
    pub version: Version,
    pub source_url: String,
}

/// The first step of choosing what to install: either the exact version was
/// written, or the remote index must be consulted for the prefix written.
pub enum InstallTargetLookup {
    Exact(InstallTarget),
    Remote(VersionPrefix),
}

/// An exact version as written, with its upstream archive; otherwise the
/// prefix to look up in the remote index.
pub fn resolve_remote_or_exact_install_target(tool: Tool, input: &str) -> (r: Result<InstallTargetLookup, String>)
    ensures
        match parse_version(input@) {
            Ok(v) => match source_url(tool, v) {
                Ok(u) => r matches Ok(InstallTargetLookup::Exact(t)) && t.version@ == v && t.source_url@ == u,
                Err(e) => r matches Err(x) && x@ == e,
            },
            Err(_) => match parse_prefix(input@) {
                Ok(p) => r == Ok::<InstallTargetLookup, String>(InstallTargetLookup::Remote(p)),
                Err(e) => r matches Err(x) && x@ == e,
            },
        },
{
    match Version::parse(input) {
        Ok(version) => {
            let source_url = match default_source_url(tool, &version) {
                Ok(u) => u,
                Err(e) => return Err(e),
            };
            return Ok(InstallTargetLookup::Exact(InstallTarget { version, source_url }));
        },
        Err(_) => {},
    }
    match VersionPrefix::parse(input) {
        Ok(p) => Ok(InstallTargetLookup::Remote(p)),
        Err(e) => Err(e),
    }
}

/// The error when no remote release lies under a prefix.
pub open spec fn no_remote_match_error(tool: Tool, input: Seq<char>) -> Seq<char> {
    "no remote "@ + tool_name(tool) + " version matches prefix "@ + input
}

/// The highest remote release under `prefix`, with its archive URL from the index.
pub fn select_remote_install_target(
    tool: Tool,
    input: &str,
    prefix: &VersionPrefix,
    releases: Vec<RemoteVersion>,
) -> (r: Result<InstallTarget, String>)
    ensures
        match highest_matching_release(releases@.map_values(|x: RemoteVersion| remote_version_view(x)), *prefix) {
            Some(h) => r matches Ok(t) && t.version@ == h.version && t.source_url@ == h.url,
            None => r matches Err(e) && e@ == no_remote_match_error(tool, input@),
        },
{
    match highest_matching_remote(releases, prefix) {
        Some(entry) => Ok(InstallTarget { version: entry.version, source_url: entry.url }),
        None => Err(tool_message("no remote ", tool, " version matches prefix ", input)),
    }
}

} // verus!
