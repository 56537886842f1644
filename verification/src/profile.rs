//! Build profiles: the `[llvm]` and `[gcc]` settings a user writes in TOML,
//! turned into the environment variables the backend scripts read.
use vstd::prelude::*;

use crate::listing::text_less;
use crate::text::{contains_char, join2};
use crate::tool::Tool;

verus! {

/// The `[llvm]` section of a build profile.
pub struct LlvmBuildProfile {
    pub targets: Option<String>,
    pub projects: Option<String>,
    pub runtimes: Option<String>,
    pub build_type: Option<String>,
    /// The `[llvm.cmake_defines]` table: its keys in ascending order, each
    /// once (see `defines_in_key_order`).
    pub cmake_defines: Option<Vec<(String, String)>>,
}

/// The `[gcc]` section of a build profile.
pub struct GccBuildProfile {
    pub languages: Option<String>,
    pub multilib: Option<bool>,
    pub bootstrap: Option<bool>,
    pub configure_args: Option<Vec<String>>,
}

/// A build profile: either section may be missing.
pub struct BuildProfile {
    pub llvm: Option<LlvmBuildProfile>,
    pub gcc: Option<GccBuildProfile>,
}

/// The CMake definitions are listed as a TOML table yields them: keys in
/// strictly ascending text order, so each key occurs once.
pub open spec fn defines_in_key_order(defines: Option<Vec<(String, String)>>) -> bool {
    match defines {
        None => true,
        Some(ds) => forall|i: int, j: int|
            0 <= i < j < ds@.len() ==> text_less(#[trigger] ds@[i].0@, #[trigger] ds@[j].0@),
    }
}

/// Environment variables as text pairs.
pub type EnvText = Seq<(Seq<char>, Seq<char>)>;

pub open spec fn env_view(v: Seq<(String, String)>) -> EnvText {
    v.map_values(|p: (String, String)| (p.0@, p.1@))
}

/// Unicode white space, as `char::is_whitespace` defines it.
pub open spec fn is_whitespace(c: char) -> bool {
    ||| '\u{9}' <= c <= '\u{d}'
    ||| c == ' '
    ||| c == '\u{85}'
    ||| c == '\u{a0}'
    ||| c == '\u{1680}'
    ||| '\u{2000}' <= c <= '\u{200a}'
    ||| c == '\u{2028}'
    ||| c == '\u{2029}'
    ||| c == '\u{202f}'
    ||| c == '\u{205f}'
    ||| c == '\u{3000}'
}

/// Nothing but white space: what is empty once trimmed.
pub open spec fn is_blank(s: Seq<char>) -> bool {
    forall|i: int| 0 <= i < s.len() ==> #[trigger] is_whitespace(s[i])
}

/// The text holds a line feed or a carriage return.
pub open spec fn has_newline(s: Seq<char>) -> bool {
    s.contains('\n') || s.contains('\r')
}

/// Whether `c` is white space.
pub fn char_is_whitespace(c: char) -> (r: bool)
    ensures
        r == is_whitespace(c),
{
    ('\u{9}' <= c && c <= '\u{d}') || c == ' ' || c == '\u{85}' || c == '\u{a0}' || c == '\u{1680}'
        || ('\u{2000}' <= c && c <= '\u{200a}') || c == '\u{2028}' || c == '\u{2029}' || c
        == '\u{202f}' || c == '\u{205f}' || c == '\u{3000}'
}

/// Whether `s` is empty once trimmed.
pub fn trims_to_empty(s: &str) -> (r: bool)
    ensures
        r == is_blank(s@),
{
    let len = s.unicode_len();
    let mut i: usize = 0;
    while i < len
        invariant
            len == s@.len(),
            i <= len,
            forall|k: int| 0 <= k < i ==> #[trigger] is_whitespace(s@[k]),
        decreases len - i,
    {
        if !char_is_whitespace(s.get_char(i)) {
            return false;
        }
        i = i + 1;
    }
    true
}

/// The error for a field that holds a line break.
pub open spec fn newline_error(field: Seq<char>) -> Seq<char> {
    field + " must not contain newlines"@
}

/// Refuses a value that holds a line feed or a carriage return.
pub fn reject_newlines(field: &str, value: &str) -> (r: Result<(), String>)
    ensures
        has_newline(value@) ==> (r matches Err(e) && e@ == newline_error(field@)),
        !has_newline(value@) ==> r is Ok,
{
    if contains_char(value, '\n') || contains_char(value, '\r') {
        return Err(join2(field, " must not contain newlines"));
    }
    Ok(())
}

/// What setting one optional variable gives: nothing when absent; refused when
/// blank or holding a line break; else the pair.
pub open spec fn env_entry(key: Seq<char>, value: Option<Seq<char>>) -> Result<EnvText, Seq<char>> {
    match value {
        None => Ok(Seq::empty()),
        Some(v) => if is_blank(v) {
            Err(key + " must not be empty"@)
        } else if has_newline(v) {
            Err(newline_error(key))
        } else {
            Ok(seq![(key, v)])
        },
    }
}

pub open spec fn opt_string(s: Option<String>) -> Option<Seq<char>> {
    match s {
        Some(x) => Some(x@),
        None => None,
    }
}

/// Adds `key=value` when a value is given, after checking it.
pub fn push_non_empty_env(envs: &mut Vec<(String, String)>, key: &str, value: Option<String>) -> (r: Result<(), String>)
    ensures
        match env_entry(key@, opt_string(value)) {
            Ok(added) => r is Ok && env_view(final(envs)@) == env_view(old(envs)@) + added,
            Err(e) => r matches Err(x) && x@ == e && final(envs)@ == old(envs)@,
        },
{
    if let Some(value) = value {
        if trims_to_empty(value.as_str()) {
            return Err(join2(key, " must not be empty"));
        }
        match reject_newlines(key, value.as_str()) {
            Ok(()) => {},
            Err(e) => return Err(e),
        }
        let ghost before = envs@;
        envs.push((String::from_str(key), value));
        assert(env_view(envs@) =~= env_view(before) + seq![(key@, value@)]);
    } else {
        assert(env_view(envs@) =~= env_view(envs@) + Seq::<(Seq<char>, Seq<char>)>::empty());
    }
    Ok(())
}

/// Lines joined with line feeds.
pub open spec fn join_lines(lines: Seq<Seq<char>>) -> Seq<char>
    decreases lines.len(),
{
    if lines.len() == 0 {
        Seq::empty()
    } else if lines.len() == 1 {
        lines[0]
    } else {
        join_lines(lines.drop_last()) + seq!['\n'] + lines.last()
    }
}

/// The `KEY=VALUE` lines of the CMake definitions, or the first refusal: a
/// blank key, or a line break in a key or a value.
pub open spec fn define_lines(ds: Seq<(Seq<char>, Seq<char>)>) -> Result<Seq<Seq<char>>, Seq<char>>
    decreases ds.len(),
{
    if ds.len() == 0 {
        Ok(Seq::empty())
    } else {
        match define_lines(ds.drop_last()) {
            Err(e) => Err(e),
            Ok(lines) => {
                let (k, v) = ds.last();
                if is_blank(k) {
                    Err("llvm.cmake_defines contains an empty key"@)
                } else if has_newline(k) {
                    Err(newline_error("llvm.cmake_defines keys"@))
                } else if has_newline(v) {
                    Err(newline_error("llvm.cmake_defines values"@))
                } else {
                    Ok(lines.push(k + seq!['='] + v))
                }
            },
        }
    }
}

/// The configure arguments checked one by one, or the first refusal.
pub open spec fn configure_args_ok(args: Seq<Seq<char>>) -> Result<(), Seq<char>>
    decreases args.len(),
{
    if args.len() == 0 {
        Ok(())
    } else {
        match configure_args_ok(args.drop_last()) {
            Err(e) => Err(e),
            Ok(()) => if is_blank(args.last()) {
                Err("gcc.configure_args must not contain empty arguments"@)
            } else if has_newline(args.last()) {
                Err(newline_error("gcc.configure_args"@))
            } else {
                Ok(())
            },
        }
    }
}

/// Once a prefix of the definitions is refused, so is the whole table, with the same error.
proof fn lemma_define_lines_err(ds: Seq<(Seq<char>, Seq<char>)>, n: int)
    requires
        0 <= n <= ds.len(),
        define_lines(ds.take(n)) is Err,
    ensures
        define_lines(ds) == define_lines(ds.take(n)),
    decreases ds.len() - n,
{
    if n < ds.len() {
        assert(ds.take(n + 1).drop_last() =~= ds.take(n));
        lemma_define_lines_err(ds, n + 1);
    } else {
        assert(ds.take(n) =~= ds);
    }
}

/// Once a prefix of the arguments is refused, so is the whole list, with the same error.
proof fn lemma_configure_args_err(a: Seq<Seq<char>>, n: int)
    requires
        0 <= n <= a.len(),
        configure_args_ok(a.take(n)) is Err,
    ensures
        configure_args_ok(a) == configure_args_ok(a.take(n)),
    decreases a.len() - n,
{
    if n < a.len() {
        assert(a.take(n + 1).drop_last() =~= a.take(n));
        lemma_configure_args_err(a, n + 1);
    } else {
        assert(a.take(n) =~= a);
    }
}

/// Chains two steps of building the variables: the first refusal wins.
pub open spec fn then_env(a: Result<EnvText, Seq<char>>, b: Result<EnvText, Seq<char>>) -> Result<EnvText, Seq<char>> {
    match a {
        Err(e) => Err(e),
        Ok(x) => match b {
            Err(e) => Err(e),
            Ok(y) => Ok(x + y),
        },
    }
}

/// The variable for the CMake definitions, if any.
pub open spec fn defines_env(ds: Option<Seq<(Seq<char>, Seq<char>)>>) -> Result<EnvText, Seq<char>> {
    match ds {
        None => Ok(Seq::empty()),
        Some(d) => match define_lines(d) {
            Err(e) => Err(e),
            Ok(lines) => if lines.len() == 0 {
                Ok(Seq::empty())
            } else {
                Ok(seq![("CVM_LLVM_CMAKE_DEFINES"@, join_lines(lines))])
            },
        },
    }
}

pub open spec fn defines_view(ds: Option<Vec<(String, String)>>) -> Option<Seq<(Seq<char>, Seq<char>)>> {
    match ds {
        Some(d) => Some(env_view(d@)),
        None => None,
    }
}

/// What `llvm_profile_env` gives for an `[llvm]` section.
pub open spec fn llvm_env(p: LlvmBuildProfile) -> Result<EnvText, Seq<char>> {
    then_env(
        then_env(
            then_env(
                then_env(
                    env_entry("CVM_LLVM_TARGETS"@, opt_string(p.targets)),
                    env_entry("CVM_LLVM_PROJECTS"@, opt_string(p.projects)),
                ),
                env_entry("CVM_LLVM_RUNTIMES"@, opt_string(p.runtimes)),
            ),
            env_entry("CVM_LLVM_BUILD_TYPE"@, opt_string(p.build_type)),
        ),
        defines_env(defines_view(p.cmake_defines)),
    )
}

/// The text of a boolean, as `bool::to_string` writes it.
pub open spec fn bool_text(b: bool) -> Seq<char> {
    if b { "true"@ } else { "false"@ }
}

/// The variable for a boolean setting, if given.
pub open spec fn bool_env(key: Seq<char>, b: Option<bool>) -> EnvText {
    match b {
        Some(x) => seq![(key, bool_text(x))],
        None => Seq::empty(),
    }
}

/// The variable for the configure arguments, if any.
pub open spec fn configure_args_env(args: Option<Seq<Seq<char>>>) -> Result<EnvText, Seq<char>> {
    match args {
        None => Ok(Seq::empty()),
        Some(a) => match configure_args_ok(a) {
            Err(e) => Err(e),
            Ok(()) => if a.len() == 0 {
                Ok(Seq::empty())
            } else {
                Ok(seq![("CVM_GCC_CONFIGURE_ARGS"@, join_lines(a))])
            },
        },
    }
}

pub open spec fn args_view(a: Option<Vec<String>>) -> Option<Seq<Seq<char>>> {
    match a {
        Some(v) => Some(v@.map_values(|s: String| s@)),
        None => None,
    }
}

/// What `gcc_profile_env` gives for a `[gcc]` section.
pub open spec fn gcc_env(p: GccBuildProfile) -> Result<EnvText, Seq<char>> {
    then_env(
        then_env(
            then_env(
                env_entry("CVM_GCC_LANGUAGES"@, opt_string(p.languages)),
                Ok(bool_env("CVM_GCC_MULTILIB"@, p.multilib)),
            ),
            Ok(bool_env("CVM_GCC_BOOTSTRAP"@, p.bootstrap)),
        ),
        configure_args_env(args_view(p.configure_args)),
    )
}

/// A value the profile may give: absent, or neither blank nor holding a line break.
pub open spec fn acceptable_value(v: Option<Seq<char>>) -> bool {
    match v {
        None => true,
        Some(x) => !is_blank(x) && !has_newline(x),
    }
}

/// A CMake definition the profile may give: a key neither blank nor holding
/// a line break, and a value without a line break.
#[verifier::opaque]
pub open spec fn acceptable_define(e: (Seq<char>, Seq<char>)) -> bool {
    !is_blank(e.0) && !has_newline(e.0) && !has_newline(e.1)
}

/// Every CMake definition of the list is acceptable.
pub open spec fn all_defines_acceptable(d: Seq<(Seq<char>, Seq<char>)>) -> bool {
    forall|i: int| 0 <= i < d.len() ==> acceptable_define(#[trigger] d[i])
}

/// CMake definitions the profile may give: each one acceptable.
pub open spec fn acceptable_defines(ds: Option<Seq<(Seq<char>, Seq<char>)>>) -> bool {
    match ds {
        None => true,
        Some(d) => all_defines_acceptable(d),
    }
}

/// A configure argument the profile may give: neither blank nor holding a line break.
#[verifier::opaque]
pub open spec fn acceptable_argument(x: Seq<char>) -> bool {
    !is_blank(x) && !has_newline(x)
}

/// Every configure argument of the list is acceptable.
pub open spec fn all_arguments_acceptable(x: Seq<Seq<char>>) -> bool {
    forall|i: int| 0 <= i < x.len() ==> acceptable_argument(#[trigger] x[i])
}

/// Configure arguments the profile may give: each one acceptable.
pub open spec fn acceptable_arguments(a: Option<Seq<Seq<char>>>) -> bool {
    match a {
        None => true,
        Some(x) => all_arguments_acceptable(x),
    }
}

/// The variables set `key` to the given value, or do not name `key` at all
/// when no value is given.
pub open spec fn reports(envs: EnvText, key: Seq<char>, v: Option<Seq<char>>) -> bool {
    match v {
        Some(x) => envs.contains((key, x)),
        None => forall|i: int| 0 <= i < envs.len() ==> (#[trigger] envs[i]).0 != key,
    }
}

/// Some variable is named `key`.
pub open spec fn names(envs: EnvText, key: Seq<char>) -> bool {
    exists|i: int| 0 <= i < envs.len() && (#[trigger] envs[i]).0 == key
}

pub open spec fn given(v: Option<Seq<char>>) -> nat {
    if v is Some { 1 } else { 0 }
}

proof fn lemma_env_entry(key: Seq<char>, v: Option<Seq<char>>)
    ensures
        env_entry(key, v) is Ok <==> acceptable_value(v),
        env_entry(key, v) matches Ok(x) ==> x.len() == given(v) && reports(x, key, v) && forall|i: int|
            0 <= i < x.len() ==> (#[trigger] x[i]).0 == key,
{
    if let Some(y) = v {
        if env_entry(key, v) is Ok {
            assert(seq![(key, y)][0] == (key, y));
        }
    }
}

proof fn lemma_defines_split(ds: Seq<(Seq<char>, Seq<char>)>)
    requires
        ds.len() > 0,
    ensures
        all_defines_acceptable(ds) <==> all_defines_acceptable(ds.drop_last()) && acceptable_define(ds.last()),
{
    let init = ds.drop_last();
    if all_defines_acceptable(ds) {
        assert forall|i: int| 0 <= i < init.len() implies acceptable_define(#[trigger] init[i]) by {
            assert(init[i] == ds[i]);
        }
        assert(acceptable_define(ds[ds.len() - 1]));
    }
    if all_defines_acceptable(init) && acceptable_define(ds.last()) {
        assert forall|i: int| 0 <= i < ds.len() implies acceptable_define(#[trigger] ds[i]) by {
            if i < ds.len() - 1 {
                assert(init[i] == ds[i]);
            }
        }
    }
}

proof fn lemma_define_lines_ok(ds: Seq<(Seq<char>, Seq<char>)>)
    ensures
        define_lines(ds) is Ok <==> all_defines_acceptable(ds),
        define_lines(ds) matches Ok(lines) ==> lines.len() == ds.len(),
    decreases ds.len(),
{
    if ds.len() > 0 {
        lemma_define_lines_ok(ds.drop_last());
        lemma_defines_split(ds);
        let (k, v) = ds.last();
        assert(acceptable_define(ds.last()) == (!is_blank(k) && !has_newline(k) && !has_newline(v))) by {
            reveal(acceptable_define);
        }
    }
}

proof fn lemma_arguments_split(a: Seq<Seq<char>>)
    requires
        a.len() > 0,
    ensures
        all_arguments_acceptable(a) <==> all_arguments_acceptable(a.drop_last()) && acceptable_argument(a.last()),
{
    let init = a.drop_last();
    if all_arguments_acceptable(a) {
        assert forall|i: int| 0 <= i < init.len() implies acceptable_argument(#[trigger] init[i]) by {
            assert(init[i] == a[i]);
        }
        assert(acceptable_argument(a[a.len() - 1]));
    }
    if all_arguments_acceptable(init) && acceptable_argument(a.last()) {
        assert forall|i: int| 0 <= i < a.len() implies acceptable_argument(#[trigger] a[i]) by {
            if i < a.len() - 1 {
                assert(init[i] == a[i]);
            }
        }
    }
}

proof fn lemma_configure_args_ok(a: Seq<Seq<char>>)
    ensures
        configure_args_ok(a) is Ok <==> all_arguments_acceptable(a),
    decreases a.len(),
{
    if a.len() > 0 {
        lemma_configure_args_ok(a.drop_last());
        lemma_arguments_split(a);
        assert(acceptable_argument(a.last()) == (!is_blank(a.last()) && !has_newline(a.last()))) by {
            reveal(acceptable_argument);
        }
    }
}

/// A variable of one step survives the steps chained after it and before it.
proof fn lemma_reports_concat(x: EnvText, y: EnvText, key: Seq<char>, v: Option<Seq<char>>)
    requires
        reports(x, key, v) || (v is Some && x.contains((key, v->Some_0))),
        forall|i: int| 0 <= i < y.len() ==> (#[trigger] y[i]).0 != key,
    ensures
        reports(x + y, key, v),
        reports(y + x, key, v),
{
    let xy = x + y;
    let yx = y + x;
    if let Some(z) = v {
        let k = choose|k: int| 0 <= k < x.len() && x[k] == (key, z);
        assert(xy[k] == (key, z));
        assert(yx[y.len() + k] == (key, z));
    } else {
        assert forall|i: int| 0 <= i < xy.len() implies (#[trigger] xy[i]).0 != key by {
            if i >= x.len() {
                assert(xy[i] == y[i - x.len()]);
            }
        }
        assert forall|i: int| 0 <= i < yx.len() implies (#[trigger] yx[i]).0 != key by {
            if i >= y.len() {
                assert(yx[i] == x[i - y.len()]);
            }
        }
    }
}

/// What an `[llvm]` section sets: it is accepted exactly when every given
/// field is acceptable; each given field is then set under its variable and
/// each absent one is not named; the CMake definitions are named exactly when
/// there are some; and nothing else is set.
pub proof fn law_llvm_env_fields(p: LlvmBuildProfile)
    ensures
        llvm_env(p) is Ok <==> acceptable_value(opt_string(p.targets)) && acceptable_value(opt_string(p.projects))
            && acceptable_value(opt_string(p.runtimes)) && acceptable_value(opt_string(p.build_type))
            && acceptable_defines(defines_view(p.cmake_defines)),
        llvm_env(p) matches Ok(envs) ==> {
            &&& reports(envs, "CVM_LLVM_TARGETS"@, opt_string(p.targets))
            &&& reports(envs, "CVM_LLVM_PROJECTS"@, opt_string(p.projects))
            &&& reports(envs, "CVM_LLVM_RUNTIMES"@, opt_string(p.runtimes))
            &&& reports(envs, "CVM_LLVM_BUILD_TYPE"@, opt_string(p.build_type))
            &&& names(envs, "CVM_LLVM_CMAKE_DEFINES"@) <==> (defines_view(p.cmake_defines) matches Some(d) && d.len() > 0)
            &&& envs.len() == given(opt_string(p.targets)) + given(opt_string(p.projects)) + given(opt_string(p.runtimes))
                + given(opt_string(p.build_type)) + if (defines_view(p.cmake_defines) matches Some(d) && d.len() > 0) {
                1nat
            } else {
                0nat
            }
        },
{
    let kt = "CVM_LLVM_TARGETS"@;
    let kp = "CVM_LLVM_PROJECTS"@;
    let kr = "CVM_LLVM_RUNTIMES"@;
    let kb = "CVM_LLVM_BUILD_TYPE"@;
    let kd = "CVM_LLVM_CMAKE_DEFINES"@;
    reveal_strlit("CVM_LLVM_TARGETS");
    reveal_strlit("CVM_LLVM_PROJECTS");
    reveal_strlit("CVM_LLVM_RUNTIMES");
    reveal_strlit("CVM_LLVM_BUILD_TYPE");
    reveal_strlit("CVM_LLVM_CMAKE_DEFINES");
    assert(kt.len() == 16 && kp.len() == 17 && kr.len() == 17 && kb.len() == 19 && kd.len() == 22);
    assert(kp != kr) by {
        assert(kp[9] != kr[9]);
    }
    let et = env_entry(kt, opt_string(p.targets));
    let ep = env_entry(kp, opt_string(p.projects));
    let er = env_entry(kr, opt_string(p.runtimes));
    let eb = env_entry(kb, opt_string(p.build_type));
    let ed = defines_env(defines_view(p.cmake_defines));
    lemma_env_entry(kt, opt_string(p.targets));
    lemma_env_entry(kp, opt_string(p.projects));
    lemma_env_entry(kr, opt_string(p.runtimes));
    lemma_env_entry(kb, opt_string(p.build_type));
    if let Some(d) = defines_view(p.cmake_defines) {
        lemma_define_lines_ok(d);
    }
    if let Ok(envs) = llvm_env(p) {
        let xt = et->Ok_0;
        let xp = ep->Ok_0;
        let xr = er->Ok_0;
        let xb = eb->Ok_0;
        let xd = ed->Ok_0;
        assert(envs == xt + xp + xr + xb + xd);
        assert(forall|i: int| 0 <= i < xd.len() ==> (#[trigger] xd[i]).0 == kd) by {
            if xd.len() > 0 {
                assert forall|i: int| 0 <= i < xd.len() implies (#[trigger] xd[i]).0 == kd by {
                    assert(i == 0);
                }
            }
        }
        // each field's variable stands in its own step only
        lemma_reports_concat(xt, xp, kt, opt_string(p.targets));
        lemma_reports_concat(xt + xp, xr, kt, opt_string(p.targets));
        lemma_reports_concat(xt + xp + xr, xb, kt, opt_string(p.targets));
        lemma_reports_concat(xt + xp + xr + xb, xd, kt, opt_string(p.targets));
        lemma_reports_concat(xp, xt, kp, opt_string(p.projects));
        lemma_reports_concat(xt + xp, xr, kp, opt_string(p.projects));
        lemma_reports_concat(xt + xp + xr, xb, kp, opt_string(p.projects));
        lemma_reports_concat(xt + xp + xr + xb, xd, kp, opt_string(p.projects));
        lemma_reports_concat(xr, xt + xp, kr, opt_string(p.runtimes));
        assert(xt + xp + xr == (xt + xp) + xr);
        lemma_reports_concat(xt + xp + xr, xb, kr, opt_string(p.runtimes));
        lemma_reports_concat(xt + xp + xr + xb, xd, kr, opt_string(p.runtimes));
        assert forall|i: int| 0 <= i < (xt + xp + xr).len() implies (#[trigger] (xt + xp + xr)[i]).0 != kb by {
            if i < xt.len() {
                assert((xt + xp + xr)[i] == xt[i]);
            } else if i < xt.len() + xp.len() {
                assert((xt + xp + xr)[i] == xp[i - xt.len()]);
            } else {
                assert((xt + xp + xr)[i] == xr[i - xt.len() - xp.len()]);
            }
        }
        lemma_reports_concat(xb, xt + xp + xr, kb, opt_string(p.build_type));
        lemma_reports_concat(xt + xp + xr + xb, xd, kb, opt_string(p.build_type));
        let pre = xt + xp + xr + xb;
        assert forall|i: int| 0 <= i < pre.len() implies (#[trigger] pre[i]).0 != kd by {
            if i < xt.len() {
                assert(pre[i] == xt[i]);
            } else if i < xt.len() + xp.len() {
                assert(pre[i] == xp[i - xt.len()]);
            } else if i < xt.len() + xp.len() + xr.len() {
                assert(pre[i] == xr[i - xt.len() - xp.len()]);
            } else {
                assert(pre[i] == xb[i - xt.len() - xp.len() - xr.len()]);
            }
        }
        if xd.len() > 0 {
            assert(envs[pre.len() as int] == xd[0]);
        } else {
            assert(envs =~= pre);
        }
    }
}

/// What a `[gcc]` section sets: it is accepted exactly when the languages are
/// acceptable (if given) and no configure argument is blank or holds a line
/// break; the languages are then set under their variable, each boolean
/// setting given is set as `true` or `false`, each absent setting is not
/// named, the configure arguments are named exactly when there are some; and
/// nothing else is set.
pub proof fn law_gcc_env_fields(p: GccBuildProfile)
    ensures
        gcc_env(p) is Ok <==> acceptable_value(opt_string(p.languages)) && acceptable_arguments(args_view(p.configure_args)),
        gcc_env(p) matches Ok(envs) ==> {
            &&& reports(envs, "CVM_GCC_LANGUAGES"@, opt_string(p.languages))
            &&& reports(envs, "CVM_GCC_MULTILIB"@, match p.multilib {
                Some(b) => Some(if b { "true"@ } else { "false"@ }),
                None => None,
            })
            &&& reports(envs, "CVM_GCC_BOOTSTRAP"@, match p.bootstrap {
                Some(b) => Some(if b { "true"@ } else { "false"@ }),
                None => None,
            })
            &&& names(envs, "CVM_GCC_CONFIGURE_ARGS"@) <==> (args_view(p.configure_args) matches Some(a) && a.len() > 0)
            &&& envs.len() == given(opt_string(p.languages)) + (if p.multilib is Some { 1nat } else { 0nat })
                + (if p.bootstrap is Some { 1nat } else { 0nat }) + if (args_view(p.configure_args) matches Some(a)
                && a.len() > 0) {
                1nat
            } else {
                0nat
            }
        },
{
    let kl = "CVM_GCC_LANGUAGES"@;
    let km = "CVM_GCC_MULTILIB"@;
    let kb = "CVM_GCC_BOOTSTRAP"@;
    let kc = "CVM_GCC_CONFIGURE_ARGS"@;
    reveal_strlit("CVM_GCC_LANGUAGES");
    reveal_strlit("CVM_GCC_MULTILIB");
    reveal_strlit("CVM_GCC_BOOTSTRAP");
    reveal_strlit("CVM_GCC_CONFIGURE_ARGS");
    assert(kl.len() == 17 && km.len() == 16 && kb.len() == 17 && kc.len() == 22);
    assert(kl != kb) by {
        assert(kl[8] != kb[8]);
    }
    let vm = match p.multilib {
        Some(b) => Some(if b { "true"@ } else { "false"@ }),
        None => None,
    };
    let vb = match p.bootstrap {
        Some(b) => Some(if b { "true"@ } else { "false"@ }),
        None => None,
    };
    let el = env_entry(kl, opt_string(p.languages));
    lemma_env_entry(kl, opt_string(p.languages));
    let xm = bool_env(km, p.multilib);
    let xb = bool_env(kb, p.bootstrap);
    assert(xm.len() == given(vm) && reports(xm, km, vm) && forall|i: int| 0 <= i < xm.len() ==> (#[trigger] xm[i]).0 == km) by {
        if let Some(b) = p.multilib {
            assert(xm[0] == (km, bool_text(b)));
        }
    }
    assert(xb.len() == given(vb) && reports(xb, kb, vb) && forall|i: int| 0 <= i < xb.len() ==> (#[trigger] xb[i]).0 == kb) by {
        if let Some(b) = p.bootstrap {
            assert(xb[0] == (kb, bool_text(b)));
        }
    }
    let ec = configure_args_env(args_view(p.configure_args));
    if let Some(a) = args_view(p.configure_args) {
        lemma_configure_args_ok(a);
    }
    if let Ok(envs) = gcc_env(p) {
        let xl = el->Ok_0;
        let xc = ec->Ok_0;
        assert(envs == xl + xm + xb + xc);
        assert(forall|i: int| 0 <= i < xc.len() ==> (#[trigger] xc[i]).0 == kc) by {
            if xc.len() > 0 {
                assert forall|i: int| 0 <= i < xc.len() implies (#[trigger] xc[i]).0 == kc by {
                    assert(i == 0);
                }
            }
        }
        lemma_reports_concat(xl, xm, kl, opt_string(p.languages));
        lemma_reports_concat(xl + xm, xb, kl, opt_string(p.languages));
        lemma_reports_concat(xl + xm + xb, xc, kl, opt_string(p.languages));
        lemma_reports_concat(xm, xl, km, vm);
        lemma_reports_concat(xl + xm, xb, km, vm);
        lemma_reports_concat(xl + xm + xb, xc, km, vm);
        lemma_reports_concat(xb, xl + xm, kb, vb);
        assert(xl + xm + xb == (xl + xm) + xb);
        lemma_reports_concat(xl + xm + xb, xc, kb, vb);
        let pre = xl + xm + xb;
        assert forall|i: int| 0 <= i < pre.len() implies (#[trigger] pre[i]).0 != kc by {
            if i < xl.len() {
                assert(pre[i] == xl[i]);
            } else if i < xl.len() + xm.len() {
                assert(pre[i] == xm[i - xl.len()]);
            } else {
                assert(pre[i] == xb[i - xl.len() - xm.len()]);
            }
        }
        if xc.len() > 0 {
            assert(envs[pre.len() as int] == xc[0]);
        } else {
            assert(envs =~= pre);
        }
    }
}

pub open spec fn env_result(r: Result<Vec<(String, String)>, String>) -> Result<EnvText, Seq<char>> {
    match r {
        Ok(v) => Ok(env_view(v@)),
        Err(e) => Err(e@),
    }
}

/// Joins lines with line feeds.
fn join_with_newlines(lines: &Vec<String>) -> (r: String)
    ensures
        r@ == join_lines(lines@.map_values(|s: String| s@)),
{
    let ghost ls = lines@.map_values(|s: String| s@);
    let mut out = String::new();
    let mut i: usize = 0;
    proof {
        reveal_strlit("\n");
    }
    assert(ls.take(0) =~= Seq::<Seq<char>>::empty());
    while i < lines.len()
        invariant
            i <= lines@.len(),
            ls == lines@.map_values(|s: String| s@),
            out@ == join_lines(ls.take(i as int)),
        decreases lines@.len() - i,
    {
        proof {
            reveal_strlit("\n");
        }
        assert(ls.take(i + 1).drop_last() =~= ls.take(i as int));
        assert(ls.take(i + 1).last() == lines@[i as int]@);
        if i > 0 {
            out.append("\n");
        } else {
            assert(out@ =~= Seq::<char>::empty());
        }
        out.append(lines[i].as_str());
        assert(out@ =~= join_lines(ls.take(i + 1)));
        i = i + 1;
    }
    assert(ls.take(lines@.len() as int) =~= ls);
    out
}

/// The variables for an `[llvm]` section.
#[verifier::loop_isolation(false)]
pub fn llvm_profile_env(profile: LlvmBuildProfile) -> (r: Result<Vec<(String, String)>, String>)
    requires
        defines_in_key_order(profile.cmake_defines),
    ensures
        env_result(r) == llvm_env(profile),
{
    let ghost p = profile;
    let mut envs: Vec<(String, String)> = Vec::new();
    match push_non_empty_env(&mut envs, "CVM_LLVM_TARGETS", profile.targets) {
        Ok(()) => {},
        Err(e) => return Err(e),
    }
    match push_non_empty_env(&mut envs, "CVM_LLVM_PROJECTS", profile.projects) {
        Ok(()) => {},
        Err(e) => return Err(e),
    }
    match push_non_empty_env(&mut envs, "CVM_LLVM_RUNTIMES", profile.runtimes) {
        Ok(()) => {},
        Err(e) => return Err(e),
    }
    match push_non_empty_env(&mut envs, "CVM_LLVM_BUILD_TYPE", profile.build_type) {
        Ok(()) => {},
        Err(e) => return Err(e),
    }
    assert(env_view(envs@) =~= Seq::<(Seq<char>, Seq<char>)>::empty() + env_entry("CVM_LLVM_TARGETS"@, opt_string(p.targets))->Ok_0
        + env_entry("CVM_LLVM_PROJECTS"@, opt_string(p.projects))->Ok_0
        + env_entry("CVM_LLVM_RUNTIMES"@, opt_string(p.runtimes))->Ok_0
        + env_entry("CVM_LLVM_BUILD_TYPE"@, opt_string(p.build_type))->Ok_0);
    assert(llvm_env(p) == then_env(Ok(env_view(envs@)), defines_env(defines_view(p.cmake_defines))));
    if let Some(defines) = profile.cmake_defines {
        let ghost ds = env_view(defines@);
        let mut entries: Vec<String> = Vec::new();
        let mut i: usize = 0;
        let ghost head = env_view(envs@);
        assert(ds.take(0) =~= Seq::<(Seq<char>, Seq<char>)>::empty());
        assert(entries@.map_values(|s: String| s@) =~= Seq::<Seq<char>>::empty());
        while i < defines.len()
            invariant
                i <= defines@.len(),
                ds == env_view(defines@),
                defines_view(p.cmake_defines) == Some(ds),
                head == env_view(envs@),
                llvm_env(p) == then_env(Ok(head), defines_env(Some(ds))),
                define_lines(ds.take(i as int)) == Ok::<Seq<Seq<char>>, Seq<char>>(
                    entries@.map_values(|s: String| s@),
                ),
            decreases defines@.len() - i,
        {
            assert(ds.take(i + 1).drop_last() =~= ds.take(i as int));
            assert(ds.take(i + 1).last() == (defines@[i as int].0@, defines@[i as int].1@));
            let key = &defines[i].0;
            let value = &defines[i].1;
            if trims_to_empty(key.as_str()) {
                proof {
                    lemma_define_lines_err(ds, i + 1);
                }
                return Err(String::from_str("llvm.cmake_defines contains an empty key"));
            }
            match reject_newlines("llvm.cmake_defines keys", key.as_str()) {
                Ok(()) => {},
                Err(e) => {
                    proof {
                        lemma_define_lines_err(ds, i + 1);
                    }
                    return Err(e);
                },
            }
            match reject_newlines("llvm.cmake_defines values", value.as_str()) {
                Ok(()) => {},
                Err(e) => {
                    proof {
                        lemma_define_lines_err(ds, i + 1);
                    }
                    return Err(e);
                },
            }
            proof {
                reveal_strlit("=");
            }
            let mut line = join2(key.as_str(), "=");
            line.append(value.as_str());
            assert(line@ =~= key@ + seq!['='] + value@);
            let ghost before = entries@;
            entries.push(line);
            assert(entries@.map_values(|s: String| s@) =~= before.map_values(|s: String| s@).push(
                key@ + seq!['='] + value@,
            ));
            i = i + 1;
        }
        assert(ds.take(defines@.len() as int) =~= ds);
        if entries.len() > 0 {
            let joined = join_with_newlines(&entries);
            let ghost before = envs@;
            envs.push((String::from_str("CVM_LLVM_CMAKE_DEFINES"), joined));
            assert(env_view(envs@) =~= env_view(before) + seq![("CVM_LLVM_CMAKE_DEFINES"@, joined@)]);
        } else {
            assert(env_view(envs@) =~= env_view(envs@) + Seq::<(Seq<char>, Seq<char>)>::empty());
        }
    } else {
        assert(env_view(envs@) =~= env_view(envs@) + Seq::<(Seq<char>, Seq<char>)>::empty());
    }
    Ok(envs)
}

/// The variables for a `[gcc]` section.
#[verifier::loop_isolation(false)]
pub fn gcc_profile_env(profile: GccBuildProfile) -> (r: Result<Vec<(String, String)>, String>)
    ensures
        env_result(r) == gcc_env(profile),
{
    let ghost p = profile;
    let mut envs: Vec<(String, String)> = Vec::new();
    match push_non_empty_env(&mut envs, "CVM_GCC_LANGUAGES", profile.languages) {
        Ok(()) => {},
        Err(e) => return Err(e),
    }
    proof {
        reveal_strlit("true");
        reveal_strlit("false");
    }
    if let Some(multilib) = profile.multilib {
        let ghost before = envs@;
        envs.push((String::from_str("CVM_GCC_MULTILIB"), String::from_str(if multilib { "true" } else { "false" })));
        assert(env_view(envs@) =~= env_view(before) + bool_env("CVM_GCC_MULTILIB"@, p.multilib));
    }
    if let Some(bootstrap) = profile.bootstrap {
        let ghost before = envs@;
        envs.push((String::from_str("CVM_GCC_BOOTSTRAP"), String::from_str(if bootstrap { "true" } else { "false" })));
        assert(env_view(envs@) =~= env_view(before) + bool_env("CVM_GCC_BOOTSTRAP"@, p.bootstrap));
    }
    assert(env_view(envs@) =~= env_entry("CVM_GCC_LANGUAGES"@, opt_string(p.languages))->Ok_0
        + bool_env("CVM_GCC_MULTILIB"@, p.multilib) + bool_env("CVM_GCC_BOOTSTRAP"@, p.bootstrap));
    assert(gcc_env(p) == then_env(Ok(env_view(envs@)), configure_args_env(args_view(p.configure_args))));
    if let Some(args) = profile.configure_args {
        let ghost a = args@.map_values(|s: String| s@);
        let mut i: usize = 0;
        let ghost head = env_view(envs@);
        assert(a.take(0) =~= Seq::<Seq<char>>::empty());
        while i < args.len()
            invariant
                i <= args@.len(),
                a == args@.map_values(|s: String| s@),
                args_view(p.configure_args) == Some(a),
                head == env_view(envs@),
                gcc_env(p) == then_env(Ok(head), configure_args_env(Some(a))),
                configure_args_ok(a.take(i as int)) == Ok::<(), Seq<char>>(()),
            decreases args@.len() - i,
        {
            assert(a.take(i + 1).drop_last() =~= a.take(i as int));
            assert(a.take(i + 1).last() == args@[i as int]@);
            let arg = &args[i];
            if trims_to_empty(arg.as_str()) {
                proof {
                    lemma_configure_args_err(a, i + 1);
                }
                return Err(String::from_str("gcc.configure_args must not contain empty arguments"));
            }
            match reject_newlines("gcc.configure_args", arg.as_str()) {
                Ok(()) => {},
                Err(e) => {
                    proof {
                        lemma_configure_args_err(a, i + 1);
                    }
                    return Err(e);
                },
            }
            i = i + 1;
        }
        assert(a.take(args@.len() as int) =~= a);
        if args.len() > 0 {
            let joined = join_with_newlines(&args);
            let ghost before = envs@;
            envs.push((String::from_str("CVM_GCC_CONFIGURE_ARGS"), joined));
            assert(env_view(envs@) =~= env_view(before) + seq![("CVM_GCC_CONFIGURE_ARGS"@, joined@)]);
        } else {
            assert(env_view(envs@) =~= env_view(envs@) + Seq::<(Seq<char>, Seq<char>)>::empty());
        }
    } else {
        assert(env_view(envs@) =~= env_view(envs@) + Seq::<(Seq<char>, Seq<char>)>::empty());
    }
    Ok(envs)
}

/// What `build_profile_env` gives: the section for the family being
/// installed must be present.
pub open spec fn profile_env(tool: Tool, path: Seq<char>, profile: BuildProfile) -> Result<EnvText, Seq<char>> {
    match tool {
        Tool::Llvm => match profile.llvm {
            None => Err("profile "@ + path + " does not contain an [llvm] section"@),
            Some(l) => llvm_env(l),
        },
        Tool::Gcc => match profile.gcc {
            None => Err("profile "@ + path + " does not contain a [gcc] section"@),
            Some(g) => gcc_env(g),
        },
    }
}

/// The variables a build profile sets for installing `tool`.
pub fn build_profile_env(tool: Tool, path: &str, profile: BuildProfile) -> (r: Result<Vec<(String, String)>, String>)
    requires
        profile.llvm matches Some(l) ==> defines_in_key_order(l.cmake_defines),
    ensures
        env_result(r) == profile_env(tool, path@, profile),
{
    match tool {
        Tool::Llvm => match profile.llvm {
            None => {
                let mut m = join2("profile ", path);
                m.append(" does not contain an [llvm] section");
                Err(m)
            },
            Some(l) => llvm_profile_env(l),
        },
        Tool::Gcc => match profile.gcc {
            None => {
                let mut m = join2("profile ", path);
                m.append(" does not contain a [gcc] section");
                Err(m)
            },
            Some(g) => gcc_profile_env(g),
        },
    }
}

/// The commented default profile for LLVM, as `cvm profile template llvm` writes it.
pub const LLVM_PROFILE_TEMPLATE: &'static str = r#"# cvm LLVM build profile
#
# This template mirrors cvm's default kernel-oriented LLVM build.
# Generate it, edit only the fields you need, then install normally:
#
#   cvm install llvm 21
#
# The default LLVM build profile lives at:
#
#   $CVM_HOME/profiles/build/llvm/default.toml

[llvm]

# LLVM targets to build. X86 is enough for common x86 Linux kernel builds.
# Add AArch64, ARM, RISCV, etc. when you need cross-kernel work.
targets = "X86"

# Keep clang and lld for Linux kernel builds. compiler-rt is useful for
# sanitizer/runtime work.
projects = "clang;lld;compiler-rt"

# Runtime libraries used by the default cvm LLVM build.
runtimes = "libcxx;libcxxabi;libunwind"

# Release is the default. Debug builds are much larger and slower.
build_type = "Release"

# Extra -DKEY=VALUE definitions passed to CMake.
[llvm.cmake_defines]
# LLVM_ENABLE_ASSERTIONS = "ON"
# LLVM_ENABLE_ZSTD = "ON"
"#;

/// The commented default profile for GCC, as `cvm profile template gcc` writes it.
pub const GCC_PROFILE_TEMPLATE: &'static str = r#"# cvm GCC build profile
#
# This template mirrors cvm's default kernel-oriented GCC build.
# Generate it, edit only the fields you need, then install normally:
#
#   cvm install gcc 15
#
# The default GCC build profile lives at:
#
#   $CVM_HOME/profiles/build/gcc/default.toml

[gcc]

# GCC frontend languages. The default C/C++ set is enough for Linux kernel
# builds and normal C/C++ development.
languages = "c,c++"

# false keeps the default --disable-multilib behavior.
multilib = false

# false keeps the default --disable-bootstrap behavior for faster builds.
bootstrap = false

# Extra configure arguments appended after cvm's defaults.
configure_args = [
  # "--enable-plugin",
  # "--enable-lto",
]
"#;

/// The default profile template of a family.
pub fn profile_template(tool: Tool) -> (r: &'static str)
    ensures
        r@ == (match tool {
            Tool::Llvm => LLVM_PROFILE_TEMPLATE@,
            Tool::Gcc => GCC_PROFILE_TEMPLATE@,
        }),
{
    match tool {
        Tool::Llvm => LLVM_PROFILE_TEMPLATE,
        Tool::Gcc => GCC_PROFILE_TEMPLATE,
    }
}

} // verus!
