//! Where cvm keeps its state under `$CVM_HOME`, and the names of the files it
//! downloads. Paths are Unix paths written as text.
use vstd::prelude::*;

use crate::text::{decimal_text, is_digit, join2, lemma_decimal_text_roundtrip, string_result};
use crate::tool::{tool_name, Tool};
use crate::version::{law_parse_version_text, version_text, Version, VersionView};

verus! {

/// Appends a path component as `Path::join` does on Unix: an absolute
/// component replaces the base; otherwise a `/` separates the two unless the
/// base is empty or already ends in `/`.
pub open spec fn join_path(base: Seq<char>, comp: Seq<char>) -> Seq<char> {
    if comp.len() > 0 && comp[0] == '/' {
        comp
    } else if base.len() == 0 || base.last() == '/' {
        base + comp
    } else {
        base + seq!['/'] + comp
    }
}

/// `base` joined with `comp`.
pub fn join(base: &str, comp: &str) -> (r: String)
    ensures
        r@ == join_path(base@, comp@),
{
    let blen = base.unicode_len();
    let clen = comp.unicode_len();
    if clen > 0 && comp.get_char(0) == '/' {
        return String::from_str(comp);
    }
    if blen == 0 || base.get_char(blen - 1) == '/' {
        join2(base, comp)
    } else {
        proof {
            reveal_strlit("/");
        }
        let mut r = join2(base, "/");
        r.append(comp);
        r
    }
}

/// What `cvm_home_from_env` gives: `$CVM_HOME` when set and not empty, else
/// `$HOME/.cvm` when `$HOME` is set and not empty.
pub open spec fn cvm_home_text(cvm_home: Option<Seq<char>>, home: Option<Seq<char>>) -> Result<Seq<char>, Seq<char>> {
    if cvm_home matches Some(c) && c.len() > 0 {
        Ok(cvm_home.unwrap())
    } else if home matches Some(h) && h.len() > 0 {
        Ok(join_path(home.unwrap(), ".cvm"@))
    } else {
        Err("CVM_HOME or HOME must be set"@)
    }
}

pub open spec fn opt_text(s: Option<&str>) -> Option<Seq<char>> {
    match s {
        Some(x) => Some(x@),
        None => None,
    }
}

/// cvm's home directory from the values of `$CVM_HOME` and `$HOME`.
pub fn cvm_home_from_env(cvm_home: Option<&str>, home: Option<&str>) -> (r: Result<String, String>)
    ensures
        string_result(r) == cvm_home_text(opt_text(cvm_home), opt_text(home)),
{
    if let Some(c) = cvm_home {
        if c.unicode_len() > 0 {
            return Ok(String::from_str(c));
        }
    }
    if let Some(h) = home {
        if h.unicode_len() > 0 {
            return Ok(join(h, ".cvm"));
        }
    }
    Err(String::from_str("CVM_HOME or HOME must be set"))
}

/// `$CVM_HOME/toolchains/<tool>/<version>`.
pub open spec fn install_prefix_text(home: Seq<char>, tool: Tool, v: crate::version::VersionView) -> Seq<char> {
    join_path(join_path(join_path(home, "toolchains"@), tool_name(tool)), version_text(v))
}

/// Different families or different versions are installed in different
/// directories under one home.
pub proof fn law_install_prefix_injective(home: Seq<char>, t1: Tool, v1: VersionView, t2: Tool, v2: VersionView)
    requires
        install_prefix_text(home, t1, v1) == install_prefix_text(home, t2, v2),
    ensures
        t1 == t2,
        v1 == v2,
{
    reveal_strlit("toolchains");
    reveal_strlit("llvm");
    reveal_strlit("gcc");
    let x = join_path(home, "toolchains"@);
    assert(x.len() > 0 && x.last() == 's');
    let n1 = tool_name(t1);
    let n2 = tool_name(t2);
    assert(n1.len() >= 3 && n1[0] != '/' && n1.last() != '/');
    assert(n2.len() >= 3 && n2[0] != '/' && n2.last() != '/');
    let a1 = x + seq!['/'] + n1;
    let a2 = x + seq!['/'] + n2;
    assert(join_path(x, n1) == a1);
    assert(join_path(x, n2) == a2);
    let w1 = version_text(v1);
    let w2 = version_text(v2);
    lemma_decimal_text_roundtrip(v1.major as nat);
    lemma_decimal_text_roundtrip(v2.major as nat);
    assert(w1[0] == decimal_text(v1.major as nat)[0]);
    assert(w2[0] == decimal_text(v2.major as nat)[0]);
    assert(is_digit(w1[0]) && is_digit(w2[0]));
    assert(a1.last() == n1.last() && a2.last() == n2.last());
    let s1 = a1 + seq!['/'] + w1;
    let s2 = a2 + seq!['/'] + w2;
    assert(install_prefix_text(home, t1, v1) == s1);
    assert(install_prefix_text(home, t2, v2) == s2);
    let k: int = x.len() as int + 4;
    if t1 != t2 {
        assert(s1[k] != s2[k]) by {
            if t1 == Tool::Llvm {
                assert(s1[k] == n1[3]);
                assert(s2[k] == '/');
            } else {
                assert(s1[k] == '/');
                assert(s2[k] == n2[3]);
            }
        }
    }
    let m: int = x.len() as int + 1 + n1.len() as int + 1;
    assert(s1.skip(m) =~= w1);
    assert(s2.skip(m) =~= w2);
    law_parse_version_text(v1);
    law_parse_version_text(v2);
}

/// Where a release of a family is installed under cvm's home.
pub fn install_prefix_for_home(home: &str, tool: Tool, version: &Version) -> (r: String)
    ensures
        r@ == install_prefix_text(home@, tool, version@),
{
    let a = join(home, "toolchains");
    let b = join(a.as_str(), tool.as_str());
    join(b.as_str(), version.to_string().as_str())
}

/// The file name of a family's backend build script under `$CVM_HOME/scripts`.
pub fn build_script_name(tool: Tool) -> (r: &'static str)
    ensures
        r@ == (match tool {
            Tool::Llvm => "build_llvm-project.sh"@,
            Tool::Gcc => "build_gcc.sh"@,
        }),
{
    match tool {
        Tool::Llvm => "build_llvm-project.sh",
        Tool::Gcc => "build_gcc.sh",
    }
}

/// `$CVM_HOME/cache`.
pub fn cache_root(home: &str) -> (r: String)
    ensures
        r@ == join_path(home@, "cache"@),
{
    join(home, "cache")
}

/// `$CVM_HOME/cache/sources`.
pub fn source_cache_root(home: &str) -> (r: String)
    ensures
        r@ == join_path(join_path(home@, "cache"@), "sources"@),
{
    join(cache_root(home).as_str(), "sources")
}

/// `$CVM_HOME/cache/sources/<tool>/<version>`.
pub fn source_cache_dir(home: &str, tool: Tool, version: &Version) -> (r: String)
    ensures
        r@ == join_path(
            join_path(join_path(join_path(home@, "cache"@), "sources"@), tool_name(tool)),
            version_text(version@),
        ),
{
    let a = join(source_cache_root(home).as_str(), tool.as_str());
    join(a.as_str(), version.to_string().as_str())
}

/// `$CVM_HOME/cache/keys`.
pub fn key_cache_root(home: &str) -> (r: String)
    ensures
        r@ == join_path(join_path(home@, "cache"@), "keys"@),
{
    join(cache_root(home).as_str(), "keys")
}

/// `$CVM_HOME/profiles/build/<tool>/default.toml`.
pub fn default_build_profile_path(home: &str, tool: Tool) -> (r: String)
    ensures
        r@ == join_path(
            join_path(join_path(join_path(home@, "profiles"@), "build"@), tool_name(tool)),
            "default.toml"@,
        ),
{
    let a = join(home, "profiles");
    let b = join(a.as_str(), "build");
    let c = join(b.as_str(), tool.as_str());
    join(c.as_str(), "default.toml")
}

/// The file name of a family's release key bundle.
pub open spec fn release_key_name(tool: Tool) -> Seq<char> {
    match tool {
        Tool::Llvm => "release-keys.asc"@,
        Tool::Gcc => "gnu-keyring.gpg"@,
    }
}

pub fn source_release_key_name(tool: Tool) -> (r: &'static str)
    ensures
        r@ == release_key_name(tool),
{
    match tool {
        Tool::Llvm => "release-keys.asc",
        Tool::Gcc => "gnu-keyring.gpg",
    }
}

/// Where a family's release keys are downloaded from by default.
pub open spec fn release_keys_url(tool: Tool) -> Seq<char> {
    match tool {
        Tool::Llvm => "https://releases.llvm.org/release-keys.asc"@,
        Tool::Gcc => "https://ftp.gnu.org/gnu/gnu-keyring.gpg"@,
    }
}

/// The environment variable that overrides a family's release key URL.
pub fn source_release_key_env(tool: Tool) -> (r: &'static str)
    ensures
        r@ == (match tool {
            Tool::Llvm => "CVM_LLVM_RELEASE_KEYS_URL"@,
            Tool::Gcc => "CVM_GCC_RELEASE_KEYS_URL"@,
        }),
{
    match tool {
        Tool::Llvm => "CVM_LLVM_RELEASE_KEYS_URL",
        Tool::Gcc => "CVM_GCC_RELEASE_KEYS_URL",
    }
}

/// The release key URL: the override from the environment when there is
/// one, else the upstream default.
pub fn source_release_key_url(tool: Tool, env_override: Option<String>) -> (r: String)
    ensures
        r@ == (match env_override {
            Some(u) => u@,
            None => release_keys_url(tool),
        }),
{
    match env_override {
        Some(u) => u,
        None => match tool {
            Tool::Llvm => String::from_str("https://releases.llvm.org/release-keys.asc"),
            Tool::Gcc => String::from_str("https://ftp.gnu.org/gnu/gnu-keyring.gpg"),
        },
    }
}

/// The text after the last `/`, or all of it without one.
pub open spec fn last_segment(s: Seq<char>) -> Seq<char>
    decreases s.len(),
{
    if s.len() == 0 {
        s
    } else if s.last() == '/' {
        Seq::empty()
    } else {
        last_segment(s.drop_last()).push(s.last())
    }
}

/// The URL without a leading `file://`.
pub open spec fn strip_file_scheme(url: Seq<char>) -> Seq<char> {
    if url.len() >= 7 && url.take(7) == "file://"@ {
        url.skip(7)
    } else {
        url
    }
}

/// The local path a `file://` URL names; `None` for any other URL.
pub fn file_url_path(url: &str) -> (r: Option<String>)
    ensures
        match r {
            Some(p) => url@.len() >= 7 && url@.take(7) == "file://"@ && p@ == url@.skip(7),
            None => !(url@.len() >= 7 && url@.take(7) == "file://"@),
        },
{
    proof {
        reveal_strlit("file://");
    }
    let len = url.unicode_len();
    if len >= 7 && crate::text::same_text(url.substring_char(0, 7), "file://") {
        assert(url@.take(7) =~= url@.subrange(0, 7));
        let p = url.substring_char(7, len);
        assert(p@ =~= url@.skip(7));
        Some(String::from_str(p))
    } else {
        assert(len >= 7 ==> url@.take(7) =~= url@.subrange(0, 7));
        None
    }
}

/// The detached signature of a file or URL: the same name with `.sig` appended.
pub fn signature_of(name: &str) -> (r: String)
    ensures
        r@ == name@ + ".sig"@,
{
    join2(name, ".sig")
}

/// The hidden file a download is written to before it is moved into place:
/// `.<name>.part` beside the target.
pub fn partial_download_name(name: &str) -> (r: String)
    ensures
        r@ == "."@ + name@ + ".part"@,
{
    let mut s = join2(".", name);
    s.append(".part");
    s
}

/// What `source_archive_name` gives: the last segment of the URL's path.
pub open spec fn archive_name_text(url: Seq<char>) -> Result<Seq<char>, Seq<char>> {
    let name = last_segment(strip_file_scheme(url));
    if name.len() > 0 {
        Ok(name)
    } else {
        Err("failed to determine archive name from "@ + url)
    }
}

/// The text after the last `/` of `s`.
fn last_segment_of(s: &str) -> (r: String)
    ensures
        r@ == last_segment(s@),
{
    let len = s.unicode_len();
    let mut start: usize = 0;
    let mut i: usize = 0;
    assert(s@.take(0) =~= Seq::<char>::empty());
    while i < len
        invariant
            len == s@.len(),
            start <= i <= len,
            last_segment(s@.take(i as int)) == s@.subrange(start as int, i as int),
        decreases len - i,
    {
        assert(s@.take(i + 1).drop_last() =~= s@.take(i as int));
        if s.get_char(i) == '/' {
            start = i + 1;
            assert(s@.subrange(start as int, i + 1) =~= Seq::<char>::empty());
        } else {
            assert(s@.subrange(start as int, i + 1) =~= s@.subrange(start as int, i as int).push(s@[i as int]));
        }
        i = i + 1;
    }
    assert(s@.take(len as int) =~= s@);
    String::from_str(s.substring_char(start, len))
}

/// The file name of a source archive, from the URL it is downloaded from.
pub fn source_archive_name(url: &str) -> (r: Result<String, String>)
    ensures
        string_result(r) == archive_name_text(url@),
{
    proof {
        reveal_strlit("file://");
    }
    let len = url.unicode_len();
    let path = if len >= 7 && crate::text::same_text(url.substring_char(0, 7), "file://") {
        assert(url@.take(7) =~= url@.subrange(0, 7));
        let p = url.substring_char(7, len);
        assert(p@ =~= url@.skip(7));
        p
    } else {
        assert(len >= 7 ==> url@.take(7) =~= url@.subrange(0, 7));
        url
    };
    let name = last_segment_of(path);
    if name.as_str().unicode_len() > 0 {
        Ok(name)
    } else {
        Err(join2("failed to determine archive name from ", url))
    }
}

} // verus!
