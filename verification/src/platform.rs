//! Facts about the machine and the small texts cvm writes and reads back:
//! release asset names, binary names, fetch errors, cache timestamps.
use vstd::prelude::*;

use crate::cache::{decimal_u64, trim, trim_end, trim_start, trim_str};
use crate::text::{
    all_digits, decimal_string, decimal_text, decimal_value, is_all_digits, is_digit, join2,
    lemma_decimal_text_roundtrip, same_text, string_result,
};
use crate::tool::Tool;
use crate::version::{law_parse_version_text, parse_version, version_text, Version, VersionView};

verus! {

/// The target name of a release asset for an OS and an architecture, as Rust
/// names them.
pub open spec fn platform_text(os: Seq<char>, arch: Seq<char>) -> Result<Seq<char>, Seq<char>> {
    let os_part = if os == "linux"@ {
        Some("unknown-linux-musl"@)
    } else if os == "macos"@ {
        Some("apple-darwin"@)
    } else {
        None
    };
    match os_part {
        None => Err("unsupported OS: "@ + os),
        Some(o) => if arch == "x86_64"@ || arch == "aarch64"@ {
            Ok(arch + seq!['-'] + o)
        } else {
            Err("unsupported arch: "@ + arch)
        },
    }
}

/// Which machines cvm ships a binary for: Linux and macOS, each on x86_64
/// and aarch64. The OS picks the target's suffix, the architecture its
/// prefix, and which architectures are accepted does not depend on the OS.
pub proof fn law_platform_names(os: Seq<char>, arch: Seq<char>, other_os: Seq<char>)
    ensures
        platform_text(os, arch) is Ok <==> ((os == "linux"@ || os == "macos"@) && (arch == "x86_64"@
            || arch == "aarch64"@)),
        os == "linux"@ && (arch == "x86_64"@ || arch == "aarch64"@) ==> platform_text(os, arch)
            == Ok::<Seq<char>, Seq<char>>(arch + "-unknown-linux-musl"@),
        os == "macos"@ && (arch == "x86_64"@ || arch == "aarch64"@) ==> platform_text(os, arch)
            == Ok::<Seq<char>, Seq<char>>(arch + "-apple-darwin"@),
        !(os == "linux"@ || os == "macos"@) ==> platform_text(os, arch) == Err::<Seq<char>, Seq<char>>(
            "unsupported OS: "@ + os,
        ),
        (os == "linux"@ || os == "macos"@) && !(arch == "x86_64"@ || arch == "aarch64"@) ==> platform_text(
            os,
            arch,
        ) == Err::<Seq<char>, Seq<char>>("unsupported arch: "@ + arch),
        platform_text(os, arch) is Ok && (other_os == "linux"@ || other_os == "macos"@) ==> platform_text(
            other_os,
            arch,
        ) is Ok,
{
    reveal_strlit("-");
    reveal_strlit("linux");
    reveal_strlit("macos");
    assert("linux"@ != "macos"@) by {
        assert("linux"@[0] != "macos"@[0]);
    }
    assert(seq!['-'] + "unknown-linux-musl"@ =~= "-unknown-linux-musl"@) by {
        reveal_strlit("unknown-linux-musl");
        reveal_strlit("-unknown-linux-musl");
    }
    assert(seq!['-'] + "apple-darwin"@ =~= "-apple-darwin"@) by {
        reveal_strlit("apple-darwin");
        reveal_strlit("-apple-darwin");
    }
    assert(arch + seq!['-'] + "unknown-linux-musl"@ =~= arch + (seq!['-'] + "unknown-linux-musl"@));
    assert(arch + seq!['-'] + "apple-darwin"@ =~= arch + (seq!['-'] + "apple-darwin"@));
}

/// The release target of the machine cvm runs on, from `std::env::consts`'s
/// `OS` and `ARCH`.
pub fn binary_platform_name(os: &str, arch: &str) -> (r: Result<String, String>)
    ensures
        string_result(r) == platform_text(os@, arch@),
{
    let ghost expected = platform_text(os@, arch@);
    let os_part = if same_text(os, "linux") {
        assert(expected == (if arch@ == "x86_64"@ || arch@ == "aarch64"@ {
            Ok(arch@ + seq!['-'] + "unknown-linux-musl"@)
        } else {
            Err::<Seq<char>, Seq<char>>("unsupported arch: "@ + arch@)
        }));
        "unknown-linux-musl"
    } else if same_text(os, "macos") {
        assert(expected == (if arch@ == "x86_64"@ || arch@ == "aarch64"@ {
            Ok(arch@ + seq!['-'] + "apple-darwin"@)
        } else {
            Err::<Seq<char>, Seq<char>>("unsupported arch: "@ + arch@)
        }));
        "apple-darwin"
    } else {
        return Err(join2("unsupported OS: ", os));
    };
    assert(expected == (if arch@ == "x86_64"@ || arch@ == "aarch64"@ {
        Ok(arch@ + seq!['-'] + os_part@)
    } else {
        Err::<Seq<char>, Seq<char>>("unsupported arch: "@ + arch@)
    }));
    if !(same_text(arch, "x86_64") || same_text(arch, "aarch64")) {
        return Err(join2("unsupported arch: ", arch));
    }
    proof {
        reveal_strlit("-");
    }
    let mut s = join2(arch, "-");
    s.append(os_part);
    assert(s@ =~= arch@ + seq!['-'] + os_part@);
    Ok(s)
}

/// The release asset for a target: `cvm-<target>.tar.gz`.
pub fn binary_asset_name(platform: &str) -> (r: String)
    ensures
        r@ == "cvm-"@ + platform@ + ".tar.gz"@,
{
    let mut s = join2("cvm-", platform);
    s.append(".tar.gz");
    s
}

/// The line `cvm ls-remote` prints about what a family's source builds support.
pub open spec fn compatibility_text(tool: Tool, platform: Result<Seq<char>, Seq<char>>) -> Seq<char> {
    let p = match platform {
        Ok(x) => x,
        Err(e) => "unsupported ("@ + e + ")"@,
    };
    match tool {
        Tool::Gcc => p + "; source builds use GNU GCC releases and Debian/Ubuntu apt dependency bootstrap"@,
        Tool::Llvm => p + "; source builds support LLVM >= 9.0.1 and Debian/Ubuntu apt dependency bootstrap"@,
    }
}

/// What a family's source builds support on this machine.
pub fn compatibility_note(tool: Tool, platform: Result<String, String>) -> (r: String)
    ensures
        r@ == compatibility_text(tool, string_result(platform)),
{
    let p = match platform {
        Ok(x) => x,
        Err(e) => {
            let mut m = join2("unsupported (", e.as_str());
            m.append(")");
            m
        },
    };
    match tool {
        Tool::Gcc => join2(p.as_str(), "; source builds use GNU GCC releases and Debian/Ubuntu apt dependency bootstrap"),
        Tool::Llvm => join2(p.as_str(), "; source builds support LLVM >= 9.0.1 and Debian/Ubuntu apt dependency bootstrap"),
    }
}

/// The compiler binaries `cvm which` reports for a family.
pub open spec fn binary_names(tool: Tool) -> Seq<Seq<char>> {
    match tool {
        Tool::Llvm => seq!["clang"@, "clang++"@, "ld.lld"@, "llvm-ar"@, "llvm-nm"@, "llvm-objcopy"@],
        Tool::Gcc => seq!["gcc"@, "g++"@, "gcov"@],
    }
}

pub fn which_binary_names(tool: Tool) -> (r: Vec<&'static str>)
    ensures
        r@.map_values(|s: &str| s@) == binary_names(tool),
{
    let mut v: Vec<&'static str> = Vec::new();
    match tool {
        Tool::Llvm => {
            v.push("clang");
            v.push("clang++");
            v.push("ld.lld");
            v.push("llvm-ar");
            v.push("llvm-nm");
            v.push("llvm-objcopy");
        },
        Tool::Gcc => {
            v.push("gcc");
            v.push("g++");
            v.push("gcov");
        },
    }
    assert(v@.map_values(|s: &str| s@) =~= binary_names(tool));
    v
}

/// The error for an HTTP response with a failing status: the URL and code,
/// then up to 240 characters of the trimmed body when there is one.
pub open spec fn fetch_status_text(url: Seq<char>, code: u16, body: Seq<char>) -> Seq<char> {
    let head = "failed to fetch "@ + url + ": status code "@ + decimal_text(code as nat);
    let b = trim(body);
    if b.len() == 0 {
        head
    } else {
        head + "; "@ + b.take(if b.len() < 240 { b.len() as int } else { 240 })
    }
}

/// The error for an HTTP response with a failing status.
pub fn fetch_status_message(url: &str, code: u16, body: &str) -> (r: String)
    ensures
        r@ == fetch_status_text(url@, code, body@),
{
    let mut m = join2("failed to fetch ", url);
    m.append(": status code ");
    m.append(decimal_string(code as u32).as_str());
    let b = trim_str(body);
    let blen = b.unicode_len();
    if blen > 0 {
        m.append("; ");
        let n = if blen < 240 { blen } else { 240 };
        let quoted = b.substring_char(0, n);
        assert(quoted@ =~= b@.take(n as int));
        m.append(quoted);
    }
    m
}

/// What `u64::from_str` accepts: an optional `+`, then one or more digits
/// whose value fits in 64 bits.
pub open spec fn u64_text(s: Seq<char>) -> Option<u64> {
    let digits = if s.len() > 0 && s[0] == '+' { s.skip(1) } else { s };
    if digits.len() > 0 && all_digits(digits) && decimal_value(digits) <= u64::MAX {
        Some(decimal_value(digits) as u64)
    } else {
        None
    }
}

/// The time of last use recorded in a cache entry's `.last-used` file.
pub fn parse_last_used(contents: &str) -> (r: Option<u64>)
    ensures
        r == u64_text(trim(contents@)),
{
    let t = trim_str(contents);
    let len = t.unicode_len();
    let digits = if len > 0 && t.get_char(0) == '+' {
        let d = t.substring_char(1, len);
        assert(d@ =~= t@.skip(1));
        d
    } else {
        t
    };
    if digits.unicode_len() == 0 || !is_all_digits(digits) {
        return None;
    }
    decimal_u64(digits)
}

/// What a cache entry's `.last-used` file records: the time and a line feed.
pub fn last_used_record(now: u64) -> (r: String)
    ensures
        r@ == decimal_text(now as nat) + seq!['\n'],
{
    let mut s = crate::text::decimal_string_u64(now);
    proof {
        reveal_strlit("\n");
    }
    s.append("\n");
    s
}

/// The persistent default as recorded in its file, white space around it ignored.
pub fn default_version_text(contents: &str) -> (r: String)
    ensures
        r@ == trim(contents@),
{
    String::from_str(trim_str(contents))
}

/// Whether a recorded default names `version`: what removing that version
/// checks before it clears the default.
pub fn default_names_version(recorded: &str, version: &Version) -> (r: bool)
    ensures
        r == (recorded@ == version_text(version@)),
{
    same_text(recorded, version.to_string().as_str())
}

/// A text that neither starts nor ends with white space is its own trim.
proof fn lemma_trim_unpadded(s: Seq<char>)
    requires
        s.len() > 0,
        is_digit(s[0]),
        is_digit(s.last()),
    ensures
        trim(s) == s,
{
    assert(trim_start(s) == s);
    assert(trim_end(s) == s);
}

/// The time that `last_used_record` writes is the time that `parse_last_used`
/// reads back from it.
pub proof fn law_last_used_roundtrip(now: u64)
    ensures
        u64_text(trim(decimal_text(now as nat) + seq!['\n'])) == Some(now),
{
    let d = decimal_text(now as nat);
    lemma_decimal_text_roundtrip(now as nat);
    let t = d + seq!['\n'];
    assert(is_digit(d[0]) && is_digit(d.last()));
    assert(t[0] == d[0]);
    assert(trim_start(t) == t);
    assert(t.drop_last() =~= d);
    lemma_trim_unpadded(d);
    assert(trim_start(d) == d);
    assert(trim_end(t) == trim_end(d));
    assert(trim(t) == d);
}

/// A persistent default recorded as a version's text reads back, trimmed as
/// `default_version_text` trims it, as the same text and the same version.
pub proof fn law_default_roundtrip(v: VersionView)
    ensures
        trim(version_text(v)) == version_text(v),
        parse_version(trim(version_text(v))) == Ok::<VersionView, Seq<char>>(v),
{
    let major = decimal_text(v.major as nat);
    let last = match v.rc {
        Some(n) => decimal_text(n as nat),
        None => decimal_text(v.patch as nat),
    };
    lemma_decimal_text_roundtrip(v.major as nat);
    lemma_decimal_text_roundtrip(v.patch as nat);
    if let Some(n) = v.rc {
        lemma_decimal_text_roundtrip(n as nat);
    }
    let text = version_text(v);
    assert(is_digit(major[0]) && is_digit(last.last()));
    assert(text[0] == major[0]);
    assert(text.last() == last.last());
    lemma_trim_unpadded(text);
    law_parse_version_text(v);
}

} // verus!
