//! Compiler families and `tool@version` specifications.
use vstd::prelude::*;

use crate::text::{find_char, join2, same_text, text_result, find};
use crate::version::{law_parse_version_text, parse_version, version_result, version_text, Version, VersionView};
use crate::text::lemma_find_from_first;
use crate::text::occurs_at;

verus! {

/// A compiler family that cvm manages.
#[derive(Debug, Clone, Copy, PartialEq, Eq, Structural)]
pub enum Tool {
    Llvm,
    Gcc,
}

/// The name of a compiler family, as commands and paths write it.
pub open spec fn tool_name(t: Tool) -> Seq<char> {
    match t {
        Tool::Llvm => "llvm"@,
        Tool::Gcc => "gcc"@,
    }
}

/// What reading a compiler family name gives.
pub open spec fn parse_tool_text(s: Seq<char>) -> Result<Tool, Seq<char>> {
    if s == "llvm"@ {
        Ok(Tool::Llvm)
    } else if s == "gcc"@ {
        Ok(Tool::Gcc)
    } else {
        Err("unsupported compiler family: "@ + s)
    }
}

/// Every family, in the order cvm lists them.
pub open spec fn all_tools() -> Seq<Tool> {
    seq![Tool::Llvm, Tool::Gcc]
}

impl Tool {
    /// The family's name: `llvm` or `gcc`.
    pub fn as_str(self) -> (r: &'static str)
        ensures
            r@ == tool_name(self),
    {
        match self {
            Tool::Llvm => "llvm",
            Tool::Gcc => "gcc",
        }
    }

    /// Both families, LLVM first.
    pub fn all() -> (r: [Tool; 2])
        ensures
            r@ == all_tools(),
    {
        let r = [Tool::Llvm, Tool::Gcc];
        assert(r@ =~= all_tools());
        r
    }
}

/// Reading a family's name gives back the family.
pub proof fn law_tool_name_roundtrip(t: Tool)
    ensures
        parse_tool_text(tool_name(t)) == Ok::<Tool, Seq<char>>(t),
{
    reveal_strlit("llvm");
    reveal_strlit("gcc");
    assert("llvm"@ != "gcc"@) by {
        assert("llvm"@.len() != "gcc"@.len());
    }
}

/// Reads a compiler family name.
pub fn parse_tool(s: &str) -> (r: Result<Tool, String>)
    ensures
        text_result(r) == parse_tool_text(s@),
{
    if same_text(s, "llvm") {
        Ok(Tool::Llvm)
    } else if same_text(s, "gcc") {
        Ok(Tool::Gcc)
    } else {
        Err(join2("unsupported compiler family: ", s))
    }
}

/// A compiler family together with one of its versions.
#[derive(Debug, Clone, PartialEq, Eq, Structural)]
pub struct ToolSpec {
    pub tool: Tool,
    pub version: Version,
}

/// What a `ToolSpec` holds.
pub open spec fn tool_spec_view(t: ToolSpec) -> (Tool, VersionView) {
    (t.tool, t.version@)
}

/// The view of a `ToolSpec` result.
pub open spec fn tool_spec_result(r: Result<ToolSpec, String>) -> Result<(Tool, VersionView), Seq<char>> {
    match r {
        Ok(t) => Ok(tool_spec_view(t)),
        Err(e) => Err(e@),
    }
}

/// The error for a text without `@`.
pub open spec fn tool_spec_shape_error(input: Seq<char>) -> Seq<char> {
    "tool spec must look like llvm@21.1.8 or gcc@15.1.0: "@ + input
}

/// What `parse_tool_spec` gives: the text is split at its first `@` into a
/// family name and an exact version.
pub open spec fn parse_tool_spec_text(input: Seq<char>) -> Result<(Tool, VersionView), Seq<char>> {
    match find(input, seq!['@']) {
        None => Err(tool_spec_shape_error(input)),
        Some(i) => match parse_tool_text(input.take(i)) {
            Err(e) => Err(e),
            Ok(tool) => match parse_version(input.skip(i + 1)) {
                Err(e) => Err(e),
                Ok(v) => Ok((tool, v)),
            },
        },
    }
}

/// Reading `<family>@<version>` written out gives back the family and the version.
pub proof fn law_tool_spec_roundtrip(t: Tool, v: VersionView)
    ensures
        parse_tool_spec_text(tool_name(t) + seq!['@'] + version_text(v)) == Ok::<(Tool, VersionView), Seq<char>>((t, v)),
{
    reveal_strlit("llvm");
    reveal_strlit("gcc");
    let name = tool_name(t);
    let s = name + seq!['@'] + version_text(v);
    assert forall|j: int| 0 <= j < name.len() implies !occurs_at(s, seq!['@'], j) by {
        assert(s[j] == name[j]);
        if occurs_at(s, seq!['@'], j) {
            assert(s.subrange(j, j + 1)[0] == s[j]);
        }
    }
    assert(occurs_at(s, seq!['@'], name.len() as int)) by {
        assert(s.subrange(name.len() as int, name.len() as int + 1) =~= seq!['@']);
    }
    lemma_find_from_first(s, seq!['@'], 0, name.len() as int);
    assert(s.take(name.len() as int) =~= name);
    assert(s.skip(name.len() as int + 1) =~= version_text(v));
    law_tool_name_roundtrip(t);
    law_parse_version_text(v);
}

/// Splits `tool@version` at the first `@`.
pub fn split_tool_spec<'a>(input: &'a str) -> (r: Option<(&'a str, &'a str)>)
    ensures
        match find(input@, seq!['@']) {
            None => r is None,
            Some(i) => r matches Some((a, b)) && a@ == input@.take(i) && b@ == input@.skip(i + 1),
        },
{
    match find_char(input, '@') {
        None => None,
        Some(i) => {
            let len = input.unicode_len();
            let a = input.substring_char(0, i);
            let b = input.substring_char(i + 1, len);
            assert(a@ =~= input@.take(i as int));
            assert(b@ =~= input@.skip(i + 1));
            Some((a, b))
        },
    }
}

/// Reads `llvm@X.Y.Z` or `gcc@X.Y.Z` with an exact version.
pub fn parse_tool_spec(input: &str) -> (r: Result<ToolSpec, String>)
    ensures
        tool_spec_result(r) == parse_tool_spec_text(input@),
{
    let (tool, version) = match split_tool_spec(input) {
        Some(pair) => pair,
        None => {
            return Err(join2("tool spec must look like llvm@21.1.8 or gcc@15.1.0: ", input));
        },
    };
    let tool = match parse_tool(tool) {
        Ok(t) => t,
        Err(e) => return Err(e),
    };
    let version = match Version::parse(version) {
        Ok(v) => v,
        Err(e) => return Err(e),
    };
    Ok(ToolSpec { tool, version })
}

impl std::str::FromStr for Tool {
    type Err = String;

    fn from_str(s: &str) -> (r: Result<Self, Self::Err>)
        ensures
            text_result(r) == parse_tool_text(s@),
    {
        parse_tool(s)
    }
}

impl std::str::FromStr for Version {
    type Err = String;

    fn from_str(s: &str) -> (r: Result<Self, Self::Err>)
        ensures
            version_result(r) == parse_version(s@),
    {
        Version::parse(s)
    }
}

} // verus!
