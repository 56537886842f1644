use std::cmp::Ordering;

use cvm::tool::{parse_tool, split_tool_spec};
use cvm::version::{parse_u32, VersionPrefix};
use cvm::{parse_tool_spec, Tool, ToolSpec, Version};

fn v(text: &str) -> Version {
    Version::parse(text).unwrap()
}

#[test]
fn version_errors_name_the_input() {
    assert_eq!(
        Version::parse("1.2.3-rc").unwrap_err(),
        "invalid rc version: 1.2.3-rc"
    );
    assert_eq!(
        Version::parse("1.2.3-rc1x").unwrap_err(),
        "invalid rc version: 1.2.3-rc1x"
    );
    assert_eq!(
        Version::parse("1.2-rc1.3").unwrap_err(),
        "invalid rc version: 1.2-rc1.3"
    );
    assert_eq!(
        Version::parse("1.2.3-beta").unwrap_err(),
        "unsupported version suffix: 1.2.3-beta"
    );
    assert_eq!(
        Version::parse("1.2").unwrap_err(),
        "version must be X.Y.Z or X.Y.Z-rcN: 1.2"
    );
    assert_eq!(
        Version::parse("1.2.3.4").unwrap_err(),
        "version must be X.Y.Z or X.Y.Z-rcN: 1.2.3.4"
    );
    assert_eq!(
        Version::parse("1..3").unwrap_err(),
        "invalid numeric component in version: 1..3"
    );
    assert_eq!(
        Version::parse("1.2.+3").unwrap_err(),
        "invalid numeric component in version: 1.2.+3"
    );
    assert_eq!(
        Version::parse("1.2.4294967296").unwrap_err(),
        "version component is too large: 1.2.4294967296"
    );
    assert_eq!(
        Version::parse("1.2.3-rc4294967296").unwrap_err(),
        "version component is too large: 1.2.3-rc4294967296"
    );
}

#[test]
fn version_text_drops_leading_zeros_and_keeps_rc() {
    assert_eq!(v("01.002.3").to_string(), "1.2.3");
    assert_eq!(v("1.2.3-rc01").to_string(), "1.2.3-rc1");
    assert_eq!(v("4294967295.0.0").to_string(), "4294967295.0.0");
    assert_eq!(v("0.0.0-rc0").to_string(), "0.0.0-rc0");
}

#[test]
fn version_text_parses_back_to_the_same_version() {
    for text in ["0.0.0", "21.1.8", "15.1.0-rc3", "4294967295.4294967295.4294967295-rc4294967295"] {
        let version = v(text);
        assert_eq!(Version::parse(&version.to_string()).unwrap(), version);
        assert_eq!(version.to_string(), text);
    }
}

#[test]
fn versions_order_by_components_then_rc() {
    assert!(v("1.10.0") > v("1.9.9"));
    assert!(v("2.0.0") > v("1.99.99"));
    assert!(v("1.2.3-rc2") < v("1.2.3-rc10"));
    assert!(v("1.2.3-rc10") < v("1.2.3"));
    assert!(v("1.2.3") < v("1.2.4-rc1"));
    assert_eq!(v("1.2.3").compare(&v("1.2.3")), Ordering::Equal);
    assert_eq!(v("1.2.3-rc1").compare(&v("1.2.3")), Ordering::Less);
    assert_eq!(v("1.2.4").compare(&v("1.2.3")), Ordering::Greater);
    assert!(v("9.0.0").is_older_than(&v("9.0.1")));
    assert!(!v("9.0.1").is_older_than(&v("9.0.1")));
    assert_eq!(v("1.2.3-rc1").rc_rank(), 0);
    assert_eq!(v("1.2.3").rc_rank(), 1);
}

#[test]
fn version_from_str_matches_parse() {
    let parsed: Version = "21.1.8".parse().unwrap();
    assert_eq!(parsed, v("21.1.8"));
    assert!("21.1".parse::<Version>().is_err());
}

#[test]
fn prefixes_parse_one_to_three_components() {
    let p = VersionPrefix::parse("21").unwrap();
    assert_eq!((p.major, p.minor, p.patch), (21, None, None));
    let p = VersionPrefix::parse("21.1").unwrap();
    assert_eq!((p.major, p.minor, p.patch), (21, Some(1), None));
    let p = VersionPrefix::parse("21.1.8").unwrap();
    assert_eq!((p.major, p.minor, p.patch), (21, Some(1), Some(8)));
    assert_eq!(
        VersionPrefix::parse("21.1.8.1").unwrap_err(),
        "version prefix must be X, X.Y, or X.Y.Z: 21.1.8.1"
    );
    assert_eq!(
        VersionPrefix::parse("21-rc1").unwrap_err(),
        "version prefix must be numeric dot components: 21-rc1"
    );
    assert_eq!(
        VersionPrefix::parse("").unwrap_err(),
        "invalid numeric component in version: "
    );
    assert_eq!(
        VersionPrefix::parse("21.").unwrap_err(),
        "invalid numeric component in version: 21."
    );
}

#[test]
fn versions_match_prefixes_component_by_component() {
    let version = v("21.1.8");
    for prefix in ["21", "21.1", "21.1.8"] {
        assert!(version.matches_prefix(&VersionPrefix::parse(prefix).unwrap()));
    }
    for prefix in ["2", "21.2", "21.1.7", "22"] {
        assert!(!version.matches_prefix(&VersionPrefix::parse(prefix).unwrap()));
    }
    assert!(v("21.1.0-rc1").matches_prefix(&VersionPrefix::parse("21.1.0").unwrap()));
}

#[test]
fn numeric_components_accept_digits_only() {
    assert_eq!(parse_u32("007", "x.007"), Ok(7));
    assert_eq!(parse_u32("4294967295", "v"), Ok(u32::MAX));
    assert_eq!(
        parse_u32("", "a..b").unwrap_err(),
        "invalid numeric component in version: a..b"
    );
    assert_eq!(
        parse_u32("4294967296", "orig").unwrap_err(),
        "version component is too large: orig"
    );
}

#[test]
fn tool_names_round_trip() {
    assert_eq!(Tool::all(), [Tool::Llvm, Tool::Gcc]);
    for tool in Tool::all() {
        assert_eq!(parse_tool(tool.as_str()), Ok(tool));
        assert_eq!(tool.as_str().parse::<Tool>(), Ok(tool));
    }
    assert_eq!(Tool::Llvm.as_str(), "llvm");
    assert_eq!(Tool::Gcc.as_str(), "gcc");
    assert_eq!(parse_tool("clang").unwrap_err(), "unsupported compiler family: clang");
    assert_eq!(parse_tool("LLVM").unwrap_err(), "unsupported compiler family: LLVM");
}

#[test]
fn tool_specs_split_at_the_first_at_sign() {
    assert_eq!(split_tool_spec("llvm@21.1.8"), Some(("llvm", "21.1.8")));
    assert_eq!(split_tool_spec("a@b@c"), Some(("a", "b@c")));
    assert_eq!(split_tool_spec("llvm"), None);
    assert_eq!(
        parse_tool_spec("llvm21.1.8").unwrap_err(),
        "tool spec must look like llvm@21.1.8 or gcc@15.1.0: llvm21.1.8"
    );
    assert_eq!(
        parse_tool_spec("llvm@21").unwrap_err(),
        "version must be X.Y.Z or X.Y.Z-rcN: 21"
    );
    assert_eq!(
        parse_tool_spec("gcc@15.1.0@x").unwrap_err(),
        "invalid numeric component in version: 15.1.0@x"
    );
    assert_eq!(
        parse_tool_spec("gcc@15.1.0-rc2").unwrap(),
        ToolSpec { tool: Tool::Gcc, version: v("15.1.0-rc2") }
    );
}

#[test]
fn tool_spec_text_parses_back() {
    for (tool, text) in [(Tool::Llvm, "21.1.8"), (Tool::Gcc, "15.1.0-rc1")] {
        let spec = format!("{}@{}", tool.as_str(), v(text).to_string());
        assert_eq!(parse_tool_spec(&spec).unwrap(), ToolSpec { tool, version: v(text) });
    }
}
