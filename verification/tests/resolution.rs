use cvm::remote::{
    normalize_cvm_tag, parse_cvm_tag, parse_remote_index, remote_versions_from_index,
    CompilerRemoteIndex, CvmRemoteIndex, RemoteIndex, RemoteIndexEntry,
};
use cvm::resolve::{
    default_source_url, installed_versions_from_names, parse_tool_spec_request,
    resolve_highest_matching_version, resolve_local_or_exact_version,
    resolve_remote_or_exact_install_target, resolve_requested_version,
    select_remote_install_target, InstallTargetLookup, LocalToolchains,
};
use cvm::version::VersionPrefix;
use cvm::{parse_remote_index_latest, parse_remote_index_versions, RemoteVersion, Tool, ToolSpec, Version};

fn v(text: &str) -> Version {
    Version::parse(text).unwrap()
}

fn prefix(text: &str) -> VersionPrefix {
    VersionPrefix::parse(text).unwrap()
}

fn state() -> LocalToolchains {
    LocalToolchains {
        llvm_installed: Ok(vec![v("21.1.0"), v("21.1.8"), v("20.1.8"), v("21.1.0-rc1")]),
        gcc_installed: Ok(vec![]),
        llvm_default: Ok(Some("21.1.8".to_string())),
        gcc_default: Ok(None),
    }
}

fn entry(version: &str, date: &str, url: &str) -> RemoteIndexEntry {
    RemoteIndexEntry { version: version.to_string(), date: date.to_string(), url: url.to_string() }
}

fn index(schema_version: u32, latest: &str, gcc: Vec<RemoteIndexEntry>) -> RemoteIndex {
    RemoteIndex {
        schema_version,
        generated_at: "2026-01-01T00:00:00Z".to_string(),
        cvm: CvmRemoteIndex { latest: latest.to_string() },
        compilers: CompilerRemoteIndex { llvm: vec![], gcc },
    }
}

fn release(version: &str, url: &str) -> RemoteVersion {
    RemoteVersion { version: v(version), date: None, url: url.to_string() }
}

#[test]
fn highest_installed_version_under_a_prefix_wins() {
    let installed = vec![v("21.1.0"), v("21.1.8"), v("20.1.8"), v("21.1.0-rc1")];
    assert_eq!(resolve_highest_matching_version(installed.clone(), &prefix("21")), Some(v("21.1.8")));
    assert_eq!(resolve_highest_matching_version(installed.clone(), &prefix("21.1.0")), Some(v("21.1.0")));
    assert_eq!(resolve_highest_matching_version(installed.clone(), &prefix("20")), Some(v("20.1.8")));
    assert_eq!(resolve_highest_matching_version(installed, &prefix("19")), None);
    assert_eq!(resolve_highest_matching_version(vec![], &prefix("1")), None);
}

#[test]
fn local_resolution_takes_exact_versions_as_written() {
    let s = state();
    assert_eq!(resolve_local_or_exact_version(Tool::Llvm, "22.1.0", &s), Ok(v("22.1.0")));
    assert_eq!(resolve_local_or_exact_version(Tool::Llvm, "21", &s), Ok(v("21.1.8")));
    assert_eq!(resolve_local_or_exact_version(Tool::Llvm, "21.1", &s), Ok(v("21.1.8")));
    assert_eq!(
        resolve_local_or_exact_version(Tool::Llvm, "19", &s).unwrap_err(),
        "no installed llvm version matches prefix 19"
    );
    assert_eq!(
        resolve_local_or_exact_version(Tool::Gcc, "15", &s).unwrap_err(),
        "no installed gcc version matches prefix 15"
    );
    assert_eq!(
        resolve_local_or_exact_version(Tool::Llvm, "abc", &s).unwrap_err(),
        "invalid numeric component in version: abc"
    );
}

#[test]
fn local_resolution_reports_a_failed_read() {
    let mut s = state();
    s.llvm_installed = Err("failed to read /x".to_string());
    assert_eq!(resolve_local_or_exact_version(Tool::Llvm, "21", &s).unwrap_err(), "failed to read /x");
    assert_eq!(resolve_local_or_exact_version(Tool::Llvm, "21.1.8", &s), Ok(v("21.1.8")));
}

#[test]
fn requested_version_falls_back_to_the_default() {
    let s = state();
    assert_eq!(resolve_requested_version(Tool::Llvm, None, &s), Ok(v("21.1.8")));
    assert_eq!(resolve_requested_version(Tool::Llvm, Some("20"), &s), Ok(v("20.1.8")));
    assert_eq!(
        resolve_requested_version(Tool::Gcc, None, &s).unwrap_err(),
        "no default version configured for gcc"
    );
    let mut broken = state();
    broken.llvm_default = Ok(Some("garbage".to_string()));
    assert_eq!(
        resolve_requested_version(Tool::Llvm, None, &broken).unwrap_err(),
        "version must be X.Y.Z or X.Y.Z-rcN: garbage"
    );
    broken.llvm_default = Err("failed to read default".to_string());
    assert_eq!(resolve_requested_version(Tool::Llvm, None, &broken).unwrap_err(), "failed to read default");
}

#[test]
fn tool_spec_requests_resolve_prefixes_locally() {
    let s = state();
    assert_eq!(
        parse_tool_spec_request("llvm@21", &s),
        Ok(ToolSpec { tool: Tool::Llvm, version: v("21.1.8") })
    );
    assert_eq!(
        parse_tool_spec_request("clang@21", &s).unwrap_err(),
        "unsupported compiler family: clang"
    );
    assert_eq!(
        parse_tool_spec_request("llvm", &s).unwrap_err(),
        "tool spec must look like llvm@21.1.8 or gcc@15.1.0: llvm"
    );
}

#[test]
fn installed_directory_names_that_are_not_versions_are_skipped() {
    let names = vec!["21.1.8".to_string(), "tmp".to_string(), "20.1.0-rc2".to_string(), "21".to_string()];
    assert_eq!(installed_versions_from_names(&names), vec![v("21.1.8"), v("20.1.0-rc2")]);
}

#[test]
fn source_urls_follow_upstream_layouts() {
    assert_eq!(
        default_source_url(Tool::Gcc, &v("15.1.0")).unwrap(),
        "https://ftp.gnu.org/gnu/gcc/gcc-15.1.0/gcc-15.1.0.tar.xz"
    );
    assert_eq!(
        default_source_url(Tool::Llvm, &v("9.0.0")).unwrap_err(),
        "LLVM versions older than 9.0.1 are not supported"
    );
    assert_eq!(
        default_source_url(Tool::Llvm, &v("9.0.1-rc3")).unwrap_err(),
        "LLVM versions older than 9.0.1 are not supported"
    );
    assert_eq!(
        default_source_url(Tool::Llvm, &v("9.0.1")).unwrap(),
        "https://github.com/llvm/llvm-project/releases/download/llvmorg-9.0.1/llvm-project-9.0.1.tar.xz"
    );
    assert_eq!(
        default_source_url(Tool::Llvm, &v("11.0.1-rc1")).unwrap(),
        "https://github.com/llvm/llvm-project/releases/download/llvmorg-11.0.1-rc1/llvm-project-11.0.1-rc1.tar.xz"
    );
    assert_eq!(
        default_source_url(Tool::Llvm, &v("11.0.1")).unwrap(),
        "https://github.com/llvm/llvm-project/releases/download/llvmorg-11.0.1/llvm-project-11.0.1.src.tar.xz"
    );
}

#[test]
fn install_targets_are_exact_or_looked_up_remotely() {
    match resolve_remote_or_exact_install_target(Tool::Gcc, "14.2.0").unwrap() {
        InstallTargetLookup::Exact(t) => {
            assert_eq!(t.version, v("14.2.0"));
            assert_eq!(t.source_url, "https://ftp.gnu.org/gnu/gcc/gcc-14.2.0/gcc-14.2.0.tar.xz");
        }
        InstallTargetLookup::Remote(_) => panic!("expected an exact target"),
    }
    match resolve_remote_or_exact_install_target(Tool::Llvm, "21.1").unwrap() {
        InstallTargetLookup::Remote(p) => assert_eq!(p, prefix("21.1")),
        InstallTargetLookup::Exact(_) => panic!("expected a remote lookup"),
    }
    assert!(matches!(
        resolve_remote_or_exact_install_target(Tool::Llvm, "8.0.0"),
        Err(e) if e == "LLVM versions older than 9.0.1 are not supported"
    ));
    assert!(matches!(
        resolve_remote_or_exact_install_target(Tool::Llvm, "x.y"),
        Err(e) if e == "invalid numeric component in version: x.y"
    ));
}

#[test]
fn remote_targets_take_the_highest_release_and_its_url() {
    let releases = vec![release("20.1.0", "u20"), release("21.1.8", "u218"), release("21.1.0", "u210")];
    let t = select_remote_install_target(Tool::Llvm, "21", &prefix("21"), releases.clone()).unwrap();
    assert_eq!(t.version, v("21.1.8"));
    assert_eq!(t.source_url, "u218");
    assert_eq!(
        select_remote_install_target(Tool::Llvm, "19", &prefix("19"), releases).err().unwrap(),
        "no remote llvm version matches prefix 19"
    );
}

#[test]
fn remote_index_skips_bad_versions_sorts_newest_first_and_keeps_first_duplicate() {
    let idx = index(
        1,
        "v0.1.0",
        vec![
            entry("14.2.0", "d1", "u1"),
            entry("x", "d0", "u0"),
            entry("15.1.0", "d2", "u2"),
            entry("14.2.0", "d3", "u3"),
            entry("15.1.0-rc1", "d4", "u4"),
        ],
    );
    let gcc = remote_versions_from_index(&idx, Tool::Gcc);
    let got: Vec<(String, Option<String>, String)> =
        gcc.iter().map(|r| (r.version.to_string(), r.date.clone(), r.url.clone())).collect();
    assert_eq!(
        got,
        vec![
            ("15.1.0".to_string(), Some("d2".to_string()), "u2".to_string()),
            ("15.1.0-rc1".to_string(), Some("d4".to_string()), "u4".to_string()),
            ("14.2.0".to_string(), Some("d1".to_string()), "u1".to_string()),
        ]
    );
    assert!(remote_versions_from_index(&idx, Tool::Llvm).is_empty());
    assert_eq!(parse_remote_index_versions(idx, Tool::Gcc).unwrap(), gcc);
}

#[test]
fn remote_index_schema_must_be_one() {
    let idx = index(2, "v0.1.0", vec![]);
    assert_eq!(
        parse_remote_index(idx.clone()).err().unwrap(),
        "unsupported remote index schema version: 2"
    );
    assert_eq!(
        parse_remote_index_versions(idx.clone(), Tool::Gcc).unwrap_err(),
        "unsupported remote index schema version: 2"
    );
    assert_eq!(
        parse_remote_index_latest(idx).unwrap_err(),
        "unsupported remote index schema version: 2"
    );
}

#[test]
fn latest_release_tag_may_omit_the_v() {
    assert_eq!(parse_remote_index_latest(index(1, "0.2.0", vec![])), Ok(v("0.2.0")));
    assert_eq!(parse_remote_index_latest(index(1, "v0.0.3", vec![])), Ok(v("0.0.3")));
    assert_eq!(
        parse_remote_index_latest(index(1, "vx", vec![])).unwrap_err(),
        "version must be X.Y.Z or X.Y.Z-rcN: x"
    );
}

#[test]
fn cvm_tags_are_normalized_to_a_single_v() {
    assert_eq!(normalize_cvm_tag("0.0.3"), Ok("v0.0.3".to_string()));
    assert_eq!(normalize_cvm_tag("v0.0.3"), Ok("v0.0.3".to_string()));
    assert_eq!(
        normalize_cvm_tag("vv0.0.3").unwrap_err(),
        "invalid numeric component in version: v0.0.3"
    );
    assert_eq!(parse_cvm_tag("v1.2.3-rc1"), Ok(v("1.2.3-rc1")));
    let tag = normalize_cvm_tag("1.2.3").unwrap();
    assert_eq!(normalize_cvm_tag(&tag), Ok(tag.clone()));
}
