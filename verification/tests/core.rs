use cvm::remote::{CompilerRemoteIndex, CvmRemoteIndex, RemoteIndex, RemoteIndexEntry};
use cvm::{
    cvm_home_from_env, env_script, init_script, install_prefix_for_home, parse_remote_index_latest,
    parse_remote_index_versions, parse_tool_spec, Tool, ToolSpec, Version,
};

fn entries_from_json(value: &serde_json::Value) -> Vec<RemoteIndexEntry> {
    value
        .as_array()
        .unwrap()
        .iter()
        .map(|entry| RemoteIndexEntry {
            version: entry["version"].as_str().unwrap().to_string(),
            date: entry["date"].as_str().unwrap().to_string(),
            url: entry["url"].as_str().unwrap().to_string(),
        })
        .collect()
}

fn index_from_json(text: &str) -> RemoteIndex {
    let value: serde_json::Value = serde_json::from_str(text).unwrap();
    RemoteIndex {
        schema_version: value["schema_version"].as_u64().unwrap() as u32,
        generated_at: value["generated_at"].as_str().unwrap().to_string(),
        cvm: CvmRemoteIndex {
            latest: value["cvm"]["latest"].as_str().unwrap().to_string(),
        },
        compilers: CompilerRemoteIndex {
            llvm: entries_from_json(&value["compilers"]["llvm"]),
            gcc: entries_from_json(&value["compilers"]["gcc"]),
        },
    }
}

#[test]
fn parses_stable_and_rc_versions() {
    assert_eq!(Version::parse("21.1.8").unwrap().to_string(), "21.1.8");
    assert_eq!(
        Version::parse("21.1.0-rc1").unwrap().to_string(),
        "21.1.0-rc1"
    );
    assert!(Version::parse("21").is_err());
    assert!(Version::parse("21.1.x").is_err());
}

#[test]
fn orders_rc_before_stable_release() {
    let rc = Version::parse("21.1.0-rc1").unwrap();
    let stable = Version::parse("21.1.0").unwrap();
    let newer = Version::parse("21.1.8").unwrap();

    assert!(rc < stable);
    assert!(stable < newer);
}

#[test]
fn parses_tool_specs() {
    assert_eq!(
        parse_tool_spec("llvm@21.1.8").unwrap(),
        ToolSpec {
            tool: Tool::Llvm,
            version: Version::parse("21.1.8").unwrap()
        }
    );
    assert_eq!(parse_tool_spec("gcc@15.1.0").unwrap().tool, Tool::Gcc);
    assert!(parse_tool_spec("clang@21.1.8").is_err());
}

#[test]
fn emits_path_only_env_for_llvm_and_gcc() {
    let llvm = env_script(Tool::Llvm, "/opt/cvm/toolchains/llvm/21.1.8");
    assert!(llvm.contains("_cvm_strip_toolchain_paths"));
    assert!(llvm.contains("toolchains/llvm/*/bin"));
    assert!(!llvm.contains("toolchains/gcc/*/bin"));
    assert!(llvm.contains("export PATH=\"/opt/cvm/toolchains/llvm/21.1.8/bin:$PATH\""));

    let gcc = env_script(Tool::Gcc, "/opt/cvm/toolchains/gcc/15.1.0");
    assert!(gcc.contains("_cvm_strip_toolchain_paths"));
    assert!(gcc.contains("toolchains/gcc/*/bin"));
    assert!(!gcc.contains("toolchains/llvm/*/bin"));
    assert!(gcc.contains("export PATH=\"/opt/cvm/toolchains/gcc/15.1.0/bin:$PATH\""));

    for script in [&llvm, &gcc] {
        for variable in ["CC", "CXX", "LD", "LLVM", "HOSTCC", "HOSTCXX"] {
            assert!(!script.contains(&format!("export {variable}=")));
            assert!(!script.contains(&format!("unset {variable}")));
        }
    }
}

#[test]
fn init_script_loads_defaults_dynamically_and_wraps_use() {
    let script = init_script(&[(
        Tool::Llvm,
        Version::parse("21.1.8").unwrap(),
        "/opt/cvm/toolchains/llvm/21.1.8".to_string(),
    )]);

    assert!(!script.contains("export LLVM=\"/opt/cvm/toolchains/llvm/21.1.8/bin/\""));
    assert!(script.contains("cvm() {"));
    assert!(script.contains("shift"));
    assert!(script.contains("eval \"$(command cvm use \"$@\")\""));
    assert!(script.contains("export PATH=\"$CVM_HOME/bin:$PATH\""));
    assert!(script.contains("command cvm env --defaults"));
    assert!(script.contains("command cvm completion bash"));
    assert!(script.contains("command cvm completion zsh"));
}

#[test]
fn default_home_is_home_dot_cvm_and_prefixes_live_under_toolchains() {
    let home = "/home/alice";
    let cvm_home = cvm_home_from_env(None, Some(home)).unwrap();
    assert_eq!(cvm_home, "/home/alice/.cvm");

    let empty = "";
    let cvm_home = cvm_home_from_env(Some(empty), Some(home)).unwrap();
    assert_eq!(cvm_home, "/home/alice/.cvm");

    let prefix = install_prefix_for_home(&cvm_home, Tool::Llvm, &Version::parse("21.1.8").unwrap());
    assert_eq!(prefix, "/home/alice/.cvm/toolchains/llvm/21.1.8");
}

#[test]
fn parses_remote_index_versions_dates_and_urls() {
    let index = r#"
{
  "schema_version": 1,
  "generated_at": "2026-06-10T00:00:00Z",
  "cvm": {"latest": "v0.1.0"},
  "compilers": {
    "gcc": [
      {"version": "14.2.0", "date": "2024-08-01", "url": "https://ftp.gnu.org/gnu/gcc/gcc-14.2.0/gcc-14.2.0.tar.xz"},
      {"version": "15.1.0", "date": "2025-04-25", "url": "https://ftp.gnu.org/gnu/gcc/gcc-15.1.0/gcc-15.1.0.tar.xz"}
    ],
    "llvm": [
      {"version": "10.0.1", "date": "2020-08-06", "url": "https://github.com/llvm/llvm-project/releases/download/llvmorg-10.0.1/llvm-project-10.0.1.tar.xz"},
      {"version": "21.1.8", "date": "2026-01-07", "url": "https://github.com/llvm/llvm-project/releases/download/llvmorg-21.1.8/llvm-project-21.1.8.src.tar.xz"}
    ]
  }
}
"#;
    let index = index_from_json(index);

    assert_eq!(
        parse_remote_index_latest(index.clone()).unwrap().to_string(),
        "0.1.0"
    );

    let gcc = parse_remote_index_versions(index.clone(), Tool::Gcc).unwrap();
    assert_eq!(gcc[0].version.to_string(), "15.1.0");
    assert_eq!(gcc[0].date.as_deref(), Some("2025-04-25"));
    assert!(gcc[0].url.ends_with("gcc-15.1.0.tar.xz"));

    let llvm = parse_remote_index_versions(index, Tool::Llvm).unwrap();
    assert_eq!(llvm[0].version.to_string(), "21.1.8");
    assert_eq!(llvm[0].date.as_deref(), Some("2026-01-07"));
    assert!(llvm[0].url.ends_with("llvm-project-21.1.8.src.tar.xz"));
    assert!(llvm[1].url.ends_with("llvm-project-10.0.1.tar.xz"));
}
