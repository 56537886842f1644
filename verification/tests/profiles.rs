use cvm::profile::{
    build_profile_env, gcc_profile_env, llvm_profile_env, profile_template, push_non_empty_env,
    reject_newlines, trims_to_empty, BuildProfile, GccBuildProfile, LlvmBuildProfile,
    GCC_PROFILE_TEMPLATE, LLVM_PROFILE_TEMPLATE,
};
use cvm::Tool;

fn s(text: &str) -> String {
    text.to_string()
}

fn pairs(list: &[(&str, &str)]) -> Vec<(String, String)> {
    list.iter().map(|(k, v)| (s(k), s(v))).collect()
}

fn llvm() -> LlvmBuildProfile {
    LlvmBuildProfile { targets: None, projects: None, runtimes: None, build_type: None, cmake_defines: None }
}

fn gcc() -> GccBuildProfile {
    GccBuildProfile { languages: None, multilib: None, bootstrap: None, configure_args: None }
}

#[test]
fn llvm_profile_becomes_environment_in_field_order() {
    let profile = LlvmBuildProfile {
        targets: Some(s("X86")),
        projects: Some(s("clang;lld")),
        runtimes: None,
        build_type: Some(s("Release")),
        cmake_defines: Some(pairs(&[("LLVM_ENABLE_ASSERTIONS", "ON"), ("LLVM_ENABLE_ZSTD", "OFF")])),
    };
    assert_eq!(
        llvm_profile_env(profile).unwrap(),
        pairs(&[
            ("CVM_LLVM_TARGETS", "X86"),
            ("CVM_LLVM_PROJECTS", "clang;lld"),
            ("CVM_LLVM_BUILD_TYPE", "Release"),
            ("CVM_LLVM_CMAKE_DEFINES", "LLVM_ENABLE_ASSERTIONS=ON\nLLVM_ENABLE_ZSTD=OFF"),
        ])
    );
    let mut empty_defines = llvm();
    empty_defines.cmake_defines = Some(vec![]);
    assert_eq!(llvm_profile_env(empty_defines).unwrap(), vec![]);
    assert_eq!(llvm_profile_env(llvm()).unwrap(), vec![]);
}

#[test]
fn llvm_profile_rejects_blank_and_multiline_values() {
    let mut p = llvm();
    p.targets = Some(s("  \t"));
    assert_eq!(llvm_profile_env(p).unwrap_err(), "CVM_LLVM_TARGETS must not be empty");
    let mut p = llvm();
    p.runtimes = Some(s("libcxx\nlibunwind"));
    assert_eq!(llvm_profile_env(p).unwrap_err(), "CVM_LLVM_RUNTIMES must not contain newlines");
    let mut p = llvm();
    p.cmake_defines = Some(pairs(&[(" ", "ON")]));
    assert_eq!(llvm_profile_env(p).unwrap_err(), "llvm.cmake_defines contains an empty key");
    let mut p = llvm();
    p.cmake_defines = Some(pairs(&[("A\rB", "ON")]));
    assert_eq!(llvm_profile_env(p).unwrap_err(), "llvm.cmake_defines keys must not contain newlines");
    let mut p = llvm();
    p.cmake_defines = Some(pairs(&[("A", "ON\n")]));
    assert_eq!(llvm_profile_env(p).unwrap_err(), "llvm.cmake_defines values must not contain newlines");
    let mut p = llvm();
    p.cmake_defines = Some(pairs(&[("A", "")]));
    assert_eq!(llvm_profile_env(p).unwrap(), pairs(&[("CVM_LLVM_CMAKE_DEFINES", "A=")]));
}

#[test]
fn gcc_profile_becomes_environment_in_field_order() {
    let profile = GccBuildProfile {
        languages: Some(s("c,c++")),
        multilib: Some(false),
        bootstrap: Some(true),
        configure_args: Some(vec![s("--enable-plugin"), s("--enable-lto")]),
    };
    assert_eq!(
        gcc_profile_env(profile).unwrap(),
        pairs(&[
            ("CVM_GCC_LANGUAGES", "c,c++"),
            ("CVM_GCC_MULTILIB", "false"),
            ("CVM_GCC_BOOTSTRAP", "true"),
            ("CVM_GCC_CONFIGURE_ARGS", "--enable-plugin\n--enable-lto"),
        ])
    );
    let mut p = gcc();
    p.configure_args = Some(vec![]);
    assert_eq!(gcc_profile_env(p).unwrap(), vec![]);
}

#[test]
fn gcc_profile_rejects_blank_and_multiline_arguments() {
    let mut p = gcc();
    p.configure_args = Some(vec![s("--ok"), s(" ")]);
    assert_eq!(gcc_profile_env(p).unwrap_err(), "gcc.configure_args must not contain empty arguments");
    let mut p = gcc();
    p.configure_args = Some(vec![s("a\nb")]);
    assert_eq!(gcc_profile_env(p).unwrap_err(), "gcc.configure_args must not contain newlines");
    let mut p = gcc();
    p.languages = Some(s(""));
    assert_eq!(gcc_profile_env(p).unwrap_err(), "CVM_GCC_LANGUAGES must not be empty");
}

#[test]
fn build_profile_needs_the_section_of_the_family() {
    let only_gcc = || BuildProfile { llvm: None, gcc: Some(gcc()) };
    assert_eq!(
        build_profile_env(Tool::Llvm, "/p.toml", only_gcc()).unwrap_err(),
        "profile /p.toml does not contain an [llvm] section"
    );
    assert_eq!(build_profile_env(Tool::Gcc, "/p.toml", only_gcc()).unwrap(), vec![]);
    let only_llvm = BuildProfile { llvm: Some(llvm()), gcc: None };
    assert_eq!(
        build_profile_env(Tool::Gcc, "/q.toml", only_llvm).unwrap_err(),
        "profile /q.toml does not contain a [gcc] section"
    );
}

#[test]
fn push_non_empty_env_adds_only_given_values() {
    let mut envs = pairs(&[("A", "1")]);
    assert_eq!(push_non_empty_env(&mut envs, "B", None), Ok(()));
    assert_eq!(envs, pairs(&[("A", "1")]));
    assert_eq!(push_non_empty_env(&mut envs, "B", Some(s(" 2 "))), Ok(()));
    assert_eq!(envs, pairs(&[("A", "1"), ("B", " 2 ")]));
    assert_eq!(push_non_empty_env(&mut envs, "C", Some(s("\n"))).unwrap_err(), "C must not be empty");
    assert_eq!(push_non_empty_env(&mut envs, "C", Some(s("x\ry"))).unwrap_err(), "C must not contain newlines");
    assert_eq!(envs.len(), 2);
}

#[test]
fn newlines_and_carriage_returns_are_refused() {
    assert_eq!(reject_newlines("field", "plain"), Ok(()));
    assert_eq!(reject_newlines("field", "a\rb").unwrap_err(), "field must not contain newlines");
    assert_eq!(reject_newlines("field", "a\nb").unwrap_err(), "field must not contain newlines");
    assert!(trims_to_empty(" \t\u{2003}\n"));
    assert!(!trims_to_empty(" x "));
}

#[test]
fn templates_are_per_family() {
    assert_eq!(profile_template(Tool::Llvm), LLVM_PROFILE_TEMPLATE);
    assert_eq!(profile_template(Tool::Gcc), GCC_PROFILE_TEMPLATE);
    assert!(LLVM_PROFILE_TEMPLATE.contains("[llvm]"));
    assert!(LLVM_PROFILE_TEMPLATE.contains("targets = \"X86\""));
    assert!(GCC_PROFILE_TEMPLATE.contains("[gcc]"));
    assert!(GCC_PROFILE_TEMPLATE.contains("languages = \"c,c++\""));
}
