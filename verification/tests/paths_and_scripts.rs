use cvm::paths::{
    build_script_name, cache_root, default_build_profile_path, file_url_path, join, key_cache_root,
    partial_download_name, signature_of, source_archive_name, source_cache_dir, source_cache_root,
    source_release_key_env, source_release_key_name, source_release_key_url,
};
use cvm::platform::{
    binary_asset_name, binary_platform_name, compatibility_note, fetch_status_message,
    which_binary_names,
};
use cvm::shell::{
    bash_completion_script, defaults_env_script, shell_escape_path, strip_toolchain_paths_script,
    system_env_script, use_script, zsh_completion_script,
};
use cvm::{cvm_home_from_env, env_script, install_prefix_for_home, Tool, Version};

fn v(text: &str) -> Version {
    Version::parse(text).unwrap()
}

#[test]
fn paths_join_like_unix_paths() {
    assert_eq!(join("/a", "b"), "/a/b");
    assert_eq!(join("/a/", "b"), "/a/b");
    assert_eq!(join("", "b"), "b");
    assert_eq!(join("/a", "/b"), "/b");
    assert_eq!(join("/a", ""), "/a/");
}

#[test]
fn cvm_home_prefers_a_non_empty_cvm_home() {
    assert_eq!(cvm_home_from_env(Some("/x"), Some("/h")), Ok("/x".to_string()));
    assert_eq!(cvm_home_from_env(None, Some("/home/alice/")), Ok("/home/alice/.cvm".to_string()));
    assert_eq!(cvm_home_from_env(None, None).unwrap_err(), "CVM_HOME or HOME must be set");
    assert_eq!(cvm_home_from_env(Some(""), Some("")).unwrap_err(), "CVM_HOME or HOME must be set");
}

#[test]
fn state_lives_under_cvm_home() {
    let home = "/h";
    assert_eq!(install_prefix_for_home(home, Tool::Gcc, &v("15.1.0-rc1")), "/h/toolchains/gcc/15.1.0-rc1");
    assert_eq!(cache_root(home), "/h/cache");
    assert_eq!(source_cache_root(home), "/h/cache/sources");
    assert_eq!(source_cache_dir(home, Tool::Llvm, &v("21.1.8")), "/h/cache/sources/llvm/21.1.8");
    assert_eq!(key_cache_root(home), "/h/cache/keys");
    assert_eq!(default_build_profile_path(home, Tool::Gcc), "/h/profiles/build/gcc/default.toml");
}

#[test]
fn release_keys_have_names_urls_and_overrides() {
    assert_eq!(source_release_key_name(Tool::Llvm), "release-keys.asc");
    assert_eq!(source_release_key_name(Tool::Gcc), "gnu-keyring.gpg");
    assert_eq!(source_release_key_env(Tool::Llvm), "CVM_LLVM_RELEASE_KEYS_URL");
    assert_eq!(source_release_key_env(Tool::Gcc), "CVM_GCC_RELEASE_KEYS_URL");
    assert_eq!(source_release_key_url(Tool::Llvm, None), "https://releases.llvm.org/release-keys.asc");
    assert_eq!(source_release_key_url(Tool::Gcc, None), "https://ftp.gnu.org/gnu/gnu-keyring.gpg");
    assert_eq!(source_release_key_url(Tool::Gcc, Some("file:///k.gpg".to_string())), "file:///k.gpg");
}

#[test]
fn archive_names_are_the_last_url_segment() {
    assert_eq!(
        source_archive_name("https://ftp.gnu.org/gnu/gcc/gcc-15.1.0/gcc-15.1.0.tar.xz"),
        Ok("gcc-15.1.0.tar.xz".to_string())
    );
    assert_eq!(source_archive_name("file:///tmp/a.tar.xz"), Ok("a.tar.xz".to_string()));
    assert_eq!(source_archive_name("file://a.tar.xz"), Ok("a.tar.xz".to_string()));
    assert_eq!(source_archive_name("plain"), Ok("plain".to_string()));
    assert_eq!(
        source_archive_name("https://x/dir/").unwrap_err(),
        "failed to determine archive name from https://x/dir/"
    );
    assert_eq!(source_archive_name("").unwrap_err(), "failed to determine archive name from ");
}

#[test]
fn shell_escaping_protects_quotes_and_backslashes() {
    assert_eq!(shell_escape_path("/a b/c"), "/a b/c");
    assert_eq!(shell_escape_path("/a\"b\\c"), "/a\\\"b\\\\c");
    assert_eq!(shell_escape_path(""), "");
}

#[test]
fn env_script_escapes_the_bin_directory() {
    let script = env_script(Tool::Gcc, "/o\"dd");
    assert!(script.starts_with(&strip_toolchain_paths_script(Some(Tool::Gcc))));
    assert!(script.ends_with("export PATH=\"/o\\\"dd/bin:$PATH\"\n"));
}

#[test]
fn strip_scripts_name_the_families_they_clear() {
    let llvm = strip_toolchain_paths_script(Some(Tool::Llvm));
    assert!(llvm.contains("      \"${CVM_HOME:-$HOME/.cvm}\"/toolchains/llvm/*/bin) ;;\n"));
    let all = strip_toolchain_paths_script(None);
    assert!(all.contains("\"${CVM_HOME:-$HOME/.cvm}\"/toolchains/*/*/bin) ;;"));
    assert!(all.starts_with("_cvm_strip_toolchain_paths() {\n"));
    assert!(all.ends_with("}\n_cvm_strip_toolchain_paths\n"));
    assert_eq!(system_env_script(None), all);
    assert_eq!(system_env_script(Some(Tool::Llvm)), llvm);
}

#[test]
fn defaults_script_is_empty_without_defaults() {
    assert_eq!(defaults_env_script(&vec![]), "");
    let script = defaults_env_script(&vec!["/h/toolchains/llvm/21.1.8/bin".to_string(), "/h/toolchains/gcc/15.1.0/bin".to_string()]);
    let expected = format!(
        "{}unset CC CXX LD LLVM HOSTCC HOSTCXX\nexport PATH=\"/h/toolchains/llvm/21.1.8/bin:$PATH\"\nexport PATH=\"/h/toolchains/gcc/15.1.0/bin:$PATH\"\n",
        strip_toolchain_paths_script(None)
    );
    assert_eq!(script, expected);
    assert!(script.contains("toolchains/llvm/21.1.8/bin"));
    assert!(script.contains("toolchains/gcc/15.1.0/bin"));
    assert_eq!(script.matches("unset CC CXX LD LLVM HOSTCC HOSTCXX").count(), 1);
}

#[test]
fn completions_offer_every_command() {
    let bash = bash_completion_script();
    assert!(bash.starts_with("# cvm bash completion"));
    assert!(bash.contains("install cache profile ls-remote ls list use alias current env which uninstall deactivate upgrade init version help"));
    assert!(bash.contains("complete -F _cvm_complete cvm"));
    let zsh = zsh_completion_script();
    assert!(zsh.starts_with("#compdef cvm"));
    assert!(zsh.contains("install cache profile ls-remote ls list use alias current env which uninstall deactivate upgrade init version help"));
}

#[test]
fn platform_names_and_assets() {
    assert_eq!(binary_platform_name("linux", "x86_64"), Ok("x86_64-unknown-linux-musl".to_string()));
    assert_eq!(binary_platform_name("macos", "aarch64"), Ok("aarch64-apple-darwin".to_string()));
    assert_eq!(binary_platform_name("windows", "x86_64").unwrap_err(), "unsupported OS: windows");
    assert_eq!(binary_platform_name("linux", "riscv64").unwrap_err(), "unsupported arch: riscv64");
    assert_eq!(binary_asset_name("x86_64-unknown-linux-musl"), "cvm-x86_64-unknown-linux-musl.tar.gz");
    assert_eq!(
        compatibility_note(Tool::Llvm, Ok("x86_64-unknown-linux-musl".to_string())),
        "x86_64-unknown-linux-musl; source builds support LLVM >= 9.0.1 and Debian/Ubuntu apt dependency bootstrap"
    );
    assert_eq!(
        compatibility_note(Tool::Gcc, Err("unsupported OS: windows".to_string())),
        "unsupported (unsupported OS: windows); source builds use GNU GCC releases and Debian/Ubuntu apt dependency bootstrap"
    );
    assert_eq!(which_binary_names(Tool::Gcc), vec!["gcc", "g++", "gcov"]);
    assert_eq!(
        which_binary_names(Tool::Llvm),
        vec!["clang", "clang++", "ld.lld", "llvm-ar", "llvm-nm", "llvm-objcopy"]
    );
}

#[test]
fn fetch_errors_quote_at_most_240_characters_of_the_body() {
    assert_eq!(fetch_status_message("u", 404, "  \n"), "failed to fetch u: status code 404");
    assert_eq!(fetch_status_message("u", 500, " oops \n"), "failed to fetch u: status code 500; oops");
    let long = "é".repeat(300);
    let message = fetch_status_message("u", 503, &long);
    assert_eq!(message, format!("failed to fetch u: status code 503; {}", "é".repeat(240)));
}

#[test]
fn download_names_for_local_urls_signatures_and_partial_files() {
    assert_eq!(file_url_path("file:///tmp/a.tar.xz"), Some("/tmp/a.tar.xz".to_string()));
    assert_eq!(file_url_path("file://"), Some(String::new()));
    assert_eq!(file_url_path("https://x/a.tar.xz"), None);
    assert_eq!(file_url_path("file:/x"), None);
    assert_eq!(signature_of("gcc-15.1.0.tar.xz"), "gcc-15.1.0.tar.xz.sig");
    assert_eq!(
        signature_of("https://ftp.gnu.org/gnu/gcc/gcc-15.1.0/gcc-15.1.0.tar.xz"),
        "https://ftp.gnu.org/gnu/gcc/gcc-15.1.0/gcc-15.1.0.tar.xz.sig"
    );
    assert_eq!(partial_download_name("a.tar.xz"), ".a.tar.xz.part");
}

#[test]
fn use_selects_the_family_compilers_after_clearing_cvm_variables() {
    let gcc = use_script(Tool::Gcc, "/h/toolchains/gcc/15.1.0");
    assert_eq!(
        gcc,
        format!(
            "{}unset CC CXX LD LLVM HOSTCC HOSTCXX\nexport CC=\"gcc\"\nexport CXX=\"g++\"\n",
            env_script(Tool::Gcc, "/h/toolchains/gcc/15.1.0")
        )
    );
    assert!(gcc.contains("export CC=\"gcc\""));
    let llvm = use_script(Tool::Llvm, "/h/toolchains/llvm/21.1.8");
    assert!(llvm.starts_with(&env_script(Tool::Llvm, "/h/toolchains/llvm/21.1.8")));
    assert!(llvm.ends_with("unset CC CXX LD LLVM HOSTCC HOSTCXX\nexport CC=\"clang\"\nexport CXX=\"clang++\"\n"));
}

#[test]
fn backend_scripts_are_named_per_family() {
    assert_eq!(build_script_name(Tool::Llvm), "build_llvm-project.sh");
    assert_eq!(build_script_name(Tool::Gcc), "build_gcc.sh");
}
