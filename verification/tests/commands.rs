use cvm::cli::{
    active_build_profile, dry_run_lines, template_write_check, update_available, ensure_installed, filter_releases_by_prefix, install_command_args,
    parse_cache_prune_args, parse_command, parse_install_options, parse_profile_template_args,
    parse_upgrade_args, parse_use_system_args, should_alias_default_after_install, upgrade_installer_url,
    upgrade_tag, CachePruneArgs, CliCommand, ProfileTemplateArgs, UpgradeArgs,
};
use cvm::version::VersionPrefix;
use cvm::{RemoteVersion, Tool, Version};

fn v(text: &str) -> Version {
    Version::parse(text).unwrap()
}

fn args(words: &[&str]) -> Vec<String> {
    words.iter().map(|w| w.to_string()).collect()
}

#[test]
fn command_words_and_aliases() {
    assert_eq!(parse_command("-h"), Ok(CliCommand::Help));
    assert_eq!(parse_command("--help"), Ok(CliCommand::Help));
    assert_eq!(parse_command("-V"), Ok(CliCommand::PrintVersion));
    assert_eq!(parse_command("version"), Ok(CliCommand::Version));
    assert_eq!(parse_command("ls"), Ok(CliCommand::List));
    assert_eq!(parse_command("list"), Ok(CliCommand::List));
    assert_eq!(parse_command("ls-remote"), Ok(CliCommand::LsRemote));
    assert_eq!(parse_command("completion"), Ok(CliCommand::Completion));
    assert_eq!(parse_command("bogus").unwrap_err(), "unknown command: bogus");
}

#[test]
fn install_options_are_read_in_order() {
    let o = parse_install_options(Tool::Llvm, &args(&["-j8", "--dry-run", "--targets", "X86;ARM"])).unwrap();
    assert_eq!(o.jobs.as_deref(), Some("8"));
    assert_eq!(o.targets.as_deref(), Some("X86;ARM"));
    assert!(o.dry_run);
    assert!(!o.force_configure);
    let o = parse_install_options(Tool::Gcc, &args(&["--jobs", "4", "-j2", "--prefix", "/opt/gcc", "--force-configure"])).unwrap();
    assert_eq!(o.jobs.as_deref(), Some("2"));
    assert_eq!(o.prefix.as_deref(), Some("/opt/gcc"));
    assert!(o.force_configure);
    let o = parse_install_options(Tool::Gcc, &args(&["--profile", "p.toml"])).unwrap();
    assert_eq!(o.profile.as_deref(), Some("p.toml"));
    let o = parse_install_options(Tool::Gcc, &args(&[])).unwrap();
    assert!(o.jobs.is_none() && o.targets.is_none() && o.profile.is_none() && o.prefix.is_none());
}

#[test]
fn install_option_errors() {
    let err = |tool, words: &[&str]| parse_install_options(tool, &args(words)).err().unwrap();
    assert_eq!(err(Tool::Llvm, &["--source"]), "source builds are the default; remove --source");
    assert_eq!(
        err(Tool::Llvm, &["--", "-DFOO=1"]),
        "cvm no longer accepts passthrough arguments after --; use cvm install options directly"
    );
    assert_eq!(err(Tool::Llvm, &["-j"]), "missing jobs value");
    assert_eq!(err(Tool::Llvm, &["--targets"]), "missing targets value");
    assert_eq!(err(Tool::Gcc, &["--targets"]), "missing targets value");
    assert_eq!(err(Tool::Gcc, &["--targets", "X86"]), "--targets is only supported for llvm installs");
    assert_eq!(err(Tool::Llvm, &["--profile"]), "missing profile path");
    assert_eq!(err(Tool::Llvm, &["--prefix"]), "missing prefix value");
    assert_eq!(err(Tool::Llvm, &["--bogus"]), "unknown install option: --bogus");
    assert_eq!(
        err(Tool::Llvm, &["--profile", "p.toml", "--targets", "X86"]),
        "--profile cannot be combined with --targets"
    );
}

#[test]
fn targets_are_refused_beside_any_active_profile() {
    let with_targets = parse_install_options(Tool::Llvm, &args(&["--targets", "X86"])).unwrap();
    assert_eq!(
        active_build_profile(&with_targets, "/h/default.toml".to_string(), true).unwrap_err(),
        "--targets cannot be combined with an active build profile"
    );
    assert_eq!(active_build_profile(&with_targets, "/h/default.toml".to_string(), false), Ok(None));
    let plain = parse_install_options(Tool::Llvm, &args(&[])).unwrap();
    assert_eq!(
        active_build_profile(&plain, "/h/default.toml".to_string(), true),
        Ok(Some("/h/default.toml".to_string()))
    );
    let explicit = parse_install_options(Tool::Llvm, &args(&["--profile", "mine.toml"])).unwrap();
    assert_eq!(
        active_build_profile(&explicit, "/h/default.toml".to_string(), true),
        Ok(Some("mine.toml".to_string()))
    );
}

#[test]
fn backend_command_lists_script_version_prefix_and_options() {
    let o = parse_install_options(Tool::Llvm, &args(&["-j8", "--targets", "X86", "--force-configure"])).unwrap();
    assert_eq!(
        install_command_args("/h/scripts/build_llvm-project.sh", &v("21.1.8"), "/h/toolchains/llvm/21.1.8", &o),
        args(&[
            "/h/scripts/build_llvm-project.sh",
            "21.1.8",
            "--prefix",
            "/h/toolchains/llvm/21.1.8",
            "-j8",
            "--targets",
            "X86",
            "--force-configure",
        ])
    );
    let plain = parse_install_options(Tool::Gcc, &args(&["--dry-run"])).unwrap();
    assert_eq!(
        install_command_args("s.sh", &v("15.1.0"), "/p", &plain),
        args(&["s.sh", "15.1.0", "--prefix", "/p"])
    );
}

#[test]
fn first_installed_version_becomes_the_default() {
    let one = vec![v("15.1.0")];
    assert!(should_alias_default_after_install(false, false, &one, &v("15.1.0")));
    assert!(!should_alias_default_after_install(true, false, &one, &v("15.1.0")));
    assert!(!should_alias_default_after_install(false, true, &one, &v("15.1.0")));
    assert!(!should_alias_default_after_install(false, false, &vec![v("14.2.0"), v("15.1.0")], &v("15.1.0")));
    assert!(!should_alias_default_after_install(false, false, &vec![v("14.2.0")], &v("15.1.0")));
}

#[test]
fn cache_prune_arguments() {
    assert!(matches!(parse_cache_prune_args(&args(&[])), Ok(CachePruneArgs::Prune { older_than: 1_209_600 })));
    assert!(matches!(
        parse_cache_prune_args(&args(&["--older-than", "1h", "--older-than", "2m"])),
        Ok(CachePruneArgs::Prune { older_than: 120 })
    ));
    assert!(matches!(parse_cache_prune_args(&args(&["--help", "--bogus"])), Ok(CachePruneArgs::Help)));
    assert!(matches!(parse_cache_prune_args(&args(&["--older-than"])), Err(e) if e == "missing duration value"));
    assert!(matches!(parse_cache_prune_args(&args(&["--older-than", "1w"])), Err(e) if e == "unsupported duration unit: 1w"));
    assert!(matches!(parse_cache_prune_args(&args(&["x"])), Err(e) if e == "unknown cache prune option: x"));
}

#[test]
fn upgrade_arguments_and_tags() {
    assert!(matches!(
        parse_upgrade_args(&args(&["--dry-run"])),
        Ok(UpgradeArgs::Upgrade { dry_run: true, requested: None })
    ));
    assert!(matches!(
        parse_upgrade_args(&args(&["v0.0.2", "--dry-run"])),
        Ok(UpgradeArgs::Upgrade { dry_run: true, requested: Some(r) }) if r == "v0.0.2"
    ));
    assert!(matches!(parse_upgrade_args(&args(&["-h"])), Ok(UpgradeArgs::Help)));
    assert!(matches!(parse_upgrade_args(&args(&["--now"])), Err(e) if e == "unknown upgrade option: --now"));
    assert!(matches!(
        parse_upgrade_args(&args(&["1.0.0", "2.0.0"])),
        Err(e) if e == "usage: cvm upgrade [version] [--dry-run]"
    ));
    assert_eq!(upgrade_tag(Some("0.0.2"), &v("0.0.3")), Ok("v0.0.2".to_string()));
    assert_eq!(upgrade_tag(None, &v("0.0.3")), Ok("v0.0.3".to_string()));
    assert_eq!(
        upgrade_tag(Some("latest"), &v("0.0.3")).unwrap_err(),
        "version must be X.Y.Z or X.Y.Z-rcN: latest"
    );
    assert_eq!(
        upgrade_installer_url("v0.0.3"),
        "https://raw.githubusercontent.com/QGrain/cvm/v0.0.3/install.sh"
    );
}

#[test]
fn profile_template_arguments() {
    assert!(matches!(
        parse_profile_template_args(&args(&["template", "llvm"])),
        Ok(ProfileTemplateArgs::Write { tool: Tool::Llvm, output: None, force: false })
    ));
    assert!(matches!(
        parse_profile_template_args(&args(&["template", "gcc", "out.toml", "--force"])),
        Ok(ProfileTemplateArgs::Write { tool: Tool::Gcc, output: Some(o), force: true }) if o == "out.toml"
    ));
    assert!(matches!(parse_profile_template_args(&args(&["template", "--help"])), Ok(ProfileTemplateArgs::Help)));
    assert!(matches!(parse_profile_template_args(&args(&["template", "gcc", "-h"])), Ok(ProfileTemplateArgs::Help)));
    assert!(matches!(
        parse_profile_template_args(&args(&["template"])),
        Err(e) if e == "usage: cvm profile template <llvm|gcc> [PATH] [--force]"
    ));
    assert!(matches!(
        parse_profile_template_args(&args(&["template", "clang"])),
        Err(e) if e == "unsupported compiler family: clang"
    ));
    assert!(matches!(
        parse_profile_template_args(&args(&["template", "llvm", "--quiet"])),
        Err(e) if e == "unknown profile template option: --quiet"
    ));
    assert!(matches!(
        parse_profile_template_args(&args(&["template", "llvm", "a", "b"])),
        Err(e) if e == "usage: cvm profile template <llvm|gcc> [PATH] [--force]"
    ));
}

#[test]
fn use_system_arguments() {
    assert_eq!(parse_use_system_args(&args(&["system"])), Ok(None));
    assert_eq!(parse_use_system_args(&args(&["system", "gcc"])), Ok(Some(Tool::Gcc)));
    assert_eq!(parse_use_system_args(&args(&["system", "llvm"])), Ok(Some(Tool::Llvm)));
    assert_eq!(
        parse_use_system_args(&args(&["system", "clang"])).unwrap_err(),
        "usage: cvm use system [llvm|gcc]"
    );
    assert_eq!(
        parse_use_system_args(&args(&["system", "gcc", "llvm"])).unwrap_err(),
        "usage: cvm use system [llvm|gcc]"
    );
}

#[test]
fn remote_listing_keeps_releases_under_the_prefix_in_order() {
    let release = |text: &str| RemoteVersion { version: v(text), date: Some(format!("d{text}")), url: format!("u{text}") };
    let all = vec![release("21.1.8"), release("21.1.0"), release("20.1.8"), release("21.0.0")];
    let under = filter_releases_by_prefix(all.clone(), Some(VersionPrefix::parse("21.1").unwrap()));
    assert_eq!(under, vec![release("21.1.8"), release("21.1.0")]);
    assert_eq!(filter_releases_by_prefix(all.clone(), None), all);
    assert!(filter_releases_by_prefix(all, Some(VersionPrefix::parse("1").unwrap())).is_empty());
}

#[test]
fn missing_bin_directory_means_not_installed() {
    assert_eq!(ensure_installed(Tool::Llvm, &v("21.1.8"), "/h/toolchains/llvm/21.1.8", true), Ok(()));
    assert_eq!(
        ensure_installed(Tool::Llvm, &v("21.1.8"), "/h/toolchains/llvm/21.1.8", false).unwrap_err(),
        "llvm 21.1.8 is not installed at /h/toolchains/llvm/21.1.8"
    );
}

#[test]
fn dry_run_prints_profile_variables_and_command() {
    let envs = vec![
        ("CVM_LLVM_TARGETS".to_string(), "X86".to_string()),
        ("CVM_LLVM_CMAKE_DEFINES".to_string(), "A=ON\nB=OFF".to_string()),
    ];
    let command = args(&["/h/scripts/build_llvm-project.sh", "21.1.8", "--prefix", "/p", "-j8"]);
    assert_eq!(
        dry_run_lines(Some("/h/profiles/build/llvm/default.toml"), &envs, &command),
        args(&[
            "profile: /h/profiles/build/llvm/default.toml",
            "env CVM_LLVM_TARGETS=X86",
            "env CVM_LLVM_CMAKE_DEFINES=A=ON\\nB=OFF",
            "bash /h/scripts/build_llvm-project.sh 21.1.8 --prefix /p -j8",
        ])
    );
    assert_eq!(dry_run_lines(None, &vec![], &args(&["s.sh", "15.1.0"])), args(&["bash s.sh 15.1.0"]));
}

#[test]
fn templates_are_not_overwritten_without_force() {
    assert_eq!(
        template_write_check("/h/default.toml", true, false).unwrap_err(),
        "/h/default.toml already exists; use --force to overwrite"
    );
    assert_eq!(template_write_check("/h/default.toml", true, true), Ok(()));
    assert_eq!(template_write_check("/h/default.toml", false, false), Ok(()));
}

#[test]
fn a_newer_release_is_an_update() {
    assert!(update_available(&v("0.0.3"), &v("0.0.2")));
    assert!(!update_available(&v("0.0.2"), &v("0.0.2")));
    assert!(!update_available(&v("0.0.2"), &v("0.0.3")));
    assert!(update_available(&v("0.1.0"), &v("0.1.0-rc1")));
}
