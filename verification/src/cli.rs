//! The decisions behind cvm's commands: which command was asked for, and how
//! each command's options read.
use vstd::prelude::*;

use crate::cache::{duration_seconds, parse_duration_arg, DEFAULT_CACHE_TTL_SECS};
use crate::remote::{parse_cvm_tag, remote_version_view, strip_tag_prefix, RemoteVersion, RemoteVersionView};
use crate::text::{join2, join_pieces, same_text, text_result};
use crate::tool::{parse_tool, parse_tool_text, tool_name, Tool};
use crate::version::{
    parse_version, prefix_matches, version_less, version_text, Version, VersionPrefix, VersionView,
};

verus! {

/// The commands of the cvm command line.
#[derive(Debug, Clone, Copy, PartialEq, Eq, Structural)]
pub enum CliCommand {
    Help,
    PrintVersion,
    Version,
    Install,
    Cache,
    Profile,
    LsRemote,
    List,
    Use,
    Env,
    Alias,
    Current,
    Which,
    Uninstall,
    Deactivate,
    Upgrade,
    Init,
    Completion,
}

/// The command a command-line word names.
pub open spec fn command_of(name: Seq<char>) -> Result<CliCommand, Seq<char>> {
    if name == "help"@ || name == "--help"@ || name == "-h"@ {
        Ok(CliCommand::Help)
    } else if name == "--version"@ || name == "-V"@ {
        Ok(CliCommand::PrintVersion)
    } else if name == "version"@ {
        Ok(CliCommand::Version)
    } else if name == "install"@ {
        Ok(CliCommand::Install)
    } else if name == "cache"@ {
        Ok(CliCommand::Cache)
    } else if name == "profile"@ {
        Ok(CliCommand::Profile)
    } else if name == "ls-remote"@ {
        Ok(CliCommand::LsRemote)
    } else if name == "ls"@ || name == "list"@ {
        Ok(CliCommand::List)
    } else if name == "use"@ {
        Ok(CliCommand::Use)
    } else if name == "env"@ {
        Ok(CliCommand::Env)
    } else if name == "alias"@ {
        Ok(CliCommand::Alias)
    } else if name == "current"@ {
        Ok(CliCommand::Current)
    } else if name == "which"@ {
        Ok(CliCommand::Which)
    } else if name == "uninstall"@ {
        Ok(CliCommand::Uninstall)
    } else if name == "deactivate"@ {
        Ok(CliCommand::Deactivate)
    } else if name == "upgrade"@ {
        Ok(CliCommand::Upgrade)
    } else if name == "init"@ {
        Ok(CliCommand::Init)
    } else if name == "completion"@ {
        Ok(CliCommand::Completion)
    } else {
        Err("unknown command: "@ + name)
    }
}

/// Reads the command word of a cvm command line.
pub fn parse_command(name: &str) -> (r: Result<CliCommand, String>)
    ensures
        text_result(r) == command_of(name@),
{
    if same_text(name, "help") || same_text(name, "--help") || same_text(name, "-h") {
        Ok(CliCommand::Help)
    } else if same_text(name, "--version") || same_text(name, "-V") {
        Ok(CliCommand::PrintVersion)
    } else if same_text(name, "version") {
        Ok(CliCommand::Version)
    } else if same_text(name, "install") {
        Ok(CliCommand::Install)
    } else if same_text(name, "cache") {
        Ok(CliCommand::Cache)
    } else if same_text(name, "profile") {
        Ok(CliCommand::Profile)
    } else if same_text(name, "ls-remote") {
        Ok(CliCommand::LsRemote)
    } else if same_text(name, "ls") || same_text(name, "list") {
        Ok(CliCommand::List)
    } else if same_text(name, "use") {
        Ok(CliCommand::Use)
    } else if same_text(name, "env") {
        Ok(CliCommand::Env)
    } else if same_text(name, "alias") {
        Ok(CliCommand::Alias)
    } else if same_text(name, "current") {
        Ok(CliCommand::Current)
    } else if same_text(name, "which") {
        Ok(CliCommand::Which)
    } else if same_text(name, "uninstall") {
        Ok(CliCommand::Uninstall)
    } else if same_text(name, "deactivate") {
        Ok(CliCommand::Deactivate)
    } else if same_text(name, "upgrade") {
        Ok(CliCommand::Upgrade)
    } else if same_text(name, "init") {
        Ok(CliCommand::Init)
    } else if same_text(name, "completion") {
        Ok(CliCommand::Completion)
    } else {
        Err(join2("unknown command: ", name))
    }
}

/// The options of `cvm install` after the family and the version.
pub struct InstallOptions {
    pub jobs: Option<String>,
    pub targets: Option<String>,
    pub profile: Option<String>,
    pub prefix: Option<String>,
    pub force_configure: bool,
    pub dry_run: bool,
}

/// What `InstallOptions` holds.
pub struct InstallOptionsView {
    pub jobs: Option<Seq<char>>,
    pub targets: Option<Seq<char>>,
    pub profile: Option<Seq<char>>,
    pub prefix: Option<Seq<char>>,
    pub force_configure: bool,
    pub dry_run: bool,
}

pub open spec fn opt_view(s: Option<String>) -> Option<Seq<char>> {
    match s {
        Some(x) => Some(x@),
        None => None,
    }
}

pub open spec fn install_options_view(o: InstallOptions) -> InstallOptionsView {
    InstallOptionsView {
        jobs: opt_view(o.jobs),
        targets: opt_view(o.targets),
        profile: opt_view(o.profile),
        prefix: opt_view(o.prefix),
        force_configure: o.force_configure,
        dry_run: o.dry_run,
    }
}

/// Reads the install options from `args[idx]` on, starting from `o`.
pub open spec fn install_options_from(tool: Tool, args: Seq<Seq<char>>, idx: int, o: InstallOptionsView) -> Result<InstallOptionsView, Seq<char>>
    decreases args.len() - idx,
{
    if idx < 0 || idx >= args.len() {
        Ok(o)
    } else {
        let a = args[idx];
        if a == "--source"@ {
            Err("source builds are the default; remove --source"@)
        } else if a == "--"@ {
            Err("cvm no longer accepts passthrough arguments after --; use cvm install options directly"@)
        } else if a == "-j"@ || a == "--jobs"@ {
            if idx + 1 < args.len() {
                install_options_from(tool, args, idx + 2, InstallOptionsView { jobs: Some(args[idx + 1]), ..o })
            } else {
                Err("missing jobs value"@)
            }
        } else if a.len() > 2 && a[0] == '-' && a[1] == 'j' {
            install_options_from(tool, args, idx + 1, InstallOptionsView { jobs: Some(a.skip(2)), ..o })
        } else if a == "--targets"@ {
            if idx + 1 >= args.len() {
                Err("missing targets value"@)
            } else if tool != Tool::Llvm {
                Err("--targets is only supported for llvm installs"@)
            } else {
                install_options_from(tool, args, idx + 2, InstallOptionsView { targets: Some(args[idx + 1]), ..o })
            }
        } else if a == "--profile"@ {
            if idx + 1 < args.len() {
                install_options_from(tool, args, idx + 2, InstallOptionsView { profile: Some(args[idx + 1]), ..o })
            } else {
                Err("missing profile path"@)
            }
        } else if a == "--prefix"@ {
            if idx + 1 < args.len() {
                install_options_from(tool, args, idx + 2, InstallOptionsView { prefix: Some(args[idx + 1]), ..o })
            } else {
                Err("missing prefix value"@)
            }
        } else if a == "--force-configure"@ {
            install_options_from(tool, args, idx + 1, InstallOptionsView { force_configure: true, ..o })
        } else if a == "--dry-run"@ {
            install_options_from(tool, args, idx + 1, InstallOptionsView { dry_run: true, ..o })
        } else {
            Err("unknown install option: "@ + a)
        }
    }
}

/// No option given.
pub open spec fn no_install_options() -> InstallOptionsView {
    InstallOptionsView {
        jobs: None,
        targets: None,
        profile: None,
        prefix: None,
        force_configure: false,
        dry_run: false,
    }
}

/// What `parse_install_options` gives for the words after `cvm install <tool> <version>`:
/// the options as read, where `--targets` and `--profile` are not both given.
pub open spec fn install_options(tool: Tool, args: Seq<Seq<char>>) -> Result<InstallOptionsView, Seq<char>> {
    match install_options_from(tool, args, 0, no_install_options()) {
        Err(e) => Err(e),
        Ok(o) => if o.targets is Some && o.profile is Some {
            Err("--profile cannot be combined with --targets"@)
        } else {
            Ok(o)
        },
    }
}

pub open spec fn args_view(args: Seq<String>) -> Seq<Seq<char>> {
    args.map_values(|s: String| s@)
}

/// Reading the options of a longer list goes through the options of a list
/// that reads on its own exactly as it does alone, then reads what follows.
proof fn lemma_install_options_extend(
    tool: Tool,
    args: Seq<Seq<char>>,
    tail: Seq<Seq<char>>,
    idx: int,
    o: InstallOptionsView,
)
    requires
        0 <= idx <= args.len(),
        install_options_from(tool, args, idx, o) is Ok,
    ensures
        install_options_from(tool, args + tail, idx, o) == install_options_from(
            tool,
            args + tail,
            args.len() as int,
            install_options_from(tool, args, idx, o)->Ok_0,
        ),
    decreases args.len() - idx,
{
    let all = args + tail;
    if idx < args.len() {
        assert(all[idx] == args[idx]);
        if idx + 1 < args.len() {
            assert(all[idx + 1] == args[idx + 1]);
        }
        let a = args[idx];
        if a == "--source"@ || a == "--"@ {
        } else if a == "-j"@ || a == "--jobs"@ {
            lemma_install_options_extend(tool, args, tail, idx + 2, InstallOptionsView { jobs: Some(args[idx + 1]), ..o });
        } else if a.len() > 2 && a[0] == '-' && a[1] == 'j' {
            lemma_install_options_extend(tool, args, tail, idx + 1, InstallOptionsView { jobs: Some(a.skip(2)), ..o });
        } else if a == "--targets"@ {
            if idx + 1 < args.len() && tool == Tool::Llvm {
                lemma_install_options_extend(tool, args, tail, idx + 2, InstallOptionsView { targets: Some(args[idx + 1]), ..o });
            }
        } else if a == "--profile"@ {
            lemma_install_options_extend(tool, args, tail, idx + 2, InstallOptionsView { profile: Some(args[idx + 1]), ..o });
        } else if a == "--prefix"@ {
            lemma_install_options_extend(tool, args, tail, idx + 2, InstallOptionsView { prefix: Some(args[idx + 1]), ..o });
        } else if a == "--force-configure"@ {
            lemma_install_options_extend(tool, args, tail, idx + 1, InstallOptionsView { force_configure: true, ..o });
        } else if a == "--dry-run"@ {
            lemma_install_options_extend(tool, args, tail, idx + 1, InstallOptionsView { dry_run: true, ..o });
        }
    }
}

/// Each option of `cvm install`, given after options that read, records its
/// value and leaves the others as they were: `--jobs N` and `-j N` and `-jN`
/// set the jobs to `N`, `--prefix DIR` the prefix, `--profile PATH` the
/// profile (unless targets were given), `--targets LIST` the targets (for
/// LLVM, unless a profile was given), and the two flags set themselves.
pub proof fn law_install_option_values(tool: Tool, args: Seq<Seq<char>>, n: Seq<char>)
    requires
        install_options(tool, args) is Ok,
    ensures
        ({
            let o = install_options(tool, args)->Ok_0;
            &&& install_options(tool, args + seq!["--jobs"@, n]) == Ok::<InstallOptionsView, Seq<char>>(
                InstallOptionsView { jobs: Some(n), ..o },
            )
            &&& install_options(tool, args + seq!["-j"@, n]) == Ok::<InstallOptionsView, Seq<char>>(
                InstallOptionsView { jobs: Some(n), ..o },
            )
            &&& n.len() > 0 ==> install_options(tool, args + seq!["-j"@ + n]) == Ok::<
                InstallOptionsView,
                Seq<char>,
            >(InstallOptionsView { jobs: Some(n), ..o })
            &&& install_options(tool, args + seq!["--prefix"@, n]) == Ok::<InstallOptionsView, Seq<char>>(
                InstallOptionsView { prefix: Some(n), ..o },
            )
            &&& o.targets is None ==> install_options(tool, args + seq!["--profile"@, n]) == Ok::<
                InstallOptionsView,
                Seq<char>,
            >(InstallOptionsView { profile: Some(n), ..o })
            &&& tool == Tool::Llvm && o.profile is None ==> install_options(
                tool,
                args + seq!["--targets"@, n],
            ) == Ok::<InstallOptionsView, Seq<char>>(InstallOptionsView { targets: Some(n), ..o })
            &&& install_options(tool, args + seq!["--force-configure"@]) == Ok::<
                InstallOptionsView,
                Seq<char>,
            >(InstallOptionsView { force_configure: true, ..o })
            &&& install_options(tool, args + seq!["--dry-run"@]) == Ok::<InstallOptionsView, Seq<char>>(
                InstallOptionsView { dry_run: true, ..o },
            )
        }),
{
    reveal_strlit("--jobs");
    reveal_strlit("-j");
    reveal_strlit("--prefix");
    reveal_strlit("--profile");
    reveal_strlit("--targets");
    reveal_strlit("--force-configure");
    reveal_strlit("--dry-run");
    reveal_strlit("--source");
    reveal_strlit("--");
    let o0 = no_install_options();
    let o = install_options_from(tool, args, 0, o0)->Ok_0;
    let len = args.len() as int;
    let tails = seq![
        seq!["--jobs"@, n],
        seq!["-j"@, n],
        seq!["-j"@ + n],
        seq!["--prefix"@, n],
        seq!["--profile"@, n],
        seq!["--targets"@, n],
        seq!["--force-configure"@],
        seq!["--dry-run"@],
    ];
    assert forall|k: int| 0 <= k < tails.len() implies install_options_from(tool, args + #[trigger] tails[k], 0, o0)
        == install_options_from(tool, args + tails[k], len, o) by {
        lemma_install_options_extend(tool, args, tails[k], 0, o0);
    }
    assert(tails[0] == seq!["--jobs"@, n]);
    assert(tails[1] == seq!["-j"@, n]);
    assert(tails[2] == seq!["-j"@ + n]);
    assert(tails[3] == seq!["--prefix"@, n]);
    assert(tails[4] == seq!["--profile"@, n]);
    assert(tails[5] == seq!["--targets"@, n]);
    assert(tails[6] == seq!["--force-configure"@]);
    assert(tails[7] == seq!["--dry-run"@]);
    assert("--jobs"@.len() == 6 && "-j"@.len() == 2 && "--prefix"@.len() == 8 && "--profile"@.len() == 9);
    assert("--targets"@.len() == 9 && "--force-configure"@.len() == 17 && "--dry-run"@.len() == 9);
    assert("--source"@.len() == 8 && "--"@.len() == 2);
    assert("--profile"@ != "--targets"@) by {
        assert("--profile"@[3] != "--targets"@[3]);
    }
    assert("--prefix"@ != "--source"@) by {
        assert("--prefix"@[2] != "--source"@[2]);
    }
    assert("--dry-run"@ != "--profile"@ && "--dry-run"@ != "--targets"@) by {
        assert("--dry-run"@[2] != "--profile"@[2]);
        assert("--dry-run"@[2] != "--targets"@[2]);
    }
    let j2 = "-j"@ + n;
    assert(j2.len() > 2 ==> j2[0] == '-' && j2[1] == 'j' && j2.skip(2) =~= n);
    assert(j2.len() > 2 ==> j2 != "--source"@ && j2 != "--"@ && j2 != "-j"@ && j2 != "--jobs"@) by {
        if j2.len() > 2 {
            assert(j2[1] != "--source"@[1]);
            assert(j2[1] != "--jobs"@[1]);
        }
    }
    {
        let t = args + tails[0];
        assert(t[len] == "--jobs"@ && t.len() == len + 2);
        assert(t[len + 1] == n);
        let oo = InstallOptionsView { jobs: Some(n), ..o };
        assert(install_options_from(tool, t, len + 2, oo) == Ok::<InstallOptionsView, Seq<char>>(oo));
        assert(install_options_from(tool, t, len, o) == install_options_from(tool, t, len + 2, oo));
        assert(install_options(tool, t) == Ok::<InstallOptionsView, Seq<char>>(oo));
    }
    {
        let t = args + tails[1];
        assert(t[len] == "-j"@ && t.len() == len + 2);
        assert(t[len + 1] == n);
        let oo = InstallOptionsView { jobs: Some(n), ..o };
        assert(install_options_from(tool, t, len + 2, oo) == Ok::<InstallOptionsView, Seq<char>>(oo));
        assert(install_options_from(tool, t, len, o) == install_options_from(tool, t, len + 2, oo));
        assert(install_options(tool, t) == Ok::<InstallOptionsView, Seq<char>>(oo));
    }
    if n.len() > 0 {
        let t = args + tails[2];
        assert(t[len] == j2 && t.len() == len + 1);
        let oo = InstallOptionsView { jobs: Some(n), ..o };
        assert(install_options_from(tool, t, len + 1, oo) == Ok::<InstallOptionsView, Seq<char>>(oo));
        assert(install_options_from(tool, t, len, o) == install_options_from(tool, t, len + 1, oo));
        assert(install_options(tool, t) == Ok::<InstallOptionsView, Seq<char>>(oo));
    }
    {
        let t = args + tails[3];
        assert(t[len] == "--prefix"@ && t.len() == len + 2);
        assert(t[len + 1] == n);
        let oo = InstallOptionsView { prefix: Some(n), ..o };
        assert(install_options_from(tool, t, len + 2, oo) == Ok::<InstallOptionsView, Seq<char>>(oo));
        assert(install_options_from(tool, t, len, o) == install_options_from(tool, t, len + 2, oo));
        assert(install_options(tool, t) == Ok::<InstallOptionsView, Seq<char>>(oo));
    }
    if o.targets is None {
        let t = args + tails[4];
        assert(t[len] == "--profile"@ && t.len() == len + 2);
        assert(t[len + 1] == n);
        let oo = InstallOptionsView { profile: Some(n), ..o };
        assert(install_options_from(tool, t, len + 2, oo) == Ok::<InstallOptionsView, Seq<char>>(oo));
        assert(install_options_from(tool, t, len, o) == install_options_from(tool, t, len + 2, oo));
        assert(install_options(tool, t) == Ok::<InstallOptionsView, Seq<char>>(oo));
    }
    if tool == Tool::Llvm && o.profile is None {
        let t = args + tails[5];
        assert(t[len] == "--targets"@ && t.len() == len + 2);
        assert(t[len + 1] == n);
        let oo = InstallOptionsView { targets: Some(n), ..o };
        assert(install_options_from(tool, t, len + 2, oo) == Ok::<InstallOptionsView, Seq<char>>(oo));
        assert(install_options_from(tool, t, len, o) == install_options_from(tool, t, len + 2, oo));
        assert(install_options(tool, t) == Ok::<InstallOptionsView, Seq<char>>(oo));
    }
    {
        let t = args + tails[6];
        assert(t[len] == "--force-configure"@ && t.len() == len + 1);
        let oo = InstallOptionsView { force_configure: true, ..o };
        assert(install_options_from(tool, t, len + 1, oo) == Ok::<InstallOptionsView, Seq<char>>(oo));
        assert(install_options_from(tool, t, len, o) == install_options_from(tool, t, len + 1, oo));
        assert(install_options(tool, t) == Ok::<InstallOptionsView, Seq<char>>(oo));
    }
    {
        let t = args + tails[7];
        assert(t[len] == "--dry-run"@ && t.len() == len + 1);
        let oo = InstallOptionsView { dry_run: true, ..o };
        assert(install_options_from(tool, t, len + 1, oo) == Ok::<InstallOptionsView, Seq<char>>(oo));
        assert(install_options_from(tool, t, len, o) == install_options_from(tool, t, len + 1, oo));
        assert(install_options(tool, t) == Ok::<InstallOptionsView, Seq<char>>(oo));
    }
}

/// Reads the options of `cvm install` that follow the family and the version.
pub fn parse_install_options(tool: Tool, args: &[String]) -> (r: Result<InstallOptions, String>)
    ensures
        match r {
            Ok(o) => install_options(tool, args_view(args@)) == Ok::<InstallOptionsView, Seq<char>>(install_options_view(o)),
            Err(e) => install_options(tool, args_view(args@)) == Err::<InstallOptionsView, Seq<char>>(e@),
        },
{
    let ghost av = args_view(args@);
    let mut options = InstallOptions {
        jobs: None,
        targets: None,
        profile: None,
        prefix: None,
        force_configure: false,
        dry_run: false,
    };
    let mut idx: usize = 0;
    proof {
        reveal_strlit("-j");
    }
    while idx < args.len()
        invariant
            av == args_view(args@),
            idx <= args@.len(),
            install_options_from(tool, av, 0, no_install_options()) == install_options_from(
                tool,
                av,
                idx as int,
                install_options_view(options),
            ),
        decreases args@.len() - idx,
    {
        let a = args[idx].as_str();
        assert(a@ == av[idx as int]);
        let len = a.unicode_len();
        if same_text(a, "--source") {
            return Err(String::from_str("source builds are the default; remove --source"));
        } else if same_text(a, "--") {
            return Err(String::from_str("cvm no longer accepts passthrough arguments after --; use cvm install options directly"));
        } else if same_text(a, "-j") || same_text(a, "--jobs") {
            if idx + 1 < args.len() {
                options.jobs = Some(args[idx + 1].clone());
                idx = idx + 2;
            } else {
                return Err(String::from_str("missing jobs value"));
            }
        } else if len > 2 && a.get_char(0) == '-' && a.get_char(1) == 'j' {
            let rest = a.substring_char(2, len);
            assert(rest@ =~= a@.skip(2));
            options.jobs = Some(String::from_str(rest));
            idx = idx + 1;
        } else if same_text(a, "--targets") {
            if idx + 1 >= args.len() {
                return Err(String::from_str("missing targets value"));
            }
            if tool != Tool::Llvm {
                return Err(String::from_str("--targets is only supported for llvm installs"));
            }
            options.targets = Some(args[idx + 1].clone());
            idx = idx + 2;
        } else if same_text(a, "--profile") {
            if idx + 1 < args.len() {
                options.profile = Some(args[idx + 1].clone());
                idx = idx + 2;
            } else {
                return Err(String::from_str("missing profile path"));
            }
        } else if same_text(a, "--prefix") {
            if idx + 1 < args.len() {
                options.prefix = Some(args[idx + 1].clone());
                idx = idx + 2;
            } else {
                return Err(String::from_str("missing prefix value"));
            }
        } else if same_text(a, "--force-configure") {
            options.force_configure = true;
            idx = idx + 1;
        } else if same_text(a, "--dry-run") {
            options.dry_run = true;
            idx = idx + 1;
        } else {
            return Err(join2("unknown install option: ", a));
        }
    }
    if options.targets.is_some() && options.profile.is_some() {
        return Err(String::from_str("--profile cannot be combined with --targets"));
    }
    Ok(options)
}

/// The build profile in force: the one given with `--profile`, else the
/// family's default profile where that file exists.
pub open spec fn active_profile(o: InstallOptionsView, default_path: Seq<char>, default_exists: bool) -> Option<Seq<char>> {
    match o.profile {
        Some(p) => Some(p),
        None => if default_exists { Some(default_path) } else { None },
    }
}

/// The build profile in force; `--targets` is refused beside any profile.
pub fn active_build_profile(options: &InstallOptions, default_path: String, default_exists: bool) -> (r: Result<Option<String>, String>)
    ensures
        ({
            let a = active_profile(install_options_view(*options), default_path@, default_exists);
            if options.targets is Some && a is Some {
                r matches Err(e) && e@ == "--targets cannot be combined with an active build profile"@
            } else {
                r matches Ok(p) && opt_view(p) == a
            }
        }),
{
    let active = match &options.profile {
        Some(p) => Some(p.clone()),
        None => if default_exists {
            Some(default_path)
        } else {
            None
        },
    };
    if options.targets.is_some() && active.is_some() {
        return Err(String::from_str("--targets cannot be combined with an active build profile"));
    }
    Ok(active)
}

/// The arguments of the backend build script.
pub open spec fn install_command(script: Seq<char>, version: VersionView, prefix: Seq<char>, o: InstallOptionsView) -> Seq<Seq<char>> {
    let base = seq![script, version_text(version), "--prefix"@, prefix];
    let with_jobs = match o.jobs {
        Some(j) => base.push("-j"@ + j),
        None => base,
    };
    let with_targets = match o.targets {
        Some(t) => with_jobs.push("--targets"@).push(t),
        None => with_jobs,
    };
    if o.force_configure {
        with_targets.push("--force-configure"@)
    } else {
        with_targets
    }
}

/// The arguments of the backend build script: the script, the version, the
/// prefix, then the jobs, targets and forced configure as given.
pub fn install_command_args(script: &str, version: &Version, prefix: &str, options: &InstallOptions) -> (r: Vec<String>)
    ensures
        args_view(r@) == install_command(script@, version@, prefix@, install_options_view(*options)),
{
    let mut args: Vec<String> = Vec::new();
    args.push(String::from_str(script));
    args.push(version.to_string());
    args.push(String::from_str("--prefix"));
    args.push(String::from_str(prefix));
    if let Some(jobs) = &options.jobs {
        args.push(join2("-j", jobs.as_str()));
    }
    if let Some(targets) = &options.targets {
        args.push(String::from_str("--targets"));
        args.push(targets.clone());
    }
    if options.force_configure {
        args.push(String::from_str("--force-configure"));
    }
    assert(args_view(args@) =~= install_command(script@, version@, prefix@, install_options_view(*options)));
    args
}

/// Whether the newly installed version becomes the default: only when it was
/// installed to cvm's own prefix, no default is set yet, and it is the only
/// installed version of its family.
pub fn should_alias_default_after_install(
    using_custom_prefix: bool,
    has_default: bool,
    installed: &Vec<Version>,
    version: &Version,
) -> (r: bool)
    ensures
        r == (!using_custom_prefix && !has_default && installed@.len() == 1 && installed@[0] == *version),
{
    if using_custom_prefix || has_default {
        return false;
    }
    installed.len() == 1 && installed[0] == *version
}

/// How `cvm cache prune` was asked to run.
pub enum CachePruneArgs {
    Help,
    Prune { older_than: u64 },
}

/// What the words after `cvm cache prune` ask for, from `args[idx]` on.
pub open spec fn cache_prune_from(args: Seq<Seq<char>>, idx: int, older_than: u64) -> Result<Option<u64>, Seq<char>>
    decreases args.len() - idx,
{
    if idx < 0 || idx >= args.len() {
        Ok(Some(older_than))
    } else {
        let a = args[idx];
        if a == "--older-than"@ {
            if idx + 1 >= args.len() {
                Err("missing duration value"@)
            } else {
                match duration_seconds(args[idx + 1]) {
                    Err(e) => Err(e),
                    Ok(d) => cache_prune_from(args, idx + 2, d),
                }
            }
        } else if a == "-h"@ || a == "--help"@ {
            Ok(None)
        } else {
            Err("unknown cache prune option: "@ + a)
        }
    }
}

/// Reads the words after `cvm cache prune`: `--older-than <duration>` (14 days
/// when absent; the last one given counts), or help.
pub fn parse_cache_prune_args(args: &[String]) -> (r: Result<CachePruneArgs, String>)
    ensures
        match cache_prune_from(args_view(args@), 0, DEFAULT_CACHE_TTL_SECS) {
            Ok(None) => r matches Ok(CachePruneArgs::Help),
            Ok(Some(d)) => r matches Ok(CachePruneArgs::Prune { older_than }) && older_than == d,
            Err(e) => r matches Err(x) && x@ == e,
        },
{
    let ghost av = args_view(args@);
    let mut older_than: u64 = DEFAULT_CACHE_TTL_SECS;
    let mut idx: usize = 0;
    while idx < args.len()
        invariant
            av == args_view(args@),
            idx <= args@.len(),
            cache_prune_from(av, 0, DEFAULT_CACHE_TTL_SECS) == cache_prune_from(av, idx as int, older_than),
        decreases args@.len() - idx,
    {
        let a = args[idx].as_str();
        assert(a@ == av[idx as int]);
        if same_text(a, "--older-than") {
            if idx + 1 >= args.len() {
                return Err(String::from_str("missing duration value"));
            }
            assert(args[idx + 1]@ == av[idx + 1]);
            older_than = match parse_duration_arg(args[idx + 1].as_str()) {
                Ok(d) => d,
                Err(e) => return Err(e),
            };
            idx = idx + 2;
        } else if same_text(a, "-h") || same_text(a, "--help") {
            return Ok(CachePruneArgs::Help);
        } else {
            return Err(join2("unknown cache prune option: ", a));
        }
    }
    Ok(CachePruneArgs::Prune { older_than })
}

/// How `cvm upgrade` was asked to run.
pub enum UpgradeArgs {
    Help,
    Upgrade { dry_run: bool, requested: Option<String> },
}

/// What the words after `cvm upgrade` ask for, from `args[idx]` on.
pub open spec fn upgrade_from(args: Seq<Seq<char>>, idx: int, dry_run: bool, requested: Option<Seq<char>>) -> Result<Option<(bool, Option<Seq<char>>)>, Seq<char>>
    decreases args.len() - idx,
{
    if idx < 0 || idx >= args.len() {
        Ok(Some((dry_run, requested)))
    } else {
        let a = args[idx];
        if a == "--dry-run"@ {
            upgrade_from(args, idx + 1, true, requested)
        } else if a == "-h"@ || a == "--help"@ {
            Ok(None)
        } else if a.len() > 0 && a[0] == '-' {
            Err("unknown upgrade option: "@ + a)
        } else if requested is Some {
            Err("usage: cvm upgrade [version] [--dry-run]"@)
        } else {
            upgrade_from(args, idx + 1, dry_run, Some(a))
        }
    }
}

/// Reads the words after `cvm upgrade`: an optional version and `--dry-run`, or help.
pub fn parse_upgrade_args(args: &[String]) -> (r: Result<UpgradeArgs, String>)
    ensures
        match upgrade_from(args_view(args@), 0, false, None) {
            Ok(None) => r matches Ok(UpgradeArgs::Help),
            Ok(Some((d, q))) => r matches Ok(UpgradeArgs::Upgrade { dry_run, requested }) && dry_run == d && opt_view(requested) == q,
            Err(e) => r matches Err(x) && x@ == e,
        },
{
    let ghost av = args_view(args@);
    let mut dry_run = false;
    let mut requested: Option<String> = None;
    let mut idx: usize = 0;
    while idx < args.len()
        invariant
            av == args_view(args@),
            idx <= args@.len(),
            upgrade_from(av, 0, false, None) == upgrade_from(av, idx as int, dry_run, opt_view(requested)),
        decreases args@.len() - idx,
    {
        let a = args[idx].as_str();
        assert(a@ == av[idx as int]);
        if same_text(a, "--dry-run") {
            dry_run = true;
        } else if same_text(a, "-h") || same_text(a, "--help") {
            return Ok(UpgradeArgs::Help);
        } else if a.unicode_len() > 0 && a.get_char(0) == '-' {
            return Err(join2("unknown upgrade option: ", a));
        } else {
            if requested.is_some() {
                return Err(String::from_str("usage: cvm upgrade [version] [--dry-run]"));
            }
            requested = Some(String::from_str(a));
        }
        idx = idx + 1;
    }
    Ok(UpgradeArgs::Upgrade { dry_run, requested })
}

/// The installer script of a cvm release tag.
pub fn upgrade_installer_url(tag: &str) -> (r: String)
    ensures
        r@ == "https://raw.githubusercontent.com/QGrain/cvm/"@ + tag@ + "/install.sh"@,
{
    let mut u = join2("https://raw.githubusercontent.com/QGrain/cvm/", tag);
    u.append("/install.sh");
    u
}

/// The tag to upgrade to: the version asked for, normalized to `vX.Y.Z`, else
/// the latest release.
pub fn upgrade_tag(requested: Option<&str>, latest: &Version) -> (r: Result<String, String>)
    ensures
        match requested {
            Some(q) => match parse_version(strip_tag_prefix(q@)) {
                Ok(_) => r matches Ok(t) && t@ == seq!['v'] + strip_tag_prefix(q@),
                Err(e) => r matches Err(x) && x@ == e,
            },
            None => r matches Ok(t) && t@ == seq!['v'] + version_text(latest@),
        },
{
    proof {
        reveal_strlit("v");
    }
    match requested {
        Some(q) => crate::remote::normalize_cvm_tag(q),
        None => Ok(join2("v", latest.to_string().as_str())),
    }
}

/// How `cvm profile template` was asked to run.
pub enum ProfileTemplateArgs {
    Help,
    Write { tool: Tool, output: Option<String>, force: bool },
}

/// What the words after `cvm profile template <tool>` ask for, from `args[idx]` on.
pub open spec fn profile_template_from(args: Seq<Seq<char>>, idx: int, output: Option<Seq<char>>, force: bool) -> Result<Option<(Option<Seq<char>>, bool)>, Seq<char>>
    decreases args.len() - idx,
{
    if idx < 0 || idx >= args.len() {
        Ok(Some((output, force)))
    } else {
        let a = args[idx];
        if a == "--force"@ {
            profile_template_from(args, idx + 1, output, true)
        } else if a == "-h"@ || a == "--help"@ {
            Ok(None)
        } else if a.len() > 0 && a[0] == '-' {
            Err("unknown profile template option: "@ + a)
        } else if output is Some {
            Err("usage: cvm profile template <llvm|gcc> [PATH] [--force]"@)
        } else {
            profile_template_from(args, idx + 1, Some(a), force)
        }
    }
}

/// What the words of `cvm profile template ...` ask for (`args[0]` is `template`).
pub open spec fn profile_template_request(args: Seq<Seq<char>>) -> Result<Option<(Tool, Option<Seq<char>>, bool)>, Seq<char>> {
    if args.len() > 1 && (args[1] == "-h"@ || args[1] == "--help"@) {
        Ok(None)
    } else if args.len() < 2 {
        Err("usage: cvm profile template <llvm|gcc> [PATH] [--force]"@)
    } else {
        match parse_tool_text(args[1]) {
            Err(e) => Err(e),
            Ok(tool) => match profile_template_from(args, 2, None, false) {
                Err(e) => Err(e),
                Ok(None) => Ok(None),
                Ok(Some((o, f))) => Ok(Some((tool, o, f))),
            },
        }
    }
}

/// Reads the words of `cvm profile template <llvm|gcc> [PATH] [--force]`.
#[verifier::loop_isolation(false)]
pub fn parse_profile_template_args(args: &[String]) -> (r: Result<ProfileTemplateArgs, String>)
    ensures
        match profile_template_request(args_view(args@)) {
            Ok(None) => r matches Ok(ProfileTemplateArgs::Help),
            Ok(Some((t, o, f))) => r matches Ok(ProfileTemplateArgs::Write { tool, output, force }) && tool == t && opt_view(output) == o && force == f,
            Err(e) => r matches Err(x) && x@ == e,
        },
{
    let ghost av = args_view(args@);
    if args.len() > 1 && (same_text(args[1].as_str(), "-h") || same_text(args[1].as_str(), "--help")) {
        return Ok(ProfileTemplateArgs::Help);
    }
    if args.len() < 2 {
        return Err(String::from_str("usage: cvm profile template <llvm|gcc> [PATH] [--force]"));
    }
    let tool = match parse_tool(args[1].as_str()) {
        Ok(t) => t,
        Err(e) => return Err(e),
    };
    let mut output: Option<String> = None;
    let mut force = false;
    let mut idx: usize = 2;
    while idx < args.len()
        invariant
            av == args_view(args@),
            2 <= idx <= args@.len(),
            profile_template_from(av, 2, None, false) == profile_template_from(av, idx as int, opt_view(output), force),
        decreases args@.len() - idx,
    {
        let a = args[idx].as_str();
        assert(a@ == av[idx as int]);
        if same_text(a, "--force") {
            force = true;
        } else if same_text(a, "-h") || same_text(a, "--help") {
            return Ok(ProfileTemplateArgs::Help);
        } else if a.unicode_len() > 0 && a.get_char(0) == '-' {
            return Err(join2("unknown profile template option: ", a));
        } else {
            if output.is_some() {
                return Err(String::from_str("usage: cvm profile template <llvm|gcc> [PATH] [--force]"));
            }
            output = Some(String::from_str(a));
        }
        idx = idx + 1;
    }
    Ok(ProfileTemplateArgs::Write { tool, output, force })
}

/// What the words after `cvm use system` ask for: every family, or one.
pub open spec fn use_system_request(args: Seq<Seq<char>>) -> Result<Option<Tool>, Seq<char>> {
    if args.len() > 2 {
        Err("usage: cvm use system [llvm|gcc]"@)
    } else if args.len() < 2 {
        Ok(None)
    } else if args[1] == "llvm"@ {
        Ok(Some(Tool::Llvm))
    } else if args[1] == "gcc"@ {
        Ok(Some(Tool::Gcc))
    } else {
        Err("usage: cvm use system [llvm|gcc]"@)
    }
}

/// Reads the words of `cvm use system [llvm|gcc]` (`args[0]` is `system`).
pub fn parse_use_system_args(args: &[String]) -> (r: Result<Option<Tool>, String>)
    ensures
        text_result(r) == use_system_request(args_view(args@)),
{
    if args.len() > 2 {
        return Err(String::from_str("usage: cvm use system [llvm|gcc]"));
    }
    if args.len() < 2 {
        return Ok(None);
    }
    let a = args[1].as_str();
    if same_text(a, "llvm") {
        Ok(Some(Tool::Llvm))
    } else if same_text(a, "gcc") {
        Ok(Some(Tool::Gcc))
    } else {
        Err(String::from_str("usage: cvm use system [llvm|gcc]"))
    }
}

/// The releases that lie under a prefix, in their order; all without one.
pub open spec fn releases_under(rs: Seq<RemoteVersionView>, prefix: Option<VersionPrefix>) -> Seq<RemoteVersionView> {
    match prefix {
        None => rs,
        Some(p) => rs.filter(|r: RemoteVersionView| prefix_matches(r.version, p)),
    }
}

/// Keeps the releases that lie under `prefix`, as `cvm ls-remote` lists them.
pub fn filter_releases_by_prefix(releases: Vec<RemoteVersion>, prefix: Option<VersionPrefix>) -> (r: Vec<RemoteVersion>)
    ensures
        r@.map_values(|x: RemoteVersion| remote_version_view(x)) == releases_under(
            releases@.map_values(|x: RemoteVersion| remote_version_view(x)),
            prefix,
        ),
{
    let p = match prefix {
        None => return releases,
        Some(p) => p,
    };
    let ghost all = releases@;
    let ghost rs = all.map_values(|x: RemoteVersion| remote_version_view(x));
    let ghost keep = |r: RemoteVersionView| prefix_matches(r.version, p);
    let mut rest = releases;
    let mut reversed: Vec<RemoteVersion> = Vec::new();
    while rest.len() > 0
        invariant
            rest@.len() + reversed@.len() == all.len(),
            forall|k: int| 0 <= k < rest@.len() ==> #[trigger] rest@[k] == all[k],
            forall|k: int| 0 <= k < reversed@.len() ==> #[trigger] reversed@[k] == all[all.len() - 1 - k],
        decreases rest@.len(),
    {
        let x = rest.pop().unwrap();
        reversed.push(x);
    }
    let mut out: Vec<RemoteVersion> = Vec::new();
    let n = reversed.len();
    let mut i: usize = 0;
    assert(rs.take(0) =~= Seq::<RemoteVersionView>::empty());
    assert(rs.take(0).filter(keep) =~= Seq::<RemoteVersionView>::empty());
    while i < n
        invariant
            i <= n,
            n == all.len(),
            rs == all.map_values(|x: RemoteVersion| remote_version_view(x)),
            keep == (|r: RemoteVersionView| prefix_matches(r.version, p)),
            reversed@.len() == n - i,
            forall|k: int| 0 <= k < reversed@.len() ==> #[trigger] reversed@[k] == all[all.len() - 1 - k],
            out@.map_values(|x: RemoteVersion| remote_version_view(x)) == rs.take(i as int).filter(keep),
        decreases n - i,
    {
        let x = reversed.pop().unwrap();
        assert(x == all[i as int]);
        assert(rs.take(i + 1).drop_last() =~= rs.take(i as int));
        assert(rs.take(i + 1).last() == remote_version_view(x));
        reveal_with_fuel(Seq::filter, 1);
        let ghost before = out@;
        if x.version.matches_prefix(&p) {
            out.push(x);
            assert(out@.map_values(|y: RemoteVersion| remote_version_view(y)) =~= before.map_values(
                |y: RemoteVersion| remote_version_view(y),
            ).push(remote_version_view(x)));
        }
        i = i + 1;
    }
    assert(rs.take(n as int) =~= rs);
    out
}

/// The error when a version is not installed where it should be.
pub open spec fn not_installed_error(tool: Tool, v: VersionView, prefix: Seq<char>) -> Seq<char> {
    tool_name(tool) + " "@ + version_text(v) + " is not installed at "@ + prefix
}

/// Refuses a version whose `bin` directory is missing under its prefix.
pub fn ensure_installed(tool: Tool, version: &Version, prefix: &str, bin_is_dir: bool) -> (r: Result<(), String>)
    ensures
        bin_is_dir ==> r is Ok,
        !bin_is_dir ==> (r matches Err(e) && e@ == not_installed_error(tool, version@, prefix@)),
{
    if bin_is_dir {
        return Ok(());
    }
    let mut m = join2(tool.as_str(), " ");
    m.append(version.to_string().as_str());
    m.append(" is not installed at ");
    m.append(prefix);
    Err(m)
}

/// A value shown on one line: each line feed written as `\n`.
pub open spec fn escape_newlines(s: Seq<char>) -> Seq<char>
    decreases s.len(),
{
    if s.len() == 0 {
        Seq::empty()
    } else {
        escape_newlines(s.drop_last()) + if s.last() == '\n' {
            seq!['\\', 'n']
        } else {
            seq![s.last()]
        }
    }
}

/// The line a dry run prints for one environment variable of the build profile.
pub open spec fn env_line(e: (Seq<char>, Seq<char>)) -> Seq<char> {
    "env "@ + e.0 + "="@ + escape_newlines(e.1)
}

/// What `cvm install --dry-run` prints: the build profile in force, if any,
/// the variables it sets, then the backend command.
pub open spec fn dry_run_text(
    profile: Option<Seq<char>>,
    envs: Seq<(Seq<char>, Seq<char>)>,
    args: Seq<Seq<char>>,
) -> Seq<Seq<char>> {
    let head = match profile {
        Some(p) => seq!["profile: "@ + p],
        None => Seq::<Seq<char>>::empty(),
    };
    head + envs.map_values(|e: (Seq<char>, Seq<char>)| env_line(e)) + seq!["bash "@ + join_pieces(args, ' ')]
}

/// `s` with each line feed written as `\n`.
fn escape_newlines_of(s: &str) -> (r: String)
    ensures
        r@ == escape_newlines(s@),
{
    let len = s.unicode_len();
    let mut out = String::new();
    let mut i: usize = 0;
    assert(s@.take(0) =~= Seq::<char>::empty());
    while i < len
        invariant
            len == s@.len(),
            i <= len,
            out@ == escape_newlines(s@.take(i as int)),
        decreases len - i,
    {
        assert(s@.take(i + 1).drop_last() =~= s@.take(i as int));
        assert(s@.take(i + 1).last() == s@[i as int]);
        proof {
            reveal_strlit("\\n");
        }
        if s.get_char(i) == '\n' {
            out.append("\\n");
        } else {
            let one = s.substring_char(i, i + 1);
            assert(one@ =~= seq![s@[i as int]]);
            out.append(one);
        }
        assert(out@ =~= escape_newlines(s@.take(i + 1)));
        i = i + 1;
    }
    assert(s@.take(len as int) =~= s@);
    out
}

/// The words of a command joined with spaces.
fn join_words(words: &Vec<String>) -> (r: String)
    ensures
        r@ == join_pieces(words@.map_values(|w: String| w@), ' '),
{
    let ghost ws = words@.map_values(|w: String| w@);
    let mut out = String::new();
    let mut i: usize = 0;
    proof {
        reveal_strlit(" ");
    }
    assert(ws.take(0) =~= Seq::<Seq<char>>::empty());
    while i < words.len()
        invariant
            i <= words@.len(),
            ws == words@.map_values(|w: String| w@),
            out@ == join_pieces(ws.take(i as int), ' '),
        decreases words@.len() - i,
    {
        assert(ws.take(i + 1).drop_last() =~= ws.take(i as int));
        assert(ws.take(i + 1).last() == words@[i as int]@);
        proof {
            reveal_strlit(" ");
        }
        if i > 0 {
            out.append(" ");
            out.append(words[i].as_str());
            assert(join_pieces(ws.take(i + 1), ' ') == join_pieces(ws.take(i as int), ' ') + seq![' '] + ws.take(i + 1).last());
            assert(out@ =~= join_pieces(ws.take(i + 1), ' '));
        } else {
            assert(ws.take(1) =~= seq![words@[0]@]);
            out.append(words[i].as_str());
            assert(out@ =~= join_pieces(ws.take(i + 1), ' '));
        }
        i = i + 1;
    }
    assert(ws.take(words@.len() as int) =~= ws);
    out
}

/// The lines `cvm install --dry-run` prints, given the build profile in force,
/// the variables it sets and the backend command's words.
pub fn dry_run_lines(profile: Option<&str>, envs: &Vec<(String, String)>, args: &Vec<String>) -> (r: Vec<String>)
    ensures
        r@.map_values(|l: String| l@) == dry_run_text(
            match profile {
                Some(p) => Some(p@),
                None => None,
            },
            envs@.map_values(|e: (String, String)| (e.0@, e.1@)),
            args@.map_values(|w: String| w@),
        ),
{
    let ghost es = envs@.map_values(|e: (String, String)| (e.0@, e.1@));
    let ghost head = match profile {
        Some(p) => seq!["profile: "@ + p@],
        None => Seq::<Seq<char>>::empty(),
    };
    let mut lines: Vec<String> = Vec::new();
    if let Some(p) = profile {
        lines.push(join2("profile: ", p));
    }
    assert(lines@.map_values(|l: String| l@) =~= head);
    let mut i: usize = 0;
    while i < envs.len()
        invariant
            i <= envs@.len(),
            es == envs@.map_values(|e: (String, String)| (e.0@, e.1@)),
            lines@.map_values(|l: String| l@) == head + es.take(i as int).map_values(
                |e: (Seq<char>, Seq<char>)| env_line(e),
            ),
        decreases envs@.len() - i,
    {
        let ghost before = lines@.map_values(|l: String| l@);
        let mut line = join2("env ", envs[i].0.as_str());
        line.append("=");
        line.append(escape_newlines_of(envs[i].1.as_str()).as_str());
        proof {
            reveal_strlit("=");
        }
        assert(line@ == env_line(es[i as int]));
        lines.push(line);
        assert(es.take(i + 1) =~= es.take(i as int).push(es[i as int]));
        assert(lines@.map_values(|l: String| l@) =~= before.push(env_line(es[i as int])));
        assert(es.take(i + 1).map_values(|e: (Seq<char>, Seq<char>)| env_line(e)) =~= es.take(
            i as int,
        ).map_values(|e: (Seq<char>, Seq<char>)| env_line(e)).push(env_line(es[i as int])));
        i = i + 1;
    }
    assert(es.take(envs@.len() as int) =~= es);
    let ghost before = lines@.map_values(|l: String| l@);
    let command = join_words(args);
    lines.push(join2("bash ", command.as_str()));
    assert(lines@.map_values(|l: String| l@) =~= before.push("bash "@ + command@));
    lines
}

/// Writing a profile template over an existing file needs `--force`.
pub fn template_write_check(path: &str, exists: bool, force: bool) -> (r: Result<(), String>)
    ensures
        exists && !force ==> (r matches Err(e) && e@ == path@ + " already exists; use --force to overwrite"@),
        !(exists && !force) ==> r is Ok,
{
    if exists && !force {
        let mut m = String::from_str(path);
        m.append(" already exists; use --force to overwrite");
        return Err(m);
    }
    Ok(())
}

/// Whether the latest cvm release is newer than the running one.
pub fn update_available(latest: &Version, current: &Version) -> (r: bool)
    ensures
        r == version_less(current@, latest@),
{
    current.is_older_than(latest)
}

} // verus!
