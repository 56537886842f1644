//! The shell snippets that cvm prints: switching `PATH` to a toolchain, the
//! shell loader, and command completion.
use vstd::prelude::*;

use crate::paths::{join, join_path};
use crate::text::join2;
use crate::tool::Tool;
use crate::version::Version;

verus! {

/// The shell function that removes cvm toolchain directories from `PATH`, up
/// to the `case` pattern naming the directories to remove.
pub const STRIP_SCRIPT_HEAD: &'static str = r#"_cvm_strip_toolchain_paths() {
  _cvm_old_path="${PATH:-}"
  _cvm_new_path=""
  while [ -n "$_cvm_old_path" ]; do
    case "$_cvm_old_path" in
      *:*)
        _cvm_entry="${_cvm_old_path%%:*}"
        _cvm_old_path="${_cvm_old_path#*:}"
        ;;
      *)
        _cvm_entry="$_cvm_old_path"
        _cvm_old_path=""
        ;;
    esac
    case "$_cvm_entry" in
      "#;

/// The rest of that shell function after the pattern, and its call.
pub const STRIP_SCRIPT_TAIL: &'static str = r#") ;;
      *)
        if [ -z "$_cvm_new_path" ]; then
          _cvm_new_path="$_cvm_entry"
        else
          _cvm_new_path="$_cvm_new_path:$_cvm_entry"
        fi
        ;;
    esac
  done
  PATH="$_cvm_new_path"
  export PATH
  unset _cvm_old_path _cvm_new_path _cvm_entry
}
_cvm_strip_toolchain_paths
"#;

/// The `case` pattern for one family's toolchain directories, or for all.
pub open spec fn toolchain_path_pattern(tool: Option<Tool>) -> Seq<char> {
    match tool {
        Some(Tool::Llvm) => "\"${CVM_HOME:-$HOME/.cvm}\"/toolchains/llvm/*/bin"@,
        Some(Tool::Gcc) => "\"${CVM_HOME:-$HOME/.cvm}\"/toolchains/gcc/*/bin"@,
        None => "\"${CVM_HOME:-$HOME/.cvm}\"/toolchains/*/*/bin"@,
    }
}

/// The script that removes one family's (or every family's) toolchain
/// directories from `PATH`.
pub open spec fn strip_script(tool: Option<Tool>) -> Seq<char> {
    STRIP_SCRIPT_HEAD@ + toolchain_path_pattern(tool) + STRIP_SCRIPT_TAIL@
}

/// The script that removes toolchain directories from `PATH`, for one
/// family or for every family.
pub fn strip_toolchain_paths_script(tool: Option<Tool>) -> (r: String)
    ensures
        r@ == strip_script(tool),
{
    let pattern = match tool {
        Some(Tool::Llvm) => "\"${CVM_HOME:-$HOME/.cvm}\"/toolchains/llvm/*/bin",
        Some(Tool::Gcc) => "\"${CVM_HOME:-$HOME/.cvm}\"/toolchains/gcc/*/bin",
        None => "\"${CVM_HOME:-$HOME/.cvm}\"/toolchains/*/*/bin",
    };
    let mut s = join2(STRIP_SCRIPT_HEAD, pattern);
    s.append(STRIP_SCRIPT_TAIL);
    s
}

/// The script of `cvm use system` and `cvm deactivate`: system compilers again.
pub fn system_env_script(tool: Option<Tool>) -> (r: String)
    ensures
        r@ == strip_script(tool),
{
    strip_toolchain_paths_script(tool)
}

/// A path escaped for use inside double quotes: each backslash doubled and
/// each double quote preceded by a backslash.
pub open spec fn shell_escape(s: Seq<char>) -> Seq<char>
    decreases s.len(),
{
    if s.len() == 0 {
        s
    } else {
        let c = s.last();
        shell_escape(s.drop_last()) + if c == '\\' {
            seq!['\\', '\\']
        } else if c == '"' {
            seq!['\\', '"']
        } else {
            seq![c]
        }
    }
}

/// Escapes a path for use inside a double-quoted shell word.
pub fn shell_escape_path(path: &str) -> (r: String)
    ensures
        r@ == shell_escape(path@),
{
    let len = path.unicode_len();
    let mut out = String::new();
    let mut i: usize = 0;
    proof {
        reveal_strlit("\\\\");
        reveal_strlit("\\\"");
    }
    assert(path@.take(0) =~= Seq::<char>::empty());
    while i < len
        invariant
            len == path@.len(),
            i <= len,
            out@ == shell_escape(path@.take(i as int)),
        decreases len - i,
    {
        assert(path@.take(i + 1).drop_last() =~= path@.take(i as int));
        assert(path@.take(i + 1).last() == path@[i as int]);
        let c = path.get_char(i);
        let ghost before = out@;
        proof {
            reveal_strlit("\\\\");
            reveal_strlit("\\\"");
        }
        if c == '\\' {
            out.append("\\\\");
        } else if c == '"' {
            out.append("\\\"");
        } else {
            let one = path.substring_char(i, i + 1);
            assert(one@ =~= seq![c]);
            out.append(one);
        }
        assert(out@ =~= shell_escape(path@.take(i + 1)));
        i = i + 1;
    }
    assert(path@.take(len as int) =~= path@);
    out
}

/// What `env_script` prints: remove the family's toolchains from `PATH`, then
/// put `<prefix>/bin` first.
pub open spec fn env_script_text(tool: Tool, prefix: Seq<char>) -> Seq<char> {
    strip_script(Some(tool)) + "export PATH=\""@ + shell_escape(join_path(prefix, "bin"@)) + ":$PATH\"\n"@
}

/// The compiler variables cvm owns, cleared when a toolchain takes over the shell.
pub const COMPILER_VARIABLES_RESET: &'static str = "unset CC CXX LD LLVM HOSTCC HOSTCXX\n";

/// The C and C++ compilers that `cvm use` selects for a family.
pub open spec fn compiler_exports(tool: Tool) -> Seq<char> {
    match tool {
        Tool::Llvm => "export CC=\"clang\"\nexport CXX=\"clang++\"\n"@,
        Tool::Gcc => "export CC=\"gcc\"\nexport CXX=\"g++\"\n"@,
    }
}

/// What `cvm use` prints: the family's toolchain first in `PATH`, the
/// compiler variables cvm owns cleared, then its C and C++ compilers selected.
pub open spec fn use_script_text(tool: Tool, prefix: Seq<char>) -> Seq<char> {
    env_script_text(tool, prefix) + COMPILER_VARIABLES_RESET@ + compiler_exports(tool)
}

/// The script that `cvm use` prints to switch the current shell to the
/// toolchain installed at `prefix`.
pub fn use_script(tool: Tool, prefix: &str) -> (r: String)
    ensures
        r@ == use_script_text(tool, prefix@),
{
    let mut s = env_script(tool, prefix);
    s.append(COMPILER_VARIABLES_RESET);
    match tool {
        Tool::Llvm => s.append("export CC=\"clang\"\nexport CXX=\"clang++\"\n"),
        Tool::Gcc => s.append("export CC=\"gcc\"\nexport CXX=\"g++\"\n"),
    }
    s
}

/// The script that switches the current shell to the toolchain installed at `prefix`.
pub fn env_script(tool: Tool, prefix: &str) -> (r: String)
    ensures
        r@ == env_script_text(tool, prefix@),
{
    let bin = join(prefix, "bin");
    let bin = shell_escape_path(bin.as_str());
    let mut s = strip_toolchain_paths_script(Some(tool));
    s.append("export PATH=\"");
    s.append(bin.as_str());
    s.append(":$PATH\"\n");
    s
}

/// The body of the shell loader that `cvm init` prints.
pub const INIT_SCRIPT_BODY: &'static str = r#"
export CVM_HOME="${CVM_HOME:-$HOME/.cvm}"
case ":$PATH:" in
  *":$CVM_HOME/bin:"*) ;;
  *) export PATH="$CVM_HOME/bin:$PATH" ;;
esac

if command -v cvm >/dev/null 2>&1; then
  eval "$(command cvm env --defaults)"
fi

cvm() {
  if [ "$#" -ge 1 ] && [ "$1" = "use" ]; then
    shift
    eval "$(command cvm use "$@")"
  else
    command cvm "$@"
  fi
}

if [ -n "${BASH_VERSION:-}" ]; then
  eval "$(command cvm completion bash)"
elif [ -n "${ZSH_VERSION:-}" ]; then
  eval "$(command cvm completion zsh)"
fi
"#;

/// What `cvm init` prints: the shell loader. The defaults are applied when the
/// loader runs (through `cvm env --defaults`), not written into it.
pub open spec fn init_script_text() -> Seq<char> {
    "# cvm shell integration\n"@ + INIT_SCRIPT_BODY@
}

/// The shell loader: puts `$CVM_HOME/bin` on `PATH`, applies the persistent
/// defaults, wraps `cvm use` so that it changes the current shell, and loads
/// completion.
pub fn init_script(_defaults: &[(Tool, Version, String)]) -> (r: String)
    ensures
        r@ == init_script_text(),
{
    join2("# cvm shell integration\n", INIT_SCRIPT_BODY)
}

/// The commands that completion offers.
pub const COMPLETION_COMMANDS: &'static str = "install cache profile ls-remote ls list use alias current env which uninstall deactivate upgrade init version help";

/// The bash completion script up to the list of commands.
pub const BASH_COMPLETION_HEAD: &'static str = r#"# cvm bash completion
_cvm_installed_versions() {
  local tool="$1"
  command cvm ls "$tool" 2>/dev/null | sed -n 's/^  default -> //p; t; s/^  \([^<].*\)$/\1/p'
}

_cvm_complete() {
  local cur command tool
  COMPREPLY=()
  cur="${COMP_WORDS[COMP_CWORD]}"
  command="${COMP_WORDS[1]}"

  local commands=""#;

/// The bash completion script after the list of commands.
pub const BASH_COMPLETION_TAIL: &'static str = r#""
  local tools="llvm gcc"

  if [ "$COMP_CWORD" -eq 1 ]; then
    COMPREPLY=( $(compgen -W "$commands" -- "$cur") )
    return 0
  fi

  case "$command" in
    completion)
      if [ "$COMP_CWORD" -eq 2 ]; then
        COMPREPLY=( $(compgen -W "bash zsh" -- "$cur") )
      fi
      ;;
    cache)
      if [ "$COMP_CWORD" -eq 2 ]; then
        COMPREPLY=( $(compgen -W "dir list prune" -- "$cur") )
      elif [ "${COMP_WORDS[2]}" = "prune" ]; then
        COMPREPLY=( $(compgen -W "--older-than" -- "$cur") )
      fi
      ;;
    profile)
      if [ "$COMP_CWORD" -eq 2 ]; then
        COMPREPLY=( $(compgen -W "template list" -- "$cur") )
      elif [ "${COMP_WORDS[2]}" = "template" ] && [ "$COMP_CWORD" -eq 3 ]; then
        COMPREPLY=( $(compgen -W "$tools" -- "$cur") )
      fi
      ;;
    install|ls-remote|ls|list|current)
      if [ "$COMP_CWORD" -eq 2 ]; then
        COMPREPLY=( $(compgen -W "$tools" -- "$cur") )
      fi
      ;;
    use)
      if [ "$COMP_CWORD" -eq 2 ]; then
        COMPREPLY=( $(compgen -W "$tools system" -- "$cur") )
      elif [ "$COMP_CWORD" -eq 3 ] && [ "${COMP_WORDS[2]}" = "system" ]; then
        COMPREPLY=( $(compgen -W "$tools" -- "$cur") )
      elif [ "$COMP_CWORD" -eq 3 ]; then
        tool="${COMP_WORDS[2]}"
        COMPREPLY=( $(compgen -W "$(_cvm_installed_versions "$tool")" -- "$cur") )
      fi
      ;;
    env|which|uninstall)
      if [ "$COMP_CWORD" -eq 2 ]; then
        COMPREPLY=( $(compgen -W "$tools" -- "$cur") )
      elif [ "$COMP_CWORD" -eq 3 ]; then
        tool="${COMP_WORDS[2]}"
        COMPREPLY=( $(compgen -W "$(_cvm_installed_versions "$tool")" -- "$cur") )
      fi
      ;;
    alias)
      if [ "$COMP_CWORD" -eq 2 ]; then
        COMPREPLY=( $(compgen -W "default" -- "$cur") )
      elif [ "$COMP_CWORD" -eq 3 ] && [ "${COMP_WORDS[2]}" = "default" ]; then
        COMPREPLY=( $(compgen -W "$tools" -- "$cur") )
      elif [ "$COMP_CWORD" -eq 4 ] && [ "${COMP_WORDS[2]}" = "default" ]; then
        tool="${COMP_WORDS[3]}"
        COMPREPLY=( $(compgen -W "$(_cvm_installed_versions "$tool")" -- "$cur") )
      fi
      ;;
  esac
  return 0
}

if command -v complete >/dev/null 2>&1; then
  complete -F _cvm_complete cvm
fi
"#;

/// The zsh completion script up to the list of commands.
pub const ZSH_COMPLETION_HEAD: &'static str = r#"#compdef cvm
# cvm zsh completion

_cvm_installed_versions() {
  local tool="$1"
  command cvm ls "$tool" 2>/dev/null | sed -n 's/^  default -> //p; t; s/^  \([^<].*\)$/\1/p'
}

_cvm() {
  local -a commands tools cache_commands profile_commands shells versions
  commands=("#;

/// The zsh completion script after the list of commands.
pub const ZSH_COMPLETION_TAIL: &'static str = r#")
  tools=(llvm gcc)
  cache_commands=(dir list prune)
  profile_commands=(template list)
  shells=(bash zsh)

  if (( CURRENT == 2 )); then
    compadd -- $commands
    return
  fi

  case "$words[2]" in
    completion)
      if (( CURRENT == 3 )); then compadd -- $shells; fi
      ;;
    cache)
      if (( CURRENT == 3 )); then
        compadd -- $cache_commands
      elif [[ "$words[3]" == prune ]]; then
        compadd -- --older-than
      fi
      ;;
    profile)
      if (( CURRENT == 3 )); then
        compadd -- $profile_commands
      elif [[ "$words[3]" == template && CURRENT == 4 ]]; then
        compadd -- $tools
      fi
      ;;
    install|ls-remote|ls|list|current)
      if (( CURRENT == 3 )); then compadd -- $tools; fi
      ;;
    use)
      if (( CURRENT == 3 )); then
        compadd -- $tools system
      elif [[ "$words[3]" == system && CURRENT == 4 ]]; then
        compadd -- $tools
      elif (( CURRENT == 4 )); then
        versions=(${(f)"$(_cvm_installed_versions "$words[3]")"})
        compadd -- $versions
      fi
      ;;
    env|which|uninstall)
      if (( CURRENT == 3 )); then
        compadd -- $tools
      elif (( CURRENT == 4 )); then
        versions=(${(f)"$(_cvm_installed_versions "$words[3]")"})
        compadd -- $versions
      fi
      ;;
    alias)
      if (( CURRENT == 3 )); then
        compadd -- default
      elif [[ "$words[3]" == default && CURRENT == 4 ]]; then
        compadd -- $tools
      elif [[ "$words[3]" == default && CURRENT == 5 ]]; then
        versions=(${(f)"$(_cvm_installed_versions "$words[4]")"})
        compadd -- $versions
      fi
      ;;
  esac
}

if whence -w compdef >/dev/null 2>&1; then
  compdef _cvm cvm
fi
"#;

/// The bash completion script for cvm.
pub fn bash_completion_script() -> (r: String)
    ensures
        r@ == BASH_COMPLETION_HEAD@ + COMPLETION_COMMANDS@ + BASH_COMPLETION_TAIL@,
{
    let mut s = join2(BASH_COMPLETION_HEAD, COMPLETION_COMMANDS);
    s.append(BASH_COMPLETION_TAIL);
    s
}

/// The zsh completion script for cvm.
pub fn zsh_completion_script() -> (r: String)
    ensures
        r@ == ZSH_COMPLETION_HEAD@ + COMPLETION_COMMANDS@ + ZSH_COMPLETION_TAIL@,
{
    let mut s = join2(ZSH_COMPLETION_HEAD, COMPLETION_COMMANDS);
    s.append(ZSH_COMPLETION_TAIL);
    s
}

/// The `PATH` lines for the default toolchains' `bin` directories, each put
/// first in turn.
pub open spec fn path_exports(bins: Seq<Seq<char>>) -> Seq<char>
    decreases bins.len(),
{
    if bins.len() == 0 {
        Seq::empty()
    } else {
        path_exports(bins.drop_last()) + "export PATH=\""@ + shell_escape(bins.last()) + ":$PATH\"\n"@
    }
}

/// What `cvm env --defaults` prints for the `bin` directories of the
/// persistent defaults: nothing without defaults, else remove every
/// toolchain from `PATH`, clear the compiler variables cvm owns once, and
/// put each default first.
pub open spec fn defaults_env_text(bins: Seq<Seq<char>>) -> Seq<char> {
    if bins.len() == 0 {
        Seq::empty()
    } else {
        strip_script(None) + COMPILER_VARIABLES_RESET@ + path_exports(bins)
    }
}

/// The script that applies the persistent defaults, from their `bin` directories.
pub fn defaults_env_script(bins: &Vec<String>) -> (r: String)
    ensures
        r@ == defaults_env_text(bins@.map_values(|b: String| b@)),
{
    let ghost bs = bins@.map_values(|b: String| b@);
    if bins.len() == 0 {
        return String::new();
    }
    let mut script = strip_toolchain_paths_script(None);
    script.append(COMPILER_VARIABLES_RESET);
    let mut i: usize = 0;
    assert(bs.take(0) =~= Seq::<Seq<char>>::empty());
    while i < bins.len()
        invariant
            i <= bins@.len(),
            bs == bins@.map_values(|b: String| b@),
            script@ == strip_script(None) + COMPILER_VARIABLES_RESET@ + path_exports(bs.take(i as int)),
        decreases bins@.len() - i,
    {
        assert(bs.take(i + 1).drop_last() =~= bs.take(i as int));
        assert(bs.take(i + 1).last() == bins@[i as int]@);
        let escaped = shell_escape_path(bins[i].as_str());
        script.append("export PATH=\"");
        script.append(escaped.as_str());
        script.append(":$PATH\"\n");
        assert(script@ =~= strip_script(None) + COMPILER_VARIABLES_RESET@ + path_exports(bs.take(i + 1)));
        i = i + 1;
    }
    assert(bs.take(bins@.len() as int) =~= bs);
    script
}

} // verus!
