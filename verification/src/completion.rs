//! Shell completion scripts. Both call `git-ignore __complete <prefix>`.

use vstd::prelude::*;

use crate::text::str_equals;

verus! {

/// The bash completion script.
pub const BASH_SCRIPT: &'static str = r#"# bash completion for git-ignore
_git_ignore_complete() {
  local cur
  cur="${COMP_WORDS[COMP_CWORD]}"
  mapfile -t COMPREPLY < <(git-ignore __complete "${cur}" 2>/dev/null)
}

complete -F _git_ignore_complete git-ignore

# Git's bash completion looks for _git_<subcommand> helpers for external commands.
_git_ignore() {
  _git_ignore_complete
}
"#;

/// The zsh completion script.
pub const ZSH_SCRIPT: &'static str = r#"#compdef git-ignore git-ignore

_git_ignore() {
  local -a candidates
  candidates=("${(@f)$(git-ignore __complete "${words[CURRENT]}" 2>/dev/null)}")
  _describe 'gitignore templates' candidates
}

compdef _git-ignore git-ignore

# Git's zsh completion can look for _git-<subcommand> helpers for external commands.
_git-ignore() {
  _git_ignore "$@"
}
"#;

/// A shell other than bash and zsh was asked for.
#[derive(Clone, Debug, PartialEq, Eq)]
pub struct UnsupportedShell {
    pub shell: String,
}

impl UnsupportedShell {
    /// The error's text.
    pub fn message(&self) -> (r: String)
        ensures
            r@ == "unsupported shell '"@ + self.shell@ + "'; expected bash or zsh"@,
    {
        let mut r = String::from_str("unsupported shell '");
        r.append(self.shell.as_str());
        r.append("'; expected bash or zsh");
        r
    }
}

/// The completion script for `shell`: `bash` or `zsh`.
pub fn completion_script(shell: &str) -> (r: Result<&'static str, UnsupportedShell>)
    ensures
        shell@ == "bash"@ ==> r == Ok::<&'static str, UnsupportedShell>(BASH_SCRIPT),
        shell@ != "bash"@ && shell@ == "zsh"@ ==> r == Ok::<&'static str, UnsupportedShell>(ZSH_SCRIPT),
        shell@ != "bash"@ && shell@ != "zsh"@ ==> (r matches Err(e) && e.shell@ == shell@),
{
    if str_equals(shell, "bash") {
        Ok(BASH_SCRIPT)
    } else if str_equals(shell, "zsh") {
        Ok(ZSH_SCRIPT)
    } else {
        Err(UnsupportedShell { shell: shell.to_string() })
    }
}

} // verus!
