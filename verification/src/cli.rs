//! The command surface: subcommands, their arguments, and what each one asks
//! the application to do.

use crate::db::{clone_opt, opt_view, SearchFilters};
use vstd::prelude::*;

verus! {

/// The parsed command line.
#[derive(Debug, PartialEq, Eq)]
pub struct Cli {
    /// The subcommand; none opens the interactive search.
    pub command: Option<Command>,
}

/// A subcommand.
#[derive(Debug, PartialEq, Eq)]
pub enum Command {
    /// Search for previously captured commands.
    Search(SearchArgs),
    /// Limit results to the current directory or repository context.
    Here,
    /// Limit results to failed commands.
    Failed,
    /// Import shell history from a local file.
    Import {
        /// Path to a shell history file, such as `~/.zsh_history`.
        path: String,
    },
    /// Print shell hook code.
    Init(InitArgs),
    /// Record one finished command (used by the shell hooks).
    Capture(CaptureArgs),
    /// Show local usage and index health statistics.
    Stats,
}

/// The arguments of `seekr search`.
#[derive(Debug, PartialEq, Eq)]
pub struct SearchArgs {
    /// Free-text query to look up.
    pub query: String,
    /// Maximum number of matching commands to show (1 to 100).
    pub limit: usize,
    /// Restrict results to this working directory.
    pub cwd: Option<String>,
    /// Restrict results to this git repository.
    pub repo: Option<String>,
    /// Restrict results to this git branch.
    pub branch: Option<String>,
    /// Restrict results to non-zero exit codes.
    pub failed: bool,
    /// Restrict results to successful commands.
    pub successful: bool,
    /// Restrict results to commands captured at or after this Unix time.
    pub since: Option<i64>,
    /// Restrict results to commands captured at or before this Unix time.
    pub before: Option<i64>,
}

/// The result limit of a search when none is given.
pub const DEFAULT_SEARCH_LIMIT: usize = 10;

impl Default for SearchArgs {
    /// An empty query, a limit of 10 and no filters.
    fn default() -> (res: Self)
        ensures
            res.query@ == Seq::<char>::empty(),
            res.limit == DEFAULT_SEARCH_LIMIT,
            res.cwd is None,
            res.repo is None,
            res.branch is None,
            !res.failed,
            !res.successful,
            res.since is None,
            res.before is None,
    {
        SearchArgs {
            query: String::new(),
            limit: DEFAULT_SEARCH_LIMIT,
            cwd: None,
            repo: None,
            branch: None,
            failed: false,
            successful: false,
            since: None,
            before: None,
        }
    }
}

/// The exit-status filter that the `--failed` and `--successful` flags ask
/// for: failed runs when `--failed` is given, else successful runs when
/// `--successful` is, else any.
pub open spec fn status_filter(failed: bool, successful: bool) -> Option<bool> {
    if failed {
        Some(true)
    } else if successful {
        Some(false)
    } else {
        None
    }
}

impl SearchArgs {
    /// The search filters these arguments ask for.
    pub fn filters(&self) -> (res: SearchFilters)
        ensures
            opt_view(res.cwd) == opt_view(self.cwd),
            opt_view(res.repo) == opt_view(self.repo),
            opt_view(res.branch) == opt_view(self.branch),
            res.failed == status_filter(self.failed, self.successful),
            res.since == self.since,
            res.before == self.before,
    {
        SearchFilters {
            cwd: clone_opt(&self.cwd),
            repo: clone_opt(&self.repo),
            branch: clone_opt(&self.branch),
            failed: if self.failed {
                Some(true)
            } else if self.successful {
                Some(false)
            } else {
                None
            },
            since: self.since,
            before: self.before,
        }
    }
}

/// The arguments of `seekr init`.
#[derive(Debug, PartialEq, Eq)]
pub struct InitArgs {
    /// Shell to integrate.
    pub shell: HookShell,
}

/// A shell that Seekr can hook into.
#[derive(Debug, Clone, Copy, PartialEq, Eq, Structural)]
pub enum HookShell {
    Zsh,
    Bash,
}

/// The arguments of `seekr capture`.
#[derive(Debug, PartialEq, Eq)]
pub struct CaptureArgs {
    pub command_text: String,
    pub cwd: String,
    pub executed_at: i64,
    pub exit_code: i64,
    pub shell: Option<String>,
    pub duration_ms: Option<i64>,
    pub hostname: Option<String>,
    pub git_repo: Option<String>,
    pub git_branch: Option<String>,
}

/// The shell code that integrates Seekr with zsh.
pub const ZSH_HOOK: &'static str = r#"# Add this to ~/.zshrc, or run: eval "$(seekr init zsh)"
autoload -Uz add-zsh-hook
zmodload zsh/datetime

typeset -g SEEKR_COMMAND=""
typeset -g SEEKR_STARTED_AT_MS=0
typeset -g SEEKR_EXECUTED_AT=0
typeset -g SEEKR_CWD=""
typeset -g SEEKR_HOSTNAME=""
typeset -g SEEKR_GIT_REPO=""
typeset -g SEEKR_GIT_BRANCH=""

_seekr_select() {
  local result action command_text
  result=$(command seekr) || return
  [[ $result == *$'\n'* ]] || return
  action=${result%%$'\n'*}
  command_text=${result#*$'\n'}
  reply=("$action" "$command_text")
}

_seekr_widget() {
  local -a reply
  local action command_text
  _seekr_select || return
  action=${reply[1]}
  command_text=${reply[2]}
  BUFFER=$command_text
  CURSOR=${#BUFFER}
  [[ $action == rerun ]] && zle accept-line
}

zle -N seekr-history _seekr_widget
bindkey '^R' seekr-history

unalias sk 2>/dev/null
sk() {
  SEEKR_COMMAND=""
  if (( $# )); then
    command seekr "$@"
    return
  fi
  local -a reply
  local action command_text
  _seekr_select || return
  action=${reply[1]}
  command_text=${reply[2]}
  if [[ $action == rerun ]]; then
    _seekr_preexec "$command_text"
    builtin eval -- "$command_text"
  else
    print -rz -- "$command_text"
  fi
}

_seekr_preexec() {
  SEEKR_COMMAND=$1
  SEEKR_CWD=$PWD
  SEEKR_HOSTNAME=$(hostname)
  SEEKR_GIT_REPO=$(git rev-parse --show-toplevel 2>/dev/null) || SEEKR_GIT_REPO=""
  SEEKR_GIT_BRANCH=$(git symbolic-ref --quiet --short HEAD 2>/dev/null) || SEEKR_GIT_BRANCH=""
  printf -v SEEKR_STARTED_AT_MS '%.0f' "$(( EPOCHREALTIME * 1000 ))"
  SEEKR_EXECUTED_AT=$(( SEEKR_STARTED_AT_MS / 1000 ))
}

_seekr_precmd() {
  local exit_code=$?
  local finished_at_ms duration_ms
  local -a args

  [[ -n $SEEKR_COMMAND ]] || return
  printf -v finished_at_ms '%.0f' "$(( EPOCHREALTIME * 1000 ))"
  duration_ms=$(( finished_at_ms - SEEKR_STARTED_AT_MS ))
  args=(
    --command-text "$SEEKR_COMMAND"
    --cwd "$SEEKR_CWD"
    --executed-at "$SEEKR_EXECUTED_AT"
    --exit-code "$exit_code"
    --shell zsh
    --duration-ms "$duration_ms"
    --hostname "$SEEKR_HOSTNAME"
  )
  [[ -n $SEEKR_GIT_REPO ]] && args+=(--git-repo "$SEEKR_GIT_REPO")
  [[ -n $SEEKR_GIT_BRANCH ]] && args+=(--git-branch "$SEEKR_GIT_BRANCH")
  seekr capture "${args[@]}" >/dev/null 2>&1
  SEEKR_COMMAND=""
}

add-zsh-hook preexec _seekr_preexec
add-zsh-hook precmd _seekr_precmd
"#;

/// The shell code that integrates Seekr with bash.
pub const BASH_HOOK: &'static str = r#"# Add this to ~/.bashrc, or run: eval "$(seekr init bash)"
# Bash exposes submitted compound commands through history, not DEBUG. Commands
# excluded by HISTCONTROL/HISTIGNORE fall back to their first simple command.
# Seekr must own the DEBUG trap to snapshot command-start metadata. If another
# integration also needs DEBUG, source Seekr first and let that integration chain it.
SEEKR_COMMAND=""
SEEKR_STARTED_AT_MS=0
SEEKR_EXECUTED_AT=0
SEEKR_CWD=""
SEEKR_HOSTNAME=""
SEEKR_GIT_REPO=""
SEEKR_GIT_BRANCH=""
SEEKR_LAST_HISTORY=""
SEEKR_READY=0

_seekr_readline() {
  local result action command_text
  result=$(command seekr) || return
  [[ $result == *$'\n'* ]] || return
  action=${result%%$'\n'*}
  command_text=${result#*$'\n'}
  if [[ $action == rerun ]]; then
    _seekr_rerun "$command_text"
  else
    READLINE_LINE=$command_text
    READLINE_POINT=${#READLINE_LINE}
  fi
}

bind -x '"\C-r":_seekr_readline'
case "$PROMPT_COMMAND" in
  '_seekr_precmd "$?"') SEEKR_PROMPT_COMMAND=${SEEKR_PROMPT_COMMAND:-} ;;
  *) SEEKR_PROMPT_COMMAND=$PROMPT_COMMAND ;;
esac

_seekr_now_ms() {
  perl -MTime::HiRes=time -e 'printf "%.0f\n", time * 1000'
}

_seekr_preexec() {
  [[ $SEEKR_READY == 1 ]] || return
  _seekr_start "$BASH_COMMAND"
}

_seekr_start() {
  local command=$1

  SEEKR_READY=0
  SEEKR_COMMAND=$command
  SEEKR_CWD=$PWD
  SEEKR_HOSTNAME=$(hostname)
  SEEKR_GIT_REPO=$(git rev-parse --show-toplevel 2>/dev/null) || SEEKR_GIT_REPO=""
  SEEKR_GIT_BRANCH=$(git symbolic-ref --quiet --short HEAD 2>/dev/null) || SEEKR_GIT_BRANCH=""
  SEEKR_STARTED_AT_MS=$(_seekr_now_ms)
  SEEKR_EXECUTED_AT=$(( SEEKR_STARTED_AT_MS / 1000 ))
}

_seekr_capture() {
  local exit_code=$1
  local finished_at_ms duration_ms
  local -a args

  finished_at_ms=$(_seekr_now_ms)
  duration_ms=$(( finished_at_ms - SEEKR_STARTED_AT_MS ))
  args=(
    --command-text "$SEEKR_COMMAND"
    --cwd "$SEEKR_CWD"
    --executed-at "$SEEKR_EXECUTED_AT"
    --exit-code "$exit_code"
    --shell bash
    --duration-ms "$duration_ms"
    --hostname "$SEEKR_HOSTNAME"
  )
  [[ -n $SEEKR_GIT_REPO ]] && args+=(--git-repo "$SEEKR_GIT_REPO")
  [[ -n $SEEKR_GIT_BRANCH ]] && args+=(--git-branch "$SEEKR_GIT_BRANCH")
  seekr capture "${args[@]}" >/dev/null 2>&1
}

_seekr_rerun() {
  local command_text=$1 exit_code

  _seekr_start "$command_text"
  builtin eval -- "$command_text"
  exit_code=$?
  _seekr_capture "$exit_code"
  SEEKR_COMMAND=""
  SEEKR_READY=1
  return "$exit_code"
}

_seekr_precmd() {
  local exit_code=$1
  local history_line
  local HISTTIMEFORMAT=

  trap - DEBUG
  if [[ -n $SEEKR_PROMPT_COMMAND ]]; then
    (exit "$exit_code")
    eval "$SEEKR_PROMPT_COMMAND"
  fi

  if [[ -n $SEEKR_COMMAND ]]; then
    history_line=$(builtin history 1)
    if [[ $history_line != "$SEEKR_LAST_HISTORY" && $history_line =~ ^[[:space:]]*([0-9]+)[[:space:]]+(.*)$ ]]; then
      SEEKR_COMMAND=${BASH_REMATCH[2]}
    fi
    _seekr_capture "$exit_code"
  fi
  SEEKR_COMMAND=""
  SEEKR_LAST_HISTORY=$(builtin history 1)
  SEEKR_READY=1
  trap '_seekr_preexec' DEBUG
}

trap '_seekr_preexec' DEBUG
PROMPT_COMMAND='_seekr_precmd "$?"'
"#;

/// The hook code for a shell.
pub open spec fn hook_text(shell: HookShell) -> Seq<char> {
    match shell {
        HookShell::Zsh => ZSH_HOOK@,
        HookShell::Bash => BASH_HOOK@,
    }
}

/// The hook code for a shell.
pub fn shell_hook(shell: HookShell) -> (res: &'static str)
    ensures
        res@ == hook_text(shell),
{
    match shell {
        HookShell::Zsh => ZSH_HOOK,
        HookShell::Bash => BASH_HOOK,
    }
}

/// What a command line asks the application to do.
#[derive(Debug, PartialEq, Eq)]
pub enum Dispatch {
    /// Open the interactive search.
    Tui,
    /// Run a filtered full-text search and print the collapsed results.
    Search { query: String, filters: SearchFilters, limit: usize },
    /// Show commands of the current directory, else of its repository.
    Here,
    /// Show failed commands.
    Failed,
    /// Import a history file.
    Import { path: String },
    /// Print this text.
    Print(String),
    /// Record one finished command.
    Capture(CaptureArgs),
    /// Print statistics.
    Stats,
}

/// Decides what a parsed command line asks for: the interactive search when
/// there is no subcommand, the hook text for `init`, the search filters for
/// `search`, and the subcommand itself otherwise.
pub fn dispatch(cli: Cli) -> (res: Dispatch)
    ensures
        cli.command is None ==> res is Tui,
        cli.command matches Some(Command::Search(a)) ==> res matches Dispatch::Search {
            query,
            filters,
            limit,
        } && query@ == a.query@ && limit == a.limit && opt_view(filters.cwd) == opt_view(a.cwd)
            && opt_view(filters.repo) == opt_view(a.repo) && opt_view(filters.branch) == opt_view(
            a.branch,
        ) && filters.failed == status_filter(a.failed, a.successful) && filters.since == a.since
            && filters.before == a.before,
        cli.command matches Some(Command::Here) ==> res is Here,
        cli.command matches Some(Command::Failed) ==> res is Failed,
        cli.command matches Some(Command::Import { path }) ==> res matches Dispatch::Import {
            path: p,
        } && p@ == path@,
        cli.command matches Some(Command::Init(a)) ==> res matches Dispatch::Print(t) && t@
            == hook_text(a.shell),
        cli.command matches Some(Command::Capture(a)) ==> res == Dispatch::Capture(a),
        cli.command matches Some(Command::Stats) ==> res is Stats,
{
    match cli.command {
        None => Dispatch::Tui,
        Some(Command::Search(args)) => {
            let filters = args.filters();
            Dispatch::Search { query: args.query, filters, limit: args.limit }
        },
        Some(Command::Here) => Dispatch::Here,
        Some(Command::Failed) => Dispatch::Failed,
        Some(Command::Import { path }) => Dispatch::Import { path },
        Some(Command::Init(args)) => Dispatch::Print(String::from_str(shell_hook(args.shell))),
        Some(Command::Capture(args)) => Dispatch::Capture(args),
        Some(Command::Stats) => Dispatch::Stats,
    }
}

/// The result limit of `here` and `failed`.
pub const CONTEXT_LIMIT: usize = 10;

/// The filters of `here` for a working directory.
pub fn here_filters(cwd: String) -> (res: SearchFilters)
    ensures
        opt_view(res.cwd) == Some(cwd@),
        res.repo is None && res.branch is None && res.failed is None,
        res.since is None && res.before is None,
{
    SearchFilters { cwd: Some(cwd), repo: None, branch: None, failed: None, since: None, before: None }
}

/// What `here` does when the working directory has no commands: search the
/// repository it lies in, when it lies in one.
pub fn here_fallback(found_in_cwd: usize, repo: Option<String>) -> (res: Option<SearchFilters>)
    ensures
        res is Some <==> (found_in_cwd == 0 && repo is Some),
        res matches Some(f) ==> opt_view(f.repo) == opt_view(repo) && f.cwd is None
            && f.branch is None && f.failed is None && f.since is None && f.before is None,
{
    if found_in_cwd == 0 {
        match repo {
            Some(r) => Some(
                SearchFilters {
                    cwd: None,
                    repo: Some(r),
                    branch: None,
                    failed: None,
                    since: None,
                    before: None,
                },
            ),
            None => None,
        }
    } else {
        None
    }
}

/// The filters of `failed`: failed runs only.
pub fn failed_filters() -> (res: SearchFilters)
    ensures
        res.failed == Some(true),
        res.cwd is None && res.repo is None && res.branch is None,
        res.since is None && res.before is None,
{
    SearchFilters { cwd: None, repo: None, branch: None, failed: Some(true), since: None, before: None }
}

} // verus!
