use seekr::cli::{failed_filters, here_fallback, here_filters, CONTEXT_LIMIT};
use seekr::config::{
    default_ignored_commands, join_path, ConfigError, PathEnv, Platform, PrivacyConfig, ResolvedPaths,
    SeekrConfig,
};
use seekr::db::SearchFilters;
use seekr::{
    dispatch, shell_hook, CaptureArgs, Cli, Command, Dispatch, ErrorKind, HookShell, InitArgs,
    SearchArgs,
};

fn assert_capture_fields(output: &str, shell: &str) {
    for field in [
        "seekr capture",
        "--command-text",
        "--cwd",
        "--executed-at",
        "--exit-code",
        "--duration-ms",
        "--hostname",
        "--git-repo",
        "--git-branch",
    ] {
        assert!(output.contains(field), "missing {field}");
    }
    assert!(output.contains(&format!("--shell {shell}")));
}

fn hook_of(shell: HookShell) -> String {
    match dispatch(Cli {
        command: Some(Command::Init(InitArgs { shell })),
    }) {
        Dispatch::Print(text) => text,
        other => panic!("expected hook text, got {other:?}"),
    }
}

#[test]
fn zsh_hook_uses_lifecycle_hooks_and_capture_metadata() {
    let output = hook_of(HookShell::Zsh);
    assert!(output.contains("add-zsh-hook preexec _seekr_preexec"));
    assert!(output.contains("add-zsh-hook precmd _seekr_precmd"));
    assert!(output.contains("zmodload zsh/datetime"));
    assert!(output.contains("SEEKR_CWD=$PWD"));
    assert!(output.contains("EPOCHREALTIME * 1000"));
    assert!(output.contains("bindkey '^R' seekr-history"));
    assert!(output.contains("sk()"));
    assert!(output.contains("print -rz -- \"$command_text\""));
    assert!(output.contains("BUFFER=$command_text"));
    assert!(output.contains("[[ $action == rerun ]] && zle accept-line"));
    assert_capture_fields(&output, "zsh");
    assert!(output.contains("~/.zshrc"));
    assert_eq!(output, shell_hook(HookShell::Zsh));
}

#[test]
fn bash_hook_uses_debug_trap_and_prompt_command() {
    let output = hook_of(HookShell::Bash);
    assert!(output.contains("trap '_seekr_preexec' DEBUG"));
    assert!(output.contains("history_line=$(builtin history 1)"));
    assert!(output.contains("[[ $SEEKR_READY == 1 ]] || return"));
    assert!(output.contains("SEEKR_PROMPT_COMMAND=$PROMPT_COMMAND"));
    assert!(output.contains("PROMPT_COMMAND='_seekr_precmd \"$?\"'"));
    assert!(output.contains("Seekr must own the DEBUG trap"));
    assert!(output.contains("bind -x '\"\\C-r\":_seekr_readline'"));
    assert!(output.contains("READLINE_LINE=$command_text"));
    assert!(output.contains("_seekr_rerun \"$command_text\""));
    assert!(output.contains("_seekr_start \"$command_text\""));
    assert!(output.contains("_seekr_capture \"$exit_code\""));
    assert_capture_fields(&output, "bash");
    assert!(output.contains("~/.bashrc"));
}

#[test]
fn bare_command_line_opens_the_interactive_search() {
    assert_eq!(dispatch(Cli { command: None }), Dispatch::Tui);
}

#[test]
fn search_arguments_become_filters() {
    let out = dispatch(Cli {
        command: Some(Command::Search(SearchArgs {
            query: "docker".to_string(),
            limit: 5,
            cwd: Some("/tmp/app".to_string()),
            successful: true,
            since: Some(10),
            ..SearchArgs::default()
        })),
    });
    assert_eq!(
        out,
        Dispatch::Search {
            query: "docker".to_string(),
            filters: SearchFilters {
                cwd: Some("/tmp/app".to_string()),
                repo: None,
                branch: None,
                failed: Some(false),
                since: Some(10),
                before: None,
            },
            limit: 5,
        }
    );
    let both = SearchArgs {
        failed: true,
        successful: true,
        ..SearchArgs::default()
    };
    assert_eq!(both.filters().failed, Some(true));
    assert_eq!(SearchArgs::default().limit, 10);
}

#[test]
fn other_subcommands_pass_through() {
    assert_eq!(dispatch(Cli { command: Some(Command::Here) }), Dispatch::Here);
    assert_eq!(dispatch(Cli { command: Some(Command::Failed) }), Dispatch::Failed);
    assert_eq!(dispatch(Cli { command: Some(Command::Stats) }), Dispatch::Stats);
    assert_eq!(
        dispatch(Cli {
            command: Some(Command::Import { path: "h".to_string() })
        }),
        Dispatch::Import { path: "h".to_string() }
    );
    let capture = || CaptureArgs {
        command_text: "ls".to_string(),
        cwd: "/".to_string(),
        executed_at: 1,
        exit_code: 0,
        shell: Some("zsh".to_string()),
        duration_ms: None,
        hostname: None,
        git_repo: None,
        git_branch: None,
    };
    assert_eq!(
        dispatch(Cli { command: Some(Command::Capture(capture())) }),
        Dispatch::Capture(capture())
    );
}

#[test]
fn shortcut_filters() {
    let here = here_filters("/work".to_string());
    assert_eq!(here.cwd, Some("/work".to_string()));
    assert_eq!(here.failed, None);
    assert_eq!(here_fallback(3, Some("repo".to_string())), None);
    assert_eq!(here_fallback(0, None), None);
    assert_eq!(
        here_fallback(0, Some("repo".to_string())),
        Some(SearchFilters {
            repo: Some("repo".to_string()),
            ..SearchFilters::default()
        })
    );
    assert_eq!(failed_filters().failed, Some(true));
    assert_eq!(CONTEXT_LIMIT, 10);
}

#[test]
fn environment_overrides_resolve_paths() {
    let env = PathEnv {
        seekr_config_dir: Some("/root/config".to_string()),
        seekr_data_dir: Some("/root/data".to_string()),
        home: Some("/home/u".to_string()),
        ..PathEnv::default()
    };
    let paths = ResolvedPaths::from_env(&env).expect("env overrides should resolve");
    assert_eq!(paths.config_dir, "/root/config");
    assert_eq!(paths.data_dir, "/root/data");
    assert_eq!(paths.config_file(), "/root/config/config.toml");
    assert_eq!(paths.database_file(), "/root/data/seekr.db");
}

#[test]
fn xdg_and_home_fallbacks() {
    let env = PathEnv {
        seekr_config_dir: Some(String::new()),
        xdg_data_home: Some("/xdg/data/".to_string()),
        home: Some("/home/u".to_string()),
        ..PathEnv::default()
    };
    let paths = ResolvedPaths::from_env(&env).expect("home resolves");
    assert_eq!(paths.config_dir, "/home/u/.config/seekr");
    assert_eq!(paths.data_dir, "/xdg/data/seekr");

    let missing = ResolvedPaths::from_env(&PathEnv::default());
    assert_eq!(missing, Err(ConfigError::MissingHome));
    assert_eq!(ConfigError::MissingHome.kind(), ErrorKind::NotFound);
    assert_eq!(join_path("", "a"), "a");
}

#[test]
fn default_config_values() {
    let config = SeekrConfig::default();
    assert!(!config.privacy.redaction_enabled);
    assert_eq!(config.privacy.ignore_commands, vec!["ls", "cd", "pwd", "clear"]);
    assert_eq!(config.shell.preferred_shell, None);
    assert_eq!(PrivacyConfig::default(), config.privacy);
    assert_eq!(default_ignored_commands().len(), 4);
}

#[test]
fn platform_directories() {
    let mac = PathEnv {
        platform: Platform::MacOs,
        home: Some("/Users/u".to_string()),
        xdg_config_home: Some("/ignored".to_string()),
        ..PathEnv::default()
    };
    let paths = ResolvedPaths::from_env(&mac).expect("home is set");
    assert_eq!(paths.config_dir, "/Users/u/Library/Application Support/seekr");
    assert_eq!(paths.data_dir, "/Users/u/Library/Application Support/seekr");

    let windows = PathEnv {
        platform: Platform::Windows,
        appdata: Some("C:\\Users\\u\\AppData\\Roaming".to_string()),
        ..PathEnv::default()
    };
    let paths = ResolvedPaths::from_env(&windows).expect("APPDATA is set");
    assert_eq!(paths.config_dir, "C:\\Users\\u\\AppData\\Roaming\\seekr");
    assert_eq!(paths.data_dir, "C:\\Users\\u\\AppData\\Roaming\\seekr");
    assert_eq!(
        paths.config_file(),
        "C:\\Users\\u\\AppData\\Roaming\\seekr\\config.toml"
    );

    let local = PathEnv {
        localappdata: Some("C:/Local/".to_string()),
        ..windows.clone()
    };
    assert_eq!(
        ResolvedPaths::from_env(&local).expect("set").data_dir,
        "C:/Local/seekr"
    );
    let drive = PathEnv {
        localappdata: Some("D:".to_string()),
        ..windows.clone()
    };
    let paths = ResolvedPaths::from_env(&drive).expect("set");
    assert_eq!(paths.data_dir, "D:seekr");
    assert_eq!(paths.database_file(), "D:seekr\\seekr.db");

    let bare = PathEnv {
        platform: Platform::Windows,
        ..PathEnv::default()
    };
    assert_eq!(ResolvedPaths::from_env(&bare), Err(ConfigError::MissingAppData));
    let data_missing = PathEnv {
        seekr_config_dir: Some("/c".to_string()),
        ..bare
    };
    assert_eq!(
        ResolvedPaths::from_env(&data_missing),
        Err(ConfigError::MissingLocalAppData)
    );
    assert_eq!(
        ConfigError::MissingLocalAppData.message(),
        "required environment variable LOCALAPPDATA is not set"
    );
    assert_eq!(
        ConfigError::MissingHome.message(),
        "required environment variable HOME is not set"
    );
}
