use mgit::authors::{
    add_all_unmapped_authors, add_unseen_identities, collect_all_author_identities, identity_of,
    record_identities, sort_by_name, summarize, AuthorIdentity, RepoOutcome,
};
use mgit::config::{
    default_cmd, default_platform, default_powershell, default_shell, default_type, Config,
    ConfigError, Repository, ShellConfig, TaskStep,
};
use mgit::icons::{files, git, status, use_nerd_fonts};
use mgit::identity::AliasTable;
use mgit::remote::{
    configured_key, extract_hostname, is_ssh_url, validate_ssh_auth, KeyFiles, SshAuthError,
};
use mgit::script::{execute_script, join_command, ScriptType};
use mgit::state::{RepoState, Timestamp};
use mgit::status::{get_branch_status, has_uncommitted_changes, BranchStatus, FileStatus};
use mgit::survey::{get_current_branch, get_repo_state, select_for_display, BranchTip, HeadProbe};
use mgit::tags::{default_branch, is_reserved_tag};
use mgit::tasks::{
    command_display, find_task, header_padding, is_missing_script_error, join_args,
    resolve_script_type, steps_for_platform,
};
use mgit::text::{
    chars_of, comes_before, contains_text, decimal, find_from, same_text, split_on,
    starts_with_text,
};
use mgit::textmap::TextMap;
use mgit::timefmt::format_relative_time;
use mgit::walker::CommitRecord;

fn strings(items: &[&str]) -> Vec<String> {
    items.iter().map(|s| s.to_string()).collect()
}

fn empty_config() -> Config {
    Config {
        repositories: Vec::new(),
        tasks: Vec::new(),
        shells: ShellConfig::default(),
        credentials: TextMap::new(),
        users: AliasTable::new(),
        tags: Vec::new(),
        config_dir: None,
    }
}

#[test]
fn relative_times() {
    assert_eq!(format_relative_time(-5), "just now");
    assert_eq!(format_relative_time(i64::MIN), "just now");
    assert_eq!(format_relative_time(0), "just now");
    assert_eq!(format_relative_time(59), "just now");
    assert_eq!(format_relative_time(60), "1 minute ago");
    assert_eq!(format_relative_time(119), "1 minute ago");
    assert_eq!(format_relative_time(120), "2 minutes ago");
    assert_eq!(format_relative_time(3599), "59 minutes ago");
    assert_eq!(format_relative_time(3600), "1 hour ago");
    assert_eq!(format_relative_time(7200), "2 hours ago");
    assert_eq!(format_relative_time(86_399), "23 hours ago");
    assert_eq!(format_relative_time(86_400), "1 day ago");
    assert_eq!(format_relative_time(6 * 86_400 + 86_399), "6 days ago");
    assert_eq!(format_relative_time(7 * 86_400), "1 week ago");
    assert_eq!(format_relative_time(14 * 86_400), "2 weeks ago");
    assert_eq!(format_relative_time(59 * 86_400), "8 weeks ago");
    assert_eq!(format_relative_time(60 * 86_400), "2 months ago");
    assert_eq!(format_relative_time(364 * 86_400), "12 months ago");
    assert_eq!(format_relative_time(365 * 86_400), "1 year ago");
    assert_eq!(format_relative_time(730 * 86_400), "2 years ago");
    assert_eq!(format_relative_time(i64::MAX), "292471208677 years ago");
}

#[test]
fn decimal_numbers() {
    assert_eq!(decimal(0), "0");
    assert_eq!(decimal(7), "7");
    assert_eq!(decimal(10), "10");
    assert_eq!(decimal(1_234_567_890), "1234567890");
    assert_eq!(decimal(u64::MAX), "18446744073709551615");
}

#[test]
fn branch_status_rules() {
    assert_eq!(get_branch_status(true, 0, 5), BranchStatus::NeedsPush);
    assert_eq!(get_branch_status(false, 3, 5), BranchStatus::NeedsPull);
    assert_eq!(get_branch_status(false, 3, 0), BranchStatus::NeedsPush);
    assert_eq!(get_branch_status(false, 0, 0), BranchStatus::Synced);
}

#[test]
fn untracked_files_are_no_uncommitted_changes() {
    let clean = FileStatus {
        index_new: false,
        index_modified: false,
        index_deleted: false,
        index_renamed: false,
        index_typechange: false,
        wt_new: false,
        wt_modified: false,
        wt_deleted: false,
        wt_renamed: false,
        wt_typechange: false,
    };
    let untracked = FileStatus { wt_new: true, ..clean };
    assert!(!has_uncommitted_changes(&vec![]));
    assert!(!has_uncommitted_changes(&vec![clean, untracked]));
    assert!(has_uncommitted_changes(&vec![clean, FileStatus { index_new: true, ..clean }]));
    assert!(has_uncommitted_changes(&vec![FileStatus { index_modified: true, ..clean }]));
    assert!(has_uncommitted_changes(&vec![FileStatus { index_deleted: true, ..clean }]));
    assert!(has_uncommitted_changes(&vec![FileStatus { index_renamed: true, ..clean }]));
    assert!(has_uncommitted_changes(&vec![FileStatus { index_typechange: true, ..clean }]));
    assert!(has_uncommitted_changes(&vec![FileStatus { wt_modified: true, ..clean }]));
    assert!(has_uncommitted_changes(&vec![FileStatus { wt_deleted: true, ..clean }]));
    assert!(has_uncommitted_changes(&vec![FileStatus { wt_renamed: true, ..clean }]));
    assert!(has_uncommitted_changes(&vec![untracked, FileStatus { wt_typechange: true, ..clean }]));
}

#[test]
fn script_kinds() {
    assert_eq!(ScriptType::from_extension("sh"), ScriptType::Shell);
    assert_eq!(ScriptType::from_extension("BAT"), ScriptType::Batch);
    assert_eq!(ScriptType::from_extension("Cmd"), ScriptType::Batch);
    assert_eq!(ScriptType::from_extension("ps1"), ScriptType::PowerShell);
    assert_eq!(ScriptType::from_extension("EXE"), ScriptType::Executable);
    assert_eq!(ScriptType::from_extension("py"), ScriptType::Shell);
    assert_eq!(ScriptType::from_extension(""), ScriptType::Shell);
    assert_eq!(ScriptType::from_path("build.sh"), ScriptType::Shell);
    assert_eq!(ScriptType::from_path("dir/run.PS1"), ScriptType::PowerShell);
    assert_eq!(ScriptType::from_path("tool.exe"), ScriptType::Executable);
    assert_eq!(ScriptType::from_path("make"), ScriptType::Executable);
    assert_eq!(ScriptType::from_path(".hidden"), ScriptType::Executable);
    assert_eq!(ScriptType::from_path("notes.txt"), ScriptType::Shell);
    assert_eq!(ScriptType::from_optional_extension(&None), ScriptType::Executable);
    assert_eq!(ScriptType::from_step_type("cmd"), Some(ScriptType::Batch));
    assert_eq!(ScriptType::from_step_type("CMD"), None);
    assert_eq!(resolve_script_type("exe", "x.sh"), ScriptType::Executable);
    assert_eq!(resolve_script_type("", "x.bat"), ScriptType::Batch);
    assert_eq!(resolve_script_type("weird", "x"), ScriptType::Executable);
}

#[test]
fn command_lines() {
    let shells = ShellConfig {
        sh: "bash".to_string(),
        cmd: "cmd".to_string(),
        powershell: "pwsh".to_string(),
    };
    let args = strings(&["a", "b c"]);
    let line = execute_script(ScriptType::Shell, "run.sh", &args, true, &shells);
    assert_eq!(line.program, "bash");
    assert_eq!(line.args, strings(&["run.sh", "a", "b c"]));
    let line = execute_script(ScriptType::Shell, "echo", &args, false, &shells);
    assert_eq!(line.args, strings(&["-c", "echo a b c"]));
    let line = execute_script(ScriptType::Batch, "run.bat", &args, true, &shells);
    assert_eq!(line.program, "cmd");
    assert_eq!(line.args, strings(&["/C", ".\\run.bat", "a", "b c"]));
    let line = execute_script(ScriptType::Batch, "dir", &args, false, &shells);
    assert_eq!(line.args, strings(&["/C", "dir a b c"]));
    let line = execute_script(ScriptType::PowerShell, "run.ps1", &args, true, &shells);
    assert_eq!(line.program, "pwsh");
    assert_eq!(
        line.args,
        strings(&["-ExecutionPolicy", "Bypass", "-File", ".\\run.ps1", "a", "b c"])
    );
    let line = execute_script(ScriptType::PowerShell, "Get-Item", &vec![], false, &shells);
    assert_eq!(line.args, strings(&["-ExecutionPolicy", "Bypass", "-Command", "Get-Item"]));
    let line = execute_script(ScriptType::Executable, "./tool", &args, false, &shells);
    assert_eq!(line.program, "./tool");
    assert_eq!(line.args, args);
    assert_eq!(join_command("x", &vec![]), "x");
    assert_eq!(join_command("x", &strings(&["", "y"])), "x  y");
}

#[test]
fn shown_commands() {
    assert_eq!(command_display("make", &vec![]), "make");
    assert_eq!(command_display("make", &strings(&[""])), "make");
    assert_eq!(command_display("make", &strings(&["all"])), "make all");
    assert_eq!(command_display("make", &strings(&["-j", "4"])), "make -j 4");
    assert_eq!(command_display("make", &strings(&["", ""])), "make  ");
    assert_eq!(join_args(&strings(&["a", "", "b"])), "a  b");
    assert_eq!(header_padding(80, 10), 70);
    assert_eq!(header_padding(80, 80), 0);
    assert_eq!(header_padding(80, 200), 0);
    assert!(is_missing_script_error("sh: not found"));
    assert!(is_missing_script_error("The system cannot find the file"));
    assert!(!is_missing_script_error("permission denied"));
}

#[test]
fn defaults() {
    assert_eq!(default_shell(), "sh");
    assert_eq!(default_cmd(), "cmd");
    assert_eq!(default_powershell(), "powershell");
    assert_eq!(default_type(), "");
    assert_eq!(default_platform(), "all");
    let shells = ShellConfig::default();
    assert_eq!((shells.sh.as_str(), shells.cmd.as_str(), shells.powershell.as_str()), ("sh", "cmd", "powershell"));
}

#[test]
fn steps_run_on_their_platforms() {
    let step = |platform: &str| TaskStep {
        step_type: String::new(),
        repo: "r".to_string(),
        cmd: "c".to_string(),
        args: Vec::new(),
        platform: platform.to_string(),
    };
    assert!(step("all").should_run_on_current_platform("linux"));
    assert!(step("linux").should_run_on_current_platform("linux"));
    assert!(step("windows, linux").should_run_on_current_platform("linux"));
    assert!(step("windows,all").should_run_on_current_platform("linux"));
    assert!(step(" all ").should_run_on_current_platform("linux"));
    assert!(!step("windows,macos").should_run_on_current_platform("linux"));
    assert!(!step("Linux").should_run_on_current_platform("linux"));
    assert!(!step("").should_run_on_current_platform("linux"));
    let steps = vec![step("windows"), step("linux"), step("all"), step("macos,linux")];
    let selected = steps_for_platform(&steps, "linux");
    let platforms: Vec<&str> = selected.iter().map(|s| s.platform.as_str()).collect();
    assert_eq!(platforms, vec!["linux", "all", "macos,linux"]);
    assert_eq!(split_on("a,,b,", ','), strings(&["a", "", "b", ""]));
    assert_eq!(split_on("", ','), strings(&[""]));
}

#[test]
fn tasks_are_found_by_exact_name() {
    let mut config = empty_config();
    for name in ["build", "test", "build"] {
        config.tasks.push(mgit::config::Task { name: name.to_string(), steps: Vec::new() });
    }
    assert_eq!(find_task(&config.tasks, "build"), Some(0));
    assert_eq!(find_task(&config.tasks, "test"), Some(1));
    assert_eq!(find_task(&config.tasks, "Build"), None);
}

#[test]
fn paths_without_config_directory() {
    let mut config = empty_config();
    assert_eq!(config.resolve_repo_path("repo"), "repo");
    assert_eq!(config.get_db_path(), ".mgitdb");
    config.config_dir = Some("/base".to_string());
    assert_eq!(
        std::path::PathBuf::from(config.resolve_repo_path("repo")),
        std::path::Path::new("/base").join("repo")
    );
    assert_eq!(
        std::path::PathBuf::from(config.get_db_path()),
        std::path::Path::new("/base").join(".mgitdb")
    );
}

#[test]
fn global_configuration_fills_in() {
    let mut local = empty_config();
    local.repositories.push(Repository { name: "r".to_string(), url: "u".to_string() });
    local.shells.cmd = "mycmd".to_string();
    local.credentials.insert("github.com".to_string(), "~/.ssh/local".to_string());
    local.users.insert("Ann".to_string(), strings(&["a"]));
    let mut global = empty_config();
    global.shells.sh = "bash".to_string();
    global.shells.cmd = "othercmd".to_string();
    global.credentials.insert("github.com".to_string(), "~/.ssh/global".to_string());
    global.credentials.insert("gitlab.com".to_string(), "~/.ssh/gl".to_string());
    global.users.insert("Ann".to_string(), strings(&["b"]));
    global.users.insert("Bob".to_string(), strings(&["c"]));

    let merged = Config::load("cfg.yaml", Some(local.clone()), Some(global.clone())).unwrap();
    assert_eq!(merged.repositories.len(), 1);
    assert_eq!(merged.shells.sh, "bash");
    assert_eq!(merged.shells.cmd, "mycmd");
    assert_eq!(merged.shells.powershell, "powershell");
    assert_eq!(merged.credentials.get("github.com"), Some(&"~/.ssh/local".to_string()));
    assert_eq!(merged.credentials.get("gitlab.com"), Some(&"~/.ssh/gl".to_string()));
    assert_eq!(merged.credentials.len(), 2);
    assert_eq!(merged.users.len(), 2);
    assert_eq!(merged.users.entry(0).aliases, strings(&["a"]));
    assert_eq!(merged.users.entry(1).canonical, "Bob");

    let alone = Config::load("cfg.yaml", Some(local.clone()), None).unwrap();
    assert_eq!(alone.shells.sh, "sh");
    assert_eq!(alone.credentials.len(), 1);
    let same = Config::load_from_project(Some(local), Some(global)).unwrap();
    assert_eq!(same.shells.sh, "bash");
}

#[test]
fn missing_configuration_is_an_error() {
    let err = Config::load("dir/cfg.yaml", None, Some(empty_config())).unwrap_err();
    assert_eq!(err.message(), "Configuration file 'dir/cfg.yaml' not found");
    assert!(matches!(err, ConfigError::NotFound { .. }));
    let err = Config::load_from_project(None, None).unwrap_err();
    assert_eq!(
        err.message(),
        "No .mgitconfig.yaml found in current directory or parent directories.\nRun 'mgit init' to create one."
    );
}

#[test]
fn hosts_of_remote_urls() {
    let host = |url: &str| extract_hostname(url);
    assert_eq!(host("git@github.com:org/repo.git"), Some("github.com".to_string()));
    assert_eq!(host("ssh://git@host.org/repo"), Some("git@host.org".to_string()));
    assert_eq!(host("ssh://host.org:22/repo"), Some("host.org".to_string()));
    assert_eq!(host("git@host/only/slash"), Some("host".to_string()));
    assert_eq!(host("git@nothing"), None);
    assert_eq!(host("https://github.com/org/repo"), Some("github.com".to_string()));
    assert_eq!(host("http://a.b/c"), Some("a.b".to_string()));
    assert_eq!(host("https://github.com"), None);
    assert_eq!(host("https://user:pw@h.org/x"), Some("user:pw@h.org".to_string()));
    assert_eq!(host("ftp://x/y"), None);
    assert_eq!(host(""), None);
    assert!(is_ssh_url("git@x"));
    assert!(is_ssh_url("ssh://x"));
    assert!(!is_ssh_url("https://x"));
}

#[test]
fn ssh_authentication_checks() {
    let mut credentials = TextMap::new();
    credentials.insert("github.com".to_string(), "~/.ssh/id_github".to_string());
    let both = KeyFiles { private_exists: true, public_exists: true };
    let none = KeyFiles { private_exists: false, public_exists: false };
    let url = "git@github.com:org/repo.git";
    assert!(validate_ssh_auth("https://github.com/x", &credentials, false, none).is_ok());
    assert!(validate_ssh_auth(url, &credentials, true, none).is_ok());
    assert!(validate_ssh_auth(url, &credentials, false, both).is_ok());
    match validate_ssh_auth(
        url,
        &credentials,
        false,
        KeyFiles { private_exists: true, public_exists: false },
    ) {
        Err(SshAuthError::KeysMissing { host, key_path, private_missing, public_missing }) => {
            assert_eq!(host, "github.com");
            assert_eq!(key_path, "~/.ssh/id_github");
            assert!(!private_missing);
            assert!(public_missing);
        },
        other => panic!("unexpected {:?}", other),
    }
    match validate_ssh_auth("git@gitlab.com:x", &credentials, false, both) {
        Err(SshAuthError::NotConfigured { host }) => assert_eq!(host, Some("gitlab.com".to_string())),
        other => panic!("unexpected {:?}", other),
    }
    match validate_ssh_auth("git@nohost", &credentials, false, both) {
        Err(SshAuthError::NotConfigured { host }) => assert_eq!(host, None),
        other => panic!("unexpected {:?}", other),
    }
    assert_eq!(configured_key(url, &credentials), Some("~/.ssh/id_github".to_string()));
    assert_eq!(configured_key("git@other:x", &credentials), None);
}

#[test]
fn reserved_tags_and_default_branches() {
    assert!(is_reserved_tag("master"));
    assert!(is_reserved_tag("main"));
    assert!(!is_reserved_tag("release"));
    assert_eq!(default_branch(true, true, &None), "main");
    assert_eq!(default_branch(false, true, &Some("refs/remotes/origin/main".to_string())), "master");
    assert_eq!(default_branch(false, false, &Some("refs/remotes/origin/main".to_string())), "main");
    assert_eq!(default_branch(false, false, &Some("refs/remotes/origin/dev".to_string())), "master");
    assert_eq!(default_branch(false, false, &None), "master");
}

#[test]
fn tags_are_saved_and_found() {
    let mut config = empty_config();
    let mut branches = TextMap::new();
    branches.insert("frontend".to_string(), "release/1.0".to_string());
    config.save_tag("r1".to_string(), branches.clone());
    config.save_tag("r2".to_string(), TextMap::new());
    assert_eq!(config.find_tag("r1"), Some(0));
    assert_eq!(config.find_tag("r2"), Some(1));
    assert_eq!(config.find_tag("r3"), None);
    config.save_tag("r1".to_string(), TextMap::new());
    assert_eq!(config.tags.len(), 2);
    assert!(config.tags[0].branches.is_empty());
    assert_eq!(branches.get("frontend"), Some(&"release/1.0".to_string()));
    assert!(branches.contains_key("frontend"));
    assert!(!branches.contains_key("Frontend"));
    branches.insert_if_absent("frontend".to_string(), "x".to_string());
    assert_eq!(branches.entry(0).value, "release/1.0");
}

#[test]
fn current_branch_from_head() {
    let on = |reference: Option<&str>, shorthand: Option<&str>| HeadProbe::OnBranch {
        reference: reference.map(|s| s.to_string()),
        shorthand: shorthand.map(|s| s.to_string()),
    };
    assert_eq!(get_current_branch(&HeadProbe::Missing), "(no branch)");
    assert_eq!(get_current_branch(&HeadProbe::Detached), "(detached)");
    assert_eq!(get_current_branch(&on(Some("refs/heads/feature/x"), Some("x"))), "feature/x");
    assert_eq!(get_current_branch(&on(Some("refs/heads/"), Some("x"))), "");
    assert_eq!(get_current_branch(&on(Some("refs/other/y"), Some("short"))), "short");
    assert_eq!(get_current_branch(&on(None, Some("short"))), "short");
    assert_eq!(get_current_branch(&on(None, None)), "(unknown)");
}

#[test]
fn state_from_tips() {
    let mut aliases = AliasTable::new();
    aliases.insert("Me Myself".to_string(), strings(&["me"]));
    let now = Timestamp { secs: 99, nanos: 5 };
    let tips = vec![
        BranchTip { name: Some("old".to_string()), seconds: 10 },
        BranchTip { name: None, seconds: 30 },
        BranchTip { name: Some("far".to_string()), seconds: i64::MIN },
    ];
    let state = get_repo_state("repo", "old".to_string(), &tips, &Some("ME".to_string()), now, &aliases);
    let names: Vec<&str> = state.branches.iter().map(|b| b.name.as_str()).collect();
    assert_eq!(names, vec!["far", "(invalid utf8)", "old"]);
    assert_eq!(state.branches[0].last_updated, now);
    assert_eq!(state.last_updated, now);
    for b in &state.branches {
        assert_eq!(b.owner, "Me Myself");
        assert!(b.commit_stats.is_empty());
        assert_eq!(b.last_commit_sha, None);
    }
    let state = get_repo_state("repo", "x".to_string(), &vec![], &None, now, &aliases);
    assert_eq!(state.last_updated, now);
}

#[test]
fn states_for_display() {
    let branch = |name: &str| mgit::state::BranchInfo {
        name: name.to_string(),
        owner: String::new(),
        last_updated: Timestamp { secs: 0, nanos: 0 },
        commit_stats: Vec::new(),
        last_commit_sha: None,
    };
    let state = |name: &str, secs: i64, current: &str| RepoState {
        name: name.to_string(),
        current_branch: current.to_string(),
        last_updated: Timestamp { secs, nanos: 0 },
        branches: vec![branch("main"), branch("feat")],
    };
    let states = vec![state("a", 1, "feat"), state("b", 3, "gone"), state("c", 1, "main")];
    let shown = select_for_display(&states, false);
    let names: Vec<&str> = shown.iter().map(|s| s.name.as_str()).collect();
    assert_eq!(names, vec!["b", "a", "c"]);
    assert!(shown[0].branches.is_empty());
    assert_eq!(shown[1].branches.len(), 1);
    assert_eq!(shown[1].branches[0].name, "feat");
    assert_eq!(shown[2].branches[0].name, "main");
    let shown = select_for_display(&states, true);
    assert_eq!(shown[0].branches.len(), 2);
}

#[test]
fn nerd_font_switch() {
    let one = Some("1".to_string());
    assert!(use_nerd_fonts(&one, &None));
    assert!(use_nerd_fonts(&None, &one));
    assert!(!use_nerd_fonts(&None, &None));
    assert!(!use_nerd_fonts(&Some("true".to_string()), &Some("".to_string())));
}

#[test]
fn icons_are_single_glyphs_with_nerd_fonts() {
    assert_eq!(git::branch(true), "\u{e0a0}");
    assert_eq!(git::commit(true), "\u{e729}");
    assert_eq!(git::repo(true), "\u{f09b}");
    assert_eq!(git::modified(true), "\u{e727}");
    assert_eq!(git::owner(true), "\u{f007}");
    assert_eq!(status::success(true), "\u{f058}");
    assert_eq!(status::error(true), "\u{f057}");
    assert_eq!(status::warning(true), "\u{f071}");
    assert_eq!(status::waiting(true), "\u{f017}");
    assert_eq!(status::running(true), "\u{f013}");
    assert_eq!(status::info(true), "\u{f017}");
    assert_eq!(files::folder(true), "\u{f07b}");
    assert_eq!(files::file(true), "\u{f016}");
    assert_eq!(files::script(true), "\u{f010a}");
    for plain in [
        git::branch(false),
        git::commit(false),
        git::repo(false),
        git::modified(false),
        git::owner(false),
        status::success(false),
        status::error(false),
        status::warning(false),
        status::waiting(false),
        status::running(false),
        status::info(false),
        files::folder(false),
        files::file(false),
        files::script(false),
    ] {
        assert!(!plain.is_empty());
        assert!(plain.chars().all(|c| !('\u{e000}'..='\u{f8ff}').contains(&c)));
    }
}

#[test]
fn identities_are_unique_up_to_case() {
    let commit = |name: Option<&str>, email: Option<&str>| CommitRecord {
        sha: "s".to_string(),
        author_name: name.map(|s| s.to_string()),
        author_email: email.map(|s| s.to_string()),
        seconds: 0,
    };
    let commits = vec![
        commit(Some("Zoe"), Some("zoe@x")),
        commit(Some("ZOE"), Some("ZOE@X")),
        commit(Some("Zoe"), Some("other@x")),
        commit(Some("Adam"), Some("")),
        commit(None, Some("who@x")),
        commit(Some(""), Some("e@x")),
        commit(Some("Adam"), None),
        commit(Some("adam"), Some("adam@x")),
    ];
    let found = collect_all_author_identities(&commits);
    let pairs: Vec<(&str, &str)> = found.iter().map(|i| (i.name.as_str(), i.email.as_str())).collect();
    assert_eq!(
        pairs,
        vec![("Zoe", "zoe@x"), ("Zoe", "other@x"), ("Unknown", "who@x"), ("adam", "adam@x")]
    );
    assert!(identity_of(&commits[3]).is_none());
    assert!(
        AuthorIdentity { name: "A".to_string(), email: "B".to_string() }
            == AuthorIdentity { name: "a".to_string(), email: "b".to_string() }
    );
    let sorted = sort_by_name(&found);
    let names: Vec<&str> = sorted.iter().map(|i| i.email.as_str()).collect();
    assert_eq!(names, vec!["who@x", "zoe@x", "other@x", "adam@x"]);
}

#[test]
fn identities_of_several_repositories_are_gathered_once() {
    let id = |n: &str, e: &str| AuthorIdentity { name: n.to_string(), email: e.to_string() };
    let mut seen = vec![id("Al", "al@x")];
    add_unseen_identities(&mut seen, vec![id("AL", "AL@X"), id("Bo", "bo@x"), id("bo", "BO@x")]);
    add_unseen_identities(&mut seen, vec![]);
    let pairs: Vec<(&str, &str)> = seen.iter().map(|i| (i.name.as_str(), i.email.as_str())).collect();
    assert_eq!(pairs, vec![("Al", "al@x"), ("Bo", "bo@x")]);
}

#[test]
fn identities_are_recorded_in_name_order() {
    let id = |n: &str, e: &str| AuthorIdentity { name: n.to_string(), email: e.to_string() };
    let found = vec![id("bob", "shared@x"), id("Al", "shared@x"), id("Al", "al@x")];
    let mut table = AliasTable::new();
    assert_eq!(add_all_unmapped_authors(&mut table, &found), 3);
    assert_eq!(table.len(), 1);
    assert_eq!(table.entry(0).canonical, "Al");
    assert_eq!(table.entry(0).aliases, strings(&["shared@x", "al@x", "bob"]));
    assert_eq!(add_all_unmapped_authors(&mut table, &found), 0);
    let mut in_order = AliasTable::new();
    assert_eq!(record_identities(&mut in_order, &found), 3);
    assert_eq!(in_order.entry(0).canonical, "bob");
}

#[test]
fn reports_count_outcomes() {
    let outcomes = vec![
        RepoOutcome::NotFound,
        RepoOutcome::Refreshed { repaired: true },
        RepoOutcome::Refreshed { repaired: false },
        RepoOutcome::Failed { repaired: true },
        RepoOutcome::Failed { repaired: false },
        RepoOutcome::Refreshed { repaired: false },
    ];
    let report = summarize(&outcomes);
    assert_eq!(report.success_count, 3);
    assert_eq!(report.error_count, 3);
    assert_eq!(report.repair_count, 2);
    let report = summarize(&vec![]);
    assert_eq!((report.success_count, report.error_count, report.repair_count), (0, 0, 0));
}

#[test]
fn text_helpers() {
    assert!(same_text("a", "a"));
    assert!(!same_text("a", "A"));
    let hay = chars_of("abcabc");
    assert_eq!(find_from(&hay, &chars_of("bc"), 0), Some(1));
    assert_eq!(find_from(&hay, &chars_of("bc"), 2), Some(4));
    assert_eq!(find_from(&hay, &chars_of("bc"), 5), None);
    assert_eq!(find_from(&hay, &chars_of(""), 6), Some(6));
    assert_eq!(find_from(&hay, &chars_of(""), 7), None);
    assert!(contains_text(&hay, &chars_of("ca")));
    assert!(!contains_text(&hay, &chars_of("cc")));
    assert!(starts_with_text(&hay, &chars_of("abc")));
    assert!(!starts_with_text(&hay, &chars_of("bc")));
    assert!(!starts_with_text(&chars_of("ab"), &hay));
    for (a, b) in [("", ""), ("", "a"), ("a", ""), ("a", "b"), ("ab", "a"), ("a", "ab"), ("Z", "a"), ("é", "z"), ("abc", "abd")] {
        assert_eq!(comes_before(&chars_of(a), &chars_of(b)), a < b, "{:?} {:?}", a, b);
    }
}
