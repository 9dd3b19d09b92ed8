//! The configuration of a project: its repositories, tasks, shells,
//! credentials, user aliases and saved tags.

use crate::identity::{
    author_mapped, normalized, recording_adds, table_after_recording, with_entry_if_absent,
    AliasTable,
};
use crate::text::{copy_texts, same_text, split_on, pieces_of, texts_of, trimmed, trimmed_of};
use crate::textmap::{with_default, TextMap};
use vstd::prelude::*;
use vstd::string::StringExecFns;

verus! {

/// A repository of the project.
#[derive(Debug, Clone)]
pub struct Repository {
    pub name: String,
    pub url: String,
}

/// One step of a task.
#[derive(Debug, Clone)]
pub struct TaskStep {
    /// The kind of script; empty where the command's extension decides.
    pub step_type: String,
    pub repo: String,
    pub cmd: String,
    pub args: Vec<String>,
    /// The platforms on which the step runs, separated by commas; `"all"`
    /// for every platform.
    pub platform: String,
}

/// A named list of steps.
#[derive(Debug, Clone)]
pub struct Task {
    pub name: String,
    pub steps: Vec<TaskStep>,
}

/// The programs that run scripts.
#[derive(Debug, Clone)]
pub struct ShellConfig {
    /// Runs `.sh` scripts.
    pub sh: String,
    /// Runs `.bat` and `.cmd` scripts.
    pub cmd: String,
    /// Runs `.ps1` scripts.
    pub powershell: String,
}

/// The branches saved under a tag, one per repository name.
#[derive(Debug, Clone)]
pub struct SavedTag {
    pub name: String,
    pub branches: TextMap,
}

/// The configuration of a project.
#[derive(Debug, Clone)]
pub struct Config {
    pub repositories: Vec<Repository>,
    pub tasks: Vec<Task>,
    pub shells: ShellConfig,
    /// Private key paths by host name.
    pub credentials: TextMap,
    /// Canonical user names with their aliases.
    pub users: AliasTable,
    pub tags: Vec<SavedTag>,
    /// The directory of the file that the configuration was read from.
    pub config_dir: Option<String>,
}

/// Why no configuration was loaded.
#[derive(Debug, Clone)]
pub enum ConfigError {
    /// No project configuration stands in the current directory or above.
    NoProjectConfig,
    /// The named configuration file does not exist.
    NotFound { path: String },
}

/// The default shell program.
pub fn default_shell() -> (program: String)
    ensures
        program@ == "sh"@,
{
    "sh".to_owned()
}

/// The default command prompt program.
pub fn default_cmd() -> (program: String)
    ensures
        program@ == "cmd"@,
{
    "cmd".to_owned()
}

/// The default PowerShell program.
pub fn default_powershell() -> (program: String)
    ensures
        program@ == "powershell"@,
{
    "powershell".to_owned()
}

/// The default kind of a step: empty, so that the command's extension
/// decides.
pub fn default_type() -> (kind: String)
    ensures
        kind@ == Seq::<char>::empty(),
{
    String::new()
}

/// The default platform of a step: every platform.
pub fn default_platform() -> (platform: String)
    ensures
        platform@ == "all"@,
{
    "all".to_owned()
}

impl Default for ShellConfig {
    fn default() -> (shells: ShellConfig)
        ensures
            shells.sh@ == "sh"@,
            shells.cmd@ == "cmd"@,
            shells.powershell@ == "powershell"@,
    {
        ShellConfig { sh: default_shell(), cmd: default_cmd(), powershell: default_powershell() }
    }
}

/// Calls `std::path::Path::join` on a directory and a name. Trusted: nothing
/// is claimed of the result, which is written with the separator of the
/// platform.
#[verifier::external_body]
pub(crate) fn join_path(dir: &str, name: &str) -> (path: String) {
    std::path::Path::new(dir).join(name).to_string_lossy().into_owned()
}

/// The program that a local setting and a global one give: the global one
/// where the local one is the default and the global one is not.
pub open spec fn merged_program(local: Seq<char>, global: Seq<char>, default: Seq<char>) -> Seq<char> {
    if local == default && global != default {
        global
    } else {
        local
    }
}

/// The local pairs, and behind them the global pairs whose keys the local
/// ones do not hold.
pub open spec fn merged_pairs(
    local: Seq<(Seq<char>, Seq<char>)>,
    global: Seq<(Seq<char>, Seq<char>)>,
) -> Seq<(Seq<char>, Seq<char>)>
    decreases global.len(),
{
    if global.len() == 0 {
        local
    } else {
        with_default(merged_pairs(local, global.drop_last()), global.last().0, global.last().1)
    }
}

/// The local alias table, and behind it the global entries whose canonical
/// names the local table does not hold.
pub open spec fn merged_users(
    local: Seq<(Seq<char>, Seq<Seq<char>>)>,
    global: Seq<(Seq<char>, Seq<Seq<char>>)>,
) -> Seq<(Seq<char>, Seq<Seq<char>>)>
    decreases global.len(),
{
    if global.len() == 0 {
        local
    } else {
        with_entry_if_absent(
            merged_users(local, global.drop_last()),
            global.last().0,
            global.last().1,
        )
    }
}

/// Picks between a local program and a global one.
fn merge_program(local: String, global: &String, default: &str) -> (program: String)
    ensures
        program@ == merged_program(local@, global@, default@),
{
    if same_text(local.as_str(), default) && !same_text(global.as_str(), default) {
        global.clone()
    } else {
        local
    }
}

/// Adds to `local` the pairs of `global` whose keys it does not hold.
fn merge_pairs(local: &mut TextMap, global: &TextMap)
    requires
        old(local).wf(),
    ensures
        final(local).wf(),
        final(local)@ == merged_pairs(old(local)@, global@),
{
    let ghost start = local@;
    let mut i: usize = 0;
    proof {
        assert(global@.take(0) =~= Seq::<(Seq<char>, Seq<char>)>::empty());
    }
    while i < global.len()
        invariant
            i <= global@.len(),
            local.wf(),
            local@ == merged_pairs(start, global@.take(i as int)),
        decreases global@.len() - i,
    {
        let entry = global.entry(i);
        proof {
            let next = global@.take(i + 1);
            assert(next.drop_last() =~= global@.take(i as int));
            assert(next.last() == global@[i as int]);
        }
        local.insert_if_absent(entry.key.clone(), entry.value.clone());
        i = i + 1;
    }
    proof {
        assert(global@.take(i as int) =~= global@);
    }
}

/// Adds to `local` the entries of `global` whose canonical names it does
/// not hold.
fn merge_users(local: &mut AliasTable, global: &AliasTable)
    requires
        old(local).wf(),
    ensures
        final(local).wf(),
        final(local)@ == merged_users(old(local)@, global@),
{
    let ghost start = local@;
    let mut i: usize = 0;
    proof {
        assert(global@.take(0) =~= Seq::<(Seq<char>, Seq<Seq<char>>)>::empty());
    }
    while i < global.len()
        invariant
            i <= global@.len(),
            local.wf(),
            local@ == merged_users(start, global@.take(i as int)),
        decreases global@.len() - i,
    {
        let entry = global.entry(i);
        proof {
            let next = global@.take(i + 1);
            assert(next.drop_last() =~= global@.take(i as int));
            assert(next.last() == global@[i as int]);
        }
        local.insert_if_absent(entry.canonical.clone(), copy_texts(&entry.aliases));
        i = i + 1;
    }
    proof {
        assert(global@.take(i as int) =~= global@);
    }
}

/// Some piece, without its surrounding whitespace, is the platform or
/// `"all"`.
pub open spec fn names_platform(pieces: Seq<Seq<char>>, platform: Seq<char>) -> bool {
    exists|i: int|
        0 <= i < pieces.len() && (trimmed_of(#[trigger] pieces[i]) == platform || trimmed_of(
            pieces[i],
        ) == "all"@)
}

/// A step with this platform setting runs on the given platform: the
/// setting is `"all"`, or one of its parts between commas names the
/// platform or `"all"`.
pub open spec fn runs_on(setting: Seq<char>, platform: Seq<char>) -> bool {
    setting == "all"@ || names_platform(pieces_of(setting, ','), platform)
}

impl TaskStep {
    /// Whether this step runs on the platform that the program runs on.
    pub fn should_run_on_current_platform(&self, current_platform: &str) -> (runs: bool)
        ensures
            runs == runs_on(self.platform@, current_platform@),
    {
        if same_text(self.platform.as_str(), "all") {
            return true;
        }
        let pieces = split_on(self.platform.as_str(), ',');
        let ghost all = texts_of(pieces@);
        let mut i: usize = 0;
        while i < pieces.len()
            invariant
                i <= pieces.len(),
                all == texts_of(pieces@),
                all == pieces_of(self.platform@, ','),
                forall|j: int|
                    0 <= j < i ==> trimmed_of(#[trigger] all[j]) != current_platform@
                        && trimmed_of(all[j]) != "all"@,
            decreases pieces.len() - i,
        {
            let part = trimmed(pieces[i].as_str());
            if same_text(part.as_str(), current_platform) || same_text(part.as_str(), "all") {
                assert(trimmed_of(all[i as int]) == part@);
                return true;
            }
            i = i + 1;
        }
        false
    }
}

impl ConfigError {
    /// The message for the user.
    pub fn message(&self) -> (text: String)
        ensures
            self is NoProjectConfig ==> text@
                == "No .mgitconfig.yaml found in current directory or parent directories.\nRun 'mgit init' to create one."@,
            self matches ConfigError::NotFound { path } ==> text@ == "Configuration file '"@
                + path@ + "' not found"@,
    {
        match self {
            ConfigError::NoProjectConfig => {
                "No .mgitconfig.yaml found in current directory or parent directories.\nRun 'mgit init' to create one.".to_owned()
            },
            ConfigError::NotFound { path } => {
                "Configuration file '".to_owned().concat(path.as_str()).concat("' not found")
            },
        }
    }
}

impl Config {
    /// The configuration's invariant: that of its maps.
    pub open spec fn wf(&self) -> bool {
        self.credentials.wf() && self.users.wf()
    }

    /// A local configuration completed by a global one: shell programs that
    /// the local one leaves at their defaults, and the credentials and users
    /// that it does not name, come from the global one.
    pub open spec fn merge_of(local: Config, global: Config, merged: Config) -> bool {
        &&& merged.repositories == local.repositories
        &&& merged.tasks == local.tasks
        &&& merged.tags == local.tags
        &&& merged.config_dir == local.config_dir
        &&& merged.shells.sh@ == merged_program(local.shells.sh@, global.shells.sh@, "sh"@)
        &&& merged.shells.cmd@ == merged_program(local.shells.cmd@, global.shells.cmd@, "cmd"@)
        &&& merged.shells.powershell@ == merged_program(
            local.shells.powershell@,
            global.shells.powershell@,
            "powershell"@,
        )
        &&& merged.credentials@ == merged_pairs(local.credentials@, global.credentials@)
        &&& merged.users@ == merged_users(local.users@, global.users@)
        &&& merged.wf()
    }

    /// Completes a local configuration by a global one.
    pub fn merge(local: Config, global: &Config) -> (merged: Config)
        requires
            local.wf(),
        ensures
            Config::merge_of(local, *global, merged),
    {
        let Config { repositories, tasks, shells, credentials, users, tags, config_dir } = local;
        let ShellConfig { sh, cmd, powershell } = shells;
        let mut credentials = credentials;
        let mut users = users;
        merge_pairs(&mut credentials, &global.credentials);
        merge_users(&mut users, &global.users);
        Config {
            repositories,
            tasks,
            shells: ShellConfig {
                sh: merge_program(sh, &global.shells.sh, "sh"),
                cmd: merge_program(cmd, &global.shells.cmd, "cmd"),
                powershell: merge_program(powershell, &global.shells.powershell, "powershell"),
            },
            credentials,
            users,
            tags,
            config_dir,
        }
    }

    /// The configuration that a local file and the global file give. Without
    /// a local file there is none; the error names the path that was asked
    /// for.
    pub fn load(path: &str, local: Option<Config>, global: Option<Config>) -> (loaded: Result<
        Config,
        ConfigError,
    >)
        requires
            local is Some ==> local->0.wf(),
        ensures
            match (local, global) {
                (Some(l), Some(g)) => loaded is Ok && Config::merge_of(l, g, loaded->Ok_0),
                (Some(l), None) => loaded == Ok::<Config, ConfigError>(l),
                (None, _) => loaded matches Err(ConfigError::NotFound { path: p }) && p@ == path@,
            },
    {
        match local {
            Some(l) => {
                match global {
                    Some(g) => Ok(Config::merge(l, &g)),
                    None => Ok(l),
                }
            },
            None => Err(ConfigError::NotFound { path: path.to_owned() }),
        }
    }

    /// The configuration of the project that was found by searching upward
    /// from the current directory, completed by the global one. Without a
    /// project configuration there is none.
    pub fn load_from_project(project: Option<Config>, global: Option<Config>) -> (loaded: Result<
        Config,
        ConfigError,
    >)
        requires
            project is Some ==> project->0.wf(),
        ensures
            match (project, global) {
                (Some(l), Some(g)) => loaded is Ok && Config::merge_of(l, g, loaded->Ok_0),
                (Some(l), None) => loaded == Ok::<Config, ConfigError>(l),
                (None, _) => loaded matches Err(ConfigError::NoProjectConfig),
            },
    {
        match project {
            Some(l) => {
                match global {
                    Some(g) => Ok(Config::merge(l, &g)),
                    None => Ok(l),
                }
            },
            None => Err(ConfigError::NoProjectConfig),
        }
    }

    /// The path of a repository: its name below the configuration's
    /// directory, or the name alone where no directory is known.
    pub fn resolve_repo_path(&self, repo_name: &str) -> (path: String)
        ensures
            self.config_dir is None ==> path@ == repo_name@,
    {
        match &self.config_dir {
            Some(dir) => join_path(dir.as_str(), repo_name),
            None => repo_name.to_owned(),
        }
    }

    /// The path of the state cache: `".mgitdb"` below the configuration's
    /// directory, or that name alone where no directory is known.
    pub fn get_db_path(&self) -> (path: String)
        ensures
            self.config_dir is None ==> path@ == ".mgitdb"@,
    {
        match &self.config_dir {
            Some(dir) => join_path(dir.as_str(), ".mgitdb"),
            None => ".mgitdb".to_owned(),
        }
    }

    /// The canonical name of a user name or e-mail address: that of the
    /// first user whose name or alias equals it up to letter case, or the
    /// input unchanged.
    pub fn normalize_user(&self, author: &str) -> (canonical: String)
        ensures
            canonical@ == normalized(self.users@, author@),
    {
        self.users.normalize(author)
    }

    /// Whether some user knows the name, as canonical name or alias, or
    /// knows the e-mail address as an alias.
    pub fn is_author_mapped(&self, author_name: &str, author_email: &str) -> (mapped: bool)
        ensures
            mapped == author_mapped(self.users@, author_name@, author_email@),
    {
        self.users.is_author_mapped(author_name, author_email)
    }

    /// Records a newly seen author among the users and says whether that
    /// changed them.
    pub fn add_unmapped_authors(&mut self, name: String, email: String) -> (added: bool)
        requires
            old(self).wf(),
        ensures
            final(self).wf(),
            final(self).users@ == table_after_recording(old(self).users@, name@, email@),
            added == recording_adds(old(self).users@, name@, email@),
            final(self).repositories == old(self).repositories,
            final(self).tasks == old(self).tasks,
            final(self).shells == old(self).shells,
            final(self).credentials == old(self).credentials,
            final(self).tags == old(self).tags,
            final(self).config_dir == old(self).config_dir,
    {
        self.users.add_unmapped_authors(name, email)
    }
}

} // verus!
