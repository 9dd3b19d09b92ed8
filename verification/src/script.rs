//! Scripts: what kind a script is, and the command line that runs it.

use crate::config::ShellConfig;
use crate::text::{lowercase, lowercase_of, same_text, texts_of};
use vstd::prelude::*;
use vstd::string::StringExecFns;

verus! {

/// The kind of a script.
#[derive(Debug, Clone, Copy, PartialEq, Eq, Structural)]
pub enum ScriptType {
    Shell,
    Batch,
    PowerShell,
    Executable,
}

/// The kind that a lowercase extension stands for; a shell script where it
/// is none of the known ones.
pub open spec fn kind_of_extension(lower: Seq<char>) -> ScriptType {
    if lower == "bat"@ || lower == "cmd"@ {
        ScriptType::Batch
    } else if lower == "ps1"@ {
        ScriptType::PowerShell
    } else if lower == "exe"@ {
        ScriptType::Executable
    } else {
        ScriptType::Shell
    }
}

/// The kind of a file with the given extension, if it has one; an
/// executable without.
pub open spec fn kind_of_optional_extension(ext: Option<Seq<char>>) -> ScriptType {
    match ext {
        Some(e) => kind_of_extension(lowercase_of(e)),
        None => ScriptType::Executable,
    }
}

/// The kind that a step's explicit type names, if it names one.
pub open spec fn kind_of_step_type(step_type: Seq<char>) -> Option<ScriptType> {
    if step_type == "sh"@ {
        Some(ScriptType::Shell)
    } else if step_type == "bat"@ || step_type == "cmd"@ {
        Some(ScriptType::Batch)
    } else if step_type == "ps1"@ {
        Some(ScriptType::PowerShell)
    } else if step_type == "exe"@ {
        Some(ScriptType::Executable)
    } else {
        None
    }
}

/// Calls `std::path::Path::extension` on a path. Trusted: nothing is claimed
/// of the result, which depends on what the platform takes for a path
/// separator. The outer option says whether the path has an extension, the
/// inner one holds it where it is Unicode.
#[verifier::external_body]
pub(crate) fn path_extension(path: &str) -> (ext: Option<Option<String>>) {
    std::path::Path::new(path).extension().map(|e| e.to_str().map(|s| s.to_owned()))
}

impl ScriptType {
    /// The kind that an extension stands for, whatever its letter case:
    /// `sh` a shell script, `bat` and `cmd` a batch file, `ps1` a PowerShell
    /// script, `exe` an executable, anything else a shell script.
    pub fn from_extension(ext: &str) -> (kind: ScriptType)
        ensures
            kind == kind_of_extension(lowercase_of(ext@)),
    {
        let lower = lowercase(ext);
        if same_text(lower.as_str(), "bat") || same_text(lower.as_str(), "cmd") {
            ScriptType::Batch
        } else if same_text(lower.as_str(), "ps1") {
            ScriptType::PowerShell
        } else if same_text(lower.as_str(), "exe") {
            ScriptType::Executable
        } else {
            ScriptType::Shell
        }
    }

    /// The kind of a file whose extension is known: that of the extension,
    /// or an executable where the file has none.
    pub fn from_optional_extension(ext: &Option<String>) -> (kind: ScriptType)
        ensures
            kind == kind_of_optional_extension(crate::state::opt_text(*ext)),
    {
        match ext {
            Some(e) => ScriptType::from_extension(e.as_str()),
            None => ScriptType::Executable,
        }
    }

    /// The kind of the file at a path: that of its extension, or an
    /// executable where it has none.
    pub fn from_path(path: &str) -> (kind: ScriptType)
        ensures
            exists|ext: Option<Seq<char>>| kind == kind_of_optional_extension(ext),
    {
        let ext = match path_extension(path) {
            Some(Some(e)) => Some(e),
            Some(None) => Some(String::new()),
            None => None,
        };
        let kind = ScriptType::from_optional_extension(&ext);
        assert(kind == kind_of_optional_extension(crate::state::opt_text(ext)));
        kind
    }

    /// The kind that a step's explicit type names: `sh`, `bat`, `cmd`, `ps1`
    /// or `exe`; none for any other text.
    pub fn from_step_type(step_type: &str) -> (kind: Option<ScriptType>)
        ensures
            kind == kind_of_step_type(step_type@),
    {
        if same_text(step_type, "sh") {
            Some(ScriptType::Shell)
        } else if same_text(step_type, "bat") || same_text(step_type, "cmd") {
            Some(ScriptType::Batch)
        } else if same_text(step_type, "ps1") {
            Some(ScriptType::PowerShell)
        } else if same_text(step_type, "exe") {
            Some(ScriptType::Executable)
        } else {
            None
        }
    }
}

/// A program with its arguments.
#[derive(Debug, Clone)]
pub struct CommandLine {
    pub program: String,
    pub args: Vec<String>,
}

/// The command and its arguments as one line, separated by single spaces.
pub open spec fn joined_command(cmd: Seq<char>, args: Seq<Seq<char>>) -> Seq<char>
    decreases args.len(),
{
    if args.len() == 0 {
        cmd
    } else {
        joined_command(cmd, args.drop_last()) + seq![' '] + args.last()
    }
}

/// The arguments with which the runner of a script is called.
pub open spec fn runner_args(
    kind: ScriptType,
    script: Seq<char>,
    args: Seq<Seq<char>>,
    is_file: bool,
) -> Seq<Seq<char>> {
    match kind {
        ScriptType::Shell => if is_file {
            seq![script] + args
        } else {
            seq!["-c"@, joined_command(script, args)]
        },
        ScriptType::Batch => if is_file {
            seq!["/C"@, ".\\"@ + script] + args
        } else {
            seq!["/C"@, joined_command(script, args)]
        },
        ScriptType::PowerShell => if is_file {
            seq!["-ExecutionPolicy"@, "Bypass"@, "-File"@, ".\\"@ + script] + args
        } else {
            seq!["-ExecutionPolicy"@, "Bypass"@, "-Command"@, joined_command(script, args)]
        },
        ScriptType::Executable => args,
    }
}

/// The program that runs a script of the given kind.
pub open spec fn runner_program(kind: ScriptType, script: Seq<char>, shells: ShellConfig) -> Seq<char> {
    match kind {
        ScriptType::Shell => shells.sh@,
        ScriptType::Batch => shells.cmd@,
        ScriptType::PowerShell => shells.powershell@,
        ScriptType::Executable => script,
    }
}

/// The command and its arguments as one line.
pub fn join_command(cmd: &str, args: &Vec<String>) -> (line: String)
    ensures
        line@ == joined_command(cmd@, texts_of(args@)),
{
    proof {
        reveal_strlit(" ");
        assert(" "@ =~= seq![' ']);
    }
    let ghost all = texts_of(args@);
    let mut line = cmd.to_owned();
    let mut i: usize = 0;
    while i < args.len()
        invariant
            i <= args.len(),
            all == texts_of(args@),
            " "@ == seq![' '],
            line@ == joined_command(cmd@, all.take(i as int)),
        decreases args.len() - i,
    {
        proof {
            let next = all.take(i + 1);
            assert(next.drop_last() =~= all.take(i as int));
            assert(next.last() == args[i as int]@);
        }
        line = line.concat(" ").concat(args[i].as_str());
        i = i + 1;
    }
    proof {
        assert(all.take(i as int) =~= all);
    }
    line
}

/// Adds copies of `tail` to `args`.
fn push_all(args: &mut Vec<String>, tail: &Vec<String>)
    ensures
        texts_of(final(args)@) == texts_of(old(args)@) + texts_of(tail@),
{
    let ghost start = texts_of(args@);
    let mut i: usize = 0;
    proof {
        assert(start + texts_of(tail@).take(0) =~= start);
    }
    while i < tail.len()
        invariant
            i <= tail.len(),
            texts_of(args@) == start + texts_of(tail@).take(i as int),
        decreases tail.len() - i,
    {
        let ghost before = texts_of(args@);
        args.push(tail[i].clone());
        proof {
            assert(texts_of(args@) =~= before.push(tail[i as int]@));
            assert(texts_of(tail@).take(i + 1) =~= texts_of(tail@).take(i as int).push(
                tail[i as int]@,
            ));
            assert(texts_of(args@) =~= start + texts_of(tail@).take(i + 1));
        }
        i = i + 1;
    }
    proof {
        assert(texts_of(tail@).take(i as int) =~= texts_of(tail@));
    }
}

/// The command line that runs a script. `script_is_file` says whether the
/// script names a file in the working directory; what is no file is run as a
/// command, with its arguments joined into one line.
pub fn execute_script(
    script_type: ScriptType,
    script_path: &str,
    args: &Vec<String>,
    script_is_file: bool,
    shell_config: &ShellConfig,
) -> (line: CommandLine)
    ensures
        line.program@ == runner_program(script_type, script_path@, *shell_config),
        texts_of(line.args@) == runner_args(
            script_type,
            script_path@,
            texts_of(args@),
            script_is_file,
        ),
{
    let mut out: Vec<String> = Vec::new();
    let program = match script_type {
        ScriptType::Shell => {
            if script_is_file {
                out.push(script_path.to_owned());
                push_all(&mut out, args);
            } else {
                out.push("-c".to_owned());
                out.push(join_command(script_path, args));
            }
            shell_config.sh.clone()
        },
        ScriptType::Batch => {
            out.push("/C".to_owned());
            if script_is_file {
                out.push(".\\".to_owned().concat(script_path));
                push_all(&mut out, args);
            } else {
                out.push(join_command(script_path, args));
            }
            shell_config.cmd.clone()
        },
        ScriptType::PowerShell => {
            out.push("-ExecutionPolicy".to_owned());
            out.push("Bypass".to_owned());
            if script_is_file {
                out.push("-File".to_owned());
                out.push(".\\".to_owned().concat(script_path));
                push_all(&mut out, args);
            } else {
                out.push("-Command".to_owned());
                out.push(join_command(script_path, args));
            }
            shell_config.powershell.clone()
        },
        ScriptType::Executable => {
            push_all(&mut out, args);
            script_path.to_owned()
        },
    };
    proof {
        assert(texts_of(out@) =~= runner_args(
            script_type,
            script_path@,
            texts_of(args@),
            script_is_file,
        ));
    }
    CommandLine { program, args: out }
}

} // verus!
