//! The run settings of the line-by-line front end: what to read, where to
//! write and whether to follow, decided from the arguments and from what the
//! caller found on stdin and at the path.
use vstd::prelude::*;

verus! {

/// Exit code of a general failure.
pub const GENERAL_ERROR: i32 = 1;

/// Exit code of a misused option combination.
pub const MISUSE_SHELL_BUILTIN: i32 = 2;

/// A file and its number of lines.
#[derive(Debug, PartialEq, Eq)]
pub struct PathAndLineCount {
    pub path: String,
    pub line_count: usize,
}

/// The files of a folder.
#[derive(Debug, PartialEq, Eq)]
pub struct Files {
    pub paths: Vec<String>,
}

/// Where lines come from.
#[derive(Debug, PartialEq, Eq)]
pub enum Input {
    File(PathAndLineCount),
    Folder(Files),
    Stdin,
    Command(String),
}

/// Where highlighted lines go.
#[derive(Debug, Clone, Copy, PartialEq, Eq, Structural)]
pub enum Output {
    TempFile,
    Stdout,
}

/// The settings of a run.
#[derive(Debug)]
pub struct Config {
    pub input: Input,
    pub output: Output,
    pub follow: bool,
}

/// A failure with the process exit code it calls for.
#[derive(Debug)]
pub struct RunError {
    pub exit_code: i32,
    pub message: String,
}

/// What the caller found at the given path.
#[derive(Debug, PartialEq, Eq)]
pub enum PathFacts {
    /// A file with this many lines.
    File(usize),
    /// A folder with these files.
    Folder(Vec<String>),
    /// Something that is neither a file nor a folder.
    Other,
    /// Its metadata could not be read.
    Inaccessible,
}

/// Follow when asked to, and always when listening to a command.
pub fn should_follow(follow: bool, has_follow_command: bool) -> (r: bool)
    ensures
        r == (follow || has_follow_command),
{
    if has_follow_command {
        return true;
    }
    follow
}

/// Stdout when reading stdin or when asked to print; a temporary file
/// otherwise.
pub fn get_output(is_stdin: bool, to_stdout: bool) -> (r: Output)
    ensures
        r == (if is_stdin || to_stdout { Output::Stdout } else { Output::TempFile }),
{
    if is_stdin || to_stdout {
        return Output::Stdout;
    }
    Output::TempFile
}

/// The input at `path`: a file with its line count, or a folder with its
/// files; anything else is a general failure.
pub fn determine_input(path: String, facts: PathFacts) -> (r: Result<Input, RunError>)
    ensures
        match facts {
            PathFacts::File(n) => r matches Ok(Input::File(f)) && f.path@ == path@ && f.line_count == n,
            PathFacts::Folder(ps) => r matches Ok(Input::Folder(fs)) && fs.paths@ == ps@,
            PathFacts::Other => r matches Err(e) && e.exit_code == GENERAL_ERROR
                && e.message@ == "Path is neither a file nor a directory"@,
            PathFacts::Inaccessible => r matches Err(e) && e.exit_code == GENERAL_ERROR
                && e.message@ == "Failed to access path metadata"@,
        },
{
    match facts {
        PathFacts::File(line_count) => Ok(Input::File(PathAndLineCount { path, line_count })),
        PathFacts::Folder(paths) => Ok(Input::Folder(Files { paths })),
        PathFacts::Other => Err(RunError {
            exit_code: GENERAL_ERROR,
            message: String::from_str("Path is neither a file nor a directory"),
        }),
        PathFacts::Inaccessible => Err(RunError {
            exit_code: GENERAL_ERROR,
            message: String::from_str("Failed to access path metadata"),
        }),
    }
}

/// `r` is the input for these arguments: an error without a file, a
/// command or data on stdin; an error with both stdin data and a file; the
/// file or folder at the path; stdin; else the command.
pub open spec fn reads_from(
    r: Result<Input, RunError>,
    file_path: Option<String>,
    listen_command: Option<String>,
    is_stdin: bool,
    facts: PathFacts,
) -> bool {
    if !is_stdin && file_path is None && listen_command is None {
        r matches Err(e) && e.exit_code == GENERAL_ERROR && e.message@ == "Missing filename (`spin --help` for help) "@
    } else if is_stdin && file_path is Some {
        r matches Err(e) && e.exit_code == MISUSE_SHELL_BUILTIN
            && e.message@ == "Cannot read from both stdin and --listen-command "@
    } else if file_path is Some {
        match facts {
            PathFacts::File(n) => r matches Ok(Input::File(f)) && f.path@ == file_path->Some_0@ && f.line_count == n,
            PathFacts::Folder(ps) => r matches Ok(Input::Folder(fs)) && fs.paths@ == ps@,
            PathFacts::Other => r matches Err(e) && e.exit_code == GENERAL_ERROR
                && e.message@ == "Path is neither a file nor a directory"@,
            PathFacts::Inaccessible => r matches Err(e) && e.exit_code == GENERAL_ERROR
                && e.message@ == "Failed to access path metadata"@,
        }
    } else if is_stdin && listen_command is None {
        r matches Ok(Input::Stdin)
    } else {
        r matches Ok(Input::Command(c)) && c@ == listen_command->Some_0@
    }
}

/// The input for the arguments and what was found at the path.
pub fn get_input(file_path: Option<String>, listen_command: Option<String>, is_stdin: bool, facts: PathFacts) -> (r:
    Result<Input, RunError>)
    ensures
        reads_from(r, file_path, listen_command, is_stdin, facts),
{
    if !is_stdin && file_path.is_none() && listen_command.is_none() {
        return Err(RunError {
            exit_code: GENERAL_ERROR,
            message: String::from_str("Missing filename (`spin --help` for help) "),
        });
    }
    if is_stdin && file_path.is_some() {
        return Err(RunError {
            exit_code: MISUSE_SHELL_BUILTIN,
            message: String::from_str("Cannot read from both stdin and --listen-command "),
        });
    }
    if let Some(file_or_folder) = file_path {
        return determine_input(file_or_folder, facts);
    }
    if is_stdin && listen_command.is_none() {
        return Ok(Input::Stdin);
    }
    match listen_command {
        Some(command) => Ok(Input::Command(command)),
        None => Err(RunError { exit_code: 1, message: String::from_str("Could not determine input") }),
    }
}

/// The settings of a run: the input, the output and whether to follow.
pub fn create_config(
    file_path: Option<String>,
    listen_command: Option<String>,
    follow: bool,
    to_stdout: bool,
    is_stdin: bool,
    facts: PathFacts,
) -> (r: Result<Config, RunError>)
    ensures
        match r {
            Ok(c) => {
                &&& reads_from(Ok(c.input), file_path, listen_command, is_stdin, facts)
                &&& c.output == (if is_stdin || to_stdout { Output::Stdout } else { Output::TempFile })
                &&& c.follow == (follow || listen_command is Some)
            },
            Err(e) => reads_from(Err(e), file_path, listen_command, is_stdin, facts),
        },
{
    let follow = should_follow(follow, listen_command.is_some());
    match get_input(file_path, listen_command, is_stdin, facts) {
        Ok(input) => {
            let output = get_output(is_stdin, to_stdout);
            Ok(Config { input, output, follow })
        },
        Err(e) => Err(e),
    }
}

} // verus!
