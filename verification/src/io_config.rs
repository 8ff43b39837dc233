//! Where input comes from and where output goes, decided from the command
//! line and from what the caller found out about stdin and the file.
use vstd::prelude::*;
use crate::style::{ansi_prefix, reset_code, Color, Style};

verus! {

/// The input and output of a run.
#[derive(Debug)]
pub struct InputOutputConfig {
    pub source: Source,
    pub target: Target,
}

/// Where lines come from.
#[derive(Debug, PartialEq, Eq)]
pub enum Source {
    File(FileInfo),
    Command(String),
    Stdin,
}

/// A file to read.
#[derive(Debug, PartialEq, Eq)]
pub struct FileInfo {
    pub path: String,
    pub terminate_after_first_read: bool,
}

/// Where highlighted lines go.
#[derive(Debug)]
pub enum Target {
    Less(LessOptions),
    CustomPager(CustomPagerOptions),
    Stdout,
}

/// How to run `less`.
#[derive(Debug)]
pub struct LessOptions {
    pub follow: bool,
}

/// A user-chosen pager and its arguments.
#[derive(Debug)]
pub struct CustomPagerOptions {
    pub command: String,
    pub args: Vec<String>,
}

/// Why the input or output cannot be set up.
#[derive(Debug)]
pub enum ConfigError {
    MissingFilename,
    CannotReadBothFileAndListenCommand,
    CouldNotDetermineInputType,
    NoSuchFileOrDirectory(String),
    PathNotFile,
    Io(String),
    CouldNotParseCustomPagerCommand,
}

/// What the caller found at the given path.
#[derive(Debug, Clone, PartialEq, Eq)]
pub enum PathStatus {
    Missing,
    NotAFile,
    File,
    Unreadable(String),
}

/// The command-line choices that decide input and output.
#[derive(Debug, Clone)]
pub struct IoArgs {
    pub file_path: Option<String>,
    pub command: Option<String>,
    pub to_stdout: bool,
    pub follow: bool,
    pub pager: Option<String>,
}

/// The words of `text` as `shell_words::split` reads them, or `None` when it
/// fails (an unmatched quote).
pub uninterp spec fn shell_split_of(text: Seq<char>) -> Option<Seq<Seq<char>>>;

/// `shell_words::split`, with a failure read as no words at all.
#[verifier::external_body]
fn shell_split(raw: &str) -> (v: Vec<String>)
    ensures
        v@.map_values(|w: String| w@) == match shell_split_of(raw@) {
            Some(words) => words,
            None => Seq::empty(),
        },
{
    shell_words::split(raw).unwrap_or_default()
}

/// A pager command line: its first word is the command and the rest are its
/// arguments; it needs at least one argument.
pub fn split_custom_pager_command(raw_command: &str) -> (r: Result<CustomPagerOptions, ConfigError>)
    ensures
        ({
            let words = match shell_split_of(raw_command@) {
                Some(ws) => ws,
                None => Seq::<Seq<char>>::empty(),
            };
            &&& r is Ok <==> words.len() >= 2
            &&& r matches Ok(o) ==> (o.command@ == words[0] && o.args@.map_values(|w: String| w@) == words.drop_first())
            &&& r matches Err(e) ==> e is CouldNotParseCustomPagerCommand
        }),
{
    let mut raw_args = shell_split(raw_command);
    let ghost words = raw_args@.map_values(|w: String| w@);
    if raw_args.len() < 2 {
        return Err(ConfigError::CouldNotParseCustomPagerCommand);
    }
    let args = raw_args.split_off(1);
    let command = raw_args.pop().unwrap();
    assert(args@.map_values(|w: String| w@) =~= words.drop_first());
    Ok(CustomPagerOptions { command, args })
}

/// `text` painted yellow, as an error message shows a path.
pub open spec fn yellow_text(text: Seq<char>) -> Seq<char> {
    ansi_prefix(Style { fg: Some(Color::Yellow), bg: None, bold: false, faint: false, italic: false, underline: false })
        + text + reset_code()
}

/// Paints `text` yellow.
fn paint_yellow(text: &str) -> (r: String)
    ensures
        r@ == yellow_text(text@),
{
    let mut out = Style::new().fg(Color::Yellow).prefix();
    out.append(text);
    proof {
        reveal_strlit("\x1b[0m");
    }
    out.append("\x1b[0m");
    out
}

/// `r` is the source for these arguments and findings (see `get_source`).
pub open spec fn source_for(args: IoArgs, std_in_has_data: bool, path_status: PathStatus, r: Result<Source, ConfigError>) -> bool {
    &&& (args.file_path is None && !std_in_has_data && args.command is None ==> r matches Err(ConfigError::MissingFilename))
    &&& (args.file_path is Some && args.command is Some ==> r matches Err(ConfigError::CannotReadBothFileAndListenCommand))
    &&& args.command is None ==> match args.file_path {
        Some(p) => match path_status {
            PathStatus::Missing => (r matches Err(ConfigError::NoSuchFileOrDirectory(q)) && q@ == yellow_text(p@)),
            PathStatus::NotAFile => r matches Err(ConfigError::PathNotFile),
            PathStatus::Unreadable(m) => (r matches Err(ConfigError::Io(n)) && n@ == m@),
            PathStatus::File => (r matches Ok(Source::File(f)) && f.path@ == p@
                && f.terminate_after_first_read == (args.to_stdout && !args.follow)),
        },
        None => true,
    }
    &&& (args.file_path is None && std_in_has_data ==> r matches Ok(Source::Stdin))
    &&& args.file_path is None && !std_in_has_data ==> match args.command {
        Some(c) => (r matches Ok(Source::Command(d)) && d@ == c@),
        None => true,
    }
}

/// `r` is the target for these arguments and this input (see `get_target`).
pub open spec fn target_for(args: IoArgs, input: Source, r: Result<Target, ConfigError>) -> bool {
    &&& ((input is Stdin || args.to_stdout) ==> r matches Ok(Target::Stdout))
    &&& (!(input is Stdin || args.to_stdout) && args.pager is None ==> (r matches Ok(Target::Less(o)) && o.follow == (
        args.command is Some || args.follow)))
    &&& !(input is Stdin || args.to_stdout) ==> match args.pager {
        Some(p) => {
            let words = match shell_split_of(p@) {
                Some(ws) => ws,
                None => Seq::<Seq<char>>::empty(),
            };
            &&& r is Ok <==> words.len() >= 2
            &&& r matches Ok(t) ==> (t matches Target::CustomPager(o) && o.command@ == words[0]
                && o.args@.map_values(|w: String| w@) == words.drop_first())
            &&& r matches Err(e) ==> e is CouldNotParseCustomPagerCommand
        },
        None => true,
    }
}

/// The source: an error without a file, a command or data on stdin; an
/// error with both a file and a command; the file, when it is a file (read
/// once when printing without following; a missing one is named in yellow
/// in the error); stdin when it has data; else the command.
pub fn get_source(args: &IoArgs, std_in_has_data: bool, path_status: PathStatus) -> (r: Result<Source, ConfigError>)
    ensures
        source_for(*args, std_in_has_data, path_status, r),
{
    if args.file_path.is_none() && !std_in_has_data && args.command.is_none() {
        return Err(ConfigError::MissingFilename);
    }
    if args.file_path.is_some() && args.command.is_some() {
        return Err(ConfigError::CannotReadBothFileAndListenCommand);
    }
    match &args.file_path {
        Some(path) => {
            let terminate_after_first_read = args.to_stdout && !args.follow;
            return match path_status {
                PathStatus::Missing => Err(ConfigError::NoSuchFileOrDirectory(paint_yellow(path.as_str()))),
                PathStatus::NotAFile => Err(ConfigError::PathNotFile),
                PathStatus::Unreadable(m) => Err(ConfigError::Io(m)),
                PathStatus::File => Ok(Source::File(FileInfo { path: path.clone(), terminate_after_first_read })),
            };
        },
        None => {},
    }
    if std_in_has_data {
        return Ok(Source::Stdin);
    }
    match &args.command {
        Some(command) => Ok(Source::Command(command.clone())),
        None => Err(ConfigError::CouldNotDetermineInputType),
    }
}

/// The target: stdout for stdin input or when printing; the custom pager
/// when one is given; else `less`, following when running a command or when
/// asked to.
pub fn get_target(args: &IoArgs, input: &Source) -> (r: Result<Target, ConfigError>)
    ensures
        target_for(*args, *input, r),
{
    let is_stdin = match input {
        Source::Stdin => true,
        _ => false,
    };
    if is_stdin || args.to_stdout {
        return Ok(Target::Stdout);
    }
    match &args.pager {
        Some(command) => {
            return match split_custom_pager_command(command.as_str()) {
                Ok(options) => Ok(Target::CustomPager(options)),
                Err(e) => Err(e),
            };
        },
        None => {},
    }
    let follow = if args.command.is_some() { true } else { args.follow };
    Ok(Target::Less(LessOptions { follow }))
}

/// The input and the output: the source, then the target for it; fails
/// with the first of the two that fails.
pub fn get_io_config(args: &IoArgs, std_in_has_data: bool, path_status: PathStatus) -> (r: Result<
    InputOutputConfig,
    ConfigError,
>)
    ensures
        match r {
            Ok(c) => source_for(*args, std_in_has_data, path_status, Ok(c.source)) && target_for(
                *args,
                c.source,
                Ok(c.target),
            ),
            Err(e) => source_for(*args, std_in_has_data, path_status, Err(e)) || exists|s: Source|
                source_for(*args, std_in_has_data, path_status, Ok(s)) && #[trigger] target_for(*args, s, Err(e)),
        },
{
    let source = match get_source(args, std_in_has_data, path_status) {
        Ok(source) => source,
        Err(e) => return Err(e),
    };
    match get_target(args, &source) {
        Ok(target) => Ok(InputOutputConfig { source, target }),
        Err(e) => Err(e),
    }
}

} // verus!
