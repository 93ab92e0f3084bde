use vstd::prelude::*;
use crate::chars::{append_str, str_eq, string_from};
use crate::pattern::occurs_at;

verus! {

// ---------------------------------------------------------------------------
// The command line
// ---------------------------------------------------------------------------

/// What the command line asks for.
#[derive(Debug, PartialEq)]
pub enum Command {
    /// No command: the interactive shell.
    Repl,
    /// `run` without a file: how to use it.
    RunUsage,
    /// `run <file>`, or a file named alone: run that file.
    Run(String),
    /// `test`: run the test programs.
    Test,
    /// `build`: check that the project builds.
    Build,
    /// `fmt [file]`: format a file.
    Fmt(Option<String>),
    /// `new [name]`: create a project.
    New(Option<String>),
    /// `help` or `--help`: the list of commands.
    Help,
    /// `--version`: the version of the language.
    Version,
}

/// The value of a command.
pub enum SCommand {
    Repl,
    RunUsage,
    Run(Seq<char>),
    Test,
    Build,
    Fmt(Option<Seq<char>>),
    New(Option<Seq<char>>),
    Help,
    Version,
}

pub open spec fn command_view(c: Command) -> SCommand {
    match c {
        Command::Repl => SCommand::Repl,
        Command::RunUsage => SCommand::RunUsage,
        Command::Run(f) => SCommand::Run(f@),
        Command::Test => SCommand::Test,
        Command::Build => SCommand::Build,
        Command::Fmt(f) => SCommand::Fmt(
            match f {
                Some(s) => Some(s@),
                None => None,
            },
        ),
        Command::New(n) => SCommand::New(
            match n {
                Some(s) => Some(s@),
                None => None,
            },
        ),
        Command::Help => SCommand::Help,
        Command::Version => SCommand::Version,
    }
}

/// The argument at `i`, if there is one.
pub open spec fn arg_at(args: Seq<Seq<char>>, i: int) -> Option<Seq<char>> {
    if 0 <= i < args.len() {
        Some(args[i])
    } else {
        None
    }
}

/// What the arguments (the program's name first) ask for.
pub open spec fn command_of(args: Seq<Seq<char>>) -> SCommand {
    if args.len() < 2 {
        SCommand::Repl
    } else if args[1] == "run"@ {
        if args.len() < 3 {
            SCommand::RunUsage
        } else {
            SCommand::Run(args[2])
        }
    } else if args[1] == "test"@ {
        SCommand::Test
    } else if args[1] == "build"@ {
        SCommand::Build
    } else if args[1] == "fmt"@ {
        SCommand::Fmt(arg_at(args, 2))
    } else if args[1] == "new"@ {
        SCommand::New(arg_at(args, 2))
    } else if args[1] == "help"@ || args[1] == "--help"@ {
        SCommand::Help
    } else if args[1] == "--version"@ {
        SCommand::Version
    } else {
        SCommand::Run(args[1])
    }
}

/// The values of the arguments.
pub open spec fn args_view(args: Seq<String>) -> Seq<Seq<char>> {
    args.map_values(|a: String| a@)
}

fn copy_string(s: &String) -> (r: String)
    ensures
        r@ == s@,
{
    string_from(s.as_str())
}

fn arg_copy(args: &Vec<String>, i: usize) -> (r: Option<String>)
    ensures
        match r {
            Some(s) => arg_at(args_view(args@), i as int) == Some(s@),
            None => arg_at(args_view(args@), i as int) is None,
        },
{
    if i < args.len() {
        Some(copy_string(&args[i]))
    } else {
        None
    }
}

/// Reads the command line (the program's name first).
pub fn command(args: &Vec<String>) -> (r: Command)
    ensures
        command_view(r) == command_of(args_view(args@)),
{
    let ghost a = args_view(args@);
    if args.len() < 2 {
        return Command::Repl;
    }
    assert(a[1] == args@[1]@);
    let word = args[1].as_str();
    if str_eq(word, "run") {
        if args.len() < 3 {
            return Command::RunUsage;
        }
        assert(a[2] == args@[2]@);
        return Command::Run(copy_string(&args[2]));
    }
    if str_eq(word, "test") {
        return Command::Test;
    }
    if str_eq(word, "build") {
        return Command::Build;
    }
    if str_eq(word, "fmt") {
        return Command::Fmt(arg_copy(args, 2));
    }
    if str_eq(word, "new") {
        return Command::New(arg_copy(args, 2));
    }
    if str_eq(word, "help") || str_eq(word, "--help") {
        return Command::Help;
    }
    if str_eq(word, "--version") {
        return Command::Version;
    }
    Command::Run(copy_string(&args[1]))
}

/// Whether a path names a source file of the language (it ends with `.fsl`).
pub fn is_source_path(path: &str) -> (r: bool)
    ensures
        r == (path@.len() >= 4 && occurs_at(path@, ".fsl"@, path@.len() - 4)),
{
    proof {
        reveal_strlit(".fsl");
    }
    let n = path.unicode_len();
    if n < 4 {
        return false;
    }
    let ok = path.get_char(n - 4) == '.' && path.get_char(n - 3) == 'f' && path.get_char(n - 2)
        == 's' && path.get_char(n - 1) == 'l';
    assert(ok == (path@.subrange(n - 4, n as int) =~= ".fsl"@)) by {
        if path@.subrange(n - 4, n as int) =~= ".fsl"@ {
            assert(path@.subrange(n - 4, n as int)[0] == path@[n - 4]);
            assert(path@.subrange(n - 4, n as int)[1] == path@[n - 3]);
            assert(path@.subrange(n - 4, n as int)[2] == path@[n - 2]);
            assert(path@.subrange(n - 4, n as int)[3] == path@[n - 1]);
        }
    }
    ok
}

// ---------------------------------------------------------------------------
// A new project
// ---------------------------------------------------------------------------

/// The directories and files of a new project: what to create, in order.
pub struct ProjectLayout {
    pub dirs: Vec<String>,
    pub files: Vec<(String, String)>,
}

/// The directories of a new project called `name`.
pub open spec fn project_dirs(name: Seq<char>) -> Seq<Seq<char>> {
    seq![name + "/src"@, name + "/tests"@, name + "/examples"@]
}

/// The files of a new project called `name`, each with its contents: a first
/// program, the package description and a README.
pub open spec fn project_files(name: Seq<char>) -> Seq<(Seq<char>, Seq<char>)> {
    seq![
        (name + "/src/main.fsl"@, "متغير رسالة = \"مرحبا من Failang\"\nاطبع رسالة\n"@),
        (name + "/failang.toml"@, "[package]\nname = \""@ + name + "\"\nversion = \"0.1.0\"\n"@),
        (name + "/README.md"@, "# "@ + name + "\n\nFailang Project\n"@),
    ]
}

/// `name` followed by `tail`.
fn joined(name: &str, tail: &str) -> (r: String)
    ensures
        r@ == name@ + tail@,
{
    let mut s = string_from(name);
    append_str(&mut s, tail);
    s
}

/// What creating a project called `name` makes.
pub fn project_layout(name: &str) -> (r: ProjectLayout)
    ensures
        r.dirs@.map_values(|d: String| d@) == project_dirs(name@),
        r.files@.map_values(|f: (String, String)| (f.0@, f.1@)) == project_files(name@),
{
    let mut dirs: Vec<String> = Vec::new();
    dirs.push(joined(name, "/src"));
    dirs.push(joined(name, "/tests"));
    dirs.push(joined(name, "/examples"));
    let mut config = string_from("[package]\nname = \"");
    append_str(&mut config, name);
    append_str(&mut config, "\"\nversion = \"0.1.0\"\n");
    let mut readme = string_from("# ");
    append_str(&mut readme, name);
    append_str(&mut readme, "\n\nFailang Project\n");
    let mut files: Vec<(String, String)> = Vec::new();
    files.push(
        (joined(name, "/src/main.fsl"), string_from("متغير رسالة = \"مرحبا من Failang\"\nاطبع رسالة\n")),
    );
    files.push((joined(name, "/failang.toml"), config));
    files.push((joined(name, "/README.md"), readme));
    assert(dirs@.map_values(|d: String| d@) =~= project_dirs(name@));
    assert(files@.map_values(|f: (String, String)| (f.0@, f.1@)) =~= project_files(name@));
    ProjectLayout { dirs, files }
}

// ---------------------------------------------------------------------------
// The interactive shell
// ---------------------------------------------------------------------------

/// What a line typed into the shell asks for.
#[derive(Debug, PartialEq)]
pub enum ReplInput {
    /// A blank line: nothing.
    Empty,
    /// `:exit` or `:خروج`.
    Exit,
    /// `:help` or `:مساعدة`.
    Help,
    /// `:clear` or `:مسح`.
    Clear,
    /// Another line beginning with `:`.
    UnknownCommand,
    /// Code to run: the line without white space at either end.
    Code(String),
}

/// The value of a shell input.
pub enum SReplInput {
    Empty,
    Exit,
    Help,
    Clear,
    UnknownCommand,
    Code(Seq<char>),
}

pub open spec fn repl_input_view(r: ReplInput) -> SReplInput {
    match r {
        ReplInput::Empty => SReplInput::Empty,
        ReplInput::Exit => SReplInput::Exit,
        ReplInput::Help => SReplInput::Help,
        ReplInput::Clear => SReplInput::Clear,
        ReplInput::UnknownCommand => SReplInput::UnknownCommand,
        ReplInput::Code(s) => SReplInput::Code(s@),
    }
}

/// What a typed line asks for, once trimmed.
pub open spec fn repl_input_of(line: Seq<char>) -> SReplInput {
    let t = crate::pattern::trim(line);
    if t.len() == 0 {
        SReplInput::Empty
    } else if t[0] == ':' {
        if t == ":exit"@ || t == ":خروج"@ {
            SReplInput::Exit
        } else if t == ":help"@ || t == ":مساعدة"@ {
            SReplInput::Help
        } else if t == ":clear"@ || t == ":مسح"@ {
            SReplInput::Clear
        } else {
            SReplInput::UnknownCommand
        }
    } else {
        SReplInput::Code(t)
    }
}

/// Reads a line typed into the shell.
pub fn read_repl_input(line: &str) -> (r: ReplInput)
    ensures
        repl_input_view(r) == repl_input_of(line@),
{
    let t = crate::compiler::interpreter::builtins::trim_text(line);
    let ts = t.as_str();
    if ts.unicode_len() == 0 {
        return ReplInput::Empty;
    }
    if ts.get_char(0) != ':' {
        return ReplInput::Code(t);
    }
    if str_eq(ts, ":exit") || str_eq(ts, ":خروج") {
        return ReplInput::Exit;
    }
    if str_eq(ts, ":help") || str_eq(ts, ":مساعدة") {
        return ReplInput::Help;
    }
    if str_eq(ts, ":clear") || str_eq(ts, ":مسح") {
        return ReplInput::Clear;
    }
    ReplInput::UnknownCommand
}

} // verus!
