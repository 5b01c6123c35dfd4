//! The commands: the five builtins and the catch-all for everything else, and
//! what each of them writes and asks of the host.

use crate::output::{line_bytes, write_and_flush_buf, write_and_flush_str, Output, OutputModel};
use crate::redirect::Split;
use crate::resolve::{resolve_executable, resolved, Entry, EntryModel};
use crate::text::{
    as_strs, byte_len, join, join_strs, parse_i32, parse_i32_of, starts_with,
};
use vstd::prelude::*;
use vstd::slice::slice_subrange;
use vstd::string::{StrSliceExecFns, StringExecFns};
use vstd::utf8::encode_utf8;

verus! {

/// What the first token of a line names.
#[derive(Debug, PartialEq)]
pub enum Command {
    Exit,
    Echo,
    Type,
    Pwd,
    Cd,
    /// Anything that is not the name of a builtin.
    Executable { name: String },
}

/// A command with its name as a sequence of characters.
pub enum CommandModel {
    Exit,
    Echo,
    Type,
    Pwd,
    Cd,
    Executable { name: Seq<char> },
}

impl View for Command {
    type V = CommandModel;

    open spec fn view(&self) -> CommandModel {
        match *self {
            Command::Exit => CommandModel::Exit,
            Command::Echo => CommandModel::Echo,
            Command::Type => CommandModel::Type,
            Command::Pwd => CommandModel::Pwd,
            Command::Cd => CommandModel::Cd,
            Command::Executable { name } => CommandModel::Executable { name: name@ },
        }
    }
}

/// The command that `token` names: a builtin where the token is exactly the
/// builtin's name, letter case included; an executable of that name otherwise.
pub open spec fn command_of(token: Seq<char>) -> CommandModel {
    if token == seq!['e', 'x', 'i', 't'] {
        CommandModel::Exit
    } else if token == seq!['e', 'c', 'h', 'o'] {
        CommandModel::Echo
    } else if token == seq!['t', 'y', 'p', 'e'] {
        CommandModel::Type
    } else if token == seq!['p', 'w', 'd'] {
        CommandModel::Pwd
    } else if token == seq!['c', 'd'] {
        CommandModel::Cd
    } else {
        CommandModel::Executable { name: token }
    }
}

/// The names of the builtins.
pub open spec fn builtin_names() -> Seq<Seq<char>> {
    seq![
        seq!['e', 'x', 'i', 't'],
        seq!['e', 'c', 'h', 'o'],
        seq!['t', 'y', 'p', 'e'],
        seq!['p', 'w', 'd'],
        seq!['c', 'd'],
    ]
}

/// What the builtin names spell.
pub proof fn lemma_builtin_spellings()
    ensures
        "exit"@ == seq!['e', 'x', 'i', 't'],
        "echo"@ == seq!['e', 'c', 'h', 'o'],
        "type"@ == seq!['t', 'y', 'p', 'e'],
        "pwd"@ == seq!['p', 'w', 'd'],
        "cd"@ == seq!['c', 'd'],
{
    reveal_strlit("exit");
    reveal_strlit("echo");
    reveal_strlit("type");
    reveal_strlit("pwd");
    reveal_strlit("cd");
    assert("exit"@ =~= seq!['e', 'x', 'i', 't']);
    assert("echo"@ =~= seq!['e', 'c', 'h', 'o']);
    assert("type"@ =~= seq!['t', 'y', 'p', 'e']);
    assert("pwd"@ =~= seq!['p', 'w', 'd']);
    assert("cd"@ =~= seq!['c', 'd']);
}

/// What the host knows and a command may need.
pub struct Host {
    /// The home directory; empty where the host names none.
    pub home: String,
    /// The bytes of the path of the working directory, or the host's own
    /// words on why it cannot be had.
    pub cwd: Result<Vec<u8>, String>,
    /// The entries of each directory of the search path, in the path's
    /// order; none for a directory that cannot be read.
    pub search: Vec<Vec<Entry>>,
}

/// The host's facts as sequences.
pub struct HostModel {
    pub home: Seq<char>,
    pub cwd: Result<Seq<u8>, Seq<char>>,
    pub search: Seq<Seq<EntryModel>>,
}

impl View for Host {
    type V = HostModel;

    open spec fn view(&self) -> HostModel {
        HostModel {
            home: self.home@,
            cwd: match self.cwd {
                Ok(bytes) => Ok(bytes@),
                Err(cause) => Err(cause@),
            },
            search: self.search.deep_view(),
        }
    }
}

/// What is left for the caller to do once a command has written its part.
#[derive(Debug, PartialEq)]
pub enum Effect {
    /// Nothing.
    Done,
    /// End the process with this code, at once.
    Exit(i32),
    /// Change the working directory to this path, and call
    /// [`Command::cd_failed`] if that fails.
    ChangeDir(String),
    /// Run the program `name`, found at `path`, with the arguments of the
    /// line, and hand what it wrote to [`Output::capture`].
    Spawn { name: String, path: String },
    /// Give up with this message: the host failed, for the cause it gave.
    Fatal { message: String, cause: String },
}

/// An effect with its texts as sequences of characters.
pub enum EffectModel {
    Done,
    Exit(i32),
    ChangeDir(Seq<char>),
    Spawn { name: Seq<char>, path: Seq<char> },
    Fatal { message: Seq<char>, cause: Seq<char> },
}

impl View for Effect {
    type V = EffectModel;

    open spec fn view(&self) -> EffectModel {
        match *self {
            Effect::Done => EffectModel::Done,
            Effect::Exit(code) => EffectModel::Exit(code),
            Effect::ChangeDir(path) => EffectModel::ChangeDir(path@),
            Effect::Spawn { name, path } => EffectModel::Spawn { name: name@, path: path@ },
            Effect::Fatal { message, cause } => EffectModel::Fatal {
                message: message@,
                cause: cause@,
            },
        }
    }
}

/// The exit code that the arguments of `exit` ask for: the first argument
/// read as a number, or zero where it is missing or is no number.
pub open spec fn exit_code_of(args: Seq<Seq<char>>) -> i32 {
    if args.len() == 0 {
        0
    } else {
        match parse_i32_of(args[0]) {
            Some(code) => code,
            None => 0,
        }
    }
}

/// What `type` says of one name.
pub open spec fn type_line_of(arg: Seq<char>, search: Seq<Seq<EntryModel>>) -> Seq<char> {
    match command_of(arg) {
        CommandModel::Executable { name } => match resolved(search, name) {
            Some(path) => name + " is "@ + path,
            None => name + ": not found"@,
        },
        _ => arg + " is a shell builtin"@,
    }
}

/// What `type` says of each of its arguments.
pub open spec fn type_lines_of(args: Seq<Seq<char>>, search: Seq<Seq<EntryModel>>) -> Seq<
    Seq<char>,
> {
    Seq::new(args.len(), |i: int| type_line_of(args[i], search))
}

/// The path that `cd` goes to for `path`: the home directory for `~` alone,
/// the home directory in place of the `~` for a path that begins with `~/`,
/// and `path` itself for any other.
pub open spec fn home_expanded(path: Seq<char>, home: Seq<char>) -> Seq<char> {
    if path == seq!['~'] {
        home
    } else if path.len() >= 2 && path[0] == '~' && path[1] == '/' {
        home + path.skip(1)
    } else {
        path
    }
}

/// The message for a command that is neither a builtin nor found on the
/// search path.
pub open spec fn not_found_message(command: Seq<char>) -> Seq<char> {
    command + ": command not found"@
}

/// The message for a directory that `cd` could not change to.
pub open spec fn cd_failed_message(dir: Seq<char>) -> Seq<char> {
    "cd: "@ + dir + ": No such file or directory"@
}

/// The message of `cd` for more than one argument.
pub open spec fn too_many_arguments_message() -> Seq<char> {
    "cd: too many arguments"@
}

/// The message for a working directory that the host could not name.
pub open spec fn no_current_dir_message() -> Seq<char> {
    "failed to get current dir"@
}

/// What `cd` writes and asks for: nothing without an argument; a complaint
/// among the errors for more than one; for exactly one, a change to the
/// path it names, with the home directory filled in.
pub open spec fn cd_of(before: OutputModel, args: Seq<Seq<char>>, home: Seq<char>) -> (
    OutputModel,
    EffectModel,
) {
    if args.len() == 0 {
        (before, EffectModel::Done)
    } else if args.len() > 1 {
        (
            OutputModel { err: before.err + line_bytes(too_many_arguments_message()), ..before },
            EffectModel::Done,
        )
    } else {
        (before, EffectModel::ChangeDir(home_expanded(args[0], home)))
    }
}

/// What `pwd` writes and asks for: the path of the working directory as one
/// line of output, or the end of everything where the host cannot name it.
pub open spec fn pwd_of(before: OutputModel, cwd: Result<Seq<u8>, Seq<char>>) -> (
    OutputModel,
    EffectModel,
) {
    match cwd {
        Ok(path) => (
            OutputModel { out: before.out + path + seq![0x0Au8], ..before },
            EffectModel::Done,
        ),
        Err(cause) => (before, EffectModel::Fatal { message: no_current_dir_message(), cause }),
    }
}

/// What a command that is no builtin writes and asks for: to be run where
/// the search path has it, a complaint among the errors where it has not.
pub open spec fn launch_of(before: OutputModel, name: Seq<char>, search: Seq<Seq<EntryModel>>) -> (
    OutputModel,
    EffectModel,
) {
    match resolved(search, name) {
        Some(path) => (before, EffectModel::Spawn { name, path }),
        None => (
            OutputModel { err: before.err + line_bytes(not_found_message(name)), ..before },
            EffectModel::Done,
        ),
    }
}

/// What a command writes and asks for, given the buffers before it, its
/// arguments and the host's facts.
pub open spec fn run_of(
    command: CommandModel,
    before: OutputModel,
    args: Seq<Seq<char>>,
    host: HostModel,
) -> (OutputModel, EffectModel) {
    match command {
        CommandModel::Exit => (before, EffectModel::Exit(exit_code_of(args))),
        CommandModel::Echo => (
            OutputModel { out: before.out + line_bytes(join(args, seq![' '])), ..before },
            EffectModel::Done,
        ),
        CommandModel::Type => (
            OutputModel {
                out: before.out + line_bytes(join(type_lines_of(args, host.search), seq!['\n'])),
                ..before
            },
            EffectModel::Done,
        ),
        CommandModel::Pwd => pwd_of(before, host.cwd),
        CommandModel::Cd => cd_of(before, args, host.home),
        CommandModel::Executable { name } => launch_of(before, name, host.search),
    }
}

/// The candidates among the first `n` of `names` that begin with `line`, each
/// with a space behind it.
pub open spec fn candidates(names: Seq<Seq<char>>, line: Seq<char>, n: int) -> Seq<Seq<char>>
    decreases n,
{
    if n <= 0 {
        Seq::empty()
    } else if line.is_prefix_of(names[n - 1]) {
        candidates(names, line, n - 1).push(names[n - 1] + seq![' '])
    } else {
        candidates(names, line, n - 1)
    }
}

/// The lines that complete `line`: every builtin name that begins with it,
/// with a space behind.
pub open spec fn completions_of(line: Seq<char>) -> Seq<Seq<char>> {
    candidates(builtin_names(), line, builtin_names().len() as int)
}

/// Offers the builtin names that begin with what was typed. Each candidate
/// stands for the whole line: the position returned, from which a candidate
/// replaces the line, is its start.
pub fn complete(line: &str) -> (r: (usize, Vec<String>))
    ensures
        r.0 == 0,
        r.1.deep_view() == completions_of(line@),
{
    let names = Command::available_commands();
    let mut found: Vec<String> = Vec::new();
    let n = names.len();
    for i in 0..n
        invariant
            n == names@.len(),
            names.deep_view() == builtin_names(),
            found.deep_view() == candidates(builtin_names(), line@, i as int),
    {
        let ghost before = found.deep_view();
        assert(names.deep_view()[i as int] == names@[i as int]@);
        if starts_with(names[i], line) {
            let mut candidate = names[i].to_owned();
            candidate.push(' ');
            assert(candidate@ =~= names@[i as int]@ + seq![' ']);
            found.push(candidate);
            assert(found.deep_view() =~= before.push(names@[i as int]@ + seq![' ']));
        }
    }
    (0, found)
}

/// The command of a split and its arguments: the first of `cmd_args` read as
/// a command, with the rest. `None` for a line without a command.
pub fn invocation<'s, 'a>(split: &'s Split<'a>) -> (r: Option<(Command, &'s [&'a str])>)
    ensures
        match r {
            Some((command, args)) => split@.cmd_args.len() > 0 && command@ == command_of(
                split@.cmd_args[0],
            ) && args.deep_view() == split@.cmd_args.skip(1),
            None => split@.cmd_args.len() == 0,
        },
{
    let n = split.cmd_args.len();
    if n == 0 {
        return None;
    }
    let command = Command::parse(split.cmd_args[0]);
    let args = slice_subrange(split.cmd_args.as_slice(), 1, n);
    assert(args.deep_view() =~= split@.cmd_args.skip(1));
    Some((command, args))
}

/// The bytes of the message for an unknown command, without a line feed.
pub fn command_not_found(command: &str) -> (r: Vec<u8>)
    ensures
        r@ == encode_utf8(not_found_message(command@)),
{
    let mut message = command.to_owned();
    message.append(": command not found");
    message.as_str().as_bytes_vec()
}

impl Command {
    /// Reads the first token of a line as a command.
    pub fn parse(command: &str) -> (r: Self)
        ensures
            r@ == command_of(command@),
    {
        proof {
            lemma_builtin_spellings();
        }
        if command.eq("exit") {
            Command::Exit
        } else if command.eq("echo") {
            Command::Echo
        } else if command.eq("type") {
            Command::Type
        } else if command.eq("pwd") {
            Command::Pwd
        } else if command.eq("cd") {
            Command::Cd
        } else {
            Command::Executable { name: command.to_owned() }
        }
    }

    /// The names of the builtins.
    pub fn available_commands() -> (r: Vec<&'static str>)
        ensures
            r.deep_view() == builtin_names(),
    {
        proof {
            lemma_builtin_spellings();
        }
        let mut names: Vec<&'static str> = Vec::new();
        names.push("exit");
        names.push("echo");
        names.push("type");
        names.push("pwd");
        names.push("cd");
        assert(names.deep_view() =~= builtin_names());
        names
    }

    /// Tells whether the command needs the entries of the search path.
    pub fn needs_search_path(&self) -> (r: bool)
        ensures
            r == (self@ is Type || self@ is Executable),
    {
        match self {
            Command::Type => true,
            Command::Executable { .. } => true,
            _ => false,
        }
    }

    /// `exit`: asks for the end of the process, with the code that the first
    /// argument names, or zero. Nothing is written.
    pub fn exit(args: &[&str]) -> (r: Effect)
        ensures
            r@ == EffectModel::Exit(exit_code_of(args.deep_view())),
    {
        let code = if args.len() == 0 {
            0
        } else {
            match parse_i32(args[0]) {
                Some(code) => code,
                None => 0,
            }
        };
        Effect::Exit(code)
    }

    /// `echo`: writes the arguments, a space between each two, as one line
    /// of output.
    pub fn echo(w: &mut Output, args: &[&str])
        ensures
            final(w)@ == (OutputModel {
                out: old(w)@.out + line_bytes(join(args.deep_view(), seq![' '])),
                err: old(w)@.err,
            }),
    {
        proof {
            reveal_strlit(" ");
            assert(" "@ =~= seq![' ']);
        }
        let line = join_strs(args, " ");
        write_and_flush_str(&mut w.out, line.as_str());
    }

    /// The message for a command that cannot be found, written as one line.
    pub fn command_not_found(w: &mut Vec<u8>, command: &str)
        ensures
            final(w)@ == old(w)@ + line_bytes(not_found_message(command@)),
    {
        let message = command_not_found(command);
        write_and_flush_buf(w, message.as_slice());
    }

    /// What `type` says of one name.
    pub fn type_line(arg: &str, host: &Host) -> (r: String)
        ensures
            r@ == type_line_of(arg@, host@.search),
    {
        match Command::parse(arg) {
            Command::Executable { name } => match Command::find_executable_in_path(
                name.as_str(),
                host,
            ) {
                Some(path) => {
                    let mut line = name;
                    line.append(" is ");
                    line.append(path.as_str());
                    line
                },
                None => {
                    let mut line = name;
                    line.append(": not found");
                    line
                },
            },
            _ => {
                let mut line = arg.to_owned();
                line.append(" is a shell builtin");
                line
            },
        }
    }

    /// `type`: says of each argument whether it is a builtin, where it is
    /// found on the search path, or that it is not found; one line of output
    /// for each argument, written at once.
    pub fn type_cmd(w: &mut Output, args: &[&str], host: &Host)
        ensures
            final(w)@ == (OutputModel {
                out: old(w)@.out + line_bytes(
                    join(type_lines_of(args.deep_view(), host@.search), seq!['\n']),
                ),
                err: old(w)@.err,
            }),
    {
        let mut outputs: Vec<String> = Vec::new();
        let n = args.len();
        for i in 0..n
            invariant
                n == args@.len(),
                outputs@.len() == i,
                forall|k: int|
                    0 <= k < i ==> (#[trigger] outputs@[k])@ == type_line_of(
                        args@[k]@,
                        host@.search,
                    ),
        {
            outputs.push(Command::type_line(args[i], host));
        }
        assert(outputs.deep_view() =~= type_lines_of(args.deep_view(), host@.search));
        proof {
            reveal_strlit("\n");
            assert("\n"@ =~= seq!['\n']);
        }
        let lines = as_strs(outputs.as_slice());
        let text = join_strs(lines.as_slice(), "\n");
        write_and_flush_str(&mut w.out, text.as_str());
    }

    /// `pwd`: writes the path of the working directory as one line of output.
    pub fn pwd(w: &mut Output, host: &Host) -> (r: Effect)
        ensures
            (final(w)@, r@) == pwd_of(old(w)@, host@.cwd),
    {
        match &host.cwd {
            Ok(path) => {
                write_and_flush_buf(&mut w.out, path.as_slice());
                Effect::Done
            },
            Err(cause) => Effect::Fatal {
                message: "failed to get current dir".to_owned(),
                cause: cause.clone(),
            },
        }
    }

    /// Puts the home directory in place of a leading `~` that is a path
    /// segment of its own.
    pub fn replace_with_home_dir(path: &str, home: &str) -> (r: String)
        ensures
            r@ == home_expanded(path@, home@),
    {
        let mut idx: usize = 0;
        let mut tilde = false;
        let mut slash = false;
        let mut expanded = home.to_owned();
        let _bytes = byte_len(path);
        for ch in it: path.chars()
            invariant
                it.seq() == path@,
                idx == it.index(),
                path@.len() <= usize::MAX,
                tilde == (idx > 0 && path@[0] == '~'),
                slash == (idx > 1 && path@[1] == '/'),
                expanded@ == home@ + path@.take(idx as int).skip(if idx > 0 { 1int } else { 0int }),
        {
            if idx == 0 {
                tilde = ch == '~';
                assert(path@.take(1).skip(1) =~= Seq::<char>::empty());
                assert(path@.take(0).skip(0) =~= Seq::<char>::empty());
            } else {
                if idx == 1 {
                    slash = ch == '/';
                }
                expanded.push(ch);
                assert(path@.take(idx + 1).skip(1) =~= path@.take(idx as int).skip(1).push(ch));
            }
            idx = idx + 1;
        }
        assert(path@.take(idx as int) == path@);
        if tilde && idx == 1 {
            assert(path@ =~= seq!['~']);
            assert(expanded@ =~= home@);
            expanded
        } else if tilde && slash {
            expanded
        } else {
            assert(path@ != seq!['~']) by {
                if path@ == seq!['~'] {
                    assert(path@.len() == 1);
                    assert(path@[0] == '~');
                }
            }
            path.to_owned()
        }
    }

    /// `cd`: decides where to go. See [`cd_of`].
    pub fn cd(w: &mut Output, args: &[&str], host: &Host) -> (r: Effect)
        ensures
            (final(w)@, r@) == cd_of(old(w)@, args.deep_view(), host@.home),
    {
        if args.len() == 0 {
            return Effect::Done;
        }
        if args.len() > 1 {
            write_and_flush_str(&mut w.err, "cd: too many arguments");
            return Effect::Done;
        }
        Effect::ChangeDir(Command::replace_with_home_dir(args[0], host.home.as_str()))
    }

    /// Reports that the working directory could not be changed to `dir`, as
    /// one line of output.
    pub fn cd_failed(w: &mut Output, dir: &str)
        ensures
            final(w)@ == (OutputModel {
                out: old(w)@.out + line_bytes(cd_failed_message(dir@)),
                err: old(w)@.err,
            }),
    {
        let mut message = "cd: ".to_owned();
        message.append(dir);
        message.append(": No such file or directory");
        write_and_flush_str(&mut w.out, message.as_str());
    }

    /// Carries out the command as far as the buffers go, and says what is
    /// left for the host to do.
    pub fn execute(&self, w: &mut Output, args: &[&str], host: &Host) -> (r: Effect)
        ensures
            (final(w)@, r@) == run_of(self@, old(w)@, args.deep_view(), host@),
    {
        match self {
            Command::Exit => Command::exit(args),
            Command::Echo => {
                Command::echo(w, args);
                Effect::Done
            },
            Command::Type => {
                Command::type_cmd(w, args, host);
                Effect::Done
            },
            Command::Pwd => Command::pwd(w, host),
            Command::Cd => Command::cd(w, args, host),
            Command::Executable { name } => match Command::find_executable_in_path(
                name.as_str(),
                host,
            ) {
                Some(path) => Effect::Spawn { name: name.clone(), path },
                None => {
                    Command::command_not_found(&mut w.err, name.as_str());
                    Effect::Done
                },
            },
        }
    }

    /// Resolves a name on the host's search path.
    pub fn find_executable_in_path(name: &str, host: &Host) -> (r: Option<String>)
        ensures
            match r {
                Some(path) => resolved(host@.search, name@) == Some(path@),
                None => resolved(host@.search, name@) is None,
            },
    {
        resolve_executable(name, host.search.as_slice())
    }
}

} // verus!
