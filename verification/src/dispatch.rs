//! The command dispatcher: a line is split at `&&` into commands, each
//! command into words, and the first word decides what is to be done.

use vstd::prelude::*;
use crate::echo::{echo, echo_plan, EchoAction, EchoPlan};
use crate::listing::{parse_flags, ListOptions};
use crate::number::{parse_i32, parsed_i32};
use crate::search::SearchOptions;
use crate::text::{
    chars_of, copy_range, optional_text, push_all, rows, same_text, split, split_text,
    split_whitespace, string_of, texts, to_rows, to_strings, trim, trimmed, words,
};

verus! {

/// Why a `grep` command cannot be run.
#[derive(Clone, Copy, Debug, PartialEq, Eq)]
pub enum GrepError {
    /// Fewer than two arguments.
    Usage,
    /// `-m` is the last argument.
    MissingCount,
    /// What follows `-m` is no number.
    InvalidCount,
}

/// A search that was asked for.
#[derive(Debug, PartialEq, Eq)]
pub struct GrepRequest {
    pub pattern: String,
    pub paths: Vec<String>,
    pub options: SearchOptions,
}

/// The mathematical value of a `GrepRequest`.
pub struct GrepPlan {
    pub pattern: Seq<char>,
    pub paths: Seq<Seq<char>>,
    pub options: SearchOptions,
}

impl View for GrepRequest {
    type V = GrepPlan;

    open spec fn view(&self) -> GrepPlan {
        GrepPlan { pattern: self.pattern@, paths: texts(self.paths@), options: self.options }
    }
}

/// The value of the outcome of reading a `grep` command.
pub open spec fn outcome(r: Result<GrepRequest, GrepError>) -> Result<GrepPlan, GrepError> {
    match r {
        Ok(request) => Ok(request@),
        Err(e) => Err(e),
    }
}

/// `s` without one double quote at each end, where it has both.
pub open spec fn unquoted(s: Seq<char>) -> Seq<char> {
    if s.len() >= 2 && s[0] == '"' && s.last() == '"' {
        s.subrange(1, s.len() - 1)
    } else {
        s
    }
}

/// Reads the arguments from index `from` on: `-i` switches case off, `-m`
/// takes the next argument as the cap, and every other argument is a path.
pub open spec fn grep_rest(args: Seq<Seq<char>>, from: int, plan: GrepPlan) -> Result<
    GrepPlan,
    GrepError,
>
    decreases args.len() - from,
{
    if from < 0 || from >= args.len() {
        Ok(plan)
    } else if args[from] == "-i"@ {
        grep_rest(
            args,
            from + 1,
            GrepPlan {
                options: SearchOptions { case_sensitive: false, ..plan.options },
                ..plan
            },
        )
    } else if args[from] == "-m"@ {
        if from + 1 >= args.len() {
            Err(GrepError::MissingCount)
        } else {
            match parsed_i32(args[from + 1]) {
                Some(cap) => grep_rest(
                    args,
                    from + 2,
                    GrepPlan {
                        options: SearchOptions { max_matches: Some(cap), ..plan.options },
                        ..plan
                    },
                ),
                None => Err(GrepError::InvalidCount),
            }
        }
    } else {
        grep_rest(args, from + 1, GrepPlan { paths: plan.paths.push(args[from]), ..plan })
    }
}

/// The search that the arguments of `grep` ask for: the first is the pattern,
/// trimmed and unquoted, the others are paths and options. At least two
/// arguments are needed.
pub open spec fn grep_plan(args: Seq<Seq<char>>) -> Result<GrepPlan, GrepError> {
    if args.len() < 2 {
        Err(GrepError::Usage)
    } else {
        grep_rest(
            args,
            1,
            GrepPlan {
                pattern: unquoted(trimmed(args[0])),
                paths: Seq::empty(),
                options: SearchOptions { case_sensitive: true, max_matches: None },
            },
        )
    }
}

/// Takes one double quote off each end of `s`, where it has both.
pub fn unquote(s: &Vec<char>) -> (out: Vec<char>)
    ensures
        out@ == unquoted(s@),
{
    let n: usize = s.len();
    if n >= 2 && s[0] == '"' && s[n - 1] == '"' {
        copy_range(s, 1, n - 1)
    } else {
        let out = copy_range(s, 0, n);
        assert(out@ =~= s@);
        out
    }
}

/// Reads the arguments of a `grep` command.
pub fn parse_grep(args: &Vec<String>) -> (r: Result<GrepRequest, GrepError>)
    ensures
        outcome(r) == grep_plan(texts(args@)),
{
    let given = to_rows(args);
    if given.len() < 2 {
        return Err(GrepError::Usage);
    }
    let fold = chars_of("-i");
    let cap_flag = chars_of("-m");
    let pattern = string_of(&unquote(&trim(&given[0])));
    let mut paths: Vec<String> = Vec::new();
    let mut options = SearchOptions { case_sensitive: true, max_matches: None };
    let mut i: usize = 1;
    assert(texts(paths@) =~= Seq::<Seq<char>>::empty());
    while i < given.len()
        invariant
            1 <= i <= given.len(),
            rows(given@) == texts(args@),
            given.len() >= 2,
            fold@ == "-i"@,
            cap_flag@ == "-m"@,
            pattern@ == unquoted(trimmed(rows(given@)[0])),
            grep_rest(
                rows(given@),
                i as int,
                GrepPlan { pattern: pattern@, paths: texts(paths@), options },
            ) == grep_plan(rows(given@)),
        decreases given.len() - i,
    {
        assert(rows(given@)[i as int] == given@[i as int]@);
        if same_text(&given[i], &fold) {
            options.case_sensitive = false;
            i += 1;
        } else if same_text(&given[i], &cap_flag) {
            if i + 1 >= given.len() {
                return Err(GrepError::MissingCount);
            }
            assert(rows(given@)[i + 1] == given@[i + 1]@);
            match parse_i32(&given[i + 1]) {
                Some(cap) => {
                    options.max_matches = Some(cap);
                    i += 2;
                },
                None => {
                    return Err(GrepError::InvalidCount);
                },
            }
        } else {
            let path = string_of(&given[i]);
            assert(texts(paths@.push(path)) =~= texts(paths@).push(path@));
            paths.push(path);
            i += 1;
        }
    }
    Ok(GrepRequest { pattern, paths, options })
}

/// What one command asks for.
#[derive(Debug, PartialEq, Eq)]
pub enum Command {
    /// Leave the interpreter.
    Exit,
    /// Print or append, as `echo` decided.
    Echo(EchoAction),
    /// Print the working directory.
    Pwd,
    /// `pwd` was given arguments: say so, print no path.
    PwdUsage,
    /// List the working directory.
    Ls(ListOptions),
    /// Print the file of this name in the working directory.
    Cat(String),
    /// Make the file at this path, if it is not there.
    Touch(String),
    /// Make the directory at this path, and its missing parents.
    Mkdir(String),
    /// Make this path the working directory.
    Cd(String),
    /// Search.
    Grep(GrepRequest),
    /// A `grep` command that cannot be run.
    GrepFailed(GrepError),
    /// A command that needs an operand and has none: nothing is done.
    Nothing,
    /// No command was given.
    Empty,
    /// The first word is no command.
    Unknown,
}

/// The mathematical value of a `Command`.
pub enum CommandPlan {
    Exit,
    Echo(EchoPlan),
    Pwd,
    PwdUsage,
    Ls(ListOptions),
    Cat(Seq<char>),
    Touch(Seq<char>),
    Mkdir(Seq<char>),
    Cd(Seq<char>),
    Grep(GrepPlan),
    GrepFailed(GrepError),
    Nothing,
    Empty,
    Unknown,
}

impl View for Command {
    type V = CommandPlan;

    open spec fn view(&self) -> CommandPlan {
        match self {
            Command::Exit => CommandPlan::Exit,
            Command::Echo(action) => CommandPlan::Echo(action@),
            Command::Pwd => CommandPlan::Pwd,
            Command::PwdUsage => CommandPlan::PwdUsage,
            Command::Ls(options) => CommandPlan::Ls(*options),
            Command::Cat(path) => CommandPlan::Cat(path@),
            Command::Touch(path) => CommandPlan::Touch(path@),
            Command::Mkdir(path) => CommandPlan::Mkdir(path@),
            Command::Cd(path) => CommandPlan::Cd(path@),
            Command::Grep(request) => CommandPlan::Grep(request@),
            Command::GrepFailed(e) => CommandPlan::GrepFailed(*e),
            Command::Nothing => CommandPlan::Nothing,
            Command::Empty => CommandPlan::Empty,
            Command::Unknown => CommandPlan::Unknown,
        }
    }
}

/// The values of a sequence of commands.
pub open spec fn plans(s: Seq<Command>) -> Seq<CommandPlan> {
    s.map_values(|c: Command| c@)
}

/// The flags that the arguments of `ls` hold.
pub open spec fn flags_of(args: Seq<Seq<char>>) -> ListOptions {
    ListOptions {
        show_hidden: args.contains("-a"@),
        reverse: args.contains("-r"@),
        long_format: args.contains("-l"@),
    }
}

/// The `grep` command that the arguments ask for.
pub open spec fn grep_command(args: Seq<Seq<char>>) -> CommandPlan {
    match grep_plan(args) {
        Ok(plan) => CommandPlan::Grep(plan),
        Err(e) => CommandPlan::GrepFailed(e),
    }
}

/// The command that a sequence of words stands for: the first word is looked
/// up among `exit`, `echo`, `pwd`, `ls`, `cat`, `touch`, `mkdir`, `cd` and
/// `grep`, the others are its arguments.
pub open spec fn command_of(tokens: Seq<Seq<char>>) -> CommandPlan {
    if tokens.len() == 0 {
        CommandPlan::Empty
    } else {
        let name = tokens[0];
        let args = tokens.skip(1);
        if name == "exit"@ {
            CommandPlan::Exit
        } else if name == "echo"@ {
            CommandPlan::Echo(echo_plan(args))
        } else if name == "pwd"@ {
            if args.len() > 0 {
                CommandPlan::PwdUsage
            } else {
                CommandPlan::Pwd
            }
        } else if name == "ls"@ {
            CommandPlan::Ls(flags_of(args))
        } else if name == "cat"@ {
            if args.len() > 0 {
                CommandPlan::Cat(args[0])
            } else {
                CommandPlan::Nothing
            }
        } else if name == "touch"@ {
            if args.len() > 0 {
                CommandPlan::Touch(args[0])
            } else {
                CommandPlan::Nothing
            }
        } else if name == "mkdir"@ {
            if args.len() > 0 {
                CommandPlan::Mkdir(args[0])
            } else {
                CommandPlan::Nothing
            }
        } else if name == "cd"@ {
            if args.len() > 0 {
                CommandPlan::Cd(args[0])
            } else {
                CommandPlan::Nothing
            }
        } else if name == "grep"@ {
            grep_command(args)
        } else {
            CommandPlan::Unknown
        }
    }
}

/// The first argument, when there is one.
fn operand(args: &Vec<String>) -> (out: Option<String>)
    ensures
        match out {
            Some(text) => args.len() > 0 && text@ == texts(args@)[0],
            None => args.len() == 0,
        },
{
    if args.len() > 0 {
        Some(args[0].clone())
    } else {
        None
    }
}

/// Looks the first word up and reads the others as its arguments.
fn command_of_words(words: Vec<Vec<char>>) -> (command: Command)
    ensures
        command@ == command_of(rows(words@)),
{
    let mut words = words;
    if words.len() == 0 {
        return Command::Empty;
    }
    let ghost all = rows(words@);
    let name = words.remove(0);
    let args = to_strings(&words);
    proof {
        assert(all[0] == name@);
        assert(rows(words@) =~= all.skip(1));
    }
    if same_text(&name, &chars_of("exit")) {
        Command::Exit
    } else if same_text(&name, &chars_of("echo")) {
        Command::Echo(echo(&args))
    } else if same_text(&name, &chars_of("pwd")) {
        if args.len() > 0 {
            Command::PwdUsage
        } else {
            Command::Pwd
        }
    } else if same_text(&name, &chars_of("ls")) {
        Command::Ls(parse_flags(&args))
    } else if same_text(&name, &chars_of("cat")) {
        match operand(&args) {
            Some(path) => Command::Cat(path),
            None => Command::Nothing,
        }
    } else if same_text(&name, &chars_of("touch")) {
        match operand(&args) {
            Some(path) => Command::Touch(path),
            None => Command::Nothing,
        }
    } else if same_text(&name, &chars_of("mkdir")) {
        match operand(&args) {
            Some(path) => Command::Mkdir(path),
            None => Command::Nothing,
        }
    } else if same_text(&name, &chars_of("cd")) {
        match operand(&args) {
            Some(path) => Command::Cd(path),
            None => Command::Nothing,
        }
    } else if same_text(&name, &chars_of("grep")) {
        match parse_grep(&args) {
            Ok(request) => Command::Grep(request),
            Err(e) => Command::GrepFailed(e),
        }
    } else {
        Command::Unknown
    }
}

/// Looks a tokenized command up.
pub fn command_from(tokens: &Vec<String>) -> (command: Command)
    ensures
        command@ == command_of(texts(tokens@)),
{
    command_of_words(to_rows(tokens))
}

/// The command that a piece of a line stands for: the piece is trimmed and
/// split into words at runs of whitespace.
pub open spec fn command_in(segment: Seq<char>) -> CommandPlan {
    command_of(words(trimmed(segment)))
}

fn command_in_chars(segment: &Vec<char>) -> (command: Command)
    ensures
        command@ == command_in(segment@),
{
    command_of_words(split_whitespace(&trim(segment)))
}

/// Reads one command.
pub fn parse_command(segment: &str) -> (command: Command)
    ensures
        command@ == command_in(segment@),
{
    command_in_chars(&chars_of(segment))
}

/// The commands up to the first `exit`, which is the last that is run.
pub open spec fn until_exit(commands: Seq<CommandPlan>) -> Seq<CommandPlan>
    decreases commands.len(),
{
    if commands.len() == 0 {
        commands
    } else if commands[0] is Exit {
        seq![CommandPlan::Exit]
    } else {
        seq![commands[0]] + until_exit(commands.drop_first())
    }
}

/// What is run is the chain up to its first `exit`: the commands in their
/// order, none but the last an `exit`, and nothing left out but what follows
/// an `exit`.
pub proof fn lemma_exit_ends_the_chain(commands: Seq<CommandPlan>)
    ensures
        ({
            let run = until_exit(commands);
            &&& run.len() <= commands.len()
            &&& forall|i: int| 0 <= i < run.len() ==> #[trigger] run[i] == commands[i]
            &&& forall|i: int| 0 <= i < run.len() - 1 ==> !(#[trigger] run[i] is Exit)
            &&& run.len() < commands.len() ==> run.last() is Exit
        }),
    decreases commands.len(),
{
    if commands.len() > 0 && !(commands[0] is Exit) {
        let rest = commands.drop_first();
        lemma_exit_ends_the_chain(rest);
        let run = until_exit(commands);
        let tail = until_exit(rest);
        assert forall|i: int| 0 <= i < run.len() implies #[trigger] run[i] == commands[i] by {
            if i > 0 {
                assert(run[i] == tail[i - 1]);
                assert(rest[i - 1] == commands[i]);
            }
        }
        assert forall|i: int| 0 <= i < run.len() - 1 implies !(#[trigger] run[i] is Exit) by {
            if i > 0 {
                assert(run[i] == tail[i - 1]);
            }
        }
        if run.len() < commands.len() {
            assert(run.last() == tail.last());
        }
    }
}

/// A chain without `exit` is run whole, whatever its commands are: a command
/// that cannot be run stops none of the others.
pub proof fn lemma_chain_runs_whole(commands: Seq<CommandPlan>)
    requires
        forall|i: int| 0 <= i < commands.len() ==> !(#[trigger] commands[i] is Exit),
    ensures
        until_exit(commands) == commands,
    decreases commands.len(),
{
    if commands.len() > 0 {
        let rest = commands.drop_first();
        assert forall|i: int| 0 <= i < rest.len() implies !(#[trigger] rest[i] is Exit) by {
            assert(rest[i] == commands[i + 1]);
        }
        lemma_chain_runs_whole(rest);
        assert(seq![commands[0]] + rest =~= commands);
    }
}

/// The commands of the pieces of a line, piece by piece.
pub open spec fn commands_in(segments: Seq<Seq<char>>) -> Seq<CommandPlan> {
    segments.map_values(|s: Seq<char>| command_in(s))
}

/// What a line asks for, in order. A line that is a new line and no more asks
/// for nothing. Every other line is split at each `&&`; each piece is a
/// command, and what follows an `exit` is dropped.
pub open spec fn line_plan(line: Seq<char>) -> Seq<CommandPlan> {
    if line == "\n"@ {
        Seq::empty()
    } else {
        until_exit(commands_in(split_text(line, "&&"@)))
    }
}

/// Reads a line of input.
pub fn parse_line(line: &str) -> (commands: Vec<Command>)
    ensures
        plans(commands@) == line_plan(line@),
{
    let chars = chars_of(line);
    let mut commands: Vec<Command> = Vec::new();
    assert(plans(commands@) =~= Seq::<CommandPlan>::empty());
    if same_text(&chars, &chars_of("\n")) {
        return commands;
    }
    let segments = split(&chars, &chars_of("&&"));
    let ghost all = commands_in(rows(segments@));
    let mut i: usize = 0;
    assert(all.skip(0) =~= all);
    assert(plans(commands@) + until_exit(all) =~= until_exit(all));
    assert(until_exit(all) == line_plan(line@));
    while i < segments.len()
        invariant
            i <= segments.len(),
            all == commands_in(rows(segments@)),
            until_exit(all) == line_plan(line@),
            plans(commands@) + until_exit(all.skip(i as int)) == until_exit(all),
        decreases segments.len() - i,
    {
        let command = command_in_chars(&segments[i]);
        let last: bool = match &command {
            Command::Exit => true,
            _ => false,
        };
        proof {
            let rest = all.skip(i as int);
            assert(rest[0] == command@);
            assert(rest.drop_first() =~= all.skip(i + 1));
            assert(plans(commands@.push(command)) =~= plans(commands@).push(command@));
            if last {
                assert(plans(commands@).push(command@) =~= plans(commands@) + until_exit(rest));
            } else {
                assert(plans(commands@).push(command@) + until_exit(all.skip(i + 1)) =~= plans(
                    commands@,
                ) + until_exit(rest));
            }
        }
        commands.push(command);
        if last {
            return commands;
        }
        i += 1;
    }
    assert(plans(commands@) + Seq::<CommandPlan>::empty() =~= plans(commands@));
    commands
}

/// What is written to the error stream for a command that cannot be run:
/// nothing for every command that can.
pub open spec fn complaint_of(plan: CommandPlan) -> Option<Seq<char>> {
    match plan {
        CommandPlan::Unknown => Some("Error: Command not recognized!"@),
        CommandPlan::Empty => Some("Error: No command given!"@),
        CommandPlan::PwdUsage => Some("Did you mean pwd?"@),
        CommandPlan::GrepFailed(GrepError::Usage) => Some(
            "Error in `grep` syntax: grep \"search pattern\" [file_name] [options]"@,
        ),
        CommandPlan::GrepFailed(GrepError::MissingCount) => Some(
            "Error: Missing argument for -m option"@,
        ),
        CommandPlan::GrepFailed(GrepError::InvalidCount) => Some(
            "Error: Invalid argument for -m option"@,
        ),
        _ => None,
    }
}

/// The message for a command that cannot be run.
pub fn complaint(command: &Command) -> (out: Option<String>)
    ensures
        optional_text(out) == complaint_of(command@),
{
    match command {
        Command::Unknown => Some("Error: Command not recognized!".to_owned()),
        Command::Empty => Some("Error: No command given!".to_owned()),
        Command::PwdUsage => Some("Did you mean pwd?".to_owned()),
        Command::GrepFailed(GrepError::Usage) => Some(
            "Error in `grep` syntax: grep \"search pattern\" [file_name] [options]".to_owned(),
        ),
        Command::GrepFailed(GrepError::MissingCount) => Some(
            "Error: Missing argument for -m option".to_owned(),
        ),
        Command::GrepFailed(GrepError::InvalidCount) => Some(
            "Error: Invalid argument for -m option".to_owned(),
        ),
        _ => None,
    }
}

/// A first word that is none of the nine commands is an unknown command,
/// whatever follows it: it gets a message and asks for nothing else.
pub proof fn lemma_unknown_command(tokens: Seq<Seq<char>>)
    requires
        tokens.len() > 0,
        tokens[0] != "exit"@,
        tokens[0] != "echo"@,
        tokens[0] != "pwd"@,
        tokens[0] != "ls"@,
        tokens[0] != "cat"@,
        tokens[0] != "touch"@,
        tokens[0] != "mkdir"@,
        tokens[0] != "cd"@,
        tokens[0] != "grep"@,
    ensures
        command_of(tokens) == CommandPlan::Unknown,
        complaint_of(command_of(tokens)) is Some,
{
}

/// The path of the file that `cat` prints: an operand that begins with a
/// slash names the file itself; every other operand names a file under the
/// working directory.
pub open spec fn cat_target(directory: Seq<char>, operand: Seq<char>) -> Seq<char> {
    if operand.len() > 0 && operand[0] == '/' {
        operand
    } else {
        directory + "/"@ + operand
    }
}

/// Resolves the operand of `cat` against the working directory.
pub fn cat_path(directory: &str, operand: &str) -> (out: String)
    ensures
        out@ == cat_target(directory@, operand@),
{
    let name = chars_of(operand);
    if name.len() > 0 && name[0] == '/' {
        return string_of(&name);
    }
    let mut out = chars_of(directory);
    push_all(&mut out, &chars_of("/"));
    push_all(&mut out, &name);
    string_of(&out)
}

} // verus!
