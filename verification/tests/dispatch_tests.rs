use mini_shell::dispatch::{
    cat_path, command_from, complaint, parse_command, parse_grep, parse_line, unquote, Command,
    GrepError, GrepRequest,
};
use mini_shell::echo::EchoAction;
use mini_shell::listing::ListOptions;
use mini_shell::search::SearchOptions;
use mini_shell::text::chars_of;

fn words(list: &[&str]) -> Vec<String> {
    list.iter().map(|w| w.to_string()).collect()
}

fn request(pattern: &str, paths: &[&str], case_sensitive: bool, max_matches: Option<i32>) -> GrepRequest {
    GrepRequest {
        pattern: pattern.to_string(),
        paths: words(paths),
        options: SearchOptions { case_sensitive, max_matches },
    }
}

fn no_flags() -> ListOptions {
    ListOptions { show_hidden: false, reverse: false, long_format: false }
}

#[test]
fn a_bare_new_line_asks_for_nothing() {
    assert_eq!(parse_line("\n"), vec![]);
}

#[test]
fn a_line_is_split_at_the_chain_separator() {
    let mut all = no_flags();
    all.show_hidden = true;
    assert_eq!(parse_line("ls -a && pwd\n"), vec![Command::Ls(all), Command::Pwd]);
    assert_eq!(parse_line("pwd&&pwd&&pwd\n"), vec![Command::Pwd, Command::Pwd, Command::Pwd]);
    assert_eq!(parse_line("pwd\n"), vec![Command::Pwd]);
}

#[test]
fn exit_drops_what_follows_it() {
    assert_eq!(parse_line("exit\n"), vec![Command::Exit]);
    assert_eq!(parse_line("exit && ls\n"), vec![Command::Exit]);
    assert_eq!(parse_line("ls && exit && pwd && exit\n"), vec![Command::Ls(no_flags()), Command::Exit]);
    assert_eq!(parse_line("exit now\n"), vec![Command::Exit]);
}

#[test]
fn a_failing_command_does_not_stop_the_chain() {
    assert_eq!(
        parse_line("frobnicate && pwd x && grep a && pwd\n"),
        vec![Command::Unknown, Command::PwdUsage, Command::GrepFailed(GrepError::Usage), Command::Pwd]
    );
}

#[test]
fn an_unknown_command_gets_a_message_and_nothing_else() {
    let commands = parse_line("frobnicate\n");
    assert_eq!(commands, vec![Command::Unknown]);
    assert_eq!(complaint(&commands[0]), Some("Error: Command not recognized!".to_string()));
    assert_eq!(parse_command("frobnicate --force /"), Command::Unknown);
    assert_eq!(parse_command("EXIT"), Command::Unknown);
    assert_eq!(parse_command("lss"), Command::Unknown);
}

#[test]
fn an_empty_command_is_an_error_of_its_own() {
    assert_eq!(parse_line("&&\n"), vec![Command::Empty, Command::Empty]);
    assert_eq!(parse_line(""), vec![Command::Empty]);
    assert_eq!(parse_line("  \n"), vec![Command::Empty]);
    assert_eq!(parse_line("pwd &&\n"), vec![Command::Pwd, Command::Empty]);
    assert_eq!(complaint(&Command::Empty), Some("Error: No command given!".to_string()));
}

#[test]
fn the_separator_is_taken_wherever_it_stands() {
    assert_eq!(
        parse_line("echo a&&b\n"),
        vec![Command::Echo(EchoAction::Print("a\n".to_string())), Command::Unknown]
    );
    assert_eq!(parse_line("pwd&&&pwd\n"), vec![Command::Pwd, Command::Unknown]);
}

#[test]
fn pwd_takes_no_arguments() {
    assert_eq!(parse_command("pwd"), Command::Pwd);
    assert_eq!(parse_command("  pwd  "), Command::Pwd);
    assert_eq!(parse_command("pwd -P"), Command::PwdUsage);
    assert_eq!(complaint(&Command::PwdUsage), Some("Did you mean pwd?".to_string()));
    assert_eq!(complaint(&Command::Pwd), None);
}

#[test]
fn ls_carries_its_flags() {
    assert_eq!(parse_command("ls"), Command::Ls(no_flags()));
    assert_eq!(
        parse_command("ls -l -x -r"),
        Command::Ls(ListOptions { show_hidden: false, reverse: true, long_format: true })
    );
}

#[test]
fn echo_carries_its_action() {
    assert_eq!(parse_command("echo hi   there"), Command::Echo(EchoAction::Print("hi there\n".to_string())));
    assert_eq!(
        parse_command("echo hello >> out.txt"),
        Command::Echo(EchoAction::Append { content: "hello ".to_string(), path: "out.txt".to_string() })
    );
    assert_eq!(parse_command("echo"), Command::Echo(EchoAction::Print("\n".to_string())));
}

#[test]
fn commands_with_one_operand_take_the_first_argument() {
    assert_eq!(parse_command("cat a b"), Command::Cat("a".to_string()));
    assert_eq!(parse_command("touch new.txt"), Command::Touch("new.txt".to_string()));
    assert_eq!(parse_command("mkdir a/b/c"), Command::Mkdir("a/b/c".to_string()));
    assert_eq!(parse_command("cd .."), Command::Cd("..".to_string()));
}

#[test]
fn commands_without_their_operand_do_nothing() {
    for name in ["cat", "touch", "mkdir", "cd"] {
        assert_eq!(parse_command(name), Command::Nothing);
    }
    assert_eq!(complaint(&Command::Nothing), None);
}

#[test]
fn command_from_looks_the_first_word_up() {
    assert_eq!(command_from(&words(&[])), Command::Empty);
    assert_eq!(command_from(&words(&["exit"])), Command::Exit);
    assert_eq!(command_from(&words(&["cd", "x y"])), Command::Cd("x y".to_string()));
    assert_eq!(command_from(&words(&["nope"])), Command::Unknown);
}

#[test]
fn grep_reads_pattern_paths_and_options() {
    assert_eq!(
        parse_command("grep \"x\" f.txt -i -m 2"),
        Command::Grep(request("x", &["f.txt"], false, Some(2)))
    );
    assert_eq!(parse_command("grep x a b c"), Command::Grep(request("x", &["a", "b", "c"], true, None)));
    assert_eq!(parse_command("grep x -i a -m 1 b"), Command::Grep(request("x", &["a", "b"], false, Some(1))));
    assert_eq!(parse_command("grep x -i"), Command::Grep(request("x", &[], false, None)));
}

#[test]
fn grep_takes_the_last_cap() {
    assert_eq!(parse_grep(&words(&["x", "-m", "1", "f", "-m", "5"])), Ok(request("x", &["f"], true, Some(5))));
    assert_eq!(parse_grep(&words(&["x", "f", "-m", "-4"])), Ok(request("x", &["f"], true, Some(-4))));
    assert_eq!(parse_grep(&words(&["x", "f", "-m", "0"])), Ok(request("x", &["f"], true, Some(0))));
}

#[test]
fn grep_needs_two_arguments() {
    assert_eq!(parse_command("grep"), Command::GrepFailed(GrepError::Usage));
    assert_eq!(parse_command("grep x"), Command::GrepFailed(GrepError::Usage));
    assert_eq!(parse_grep(&words(&[])), Err(GrepError::Usage));
    assert_eq!(
        complaint(&Command::GrepFailed(GrepError::Usage)),
        Some("Error in `grep` syntax: grep \"search pattern\" [file_name] [options]".to_string())
    );
}

#[test]
fn grep_refuses_a_cap_that_is_missing() {
    assert_eq!(parse_command("grep x f -m"), Command::GrepFailed(GrepError::MissingCount));
    assert_eq!(parse_command("grep x -m"), Command::GrepFailed(GrepError::MissingCount));
    assert_eq!(
        complaint(&Command::GrepFailed(GrepError::MissingCount)),
        Some("Error: Missing argument for -m option".to_string())
    );
}

#[test]
fn grep_refuses_a_cap_that_is_no_number() {
    assert_eq!(parse_command("grep x f -m z"), Command::GrepFailed(GrepError::InvalidCount));
    assert_eq!(parse_command("grep x f -m 2x"), Command::GrepFailed(GrepError::InvalidCount));
    assert_eq!(parse_command("grep x f -m -i"), Command::GrepFailed(GrepError::InvalidCount));
    assert_eq!(parse_command("grep x f -m 99999999999"), Command::GrepFailed(GrepError::InvalidCount));
    assert_eq!(
        complaint(&Command::GrepFailed(GrepError::InvalidCount)),
        Some("Error: Invalid argument for -m option".to_string())
    );
}

#[test]
fn grep_takes_its_first_argument_as_the_pattern() {
    assert_eq!(parse_grep(&words(&["-i", "f"])), Ok(request("-i", &["f"], true, None)));
    assert_eq!(parse_grep(&words(&["-m", "f"])), Ok(request("-m", &["f"], true, None)));
    assert_eq!(parse_grep(&words(&[" \"a b\" ", "f"])), Ok(request("a b", &["f"], true, None)));
}

#[test]
fn unquote_takes_one_quote_off_each_end() {
    let strip = |s: &str| -> String { unquote(&chars_of(s)).iter().collect() };
    assert_eq!(strip("\"abc\""), "abc");
    assert_eq!(strip("\"\""), "");
    assert_eq!(strip("\"\"abc\"\""), "\"abc\"");
    assert_eq!(strip("\"abc"), "\"abc");
    assert_eq!(strip("abc\""), "abc\"");
    assert_eq!(strip("\""), "\"");
    assert_eq!(strip(""), "");
    assert_eq!(strip("abc"), "abc");
}

#[test]
fn cat_path_is_under_the_working_directory() {
    assert_eq!(cat_path("/home/me", "notes.txt"), "/home/me/notes.txt");
    assert_eq!(cat_path("/w", "sub/a.txt"), "/w/sub/a.txt");
    assert_eq!(cat_path("/w", "./a"), "/w/./a");
    assert_eq!(cat_path("/", "a"), "//a");
    assert_eq!(cat_path("", ""), "/");
}

#[test]
fn cat_path_leaves_an_absolute_operand_as_it_is() {
    assert_eq!(cat_path("/w", "/t/a.txt"), "/t/a.txt");
    assert_eq!(cat_path("/w", "/"), "/");
    assert_eq!(cat_path("", "/a"), "/a");
    assert_eq!(cat_path("/w", "//a"), "//a");
}
