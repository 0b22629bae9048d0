//! The redirecting echo: what is printed, or what is appended to which file.

use vstd::prelude::*;
use crate::text::{
    chars_of, contains_text, copy_range, find, index_of, join, joined, lemma_index_of, occurs_at,
    string_of, texts, to_rows, trim, trimmed,
};

verus! {

/// What `echo` does with its arguments.
#[derive(Debug, PartialEq, Eq)]
pub enum EchoAction {
    /// Write this text, which ends with a new line, to standard output.
    Print(String),
    /// Append `content`, as it is, to the file at `path`, which is made if it
    /// is not there.
    Append { content: String, path: String },
    /// A redirection without a target: nothing is written.
    Nothing,
}

/// The mathematical value of an `EchoAction`.
pub enum EchoPlan {
    Print(Seq<char>),
    Append { content: Seq<char>, path: Seq<char> },
    Nothing,
}

impl View for EchoAction {
    type V = EchoPlan;

    open spec fn view(&self) -> EchoPlan {
        match self {
            EchoAction::Print(text) => EchoPlan::Print(text@),
            EchoAction::Append { content, path } => EchoPlan::Append {
                content: content@,
                path: path@,
            },
            EchoAction::Nothing => EchoPlan::Nothing,
        }
    }
}

/// The arguments are joined with single blanks. Without `>>` in the joined
/// text, it is printed with a new line. With `>>`, what stands before the
/// first `>>` is appended to the file named by what stands after it, trimmed;
/// where no name is left, nothing is done.
pub open spec fn echo_plan(args: Seq<Seq<char>>) -> EchoPlan {
    let message = joined(args, " "@);
    let at = index_of(message, ">>"@);
    if at < 0 {
        EchoPlan::Print(message + seq!['\n'])
    } else {
        let path = trimmed(message.skip(at + ">>"@.len()));
        if path.len() > 0 {
            EchoPlan::Append { content: message.take(at), path }
        } else {
            EchoPlan::Nothing
        }
    }
}

/// Decides what `echo` does with `args`.
pub fn echo(args: &Vec<String>) -> (action: EchoAction)
    ensures
        action@ == echo_plan(texts(args@)),
{
    let message = join(&to_rows(args), &chars_of(" "));
    let mark = chars_of(">>");
    match find(&message, &mark) {
        None => {
            let mut text = copy_range(&message, 0, message.len());
            text.push('\n');
            assert(text@ =~= message@ + seq!['\n']);
            EchoAction::Print(string_of(&text))
        },
        Some(at) => {
            let content = copy_range(&message, 0, at);
            let target = copy_range(&message, at + mark.len(), message.len());
            assert(content@ =~= message@.take(at as int));
            assert(target@ =~= message@.skip(at + mark.len()));
            let path = trim(&target);
            if path.len() > 0 {
                EchoAction::Append { content: string_of(&content), path: string_of(&path) }
            } else {
                EchoAction::Nothing
            }
        },
    }
}

/// Without `>>` in the joined arguments, they are printed, with one new line
/// behind them, and nothing is appended.
pub proof fn lemma_echo_prints(args: Seq<Seq<char>>)
    requires
        !contains_text(joined(args, " "@), ">>"@),
    ensures
        echo_plan(args) == EchoPlan::Print(joined(args, " "@) + seq!['\n']),
{
    lemma_index_of(joined(args, " "@), ">>"@);
}

/// With `>>` in the joined arguments nothing is printed: what stands before
/// the first `>>` is appended, untrimmed, to the file named behind it.
pub proof fn lemma_echo_appends(args: Seq<Seq<char>>, at: int)
    requires
        occurs_at(joined(args, " "@), ">>"@, at),
        forall|j: int| 0 <= j < at ==> !occurs_at(joined(args, " "@), ">>"@, j),
    ensures
        ({
            let message = joined(args, " "@);
            let path = trimmed(message.skip(at + ">>"@.len()));
            echo_plan(args) == if path.len() > 0 {
                EchoPlan::Append { content: message.take(at), path }
            } else {
                EchoPlan::Nothing
            }
        }),
{
    lemma_index_of(joined(args, " "@), ">>"@);
}

} // verus!
