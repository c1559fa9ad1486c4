//! Shell commands: what to run for a command of the descriptor, and what to
//! make of the way it ended.

use crate::error::{IoFailure, IoFailureView};
use crate::host::{Invocation, InvocationView, Output, OutputView, Reply, ReplyView, Stream};
use vstd::prelude::*;
use vstd::string::StringExecFns;

verus! {

/// Why a command was not run.
#[derive(Debug, PartialEq)]
pub enum Error {
    /// The subprocess could not be spawned.
    Io(IoFailure),
    /// A list of arguments with nothing in it, not even a program.
    EmptyCommand,
    /// The host answered something other than what it was asked.
    UnexpectedReply,
}

pub ghost enum ErrorView {
    Io(IoFailureView),
    EmptyCommand,
    UnexpectedReply,
}

impl View for Error {
    type V = ErrorView;

    open spec fn view(&self) -> ErrorView {
        match self {
            Error::Io(failure) => ErrorView::Io(failure@),
            Error::EmptyCommand => ErrorView::EmptyCommand,
            Error::UnexpectedReply => ErrorView::UnexpectedReply,
        }
    }
}

impl ErrorView {
    /// The text shown to the user for this error.
    pub open spec fn message(self) -> Seq<char> {
        match self {
            ErrorView::Io(failure) => failure.message,
            ErrorView::EmptyCommand => "Empty command to execute"@,
            ErrorView::UnexpectedReply => "Unexpected reply from the host"@,
        }
    }
}

impl Error {
    /// The text shown to the user for this error.
    pub fn message(&self) -> (text: String)
        ensures
            text@ == self@.message(),
    {
        match self {
            Error::Io(failure) => failure.message.clone(),
            Error::EmptyCommand => String::from_str("Empty command to execute"),
            Error::UnexpectedReply => String::from_str("Unexpected reply from the host"),
        }
    }
}

/// A command in one of its two forms.
#[derive(Debug, PartialEq)]
pub enum ShellSpec {
    /// A line for the shell interpreter.
    Line(String),
    /// A program and its arguments, run directly.
    Argv(Vec<String>),
}

pub ghost enum ShellSpecView {
    Line(Seq<char>),
    Argv(Seq<Seq<char>>),
}

impl View for ShellSpec {
    type V = ShellSpecView;

    open spec fn view(&self) -> ShellSpecView {
        match self {
            ShellSpec::Line(line) => ShellSpecView::Line(line@),
            ShellSpec::Argv(argv) => ShellSpecView::Argv(argv.deep_view()),
        }
    }
}

/// A shell command of the descriptor: a line for the interpreter.
#[derive(Debug, PartialEq)]
pub struct Shell {
    pub command: String,
}

pub ghost struct ShellView {
    pub command: Seq<char>,
}

impl View for Shell {
    type V = ShellView;

    open spec fn view(&self) -> ShellView {
        ShellView { command: self.command@ }
    }
}

impl DeepView for Shell {
    type V = ShellView;

    open spec fn deep_view(&self) -> ShellView {
        self@
    }
}

impl Clone for Shell {
    fn clone(&self) -> (copy: Shell)
        ensures
            copy@ == self@,
    {
        Shell { command: self.command.clone() }
    }
}

impl Shell {
    pub fn new(command: &str) -> (shell: Shell)
        ensures
            shell@.command == command@,
    {
        Shell { command: command.to_owned() }
    }

    /// The command as a specification to execute: its line.
    pub fn to_spec(&self) -> (spec: ShellSpec)
        ensures
            spec@ == ShellSpecView::Line(self@.command),
    {
        ShellSpec::Line(self.command.clone())
    }
}

/// The subprocess for a command. A line goes to `bash -c`; a list of
/// arguments is run as it stands, its first item being the program. Both
/// outputs are captured. A list with nothing in it has no subprocess.
pub open spec fn command_of(spec: ShellSpecView) -> Result<InvocationView, ErrorView> {
    match spec {
        ShellSpecView::Line(line) => Ok(
            InvocationView {
                program: "bash"@,
                args: seq!["-c"@, line],
                stdout: Stream::Capture,
                stderr: Stream::Capture,
            },
        ),
        ShellSpecView::Argv(argv) => if argv.len() == 0 {
            Err(ErrorView::EmptyCommand)
        } else {
            Ok(
                InvocationView {
                    program: argv[0],
                    args: argv.subrange(1, argv.len() as int),
                    stdout: Stream::Capture,
                    stderr: Stream::Capture,
                },
            )
        },
    }
}

/// What a command's reply comes to. A subprocess that ran is a success
/// whatever its exit status, which is handed on for the caller to look at;
/// only one that could not be spawned is an error.
pub open spec fn result_of(reply: ReplyView) -> Result<OutputView, ErrorView> {
    match reply {
        ReplyView::Exited(output) => Ok(output),
        ReplyView::Failed(cause) => Err(ErrorView::Io(cause)),
        _ => Err(ErrorView::UnexpectedReply),
    }
}

/// The subprocess to spawn for `spec`, as [`command_of`] lays down.
pub fn execute(spec: &ShellSpec) -> (r: Result<Invocation, Error>)
    ensures
        match r {
            Ok(command) => command_of(spec@) == Ok::<InvocationView, ErrorView>(command@),
            Err(e) => command_of(spec@) == Err::<InvocationView, ErrorView>(e@),
        },
{
    match spec {
        ShellSpec::Line(line) => {
            let args = vec![String::from_str("-c"), line.clone()];
            assert(args.deep_view() =~= seq!["-c"@, line@]);
            Ok(
                Invocation {
                    program: String::from_str("bash"),
                    args,
                    stdout: Stream::Capture,
                    stderr: Stream::Capture,
                },
            )
        },
        ShellSpec::Argv(argv) => {
            if argv.len() == 0 {
                return Err(Error::EmptyCommand);
            }
            let mut args: Vec<String> = Vec::new();
            let mut i: usize = 1;
            assert(args.deep_view() =~= argv.deep_view().subrange(1, 1));
            while i < argv.len()
                invariant
                    1 <= i <= argv.len(),
                    args.deep_view() =~= argv.deep_view().subrange(1, i as int),
                decreases argv.len() - i,
            {
                let ghost had = args.deep_view();
                args.push(argv[i].clone());
                assert(args.deep_view() =~= had.push(argv[i as int]@));
                i += 1;
            }
            Ok(
                Invocation {
                    program: argv[0].clone(),
                    args,
                    stdout: Stream::Capture,
                    stderr: Stream::Capture,
                },
            )
        },
    }
}

/// What the reply to a command's spawn comes to, as [`result_of`] lays down.
pub fn finish(reply: Reply) -> (r: Result<Output, Error>)
    ensures
        match r {
            Ok(output) => result_of(reply@) == Ok::<OutputView, ErrorView>(output@),
            Err(e) => result_of(reply@) == Err::<OutputView, ErrorView>(e@),
        },
{
    match reply {
        Reply::Exited(output) => Ok(output),
        Reply::Failed(cause) => Err(Error::Io(cause)),
        _ => Err(Error::UnexpectedReply),
    }
}

} // verus!
