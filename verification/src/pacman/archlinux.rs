//! The `pacman` backend: ask whether the package is there, and install it
//! only if it is not.

use crate::host::{Invocation, InvocationView, Reply, ReplyView, Request, RequestView, Stream};
use crate::pacman::{Error, ErrorView, Package};
use vstd::prelude::*;
use vstd::string::StringExecFns;

verus! {

/// The command that asks whether `package` is installed: `<bin> -Qe <package>`,
/// with nothing shown.
pub open spec fn query_command(bin: Seq<char>, package: Seq<char>) -> InvocationView {
    InvocationView {
        program: bin,
        args: seq!["-Qe"@, package],
        stdout: Stream::Null,
        stderr: Stream::Null,
    }
}

/// The command that installs `package`:
/// `<bin> -S <package> --noconfirm --quiet`, with its errors shown.
pub open spec fn sync_command(bin: Seq<char>, package: Seq<char>) -> InvocationView {
    InvocationView {
        program: bin,
        args: seq!["-S"@, package, "--noconfirm"@, "--quiet"@],
        stdout: Stream::Null,
        stderr: Stream::Inherit,
    }
}

/// What the reply to the query says: a subprocess that exited tells by its
/// status whether the package is installed; one that could not be run is an
/// error.
pub open spec fn installed_of(reply: ReplyView) -> Result<bool, ErrorView> {
    match reply {
        ReplyView::Exited(output) => Ok(output.success),
        ReplyView::Failed(cause) => Err(ErrorView::Io(cause)),
        _ => Err(ErrorView::UnexpectedReply),
    }
}

/// What an [`Installer`] is waiting to hear.
#[derive(Debug, Clone, Copy, PartialEq, Eq, Structural)]
pub enum Phase {
    /// Whether the package is installed already.
    Querying,
    /// How the installation went.
    Installing,
    /// Nothing: the work is over.
    Finished,
}

/// What an [`Installer`] says after each reply.
#[derive(Debug, PartialEq)]
pub enum Progress {
    /// Do this, and come back with the answer.
    Ask(Request),
    /// The package is installed, or it could not be.
    Finish(Result<(), Error>),
}

pub ghost enum ProgressView {
    Ask(RequestView),
    Finish(Result<(), ErrorView>),
}

impl View for Progress {
    type V = ProgressView;

    open spec fn view(&self) -> ProgressView {
        match self {
            Progress::Ask(request) => ProgressView::Ask(request@),
            Progress::Finish(Ok(())) => ProgressView::Finish(Ok(())),
            Progress::Finish(Err(e)) => ProgressView::Finish(Err(e@)),
        }
    }
}

/// The installation of one package, under way.
#[derive(Debug)]
pub struct Installer {
    bin: String,
    name: String,
    phase: Phase,
}

pub ghost struct InstallerView {
    pub bin: Seq<char>,
    pub name: Seq<char>,
    pub phase: Phase,
}

/// An installer's move: its new state and what it says.
pub ghost struct Move {
    pub state: InstallerView,
    pub progress: ProgressView,
}

impl InstallerView {
    /// End with `result`.
    pub open spec fn finish(self, result: Result<(), ErrorView>) -> Move {
        Move {
            state: InstallerView { phase: Phase::Finished, ..self },
            progress: ProgressView::Finish(result),
        }
    }

    /// The first move. A package without a name is refused before anything
    /// is run; for any other the question is whether it is installed.
    pub open spec fn begin(bin: Seq<char>, name: Seq<char>) -> Move {
        if name.len() == 0 {
            (InstallerView { bin, name, phase: Phase::Finished }).finish(Err(ErrorView::EmptyName))
        } else {
            Move {
                state: InstallerView { bin, name, phase: Phase::Querying },
                progress: ProgressView::Ask(RequestView::Spawn(query_command(bin, name))),
            }
        }
    }

    /// The move on each reply. A package that is there is left alone; one
    /// that is not is installed, and an installer that exits with failure
    /// is an error that names the package. A subprocess that could not be
    /// run is an error of its own.
    pub open spec fn next(self, reply: ReplyView) -> Move {
        match (self.phase, reply) {
            (Phase::Finished, _) => self.finish(Err(ErrorView::UnexpectedReply)),
            (_, ReplyView::Failed(cause)) => self.finish(Err(ErrorView::Io(cause))),
            (Phase::Querying, ReplyView::Exited(output)) => if output.success {
                self.finish(Ok(()))
            } else {
                Move {
                    state: InstallerView { phase: Phase::Installing, ..self },
                    progress: ProgressView::Ask(
                        RequestView::Spawn(sync_command(self.bin, self.name)),
                    ),
                }
            },
            (Phase::Installing, ReplyView::Exited(output)) => if output.success {
                self.finish(Ok(()))
            } else {
                self.finish(Err(ErrorView::PacmanSync(self.name)))
            },
            _ => self.finish(Err(ErrorView::UnexpectedReply)),
        }
    }
}

impl View for Installer {
    type V = InstallerView;

    closed spec fn view(&self) -> InstallerView {
        InstallerView { bin: self.bin@, name: self.name@, phase: self.phase }
    }
}

impl Installer {
    /// True once the installation is over.
    pub fn is_finished(&self) -> (done: bool)
        ensures
            done == (self@.phase == Phase::Finished),
    {
        match self.phase {
            Phase::Finished => true,
            _ => false,
        }
    }

    fn finish(&mut self, result: Result<(), Error>) -> (p: Progress)
        ensures
            (Move { state: final(self)@, progress: p@ }) == old(self)@.finish(
                match result {
                    Ok(()) => Ok(()),
                    Err(e) => Err(e@),
                },
            ),
    {
        self.phase = Phase::Finished;
        Progress::Finish(result)
    }

    /// Takes the host's reply to the request in flight and says what comes
    /// next, as [`InstallerView::next`] lays down.
    pub fn step(&mut self, reply: Reply) -> (p: Progress)
        ensures
            (Move { state: final(self)@, progress: p@ }) == old(self)@.next(reply@),
    {
        match self.phase {
            Phase::Finished => self.finish(Err(Error::UnexpectedReply)),
            Phase::Querying => match reply {
                Reply::Failed(cause) => self.finish(Err(Error::Io(cause))),
                Reply::Exited(output) => if output.success {
                    self.finish(Ok(()))
                } else {
                    self.phase = Phase::Installing;
                    Progress::Ask(Request::Spawn(sync(self.bin.as_str(), self.name.as_str())))
                },
                _ => self.finish(Err(Error::UnexpectedReply)),
            },
            Phase::Installing => match reply {
                Reply::Failed(cause) => self.finish(Err(Error::Io(cause))),
                Reply::Exited(output) => if output.success {
                    self.finish(Ok(()))
                } else {
                    let name = self.name.clone();
                    self.finish(Err(Error::PacmanSync(name)))
                },
                _ => self.finish(Err(Error::UnexpectedReply)),
            },
        }
    }
}

fn query(bin: &str, package: &str) -> (command: Invocation)
    ensures
        command@ == query_command(bin@, package@),
{
    let args = vec![String::from_str("-Qe"), String::from_str(package)];
    assert(args.deep_view() =~= seq!["-Qe"@, package@]);
    Invocation { program: String::from_str(bin), args, stdout: Stream::Null, stderr: Stream::Null }
}

fn sync(bin: &str, package: &str) -> (command: Invocation)
    ensures
        command@ == sync_command(bin@, package@),
{
    let args = vec![
        String::from_str("-S"),
        String::from_str(package),
        String::from_str("--noconfirm"),
        String::from_str("--quiet"),
    ];
    assert(args.deep_view() =~= seq!["-S"@, package@, "--noconfirm"@, "--quiet"@]);
    Invocation {
        program: String::from_str(bin),
        args,
        stdout: Stream::Null,
        stderr: Stream::Inherit,
    }
}

/// The system's `pacman`.
#[derive(Debug)]
pub struct Pacman {
    bin: String,
}

impl Pacman {
    /// The binary's name, as it is looked up on the path.
    pub closed spec fn bin(&self) -> Seq<char> {
        self.bin@
    }

    pub fn new() -> (pacman: Pacman)
        ensures
            pacman.bin() == "pacman"@,
    {
        Pacman { bin: String::from_str("pacman") }
    }

    /// The command whose exit status tells whether `package` is installed:
    /// zero for yes.
    pub fn is_installed(&self, package: &str) -> (command: Invocation)
        ensures
            command@ == query_command(self.bin(), package@),
    {
        query(self.bin.as_str(), package)
    }

    /// Whether the package asked about is installed, from the reply to the
    /// command of [`Pacman::is_installed`], as [`installed_of`] lays down.
    pub fn installed(reply: Reply) -> (r: Result<bool, Error>)
        ensures
            match r {
                Ok(yes) => installed_of(reply@) == Ok::<bool, ErrorView>(yes),
                Err(e) => installed_of(reply@) == Err::<bool, ErrorView>(e@),
            },
    {
        match reply {
            Reply::Exited(output) => Ok(output.success),
            Reply::Failed(cause) => Err(Error::Io(cause)),
            _ => Err(Error::UnexpectedReply),
        }
    }

    /// Begins the installation of `package`.
    pub fn install(&self, package: &Package) -> (r: (Installer, Progress))
        ensures
            (Move { state: r.0@, progress: r.1@ }) == InstallerView::begin(
                self.bin(),
                package@.name,
            ),
    {
        let mut installer = Installer {
            bin: self.bin.clone(),
            name: package.name.clone(),
            phase: Phase::Querying,
        };
        if package.name.as_str().is_empty() {
            let refused = installer.finish(Err(Error::EmptyName));
            (installer, refused)
        } else {
            let first = Progress::Ask(
                Request::Spawn(query(self.bin.as_str(), package.name.as_str())),
            );
            (installer, first)
        }
    }
}

} // verus!
