//! The link engine: one link of the descriptor, or a whole directory
//! mirrored link by link.
//!
//! A [`Linker`] never touches the filesystem. It asks one question or one
//! change at a time ([`Request`]), is told what happened ([`Reply`]), and
//! decides what comes next. [`LinkerView::next`] is the whole decision
//! table; [`crate::procedure::link_pair`] is the procedure that it carries
//! out.

use crate::error::{IpaError, IpaErrorView, LookupFailure, LookupFailureView};
use crate::host::{Entry, EntryView, Reply, ReplyView, Request, RequestView};
use crate::path::{
    expandable, full, is_expandable, is_plain, join, parent, path_join, path_parent,
};
use vstd::prelude::*;
use vstd::string::StringExecFns;

verus! {

/// The value a link's `create` flag takes when the descriptor leaves it out.
pub fn default_create() -> (create: bool)
    ensures
        create,
{
    true
}

/// One link of the descriptor, with its paths as written there.
#[derive(Debug, PartialEq)]
pub struct SymLink {
    /// Where the link is made.
    pub dst: String,
    /// What the link points to.
    pub src: String,
    /// Replace a destination that is already there.
    pub relink: bool,
    /// Create the destination's missing parent directories.
    pub create: bool,
}

pub ghost struct SymLinkView {
    pub dst: Seq<char>,
    pub src: Seq<char>,
    pub relink: bool,
    pub create: bool,
}

impl View for SymLink {
    type V = SymLinkView;

    open spec fn view(&self) -> SymLinkView {
        SymLinkView { dst: self.dst@, src: self.src@, relink: self.relink, create: self.create }
    }
}

impl DeepView for SymLink {
    type V = SymLinkView;

    open spec fn deep_view(&self) -> SymLinkView {
        self@
    }
}

impl Clone for SymLink {
    fn clone(&self) -> (copy: SymLink)
        ensures
            copy@ == self@,
    {
        SymLink {
            dst: self.dst.clone(),
            src: self.src.clone(),
            relink: self.relink,
            create: self.create,
        }
    }
}

impl SymLink {
    pub fn new(dst: &str, src: &str, relink: bool, create: bool) -> (link: SymLink)
        ensures
            link@ == (SymLinkView { dst: dst@, src: src@, relink, create }),
    {
        SymLink { dst: dst.to_owned(), src: src.to_owned(), relink, create }
    }
}

/// What a [`Linker`] is waiting to hear.
#[derive(Debug, Clone, Copy, PartialEq, Eq, Structural)]
pub enum Stage {
    /// Does the source exist?
    SourceExists,
    /// Is the source a directory?
    SourceIsDir,
    /// The source is a directory: is the destination one too?
    TargetIsDir,
    /// Is anything at the destination?
    TargetExists,
    /// The destination is to be replaced: is it a directory?
    TargetKind,
    /// The destination is being removed.
    Removing,
    /// Does the destination's parent exist?
    ParentExists,
    /// The destination's parents are being created.
    MakingParents,
    /// The link is being made.
    Linking,
    /// The source directory is being listed.
    Listing,
    /// Is this child of the source directory a directory?
    ChildIsDir,
    /// Does the directory that mirrors a child directory exist?
    ChildDirExists,
    /// The directory that mirrors a child directory is being created.
    MakingDir,
    /// Nothing: the work is over.
    Finished,
}

/// A child of a mirrored directory that is still to be dealt with.
#[derive(Debug, PartialEq, Eq)]
pub struct Job {
    /// The child's path.
    pub src: String,
    /// The child's name.
    pub name: Option<String>,
    /// The destination directory that the child goes under.
    pub dst: String,
}

pub ghost struct JobView {
    pub src: Seq<char>,
    pub name: Option<Seq<char>>,
    pub dst: Seq<char>,
}

impl View for Job {
    type V = JobView;

    open spec fn view(&self) -> JobView {
        JobView { src: self.src@, name: self.name.deep_view(), dst: self.dst@ }
    }
}

impl DeepView for Job {
    type V = JobView;

    open spec fn deep_view(&self) -> JobView {
        self@
    }
}

/// What a [`Linker`] says after each reply.
#[derive(Debug, PartialEq)]
pub enum Outcome {
    /// Do this, and come back with the answer.
    Ask(Request),
    /// The link is made, or it failed for good.
    Finish(Result<(), IpaError>),
}

pub ghost enum OutcomeView {
    Ask(RequestView),
    Finish(Result<(), IpaErrorView>),
}

impl View for Outcome {
    type V = OutcomeView;

    open spec fn view(&self) -> OutcomeView {
        match self {
            Outcome::Ask(request) => OutcomeView::Ask(request@),
            Outcome::Finish(Ok(())) => OutcomeView::Finish(Ok(())),
            Outcome::Finish(Err(e)) => OutcomeView::Finish(Err(e@)),
        }
    }
}

/// The state of one call of the link engine.
#[derive(Debug)]
pub struct Linker {
    relink: bool,
    create: bool,
    stage: Stage,
    src: String,
    dst: String,
    parent: String,
    name: Option<String>,
    pending: Vec<Job>,
}

pub ghost struct LinkerView {
    pub relink: bool,
    pub create: bool,
    pub stage: Stage,
    /// The source of the pair at hand.
    pub src: Seq<char>,
    /// The destination of the pair at hand; for a child whose kind is not
    /// known yet, the directory it goes under.
    pub dst: Seq<char>,
    /// The destination's parent, once it is asked about.
    pub parent: Seq<char>,
    /// The name of the child at hand.
    pub name: Option<Seq<char>>,
    /// The children still to be dealt with; the last one comes next.
    pub pending: Seq<JobView>,
}

/// A linker's move: its new state and what it says.
pub ghost struct Turn {
    pub state: LinkerView,
    pub outcome: OutcomeView,
}

/// The children of a listed directory as jobs, the first child last, so
/// that it comes off a stack first. An entry that is the directory itself is
/// left out.
pub open spec fn pile(entries: Seq<EntryView>, src: Seq<char>, dst: Seq<char>) -> Seq<JobView>
    decreases entries.len(),
{
    if entries.len() == 0 {
        Seq::empty()
    } else {
        let first = entries.first();
        let rest = pile(entries.drop_first(), src, dst);
        if first.path == src {
            rest
        } else {
            rest.push(JobView { src: first.path, name: first.name, dst })
        }
    }
}

impl LinkerView {
    /// The state in which every call begins: the pair as expanded, nothing
    /// pending, and the first question out.
    pub open spec fn initial(src: Seq<char>, dst: Seq<char>, relink: bool, create: bool) -> LinkerView {
        LinkerView {
            relink,
            create,
            stage: Stage::SourceExists,
            src,
            dst,
            parent: Seq::empty(),
            name: None,
            pending: Seq::empty(),
        }
    }

    /// The state in which every call ends: nothing at hand and nothing
    /// pending.
    pub open spec fn over(relink: bool, create: bool) -> LinkerView {
        LinkerView {
            relink,
            create,
            stage: Stage::Finished,
            src: Seq::empty(),
            dst: Seq::empty(),
            parent: Seq::empty(),
            name: None,
            pending: Seq::empty(),
        }
    }

    /// The path that the request in flight is about.
    pub open spec fn subject(self) -> Seq<char> {
        match self.stage {
            Stage::SourceExists | Stage::SourceIsDir | Stage::Listing | Stage::ChildIsDir => self.src,
            Stage::ParentExists | Stage::MakingParents => self.parent,
            _ => self.dst,
        }
    }

    /// The request in flight. Each stage but the last waits on exactly one;
    /// for the last, where nothing is in flight, this has no meaning.
    pub open spec fn asks(self) -> RequestView
        recommends
            self.stage != Stage::Finished,
    {
        match self.stage {
            Stage::SourceExists => RequestView::Exists(self.src),
            Stage::SourceIsDir => RequestView::IsDir(self.src),
            Stage::TargetIsDir => RequestView::IsDir(self.dst),
            Stage::TargetExists => RequestView::Present(self.dst),
            Stage::TargetKind => RequestView::IsDir(self.dst),
            Stage::Removing => RequestView::RemoveFile(self.dst),
            Stage::ParentExists => RequestView::Exists(self.parent),
            Stage::MakingParents => RequestView::CreateDirAll(self.parent),
            Stage::Linking => RequestView::Symlink { src: self.src, dst: self.dst },
            Stage::Listing => RequestView::ReadDir(self.src),
            Stage::ChildIsDir => RequestView::IsDir(self.src),
            Stage::ChildDirExists => RequestView::Exists(self.dst),
            Stage::MakingDir => RequestView::CreateDir(self.dst),
            Stage::Finished => RequestView::Exists(Seq::empty()),
        }
    }

    /// Move to `stage` and put its request.
    pub open spec fn ask(self, stage: Stage) -> Turn {
        let state = LinkerView { stage, ..self };
        Turn { state, outcome: OutcomeView::Ask(state.asks()) }
    }

    /// Give up with `error`. What was pending is dropped.
    pub open spec fn fail(self, error: IpaErrorView) -> Turn {
        Turn {
            state: LinkerView::over(self.relink, self.create),
            outcome: OutcomeView::Finish(Err(error)),
        }
    }

    /// The destination is free: create its parents if that is wanted and
    /// they may be missing, then make the link.
    pub open spec fn place(self) -> Turn {
        if self.create {
            match path_parent(self.dst) {
                Some(parent) => (LinkerView { parent, ..self }).ask(Stage::ParentExists),
                None => self.ask(Stage::Linking),
            }
        } else {
            self.ask(Stage::Linking)
        }
    }

    /// The pair at hand is dealt with: take up the next pending child, or
    /// finish where none is left.
    pub open spec fn resume(self) -> Turn {
        if self.pending.len() == 0 {
            Turn {
                state: LinkerView::over(self.relink, self.create),
                outcome: OutcomeView::Finish(Ok(())),
            }
        } else {
            let job = self.pending.last();
            (LinkerView {
                src: job.src,
                dst: job.dst,
                parent: Seq::empty(),
                name: job.name,
                pending: self.pending.drop_last(),
                ..self
            }).ask(Stage::ChildIsDir)
        }
    }

    /// What the linker does when it hears `yes` or `no`.
    pub open spec fn on_flag(self, yes: bool) -> Turn {
        match self.stage {
            Stage::SourceExists => if yes {
                self.ask(Stage::SourceIsDir)
            } else {
                self.fail(IpaErrorView::SourceNotFound(self.src))
            },
            Stage::SourceIsDir => if yes {
                self.ask(Stage::TargetIsDir)
            } else {
                self.ask(Stage::TargetExists)
            },
            Stage::TargetIsDir => if yes {
                self.ask(Stage::Listing)
            } else {
                self.ask(Stage::TargetExists)
            },
            Stage::TargetExists => if !yes {
                self.place()
            } else if !self.relink {
                self.resume()
            } else {
                self.ask(Stage::TargetKind)
            },
            Stage::TargetKind => if yes {
                self.place()
            } else {
                self.ask(Stage::Removing)
            },
            Stage::ParentExists => if yes {
                self.ask(Stage::Linking)
            } else {
                self.ask(Stage::MakingParents)
            },
            Stage::ChildIsDir => match self.name {
                None => self.resume(),
                Some(name) => {
                    let child = LinkerView { dst: path_join(self.dst, name), name: None, ..self };
                    if yes {
                        child.ask(Stage::ChildDirExists)
                    } else {
                        child.ask(Stage::TargetExists)
                    }
                },
            },
            Stage::ChildDirExists => if yes {
                self.ask(Stage::Listing)
            } else {
                self.ask(Stage::MakingDir)
            },
            _ => self.fail(IpaErrorView::UnexpectedReply),
        }
    }

    /// What the linker does when it hears that a change was made.
    pub open spec fn on_done(self) -> Turn {
        match self.stage {
            Stage::Removing => self.place(),
            Stage::MakingParents => self.ask(Stage::Linking),
            Stage::Linking => self.resume(),
            Stage::MakingDir => self.ask(Stage::Listing),
            _ => self.fail(IpaErrorView::UnexpectedReply),
        }
    }

    /// The decision table: the linker's move on each reply.
    ///
    /// A failure reported by the host ends the call with the path that the
    /// failed request was about. A reply that does not answer the request in
    /// flight ends it too.
    pub open spec fn next(self, reply: ReplyView) -> Turn {
        match reply {
            ReplyView::Failed(cause) => if self.stage == Stage::Finished {
                self.fail(IpaErrorView::UnexpectedReply)
            } else {
                self.fail(IpaErrorView::Io { path: self.subject(), cause })
            },
            ReplyView::Flag(yes) => self.on_flag(yes),
            ReplyView::Done => self.on_done(),
            ReplyView::Entries(entries) => if self.stage == Stage::Listing {
                (LinkerView {
                    pending: self.pending + pile(entries, self.src, self.dst),
                    ..self
                }).resume()
            } else {
                self.fail(IpaErrorView::UnexpectedReply)
            },
            ReplyView::Exited(_) => self.fail(IpaErrorView::UnexpectedReply),
        }
    }
}

impl View for Linker {
    type V = LinkerView;

    closed spec fn view(&self) -> LinkerView {
        LinkerView {
            relink: self.relink,
            create: self.create,
            stage: self.stage,
            src: self.src@,
            dst: self.dst@,
            parent: self.parent@,
            name: self.name.deep_view(),
            pending: self.pending.deep_view(),
        }
    }
}

impl Linker {
    /// Begins a call on a pair whose paths are already expanded. The first
    /// question is whether the source exists.
    pub fn start(src: String, dst: String, relink: bool, create: bool) -> (r: (Linker, Request))
        ensures
            r.0@ == LinkerView::initial(src@, dst@, relink, create),
            r.1@ == r.0@.asks(),
    {
        let linker = Linker {
            relink,
            create,
            stage: Stage::SourceExists,
            src,
            dst,
            parent: String::new(),
            name: None,
            pending: Vec::new(),
        };
        assert(linker.pending.deep_view() =~= Seq::<JobView>::empty());
        let request = linker.request();
        (linker, request)
    }

    /// True once the call is over.
    pub fn is_finished(&self) -> (done: bool)
        ensures
            done == (self@.stage == Stage::Finished),
    {
        match self.stage {
            Stage::Finished => true,
            _ => false,
        }
    }

    /// The request in flight.
    fn request(&self) -> (r: Request)
        ensures
            r@ == self@.asks(),
    {
        match self.stage {
            Stage::SourceExists => Request::Exists(self.src.clone()),
            Stage::SourceIsDir => Request::IsDir(self.src.clone()),
            Stage::TargetIsDir => Request::IsDir(self.dst.clone()),
            Stage::TargetExists => Request::Present(self.dst.clone()),
            Stage::TargetKind => Request::IsDir(self.dst.clone()),
            Stage::Removing => Request::RemoveFile(self.dst.clone()),
            Stage::ParentExists => Request::Exists(self.parent.clone()),
            Stage::MakingParents => Request::CreateDirAll(self.parent.clone()),
            Stage::Linking => Request::Symlink { src: self.src.clone(), dst: self.dst.clone() },
            Stage::Listing => Request::ReadDir(self.src.clone()),
            Stage::ChildIsDir => Request::IsDir(self.src.clone()),
            Stage::ChildDirExists => Request::Exists(self.dst.clone()),
            Stage::MakingDir => Request::CreateDir(self.dst.clone()),
            Stage::Finished => Request::Exists(String::new()),
        }
    }

    fn subject(&self) -> (path: String)
        ensures
            path@ == self@.subject(),
    {
        match self.stage {
            Stage::SourceExists | Stage::SourceIsDir | Stage::Listing | Stage::ChildIsDir => {
                self.src.clone()
            },
            Stage::ParentExists | Stage::MakingParents => self.parent.clone(),
            _ => self.dst.clone(),
        }
    }

    fn ask(&mut self, stage: Stage) -> (o: Outcome)
        ensures
            (Turn { state: final(self)@, outcome: o@ }) == old(self)@.ask(stage),
    {
        self.stage = stage;
        Outcome::Ask(self.request())
    }

    /// Lets go of everything: the call is over.
    fn close(&mut self)
        ensures
            final(self)@ == LinkerView::over(old(self)@.relink, old(self)@.create),
    {
        self.stage = Stage::Finished;
        self.src = String::new();
        self.dst = String::new();
        self.parent = String::new();
        self.name = None;
        self.pending = Vec::new();
        assert(self.pending.deep_view() =~= Seq::<JobView>::empty());
    }

    fn fail(&mut self, error: IpaError) -> (o: Outcome)
        ensures
            (Turn { state: final(self)@, outcome: o@ }) == old(self)@.fail(error@),
    {
        self.close();
        Outcome::Finish(Err(error))
    }

    fn place(&mut self) -> (o: Outcome)
        ensures
            (Turn { state: final(self)@, outcome: o@ }) == old(self)@.place(),
    {
        if self.create {
            match parent(self.dst.as_str()) {
                Some(p) => {
                    self.parent = p;
                    self.ask(Stage::ParentExists)
                },
                None => self.ask(Stage::Linking),
            }
        } else {
            self.ask(Stage::Linking)
        }
    }

    fn resume(&mut self) -> (o: Outcome)
        ensures
            (Turn { state: final(self)@, outcome: o@ }) == old(self)@.resume(),
    {
        let ghost before = self.pending.deep_view();
        match self.pending.pop() {
            None => {
                assert(before.len() == 0);
                self.close();
                Outcome::Finish(Ok(()))
            },
            Some(job) => {
                assert(self.pending.deep_view() =~= before.drop_last());
                assert(job@ == before.last());
                self.src = job.src;
                self.dst = job.dst;
                self.parent = String::new();
                self.name = job.name;
                self.ask(Stage::ChildIsDir)
            },
        }
    }

    fn on_flag(&mut self, yes: bool) -> (o: Outcome)
        ensures
            (Turn { state: final(self)@, outcome: o@ }) == old(self)@.on_flag(yes),
    {
        match self.stage {
            Stage::SourceExists => if yes {
                self.ask(Stage::SourceIsDir)
            } else {
                let missing = self.src.clone();
                self.fail(IpaError::SourceNotFound(missing))
            },
            Stage::SourceIsDir => if yes {
                self.ask(Stage::TargetIsDir)
            } else {
                self.ask(Stage::TargetExists)
            },
            Stage::TargetIsDir => if yes {
                self.ask(Stage::Listing)
            } else {
                self.ask(Stage::TargetExists)
            },
            Stage::TargetExists => if !yes {
                self.place()
            } else if !self.relink {
                self.resume()
            } else {
                self.ask(Stage::TargetKind)
            },
            Stage::TargetKind => if yes {
                self.place()
            } else {
                self.ask(Stage::Removing)
            },
            Stage::ParentExists => if yes {
                self.ask(Stage::Linking)
            } else {
                self.ask(Stage::MakingParents)
            },
            Stage::ChildIsDir => {
                let under = match &self.name {
                    None => None,
                    Some(name) => Some(join(self.dst.as_str(), name.as_str())),
                };
                match under {
                    None => self.resume(),
                    Some(dst) => {
                        self.dst = dst;
                        self.name = None;
                        if yes {
                            self.ask(Stage::ChildDirExists)
                        } else {
                            self.ask(Stage::TargetExists)
                        }
                    },
                }
            },
            Stage::ChildDirExists => if yes {
                self.ask(Stage::Listing)
            } else {
                self.ask(Stage::MakingDir)
            },
            _ => self.fail(IpaError::UnexpectedReply),
        }
    }

    fn on_done(&mut self) -> (o: Outcome)
        ensures
            (Turn { state: final(self)@, outcome: o@ }) == old(self)@.on_done(),
    {
        match self.stage {
            Stage::Removing => self.place(),
            Stage::MakingParents => self.ask(Stage::Linking),
            Stage::Linking => self.resume(),
            Stage::MakingDir => self.ask(Stage::Listing),
            _ => self.fail(IpaError::UnexpectedReply),
        }
    }

    /// Puts the children of the directory just listed on the stack of
    /// pending work, the first child on top.
    fn stack(&mut self, entries: Vec<Entry>)
        ensures
            final(self)@ == (LinkerView {
                pending: old(self)@.pending + pile(
                    entries.deep_view(),
                    old(self)@.src,
                    old(self)@.dst,
                ),
                ..old(self)@
            }),
    {
        let mut entries = entries;
        let ghost all = entries.deep_view();
        let ghost before = self@;
        assert(all.subrange(all.len() as int, all.len() as int) =~= Seq::<EntryView>::empty());
        assert(self.pending.deep_view() =~= before.pending + Seq::<JobView>::empty());
        while entries.len() > 0
            invariant
                entries.len() <= all.len(),
                entries.deep_view() =~= all.subrange(0, entries.len() as int),
                self@ == (LinkerView {
                    pending: before.pending + pile(
                        all.subrange(entries.len() as int, all.len() as int),
                        before.src,
                        before.dst,
                    ),
                    ..before
                }),
            decreases entries.len(),
        {
            let ghost n = entries.len() as int;
            let ghost shown = entries.deep_view();
            let ghost had = self.pending.deep_view();
            let entry = entries.pop().unwrap();
            assert(entry@ == shown[n - 1]);
            assert(entry@ == all[n - 1]);
            assert(entries.deep_view() =~= all.subrange(0, n - 1));
            assert(all.subrange(n - 1, all.len() as int).drop_first() =~= all.subrange(
                n,
                all.len() as int,
            ));
            assert(all.subrange(n - 1, all.len() as int).first() == all[n - 1]);
            if !(entry.path == self.src) {
                let job = Job { src: entry.path, name: entry.name, dst: self.dst.clone() };
                self.pending.push(job);
                assert(self.pending.deep_view() =~= had.push(job@));
            }
        }
        assert(all.subrange(0, all.len() as int) =~= all);
    }

    /// Takes the host's reply to the request in flight and says what comes
    /// next, as [`LinkerView::next`] lays down.
    pub fn step(&mut self, reply: Reply) -> (o: Outcome)
        ensures
            (Turn { state: final(self)@, outcome: o@ }) == old(self)@.next(reply@),
    {
        match reply {
            Reply::Failed(cause) => {
                if self.is_finished() {
                    self.fail(IpaError::UnexpectedReply)
                } else {
                    let path = self.subject();
                    self.fail(IpaError::Io { path, cause })
                }
            },
            Reply::Flag(yes) => self.on_flag(yes),
            Reply::Done => self.on_done(),
            Reply::Entries(entries) => {
                if self.stage == Stage::Listing {
                    self.stack(entries);
                    self.resume()
                } else {
                    self.fail(IpaError::UnexpectedReply)
                }
            },
            Reply::Exited(_) => self.fail(IpaError::UnexpectedReply),
        }
    }
}

/// The failure for a path that cannot be expanded: it is named whole, as
/// no variable's name can be read from it.
pub open spec fn unexpandable(path: Seq<char>) -> LookupFailureView {
    LookupFailureView {
        var_name: path,
        cause: "the character after `$` is not an ASCII character"@,
    }
}

/// Expands a path, if it can be expanded.
fn expand(path: &String) -> (r: Result<String, IpaError>)
    ensures
        !is_expandable(path@) ==> r is Err && r->Err_0@ == IpaErrorView::InvalidPath(
            unexpandable(path@),
        ),
        is_plain(path@) ==> r is Ok && r->Ok_0@ == path@,
        r matches Err(e) ==> e is InvalidPath,
        r is Ok ==> is_expandable(path@),
{
    if !expandable(path.as_str()) {
        return Err(
            IpaError::InvalidPath(
                LookupFailure {
                    var_name: path.clone(),
                    cause: String::from_str("the character after `$` is not an ASCII character"),
                },
            ),
        );
    }
    match full(path.as_str()) {
        Ok(expanded) => Ok(expanded),
        Err(e) => Err(IpaError::InvalidPath(e)),
    }
}

/// Begins the making of `link`: expands both of its paths, the source
/// first, and hands back the linker with its first request.
///
/// Expansion reads the variables of the process, so what a path with `~`
/// or `$` expands to is not stated here; [`Linker::start`] says exactly
/// what follows from the expanded pair. A path that holds neither is taken
/// as it is. A path in which `$` stands before a character that is not an
/// ASCII one is not expanded at all: it is an invalid path.
pub fn symlink(link: &SymLink) -> (r: Result<(Linker, Request), IpaError>)
    ensures
        is_plain(link@.src) && is_plain(link@.dst) ==> r is Ok && r->Ok_0.0@ == LinkerView::initial(
            link@.src,
            link@.dst,
            link@.relink,
            link@.create,
        ),
        !is_expandable(link@.src) ==> r is Err && r->Err_0@ == IpaErrorView::InvalidPath(
            unexpandable(link@.src),
        ),
        is_plain(link@.src) && !is_expandable(link@.dst) ==> r is Err && r->Err_0@
            == IpaErrorView::InvalidPath(unexpandable(link@.dst)),
        r matches Ok(begun) ==> {
            &&& is_expandable(link@.src) && is_expandable(link@.dst)
            &&& begun.0@ == LinkerView::initial(
                begun.0@.src,
                begun.0@.dst,
                link@.relink,
                link@.create,
            )
            &&& begun.1@ == begun.0@.asks()
        },
        r matches Err(e) ==> e is InvalidPath && !(is_plain(link@.src) && is_plain(link@.dst)),
{
    let src = match expand(&link.src) {
        Ok(path) => path,
        Err(e) => { return Err(e); },
    };
    let dst = match expand(&link.dst) {
        Ok(path) => path,
        Err(e) => { return Err(e); },
    };
    Ok(Linker::start(src, dst, link.relink, link.create))
}

} // verus!
