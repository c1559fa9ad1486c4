//! The orchestrator: which bundles of a descriptor apply, in what order, and
//! what each step of applying them leads to.
//!
//! A selection of groups is first laid out as a plan: one step for each
//! package, link and command, bundle by bundle ([`plan`], [`steps_of_bundle`]).
//! A [`Run`] then takes the plan step by step and stops at the first failure.
//! Packages are installed through the capability the orchestrator was given;
//! for the filesystem and for subprocesses the run hands a [`Request`] to its
//! host and waits for the [`Reply`].

use crate::cli::{Options, OptionsView};
use crate::config::{distinct, has_group, Config, GroupView, Values, ValuesView};
use crate::error::{IpaError, IpaErrorView};
use crate::host::{Reply, ReplyView, Request, RequestView};
use crate::pacman::{Package, PackageManagement, PackageView};
use crate::path::is_plain;
use crate::shell::{command_of, result_of, Shell, ShellSpecView, ShellView};
use crate::symlink::{symlink, Linker, LinkerView, Outcome, OutcomeView, SymLink, SymLinkView};
use vstd::prelude::*;
use vstd::std_specs::convert::FromSpecImpl;
use vstd::string::StringExecFns;

verus! {

/// Why a run ended early.
#[derive(Debug, PartialEq)]
pub enum Error {
    /// The descriptor has no group of the name asked for.
    InvalidGroup,
    /// A package could not be installed.
    Pacman(crate::pacman::Error),
    /// A link could not be made.
    SymLink(IpaError),
    /// A command could not be run.
    Shell(crate::shell::Error),
    /// The run was told of something it was not waiting for.
    UnexpectedReply,
}

pub ghost enum ErrorView {
    InvalidGroup,
    Pacman(crate::pacman::ErrorView),
    SymLink(IpaErrorView),
    Shell(crate::shell::ErrorView),
    UnexpectedReply,
}

impl View for Error {
    type V = ErrorView;

    open spec fn view(&self) -> ErrorView {
        match self {
            Error::InvalidGroup => ErrorView::InvalidGroup,
            Error::Pacman(e) => ErrorView::Pacman(e@),
            Error::SymLink(e) => ErrorView::SymLink(e@),
            Error::Shell(e) => ErrorView::Shell(e@),
            Error::UnexpectedReply => ErrorView::UnexpectedReply,
        }
    }
}

impl ErrorView {
    /// The text shown to the user: that of the error's origin, unchanged.
    pub open spec fn message(self) -> Seq<char> {
        match self {
            ErrorView::InvalidGroup => "Invalid group name"@,
            ErrorView::Pacman(e) => e.message(),
            ErrorView::SymLink(e) => e.message(),
            ErrorView::Shell(e) => e.message(),
            ErrorView::UnexpectedReply => "Unexpected reply from the host"@,
        }
    }
}

impl Error {
    /// The text shown to the user for this error.
    pub fn message(&self) -> (text: String)
        ensures
            text@ == self@.message(),
    {
        match self {
            Error::InvalidGroup => String::from_str("Invalid group name"),
            Error::Pacman(e) => e.message(),
            Error::SymLink(e) => e.message(),
            Error::Shell(e) => e.message(),
            Error::UnexpectedReply => String::from_str("Unexpected reply from the host"),
        }
    }
}

impl From<crate::shell::Error> for Error {
    fn from(val: crate::shell::Error) -> (error: Error) {
        Error::Shell(val)
    }
}

impl FromSpecImpl<crate::shell::Error> for Error {
    open spec fn obeys_from_spec() -> bool {
        true
    }

    open spec fn from_spec(val: crate::shell::Error) -> Error {
        Error::Shell(val)
    }
}

impl From<crate::pacman::Error> for Error {
    fn from(val: crate::pacman::Error) -> (error: Error) {
        Error::Pacman(val)
    }
}

impl FromSpecImpl<crate::pacman::Error> for Error {
    open spec fn obeys_from_spec() -> bool {
        true
    }

    open spec fn from_spec(val: crate::pacman::Error) -> Error {
        Error::Pacman(val)
    }
}

impl From<IpaError> for Error {
    fn from(val: IpaError) -> (error: Error) {
        Error::SymLink(val)
    }
}

impl FromSpecImpl<IpaError> for Error {
    open spec fn obeys_from_spec() -> bool {
        true
    }

    open spec fn from_spec(val: IpaError) -> Error {
        Error::SymLink(val)
    }
}

/// One step of a plan.
#[derive(Debug, PartialEq)]
pub enum Step {
    Install(Package),
    Link(SymLink),
    Shell(Shell),
}

pub ghost enum StepView {
    Install(PackageView),
    Link(SymLinkView),
    Shell(ShellView),
}

impl View for Step {
    type V = StepView;

    open spec fn view(&self) -> StepView {
        match self {
            Step::Install(package) => StepView::Install(package@),
            Step::Link(link) => StepView::Link(link@),
            Step::Shell(shell) => StepView::Shell(shell@),
        }
    }
}

impl DeepView for Step {
    type V = StepView;

    open spec fn deep_view(&self) -> StepView {
        self@
    }
}

/// The steps of one bundle: its package, then its link, then its command,
/// each if it is there.
pub open spec fn steps_of_bundle(values: ValuesView) -> Seq<StepView> {
    let package = match values.package {
        Some(package) => seq![StepView::Install(package)],
        None => Seq::empty(),
    };
    let link = match values.link {
        Some(link) => seq![StepView::Link(link)],
        None => Seq::empty(),
    };
    let shell = match values.shell {
        Some(shell) => seq![StepView::Shell(shell)],
        None => Seq::empty(),
    };
    package + link + shell
}

/// The steps of a group's bundles, bundle after bundle.
pub open spec fn steps_of_bundles(bundles: Seq<ValuesView>) -> Seq<StepView>
    decreases bundles.len(),
{
    if bundles.len() == 0 {
        Seq::empty()
    } else {
        steps_of_bundles(bundles.drop_last()) + steps_of_bundle(bundles.last())
    }
}

/// The steps of all groups but the one named `skip`, group after group.
pub open spec fn plan(groups: Seq<GroupView>, skip: Option<Seq<char>>) -> Seq<StepView>
    decreases groups.len(),
{
    if groups.len() == 0 {
        Seq::empty()
    } else if skip == Some(groups.last().name) {
        plan(groups.drop_last(), skip)
    } else {
        plan(groups.drop_last(), skip) + steps_of_bundles(groups.last().values)
    }
}

/// The steps of the one group named `name`.
pub open spec fn plan_of(groups: Seq<GroupView>, name: Seq<char>) -> Seq<StepView>
    recommends
        has_group(groups, name),
{
    let at = choose|i: int| 0 <= i < groups.len() && #[trigger] groups[i].name == name;
    steps_of_bundles(groups[at].values)
}

/// What a [`Run`] is in the middle of.
#[derive(Debug, Clone, Copy, PartialEq, Eq, Structural)]
pub enum Phase {
    /// Nothing: the next step can be taken up.
    Idle,
    /// A package is being installed.
    Installing,
    /// The paths of a link are being expanded.
    Expanding,
    /// A link is being made.
    Linking,
    /// A command is running.
    Running,
    /// The run is over.
    Finished,
}

/// What a [`Run`] wants done next.
#[derive(Debug)]
pub enum Action {
    /// Install this package and say how it went, with [`Run::installed`].
    Install(Package),
    /// Begin this link and hand over what came of it, with [`Run::expanded`].
    Expand(SymLink),
    /// Have the host do this and hand over its reply, with [`Run::answered`].
    Ask(Request),
    /// Nothing more: this is the result of the run.
    Finish(Result<(), Error>),
}

pub ghost enum ActionView {
    Install(PackageView),
    Expand(SymLinkView),
    Ask(RequestView),
    Finish(Result<(), ErrorView>),
}

impl View for Action {
    type V = ActionView;

    open spec fn view(&self) -> ActionView {
        match self {
            Action::Install(package) => ActionView::Install(package@),
            Action::Expand(link) => ActionView::Expand(link@),
            Action::Ask(request) => ActionView::Ask(request@),
            Action::Finish(Ok(())) => ActionView::Finish(Ok(())),
            Action::Finish(Err(e)) => ActionView::Finish(Err(e@)),
        }
    }
}

/// What a run needs from its host, or how it ended.
#[derive(Debug, PartialEq)]
pub enum Poll {
    /// Do this, and come back with the answer.
    Ask(Request),
    /// The run is over, with this result.
    Finish(Result<(), Error>),
}

pub ghost enum PollView {
    Ask(RequestView),
    Finish(Result<(), ErrorView>),
}

impl View for Poll {
    type V = PollView;

    open spec fn view(&self) -> PollView {
        match self {
            Poll::Ask(request) => PollView::Ask(request@),
            Poll::Finish(Ok(())) => PollView::Finish(Ok(())),
            Poll::Finish(Err(e)) => PollView::Finish(Err(e@)),
        }
    }
}

/// A plan and the place in it.
#[derive(Debug)]
struct Cursor {
    steps: Vec<Step>,
    next: usize,
    phase: Phase,
}

impl Cursor {
    #[verifier::type_invariant]
    spec fn within_plan(self) -> bool {
        &&& self.next <= self.steps.len()
        &&& (self.phase == Phase::Installing || self.phase == Phase::Expanding || self.phase
            == Phase::Linking || self.phase == Phase::Running) ==> self.next < self.steps.len()
    }
}

/// A plan that is being carried out.
#[derive(Debug)]
pub struct Run {
    cursor: Cursor,
    linker: Option<Linker>,
}

pub ghost struct RunView {
    /// The plan.
    pub steps: Seq<StepView>,
    /// How many of its steps are done.
    pub next: int,
    pub phase: Phase,
    /// The link engine, while a link is being made.
    pub linker: Option<LinkerView>,
}

/// A run's move: its new state and what it wants done.
pub ghost struct Act {
    pub state: RunView,
    pub action: ActionView,
}

impl RunView {
    /// A run that has not begun.
    pub open spec fn fresh(steps: Seq<StepView>) -> RunView {
        RunView { steps, next: 0, phase: Phase::Idle, linker: None }
    }

    /// End with `result`.
    pub open spec fn finish(self, result: Result<(), ErrorView>) -> Act {
        Act {
            state: RunView { phase: Phase::Finished, linker: None, ..self },
            action: ActionView::Finish(result),
        }
    }

    /// Move to `phase` and want `action` done.
    pub open spec fn want(self, phase: Phase, action: ActionView) -> Act {
        Act { state: RunView { phase, ..self }, action }
    }

    /// Take up the next step of the plan. Where none is left the run ends
    /// well. A package without a name ends it before anything is installed.
    pub open spec fn proceed(self) -> Act {
        if self.phase != Phase::Idle {
            self.finish(Err(ErrorView::UnexpectedReply))
        } else if !(0 <= self.next < self.steps.len()) {
            self.finish(Ok(()))
        } else {
            match self.steps[self.next] {
                StepView::Install(package) => if package.name.len() == 0 {
                    self.finish(Err(ErrorView::Pacman(crate::pacman::ErrorView::EmptyName)))
                } else {
                    self.want(Phase::Installing, ActionView::Install(package))
                },
                StepView::Link(link) => self.want(Phase::Expanding, ActionView::Expand(link)),
                StepView::Shell(shell) => match command_of(ShellSpecView::Line(shell.command)) {
                    Ok(command) => self.want(
                        Phase::Running,
                        ActionView::Ask(RequestView::Spawn(command)),
                    ),
                    Err(e) => self.finish(Err(ErrorView::Shell(e))),
                },
            }
        }
    }

    /// The step at hand is done: go on with the one after it.
    pub open spec fn advance(self) -> Act {
        (RunView { next: self.next + 1, phase: Phase::Idle, linker: None, ..self }).proceed()
    }

    /// The move when the package at hand was installed, or was not.
    pub open spec fn installed(self, result: Result<(), crate::pacman::ErrorView>) -> Act {
        if self.phase != Phase::Installing {
            self.finish(Err(ErrorView::UnexpectedReply))
        } else {
            match result {
                Ok(()) => self.advance(),
                Err(e) => self.finish(Err(ErrorView::Pacman(e))),
            }
        }
    }

    /// The move when the link at hand was begun, or could not be.
    pub open spec fn expanded(self, begun: Result<(LinkerView, RequestView), IpaErrorView>) -> Act {
        if self.phase != Phase::Expanding {
            self.finish(Err(ErrorView::UnexpectedReply))
        } else {
            match begun {
                Ok((linker, request)) => (RunView { linker: Some(linker), ..self }).want(
                    Phase::Linking,
                    ActionView::Ask(request),
                ),
                Err(e) => self.finish(Err(ErrorView::SymLink(e))),
            }
        }
    }

    /// The move on the host's reply. While a link is made the link engine
    /// decides; a command that ran is done whatever its exit status.
    pub open spec fn answered(self, reply: ReplyView) -> Act {
        if self.phase == Phase::Linking && self.linker is Some {
            let turn = self.linker->0.next(reply);
            match turn.outcome {
                OutcomeView::Ask(request) => (RunView { linker: Some(turn.state), ..self }).want(
                    Phase::Linking,
                    ActionView::Ask(request),
                ),
                OutcomeView::Finish(Ok(())) => self.advance(),
                OutcomeView::Finish(Err(e)) => self.finish(Err(ErrorView::SymLink(e))),
            }
        } else if self.phase == Phase::Running {
            match result_of(reply) {
                Ok(_) => self.advance(),
                Err(e) => self.finish(Err(ErrorView::Shell(e))),
            }
        } else {
            self.finish(Err(ErrorView::UnexpectedReply))
        }
    }
}

impl View for Run {
    type V = RunView;

    closed spec fn view(&self) -> RunView {
        RunView {
            steps: self.cursor.steps.deep_view(),
            next: self.cursor.next as int,
            phase: self.cursor.phase,
            linker: match self.linker {
                Some(linker) => Some(linker@),
                None => None,
            },
        }
    }
}

/// The outcome of an installation as a mathematical value.
pub open spec fn install_view(result: Result<(), crate::pacman::Error>) -> Result<
    (),
    crate::pacman::ErrorView,
> {
    match result {
        Ok(()) => Ok(()),
        Err(e) => Err(e@),
    }
}

/// The beginning of a link as a mathematical value.
pub open spec fn begun_view(begun: Result<(Linker, Request), IpaError>) -> Result<
    (LinkerView, RequestView),
    IpaErrorView,
> {
    match begun {
        Ok((linker, request)) => Ok((linker@, request@)),
        Err(e) => Err(e@),
    }
}

impl RunView {
    /// The state is within its plan, and in the middle of a step only
    /// where there is one.
    pub open spec fn sound(self) -> bool {
        &&& 0 <= self.next <= self.steps.len()
        &&& (self.phase == Phase::Installing || self.phase == Phase::Expanding || self.phase
            == Phase::Linking || self.phase == Phase::Running) ==> self.next < self.steps.len()
    }

    /// `action` is what a run in this state is waiting on. A run that ended
    /// well has no step left.
    pub open spec fn awaits(self, action: ActionView) -> bool {
        match action {
            ActionView::Install(_) => self.phase == Phase::Installing,
            ActionView::Expand(_) => self.phase == Phase::Expanding,
            ActionView::Ask(_) => self.phase == Phase::Linking || self.phase == Phase::Running,
            ActionView::Finish(result) => self.phase == Phase::Finished && (result is Ok
                ==> self.next == self.steps.len()),
        }
    }
}

/// `act` keeps to the plan of `state`: it is sound, does not go back, and
/// waits on what it wants.
pub open spec fn keeps_to(state: RunView, act: Act) -> bool {
    &&& act.state.sound()
    &&& act.state.awaits(act.action)
    &&& act.state.steps == state.steps
    &&& act.state.next >= state.next
}

/// Where a move leads once the orchestrator has done what it can do
/// without its host, as far as that is known beforehand. A move that waits
/// on the host, or ends the run, stands as it is. A link whose paths need
/// no expansion is begun, and the move is the link engine's first request.
/// Nothing is known where a package is to be installed, or a path is to be
/// expanded: that depends on the capability and on the variables of the
/// process.
pub open spec fn settled(act: Act) -> Option<Act> {
    match act.action {
        ActionView::Ask(_) | ActionView::Finish(_) => Some(act),
        ActionView::Expand(link) => if is_plain(link.src) && is_plain(link.dst) {
            let linker = LinkerView::initial(link.src, link.dst, link.relink, link.create);
            Some(act.state.expanded(Ok((linker, linker.asks()))))
        } else {
            None
        },
        ActionView::Install(_) => None,
    }
}

/// Whatever a sound run is told, its move keeps to the plan.
pub proof fn lemma_moves_keep_to_plan(
    state: RunView,
    result: Result<(), crate::pacman::ErrorView>,
    begun: Result<(LinkerView, RequestView), IpaErrorView>,
    reply: ReplyView,
)
    requires
        state.sound(),
    ensures
        keeps_to(state, state.proceed()),
        keeps_to(state, state.installed(result)),
        keeps_to(state, state.expanded(begun)),
        keeps_to(state, state.answered(reply)),
{
}

impl Run {
    fn fresh(steps: Vec<Step>) -> (run: Run)
        ensures
            run@ == RunView::fresh(steps.deep_view()),
    {
        Run { cursor: Cursor { steps, next: 0, phase: Phase::Idle }, linker: None }
    }

    /// True once the run is over.
    pub fn is_finished(&self) -> (done: bool)
        ensures
            done == (self@.phase == Phase::Finished),
    {
        match self.cursor.phase {
            Phase::Finished => true,
            _ => false,
        }
    }

    /// How many steps of the plan are done.
    pub fn done(&self) -> (count: usize)
        ensures
            count == self@.next,
            self@.sound(),
    {
        proof {
            use_type_invariant(&self.cursor);
        }
        self.cursor.next
    }

    /// How many steps the plan has.
    pub fn len(&self) -> (count: usize)
        ensures
            count == self@.steps.len(),
    {
        self.cursor.steps.len()
    }

    fn finish(&mut self, result: Result<(), Error>) -> (action: Action)
        ensures
            (Act { state: final(self)@, action: action@ }) == old(self)@.finish(
                match result {
                    Ok(()) => Ok(()),
                    Err(e) => Err(e@),
                },
            ),
    {
        proof {
            use_type_invariant(&self.cursor);
        }
        self.cursor.phase = Phase::Finished;
        self.linker = None;
        Action::Finish(result)
    }

    /// Takes up the next step of the plan, as [`RunView::proceed`] lays
    /// down.
    pub fn proceed(&mut self) -> (action: Action)
        ensures
            (Act { state: final(self)@, action: action@ }) == old(self)@.proceed(),
    {
        proof {
            use_type_invariant(&self.cursor);
        }
        if self.cursor.phase != Phase::Idle {
            return self.finish(Err(Error::UnexpectedReply));
        }
        if self.cursor.next >= self.cursor.steps.len() {
            return self.finish(Ok(()));
        }
        match &self.cursor.steps[self.cursor.next] {
            Step::Install(package) => {
                if package.name.as_str().is_empty() {
                    self.finish(Err(Error::Pacman(crate::pacman::Error::EmptyName)))
                } else {
                    let package = package.clone();
                    self.cursor.phase = Phase::Installing;
                    Action::Install(package)
                }
            },
            Step::Link(link) => {
                let link = link.clone();
                self.cursor.phase = Phase::Expanding;
                Action::Expand(link)
            },
            Step::Shell(shell) => {
                let spec = shell.to_spec();
                match crate::shell::execute(&spec) {
                    Ok(command) => {
                        self.cursor.phase = Phase::Running;
                        Action::Ask(Request::Spawn(command))
                    },
                    Err(e) => self.finish(Err(Error::Shell(e))),
                }
            },
        }
    }

    fn advance(&mut self) -> (action: Action)
        requires
            old(self)@.next < old(self)@.steps.len(),
        ensures
            (Act { state: final(self)@, action: action@ }) == old(self)@.advance(),
    {
        proof {
            use_type_invariant(&self.cursor);
        }
        self.cursor.phase = Phase::Idle;
        self.linker = None;
        self.cursor.next = self.cursor.next + 1;
        self.proceed()
    }

    /// Takes the outcome of the installation that the run is waiting on, as
    /// [`RunView::installed`] lays down.
    pub fn installed(&mut self, result: Result<(), crate::pacman::Error>) -> (action: Action)
        ensures
            (Act { state: final(self)@, action: action@ }) == old(self)@.installed(
                install_view(result),
            ),
    {
        proof {
            use_type_invariant(&self.cursor);
        }
        if self.cursor.phase != Phase::Installing {
            return self.finish(Err(Error::UnexpectedReply));
        }
        match result {
            Ok(()) => self.advance(),
            Err(e) => self.finish(Err(Error::Pacman(e))),
        }
    }

    /// Takes the beginning of the link that the run is waiting on, as
    /// [`RunView::expanded`] lays down.
    pub fn expanded(&mut self, begun: Result<(Linker, Request), IpaError>) -> (action: Action)
        ensures
            (Act { state: final(self)@, action: action@ }) == old(self)@.expanded(
                begun_view(begun),
            ),
    {
        proof {
            use_type_invariant(&self.cursor);
        }
        if self.cursor.phase != Phase::Expanding {
            return self.finish(Err(Error::UnexpectedReply));
        }
        match begun {
            Ok((linker, request)) => {
                self.linker = Some(linker);
                self.cursor.phase = Phase::Linking;
                Action::Ask(request)
            },
            Err(e) => self.finish(Err(Error::SymLink(e))),
        }
    }

    /// Takes the host's reply to the request in flight, as
    /// [`RunView::answered`] lays down.
    pub fn answered(&mut self, reply: Reply) -> (action: Action)
        ensures
            (Act { state: final(self)@, action: action@ }) == old(self)@.answered(reply@),
    {
        proof {
            use_type_invariant(&self.cursor);
        }
        match self.cursor.phase {
            Phase::Linking => match self.linker.take() {
                Some(linker) => {
                    let mut linker = linker;
                    match linker.step(reply) {
                        Outcome::Ask(request) => {
                            self.linker = Some(linker);
                            Action::Ask(request)
                        },
                        Outcome::Finish(Ok(())) => self.advance(),
                        Outcome::Finish(Err(e)) => self.finish(Err(Error::SymLink(e))),
                    }
                },
                None => self.finish(Err(Error::UnexpectedReply)),
            },
            Phase::Running => match crate::shell::finish(reply) {
                Ok(_) => self.advance(),
                Err(e) => self.finish(Err(Error::Shell(e))),
            },
            _ => self.finish(Err(Error::UnexpectedReply)),
        }
    }
}

/// The name to skip as a mathematical value.
pub open spec fn skip_view(skip: Option<&str>) -> Option<Seq<char>> {
    match skip {
        Some(name) => Some(name@),
        None => None,
    }
}

/// The orchestrator: a descriptor and the capability to install packages.
pub struct Ipa<'a, P: PackageManagement> {
    config: Config,
    pacman: &'a P,
}

impl<'a, P> Ipa<'a, P> where P: PackageManagement {
    /// The groups of the descriptor.
    pub closed spec fn groups(&self) -> Seq<GroupView> {
        self.config@
    }

    pub fn new(config: Config, pacman: &'a P) -> (ipa: Self)
        ensures
            ipa.groups() == config@,
    {
        Ipa { config, pacman }
    }

    /// A run over every group but the one named `group`. A name that no
    /// group has leaves none out.
    pub fn setup_except_group(&self, group: &str) -> (run: Run)
        ensures
            run@ == RunView::fresh(plan(self.groups(), Some(group@))),
    {
        Run::fresh(self.collect(Some(group)))
    }

    /// A run over the one group named `group`. Where the descriptor has no
    /// such group there is no run, and nothing was done.
    pub fn setup_group(&self, group: &str) -> (r: Result<Run, Error>)
        ensures
            has_group(self.groups(), group@) ==> r is Ok && r->Ok_0@ == RunView::fresh(
                plan_of(self.groups(), group@),
            ),
            !has_group(self.groups(), group@) ==> r is Err && r->Err_0@ == ErrorView::InvalidGroup,
    {
        if let Some(values) = self.config.get(group) {
            let mut steps: Vec<Step> = Vec::new();
            assert(steps.deep_view() =~= Seq::<StepView>::empty());
            Self::process(values, &mut steps);
            proof {
                let groups = self.groups();
                let at = choose|i: int|
                    0 <= i < groups.len() && #[trigger] groups[i].name == group@;
                let found = choose|i: int|
                    0 <= i < groups.len() && #[trigger] groups[i].name == group@
                        && groups[i].values == values.deep_view();
                assert(at == found);
                assert(steps.deep_view() =~= plan_of(groups, group@));
            }
            return Ok(Run::fresh(steps));
        }
        Err(Error::InvalidGroup)
    }

    /// A run over every group, in the order of the descriptor.
    pub fn setup(&self) -> (run: Run)
        ensures
            run@ == RunView::fresh(plan(self.groups(), None)),
    {
        Run::fresh(self.collect(None))
    }

    /// Lays out the steps of every group but the one to skip.
    fn collect(&self, skip: Option<&str>) -> (steps: Vec<Step>)
        ensures
            steps.deep_view() == plan(self.groups(), skip_view(skip)),
    {
        let groups = self.config.groups();
        let ghost all = groups.deep_view();
        let mut steps: Vec<Step> = Vec::new();
        let mut i: usize = 0;
        assert(steps.deep_view() =~= Seq::<StepView>::empty());
        while i < groups.len()
            invariant
                i <= groups.len(),
                all == groups.deep_view(),
                steps.deep_view() == plan(all.take(i as int), skip_view(skip)),
            decreases groups.len() - i,
        {
            assert(all.take(i + 1).drop_last() =~= all.take(i as int));
            assert(all.take(i + 1).last() == groups[i as int]@);
            let skipped = match skip {
                Some(name) => {
                    let name = String::from_str(name);
                    groups[i].name == name
                },
                None => false,
            };
            if !skipped {
                Self::process(&groups[i].values, &mut steps);
            }
            i += 1;
        }
        assert(all.take(groups.len() as int) =~= all);
        steps
    }

    /// Adds the steps of a group's bundles to a plan.
    fn process(values: &Vec<Values>, steps: &mut Vec<Step>)
        ensures
            final(steps).deep_view() == old(steps).deep_view() + steps_of_bundles(
                values.deep_view(),
            ),
    {
        let ghost all = values.deep_view();
        let ghost before = steps.deep_view();
        let mut i: usize = 0;
        assert(steps.deep_view() =~= before + steps_of_bundles(all.take(0)));
        while i < values.len()
            invariant
                i <= values.len(),
                all == values.deep_view(),
                steps.deep_view() == before + steps_of_bundles(all.take(i as int)),
            decreases values.len() - i,
        {
            assert(all.take(i + 1).drop_last() =~= all.take(i as int));
            assert(all.take(i + 1).last() == values[i as int]@);
            let ghost had = steps.deep_view();
            Self::process_value(&values[i], steps);
            assert(steps.deep_view() =~= before + steps_of_bundles(all.take(i + 1)));
            i += 1;
        }
        assert(all.take(values.len() as int) =~= all);
    }

    /// Adds the steps of one bundle to a plan: its package, then its link,
    /// then its command.
    fn process_value(value: &Values, steps: &mut Vec<Step>)
        ensures
            final(steps).deep_view() == old(steps).deep_view() + steps_of_bundle(value@),
    {
        let ghost before = steps.deep_view();
        if let Some(ref package) = value.package {
            let ghost had = steps.deep_view();
            steps.push(Step::Install(package.clone()));
            assert(steps.deep_view() =~= had.push(StepView::Install(package@)));
        }
        if let Some(ref link) = value.link {
            let ghost had = steps.deep_view();
            steps.push(Step::Link(link.clone()));
            assert(steps.deep_view() =~= had.push(StepView::Link(link@)));
        }
        if let Some(ref shell) = value.shell {
            let ghost had = steps.deep_view();
            steps.push(Step::Shell(shell.clone()));
            assert(steps.deep_view() =~= had.push(StepView::Shell(shell@)));
        }
        assert(steps.deep_view() =~= before + steps_of_bundle(value@));
    }

    /// Begins `run`, or goes on with it where it stands idle: installs
    /// package after package until the run needs its host or is over.
    ///
    /// What an installation or an expansion comes to is not known here, so
    /// this states what holds however they go; [`Run::proceed`],
    /// [`Run::installed`] and [`Run::expanded`] say exactly what each
    /// outcome leads to.
    pub fn begin(&self, run: &mut Run) -> (poll: Poll)
        ensures
            final(run)@.sound(),
            final(run)@.steps == old(run)@.steps,
            final(run)@.next >= old(run)@.next,
            final(run)@.awaits(poll_view(poll)),
            settled(old(run)@.proceed()) matches Some(end) ==> final(run)@ == end.state
                && poll_view(poll) == end.action,
    {
        let ghost state = run@;
        proof {
            use_type_invariant(&run.cursor);
            lemma_moves_keep_to_plan(state, Ok(()), Err(IpaErrorView::UnexpectedReply), ReplyView::Done);
        }
        let action = run.proceed();
        self.drive(run, action)
    }

    /// Hands `run` the host's reply to its request and goes on until the
    /// run needs its host again or is over.
    ///
    /// [`Run::answered`] says exactly what the reply leads to.
    pub fn resume(&self, run: &mut Run, reply: Reply) -> (poll: Poll)
        ensures
            final(run)@.sound(),
            final(run)@.steps == old(run)@.steps,
            final(run)@.next >= old(run)@.next,
            final(run)@.awaits(poll_view(poll)),
            settled(old(run)@.answered(reply@)) matches Some(end) ==> final(run)@ == end.state
                && poll_view(poll) == end.action,
    {
        let ghost state = run@;
        proof {
            use_type_invariant(&run.cursor);
            lemma_moves_keep_to_plan(state, Ok(()), Err(IpaErrorView::UnexpectedReply), reply@);
        }
        let action = run.answered(reply);
        self.drive(run, action)
    }

    /// Does what the run wants for as long as that is an installation or an
    /// expansion, and hands on what is for the host.
    fn drive(&self, run: &mut Run, action: Action) -> (poll: Poll)
        requires
            old(run)@.sound(),
            old(run)@.awaits(action@),
        ensures
            final(run)@.sound(),
            final(run)@.steps == old(run)@.steps,
            final(run)@.next >= old(run)@.next,
            final(run)@.awaits(poll_view(poll)),
            settled(Act { state: old(run)@, action: action@ }) matches Some(end) ==> final(run)@
                == end.state && poll_view(poll) == end.action,
    {
        let ghost first = Act { state: run@, action: action@ };
        let mut current = action;
        loop
            invariant
                run@.sound(),
                run@.awaits(current@),
                run@.steps == old(run)@.steps,
                run@.next >= old(run)@.next,
                first == (Act { state: old(run)@, action: action@ }),
                settled(first) is Some ==> settled(Act { state: run@, action: current@ })
                    == settled(first),
            decreases
                    2 * (run@.steps.len() - run@.next) + (if current@ is Install || current@ is Expand {
                        1int
                    } else {
                        0int
                    }),
        {
            let ghost state = run@;
            match current {
                Action::Ask(request) => {
                    return Poll::Ask(request);
                },
                Action::Finish(result) => {
                    return Poll::Finish(result);
                },
                Action::Install(package) => {
                    let result = self.pacman.install(&package);
                    proof {
                        lemma_moves_keep_to_plan(
                            state,
                            install_view(result),
                            Err(IpaErrorView::UnexpectedReply),
                            ReplyView::Done,
                        );
                    }
                    current = run.installed(result);
                },
                Action::Expand(link) => {
                    let begun = symlink(&link);
                    proof {
                        lemma_moves_keep_to_plan(state, Ok(()), begun_view(begun), ReplyView::Done);
                    }
                    current = run.expanded(begun);
                },
            }
        }
    }
}

/// A poll as an action: something to ask, or the end.
pub open spec fn poll_view(poll: Poll) -> ActionView {
    match poll {
        Poll::Ask(request) => ActionView::Ask(request@),
        Poll::Finish(Ok(())) => ActionView::Finish(Ok(())),
        Poll::Finish(Err(e)) => ActionView::Finish(Err(e@)),
    }
}

/// The plan that the options select: the one group of `only_group` where
/// that is given, else all groups but `except_group` where that is given,
/// else all groups. A group that is asked for and not there is an error.
pub open spec fn selection(options: OptionsView, groups: Seq<GroupView>) -> Result<
    Seq<StepView>,
    ErrorView,
> {
    match options.only_group {
        Some(only) => if has_group(groups, only) {
            Ok(plan_of(groups, only))
        } else {
            Err(ErrorView::InvalidGroup)
        },
        None => Ok(plan(groups, options.except_group)),
    }
}

/// The run that the options ask for, as [`selection`] lays down.
pub fn run<'a, P: PackageManagement>(options: &Options, ipa: &Ipa<'a, P>) -> (r: Result<Run, Error>)
    ensures
        match r {
            Ok(run) => selection(options@, ipa.groups()) == Ok::<Seq<StepView>, ErrorView>(
                run@.steps,
            ) && run@ == RunView::fresh(run@.steps),
            Err(e) => selection(options@, ipa.groups()) == Err::<Seq<StepView>, ErrorView>(e@),
        },
{
    if let Some(ref only_group) = options.only_group {
        return ipa.setup_group(only_group.as_str());
    }
    if let Some(ref except_group) = options.except_group {
        return Ok(ipa.setup_except_group(except_group.as_str()));
    }
    Ok(ipa.setup())
}

/// The plan of one group is made of that group's bundles: names tell
/// groups apart.
pub proof fn lemma_plan_of_group(groups: Seq<GroupView>, at: int)
    requires
        distinct(groups),
        0 <= at < groups.len(),
    ensures
        has_group(groups, groups[at].name),
        plan_of(groups, groups[at].name) == steps_of_bundles(groups[at].values),
{
    let name = groups[at].name;
    assert(groups[at].name == name);
    let chosen = choose|i: int| 0 <= i < groups.len() && #[trigger] groups[i].name == name;
    assert(chosen == at);
}

/// Leaving out a group that the descriptor does not have leaves out
/// nothing: the plan is that of all groups.
pub proof fn lemma_except_unknown_is_all(groups: Seq<GroupView>, name: Seq<char>)
    requires
        !has_group(groups, name),
    ensures
        plan(groups, Some(name)) == plan(groups, None),
    decreases groups.len(),
{
    if groups.len() > 0 {
        let rest = groups.drop_last();
        assert(groups.last() == groups[groups.len() - 1]);
        assert forall|i: int| 0 <= i < rest.len() implies rest[i].name != name by {
            assert(groups[i].name == rest[i].name);
        }
        lemma_except_unknown_is_all(rest, name);
    }
}

/// In a descriptor of two groups, leaving out one is applying the other:
/// both selections have the same plan, so the runs over them are the same.
pub proof fn lemma_except_one_is_only_other(groups: Seq<GroupView>, a: Seq<char>, b: Seq<char>)
    requires
        distinct(groups),
        groups.len() == 2,
        (groups[0].name == a && groups[1].name == b) || (groups[0].name == b && groups[1].name
            == a),
    ensures
        plan(groups, Some(a)) == plan_of(groups, b),
        RunView::fresh(plan(groups, Some(a))) == RunView::fresh(plan_of(groups, b)),
{
    reveal_with_fuel(plan, 3);
    let first = groups.drop_last();
    assert(first.len() == 1 && first.last() == groups[0]);
    assert(first.drop_last().len() == 0);
    assert(groups.last() == groups[1]);
    let other: int = if groups[0].name == b {
        0
    } else {
        1
    };
    assert(groups[other].name == b);
    let at = choose|i: int| 0 <= i < groups.len() && #[trigger] groups[i].name == b;
    assert(at == other);
    assert(plan(groups, Some(a)) =~= steps_of_bundles(groups[other].values));
}

/// A package without a name ends the run as soon as its step comes up:
/// the run fails with the error for an empty name and wants nothing
/// installed.
pub proof fn lemma_nameless_package_ends_run(state: RunView)
    requires
        state.phase == Phase::Idle,
        0 <= state.next < state.steps.len(),
        state.steps[state.next] is Install,
        state.steps[state.next]->Install_0.name.len() == 0,
    ensures
        state.proceed().action == ActionView::Finish(
            Err(ErrorView::Pacman(crate::pacman::ErrorView::EmptyName)),
        ),
        state.proceed().state.phase == Phase::Finished,
{
}

/// A bundle whose package has no name ends the run that comes to it with
/// the error for an empty name, whatever else the bundle holds: nothing is
/// installed, the bundle's link is not begun and its command is not run.
pub proof fn lemma_bundle_without_package_name(
    before: Seq<StepView>,
    values: ValuesView,
    after: Seq<StepView>,
)
    requires
        values.package is Some,
        values.package->0.name.len() == 0,
    ensures
        ({
            let state = RunView {
                next: before.len() as int,
                ..RunView::fresh(before + steps_of_bundle(values) + after)
            };
            &&& state.proceed().action == ActionView::Finish(
                Err(ErrorView::Pacman(crate::pacman::ErrorView::EmptyName)),
            )
            &&& state.proceed().state.phase == Phase::Finished
            &&& state.proceed().state.next == before.len()
        }),
{
    let steps = before + steps_of_bundle(values) + after;
    assert(steps_of_bundle(values)[0] == StepView::Install(values.package->0));
    assert(steps[before.len() as int] == StepView::Install(values.package->0));
}

/// The first failure ends the run, and the error keeps its origin: a
/// failed installation, a link that could not be begun, a failure of the
/// link engine and a command that could not be spawned each come out as
/// they went in, under the tag of where they came from.
pub proof fn lemma_first_failure_ends_run(
    state: RunView,
    install: crate::pacman::ErrorView,
    link: IpaErrorView,
    reply: ReplyView,
)
    ensures
        state.phase == Phase::Installing ==> state.installed(Err(install)).action
            == ActionView::Finish(Err(ErrorView::Pacman(install))),
        state.phase == Phase::Expanding ==> state.expanded(Err(link)).action
            == ActionView::Finish(Err(ErrorView::SymLink(link))),
        state.phase == Phase::Linking && state.linker is Some && state.linker->0.next(
            reply,
        ).outcome == OutcomeView::Finish(Err(link)) ==> state.answered(reply).action
            == ActionView::Finish(Err(ErrorView::SymLink(link))),
        state.phase == Phase::Running && reply is Failed ==> state.answered(reply).action
            == ActionView::Finish(Err(ErrorView::Shell(crate::shell::ErrorView::Io(reply->Failed_0)))),
        state.phase == Phase::Running && reply is Exited ==> state.answered(reply)
            == state.advance(),
{
}

} // verus!
