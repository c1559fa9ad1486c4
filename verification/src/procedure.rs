//! The link procedure written out as a procedure, and the proof that the
//! link engine follows it.
//!
//! [`link_pair`] says what is asked of the host, in what order, and how the
//! call ends, for every way the host may answer: a check of the source, then
//! either one link or, where source and destination are both directories,
//! the children of the source one after the other, each a link or a
//! directory that is mirrored in turn. [`lemma_linker_follows_procedure`]
//! shows that a [`crate::symlink::Linker`] asks exactly that.

use crate::error::IpaErrorView;
use crate::host::{EntryView, ReplyView, RequestView};
use crate::path::{path_join, path_parent};
use crate::symlink::{pile, JobView, LinkerView, OutcomeView, Stage};
use vstd::prelude::*;

verus! {

/// What was asked of the host, in order, and how the call ended. A call
/// whose replies ran out has not ended: it waits on the last request.
pub ghost struct Walk {
    pub asked: Seq<RequestView>,
    pub end: Option<Result<(), IpaErrorView>>,
}

/// The first of the replies, if there is one.
pub open spec fn answer(replies: Seq<ReplyView>) -> Option<ReplyView> {
    if replies.len() == 0 {
        None
    } else {
        Some(replies[0])
    }
}

/// The replies after the first `used`.
pub open spec fn rest_of(replies: Seq<ReplyView>, used: nat) -> Seq<ReplyView> {
    if used <= replies.len() {
        replies.skip(used as int)
    } else {
        Seq::empty()
    }
}

/// Nothing asked, and all is well.
pub open spec fn nothing() -> Walk {
    Walk { asked: Seq::empty(), end: Some(Ok(())) }
}

/// `request` is out and no reply has come.
pub open spec fn waiting(request: RequestView) -> Walk {
    Walk { asked: seq![request], end: None }
}

/// `request` was the last thing asked, and the call ended with `result`.
pub open spec fn ended(request: RequestView, result: Result<(), IpaErrorView>) -> Walk {
    Walk { asked: seq![request], end: Some(result) }
}

/// `request` was asked, and `rest` is what followed.
pub open spec fn after(request: RequestView, rest: Walk) -> Walk {
    Walk { asked: seq![request] + rest.asked, end: rest.end }
}

/// `first`, and if that went well `second`.
pub open spec fn then(first: Walk, second: Walk) -> Walk {
    if first.end == Some(Ok::<(), IpaErrorView>(())) {
        Walk { asked: first.asked + second.asked, end: second.end }
    } else {
        first
    }
}

/// The error for a reply that is no answer to `request`: a failure is
/// tagged with the path that the request was about.
pub open spec fn refusal(request: RequestView, reply: ReplyView) -> IpaErrorView {
    match reply {
        ReplyView::Failed(cause) => IpaErrorView::Io { path: request.path(), cause },
        _ => IpaErrorView::UnexpectedReply,
    }
}

/// The call ends on a reply that is no answer to `request`.
pub open spec fn refused(request: RequestView, reply: ReplyView) -> Walk {
    ended(request, Err(refusal(request, reply)))
}

/// Make the link.
pub open spec fn make_link(replies: Seq<ReplyView>, src: Seq<char>, dst: Seq<char>) -> Walk {
    let request = RequestView::Symlink { src, dst };
    match answer(replies) {
        None => waiting(request),
        Some(ReplyView::Done) => ended(request, Ok(())),
        Some(reply) => refused(request, reply),
    }
}

/// Create the destination's parents, then make the link.
pub open spec fn make_parents(
    replies: Seq<ReplyView>,
    src: Seq<char>,
    dst: Seq<char>,
    parent: Seq<char>,
) -> Walk {
    let request = RequestView::CreateDirAll(parent);
    match answer(replies) {
        None => waiting(request),
        Some(ReplyView::Done) => after(request, make_link(replies.drop_first(), src, dst)),
        Some(reply) => refused(request, reply),
    }
}

/// Create the destination's parents if they are missing, then make the
/// link.
pub open spec fn with_parents(
    replies: Seq<ReplyView>,
    src: Seq<char>,
    dst: Seq<char>,
    parent: Seq<char>,
) -> Walk {
    let request = RequestView::Exists(parent);
    match answer(replies) {
        None => waiting(request),
        Some(ReplyView::Flag(true)) => after(request, make_link(replies.drop_first(), src, dst)),
        Some(ReplyView::Flag(false)) => after(
            request,
            make_parents(replies.drop_first(), src, dst, parent),
        ),
        Some(reply) => refused(request, reply),
    }
}

/// The destination is free: make the link, with the parents first where
/// they are wanted and the destination has a parent.
pub open spec fn place(replies: Seq<ReplyView>, src: Seq<char>, dst: Seq<char>, create: bool) -> Walk {
    if create && path_parent(dst) is Some {
        with_parents(replies, src, dst, path_parent(dst)->0)
    } else {
        make_link(replies, src, dst)
    }
}

/// Remove the file at the destination, then place the link.
pub open spec fn remove(replies: Seq<ReplyView>, src: Seq<char>, dst: Seq<char>, create: bool) -> Walk {
    let request = RequestView::RemoveFile(dst);
    match answer(replies) {
        None => waiting(request),
        Some(ReplyView::Done) => after(request, place(replies.drop_first(), src, dst, create)),
        Some(reply) => refused(request, reply),
    }
}

/// Replace what is at the destination: remove it unless it is a directory,
/// then place the link.
pub open spec fn replace(replies: Seq<ReplyView>, src: Seq<char>, dst: Seq<char>, create: bool) -> Walk {
    let request = RequestView::IsDir(dst);
    match answer(replies) {
        None => waiting(request),
        Some(ReplyView::Flag(true)) => after(
            request,
            place(replies.drop_first(), src, dst, create),
        ),
        Some(ReplyView::Flag(false)) => after(
            request,
            remove(replies.drop_first(), src, dst, create),
        ),
        Some(reply) => refused(request, reply),
    }
}

/// One link. A destination that is there, be it a link that leads nowhere,
/// is left alone, or replaced where `relink` is on; one that is not there is
/// made.
pub open spec fn link_one(
    replies: Seq<ReplyView>,
    src: Seq<char>,
    dst: Seq<char>,
    relink: bool,
    create: bool,
) -> Walk {
    let request = RequestView::Present(dst);
    match answer(replies) {
        None => waiting(request),
        Some(ReplyView::Flag(true)) => if relink {
            after(request, replace(replies.drop_first(), src, dst, create))
        } else {
            ended(request, Ok(()))
        },
        Some(ReplyView::Flag(false)) => after(
            request,
            place(replies.drop_first(), src, dst, create),
        ),
        Some(reply) => refused(request, reply),
    }
}

/// Mirror the directory `src` under the directory `dst`: list it and deal
/// with its children in the order listed.
pub open spec fn mirror(
    replies: Seq<ReplyView>,
    src: Seq<char>,
    dst: Seq<char>,
    relink: bool,
    create: bool,
) -> Walk
    decreases replies.len(), 0nat, 0nat,
{
    let request = RequestView::ReadDir(src);
    match answer(replies) {
        None => waiting(request),
        Some(ReplyView::Entries(entries)) => after(
            request,
            children(replies.drop_first(), entries, src, dst, relink, create),
        ),
        Some(reply) => refused(request, reply),
    }
}

/// Deal with the children of `src` one after the other, as long as all goes
/// well. An entry that is `src` itself is passed over.
pub open spec fn children(
    replies: Seq<ReplyView>,
    entries: Seq<EntryView>,
    src: Seq<char>,
    dst: Seq<char>,
    relink: bool,
    create: bool,
) -> Walk
    decreases replies.len(), 1nat, entries.len(),
{
    if entries.len() == 0 {
        nothing()
    } else if entries.first().path == src {
        children(replies, entries.drop_first(), src, dst, relink, create)
    } else {
        let first = child(replies, entries.first().path, entries.first().name, dst, relink, create);
        then(
            first,
            children(
                rest_of(replies, first.asked.len()),
                entries.drop_first(),
                src,
                dst,
                relink,
                create,
            ),
        )
    }
}

/// Deal with one child: a directory is mirrored under a directory of its
/// name, anything else is linked under its name. A child without a name is
/// passed over.
pub open spec fn child(
    replies: Seq<ReplyView>,
    path: Seq<char>,
    name: Option<Seq<char>>,
    dst: Seq<char>,
    relink: bool,
    create: bool,
) -> Walk
    decreases replies.len(), 0nat, 2nat,
{
    let request = RequestView::IsDir(path);
    match answer(replies) {
        None => waiting(request),
        Some(ReplyView::Flag(is_dir)) => match name {
            None => ended(request, Ok(())),
            Some(name) => if is_dir {
                after(
                    request,
                    subdirectory(replies.drop_first(), path, path_join(dst, name), relink, create),
                )
            } else {
                after(
                    request,
                    link_one(replies.drop_first(), path, path_join(dst, name), relink, create),
                )
            },
        },
        Some(reply) => refused(request, reply),
    }
}

/// Mirror the directory `src` under `dst`, which is made a directory first
/// if nothing is there.
pub open spec fn subdirectory(
    replies: Seq<ReplyView>,
    src: Seq<char>,
    dst: Seq<char>,
    relink: bool,
    create: bool,
) -> Walk
    decreases replies.len(), 0nat, 1nat,
{
    let request = RequestView::Exists(dst);
    match answer(replies) {
        None => waiting(request),
        Some(ReplyView::Flag(true)) => after(
            request,
            mirror(replies.drop_first(), src, dst, relink, create),
        ),
        Some(ReplyView::Flag(false)) => after(
            request,
            make_directory(replies.drop_first(), src, dst, relink, create),
        ),
        Some(reply) => refused(request, reply),
    }
}

/// Create the directory `dst`, then mirror `src` under it.
pub open spec fn make_directory(
    replies: Seq<ReplyView>,
    src: Seq<char>,
    dst: Seq<char>,
    relink: bool,
    create: bool,
) -> Walk
    decreases replies.len(), 0nat, 0nat,
{
    let request = RequestView::CreateDir(dst);
    match answer(replies) {
        None => waiting(request),
        Some(ReplyView::Done) => after(
            request,
            mirror(replies.drop_first(), src, dst, relink, create),
        ),
        Some(reply) => refused(request, reply),
    }
}

/// The source is a directory: mirror it if the destination is one too, else
/// make one link.
pub open spec fn onto(
    replies: Seq<ReplyView>,
    src: Seq<char>,
    dst: Seq<char>,
    relink: bool,
    create: bool,
) -> Walk {
    let request = RequestView::IsDir(dst);
    match answer(replies) {
        None => waiting(request),
        Some(ReplyView::Flag(true)) => after(
            request,
            mirror(replies.drop_first(), src, dst, relink, create),
        ),
        Some(ReplyView::Flag(false)) => after(
            request,
            link_one(replies.drop_first(), src, dst, relink, create),
        ),
        Some(reply) => refused(request, reply),
    }
}

/// The source is there: see whether it is a directory.
pub open spec fn from_source(
    replies: Seq<ReplyView>,
    src: Seq<char>,
    dst: Seq<char>,
    relink: bool,
    create: bool,
) -> Walk {
    let request = RequestView::IsDir(src);
    match answer(replies) {
        None => waiting(request),
        Some(ReplyView::Flag(true)) => after(
            request,
            onto(replies.drop_first(), src, dst, relink, create),
        ),
        Some(ReplyView::Flag(false)) => after(
            request,
            link_one(replies.drop_first(), src, dst, relink, create),
        ),
        Some(reply) => refused(request, reply),
    }
}

/// The whole procedure for a pair of expanded paths. A source that does not
/// exist ends it at once.
pub open spec fn link_pair(
    replies: Seq<ReplyView>,
    src: Seq<char>,
    dst: Seq<char>,
    relink: bool,
    create: bool,
) -> Walk {
    let request = RequestView::Exists(src);
    match answer(replies) {
        None => waiting(request),
        Some(ReplyView::Flag(true)) => after(
            request,
            from_source(replies.drop_first(), src, dst, relink, create),
        ),
        Some(ReplyView::Flag(false)) => ended(request, Err(IpaErrorView::SourceNotFound(src))),
        Some(reply) => refused(request, reply),
    }
}

/// What a linker asks and how it ends, given these replies.
pub open spec fn walk_of(state: LinkerView, replies: Seq<ReplyView>) -> Walk
    decreases replies.len(),
{
    match answer(replies) {
        None => waiting(state.asks()),
        Some(reply) => match state.next(reply).outcome {
            OutcomeView::Finish(result) => ended(state.asks(), result),
            OutcomeView::Ask(_) => after(
                state.asks(),
                walk_of(state.next(reply).state, replies.drop_first()),
            ),
        },
    }
}

/// What a linker goes on to ask once the pair at hand is dealt with and
/// these children are pending.
pub open spec fn carry_on(
    relink: bool,
    create: bool,
    pending: Seq<JobView>,
    replies: Seq<ReplyView>,
) -> Walk {
    let turn = (LinkerView { pending, ..LinkerView::over(relink, create) }).resume();
    match turn.outcome {
        OutcomeView::Finish(result) => Walk { asked: Seq::empty(), end: Some(result) },
        OutcomeView::Ask(_) => walk_of(turn.state, replies),
    }
}

/// From `state`, the linker asks what `walk` asks, ends as it ends where it
/// ends badly, and goes on with what is pending where it ends well.
pub open spec fn follows(state: LinkerView, replies: Seq<ReplyView>, walk: Walk) -> bool {
    walk_of(state, replies) == then(
        walk,
        carry_on(state.relink, state.create, state.pending, rest_of(replies, walk.asked.len())),
    )
}

proof fn lemma_rest_of_rest(replies: Seq<ReplyView>, a: nat, b: nat)
    ensures
        rest_of(rest_of(replies, a), b) == rest_of(replies, a + b),
{
    assert(rest_of(rest_of(replies, a), b) =~= rest_of(replies, a + b));
}

proof fn lemma_rest_of_first(replies: Seq<ReplyView>, n: nat)
    requires
        replies.len() > 0,
    ensures
        rest_of(replies, 1 + n) == rest_of(replies.drop_first(), n),
        rest_of(replies, 1) == replies.drop_first(),
        rest_of(replies, 0) == replies,
{
    assert(rest_of(replies, 1 + n) =~= rest_of(replies.drop_first(), n));
    assert(rest_of(replies, 1) =~= replies.drop_first());
    assert(rest_of(replies, 0) =~= replies);
}

proof fn lemma_then_is_associative(a: Walk, b: Walk, c: Walk)
    ensures
        then(then(a, b), c) == then(a, then(b, c)),
{
    if a.end == Some(Ok::<(), IpaErrorView>(())) && b.end == Some(Ok::<(), IpaErrorView>(())) {
        assert((a.asked + b.asked) + c.asked =~= a.asked + (b.asked + c.asked));
    }
}

proof fn lemma_then_after(request: RequestView, walk: Walk, rest: Walk)
    ensures
        then(after(request, walk), rest) == after(request, then(walk, rest)),
{
    if walk.end == Some(Ok::<(), IpaErrorView>(())) {
        assert((seq![request] + walk.asked) + rest.asked =~= seq![request] + (walk.asked
            + rest.asked));
    }
}

/// A reply on which the linker takes up what is pending: the pair at hand
/// ended well, and what is pending follows.
proof fn lemma_returns(state: LinkerView, replies: Seq<ReplyView>, done: LinkerView)
    requires
        replies.len() > 0,
        state.next(replies[0]) == done.resume(),
        done.relink == state.relink,
        done.create == state.create,
    ensures
        walk_of(state, replies) == then(
            ended(state.asks(), Ok(())),
            carry_on(state.relink, state.create, done.pending, replies.drop_first()),
        ),
{
    let base = LinkerView { pending: done.pending, ..LinkerView::over(state.relink, state.create) };
    assert(base.resume() == done.resume());
    let carry = carry_on(state.relink, state.create, done.pending, replies.drop_first());
    match done.resume().outcome {
        OutcomeView::Finish(result) => {
            assert(seq![state.asks()] + carry.asked =~= seq![state.asks()]);
        },
        OutcomeView::Ask(_) => {},
    }
}

/// A reply on which the linker asks on about the same pair.
proof fn lemma_step(state: LinkerView, replies: Seq<ReplyView>, walk: Walk)
    requires
        replies.len() > 0,
        state.next(replies[0]).outcome is Ask,
        state.next(replies[0]).state.relink == state.relink,
        state.next(replies[0]).state.create == state.create,
        state.next(replies[0]).state.pending == state.pending,
        follows(state.next(replies[0]).state, replies.drop_first(), walk),
    ensures
        follows(state, replies, after(state.asks(), walk)),
{
    let request = state.asks();
    lemma_rest_of_first(replies, walk.asked.len());
    assert(after(request, walk).asked.len() == 1 + walk.asked.len());
    let carry = carry_on(
        state.relink,
        state.create,
        state.pending,
        rest_of(replies.drop_first(), walk.asked.len()),
    );
    lemma_then_after(request, walk, carry);
}

/// A reply on which the linker gives up.
proof fn lemma_gives_up(state: LinkerView, replies: Seq<ReplyView>)
    requires
        replies.len() > 0,
        state.next(replies[0]).outcome == OutcomeView::Finish(
            Err(refusal(state.asks(), replies[0])),
        ),
    ensures
        follows(state, replies, refused(state.asks(), replies[0])),
{
}

/// No reply yet.
proof fn lemma_waits(state: LinkerView, replies: Seq<ReplyView>)
    requires
        replies.len() == 0,
    ensures
        follows(state, replies, waiting(state.asks())),
{
}

proof fn lemma_linking(state: LinkerView, replies: Seq<ReplyView>)
    requires
        state.stage == Stage::Linking,
    ensures
        follows(state, replies, make_link(replies, state.src, state.dst)),
{
    if replies.len() == 0 {
        lemma_waits(state, replies);
    } else if replies[0] == ReplyView::Done {
        lemma_returns(state, replies, state);
        lemma_rest_of_first(replies, 0);
    } else {
        lemma_gives_up(state, replies);
    }
}

proof fn lemma_making_parents(state: LinkerView, replies: Seq<ReplyView>)
    requires
        state.stage == Stage::MakingParents,
    ensures
        follows(state, replies, make_parents(replies, state.src, state.dst, state.parent)),
{
    if replies.len() == 0 {
        lemma_waits(state, replies);
    } else if replies[0] == ReplyView::Done {
        let next = state.next(replies[0]).state;
        lemma_linking(next, replies.drop_first());
        lemma_step(state, replies, make_link(replies.drop_first(), state.src, state.dst));
    } else {
        lemma_gives_up(state, replies);
    }
}

proof fn lemma_parent_exists(state: LinkerView, replies: Seq<ReplyView>)
    requires
        state.stage == Stage::ParentExists,
    ensures
        follows(state, replies, with_parents(replies, state.src, state.dst, state.parent)),
{
    if replies.len() == 0 {
        lemma_waits(state, replies);
    } else if replies[0] == ReplyView::Flag(true) {
        let next = state.next(replies[0]).state;
        lemma_linking(next, replies.drop_first());
        lemma_step(state, replies, make_link(replies.drop_first(), state.src, state.dst));
    } else if replies[0] == ReplyView::Flag(false) {
        let next = state.next(replies[0]).state;
        lemma_making_parents(next, replies.drop_first());
        lemma_step(
            state,
            replies,
            make_parents(replies.drop_first(), state.src, state.dst, state.parent),
        );
    } else {
        lemma_gives_up(state, replies);
    }
}

/// Where the linker has decided to place the link.
proof fn lemma_placing(state: LinkerView, replies: Seq<ReplyView>)
    ensures
        follows(
            state.place().state,
            replies,
            place(replies, state.src, state.dst, state.create),
        ),
{
    let placed = state.place().state;
    if state.create && path_parent(state.dst) is Some {
        lemma_parent_exists(placed, replies);
    } else {
        lemma_linking(placed, replies);
    }
}

proof fn lemma_removing(state: LinkerView, replies: Seq<ReplyView>)
    requires
        state.stage == Stage::Removing,
    ensures
        follows(state, replies, remove(replies, state.src, state.dst, state.create)),
{
    if replies.len() == 0 {
        lemma_waits(state, replies);
    } else if replies[0] == ReplyView::Done {
        lemma_placing(state, replies.drop_first());
        lemma_step(state, replies, place(replies.drop_first(), state.src, state.dst, state.create));
    } else {
        lemma_gives_up(state, replies);
    }
}

proof fn lemma_target_kind(state: LinkerView, replies: Seq<ReplyView>)
    requires
        state.stage == Stage::TargetKind,
    ensures
        follows(state, replies, replace(replies, state.src, state.dst, state.create)),
{
    if replies.len() == 0 {
        lemma_waits(state, replies);
    } else if replies[0] == ReplyView::Flag(true) {
        lemma_placing(state, replies.drop_first());
        lemma_step(state, replies, place(replies.drop_first(), state.src, state.dst, state.create));
    } else if replies[0] == ReplyView::Flag(false) {
        let next = state.next(replies[0]).state;
        lemma_removing(next, replies.drop_first());
        lemma_step(
            state,
            replies,
            remove(replies.drop_first(), state.src, state.dst, state.create),
        );
    } else {
        lemma_gives_up(state, replies);
    }
}

proof fn lemma_target_exists(state: LinkerView, replies: Seq<ReplyView>)
    requires
        state.stage == Stage::TargetExists,
    ensures
        follows(
            state,
            replies,
            link_one(replies, state.src, state.dst, state.relink, state.create),
        ),
{
    if replies.len() == 0 {
        lemma_waits(state, replies);
    } else if replies[0] == ReplyView::Flag(false) {
        lemma_placing(state, replies.drop_first());
        lemma_step(state, replies, place(replies.drop_first(), state.src, state.dst, state.create));
    } else if replies[0] == ReplyView::Flag(true) {
        if state.relink {
            let next = state.next(replies[0]).state;
            lemma_target_kind(next, replies.drop_first());
            lemma_step(
                state,
                replies,
                replace(replies.drop_first(), state.src, state.dst, state.create),
            );
        } else {
            lemma_returns(state, replies, state);
            lemma_rest_of_first(replies, 0);
        }
    } else {
        lemma_gives_up(state, replies);
    }
}

proof fn lemma_listing(state: LinkerView, replies: Seq<ReplyView>)
    requires
        state.stage == Stage::Listing,
    ensures
        follows(state, replies, mirror(replies, state.src, state.dst, state.relink, state.create)),
    decreases replies.len(), 0nat, 0nat,
{
    if replies.len() == 0 {
        lemma_waits(state, replies);
    } else {
        match replies[0] {
            ReplyView::Entries(entries) => {
                let request = state.asks();
                let rest = replies.drop_first();
                let listed = LinkerView {
                    pending: state.pending + pile(entries, state.src, state.dst),
                    ..state
                };
                lemma_returns(state, replies, listed);
                lemma_children(
                    rest,
                    entries,
                    state.src,
                    state.dst,
                    state.relink,
                    state.create,
                    state.pending,
                );
                let below = children(rest, entries, state.src, state.dst, state.relink, state.create);
                let carry = carry_on(
                    state.relink,
                    state.create,
                    state.pending,
                    rest_of(rest, below.asked.len()),
                );
                lemma_rest_of_first(replies, below.asked.len());
                lemma_then_after(request, below, carry);
                assert(then(ended(request, Ok(())), then(below, carry)) == after(
                    request,
                    then(below, carry),
                ));
            },
            _ => {
                lemma_gives_up(state, replies);
            },
        }
    }
}

/// With the children of a directory on top of what was pending, the linker
/// deals with the children in the order listed and then with what was
/// pending.
proof fn lemma_children(
    replies: Seq<ReplyView>,
    entries: Seq<EntryView>,
    src: Seq<char>,
    dst: Seq<char>,
    relink: bool,
    create: bool,
    pending: Seq<JobView>,
)
    ensures
        carry_on(relink, create, pending + pile(entries, src, dst), replies) == then(
            children(replies, entries, src, dst, relink, create),
            carry_on(
                relink,
                create,
                pending,
                rest_of(replies, children(replies, entries, src, dst, relink, create).asked.len()),
            ),
        ),
    decreases replies.len(), 1nat, entries.len(),
{
    let below = children(replies, entries, src, dst, relink, create);
    if entries.len() == 0 {
        assert(pending + pile(entries, src, dst) =~= pending);
        lemma_rest_of_first_none(replies);
        let carry = carry_on(relink, create, pending, replies);
        assert(Seq::<RequestView>::empty() + carry.asked =~= carry.asked);
    } else if entries.first().path == src {
        lemma_children(replies, entries.drop_first(), src, dst, relink, create, pending);
    } else {
        let entry = entries.first();
        let others = entries.drop_first();
        let job = JobView { src: entry.path, name: entry.name, dst };
        let under = pending + pile(others, src, dst);
        assert(pending + pile(entries, src, dst) =~= under.push(job));
        let base = LinkerView { pending: under.push(job), ..LinkerView::over(relink, create) };
        let at_child = base.resume().state;
        assert(under.push(job).drop_last() =~= under);
        assert(at_child.pending == under);
        assert(at_child.stage == Stage::ChildIsDir);
        lemma_child(at_child, replies);
        let first = child(replies, entry.path, entry.name, dst, relink, create);
        let after_first = rest_of(replies, first.asked.len());
        lemma_children(after_first, others, src, dst, relink, create, pending);
        let next = children(after_first, others, src, dst, relink, create);
        let carry = carry_on(relink, create, pending, rest_of(after_first, next.asked.len()));
        lemma_then_is_associative(first, next, carry);
        lemma_rest_of_rest(replies, first.asked.len(), next.asked.len());
    }
}

proof fn lemma_rest_of_first_none(replies: Seq<ReplyView>)
    ensures
        rest_of(replies, 0) == replies,
{
    assert(rest_of(replies, 0) =~= replies);
}

proof fn lemma_child(state: LinkerView, replies: Seq<ReplyView>)
    requires
        state.stage == Stage::ChildIsDir,
    ensures
        follows(
            state,
            replies,
            child(replies, state.src, state.name, state.dst, state.relink, state.create),
        ),
    decreases replies.len(), 0nat, 2nat,
{
    if replies.len() == 0 {
        lemma_waits(state, replies);
    } else {
        match replies[0] {
            ReplyView::Flag(is_dir) => {
                match state.name {
                    None => {
                        lemma_returns(state, replies, state);
                        lemma_rest_of_first(replies, 0);
                    },
                    Some(name) => {
                        let next = state.next(replies[0]).state;
                        let to = path_join(state.dst, name);
                        if is_dir {
                            lemma_subdirectory(next, replies.drop_first());
                            lemma_step(
                                state,
                                replies,
                                subdirectory(
                                    replies.drop_first(),
                                    state.src,
                                    to,
                                    state.relink,
                                    state.create,
                                ),
                            );
                        } else {
                            lemma_target_exists(next, replies.drop_first());
                            lemma_step(
                                state,
                                replies,
                                link_one(
                                    replies.drop_first(),
                                    state.src,
                                    to,
                                    state.relink,
                                    state.create,
                                ),
                            );
                        }
                    },
                }
            },
            _ => {
                lemma_gives_up(state, replies);
            },
        }
    }
}

proof fn lemma_subdirectory(state: LinkerView, replies: Seq<ReplyView>)
    requires
        state.stage == Stage::ChildDirExists,
    ensures
        follows(
            state,
            replies,
            subdirectory(replies, state.src, state.dst, state.relink, state.create),
        ),
    decreases replies.len(), 0nat, 1nat,
{
    if replies.len() == 0 {
        lemma_waits(state, replies);
    } else if replies[0] == ReplyView::Flag(true) {
        let next = state.next(replies[0]).state;
        lemma_listing(next, replies.drop_first());
        lemma_step(
            state,
            replies,
            mirror(replies.drop_first(), state.src, state.dst, state.relink, state.create),
        );
    } else if replies[0] == ReplyView::Flag(false) {
        let next = state.next(replies[0]).state;
        lemma_making_directory(next, replies.drop_first());
        lemma_step(
            state,
            replies,
            make_directory(replies.drop_first(), state.src, state.dst, state.relink, state.create),
        );
    } else {
        lemma_gives_up(state, replies);
    }
}

proof fn lemma_making_directory(state: LinkerView, replies: Seq<ReplyView>)
    requires
        state.stage == Stage::MakingDir,
    ensures
        follows(
            state,
            replies,
            make_directory(replies, state.src, state.dst, state.relink, state.create),
        ),
    decreases replies.len(), 0nat, 0nat,
{
    if replies.len() == 0 {
        lemma_waits(state, replies);
    } else if replies[0] == ReplyView::Done {
        let next = state.next(replies[0]).state;
        lemma_listing(next, replies.drop_first());
        lemma_step(
            state,
            replies,
            mirror(replies.drop_first(), state.src, state.dst, state.relink, state.create),
        );
    } else {
        lemma_gives_up(state, replies);
    }
}

proof fn lemma_target_is_dir(state: LinkerView, replies: Seq<ReplyView>)
    requires
        state.stage == Stage::TargetIsDir,
    ensures
        follows(state, replies, onto(replies, state.src, state.dst, state.relink, state.create)),
{
    if replies.len() == 0 {
        lemma_waits(state, replies);
    } else if replies[0] == ReplyView::Flag(true) {
        let next = state.next(replies[0]).state;
        lemma_listing(next, replies.drop_first());
        lemma_step(
            state,
            replies,
            mirror(replies.drop_first(), state.src, state.dst, state.relink, state.create),
        );
    } else if replies[0] == ReplyView::Flag(false) {
        let next = state.next(replies[0]).state;
        lemma_target_exists(next, replies.drop_first());
        lemma_step(
            state,
            replies,
            link_one(replies.drop_first(), state.src, state.dst, state.relink, state.create),
        );
    } else {
        lemma_gives_up(state, replies);
    }
}

proof fn lemma_source_is_dir(state: LinkerView, replies: Seq<ReplyView>)
    requires
        state.stage == Stage::SourceIsDir,
    ensures
        follows(
            state,
            replies,
            from_source(replies, state.src, state.dst, state.relink, state.create),
        ),
{
    if replies.len() == 0 {
        lemma_waits(state, replies);
    } else if replies[0] == ReplyView::Flag(true) {
        let next = state.next(replies[0]).state;
        lemma_target_is_dir(next, replies.drop_first());
        lemma_step(
            state,
            replies,
            onto(replies.drop_first(), state.src, state.dst, state.relink, state.create),
        );
    } else if replies[0] == ReplyView::Flag(false) {
        let next = state.next(replies[0]).state;
        lemma_target_exists(next, replies.drop_first());
        lemma_step(
            state,
            replies,
            link_one(replies.drop_first(), state.src, state.dst, state.relink, state.create),
        );
    } else {
        lemma_gives_up(state, replies);
    }
}

proof fn lemma_source_exists(state: LinkerView, replies: Seq<ReplyView>)
    requires
        state.stage == Stage::SourceExists,
    ensures
        follows(
            state,
            replies,
            link_pair(replies, state.src, state.dst, state.relink, state.create),
        ),
{
    if replies.len() == 0 {
        lemma_waits(state, replies);
    } else if replies[0] == ReplyView::Flag(true) {
        let next = state.next(replies[0]).state;
        lemma_source_is_dir(next, replies.drop_first());
        lemma_step(
            state,
            replies,
            from_source(replies.drop_first(), state.src, state.dst, state.relink, state.create),
        );
    } else if replies[0] == ReplyView::Flag(false) {
    } else {
        lemma_gives_up(state, replies);
    }
}

/// The link engine follows the procedure. Whatever the host answers, a
/// linker that begins on a pair of paths asks exactly what [`link_pair`]
/// asks, in the same order, and ends as it ends.
pub proof fn lemma_linker_follows_procedure(
    src: Seq<char>,
    dst: Seq<char>,
    relink: bool,
    create: bool,
    replies: Seq<ReplyView>,
)
    ensures
        walk_of(LinkerView::initial(src, dst, relink, create), replies) == link_pair(
            replies,
            src,
            dst,
            relink,
            create,
        ),
{
    let start = LinkerView::initial(src, dst, relink, create);
    let walk = link_pair(replies, src, dst, relink, create);
    lemma_source_exists(start, replies);
    let carry = carry_on(relink, create, Seq::empty(), rest_of(replies, walk.asked.len()));
    assert(carry == nothing());
    assert(walk.asked + carry.asked =~= walk.asked);
}

/// A child that is no directory is linked under its own name: where the
/// destination directory is named without a `/` at its end, and nothing is
/// at `<directory>/<name>`, the link is made there and points to the child.
pub proof fn lemma_child_is_linked_under_its_name(
    path: Seq<char>,
    name: Seq<char>,
    dst: Seq<char>,
    relink: bool,
)
    requires
        name.len() > 0,
        name[0] != '/',
        dst.len() > 0,
        dst.last() != '/',
    ensures
        ({
            let to = dst + seq!['/'] + name;
            let replies = seq![ReplyView::Flag(false), ReplyView::Flag(false), ReplyView::Done];
            child(replies, path, Some(name), dst, relink, false) == (Walk {
                asked: seq![
                    RequestView::IsDir(path),
                    RequestView::Present(to),
                    RequestView::Symlink { src: path, dst: to },
                ],
                end: Some(Ok(())),
            })
        }),
{
    let to = dst + seq!['/'] + name;
    let replies = seq![ReplyView::Flag(false), ReplyView::Flag(false), ReplyView::Done];
    let second = replies.drop_first();
    let third = second.drop_first();
    assert(second[0] == ReplyView::Flag(false));
    assert(third[0] == ReplyView::Done);
    assert(path_join(dst, name) == to);
    let made = make_link(third, path, to);
    assert(made == ended(RequestView::Symlink { src: path, dst: to }, Ok(())));
    let one = link_one(second, path, to, relink, false);
    assert(one == after(RequestView::Present(to), made));
    let whole = child(replies, path, Some(name), dst, relink, false);
    assert(whole == after(RequestView::IsDir(path), one));
    assert(whole.asked =~= seq![
        RequestView::IsDir(path),
        RequestView::Present(to),
        RequestView::Symlink { src: path, dst: to },
    ]);
}

} // verus!
