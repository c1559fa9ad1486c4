//! What a linker does over a whole exchange with its host, and what holds
//! of every exchange: a missing source creates nothing, a linker that does
//! not replace changes nothing where everything is in place, and a file at
//! the destination is replaced by the link where replacing is on.

use crate::error::IpaErrorView;
use crate::host::{ReplyView, RequestView};
use crate::path::path_parent;
use crate::symlink::{LinkerView, OutcomeView, Stage};
use vstd::prelude::*;

verus! {

impl LinkerView {
    /// The state after the host has given these replies, one after the
    /// other.
    pub open spec fn fed(self, replies: Seq<ReplyView>) -> LinkerView
        decreases replies.len(),
    {
        if replies.len() == 0 {
            self
        } else {
            self.fed(replies.drop_last()).next(replies.last()).state
        }
    }

    /// The changes that the linker asks for while the host gives these
    /// replies, in order. The request that is in flight at the start is
    /// not among them.
    pub open spec fn changes(self, replies: Seq<ReplyView>) -> Seq<RequestView>
        decreases replies.len(),
    {
        if replies.len() == 0 {
            Seq::empty()
        } else {
            let before = self.changes(replies.drop_last());
            match self.fed(replies.drop_last()).next(replies.last()).outcome {
                OutcomeView::Ask(request) => if request.changes_files() {
                    before.push(request)
                } else {
                    before
                },
                OutcomeView::Finish(_) => before,
            }
        }
    }

    /// What the linker says to the last of these replies.
    pub open spec fn says(self, replies: Seq<ReplyView>) -> OutcomeView
        recommends
            replies.len() > 0,
    {
        self.fed(replies.drop_last()).next(replies.last()).outcome
    }

    /// The linker is finding out what is there and has decided on no
    /// change, or it is done.
    pub open spec fn is_looking(self) -> bool {
        match self.stage {
            Stage::SourceExists
            | Stage::SourceIsDir
            | Stage::TargetIsDir
            | Stage::TargetExists
            | Stage::Listing
            | Stage::ChildIsDir
            | Stage::ChildDirExists
            | Stage::Finished => true,
            _ => false,
        }
    }

    /// `reply` says that the destination the linker asked about is not
    /// there.
    pub open spec fn is_told_missing(self, reply: ReplyView) -> bool {
        (self.stage == Stage::TargetExists || self.stage == Stage::ChildDirExists) && reply
            == ReplyView::Flag(false)
    }
}

/// Replies given one batch after another lead where the batches lead in
/// turn.
pub proof fn lemma_fed_in_batches(state: LinkerView, first: Seq<ReplyView>, then: Seq<ReplyView>)
    ensures
        state.fed(first + then) == state.fed(first).fed(then),
        state.changes(first + then) == state.changes(first) + state.fed(first).changes(then),
        then.len() > 0 ==> state.says(first + then) == state.fed(first).says(then),
    decreases then.len(),
{
    if then.len() == 0 {
        assert(first + then =~= first);
        assert(state.changes(first) + Seq::<RequestView>::empty() =~= state.changes(first));
    } else {
        let all = first + then;
        assert(all.drop_last() =~= first + then.drop_last());
        assert(all.last() == then.last());
        lemma_fed_in_batches(state, first, then.drop_last());
        let middle = state.fed(first);
        match middle.fed(then.drop_last()).next(then.last()).outcome {
            OutcomeView::Ask(request) => {
                if request.changes_files() {
                    assert(state.changes(all) =~= state.changes(first) + middle.changes(then));
                }
            },
            OutcomeView::Finish(_) => {},
        }
    }
}

/// Where the source does not exist the call fails with the error for a
/// missing source, and the one request made before that was the question
/// whether the source exists: nothing was created.
pub proof fn lemma_missing_source(src: Seq<char>, dst: Seq<char>, relink: bool, create: bool)
    ensures
        LinkerView::initial(src, dst, relink, create).asks() == RequestView::Exists(src),
        LinkerView::initial(src, dst, relink, create).says(seq![ReplyView::Flag(false)])
            == OutcomeView::Finish(Err(IpaErrorView::SourceNotFound(src))),
        LinkerView::initial(src, dst, relink, create).changes(seq![ReplyView::Flag(false)])
            == Seq::<RequestView>::empty(),
{
    lemma_fed_one(LinkerView::initial(src, dst, relink, create), ReplyView::Flag(false));
}

/// One move of a linker that does not replace: unless it is told that a
/// destination is missing, it goes on looking and asks for no change.
pub proof fn lemma_quiet_step(state: LinkerView, reply: ReplyView)
    requires
        !state.relink,
        state.is_looking(),
        !state.is_told_missing(reply),
    ensures
        state.next(reply).state.is_looking(),
        !state.next(reply).state.relink,
        state.next(reply).outcome matches OutcomeView::Ask(request) ==> !request.changes_files(),
{
}

/// Idempotence. A linker that does not replace what is there asks for no
/// change for as long as the host finds every destination in place. After
/// a call that went through, every destination it asks about is in place,
/// so a second call with `relink` off changes nothing.
pub proof fn lemma_nothing_changes_where_all_is_there(state: LinkerView, replies: Seq<ReplyView>)
    requires
        !state.relink,
        state.is_looking(),
        forall|i: int|
            0 <= i < replies.len() ==> !(#[trigger] state.fed(replies.take(i))).is_told_missing(
                replies[i],
            ),
    ensures
        state.fed(replies).is_looking(),
        !state.fed(replies).relink,
        state.changes(replies) == Seq::<RequestView>::empty(),
    decreases replies.len(),
{
    if replies.len() > 0 {
        let earlier = replies.drop_last();
        assert forall|i: int| 0 <= i < earlier.len() implies !(#[trigger] state.fed(
            earlier.take(i),
        )).is_told_missing(earlier[i]) by {
            assert(earlier.take(i) =~= replies.take(i));
            assert(!state.fed(replies.take(i)).is_told_missing(replies[i]));
        }
        lemma_nothing_changes_where_all_is_there(state, earlier);
        assert(replies.take(replies.len() - 1) =~= earlier);
        assert(!state.fed(replies.take(replies.len() - 1)).is_told_missing(
            replies[replies.len() - 1],
        ));
        lemma_quiet_step(state.fed(earlier), replies.last());
    }
}

impl LinkerView {
    /// `reply` is an answer to the request in flight: yes or no to a
    /// question, the children to a listing, done to a change.
    pub open spec fn is_answered_by(self, reply: ReplyView) -> bool {
        match self.stage {
            Stage::Listing => reply is Entries,
            Stage::Removing | Stage::MakingParents | Stage::Linking | Stage::MakingDir => reply
                is Done,
            Stage::Finished => false,
            _ => reply is Flag,
        }
    }

    /// `reply` answers the request in flight and finds what was asked about
    /// in place: the source is there, and so is every destination.
    pub open spec fn finds_in_place(self, reply: ReplyView) -> bool {
        &&& self.is_answered_by(reply)
        &&& !self.is_told_missing(reply)
        &&& !(self.stage == Stage::SourceExists && reply == ReplyView::Flag(false))
    }
}

/// Idempotence, the other half: where the host answers every request and
/// finds everything in place, a linker that does not replace ends well if
/// it ends, having changed nothing.
pub proof fn lemma_all_in_place_ends_well(state: LinkerView, replies: Seq<ReplyView>)
    requires
        !state.relink,
        state.is_looking(),
        replies.len() > 0,
        forall|i: int|
            0 <= i < replies.len() ==> (#[trigger] state.fed(replies.take(i))).finds_in_place(
                replies[i],
            ),
    ensures
        state.changes(replies) == Seq::<RequestView>::empty(),
        state.says(replies) is Finish ==> state.says(replies) == OutcomeView::Finish(Ok(())),
{
    lemma_nothing_changes_where_all_is_there(state, replies);
    let earlier = replies.drop_last();
    assert forall|i: int| 0 <= i < earlier.len() implies !(#[trigger] state.fed(
        earlier.take(i),
    )).is_told_missing(earlier[i]) by {
        assert(earlier.take(i) =~= replies.take(i));
        assert(state.fed(replies.take(i)).finds_in_place(replies[i]));
    }
    lemma_nothing_changes_where_all_is_there(state, earlier);
    assert(replies.take(replies.len() - 1) =~= earlier);
    assert(state.fed(replies.take(replies.len() - 1)).finds_in_place(replies[replies.len() - 1]));
}

/// The replies of a host on which the source is there: it exists; it is a
/// directory or not, and if it is the destination is none.
pub open spec fn replies_source_found(src_is_dir: bool) -> Seq<ReplyView> {
    if src_is_dir {
        seq![ReplyView::Flag(true), ReplyView::Flag(true), ReplyView::Flag(false)]
    } else {
        seq![ReplyView::Flag(true), ReplyView::Flag(false)]
    }
}

/// The replies of a host on which the destination is a file that can be
/// removed: it exists, it is no directory, it is removed.
pub open spec fn replies_file_replaced() -> Seq<ReplyView> {
    seq![ReplyView::Flag(true), ReplyView::Flag(false), ReplyView::Done]
}

/// The replies of a host on which the link can be made: the parent of the
/// destination exists, where the linker asks, and the link is made.
pub open spec fn replies_link_made(asks_parent: bool) -> Seq<ReplyView> {
    if asks_parent {
        seq![ReplyView::Flag(true), ReplyView::Done]
    } else {
        seq![ReplyView::Done]
    }
}

/// One reply leads where the decision table says, and the change that the
/// linker asks for in answer to it, if any, is counted.
pub proof fn lemma_fed_one(state: LinkerView, reply: ReplyView)
    ensures
        state.fed(seq![reply]) == state.next(reply).state,
        state.says(seq![reply]) == state.next(reply).outcome,
        state.changes(seq![reply]) == match state.next(reply).outcome {
            OutcomeView::Ask(request) => if request.changes_files() {
                seq![request]
            } else {
                Seq::empty()
            },
            OutcomeView::Finish(_) => Seq::empty(),
        },
{
    let replies = seq![reply];
    assert(replies.drop_last() =~= Seq::<ReplyView>::empty());
    assert(replies.last() == reply);
    reveal_with_fuel(LinkerView::changes, 2);
    reveal_with_fuel(LinkerView::fed, 2);
    match state.next(reply).outcome {
        OutcomeView::Ask(request) => {
            if request.changes_files() {
                assert(state.changes(replies) =~= seq![request]);
            }
        },
        OutcomeView::Finish(_) => {},
    }
}

/// One reply after a batch.
proof fn lemma_fed_next(state: LinkerView, replies: Seq<ReplyView>, reply: ReplyView)
    ensures
        state.fed(replies.push(reply)) == state.fed(replies).next(reply).state,
        state.says(replies.push(reply)) == state.fed(replies).next(reply).outcome,
        state.changes(replies.push(reply)) == state.changes(replies) + state.fed(replies).changes(
            seq![reply],
        ),
{
    assert(replies.push(reply) =~= replies + seq![reply]);
    lemma_fed_in_batches(state, replies, seq![reply]);
    lemma_fed_one(state.fed(replies), reply);
}

proof fn lemma_source_found(start: LinkerView, src_is_dir: bool)
    requires
        start.stage == Stage::SourceExists,
    ensures
        start.fed(replies_source_found(src_is_dir)) == (LinkerView {
            stage: Stage::TargetExists,
            ..start
        }),
        start.changes(replies_source_found(src_is_dir)) == Seq::<RequestView>::empty(),
{
    let none = Seq::<ReplyView>::empty();
    let one = none.push(ReplyView::Flag(true));
    lemma_fed_next(start, none, ReplyView::Flag(true));
    lemma_fed_one(start.fed(none), ReplyView::Flag(true));
    let s1 = start.fed(one);
    assert(s1 == (LinkerView { stage: Stage::SourceIsDir, ..start }));
    assert(start.changes(one) =~= Seq::<RequestView>::empty());
    if src_is_dir {
        let two = one.push(ReplyView::Flag(true));
        lemma_fed_next(start, one, ReplyView::Flag(true));
        lemma_fed_one(s1, ReplyView::Flag(true));
        let s2 = start.fed(two);
        assert(s2 == (LinkerView { stage: Stage::TargetIsDir, ..start }));
        assert(start.changes(two) =~= Seq::<RequestView>::empty());
        let three = two.push(ReplyView::Flag(false));
        lemma_fed_next(start, two, ReplyView::Flag(false));
        lemma_fed_one(s2, ReplyView::Flag(false));
        assert(three =~= replies_source_found(src_is_dir));
        assert(start.changes(three) =~= Seq::<RequestView>::empty());
    } else {
        let two = one.push(ReplyView::Flag(false));
        lemma_fed_next(start, one, ReplyView::Flag(false));
        lemma_fed_one(s1, ReplyView::Flag(false));
        assert(two =~= replies_source_found(src_is_dir));
        assert(start.changes(two) =~= Seq::<RequestView>::empty());
    }
}

proof fn lemma_file_removed(state: LinkerView)
    requires
        state.stage == Stage::TargetExists,
        state.relink,
    ensures
        state.fed(replies_file_replaced().drop_last()) == (LinkerView {
            stage: Stage::Removing,
            ..state
        }),
        state.changes(replies_file_replaced().drop_last()) == seq![
            RequestView::RemoveFile(state.dst),
        ],
{
    let none = Seq::<ReplyView>::empty();
    let one = none.push(ReplyView::Flag(true));
    lemma_fed_next(state, none, ReplyView::Flag(true));
    lemma_fed_one(state, ReplyView::Flag(true));
    let s1 = state.fed(one);
    assert(s1 == (LinkerView { stage: Stage::TargetKind, ..state }));
    assert(state.changes(one) =~= Seq::<RequestView>::empty());
    let two = one.push(ReplyView::Flag(false));
    lemma_fed_next(state, one, ReplyView::Flag(false));
    lemma_fed_one(s1, ReplyView::Flag(false));
    assert(two =~= replies_file_replaced().drop_last());
    assert(state.changes(two) =~= seq![RequestView::RemoveFile(state.dst)]);
}

/// From the removal of the file at the destination to the end: the link is
/// made, after the question about the parent where that is asked.
proof fn lemma_link_made(removing: LinkerView, asks_parent: bool)
    requires
        removing.stage == Stage::Removing,
        removing.pending.len() == 0,
        asks_parent == (removing.create && path_parent(removing.dst) is Some),
    ensures
        removing.changes(seq![ReplyView::Done] + replies_link_made(asks_parent)) == seq![
            RequestView::Symlink { src: removing.src, dst: removing.dst },
        ],
        removing.says(seq![ReplyView::Done] + replies_link_made(asks_parent))
            == OutcomeView::Finish(Ok(())),
{
    let link = RequestView::Symlink { src: removing.src, dst: removing.dst };
    let none = Seq::<ReplyView>::empty();
    let one = none.push(ReplyView::Done);
    lemma_fed_next(removing, none, ReplyView::Done);
    lemma_fed_one(removing, ReplyView::Done);
    let s1 = removing.fed(one);
    if asks_parent {
        assert(s1.stage == Stage::ParentExists);
        assert(removing.changes(one) =~= Seq::<RequestView>::empty());
        let two = one.push(ReplyView::Flag(true));
        lemma_fed_next(removing, one, ReplyView::Flag(true));
        lemma_fed_one(s1, ReplyView::Flag(true));
        let s2 = removing.fed(two);
        assert(s2.stage == Stage::Linking);
        assert(s2.pending.len() == 0);
        assert(removing.changes(two) =~= seq![link]);
        let three = two.push(ReplyView::Done);
        lemma_fed_next(removing, two, ReplyView::Done);
        lemma_fed_one(s2, ReplyView::Done);
        assert(three =~= seq![ReplyView::Done] + replies_link_made(asks_parent));
        assert(removing.changes(three) =~= seq![link]);
    } else {
        assert(s1.stage == Stage::Linking);
        assert(s1.pending.len() == 0);
        assert(removing.changes(one) =~= seq![link]);
        let two = one.push(ReplyView::Done);
        lemma_fed_next(removing, one, ReplyView::Done);
        lemma_fed_one(s1, ReplyView::Done);
        assert(two =~= seq![ReplyView::Done] + replies_link_made(asks_parent));
        assert(removing.changes(two) =~= seq![link]);
    }
}

/// From the question whether the destination exists: a file is replaced and
/// the link is made.
proof fn lemma_replaced_and_made(state: LinkerView, asks_parent: bool)
    requires
        state.stage == Stage::TargetExists,
        state.relink,
        state.pending.len() == 0,
        asks_parent == (state.create && path_parent(state.dst) is Some),
    ensures
        state.changes(replies_file_replaced() + replies_link_made(asks_parent)) == seq![
            RequestView::RemoveFile(state.dst),
            RequestView::Symlink { src: state.src, dst: state.dst },
        ],
        state.says(replies_file_replaced() + replies_link_made(asks_parent)) == OutcomeView::Finish(
            Ok(()),
        ),
{
    let asked = replies_file_replaced().drop_last();
    let rest = seq![ReplyView::Done] + replies_link_made(asks_parent);
    assert(asked + rest =~= replies_file_replaced() + replies_link_made(asks_parent));
    lemma_file_removed(state);
    let removing = state.fed(asked);
    lemma_link_made(removing, asks_parent);
    lemma_fed_in_batches(state, asked, rest);
    assert(state.changes(asked) + removing.changes(rest) =~= seq![
        RequestView::RemoveFile(state.dst),
        RequestView::Symlink { src: state.src, dst: state.dst },
    ]);
}

/// Relinking. Where the source is there, the destination is a file and
/// `relink` is on, the linker has exactly two changes made, in this order:
/// the file at the destination is removed, and a link to the source is made
/// in its place. Then the call is over and went well.
pub proof fn lemma_relink_replaces_a_file(
    src: Seq<char>,
    dst: Seq<char>,
    create: bool,
    src_is_dir: bool,
)
    ensures
        ({
            let start = LinkerView::initial(src, dst, true, create);
            let replies = replies_source_found(src_is_dir) + (replies_file_replaced()
                + replies_link_made(create && path_parent(dst) is Some));
            &&& start.changes(replies) == seq![
                RequestView::RemoveFile(dst),
                RequestView::Symlink { src, dst },
            ]
            &&& start.says(replies) == OutcomeView::Finish(Ok(()))
        }),
{
    let start = LinkerView::initial(src, dst, true, create);
    let asks_parent = create && path_parent(dst) is Some;
    let found = replies_source_found(src_is_dir);
    let rest = replies_file_replaced() + replies_link_made(asks_parent);
    lemma_source_found(start, src_is_dir);
    let at_target = start.fed(found);
    lemma_replaced_and_made(at_target, asks_parent);
    lemma_fed_in_batches(start, found, rest);
    assert(start.changes(found) + at_target.changes(rest) =~= at_target.changes(rest));
}

} // verus!
