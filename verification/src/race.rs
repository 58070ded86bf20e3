//! Two uploads that go for one path.
//!
//! The check for an existing file and the file's creation are two steps, and
//! another upload may come between them. What decides is the creation, which
//! fails where the file exists. This module follows two sessions that go for
//! the same path against a store that creates files exclusively, turn by turn
//! in any order, and states that at most one of them gets the file.

use crate::upload::{react, ActionView, Creation, EventView, Outcome, SessionView, StageView};
use vstd::prelude::*;

verus! {

/// A session together with the action it has asked for.
pub struct Contender {
    /// The session.
    pub session: SessionView,
    /// The action the session waits on.
    pub pending: ActionView,
}

/// One turn of a race.
pub struct Turn {
    /// Whether the first contender moves; otherwise the second does.
    pub first: bool,
    /// Whether the store fails on this turn: the path cannot be looked up, or
    /// a directory or a file is not created, for a reason other than the
    /// file's existence.
    pub fault: bool,
}

/// What a store that holds the files `files` and creates files exclusively
/// answers to the action `a`: the files afterwards and the event to report,
/// or `None` where the action asks nothing of the store.
pub open spec fn served(files: Set<Seq<char>>, a: ActionView, fault: bool) -> Option<
    (Set<Seq<char>>, EventView),
> {
    match a {
        ActionView::CheckExists(path) => {
            if fault {
                Some((files, EventView::CheckFailed))
            } else {
                Some((files, EventView::Exists(files.contains(path))))
            }
        },
        ActionView::CreateDirAll(_) => Some((files, EventView::DirReady(!fault))),
        ActionView::CreateFile(path) => {
            if files.contains(path) {
                Some((files, EventView::Created(Creation::AlreadyExists)))
            } else if fault {
                Some((files, EventView::Created(Creation::Failed)))
            } else {
                Some((files.insert(path), EventView::Created(Creation::Created)))
            }
        },
        _ => None,
    }
}

/// The store and the contender `c` after `c` has had a turn: its pending
/// action is served and the session takes the store's answer.
pub open spec fn turn(files: Set<Seq<char>>, c: Contender, fault: bool) -> (
    Set<Seq<char>>,
    Contender,
) {
    match served(files, c.pending, fault) {
        Some((after, e)) => match react(c.session, e) {
            Some((session, pending)) => (after, Contender { session, pending }),
            None => (after, c),
        },
        None => (files, c),
    }
}

/// The store and both contenders after the turns `turns`.
pub open spec fn race(files: Set<Seq<char>>, a: Contender, b: Contender, turns: Seq<Turn>) -> (
    Set<Seq<char>>,
    Contender,
    Contender,
)
    decreases turns.len(),
{
    if turns.len() == 0 {
        (files, a, b)
    } else {
        let (mid, a1, b1) = race(files, a, b, turns.drop_last());
        if turns.last().first {
            let (after, a2) = turn(mid, a1, turns.last().fault);
            (after, a2, b1)
        } else {
            let (after, b2) = turn(mid, b1, turns.last().fault);
            (after, a1, b2)
        }
    }
}

/// The contender that a session becomes when it is about to check `path`.
pub open spec fn checking(s: SessionView, path: Seq<char>) -> Contender {
    Contender {
        session: SessionView { stage: StageView::Checking(path), ..s },
        pending: ActionView::CheckExists(path),
    }
}

/// Whether the contender `c` has got the file at `path`: it was the one that
/// created it and may write to it.
pub open spec fn won(c: Contender, path: Seq<char>) -> bool {
    c.session.stage == StageView::AwaitingChunk(path)
}

/// Whether the contender `c` was answered with `outcome`.
pub open spec fn ended(c: Contender, outcome: Outcome) -> bool {
    c.session.stage == StageView::Finished(outcome) && c.pending == ActionView::Respond(outcome)
}

/// Whether the contender `c` needs no further turn: it has got the file or
/// was answered.
pub open spec fn settled(c: Contender, path: Seq<char>) -> bool {
    won(c, path) || c.session.stage is Finished
}

/// Whether no turn of `turns` has a fault.
pub open spec fn faultless(turns: Seq<Turn>) -> bool {
    forall|k: int| 0 <= k < turns.len() ==> !(#[trigger] turns[k]).fault
}

spec fn on_the_way(c: Contender, path: Seq<char>, may_fail: bool) -> bool {
    ||| c.session.stage == StageView::Checking(path) && c.pending == ActionView::CheckExists(path)
    ||| c.session.stage == StageView::MakingDir(path) && c.pending is CreateDirAll
    ||| c.session.stage == StageView::Creating(path) && c.pending == ActionView::CreateFile(path)
    ||| won(c, path) && c.pending == ActionView::NextChunk
    ||| ended(c, Outcome::Conflict)
    ||| may_fail && ended(c, Outcome::Failed)
}

spec fn fair(
    files: Set<Seq<char>>,
    a: Contender,
    b: Contender,
    path: Seq<char>,
    may_fail: bool,
) -> bool {
    &&& on_the_way(a, path, may_fail)
    &&& on_the_way(b, path, may_fail)
    &&& files.contains(path) <==> won(a, path) || won(b, path)
    &&& !(won(a, path) && won(b, path))
    &&& ended(a, Outcome::Conflict) ==> won(b, path)
    &&& ended(b, Outcome::Conflict) ==> won(a, path)
}

proof fn lemma_race_is_fair(
    files: Set<Seq<char>>,
    a: SessionView,
    b: SessionView,
    path: Seq<char>,
    turns: Seq<Turn>,
)
    requires
        !files.contains(path),
    ensures
        ({
            let (after, a1, b1) = race(files, checking(a, path), checking(b, path), turns);
            fair(after, a1, b1, path, !faultless(turns))
        }),
    decreases turns.len(),
{
    if turns.len() > 0 {
        let shorter = turns.drop_last();
        lemma_race_is_fair(files, a, b, path, shorter);
        if !faultless(shorter) {
            let k = choose|k: int| 0 <= k < shorter.len() && (#[trigger] shorter[k]).fault;
            assert(turns[k].fault);
        }
        if faultless(turns) {
            assert(!turns[turns.len() - 1].fault);
            assert forall|k: int| 0 <= k < shorter.len() implies !(#[trigger] shorter[k]).fault by {
                assert(shorter[k] == turns[k]);
            }
        }
    }
}

/// Of two uploads that go for one path that was free, at most one gets the
/// file, and the store holds the file exactly when one of them has got it. An
/// upload that is answered with a conflict has lost to the other. Where the
/// store has no fault, uploads that are both settled are one that has got the
/// file and one that was answered with a conflict.
pub proof fn lemma_one_upload_gets_the_file(
    files: Set<Seq<char>>,
    a: SessionView,
    b: SessionView,
    path: Seq<char>,
    turns: Seq<Turn>,
)
    requires
        !files.contains(path),
    ensures
        ({
            let (after, a1, b1) = race(files, checking(a, path), checking(b, path), turns);
            &&& !(won(a1, path) && won(b1, path))
            &&& after.contains(path) <==> won(a1, path) || won(b1, path)
            &&& ended(a1, Outcome::Conflict) ==> won(b1, path)
            &&& ended(b1, Outcome::Conflict) ==> won(a1, path)
            &&& faultless(turns) && settled(a1, path) && settled(b1, path) ==> {
                ||| won(a1, path) && ended(b1, Outcome::Conflict)
                ||| ended(a1, Outcome::Conflict) && won(b1, path)
            }
        }),
{
    lemma_race_is_fair(files, a, b, path, turns);
}

/// Whether what the contender `c` waits on asks the store about no path but
/// `path`.
pub open spec fn heads_for(c: Contender, path: Seq<char>) -> bool {
    match c.pending {
        ActionView::CheckExists(p) => p == path,
        ActionView::CreateFile(p) => p == path,
        _ => true,
    }
}

/// Uploads to different paths do not meet: whether a file is at another path
/// changes nothing in what a contender is told and does, and the contender's
/// turn leaves that path as it is.
pub proof fn lemma_other_paths_do_not_interfere(
    files: Set<Seq<char>>,
    c: Contender,
    path: Seq<char>,
    other: Seq<char>,
    fault: bool,
)
    requires
        heads_for(c, path),
        other != path,
    ensures
        turn(files.insert(other), c, fault).1 == turn(files, c, fault).1,
        turn(files.insert(other), c, fault).0 == turn(files, c, fault).0.insert(other),
        turn(files, c, fault).0.contains(other) == files.contains(other),
{
    assert(turn(files.insert(other), c, fault).0 =~= turn(files, c, fault).0.insert(other));
}

} // verus!
