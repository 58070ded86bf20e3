//! The registry and the indexing loops taken together.
//!
//! Uploads register channels and start loops; loops take and free locks and
//! run the indexer. This module follows any sequence of such moves from the
//! start of the service and states what holds after all of them.

use crate::path::{lemma_child_names_its_entry, spec_channel_dir};
use crate::registry::{free, held, registered, Locks};
use crate::scheduler::{advance, fresh, run_indexer, Phase, SchedulerEvent, SchedulerView};
use vstd::prelude::*;

verus! {

/// The shared state of the service.
pub struct System {
    /// Each registered channel, mapped to whether its lock is held.
    pub locks: Locks,
    /// The indexing loops, in the order in which they were started.
    pub loops: Seq<SchedulerView>,
    /// The directories the indexer was run on, in order.
    pub indexed: Seq<Seq<char>>,
}

/// One move of the service.
pub enum Move {
    /// An upload to this channel is complete.
    Upload(Seq<char>),
    /// The loop at this position takes this event.
    Loop(int, SchedulerEvent),
    /// A file or a page of this channel is asked for, under this name.
    Download(Seq<char>, Seq<char>),
}

/// The service as it starts: no channel, no loop, nothing indexed.
pub open spec fn initial() -> System {
    System { locks: Map::empty(), loops: Seq::empty(), indexed: Seq::empty() }
}

/// The service after one move. A completed upload registers its channel and
/// starts the channel's loop where the channel is new. A loop that takes an
/// event it waited for moves on, and where it asks for the indexer the run is
/// recorded. A download reads a path and leaves the service as it is.
pub open spec fn moved(root: Seq<char>, interval: u64, sys: System, mv: Move) -> System {
    match mv {
        Move::Upload(channel) => System {
            locks: registered(sys.locks, channel),
            loops: if sys.locks.contains_key(channel) {
                sys.loops
            } else {
                sys.loops.push(fresh(root, interval, channel))
            },
            indexed: sys.indexed,
        },
        Move::Loop(i, e) => {
            if 0 <= i < sys.loops.len() {
                match advance(sys.locks, sys.loops[i], e) {
                    Some((locks, next, act)) => System {
                        locks,
                        loops: sys.loops.update(i, next),
                        indexed: if act is RunIndexer {
                            sys.indexed.push(sys.loops[i].dir)
                        } else {
                            sys.indexed
                        },
                    },
                    None => sys,
                }
            } else {
                sys
            }
        },
        Move::Download(_, _) => sys,
    }
}

/// The service after all of `moves`, from its start.
pub open spec fn run(root: Seq<char>, interval: u64, moves: Seq<Move>) -> System
    decreases moves.len(),
{
    if moves.len() == 0 {
        initial()
    } else {
        moved(root, interval, run(root, interval, moves.drop_last()), moves.last())
    }
}

/// Whether `moves` hold a completed upload to `channel`.
pub open spec fn uploaded(moves: Seq<Move>, channel: Seq<char>) -> bool {
    exists|k: int| 0 <= k < moves.len() && #[trigger] moves[k] == Move::Upload(channel)
}

/// Whether the service has a loop for `channel`: the channel is active. A
/// channel without a loop is dormant.
pub open spec fn has_loop(loops: Seq<SchedulerView>, channel: Seq<char>) -> bool {
    exists|i: int| 0 <= i < loops.len() && (#[trigger] loops[i]).channel == channel
}

/// Whether the service has a loop that indexes `dir`.
pub open spec fn has_loop_on(loops: Seq<SchedulerView>, dir: Seq<char>) -> bool {
    exists|i: int| 0 <= i < loops.len() && (#[trigger] loops[i]).dir == dir
}

/// What holds of the service after any moves: every loop belongs to a channel
/// that was uploaded to and is registered, indexes that channel's directory
/// and holds the channel's lock exactly while its indexer runs; no channel has
/// two loops, every registered channel has one, every channel that was
/// uploaded to is registered, and the indexer has run only on directories of
/// loops.
pub open spec fn coherent(root: Seq<char>, interval: u64, moves: Seq<Move>, sys: System) -> bool {
    &&& forall|i: int|
        0 <= i < sys.loops.len() ==> {
            let s = #[trigger] sys.loops[i];
            &&& sys.locks.contains_key(s.channel)
            &&& sys.locks[s.channel] == (s.phase == Phase::Indexing)
            &&& s.dir == spec_channel_dir(root, s.channel)
            &&& s.interval == interval
            &&& uploaded(moves, s.channel)
        }
    &&& forall|i: int, j: int|
        0 <= i < j < sys.loops.len() ==> (#[trigger] sys.loops[i]).channel != (
        #[trigger] sys.loops[j]).channel
    &&& forall|channel: Seq<char>| #[trigger]
        sys.locks.contains_key(channel) ==> has_loop(sys.loops, channel)
    &&& forall|channel: Seq<char>| #[trigger]
        uploaded(moves, channel) ==> sys.locks.contains_key(channel)
    &&& forall|k: int|
        0 <= k < sys.indexed.len() ==> has_loop_on(sys.loops, #[trigger] sys.indexed[k])
}

proof fn lemma_move_keeps_coherent(
    root: Seq<char>,
    interval: u64,
    moves: Seq<Move>,
    sys: System,
    mv: Move,
)
    requires
        coherent(root, interval, moves, sys),
    ensures
        coherent(root, interval, moves.push(mv), moved(root, interval, sys, mv)),
{
    let longer = moves.push(mv);
    let after = moved(root, interval, sys, mv);
    assert forall|c: Seq<char>| uploaded(moves, c) implies uploaded(longer, c) by {
        let k = choose|k: int| 0 <= k < moves.len() && #[trigger] moves[k] == Move::Upload(c);
        assert(longer[k] == Move::Upload(c));
    }
    assert forall|c: Seq<char>| uploaded(longer, c) && !uploaded(moves, c) implies mv
        == Move::Upload(c) by {
        let k = choose|k: int| 0 <= k < longer.len() && #[trigger] longer[k] == Move::Upload(c);
        if k < moves.len() {
            assert(moves[k] == Move::Upload(c));
        }
    }
    if after == sys {
        return ;
    }
    match mv {
        Move::Upload(channel) => {
            assert(longer[moves.len() as int] == mv);
            assert(uploaded(longer, channel));
            if !sys.locks.contains_key(channel) {
                let n = sys.loops.len() as int;
                assert(after.loops[n] == fresh(root, interval, channel));
                assert forall|i: int| 0 <= i < n implies #[trigger] after.loops[i]
                    == sys.loops[i] by {}
                assert forall|c: Seq<char>| #[trigger]
                    after.locks.contains_key(c) implies has_loop(after.loops, c) by {
                    if c == channel {
                        assert(after.loops[n].channel == c);
                    } else {
                        assert(has_loop(sys.loops, c));
                        let i = choose|i: int|
                            0 <= i < sys.loops.len() && (#[trigger] sys.loops[i]).channel == c;
                        assert(after.loops[i].channel == c);
                    }
                }
                assert forall|k: int| 0 <= k < after.indexed.len() implies has_loop_on(
                    after.loops,
                    #[trigger] after.indexed[k],
                ) by {
                    assert(has_loop_on(sys.loops, sys.indexed[k]));
                    let i = choose|i: int|
                        0 <= i < sys.loops.len() && (#[trigger] sys.loops[i]).dir == sys.indexed[k];
                    assert(after.loops[i].dir == after.indexed[k]);
                }
                assert(coherent(root, interval, longer, after));
            }
        },
        Move::Loop(i, e) => {
            if 0 <= i < sys.loops.len() {
                match advance(sys.locks, sys.loops[i], e) {
                    Some((locks, next, act)) => {
                        let channel = sys.loops[i].channel;
                        assert(after.loops[i] == next);
                        assert forall|k: int|
                            0 <= k < sys.loops.len() && k != i implies #[trigger] after.loops[k]
                            == sys.loops[k] && sys.loops[k].channel != channel by {
                            if k < i {
                                assert(sys.loops[k].channel != sys.loops[i].channel);
                            } else {
                                assert(sys.loops[i].channel != sys.loops[k].channel);
                            }
                        }
                        assert forall|c: Seq<char>| #[trigger]
                            after.locks.contains_key(c) implies has_loop(after.loops, c) by {
                            assert(sys.locks.contains_key(c));
                            assert(has_loop(sys.loops, c));
                            let k = choose|k: int|
                                0 <= k < sys.loops.len() && (#[trigger] sys.loops[k]).channel == c;
                            assert(after.loops[k].channel == c);
                        }
                        assert forall|k: int| 0 <= k < after.indexed.len() implies has_loop_on(
                            after.loops,
                            #[trigger] after.indexed[k],
                        ) by {
                            if k < sys.indexed.len() {
                                assert(has_loop_on(sys.loops, sys.indexed[k]));
                                let j = choose|j: int|
                                    0 <= j < sys.loops.len() && (#[trigger] sys.loops[j]).dir
                                        == sys.indexed[k];
                                assert(after.loops[j].dir == after.indexed[k]);
                            } else {
                                assert(after.loops[i].dir == after.indexed[k]);
                            }
                        }
                        assert(coherent(root, interval, longer, after));
                    },
                    None => {},
                }
            }
        },
        Move::Download(_, _) => {},
    }
}

/// Whatever the moves, the service stays coherent.
pub proof fn lemma_run_is_coherent(root: Seq<char>, interval: u64, moves: Seq<Move>)
    ensures
        coherent(root, interval, moves, run(root, interval, moves)),
    decreases moves.len(),
{
    if moves.len() > 0 {
        let shorter = moves.drop_last();
        lemma_run_is_coherent(root, interval, shorter);
        lemma_move_keeps_coherent(
            root,
            interval,
            shorter,
            run(root, interval, shorter),
            moves.last(),
        );
        assert(shorter.push(moves.last()) == moves);
    }
}

/// A channel that was never uploaded to has no loop, and the indexer is never
/// run on its directory, however often the channel is downloaded from.
pub proof fn lemma_no_upload_no_indexing(
    root: Seq<char>,
    interval: u64,
    moves: Seq<Move>,
    channel: Seq<char>,
)
    requires
        !uploaded(moves, channel),
    ensures
        !has_loop(run(root, interval, moves).loops, channel),
        !run(root, interval, moves).indexed.contains(spec_channel_dir(root, channel)),
{
    let sys = run(root, interval, moves);
    let dir = spec_channel_dir(root, channel);
    lemma_run_is_coherent(root, interval, moves);
    if has_loop(sys.loops, channel) {
        let i = choose|i: int|
            0 <= i < sys.loops.len() && (#[trigger] sys.loops[i]).channel == channel;
        assert(uploaded(moves, sys.loops[i].channel));
    }
    if sys.indexed.contains(dir) {
        let k = choose|k: int| 0 <= k < sys.indexed.len() && sys.indexed[k] == dir;
        assert(has_loop_on(sys.loops, sys.indexed[k]));
        let i = choose|i: int| 0 <= i < sys.loops.len() && (#[trigger] sys.loops[i]).dir == dir;
        lemma_child_names_its_entry(root, sys.loops[i].channel, channel);
        assert(uploaded(moves, sys.loops[i].channel));
    }
}

/// At no time do two indexers run on one channel: of the loops of a channel,
/// at most one has its indexer running, and while it runs the channel's lock
/// is held.
pub proof fn lemma_one_indexer_per_channel(
    root: Seq<char>,
    interval: u64,
    moves: Seq<Move>,
    i: int,
    j: int,
)
    requires
        0 <= i < run(root, interval, moves).loops.len(),
        0 <= j < run(root, interval, moves).loops.len(),
        run(root, interval, moves).loops[i].channel == run(root, interval, moves).loops[j].channel,
        run(root, interval, moves).loops[i].phase == Phase::Indexing,
        run(root, interval, moves).loops[j].phase == Phase::Indexing,
    ensures
        i == j,
        held(run(root, interval, moves).locks, run(root, interval, moves).loops[i].channel),
{
    let sys = run(root, interval, moves);
    lemma_run_is_coherent(root, interval, moves);
    if i < j {
        assert(sys.loops[i].channel != sys.loops[j].channel);
    }
    if j < i {
        assert(sys.loops[j].channel != sys.loops[i].channel);
    }
    assert(sys.locks[sys.loops[i].channel]);
}

/// Once a channel has been uploaded to it has its loop, and whenever a loop
/// whose indexer is not running is woken, it takes its channel's lock and
/// runs the indexer on the channel's directory: no loop ever waits for a lock.
pub proof fn lemma_upload_leads_to_indexing(
    root: Seq<char>,
    interval: u64,
    moves: Seq<Move>,
    channel: Seq<char>,
)
    requires
        uploaded(moves, channel),
    ensures
        has_loop(run(root, interval, moves).loops, channel),
        forall|i: int|
            0 <= i < run(root, interval, moves).loops.len() && (#[trigger] run(
                root,
                interval,
                moves,
            ).loops[i]).channel == channel && run(root, interval, moves).loops[i].phase
                != Phase::Indexing ==> {
                let sys = run(root, interval, moves);
                let woken = advance(sys.locks, sys.loops[i], SchedulerEvent::Wake);
                &&& woken is Some
                &&& woken->Some_0.1.phase == Phase::Indexing
                &&& woken->Some_0.2 == run_indexer(spec_channel_dir(root, channel))
            },
{
    let sys = run(root, interval, moves);
    lemma_run_is_coherent(root, interval, moves);
    assert(sys.locks.contains_key(channel));
    assert forall|i: int|
        0 <= i < sys.loops.len() && (#[trigger] sys.loops[i]).channel == channel
            && sys.loops[i].phase != Phase::Indexing implies {
            let woken = advance(sys.locks, sys.loops[i], SchedulerEvent::Wake);
            &&& woken is Some
            &&& woken->Some_0.1.phase == Phase::Indexing
            &&& woken->Some_0.2 == run_indexer(spec_channel_dir(root, channel))
        } by {
        assert(free(sys.locks, sys.loops[i].channel));
    }
}

/// A download registers nothing, starts no loop and runs no indexer: the
/// service after it is the service before it.
pub proof fn lemma_download_changes_nothing(
    root: Seq<char>,
    interval: u64,
    moves: Seq<Move>,
    channel: Seq<char>,
    filename: Seq<char>,
)
    ensures
        run(root, interval, moves.push(Move::Download(channel, filename))) == run(
            root,
            interval,
            moves,
        ),
        uploaded(moves.push(Move::Download(channel, filename)), channel) == uploaded(
            moves,
            channel,
        ),
{
    let longer = moves.push(Move::Download(channel, filename));
    assert(longer.drop_last() =~= moves);
    if uploaded(longer, channel) {
        let k = choose|k: int|
            0 <= k < longer.len() && #[trigger] longer[k] == Move::Upload(channel);
        assert(moves[k] == Move::Upload(channel));
    }
    if uploaded(moves, channel) {
        let k = choose|k: int| 0 <= k < moves.len() && #[trigger] moves[k] == Move::Upload(channel);
        assert(longer[k] == Move::Upload(channel));
    }
}

} // verus!
