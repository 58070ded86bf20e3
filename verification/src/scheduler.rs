//! The indexing loop of a channel.
//!
//! A channel gets its loop with its first upload. The loop takes the channel's
//! lock, runs the indexer on the channel's directory, frees the lock, sleeps
//! for the configured interval and starts over, whatever became of the
//! indexer. It never ends by itself.

use crate::config::Config;
use crate::path::{channel_dir, spec_channel_dir};
use crate::registry::{
    acquired, free, held, registered, released, ChannelRegistry, Locks,
};
use vstd::prelude::*;

verus! {

/// Where an indexing loop stands.
#[derive(Clone, Copy, PartialEq, Eq, Structural, Debug)]
pub enum Phase {
    /// A pass is due: the loop takes the lock as soon as it is free.
    Due,
    /// The loop holds the lock and the indexer runs.
    Indexing,
    /// The loop sleeps between two passes.
    Sleeping,
}

/// How a pass of the indexer ended.
#[derive(Clone, Copy, PartialEq, Eq, Structural, Debug)]
pub enum PassResult {
    /// The indexer could not be started.
    NotStarted,
    /// The indexer ran and reported success.
    Succeeded,
    /// The indexer ran and reported failure.
    Failed,
}

/// What the caller reports to an indexing loop.
#[derive(Clone, Copy, PartialEq, Eq, Structural, Debug)]
pub enum SchedulerEvent {
    /// The loop was started, its sleep is over, or the lock may be free now.
    Wake,
    /// The indexer is no longer running.
    PassEnded(PassResult),
}

/// The indexer's invocation.
#[derive(Clone, PartialEq, Eq, Debug)]
pub struct IndexerCommand {
    /// The program to run.
    pub program: String,
    /// Its arguments.
    pub args: Vec<String>,
}

/// What an indexing loop asks the caller to do next.
#[derive(Clone, PartialEq, Eq, Debug)]
pub enum SchedulerAction {
    /// Run the indexer and wait until it has ended.
    RunIndexer(IndexerCommand),
    /// Sleep for this many seconds.
    Sleep(u64),
    /// Wait until the channel's lock may be free.
    AwaitLock,
}

/// The event came at a point where the loop did not wait for it.
#[derive(Clone, Copy, PartialEq, Eq, Structural, Debug)]
pub struct Unexpected;

/// The indexing loop of one channel.
#[derive(Debug)]
pub struct Scheduler {
    channel: String,
    dir: String,
    interval: u64,
    phase: Phase,
}

/// A `SchedulerAction` as a mathematical value.
pub enum SchedulerActionView {
    /// The program and its arguments.
    RunIndexer(Seq<char>, Seq<Seq<char>>),
    Sleep(u64),
    AwaitLock,
}

/// A `Scheduler` as a mathematical value.
pub struct SchedulerView {
    /// The channel the loop indexes.
    pub channel: Seq<char>,
    /// The channel's directory.
    pub dir: Seq<char>,
    /// The seconds between two passes.
    pub interval: u64,
    /// Where the loop stands.
    pub phase: Phase,
}

impl View for SchedulerAction {
    type V = SchedulerActionView;

    open spec fn view(&self) -> SchedulerActionView {
        match self {
            SchedulerAction::RunIndexer(command) => SchedulerActionView::RunIndexer(
                command.program@,
                command.args.deep_view(),
            ),
            SchedulerAction::Sleep(secs) => SchedulerActionView::Sleep(*secs),
            SchedulerAction::AwaitLock => SchedulerActionView::AwaitLock,
        }
    }
}

impl View for Scheduler {
    type V = SchedulerView;

    closed spec fn view(&self) -> SchedulerView {
        SchedulerView {
            channel: self.channel@,
            dir: self.dir@,
            interval: self.interval,
            phase: self.phase,
        }
    }
}

/// The indexer's program.
pub open spec fn indexer_program() -> Seq<char> {
    "conda"@
}

/// The indexer's arguments for the channel directory `dir`.
pub open spec fn indexer_args(dir: Seq<char>) -> Seq<Seq<char>> {
    seq!["index"@, dir]
}

/// The action that runs the indexer on `dir`.
pub open spec fn run_indexer(dir: Seq<char>) -> SchedulerActionView {
    SchedulerActionView::RunIndexer(indexer_program(), indexer_args(dir))
}

/// The loop `s` in another phase.
pub open spec fn in_phase(s: SchedulerView, phase: Phase) -> SchedulerView {
    SchedulerView { phase, ..s }
}

/// The loop of `channel` as it is started under `root`: a pass is due.
pub open spec fn fresh(root: Seq<char>, interval: u64, channel: Seq<char>) -> SchedulerView {
    SchedulerView { channel, dir: spec_channel_dir(root, channel), interval, phase: Phase::Due }
}

/// What the loop `s` does on the event `e` with the locks as they are: the
/// locks and the loop afterwards and the action it asks for, or `None` where
/// `s` did not wait for `e`.
pub open spec fn advance(locks: Locks, s: SchedulerView, e: SchedulerEvent) -> Option<
    (Locks, SchedulerView, SchedulerActionView),
> {
    match (s.phase, e) {
        (Phase::Due, SchedulerEvent::Wake) | (Phase::Sleeping, SchedulerEvent::Wake) => {
            if free(locks, s.channel) {
                Some((acquired(locks, s.channel), in_phase(s, Phase::Indexing), run_indexer(s.dir)))
            } else {
                Some((locks, in_phase(s, Phase::Due), SchedulerActionView::AwaitLock))
            }
        },
        (Phase::Indexing, SchedulerEvent::PassEnded(_)) => Some(
            (
                released(locks, s.channel),
                in_phase(s, Phase::Sleeping),
                SchedulerActionView::Sleep(s.interval),
            ),
        ),
        _ => None,
    }
}

/// Registers `channel` after an upload to it, and starts its indexing loop
/// where this upload was the channel's first.
pub fn enroll(registry: &mut ChannelRegistry, config: &Config, channel: &str) -> (started: Option<
    Scheduler,
>)
    ensures
        final(registry)@ == registered(old(registry)@, channel@),
        started is Some <==> !old(registry)@.contains_key(channel@),
        started is Some ==> started->Some_0@ == fresh(
            config.root@,
            config.index_sleep_time,
            channel@,
        ),
{
    if registry.get_or_create(channel) {
        Some(
            Scheduler {
                channel: String::from_str(channel),
                dir: channel_dir(config.root.as_str(), channel),
                interval: config.index_sleep_time,
                phase: Phase::Due,
            },
        )
    } else {
        None
    }
}

impl Scheduler {
    /// The channel the loop indexes.
    pub fn channel_name(&self) -> (channel: &str)
        ensures
            channel@ == self@.channel,
    {
        self.channel.as_str()
    }

    /// The channel's directory, which the indexer is run on.
    pub fn dir(&self) -> (dir: &str)
        ensures
            dir@ == self@.dir,
    {
        self.dir.as_str()
    }

    /// The seconds the loop sleeps between two passes.
    pub fn interval(&self) -> (secs: u64)
        ensures
            secs == self@.interval,
    {
        self.interval
    }

    /// Where the loop stands.
    pub fn phase(&self) -> (phase: Phase)
        ensures
            phase == self@.phase,
    {
        self.phase
    }

    fn command(&self) -> (command: IndexerCommand)
        ensures
            command.program@ == indexer_program(),
            command.args.deep_view() == indexer_args(self@.dir),
    {
        let mut args: Vec<String> = Vec::new();
        args.push(String::from_str("index"));
        args.push(self.dir.clone());
        assert(args.deep_view() =~= indexer_args(self@.dir));
        IndexerCommand { program: String::from_str("conda"), args }
    }

    /// Takes the event the caller reports and gives the next action. An event
    /// the loop did not wait for leaves the loop and the locks as they were.
    pub fn step(&mut self, registry: &mut ChannelRegistry, event: SchedulerEvent) -> (action:
        Result<SchedulerAction, Unexpected>)
        ensures
            match advance(old(registry)@, old(self)@, event) {
                Some((locks, next, act)) => {
                    &&& final(registry)@ == locks
                    &&& final(self)@ == next
                    &&& action is Ok
                    &&& action->Ok_0@ == act
                },
                None => {
                    &&& final(registry)@ == old(registry)@
                    &&& final(self)@ == old(self)@
                    &&& action is Err
                },
            },
    {
        match (self.phase, event) {
            (Phase::Due, SchedulerEvent::Wake) | (Phase::Sleeping, SchedulerEvent::Wake) => {
                if registry.try_acquire(self.channel.as_str()) {
                    self.phase = Phase::Indexing;
                    Ok(SchedulerAction::RunIndexer(self.command()))
                } else {
                    self.phase = Phase::Due;
                    Ok(SchedulerAction::AwaitLock)
                }
            },
            (Phase::Indexing, SchedulerEvent::PassEnded(_)) => {
                registry.release(self.channel.as_str());
                self.phase = Phase::Sleeping;
                Ok(SchedulerAction::Sleep(self.interval))
            },
            _ => Err(Unexpected),
        }
    }
}

/// Whether the lock keeps the loops apart: a loop whose indexer runs holds its
/// channel's lock, and no two loops of one channel have their indexers running.
pub open spec fn exclusive(locks: Locks, loops: Seq<SchedulerView>) -> bool {
    &&& forall|i: int|
        0 <= i < loops.len() && (#[trigger] loops[i]).phase == Phase::Indexing ==> held(
            locks,
            loops[i].channel,
        )
    &&& forall|i: int, j: int|
        0 <= i < j < loops.len() && (#[trigger] loops[i]).channel == (#[trigger] loops[j]).channel
            ==> !(loops[i].phase == Phase::Indexing && loops[j].phase == Phase::Indexing)
}

/// At most one indexer runs on a channel at a time, however many loops share
/// the channel's lock: whichever loop takes whichever event, loops that were
/// kept apart stay apart.
pub proof fn lemma_step_keeps_exclusive(
    locks: Locks,
    loops: Seq<SchedulerView>,
    i: int,
    e: SchedulerEvent,
)
    requires
        exclusive(locks, loops),
        0 <= i < loops.len(),
    ensures
        match advance(locks, loops[i], e) {
            Some((after, next, _)) => exclusive(after, loops.update(i, next)),
            None => true,
        },
{
    if let Some((after, next, _)) = advance(locks, loops[i], e) {
        let moved = loops.update(i, next);
        let channel = loops[i].channel;
        assert forall|k: int| 0 <= k < moved.len() && (#[trigger] moved[k]).phase
            == Phase::Indexing implies held(after, moved[k].channel) by {
            if k != i {
                assert(moved[k] == loops[k]);
                assert(held(locks, loops[k].channel));
                if loops[k].channel == channel && loops[i].phase == Phase::Indexing {
                    if k < i {
                        assert(loops[k].channel == loops[i].channel);
                    } else {
                        assert(loops[i].channel == loops[k].channel);
                    }
                }
            }
        }
        assert forall|k: int, l: int|
            0 <= k < l < moved.len() && (#[trigger] moved[k]).channel == (
            #[trigger] moved[l]).channel implies !(moved[k].phase == Phase::Indexing
            && moved[l].phase == Phase::Indexing) by {
            if k != i && l != i {
                assert(moved[k] == loops[k] && moved[l] == loops[l]);
            } else if k == i {
                assert(moved[l] == loops[l]);
                assert(loops[i].channel == loops[l].channel);
            } else {
                assert(moved[k] == loops[k]);
                assert(loops[k].channel == loops[i].channel);
            }
        }
    }
}

/// A loop that starts on a channel joins the others without disturbing them.
pub proof fn lemma_start_keeps_exclusive(
    locks: Locks,
    loops: Seq<SchedulerView>,
    root: Seq<char>,
    interval: u64,
    channel: Seq<char>,
)
    requires
        exclusive(locks, loops),
    ensures
        exclusive(registered(locks, channel), loops.push(fresh(root, interval, channel))),
{
    let grown = loops.push(fresh(root, interval, channel));
    let after = registered(locks, channel);
    assert forall|k: int| 0 <= k < grown.len() && (#[trigger] grown[k]).phase
        == Phase::Indexing implies held(after, grown[k].channel) by {
        if k < loops.len() {
            assert(grown[k] == loops[k]);
        }
    }
    assert forall|k: int, l: int|
        0 <= k < l < grown.len() && (#[trigger] grown[k]).channel == (
        #[trigger] grown[l]).channel implies !(grown[k].phase == Phase::Indexing && grown[l].phase
        == Phase::Indexing) by {
        if l < loops.len() {
            assert(grown[k] == loops[k] && grown[l] == loops[l]);
        }
    }
}

/// The loop `s` driven through one pass for each of `results`: woken, then
/// told how the indexer ended. Gives the locks and the loop afterwards and
/// the actions the loop asked for, in order.
pub open spec fn passes(locks: Locks, s: SchedulerView, results: Seq<PassResult>) -> (
    Locks,
    SchedulerView,
    Seq<SchedulerActionView>,
)
    decreases results.len(),
{
    if results.len() == 0 {
        (locks, s, Seq::empty())
    } else {
        let (l1, s1, acts) = passes(locks, s, results.drop_last());
        match advance(l1, s1, SchedulerEvent::Wake) {
            Some((l2, s2, woke)) => match advance(
                l2,
                s2,
                SchedulerEvent::PassEnded(results.last()),
            ) {
                Some((l3, s3, ended)) => (l3, s3, acts.push(woke).push(ended)),
                None => (l2, s2, acts.push(woke)),
            },
            None => (l1, s1, acts),
        }
    }
}

/// Once started, a loop indexes over and over: with nobody else at the
/// channel's lock, every waking runs the indexer on the channel's directory,
/// and every end of a pass, failed or not, is followed by the configured sleep
/// and leaves the lock free for the next pass.
pub proof fn lemma_passes_repeat(
    locks: Locks,
    s: SchedulerView,
    results: Seq<PassResult>,
)
    requires
        free(locks, s.channel),
        s.phase != Phase::Indexing,
    ensures
        ({
            let (after, last, acts) = passes(locks, s, results);
            &&& free(after, s.channel)
            &&& last.phase != Phase::Indexing
            &&& results.len() > 0 ==> last == in_phase(s, Phase::Sleeping)
            &&& acts.len() == 2 * results.len()
            &&& forall|k: int|
                0 <= k < results.len() ==> #[trigger] acts[2 * k] == run_indexer(s.dir)
            &&& forall|k: int|
                0 <= k < results.len() ==> #[trigger] acts[2 * k + 1] == SchedulerActionView::Sleep(
                    s.interval,
                )
        }),
    decreases results.len(),
{
    if results.len() > 0 {
        let shorter = results.drop_last();
        lemma_passes_repeat(locks, s, shorter);
        let (l1, s1, acts1) = passes(locks, s, shorter);
        let (after, last, acts) = passes(locks, s, results);
        assert(s1.channel == s.channel && s1.dir == s.dir && s1.interval == s.interval);
        assert(acts == acts1.push(run_indexer(s.dir)).push(SchedulerActionView::Sleep(s.interval)));
        assert forall|k: int| 0 <= k < results.len() implies #[trigger] acts[2 * k] == run_indexer(
            s.dir,
        ) by {
            if k < shorter.len() {
                assert(acts[2 * k] == acts1[2 * k]);
            }
        }
        assert forall|k: int| 0 <= k < results.len() implies #[trigger] acts[2 * k + 1]
            == SchedulerActionView::Sleep(s.interval) by {
            if k < shorter.len() {
                assert(acts[2 * k + 1] == acts1[2 * k + 1]);
            }
        }
    }
}

/// A failed pass does not end the loop: after it the loop sleeps, and the
/// next waking runs the indexer again.
pub proof fn lemma_failure_is_retried(locks: Locks, s: SchedulerView, result: PassResult)
    requires
        s.phase == Phase::Indexing,
        locks.contains_key(s.channel),
    ensures
        ({
            let ended = advance(locks, s, SchedulerEvent::PassEnded(result));
            &&& ended is Some
            &&& ended->Some_0.2 == SchedulerActionView::Sleep(s.interval)
            &&& advance(ended->Some_0.0, ended->Some_0.1, SchedulerEvent::Wake) is Some
            &&& advance(ended->Some_0.0, ended->Some_0.1, SchedulerEvent::Wake)->Some_0.2
                == run_indexer(s.dir)
        }),
{
}

/// The channels do not get in each other's way: what a loop does depends on
/// no lock but its own channel's, and changes no other.
pub proof fn lemma_channels_do_not_interfere(
    locks: Locks,
    s: SchedulerView,
    e: SchedulerEvent,
    other: Seq<char>,
    state: bool,
)
    requires
        other != s.channel,
    ensures
        match (advance(locks, s, e), advance(locks.insert(other, state), s, e)) {
            (Some((l1, s1, a1)), Some((l2, s2, a2))) => {
                &&& s1 == s2
                &&& a1 == a2
                &&& l2 == l1.insert(other, state)
                &&& l1.contains_key(other) == locks.contains_key(other)
                &&& locks.contains_key(other) ==> l1[other] == locks[other]
            },
            (None, None) => true,
            _ => false,
        },
{
    if let Some((l1, _, _)) = advance(locks, s, e) {
        let l2 = advance(locks.insert(other, state), s, e)->Some_0.0;
        assert(l2 =~= l1.insert(other, state));
    }
}

} // verus!
