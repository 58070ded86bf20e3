//! Whole runs of an upload session.
//!
//! A run feeds a session one event after the other and collects the actions
//! it asks for. What is stated here holds of every run, whatever the events.

use crate::path::{
    is_entry_of, is_file_name, lemma_destination_is_entry, spec_basename, spec_destination,
};
use crate::upload::{
    answer, begin, react, ActionView, Creation, EventView, Outcome, SessionView, StageView,
};
use vstd::prelude::*;

verus! {

/// The session `s` after the events `events`, and the actions it asked for, in
/// order. An event the session did not wait for is passed over.
pub open spec fn replay(s: SessionView, events: Seq<EventView>) -> (SessionView, Seq<ActionView>)
    decreases events.len(),
{
    if events.len() == 0 {
        (s, Seq::empty())
    } else {
        match react(s, events[0]) {
            Some((next, act)) => {
                let (last, acts) = replay(next, events.drop_first());
                (last, seq![act] + acts)
            },
            None => replay(s, events.drop_first()),
        }
    }
}

/// Whether the action `a` keeps to the request of the session `s`: a path it
/// checks, creates or writes is an entry of the session's directory, the
/// directory it creates is that directory, and the channel it registers is the
/// session's.
pub open spec fn keeps_to(s: SessionView, a: ActionView) -> bool {
    match a {
        ActionView::CheckExists(path) => is_entry_of(path, s.dir),
        ActionView::CreateFile(path) => is_entry_of(path, s.dir),
        ActionView::Write(path, _) => is_entry_of(path, s.dir),
        ActionView::CreateDirAll(dir) => dir == s.dir,
        ActionView::Register(channel) => channel == s.channel,
        _ => true,
    }
}

/// Whether the file the session `s` is working on, if any, is an entry of
/// the session's directory.
pub open spec fn on_target(s: SessionView) -> bool {
    match s.stage {
        StageView::Checking(path) => is_entry_of(path, s.dir),
        StageView::MakingDir(path) => is_entry_of(path, s.dir),
        StageView::Creating(path) => is_entry_of(path, s.dir),
        StageView::AwaitingChunk(path) => is_entry_of(path, s.dir),
        StageView::Writing(path) => is_entry_of(path, s.dir),
        _ => true,
    }
}

/// An answered session asks for nothing more: a request that was refused as
/// forbidden or as a conflict, or that failed, touches nothing afterwards.
pub proof fn lemma_answered_is_final(s: SessionView, events: Seq<EventView>)
    requires
        s.stage is Finished,
    ensures
        replay(s, events) == (s, Seq::<ActionView>::empty()),
    decreases events.len(),
{
    if events.len() > 0 {
        lemma_answered_is_final(s, events.drop_first());
    }
}

/// A request without a configured token is answered as forbidden and asks for
/// nothing else, whatever it is told.
pub proof fn lemma_forbidden_touches_nothing(
    root: Seq<char>,
    channel: Seq<char>,
    arch: Seq<char>,
    events: Seq<EventView>,
)
    ensures
        begin(root, false, channel, arch).1 == ActionView::Respond(Outcome::Forbidden),
        replay(begin(root, false, channel, arch).0, events).1 == Seq::<ActionView>::empty(),
{
    lemma_answered_is_final(begin(root, false, channel, arch).0, events);
}

/// A file whose destination exists is refused before anything is changed: the
/// session answers with a conflict and asks for nothing else, whatever it is
/// told afterwards.
pub proof fn lemma_conflict_touches_nothing(s: SessionView, events: Seq<EventView>)
    requires
        s.stage is Checking,
        events.len() > 0,
        events[0] == EventView::Exists(true),
    ensures
        replay(s, events) == (
            answer(s, Outcome::Conflict).0,
            seq![ActionView::Respond(Outcome::Conflict)],
        ),
{
    lemma_answered_is_final(answer(s, Outcome::Conflict).0, events.drop_first());
    assert(seq![ActionView::Respond(Outcome::Conflict)] + Seq::<ActionView>::empty()
        =~= seq![ActionView::Respond(Outcome::Conflict)]);
}

/// A file whose name cannot name a file in a directory (its last segment is
/// empty, `.` or `..`) is refused before anything is looked at: the session
/// answers with a conflict and asks for nothing else.
pub proof fn lemma_unusable_name_touches_nothing(
    s: SessionView,
    name: Seq<char>,
    events: Seq<EventView>,
)
    requires
        s.stage is AwaitingPart,
        !is_file_name(spec_basename(name)),
        events.len() > 0,
        events[0] == EventView::Part(name),
    ensures
        replay(s, events) == (
            answer(s, Outcome::Conflict).0,
            seq![ActionView::Respond(Outcome::Conflict)],
        ),
{
    lemma_answered_is_final(answer(s, Outcome::Conflict).0, events.drop_first());
    assert(seq![ActionView::Respond(Outcome::Conflict)] + Seq::<ActionView>::empty()
        =~= seq![ActionView::Respond(Outcome::Conflict)]);
}

/// Whatever a session is told, it keeps to its request: its directory and
/// channel never change, and every action it asks for keeps to them.
pub proof fn lemma_replay_keeps_to_request(s: SessionView, events: Seq<EventView>)
    requires
        on_target(s),
    ensures
        replay(s, events).0.dir == s.dir,
        replay(s, events).0.channel == s.channel,
        on_target(replay(s, events).0),
        forall|k: int|
            0 <= k < replay(s, events).1.len() ==> keeps_to(s, #[trigger] replay(s, events).1[k]),
    decreases events.len(),
{
    if events.len() > 0 {
        match react(s, events[0]) {
            Some((next, act)) => {
                assert(keeps_to(s, act) && on_target(next)) by {
                    if let EventView::Part(name) = events[0] {
                        lemma_destination_is_entry(s.dir, name);
                    }
                }
                lemma_replay_keeps_to_request(next, events.drop_first());
                let rest = replay(next, events.drop_first()).1;
                let acts = replay(s, events).1;
                assert(acts == seq![act] + rest);
                assert forall|k: int| 0 <= k < acts.len() implies keeps_to(
                    s,
                    #[trigger] acts[k],
                ) by {
                    if k > 0 {
                        assert(acts[k] == rest[k - 1]);
                        assert(keeps_to(next, rest[k - 1]));
                    }
                }
            },
            None => {
                lemma_replay_keeps_to_request(s, events.drop_first());
            },
        }
    }
}

/// From its first action to its answer a request touches nothing but entries
/// of the directory of its channel and architecture, whatever names its files
/// are sent under.
pub proof fn lemma_request_keeps_to_its_directory(
    root: Seq<char>,
    authorized: bool,
    channel: Seq<char>,
    arch: Seq<char>,
    events: Seq<EventView>,
)
    ensures
        forall|k: int|
            0 <= k < replay(begin(root, authorized, channel, arch).0, events).1.len() ==> keeps_to(
                begin(root, authorized, channel, arch).0,
                #[trigger] replay(begin(root, authorized, channel, arch).0, events).1[k],
            ),
{
    lemma_replay_keeps_to_request(begin(root, authorized, channel, arch).0, events);
}

/// A run can be cut in two: the second part goes on where the first ended.
pub proof fn lemma_replay_splits(s: SessionView, front: Seq<EventView>, back: Seq<EventView>)
    ensures
        replay(s, front + back) == (
            replay(replay(s, front).0, back).0,
            replay(s, front).1 + replay(replay(s, front).0, back).1,
        ),
    decreases front.len(),
{
    let all = front + back;
    if front.len() == 0 {
        assert(all =~= back);
        assert(Seq::<ActionView>::empty() + replay(s, back).1 =~= replay(s, back).1);
    } else {
        assert(all[0] == front[0]);
        assert(all.drop_first() =~= front.drop_first() + back);
        match react(s, front[0]) {
            Some((next, act)) => {
                lemma_replay_splits(next, front.drop_first(), back);
                let mid = replay(next, front.drop_first());
                assert(seq![act] + (mid.1 + replay(mid.0, back).1) =~= (seq![act] + mid.1) + replay(
                    mid.0,
                    back,
                ).1);
            },
            None => {
                lemma_replay_splits(s, front.drop_first(), back);
            },
        }
    }
}

/// What a session is told while the chunks `chunks` arrive and are written.
pub open spec fn chunk_events(chunks: Seq<Seq<u8>>) -> Seq<EventView>
    decreases chunks.len(),
{
    if chunks.len() == 0 {
        Seq::empty()
    } else {
        seq![EventView::Chunk(chunks[0]), EventView::Written(true)] + chunk_events(
            chunks.drop_first(),
        )
    }
}

/// Each of `chunks` written to `path`, in order, and the next one asked for.
pub open spec fn chunk_writes(path: Seq<char>, chunks: Seq<Seq<u8>>) -> Seq<ActionView>
    decreases chunks.len(),
{
    if chunks.len() == 0 {
        Seq::empty()
    } else {
        seq![ActionView::Write(path, chunks[0]), ActionView::NextChunk] + chunk_writes(
            path,
            chunks.drop_first(),
        )
    }
}

/// The chunks of a file reach its destination in the order in which they
/// arrive, each one written before the next is read.
pub proof fn lemma_chunks_are_written_in_order(s: SessionView, chunks: Seq<Seq<u8>>)
    requires
        s.stage is AwaitingChunk,
    ensures
        replay(s, chunk_events(chunks)) == (s, chunk_writes(s.stage->AwaitingChunk_0, chunks)),
    decreases chunks.len(),
{
    if chunks.len() > 0 {
        let path = s.stage->AwaitingChunk_0;
        let head = seq![EventView::Chunk(chunks[0]), EventView::Written(true)];
        let tail = chunk_events(chunks.drop_first());
        lemma_replay_splits(s, head, tail);
        lemma_chunks_are_written_in_order(s, chunks.drop_first());
        let writing = SessionView { stage: StageView::Writing(path), ..s };
        assert(react(s, head[0]) == Some((writing, ActionView::Write(path, chunks[0]))));
        assert(head.drop_first() =~= seq![EventView::Written(true)]);
        assert(react(writing, head.drop_first()[0]) == Some((s, ActionView::NextChunk)));
        assert(head.drop_first().drop_first() =~= Seq::<EventView>::empty());
        assert(replay(s, head.drop_first().drop_first()).1 =~= Seq::<ActionView>::empty());
        assert(replay(writing, head.drop_first()) == (
            s,
            seq![ActionView::NextChunk] + Seq::<ActionView>::empty(),
        ));
        assert(replay(s, head).1 =~= seq![
            ActionView::Write(path, chunks[0]),
            ActionView::NextChunk,
        ]);
        assert(replay(s, head).0 == s);
    }
}

/// What a session is told while one file is stored without a fault: the file
/// arrives under `name`, its destination is free, its directory and the file
/// are created, its chunks arrive and are written, and it ends.
pub open spec fn storing_events(name: Seq<char>, chunks: Seq<Seq<u8>>) -> Seq<EventView> {
    seq![
        EventView::Part(name),
        EventView::Exists(false),
        EventView::DirReady(true),
        EventView::Created(Creation::Created),
    ] + chunk_events(chunks) + seq![EventView::EndOfPart]
}

/// What a session asks for while it stores one file at `path` in `dir`.
pub open spec fn storing_actions(dir: Seq<char>, path: Seq<char>, chunks: Seq<Seq<u8>>) -> Seq<
    ActionView,
> {
    seq![
        ActionView::CheckExists(path),
        ActionView::CreateDirAll(dir),
        ActionView::CreateFile(path),
        ActionView::NextChunk,
    ] + chunk_writes(path, chunks) + seq![ActionView::NextPart]
}

/// A file that meets no fault and is sent under a name that can name a file
/// is stored: checked, created in its directory, written chunk by chunk, and
/// the session, now holding a stored file, waits for the next one.
pub proof fn lemma_file_is_stored(s: SessionView, name: Seq<char>, chunks: Seq<Seq<u8>>)
    requires
        s.stage is AwaitingPart,
        is_file_name(spec_basename(name)),
    ensures
        replay(s, storing_events(name, chunks)) == (
            SessionView { dirty: true, ..s },
            storing_actions(s.dir, spec_destination(s.dir, name)->Some_0, chunks),
        ),
{
    let path = spec_destination(s.dir, name)->Some_0;
    let e0 = seq![
        EventView::Part(name),
        EventView::Exists(false),
        EventView::DirReady(true),
        EventView::Created(Creation::Created),
    ];
    let e2 = seq![EventView::EndOfPart];
    let s1 = SessionView { stage: StageView::Checking(path), ..s };
    let s2 = SessionView { stage: StageView::MakingDir(path), ..s };
    let s3 = SessionView { stage: StageView::Creating(path), ..s };
    let s4 = SessionView { stage: StageView::AwaitingChunk(path), ..s };
    let none = Seq::<ActionView>::empty();
    assert(replay(s4, e0.drop_first().drop_first().drop_first().drop_first()) == (s4, none));
    assert(e0.drop_first().drop_first().drop_first()[0] == e0[3]);
    assert(replay(s3, e0.drop_first().drop_first().drop_first()) == (
        s4,
        seq![ActionView::NextChunk] + none,
    ));
    assert(e0.drop_first().drop_first()[0] == e0[2]);
    assert(replay(s2, e0.drop_first().drop_first()) == (
        s4,
        seq![ActionView::CreateFile(path)] + (seq![ActionView::NextChunk] + none),
    ));
    assert(e0.drop_first()[0] == e0[1]);
    assert(replay(s1, e0.drop_first()) == (
        s4,
        seq![ActionView::CreateDirAll(s.dir)] + (seq![ActionView::CreateFile(path)] + (
            seq![ActionView::NextChunk] + none)),
    ));
    assert(replay(s, e0).0 == s4);
    assert(replay(s, e0).1 =~= seq![
        ActionView::CheckExists(path),
        ActionView::CreateDirAll(s.dir),
        ActionView::CreateFile(path),
        ActionView::NextChunk,
    ]);
    lemma_chunks_are_written_in_order(s4, chunks);
    assert(e2.drop_first() =~= Seq::<EventView>::empty());
    let s5 = SessionView { dirty: true, ..s };
    assert(s.stage == StageView::AwaitingPart);
    assert(react(s4, e2[0]) == Some((s5, ActionView::NextPart)));
    assert(replay(s5, e2.drop_first()) == (s5, none));
    assert(replay(s4, e2) == (
        SessionView { dirty: true, ..s },
        seq![ActionView::NextPart] + none,
    ));
    assert(seq![ActionView::NextPart] + none =~= seq![ActionView::NextPart]);
    lemma_replay_splits(s, e0, chunk_events(chunks));
    lemma_replay_splits(s, e0 + chunk_events(chunks), e2);
}

/// Whether a session is still at work on its request: neither answered nor
/// waiting for its channel's registration.
pub open spec fn at_work(s: SessionView) -> bool {
    !(s.stage is Finished) && !(s.stage is Registering)
}

/// A request registers its channel only for a file it has stored: while no
/// file of it is complete, it asks for no registration.
pub proof fn lemma_nothing_stored_nothing_registered(s: SessionView, events: Seq<EventView>)
    requires
        !s.dirty,
        !events.contains(EventView::EndOfPart),
        !(s.stage is Registering),
    ensures
        !replay(s, events).0.dirty,
        forall|k: int|
            0 <= k < replay(s, events).1.len() ==> !(#[trigger] replay(s, events).1[k] is Register),
    decreases events.len(),
{
    if events.len() > 0 {
        let rest = events.drop_first();
        assert(events[0] != EventView::EndOfPart);
        assert(!rest.contains(EventView::EndOfPart)) by {
            if rest.contains(EventView::EndOfPart) {
                let i = choose|i: int| 0 <= i < rest.len() && rest[i] == EventView::EndOfPart;
                assert(events[i + 1] == EventView::EndOfPart);
            }
        }
        match react(s, events[0]) {
            Some((next, act)) => {
                lemma_nothing_stored_nothing_registered(next, rest);
                let acts = replay(s, events).1;
                let later = replay(next, rest).1;
                assert forall|k: int| 0 <= k < acts.len() implies !(
                #[trigger] acts[k] is Register) by {
                    if k > 0 {
                        assert(acts[k] == later[k - 1]);
                    }
                }
            },
            None => {
                lemma_nothing_stored_nothing_registered(s, rest);
            },
        }
    }
}

/// A request that stored a file is accepted only after it has asked for its
/// channel's registration.
pub proof fn lemma_stored_file_is_registered(s: SessionView, events: Seq<EventView>)
    requires
        at_work(s),
        replay(s, events).0.stage == StageView::Finished(Outcome::Accepted),
        replay(s, events).0.dirty,
    ensures
        replay(s, events).1.contains(ActionView::Register(s.channel)),
    decreases events.len(),
{
    if events.len() > 0 {
        let rest = events.drop_first();
        match react(s, events[0]) {
            Some((next, act)) => {
                let acts = replay(s, events).1;
                let later = replay(next, rest).1;
                assert(acts == seq![act] + later);
                if next.stage is Finished {
                    lemma_answered_is_final(next, rest);
                } else if next.stage is Registering {
                    assert(acts[0] == ActionView::Register(s.channel));
                } else {
                    lemma_stored_file_is_registered(next, rest);
                    let k = choose|k: int|
                        0 <= k < later.len() && later[k] == ActionView::Register(next.channel);
                    assert(acts[k + 1] == ActionView::Register(s.channel));
                }
            },
            None => {
                lemma_stored_file_is_registered(s, rest);
            },
        }
    }
}

/// A request with a configured token that brings one file, under a name that
/// can name a file, and meets no fault is accepted: the file is stored, the
/// channel is registered, and only then the request is answered.
pub proof fn lemma_upload_is_accepted(
    root: Seq<char>,
    channel: Seq<char>,
    arch: Seq<char>,
    name: Seq<char>,
    chunks: Seq<Seq<u8>>,
)
    requires
        is_file_name(spec_basename(name)),
    ensures
        ({
            let (s, first) = begin(root, true, channel, arch);
            let events = storing_events(name, chunks) + seq![
                EventView::NoMoreParts,
                EventView::Registered,
            ];
            let (last, acts) = replay(s, events);
            &&& first == ActionView::NextPart
            &&& last.stage == StageView::Finished(Outcome::Accepted)
            &&& acts == storing_actions(
                s.dir,
                spec_destination(s.dir, name)->Some_0,
                chunks,
            ) + seq![
                ActionView::Register(channel),
                ActionView::Respond(Outcome::Accepted),
            ]
        }),
{
    let (s, first) = begin(root, true, channel, arch);
    let tail = seq![EventView::NoMoreParts, EventView::Registered];
    let stored = SessionView { dirty: true, ..s };
    let registering = SessionView { stage: StageView::Registering, ..stored };
    let done = SessionView { stage: StageView::Finished(Outcome::Accepted), ..stored };
    let none = Seq::<ActionView>::empty();
    lemma_file_is_stored(s, name, chunks);
    lemma_replay_splits(s, storing_events(name, chunks), tail);
    assert(react(stored, tail[0]) == Some((registering, ActionView::Register(channel))));
    assert(tail.drop_first()[0] == EventView::Registered);
    assert(react(registering, tail.drop_first()[0]) == Some(
        (done, ActionView::Respond(Outcome::Accepted)),
    ));
    lemma_answered_is_final(done, tail.drop_first().drop_first());
    assert(replay(registering, tail.drop_first()) == (
        done,
        seq![ActionView::Respond(Outcome::Accepted)] + none,
    ));
    assert(replay(stored, tail).1 =~= seq![
        ActionView::Register(channel),
        ActionView::Respond(Outcome::Accepted),
    ]);
}

} // verus!
