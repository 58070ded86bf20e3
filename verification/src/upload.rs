//! One upload request, step by step.
//!
//! A request names a channel and an architecture and carries any number of
//! files. The session decides what is to be done next; the caller does it and
//! reports what happened. A file is stored only under a name that can name a
//! file and where no file of that name exists, chunk by chunk in the order of
//! arrival, and a request that stored at least one file registers its channel
//! for indexing before it is answered.

use crate::config::{listed, Config};
use crate::path::{arch_dir, destination, spec_arch_dir, spec_destination};
use vstd::prelude::*;

verus! {

/// How an upload request is answered.
#[derive(Clone, Copy, PartialEq, Eq, Structural, Debug)]
pub enum Outcome {
    /// Every file of the request was stored.
    Accepted,
    /// A file of that name exists already, or the name cannot name a file.
    Conflict,
    /// The request's token is not a configured one.
    Forbidden,
    /// The file system or the body's stream failed.
    Failed,
}

impl Outcome {
    /// The HTTP status that reports the outcome.
    pub open spec fn spec_status(self) -> u16 {
        match self {
            Outcome::Accepted => 200,
            Outcome::Conflict => 409,
            Outcome::Forbidden => 403,
            Outcome::Failed => 500,
        }
    }

    /// The HTTP status that reports the outcome.
    pub fn status(&self) -> (code: u16)
        ensures
            code == self.spec_status(),
    {
        match self {
            Outcome::Accepted => 200,
            Outcome::Conflict => 409,
            Outcome::Forbidden => 403,
            Outcome::Failed => 500,
        }
    }
}

/// What became of the attempt to create a file that must not exist yet.
#[derive(Clone, Copy, PartialEq, Eq, Structural, Debug)]
pub enum Creation {
    /// The file is new and open for writing.
    Created,
    /// A file of that name was there first.
    AlreadyExists,
    /// The file could not be created for another reason.
    Failed,
}

/// What the caller reports to a session.
#[derive(Clone, PartialEq, Eq, Debug)]
pub enum UploadEvent {
    /// The body holds a further file, sent under this name.
    Part(String),
    /// The body holds no further file.
    NoMoreParts,
    /// Whether the path asked about exists.
    Exists(bool),
    /// Whether the path exists could not be found out.
    CheckFailed,
    /// Whether the directory is there now.
    DirReady(bool),
    /// What became of the file's creation.
    Created(Creation),
    /// The next chunk of the current file.
    Chunk(Vec<u8>),
    /// The current file is complete.
    EndOfPart,
    /// The body's stream broke inside the current file.
    ChunkLost,
    /// Whether the chunk was written.
    Written(bool),
    /// The channel was registered for indexing.
    Registered,
}

/// What a session asks the caller to do next.
#[derive(Clone, PartialEq, Eq, Debug)]
pub enum UploadAction {
    /// Read on to the body's next file.
    NextPart,
    /// Find out whether this path exists.
    CheckExists(String),
    /// Create this directory and the missing ones above it.
    CreateDirAll(String),
    /// Create this file, failing where it exists.
    CreateFile(String),
    /// Read the next chunk of the current file.
    NextChunk,
    /// Append the chunk to the file at this path.
    Write(String, Vec<u8>),
    /// Register this channel for indexing.
    Register(String),
    /// Answer the request.
    Respond(Outcome),
}

/// The event came at a point where the session did not wait for it.
#[derive(Clone, Copy, PartialEq, Eq, Structural, Debug)]
pub struct OutOfTurn;

/// Where a session stands.
#[derive(Clone, PartialEq, Eq, Debug)]
pub enum Stage {
    /// Waiting for the body's next file.
    AwaitingPart,
    /// Waiting to learn whether the destination exists.
    Checking(String),
    /// Waiting for the destination's directory.
    MakingDir(String),
    /// Waiting for the destination to be created.
    Creating(String),
    /// Waiting for the next chunk of the file at the destination.
    AwaitingChunk(String),
    /// Waiting for a chunk to be written to the destination.
    Writing(String),
    /// Waiting for the channel's registration.
    Registering,
    /// The request is answered.
    Finished(Outcome),
}

/// An upload request in progress.
#[derive(Debug)]
pub struct UploadSession {
    dir: String,
    channel: String,
    stage: Stage,
    dirty: bool,
}

/// An `UploadEvent` as a mathematical value.
pub enum EventView {
    Part(Seq<char>),
    NoMoreParts,
    Exists(bool),
    CheckFailed,
    DirReady(bool),
    Created(Creation),
    Chunk(Seq<u8>),
    EndOfPart,
    ChunkLost,
    Written(bool),
    Registered,
}

/// An `UploadAction` as a mathematical value.
pub enum ActionView {
    NextPart,
    CheckExists(Seq<char>),
    CreateDirAll(Seq<char>),
    CreateFile(Seq<char>),
    NextChunk,
    Write(Seq<char>, Seq<u8>),
    Register(Seq<char>),
    Respond(Outcome),
}

/// A `Stage` as a mathematical value.
pub enum StageView {
    AwaitingPart,
    Checking(Seq<char>),
    MakingDir(Seq<char>),
    Creating(Seq<char>),
    AwaitingChunk(Seq<char>),
    Writing(Seq<char>),
    Registering,
    Finished(Outcome),
}

/// An `UploadSession` as a mathematical value.
pub struct SessionView {
    /// The directory the request's files go to.
    pub dir: Seq<char>,
    /// The channel the request uploads to.
    pub channel: Seq<char>,
    /// Where the session stands.
    pub stage: StageView,
    /// Whether the request has stored a file.
    pub dirty: bool,
}

impl View for UploadEvent {
    type V = EventView;

    open spec fn view(&self) -> EventView {
        match self {
            UploadEvent::Part(name) => EventView::Part(name@),
            UploadEvent::NoMoreParts => EventView::NoMoreParts,
            UploadEvent::Exists(found) => EventView::Exists(*found),
            UploadEvent::CheckFailed => EventView::CheckFailed,
            UploadEvent::DirReady(ok) => EventView::DirReady(*ok),
            UploadEvent::Created(how) => EventView::Created(*how),
            UploadEvent::Chunk(data) => EventView::Chunk(data@),
            UploadEvent::EndOfPart => EventView::EndOfPart,
            UploadEvent::ChunkLost => EventView::ChunkLost,
            UploadEvent::Written(ok) => EventView::Written(*ok),
            UploadEvent::Registered => EventView::Registered,
        }
    }
}

impl View for UploadAction {
    type V = ActionView;

    open spec fn view(&self) -> ActionView {
        match self {
            UploadAction::NextPart => ActionView::NextPart,
            UploadAction::CheckExists(path) => ActionView::CheckExists(path@),
            UploadAction::CreateDirAll(dir) => ActionView::CreateDirAll(dir@),
            UploadAction::CreateFile(path) => ActionView::CreateFile(path@),
            UploadAction::NextChunk => ActionView::NextChunk,
            UploadAction::Write(path, data) => ActionView::Write(path@, data@),
            UploadAction::Register(channel) => ActionView::Register(channel@),
            UploadAction::Respond(outcome) => ActionView::Respond(*outcome),
        }
    }
}

impl View for Stage {
    type V = StageView;

    open spec fn view(&self) -> StageView {
        match self {
            Stage::AwaitingPart => StageView::AwaitingPart,
            Stage::Checking(path) => StageView::Checking(path@),
            Stage::MakingDir(path) => StageView::MakingDir(path@),
            Stage::Creating(path) => StageView::Creating(path@),
            Stage::AwaitingChunk(path) => StageView::AwaitingChunk(path@),
            Stage::Writing(path) => StageView::Writing(path@),
            Stage::Registering => StageView::Registering,
            Stage::Finished(outcome) => StageView::Finished(*outcome),
        }
    }
}

impl View for UploadSession {
    type V = SessionView;

    closed spec fn view(&self) -> SessionView {
        SessionView {
            dir: self.dir@,
            channel: self.channel@,
            stage: self.stage@,
            dirty: self.dirty,
        }
    }
}

/// The session `s` at another stage.
pub open spec fn at(s: SessionView, stage: StageView) -> SessionView {
    SessionView { stage, ..s }
}

/// The session `s` answered with `outcome`, and the action that says so.
pub open spec fn answer(s: SessionView, outcome: Outcome) -> (SessionView, ActionView) {
    (at(s, StageView::Finished(outcome)), ActionView::Respond(outcome))
}

/// The session of a request as it begins, and its first action: a request
/// without a configured token is answered at once and touches nothing.
pub open spec fn begin(
    root: Seq<char>,
    authorized: bool,
    channel: Seq<char>,
    arch: Seq<char>,
) -> (SessionView, ActionView) {
    let s = SessionView {
        dir: spec_arch_dir(root, channel, arch),
        channel,
        stage: StageView::AwaitingPart,
        dirty: false,
    };
    if authorized {
        (s, ActionView::NextPart)
    } else {
        answer(s, Outcome::Forbidden)
    }
}

/// What the session `s` does on the event `e`: the session afterwards and the
/// action it asks for, or `None` where `s` did not wait for `e`.
pub open spec fn react(s: SessionView, e: EventView) -> Option<(SessionView, ActionView)> {
    match (s.stage, e) {
        (StageView::AwaitingPart, EventView::Part(name)) => {
            match spec_destination(s.dir, name) {
                Some(target) => Some(
                    (at(s, StageView::Checking(target)), ActionView::CheckExists(target)),
                ),
                None => Some(answer(s, Outcome::Conflict)),
            }
        },
        (StageView::AwaitingPart, EventView::NoMoreParts) => {
            if s.dirty {
                Some((at(s, StageView::Registering), ActionView::Register(s.channel)))
            } else {
                Some(answer(s, Outcome::Accepted))
            }
        },
        (StageView::Checking(target), EventView::Exists(found)) => {
            if found {
                Some(answer(s, Outcome::Conflict))
            } else {
                Some((at(s, StageView::MakingDir(target)), ActionView::CreateDirAll(s.dir)))
            }
        },
        (StageView::Checking(_), EventView::CheckFailed) => Some(answer(s, Outcome::Failed)),
        (StageView::MakingDir(target), EventView::DirReady(ok)) => {
            if ok {
                Some((at(s, StageView::Creating(target)), ActionView::CreateFile(target)))
            } else {
                Some(answer(s, Outcome::Failed))
            }
        },
        (StageView::Creating(target), EventView::Created(how)) => {
            match how {
                Creation::Created => Some(
                    (at(s, StageView::AwaitingChunk(target)), ActionView::NextChunk),
                ),
                Creation::AlreadyExists => Some(answer(s, Outcome::Conflict)),
                Creation::Failed => Some(answer(s, Outcome::Failed)),
            }
        },
        (StageView::AwaitingChunk(target), EventView::Chunk(data)) => Some(
            (at(s, StageView::Writing(target)), ActionView::Write(target, data)),
        ),
        (StageView::AwaitingChunk(target), EventView::EndOfPart) => Some(
            (
                SessionView { stage: StageView::AwaitingPart, dirty: true, ..s },
                ActionView::NextPart,
            ),
        ),
        (StageView::AwaitingChunk(target), EventView::ChunkLost) => Some(
            answer(s, Outcome::Failed),
        ),
        (StageView::Writing(target), EventView::Written(ok)) => {
            if ok {
                Some((at(s, StageView::AwaitingChunk(target)), ActionView::NextChunk))
            } else {
                Some(answer(s, Outcome::Failed))
            }
        },
        (StageView::Registering, EventView::Registered) => Some(answer(s, Outcome::Accepted)),
        _ => None,
    }
}

impl UploadSession {
    /// Opens the session of a request for `channel` and `arch` that presents
    /// `token`, and gives its first action.
    pub fn open(config: &Config, token: &str, channel: &str, arch: &str) -> (opened: (
        UploadSession,
        UploadAction,
    ))
        ensures
            (opened.0@, opened.1@) == begin(
                config.root@,
                listed(config.tokens@, token@),
                channel@,
                arch@,
            ),
    {
        let dir = arch_dir(config.root.as_str(), channel, arch);
        let channel = String::from_str(channel);
        if config.accepts(token) {
            (
                UploadSession { dir, channel, stage: Stage::AwaitingPart, dirty: false },
                UploadAction::NextPart,
            )
        } else {
            (
                UploadSession {
                    dir,
                    channel,
                    stage: Stage::Finished(Outcome::Forbidden),
                    dirty: false,
                },
                UploadAction::Respond(Outcome::Forbidden),
            )
        }
    }

    /// The directory the request's files go to.
    pub fn dir(&self) -> (dir: &str)
        ensures
            dir@ == self@.dir,
    {
        self.dir.as_str()
    }

    /// The channel the request uploads to.
    pub fn channel_name(&self) -> (channel: &str)
        ensures
            channel@ == self@.channel,
    {
        self.channel.as_str()
    }

    /// Whether the request has stored a file.
    pub fn has_stored(&self) -> (dirty: bool)
        ensures
            dirty == self@.dirty,
    {
        self.dirty
    }

    /// Where the session stands.
    pub fn stage(&self) -> (stage: &Stage)
        ensures
            stage@ == self@.stage,
    {
        &self.stage
    }

    /// The answer to the request, once it is answered.
    pub fn outcome(&self) -> (outcome: Option<Outcome>)
        ensures
            outcome == match self@.stage {
                StageView::Finished(o) => Some(o),
                _ => None,
            },
    {
        match &self.stage {
            Stage::Finished(o) => Some(*o),
            _ => None,
        }
    }

    fn finish(&mut self, outcome: Outcome) -> (action: Result<UploadAction, OutOfTurn>)
        ensures
            action is Ok,
            (final(self)@, action->Ok_0@) == answer(old(self)@, outcome),
    {
        self.stage = Stage::Finished(outcome);
        Ok(UploadAction::Respond(outcome))
    }

    /// Takes the event the caller reports and gives the next action. An event
    /// the session did not wait for leaves it as it was.
    pub fn step(&mut self, event: UploadEvent) -> (action: Result<UploadAction, OutOfTurn>)
        ensures
            match react(old(self)@, event@) {
                Some((next, act)) => final(self)@ == next && action is Ok && action->Ok_0@ == act,
                None => final(self)@ == old(self)@ && action is Err,
            },
    {
        match (&self.stage, event) {
            (Stage::AwaitingPart, UploadEvent::Part(name)) => {
                match destination(self.dir.as_str(), name.as_str()) {
                    Some(target) => {
                        let asked = target.clone();
                        self.stage = Stage::Checking(target);
                        Ok(UploadAction::CheckExists(asked))
                    },
                    None => self.finish(Outcome::Conflict),
                }
            },
            (Stage::AwaitingPart, UploadEvent::NoMoreParts) => {
                if self.dirty {
                    self.stage = Stage::Registering;
                    Ok(UploadAction::Register(self.channel.clone()))
                } else {
                    self.finish(Outcome::Accepted)
                }
            },
            (Stage::Checking(target), UploadEvent::Exists(found)) => {
                if found {
                    self.finish(Outcome::Conflict)
                } else {
                    self.stage = Stage::MakingDir(target.clone());
                    Ok(UploadAction::CreateDirAll(self.dir.clone()))
                }
            },
            (Stage::Checking(_), UploadEvent::CheckFailed) => self.finish(Outcome::Failed),
            (Stage::MakingDir(target), UploadEvent::DirReady(ok)) => {
                if ok {
                    let path = target.clone();
                    self.stage = Stage::Creating(target.clone());
                    Ok(UploadAction::CreateFile(path))
                } else {
                    self.finish(Outcome::Failed)
                }
            },
            (Stage::Creating(target), UploadEvent::Created(how)) => {
                match how {
                    Creation::Created => {
                        self.stage = Stage::AwaitingChunk(target.clone());
                        Ok(UploadAction::NextChunk)
                    },
                    Creation::AlreadyExists => self.finish(Outcome::Conflict),
                    Creation::Failed => self.finish(Outcome::Failed),
                }
            },
            (Stage::AwaitingChunk(target), UploadEvent::Chunk(data)) => {
                let path = target.clone();
                self.stage = Stage::Writing(target.clone());
                Ok(UploadAction::Write(path, data))
            },
            (Stage::AwaitingChunk(_), UploadEvent::EndOfPart) => {
                self.stage = Stage::AwaitingPart;
                self.dirty = true;
                Ok(UploadAction::NextPart)
            },
            (Stage::AwaitingChunk(_), UploadEvent::ChunkLost) => self.finish(Outcome::Failed),
            (Stage::Writing(target), UploadEvent::Written(ok)) => {
                if ok {
                    self.stage = Stage::AwaitingChunk(target.clone());
                    Ok(UploadAction::NextChunk)
                } else {
                    self.finish(Outcome::Failed)
                }
            },
            (Stage::Registering, UploadEvent::Registered) => self.finish(Outcome::Accepted),
            _ => Err(OutOfTurn),
        }
    }
}

} // verus!
