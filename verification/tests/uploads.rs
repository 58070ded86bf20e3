use conda_hoster::config::Config;
use conda_hoster::registry::ChannelRegistry;
use conda_hoster::scheduler::{enroll, Scheduler};
use conda_hoster::upload::{
    Creation, OutOfTurn, Outcome, Stage, UploadAction, UploadEvent, UploadSession,
};
use std::collections::{BTreeMap, BTreeSet};

const DIR: &str = "/srv/web-root/c/linux-64";

fn config() -> Config {
    Config {
        bind: "127.0.0.1:8088".to_owned(),
        root: "/srv/web-root".to_owned(),
        index_sleep_time: 10,
        tokens: vec!["secret".to_owned(), "other".to_owned()],
    }
}

struct Store {
    files: BTreeMap<String, Vec<u8>>,
    dirs: BTreeSet<String>,
    changes: usize,
}

impl Store {
    fn new() -> Store {
        Store { files: BTreeMap::new(), dirs: BTreeSet::new(), changes: 0 }
    }

    fn with_file(path: &str, bytes: &[u8]) -> Store {
        let mut store = Store::new();
        store.files.insert(path.to_owned(), bytes.to_vec());
        store
    }

    fn serve(&mut self, action: &UploadAction) -> Option<UploadEvent> {
        match action {
            UploadAction::CheckExists(path) => Some(UploadEvent::Exists(
                self.files.contains_key(path) || self.dirs.contains(path),
            )),
            UploadAction::CreateDirAll(dir) => {
                self.changes += 1;
                self.dirs.insert(dir.clone());
                Some(UploadEvent::DirReady(true))
            }
            UploadAction::CreateFile(path) => {
                if self.files.contains_key(path) {
                    Some(UploadEvent::Created(Creation::AlreadyExists))
                } else {
                    self.changes += 1;
                    self.files.insert(path.clone(), Vec::new());
                    Some(UploadEvent::Created(Creation::Created))
                }
            }
            UploadAction::Write(path, data) => {
                self.changes += 1;
                self.files.get_mut(path).unwrap().extend_from_slice(data);
                Some(UploadEvent::Written(true))
            }
            _ => None,
        }
    }
}

struct Run {
    outcome: Outcome,
    actions: Vec<UploadAction>,
    started: Vec<Scheduler>,
}

fn part(name: &str, chunks: &[&[u8]]) -> (String, Vec<Vec<u8>>) {
    (name.to_owned(), chunks.iter().map(|c| c.to_vec()).collect())
}

fn upload(
    store: &mut Store,
    registry: &mut ChannelRegistry,
    token: &str,
    channel: &str,
    arch: &str,
    parts: Vec<(String, Vec<Vec<u8>>)>,
) -> Run {
    let config = config();
    let (mut session, mut action) = UploadSession::open(&config, token, channel, arch);
    let mut parts = parts.into_iter();
    let mut chunks = Vec::new().into_iter();
    let mut actions = Vec::new();
    let mut started = Vec::new();
    loop {
        actions.push(action.clone());
        let event = match &action {
            UploadAction::Respond(outcome) => {
                assert_eq!(session.outcome(), Some(*outcome));
                return Run { outcome: *outcome, actions, started };
            }
            UploadAction::NextPart => match parts.next() {
                Some((name, data)) => {
                    chunks = data.into_iter();
                    UploadEvent::Part(name)
                }
                None => UploadEvent::NoMoreParts,
            },
            UploadAction::NextChunk => match chunks.next() {
                Some(data) => UploadEvent::Chunk(data),
                None => UploadEvent::EndOfPart,
            },
            UploadAction::Register(channel) => {
                if let Some(scheduler) = enroll(registry, &config, channel) {
                    started.push(scheduler);
                }
                UploadEvent::Registered
            }
            other => store.serve(other).unwrap(),
        };
        action = session.step(event).unwrap();
    }
}

#[test]
fn upload_stores_a_new_file() {
    let mut store = Store::new();
    let mut registry = ChannelRegistry::new();
    let run = upload(
        &mut store,
        &mut registry,
        "secret",
        "c",
        "linux-64",
        vec![part("pkg-1.0.tar", &[b"ab", b"cd"])],
    );
    assert_eq!(run.outcome, Outcome::Accepted);
    assert_eq!(run.outcome.status(), 200);
    let path = format!("{}/pkg-1.0.tar", DIR);
    assert_eq!(store.files.get(&path), Some(&b"abcd".to_vec()));
    assert_eq!(store.files.len(), 1);
    assert!(store.dirs.contains(DIR));
}

#[test]
fn upload_asks_for_each_step_in_order() {
    let mut store = Store::new();
    let mut registry = ChannelRegistry::new();
    let run = upload(
        &mut store,
        &mut registry,
        "secret",
        "c",
        "linux-64",
        vec![part("pkg-1.0.tar", &[b"ab", b"cd"])],
    );
    let path = format!("{}/pkg-1.0.tar", DIR);
    assert_eq!(
        run.actions,
        vec![
            UploadAction::NextPart,
            UploadAction::CheckExists(path.clone()),
            UploadAction::CreateDirAll(DIR.to_owned()),
            UploadAction::CreateFile(path.clone()),
            UploadAction::NextChunk,
            UploadAction::Write(path.clone(), b"ab".to_vec()),
            UploadAction::NextChunk,
            UploadAction::Write(path.clone(), b"cd".to_vec()),
            UploadAction::NextChunk,
            UploadAction::NextPart,
            UploadAction::Register("c".to_owned()),
            UploadAction::Respond(Outcome::Accepted),
        ]
    );
}

#[test]
fn upload_to_an_existing_path_is_a_conflict_and_leaves_the_file() {
    let path = format!("{}/pkg-1.0.tar", DIR);
    let mut store = Store::with_file(&path, b"first bytes");
    let mut registry = ChannelRegistry::new();
    let run = upload(
        &mut store,
        &mut registry,
        "secret",
        "c",
        "linux-64",
        vec![part("pkg-1.0.tar", &[b"new bytes"])],
    );
    assert_eq!(run.outcome, Outcome::Conflict);
    assert_eq!(run.outcome.status(), 409);
    assert_eq!(store.files.get(&path), Some(&b"first bytes".to_vec()));
    assert_eq!(store.changes, 0);
    assert_eq!(
        run.actions,
        vec![
            UploadAction::NextPart,
            UploadAction::CheckExists(path),
            UploadAction::Respond(Outcome::Conflict),
        ]
    );
    assert!(run.started.is_empty());
    assert!(!registry.contains("c"));
}

#[test]
fn upload_without_a_configured_token_is_forbidden() {
    let mut store = Store::new();
    let mut registry = ChannelRegistry::new();
    let run = upload(
        &mut store,
        &mut registry,
        "guess",
        "c",
        "linux-64",
        vec![part("pkg-1.0.tar", &[b"ab"])],
    );
    assert_eq!(run.outcome, Outcome::Forbidden);
    assert_eq!(run.outcome.status(), 403);
    assert_eq!(run.actions, vec![UploadAction::Respond(Outcome::Forbidden)]);
    assert_eq!(store.changes, 0);
    assert!(store.files.is_empty());
    assert!(!registry.contains("c"));
}

#[test]
fn upload_with_no_token_list_is_forbidden() {
    let mut config = config();
    config.tokens = Vec::new();
    let (session, action) = UploadSession::open(&config, "secret", "c", "linux-64");
    assert_eq!(action, UploadAction::Respond(Outcome::Forbidden));
    assert_eq!(session.outcome(), Some(Outcome::Forbidden));
}

#[test]
fn upload_of_a_traversing_name_stays_in_the_architecture_directory() {
    let mut store = Store::new();
    let mut registry = ChannelRegistry::new();
    let run = upload(
        &mut store,
        &mut registry,
        "secret",
        "c",
        "linux-64",
        vec![part("../../etc/passwd", &[b"root"])],
    );
    assert_eq!(run.outcome, Outcome::Accepted);
    let path = format!("{}/passwd", DIR);
    assert_eq!(store.files.keys().collect::<Vec<_>>(), vec![&path]);
    assert_eq!(store.dirs.iter().collect::<Vec<_>>(), vec![DIR]);
    for action in &run.actions {
        match action {
            UploadAction::CheckExists(p) => assert_eq!(p, &path),
            UploadAction::CreateFile(p) => assert_eq!(p, &path),
            UploadAction::Write(p, _) => assert_eq!(p, &path),
            UploadAction::CreateDirAll(d) => assert_eq!(d, DIR),
            _ => {}
        }
    }
}

#[test]
fn upload_of_a_rooted_name_stays_in_the_architecture_directory() {
    let mut store = Store::new();
    let mut registry = ChannelRegistry::new();
    let run = upload(
        &mut store,
        &mut registry,
        "secret",
        "c",
        "linux-64",
        vec![part("/etc/cron.d/job", &[b"x"])],
    );
    assert_eq!(run.outcome, Outcome::Accepted);
    assert_eq!(store.files.keys().collect::<Vec<_>>(), vec![&format!("{}/job", DIR)]);
}

#[test]
fn upload_of_a_name_that_names_the_parent_is_a_conflict_once_the_directory_exists() {
    let mut store = Store::new();
    store.dirs.insert(DIR.to_owned());
    store.dirs.insert(format!("{}/..", DIR));
    let mut registry = ChannelRegistry::new();
    let run =
        upload(&mut store, &mut registry, "secret", "c", "linux-64", vec![part("..", &[b"x"])]);
    assert_eq!(run.outcome, Outcome::Conflict);
    assert_eq!(store.changes, 0);
    assert!(store.files.is_empty());
}

#[test]
fn upload_of_a_name_without_a_usable_last_segment_is_refused_untouched() {
    for name in ["..", ".", "", "a/..", "dir/", "../../.."] {
        let mut store = Store::new();
        let mut registry = ChannelRegistry::new();
        let run =
            upload(&mut store, &mut registry, "secret", "c", "linux-64", vec![part(name, &[b"x"])]);
        assert_eq!(run.outcome, Outcome::Conflict, "{:?}", name);
        assert_eq!(
            run.actions,
            vec![UploadAction::NextPart, UploadAction::Respond(Outcome::Conflict)]
        );
        assert_eq!(store.changes, 0);
        assert!(store.files.is_empty());
        assert!(store.dirs.is_empty());
        assert!(!registry.contains("c"));
    }
}

#[test]
fn failed_existence_check_fails_the_upload() {
    let config = config();
    let (mut session, _) = UploadSession::open(&config, "secret", "c", "linux-64");
    session.step(UploadEvent::Part("a.tar".to_owned())).unwrap();
    let action = session.step(UploadEvent::CheckFailed);
    assert_eq!(action, Ok(UploadAction::Respond(Outcome::Failed)));
    assert_eq!(session.outcome(), Some(Outcome::Failed));
    assert_eq!(session.step(UploadEvent::Exists(false)), Err(OutOfTurn));
}

#[test]
fn uploads_racing_for_one_path_give_one_success_and_one_conflict() {
    let config = config();
    let mut store = Store::new();
    let path = format!("{}/pkg-1.0.tar", DIR);
    let (mut first, a) = UploadSession::open(&config, "secret", "c", "linux-64");
    let (mut second, b) = UploadSession::open(&config, "other", "c", "linux-64");
    assert_eq!(a, UploadAction::NextPart);
    assert_eq!(b, UploadAction::NextPart);
    let a = first.step(UploadEvent::Part("pkg-1.0.tar".to_owned())).unwrap();
    let b = second.step(UploadEvent::Part("pkg-1.0.tar".to_owned())).unwrap();
    let a = first.step(store.serve(&a).unwrap()).unwrap();
    let b = second.step(store.serve(&b).unwrap()).unwrap();
    assert_eq!(a, UploadAction::CreateDirAll(DIR.to_owned()));
    assert_eq!(b, UploadAction::CreateDirAll(DIR.to_owned()));
    let a = first.step(store.serve(&a).unwrap()).unwrap();
    let b = second.step(store.serve(&b).unwrap()).unwrap();
    assert_eq!(a, UploadAction::CreateFile(path.clone()));
    assert_eq!(b, UploadAction::CreateFile(path.clone()));
    let b = second.step(store.serve(&b).unwrap()).unwrap();
    let a = first.step(store.serve(&a).unwrap()).unwrap();
    assert_eq!(b, UploadAction::NextChunk);
    assert_eq!(a, UploadAction::Respond(Outcome::Conflict));
    assert_eq!(first.outcome(), Some(Outcome::Conflict));
    let b = second.step(UploadEvent::Chunk(b"second".to_vec())).unwrap();
    assert_eq!(b, UploadAction::Write(path.clone(), b"second".to_vec()));
    let b = second.step(store.serve(&b).unwrap()).unwrap();
    assert_eq!(b, UploadAction::NextChunk);
    assert_eq!(second.step(UploadEvent::EndOfPart), Ok(UploadAction::NextPart));
    assert_eq!(
        second.step(UploadEvent::NoMoreParts),
        Ok(UploadAction::Register("c".to_owned()))
    );
    assert_eq!(
        second.step(UploadEvent::Registered),
        Ok(UploadAction::Respond(Outcome::Accepted))
    );
    assert_eq!(store.files.get(&path), Some(&b"second".to_vec()));
    assert_eq!(store.files.len(), 1);
}

#[test]
fn uploads_racing_for_different_paths_both_succeed() {
    let mut store = Store::new();
    let mut registry = ChannelRegistry::new();
    let one = upload(
        &mut store,
        &mut registry,
        "secret",
        "c",
        "linux-64",
        vec![part("a.tar", &[b"a"])],
    );
    let two = upload(
        &mut store,
        &mut registry,
        "secret",
        "c",
        "linux-64",
        vec![part("b.tar", &[b"b"])],
    );
    assert_eq!(one.outcome, Outcome::Accepted);
    assert_eq!(two.outcome, Outcome::Accepted);
    assert_eq!(store.files.get(&format!("{}/a.tar", DIR)), Some(&b"a".to_vec()));
    assert_eq!(store.files.get(&format!("{}/b.tar", DIR)), Some(&b"b".to_vec()));
}

#[test]
fn upload_of_several_files_stores_each_and_registers_once() {
    let mut store = Store::new();
    let mut registry = ChannelRegistry::new();
    let run = upload(
        &mut store,
        &mut registry,
        "secret",
        "c",
        "linux-64",
        vec![part("a.tar", &[b"1", b"2", b"3"]), part("b.tar", &[])],
    );
    assert_eq!(run.outcome, Outcome::Accepted);
    assert_eq!(store.files.get(&format!("{}/a.tar", DIR)), Some(&b"123".to_vec()));
    assert_eq!(store.files.get(&format!("{}/b.tar", DIR)), Some(&Vec::new()));
    let registrations =
        run.actions.iter().filter(|a| matches!(a, UploadAction::Register(_))).count();
    assert_eq!(registrations, 1);
    assert_eq!(run.started.len(), 1);
}

#[test]
fn upload_stops_at_the_first_conflict() {
    let taken = format!("{}/b.tar", DIR);
    let mut store = Store::with_file(&taken, b"old");
    let mut registry = ChannelRegistry::new();
    let run = upload(
        &mut store,
        &mut registry,
        "secret",
        "c",
        "linux-64",
        vec![part("a.tar", &[b"a"]), part("b.tar", &[b"b"]), part("c.tar", &[b"c"])],
    );
    assert_eq!(run.outcome, Outcome::Conflict);
    assert_eq!(store.files.get(&format!("{}/a.tar", DIR)), Some(&b"a".to_vec()));
    assert_eq!(store.files.get(&taken), Some(&b"old".to_vec()));
    assert!(!store.files.contains_key(&format!("{}/c.tar", DIR)));
    assert!(run.started.is_empty());
    assert!(!registry.contains("c"));
}

#[test]
fn upload_without_files_is_accepted_and_registers_nothing() {
    let mut store = Store::new();
    let mut registry = ChannelRegistry::new();
    let run = upload(&mut store, &mut registry, "secret", "c", "linux-64", vec![]);
    assert_eq!(run.outcome, Outcome::Accepted);
    assert_eq!(
        run.actions,
        vec![UploadAction::NextPart, UploadAction::Respond(Outcome::Accepted)]
    );
    assert_eq!(store.changes, 0);
    assert!(!registry.contains("c"));
    assert!(run.started.is_empty());
}

#[test]
fn first_upload_to_a_channel_starts_its_indexing_loop() {
    let mut store = Store::new();
    let mut registry = ChannelRegistry::new();
    let run = upload(
        &mut store,
        &mut registry,
        "secret",
        "c",
        "linux-64",
        vec![part("a.tar", &[b"a"])],
    );
    assert_eq!(run.started.len(), 1);
    assert_eq!(run.started[0].channel_name(), "c");
    assert_eq!(run.started[0].dir(), "/srv/web-root/c");
    assert_eq!(run.started[0].interval(), 10);
    assert!(registry.contains("c"));
}

#[test]
fn later_uploads_to_a_channel_start_no_further_loop() {
    let mut store = Store::new();
    let mut registry = ChannelRegistry::new();
    let first = upload(
        &mut store,
        &mut registry,
        "secret",
        "c",
        "linux-64",
        vec![part("a.tar", &[b"a"])],
    );
    let second = upload(
        &mut store,
        &mut registry,
        "secret",
        "c",
        "osx-64",
        vec![part("a.tar", &[b"a"])],
    );
    let third = upload(
        &mut store,
        &mut registry,
        "secret",
        "d",
        "linux-64",
        vec![part("a.tar", &[b"a"])],
    );
    assert_eq!(first.started.len(), 1);
    assert_eq!(second.outcome, Outcome::Accepted);
    assert!(second.started.is_empty());
    assert_eq!(third.started.len(), 1);
    assert_eq!(third.started[0].channel_name(), "d");
}

#[test]
fn directory_failure_fails_the_upload() {
    let config = config();
    let (mut session, _) = UploadSession::open(&config, "secret", "c", "linux-64");
    session.step(UploadEvent::Part("a.tar".to_owned())).unwrap();
    session.step(UploadEvent::Exists(false)).unwrap();
    let action = session.step(UploadEvent::DirReady(false));
    assert_eq!(action, Ok(UploadAction::Respond(Outcome::Failed)));
    assert_eq!(Outcome::Failed.status(), 500);
    assert_eq!(session.outcome(), Some(Outcome::Failed));
}

#[test]
fn creation_failure_fails_the_upload() {
    let config = config();
    let (mut session, _) = UploadSession::open(&config, "secret", "c", "linux-64");
    session.step(UploadEvent::Part("a.tar".to_owned())).unwrap();
    session.step(UploadEvent::Exists(false)).unwrap();
    session.step(UploadEvent::DirReady(true)).unwrap();
    let action = session.step(UploadEvent::Created(Creation::Failed));
    assert_eq!(action, Ok(UploadAction::Respond(Outcome::Failed)));
}

#[test]
fn creation_that_finds_the_file_is_a_conflict() {
    let config = config();
    let (mut session, _) = UploadSession::open(&config, "secret", "c", "linux-64");
    session.step(UploadEvent::Part("a.tar".to_owned())).unwrap();
    session.step(UploadEvent::Exists(false)).unwrap();
    session.step(UploadEvent::DirReady(true)).unwrap();
    let action = session.step(UploadEvent::Created(Creation::AlreadyExists));
    assert_eq!(action, Ok(UploadAction::Respond(Outcome::Conflict)));
}

#[test]
fn write_failure_fails_the_upload_and_ends_it() {
    let config = config();
    let (mut session, _) = UploadSession::open(&config, "secret", "c", "linux-64");
    session.step(UploadEvent::Part("a.tar".to_owned())).unwrap();
    session.step(UploadEvent::Exists(false)).unwrap();
    session.step(UploadEvent::DirReady(true)).unwrap();
    session.step(UploadEvent::Created(Creation::Created)).unwrap();
    session.step(UploadEvent::Chunk(b"ab".to_vec())).unwrap();
    let action = session.step(UploadEvent::Written(false));
    assert_eq!(action, Ok(UploadAction::Respond(Outcome::Failed)));
    assert_eq!(session.step(UploadEvent::Chunk(b"cd".to_vec())), Err(OutOfTurn));
    assert_eq!(session.step(UploadEvent::NoMoreParts), Err(OutOfTurn));
    assert!(!session.has_stored());
}

#[test]
fn broken_stream_fails_the_upload() {
    let config = config();
    let (mut session, _) = UploadSession::open(&config, "secret", "c", "linux-64");
    session.step(UploadEvent::Part("a.tar".to_owned())).unwrap();
    session.step(UploadEvent::Exists(false)).unwrap();
    session.step(UploadEvent::DirReady(true)).unwrap();
    session.step(UploadEvent::Created(Creation::Created)).unwrap();
    let action = session.step(UploadEvent::ChunkLost);
    assert_eq!(action, Ok(UploadAction::Respond(Outcome::Failed)));
}

#[test]
fn event_out_of_turn_changes_nothing() {
    let config = config();
    let (mut session, _) = UploadSession::open(&config, "secret", "c", "linux-64");
    assert_eq!(session.step(UploadEvent::Exists(false)), Err(OutOfTurn));
    assert_eq!(session.step(UploadEvent::CheckFailed), Err(OutOfTurn));
    assert_eq!(session.step(UploadEvent::Written(true)), Err(OutOfTurn));
    assert_eq!(session.step(UploadEvent::Registered), Err(OutOfTurn));
    assert_eq!(session.stage(), &Stage::AwaitingPart);
    let action = session.step(UploadEvent::Part("a.tar".to_owned())).unwrap();
    let path = format!("{}/a.tar", DIR);
    assert_eq!(action, UploadAction::CheckExists(path.clone()));
    assert_eq!(session.step(UploadEvent::NoMoreParts), Err(OutOfTurn));
    assert_eq!(session.stage(), &Stage::Checking(path));
    assert_eq!(session.outcome(), None);
}

#[test]
fn session_knows_its_directory_and_channel() {
    let config = config();
    let (session, _) = UploadSession::open(&config, "secret", "c", "linux-64");
    assert_eq!(session.dir(), DIR);
    assert_eq!(session.channel_name(), "c");
    assert!(!session.has_stored());
}

#[test]
fn outcome_status_codes() {
    assert_eq!(Outcome::Accepted.status(), 200);
    assert_eq!(Outcome::Conflict.status(), 409);
    assert_eq!(Outcome::Forbidden.status(), 403);
    assert_eq!(Outcome::Failed.status(), 500);
}
