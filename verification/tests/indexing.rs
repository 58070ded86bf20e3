use conda_hoster::config::Config;
use conda_hoster::registry::ChannelRegistry;
use conda_hoster::scheduler::{
    enroll, IndexerCommand, PassResult, Phase, Scheduler, SchedulerAction, SchedulerEvent,
    Unexpected,
};

fn config() -> Config {
    Config {
        bind: "127.0.0.1:8088".to_owned(),
        root: "/srv/web-root".to_owned(),
        index_sleep_time: 7,
        tokens: vec!["secret".to_owned()],
    }
}

fn index_of(dir: &str) -> SchedulerAction {
    SchedulerAction::RunIndexer(IndexerCommand {
        program: "conda".to_owned(),
        args: vec!["index".to_owned(), dir.to_owned()],
    })
}

fn started(registry: &mut ChannelRegistry, channel: &str) -> Scheduler {
    enroll(registry, &config(), channel).unwrap()
}

#[test]
fn registry_starts_empty() {
    let registry = ChannelRegistry::new();
    assert!(!registry.contains("c"));
    assert!(!registry.is_held("c"));
}

#[test]
fn get_or_create_reports_the_first_registration_once() {
    let mut registry = ChannelRegistry::new();
    assert!(registry.get_or_create("c"));
    assert!(!registry.get_or_create("c"));
    assert!(!registry.get_or_create("c"));
    assert!(registry.get_or_create("d"));
    assert!(!registry.get_or_create("d"));
    assert!(registry.contains("c"));
    assert!(registry.contains("d"));
    assert!(!registry.contains("e"));
}

#[test]
fn get_or_create_keeps_a_held_lock_held() {
    let mut registry = ChannelRegistry::new();
    registry.get_or_create("c");
    assert!(registry.try_acquire("c"));
    assert!(!registry.get_or_create("c"));
    assert!(registry.is_held("c"));
}

#[test]
fn lock_is_granted_to_one_holder_at_a_time() {
    let mut registry = ChannelRegistry::new();
    registry.get_or_create("c");
    assert!(!registry.is_held("c"));
    assert!(registry.try_acquire("c"));
    assert!(registry.is_held("c"));
    assert!(!registry.try_acquire("c"));
    registry.release("c");
    assert!(!registry.is_held("c"));
    assert!(registry.try_acquire("c"));
}

#[test]
fn lock_of_an_unregistered_channel_cannot_be_taken() {
    let mut registry = ChannelRegistry::new();
    assert!(!registry.try_acquire("c"));
    registry.release("c");
    assert!(!registry.contains("c"));
    assert!(!registry.is_held("c"));
}

#[test]
fn locks_of_different_channels_are_independent() {
    let mut registry = ChannelRegistry::new();
    registry.get_or_create("c");
    registry.get_or_create("d");
    assert!(registry.try_acquire("c"));
    assert!(registry.try_acquire("d"));
    registry.release("c");
    assert!(!registry.is_held("c"));
    assert!(registry.is_held("d"));
}

#[test]
fn enroll_starts_a_loop_for_a_new_channel_only() {
    let mut registry = ChannelRegistry::new();
    let first = enroll(&mut registry, &config(), "c");
    let second = enroll(&mut registry, &config(), "c");
    assert!(first.is_some());
    assert!(second.is_none());
    let scheduler = first.unwrap();
    assert_eq!(scheduler.channel_name(), "c");
    assert_eq!(scheduler.dir(), "/srv/web-root/c");
    assert_eq!(scheduler.interval(), 7);
    assert_eq!(scheduler.phase(), Phase::Due);
}

#[test]
fn channel_never_uploaded_to_has_no_loop_and_no_lock() {
    let mut registry = ChannelRegistry::new();
    let mut scheduler = started(&mut registry, "c");
    let action = scheduler.step(&mut registry, SchedulerEvent::Wake).unwrap();
    assert_eq!(action, index_of("/srv/web-root/c"));
    assert!(!registry.contains("never"));
    assert!(!registry.try_acquire("never"));
}

#[test]
fn first_waking_runs_the_indexer_on_the_channel_directory() {
    let mut registry = ChannelRegistry::new();
    let mut scheduler = started(&mut registry, "c");
    let action = scheduler.step(&mut registry, SchedulerEvent::Wake);
    assert_eq!(action, Ok(index_of("/srv/web-root/c")));
    assert_eq!(scheduler.phase(), Phase::Indexing);
    assert!(registry.is_held("c"));
}

#[test]
fn pass_is_followed_by_sleep_and_the_next_pass() {
    let mut registry = ChannelRegistry::new();
    let mut scheduler = started(&mut registry, "c");
    scheduler.step(&mut registry, SchedulerEvent::Wake).unwrap();
    let action = scheduler.step(&mut registry, SchedulerEvent::PassEnded(PassResult::Succeeded));
    assert_eq!(action, Ok(SchedulerAction::Sleep(7)));
    assert_eq!(scheduler.phase(), Phase::Sleeping);
    assert!(!registry.is_held("c"));
    let action = scheduler.step(&mut registry, SchedulerEvent::Wake);
    assert_eq!(action, Ok(index_of("/srv/web-root/c")));
}

#[test]
fn failed_pass_does_not_end_the_loop() {
    let mut registry = ChannelRegistry::new();
    let mut scheduler = started(&mut registry, "c");
    scheduler.step(&mut registry, SchedulerEvent::Wake).unwrap();
    let action = scheduler.step(&mut registry, SchedulerEvent::PassEnded(PassResult::Failed));
    assert_eq!(action, Ok(SchedulerAction::Sleep(7)));
    let action = scheduler.step(&mut registry, SchedulerEvent::Wake);
    assert_eq!(action, Ok(index_of("/srv/web-root/c")));
    assert_eq!(scheduler.phase(), Phase::Indexing);
}

#[test]
fn indexer_that_does_not_start_does_not_end_the_loop() {
    let mut registry = ChannelRegistry::new();
    let mut scheduler = started(&mut registry, "c");
    scheduler.step(&mut registry, SchedulerEvent::Wake).unwrap();
    let action = scheduler.step(&mut registry, SchedulerEvent::PassEnded(PassResult::NotStarted));
    assert_eq!(action, Ok(SchedulerAction::Sleep(7)));
    let action = scheduler.step(&mut registry, SchedulerEvent::Wake);
    assert_eq!(action, Ok(index_of("/srv/web-root/c")));
}

#[test]
fn loop_goes_on_without_further_uploads() {
    let mut registry = ChannelRegistry::new();
    let mut scheduler = started(&mut registry, "c");
    let results = [PassResult::Succeeded, PassResult::Failed, PassResult::NotStarted];
    for round in 0..30 {
        let woke = scheduler.step(&mut registry, SchedulerEvent::Wake);
        assert_eq!(woke, Ok(index_of("/srv/web-root/c")));
        assert!(registry.is_held("c"));
        let ended = scheduler.step(&mut registry, SchedulerEvent::PassEnded(results[round % 3]));
        assert_eq!(ended, Ok(SchedulerAction::Sleep(7)));
        assert!(!registry.is_held("c"));
    }
}

#[test]
fn loop_waits_while_the_lock_is_held_elsewhere() {
    let mut registry = ChannelRegistry::new();
    let mut scheduler = started(&mut registry, "c");
    assert!(registry.try_acquire("c"));
    let action = scheduler.step(&mut registry, SchedulerEvent::Wake);
    assert_eq!(action, Ok(SchedulerAction::AwaitLock));
    assert_eq!(scheduler.phase(), Phase::Due);
    let action = scheduler.step(&mut registry, SchedulerEvent::Wake);
    assert_eq!(action, Ok(SchedulerAction::AwaitLock));
    registry.release("c");
    let action = scheduler.step(&mut registry, SchedulerEvent::Wake);
    assert_eq!(action, Ok(index_of("/srv/web-root/c")));
    assert!(registry.is_held("c"));
}

#[test]
fn running_indexer_keeps_others_from_the_channel() {
    let mut registry = ChannelRegistry::new();
    let mut scheduler = started(&mut registry, "c");
    scheduler.step(&mut registry, SchedulerEvent::Wake).unwrap();
    assert!(!registry.try_acquire("c"));
    scheduler.step(&mut registry, SchedulerEvent::PassEnded(PassResult::Succeeded)).unwrap();
    assert!(registry.try_acquire("c"));
}

#[test]
fn loops_of_different_channels_do_not_wait_for_each_other() {
    let mut registry = ChannelRegistry::new();
    let mut one = started(&mut registry, "c");
    let mut two = started(&mut registry, "d");
    assert_eq!(one.step(&mut registry, SchedulerEvent::Wake), Ok(index_of("/srv/web-root/c")));
    assert_eq!(two.step(&mut registry, SchedulerEvent::Wake), Ok(index_of("/srv/web-root/d")));
    assert!(registry.is_held("c"));
    assert!(registry.is_held("d"));
    two.step(&mut registry, SchedulerEvent::PassEnded(PassResult::Failed)).unwrap();
    assert!(registry.is_held("c"));
    assert!(!registry.is_held("d"));
    assert_eq!(one.phase(), Phase::Indexing);
}

#[test]
fn event_the_loop_did_not_wait_for_changes_nothing() {
    let mut registry = ChannelRegistry::new();
    let mut scheduler = started(&mut registry, "c");
    let early = scheduler.step(&mut registry, SchedulerEvent::PassEnded(PassResult::Succeeded));
    assert_eq!(early, Err(Unexpected));
    assert_eq!(scheduler.phase(), Phase::Due);
    assert!(!registry.is_held("c"));
    scheduler.step(&mut registry, SchedulerEvent::Wake).unwrap();
    let again = scheduler.step(&mut registry, SchedulerEvent::Wake);
    assert_eq!(again, Err(Unexpected));
    assert_eq!(scheduler.phase(), Phase::Indexing);
    assert!(registry.is_held("c"));
    scheduler.step(&mut registry, SchedulerEvent::PassEnded(PassResult::Succeeded)).unwrap();
    let late = scheduler.step(&mut registry, SchedulerEvent::PassEnded(PassResult::Succeeded));
    assert_eq!(late, Err(Unexpected));
    assert_eq!(scheduler.phase(), Phase::Sleeping);
}

#[test]
fn interval_of_zero_is_passed_on() {
    let mut config = config();
    config.index_sleep_time = 0;
    let mut registry = ChannelRegistry::new();
    let mut scheduler = enroll(&mut registry, &config, "c").unwrap();
    scheduler.step(&mut registry, SchedulerEvent::Wake).unwrap();
    let action = scheduler.step(&mut registry, SchedulerEvent::PassEnded(PassResult::Succeeded));
    assert_eq!(action, Ok(SchedulerAction::Sleep(0)));
}
