use paddown::watch::{
    change_notice, create_failure, forward_event, open_watcher, watch_failure, WatchError,
    WatchRegistry,
};
use std::sync::mpsc::channel;

#[test]
fn a_new_registry_watches_nothing() {
    let registry = WatchRegistry::new();
    assert_eq!(registry.len(), 0);
    assert!(!registry.is_watching("/tmp"));
}

#[test]
fn stopping_a_path_that_was_never_watched_changes_nothing() {
    let mut registry = WatchRegistry::new();
    assert!(registry.stop_watching("/tmp").is_ok());
    assert_eq!(registry.len(), 0);
    assert!(!registry.is_watching("/tmp"));
}

#[test]
fn starting_twice_leaves_one_registration() {
    let (sink, _events) = channel::<String>();
    let mut registry = WatchRegistry::new();
    assert!(registry.start_watching("/tmp", &sink).is_ok());
    assert!(registry.is_watching("/tmp"));
    assert_eq!(registry.len(), 1);
    assert!(registry.start_watching("/tmp", &sink).is_ok());
    assert!(registry.is_watching("/tmp"));
    assert_eq!(registry.len(), 1);
}

#[test]
fn stopping_removes_the_registration() {
    let (sink, _events) = channel::<String>();
    let mut registry = WatchRegistry::new();
    registry.start_watching("/tmp", &sink).unwrap();
    registry.start_watching("/var/tmp", &sink).unwrap();
    assert_eq!(registry.len(), 2);
    assert!(registry.stop_watching("/tmp").is_ok());
    assert!(!registry.is_watching("/tmp"));
    assert!(registry.is_watching("/var/tmp"));
    assert_eq!(registry.len(), 1);
    assert!(registry.stop_watching("/tmp").is_ok());
    assert_eq!(registry.len(), 1);
    registry.start_watching("/tmp", &sink).unwrap();
    assert_eq!(registry.len(), 2);
}

#[test]
fn a_path_that_does_not_exist_cannot_be_watched() {
    let (sink, _events) = channel::<String>();
    let mut registry = WatchRegistry::new();
    let missing = "/no/such/directory/anywhere";
    match registry.start_watching(missing, &sink) {
        Err(WatchError::CreateFailed(message)) => {
            assert!(message.starts_with("Failed to watch /no/such/directory/anywhere: "), "{}", message);
        }
        Ok(()) => panic!("watching a missing path"),
    }
    assert_eq!(registry.len(), 0);
    assert!(!registry.is_watching(missing));
    assert!(open_watcher(missing, &sink).is_err());
}

#[test]
fn registering_a_watched_path_again_changes_nothing() {
    let (sink, _events) = channel::<String>();
    let mut registry = WatchRegistry::new();
    let first = open_watcher("/tmp", &sink).unwrap();
    let second = open_watcher("/tmp", &sink).unwrap();
    assert!(registry.register("/tmp".to_string(), first));
    assert!(!registry.register("/tmp".to_string(), second));
    assert_eq!(registry.len(), 1);
}

#[test]
fn stop_all_empties_the_registry() {
    let (sink, _events) = channel::<String>();
    let mut registry = WatchRegistry::new();
    registry.start_watching("/tmp", &sink).unwrap();
    registry.start_watching("/var/tmp", &sink).unwrap();
    registry.stop_all();
    assert_eq!(registry.len(), 0);
    assert!(!registry.is_watching("/tmp"));
}

#[test]
fn an_event_gives_the_watched_root() {
    assert_eq!(change_notice(true, "/watched/root"), Some("/watched/root".to_string()));
    assert_eq!(change_notice(false, "/watched/root"), None);
}

#[test]
fn an_event_is_forwarded_once_and_an_error_not_at_all() {
    let (sink, events) = channel::<String>();
    assert!(forward_event(true, "/watched/root", &sink));
    assert!(!forward_event(false, "/watched/root", &sink));
    assert!(forward_event(true, "/other", &sink));
    assert_eq!(events.try_recv().unwrap(), "/watched/root");
    assert_eq!(events.try_recv().unwrap(), "/other");
    assert!(events.try_recv().is_err());
}

#[test]
fn forwarding_to_a_closed_sink_does_not_block() {
    let (sink, events) = channel::<String>();
    drop(events);
    assert!(forward_event(true, "/watched/root", &sink));
    assert!(!forward_event(false, "/watched/root", &sink));
}

#[test]
fn failures_say_at_which_step() {
    assert_eq!(create_failure("no more watches").message(), "Failed to create watcher: no more watches");
    assert_eq!(
        watch_failure("/a/b", "No such file or directory").message(),
        "Failed to watch /a/b: No such file or directory"
    );
}
