use file_organizer::watcher::{
    should_reorganize, watch_step, WatchAction, WatchEvent, WatchSignal,
};

#[test]
fn creation_and_data_changes_trigger_a_pass() {
    assert!(should_reorganize(&WatchEvent::Created));
    assert!(should_reorganize(&WatchEvent::DataModified));
}

#[test]
fn other_notifications_are_ignored() {
    assert!(!should_reorganize(&WatchEvent::MetadataModified));
    assert!(!should_reorganize(&WatchEvent::Removed));
    assert!(!should_reorganize(&WatchEvent::Other));
}

#[test]
fn one_relevant_notification_means_one_reorganize_action() {
    assert_eq!(
        watch_step(&WatchSignal::Notification(WatchEvent::Created)),
        WatchAction::Reorganize
    );
    assert_eq!(
        watch_step(&WatchSignal::Notification(WatchEvent::DataModified)),
        WatchAction::Reorganize
    );
    assert_eq!(
        watch_step(&WatchSignal::Notification(WatchEvent::Removed)),
        WatchAction::Ignore
    );
    assert_eq!(
        watch_step(&WatchSignal::Notification(WatchEvent::MetadataModified)),
        WatchAction::Ignore
    );
}

#[test]
fn a_failing_stream_stops_the_loop() {
    assert_eq!(watch_step(&WatchSignal::StreamError), WatchAction::Stop);
}
