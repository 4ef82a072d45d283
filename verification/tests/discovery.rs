use battmon::discovery::{should_connect, DiscoveryAction, DiscoveryEvent, Registry};
use battmon::options::{Args, Config};

fn args(id: Option<&str>, name: Option<&str>) -> Args {
    Args {
        logs: None,
        peripheral_id: id.map(|s| s.to_string()),
        peripheral_name: name.map(|s| s.to_string()),
        interval: 3,
    }
}

#[test]
fn registry_tracks_each_device_once() {
    let mut registry = Registry::new();
    let (action, done) = registry.handle_event(&DiscoveryEvent::Discovered { id: 7 });
    assert_eq!(action, DiscoveryAction::AnnounceDiscovered);
    assert!(!done);
    let (action, _) = registry.handle_event(&DiscoveryEvent::Discovered { id: 7 });
    assert_eq!(action, DiscoveryAction::Ignore);
    let (action, _) = registry.handle_event(&DiscoveryEvent::Updated { id: 9 });
    assert_eq!(action, DiscoveryAction::AnnounceDiscovered);
    assert_eq!(registry.len(), 2);
    assert_eq!(registry.id_at(0), 7);
    assert_eq!(registry.id_at(1), 9);
}

#[test]
fn connection_announces_and_ends_the_search() {
    let mut registry = Registry::new();
    registry.handle_event(&DiscoveryEvent::Discovered { id: 1 });
    registry.handle_event(&DiscoveryEvent::Discovered { id: 2 });
    let (action, done) = registry.handle_event(&DiscoveryEvent::Connected { id: 1 });
    assert_eq!(action, DiscoveryAction::AnnounceConnected);
    assert!(done);
    assert_eq!(registry.len(), 1);
    assert!(!registry.contains(1));
    assert!(registry.contains(2));
}

#[test]
fn disconnection_drops_the_device_quietly() {
    let mut registry = Registry::new();
    registry.handle_event(&DiscoveryEvent::Discovered { id: 4 });
    let (action, done) = registry.handle_event(&DiscoveryEvent::Disconnected { id: 4 });
    assert_eq!(action, DiscoveryAction::Ignore);
    assert!(!done);
    assert_eq!(registry.len(), 0);
}

#[test]
fn advertisements_change_nothing() {
    let mut registry = Registry::new();
    registry.handle_event(&DiscoveryEvent::Discovered { id: 4 });
    let (action, done) = registry.handle_event(&DiscoveryEvent::Advertisement);
    assert_eq!(action, DiscoveryAction::Ignore);
    assert!(!done);
    assert_eq!(registry.len(), 1);
}

#[test]
fn pinned_id_must_match() {
    let options = args(Some("aa:bb"), Some("ignored"));
    assert!(should_connect(&options, &"aa:bb".to_string(), None, false));
    assert!(!should_connect(
        &options,
        &"cc:dd".to_string(),
        Some(&"ignored".to_string()),
        false
    ));
}

#[test]
fn pinned_name_must_match_when_no_id_is_pinned() {
    let options = args(None, Some("battery"));
    assert!(should_connect(
        &options,
        &"any".to_string(),
        Some(&"battery".to_string()),
        false
    ));
    assert!(!should_connect(
        &options,
        &"any".to_string(),
        Some(&"other".to_string()),
        false
    ));
    // An absent advertised name counts as empty.
    assert!(!should_connect(&options, &"any".to_string(), None, false));
    let empty_target = args(None, Some(""));
    assert!(should_connect(&empty_target, &"any".to_string(), None, false));
}

#[test]
fn first_discovered_device_is_taken_once() {
    let options = args(None, None);
    assert!(should_connect(&options, &"any".to_string(), None, false));
    assert!(!should_connect(&options, &"any".to_string(), None, true));
}

#[test]
fn config_carries_plain_preferences() {
    let config = Config {
        data_file_path: Some("bt-data.json".to_string()),
        default_adapter: None,
        default_peripheral: Some("battery".to_string()),
    };
    assert_eq!(config.data_file_path.as_deref(), Some("bt-data.json"));
    assert!(config.default_adapter.is_none());
}
