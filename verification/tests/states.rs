use cert_monitor::clock::Timestamp;
use cert_monitor::state::StateManager;
use cert_monitor::types::{AlertLevel, AppState, DomainState, RenewalHistory};

fn at(secs: i64) -> Timestamp {
    Timestamp::from_parts(secs, 0).unwrap()
}

fn renewal(n: i64) -> RenewalHistory {
    RenewalHistory {
        timestamp: at(n),
        success: n % 2 == 0,
        message: format!("attempt {}", n),
        new_fingerprint: None,
    }
}

#[test]
fn unknown_domains_are_blank() {
    let manager = StateManager::new(None);
    let state = manager.get_domain_state("example.com");
    assert_eq!(state.last_scan, None);
    assert_eq!(state.last_renew, None);
    assert_eq!(state.current_fingerprint, None);
    assert!(state.renewal_history.is_empty());
    assert_eq!(manager.state().domains.len(), 0);
}

#[test]
fn what_was_remembered_of_a_domain_is_read_back() {
    let mut manager = StateManager::new(None);
    manager.update_scan_time_at("a.com", at(10));
    manager.update_renew_time_at("a.com", at(20));
    manager.update_fingerprint("a.com", "aa:bb".to_string());
    manager.update_fingerprint("b.com", "cc".to_string());
    manager.update_scan_time_at("a.com", at(30));
    let a = manager.get_domain_state("a.com");
    assert_eq!(a.last_scan, Some(at(30)));
    assert_eq!(a.last_renew, Some(at(20)));
    assert_eq!(a.current_fingerprint.as_deref(), Some("aa:bb"));
    let b = manager.get_domain_state("b.com");
    assert_eq!(b.last_scan, None);
    assert_eq!(b.current_fingerprint.as_deref(), Some("cc"));
    assert_eq!(manager.state().domains.len(), 2);
    assert_eq!(manager.state().domains.name_at(0), "a.com");
    assert_eq!(manager.state().domains.name_at(1), "b.com");
    assert_eq!(manager.state().domains.state_at(1).current_fingerprint.as_deref(), Some("cc"));
}

#[test]
fn the_present_is_remembered() {
    let mut manager = StateManager::new(None);
    let before = Timestamp::now().seconds();
    manager.update_scan_time("a.com");
    manager.update_renew_time("a.com");
    manager.update_notification_time("a.com", AlertLevel::Info);
    let saved = manager.save().updated_at.seconds();
    let after = Timestamp::now().seconds();
    let a = manager.get_domain_state("a.com");
    for secs in [
        a.last_scan.unwrap().seconds(),
        a.last_renew.unwrap().seconds(),
        a.last_notifications.get(AlertLevel::Info).unwrap().seconds(),
        saved,
    ] {
        assert!(before <= secs && secs <= after);
    }
}

#[test]
fn states_are_changed_in_place() {
    let mut manager = StateManager::new(None);
    {
        let state: &mut DomainState = manager.get_domain_state_mut("a.com");
        assert_eq!(state.last_scan, None);
        state.last_scan = Some(at(7));
    }
    manager.get_domain_state_mut("b.com");
    manager.get_domain_state_mut("a.com").last_renew = Some(at(8));
    let a = manager.get_domain_state("a.com");
    assert_eq!(a.last_scan, Some(at(7)));
    assert_eq!(a.last_renew, Some(at(8)));
    assert_eq!(manager.state().domains.len(), 2);
}

#[test]
fn only_the_last_five_attempts_are_kept() {
    let mut manager = StateManager::new(None);
    for n in 1..=7 {
        manager.add_renewal_history("a.com", renewal(n));
        let history = manager.get_domain_state("a.com").renewal_history;
        assert_eq!(history.len(), std::cmp::min(n as usize, 5));
        assert_eq!(history.last().unwrap().message, format!("attempt {}", n));
    }
    let messages: Vec<String> = manager
        .get_domain_state("a.com")
        .renewal_history
        .iter()
        .map(|h| h.message.clone())
        .collect();
    assert_eq!(messages, vec!["attempt 3", "attempt 4", "attempt 5", "attempt 6", "attempt 7"]);
}

#[test]
fn alerts_wait_for_the_debounce_time() {
    let mut manager = StateManager::new(None);
    let level = AlertLevel::Warning;
    assert!(manager.should_send_notification("a.com", &level, 24));
    assert!(manager.should_send_notification_at("a.com", &level, 24, at(0)));
    manager.update_notification_time_at("a.com", level, at(1000));
    assert!(!manager.should_send_notification_at("a.com", &level, 24, at(1000)));
    assert!(!manager.should_send_notification_at("a.com", &level, 24, at(1000 + 24 * 3600 - 1)));
    assert!(manager.should_send_notification_at("a.com", &level, 24, at(1000 + 24 * 3600)));
    assert!(manager.should_send_notification_at("a.com", &level, 0, at(1000)));
    assert!(manager.should_send_notification_at("a.com", &AlertLevel::Critical, 24, at(1000)));
    assert!(manager.should_send_notification_at("b.com", &level, 24, at(1000)));
    manager.update_notification_time("a.com", level);
    assert!(!manager.should_send_notification("a.com", &level, 24));
}

#[test]
fn loaded_states_are_kept_and_copies_are_independent() {
    let mut state = AppState::default();
    state.domains.get_or_add("x.com").last_scan = Some(at(5));
    let mut manager = StateManager::new(Some(state));
    let copy = manager.clone();
    manager.update_scan_time_at("x.com", at(6));
    manager.save_at(at(99));
    assert_eq!(manager.state().updated_at, at(99));
    assert_eq!(manager.get_domain_state("x.com").last_scan, Some(at(6)));
    assert_eq!(copy.get_domain_state("x.com").last_scan, Some(at(5)));
    assert_ne!(copy.state().updated_at, at(99));
    assert!(manager.state().domains.get("y.com").is_none());
}
