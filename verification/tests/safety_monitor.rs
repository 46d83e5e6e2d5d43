use aios::clock::Timestamp;
use aios::safety::{ActionRecord, Anomaly, SafetyMonitor};

fn make_action(tool_id: &str, capabilities: Vec<&str>) -> ActionRecord {
    ActionRecord {
        tool_id: tool_id.to_string(),
        timestamp: Timestamp::now(),
        origin: "user".to_string(),
        capabilities_used: capabilities.into_iter().map(String::from).collect(),
    }
}

fn action_at(tool_id: &str, secs: i64) -> ActionRecord {
    ActionRecord {
        tool_id: tool_id.to_string(),
        timestamp: Timestamp { secs, nanos: 0 },
        origin: "agent".to_string(),
        capabilities_used: vec![],
    }
}

#[test]
fn test_loop_detection() {
    let mut monitor = SafetyMonitor::new();

    for _ in 0..5 {
        monitor.record_and_check(make_action("system.files.read", vec!["files.read"]));
    }

    let anomalies = monitor.record_and_check(make_action("system.files.read", vec!["files.read"]));
    assert!(anomalies.iter().any(|a| matches!(a, Anomaly::LoopDetected { .. })));
}

#[test]
fn test_no_false_positive_for_different_tools() {
    let mut monitor = SafetyMonitor::new();

    monitor.record_and_check(make_action("tool.a", vec![]));
    monitor.record_and_check(make_action("tool.b", vec![]));
    monitor.record_and_check(make_action("tool.c", vec![]));

    let anomalies = monitor.record_and_check(make_action("tool.d", vec![]));
    assert!(anomalies.is_empty());
}

#[test]
fn test_exfiltration_detection() {
    let mut monitor = SafetyMonitor::new();

    monitor.record_and_check(make_action("system.contacts.read", vec!["contacts.list.read"]));

    let anomalies = monitor.record_and_check(
        make_action("system.messages.send", vec!["messages.sms.send"])
    );
    assert!(anomalies.iter().any(|a| matches!(a, Anomaly::PossibleExfiltration { .. })));
}

#[test]
fn test_kill_switch() {
    let mut monitor = SafetyMonitor::new();
    monitor.record_and_check(make_action("test", vec![]));
    assert!(monitor.kill_switch());
}

#[test]
fn loop_reports_six_calls() {
    let mut monitor = SafetyMonitor::default();
    let now = Timestamp { secs: 1_000_000, nanos: 0 };
    for _ in 0..5 {
        assert!(monitor.record_and_check_at(action_at("tool.x", 0), now).is_empty());
    }
    let anomalies = monitor.record_and_check_at(action_at("tool.x", 0), now);
    assert_eq!(anomalies.len(), 1);
    match &anomalies[0] {
        Anomaly::LoopDetected { tool_id, count } => {
            assert_eq!(tool_id, "tool.x");
            assert_eq!(*count, 6);
        }
        other => panic!("unexpected anomaly {:?}", other),
    }
}

#[test]
fn four_repeats_are_no_loop() {
    let mut monitor = SafetyMonitor::new();
    let now = Timestamp { secs: 1_000_000, nanos: 0 };
    monitor.record_and_check_at(action_at("tool.y", 0), now);
    for _ in 0..4 {
        monitor.record_and_check_at(action_at("tool.x", 0), now);
    }
    assert!(monitor.record_and_check_at(action_at("tool.x", 0), now).is_empty());
}

#[test]
fn thirty_recent_actions_are_excessive() {
    let mut monitor = SafetyMonitor::new();
    let now = Timestamp { secs: 1_000, nanos: 500 };
    for i in 0..30 {
        let tool = format!("tool.{}", i);
        assert!(monitor.record_and_check_at(action_at(&tool, 990), now).is_empty());
    }
    let anomalies = monitor.record_and_check_at(action_at("tool.last", 1_000), now);
    assert_eq!(anomalies.len(), 1);
    match &anomalies[0] {
        Anomaly::ExcessiveActions { count, window_seconds } => {
            assert_eq!(*count, 31);
            assert_eq!(*window_seconds, 60);
        }
        other => panic!("unexpected anomaly {:?}", other),
    }
}

#[test]
fn old_actions_do_not_count_as_recent() {
    let mut monitor = SafetyMonitor::new();
    let now = Timestamp { secs: 1_000, nanos: 500 };
    // Exactly one minute before `now` is not within the window.
    for i in 0..30 {
        let tool = format!("tool.{}", i);
        let mut a = action_at(&tool, 940);
        a.timestamp.nanos = 500;
        monitor.record_and_check_at(a, now);
    }
    assert!(monitor.record_and_check_at(action_at("tool.last", 1_000), now).is_empty());
}

#[test]
fn exfiltration_pairs_newest_read_first() {
    let mut monitor = SafetyMonitor::new();
    let now = Timestamp { secs: 5_000, nanos: 0 };
    let mut a = action_at("system.contacts.read", 4_990);
    a.capabilities_used = vec!["contacts.list.read".to_string(), "device.info".to_string()];
    monitor.record_and_check_at(a, now);
    let mut b = action_at("system.files.read", 4_995);
    b.capabilities_used = vec!["files.user_documents.read".to_string()];
    monitor.record_and_check_at(b, now);
    let mut send = action_at("system.messages.send", 5_000);
    send.capabilities_used = vec!["messages.sms.send".to_string(), "network.http.post".to_string()];
    let anomalies = monitor.record_and_check_at(send, now);
    let pairs: Vec<(String, String)> = anomalies
        .iter()
        .map(|a| match a {
            Anomaly::PossibleExfiltration { source_capability, destination_capability } => {
                (source_capability.clone(), destination_capability.clone())
            }
            other => panic!("unexpected anomaly {:?}", other),
        })
        .collect();
    assert_eq!(
        pairs,
        vec![
            ("files.user_documents.read".to_string(), "messages.sms.send".to_string()),
            ("files.user_documents.read".to_string(), "network.http.post".to_string()),
            ("contacts.list.read".to_string(), "messages.sms.send".to_string()),
            ("contacts.list.read".to_string(), "network.http.post".to_string()),
        ]
    );
}

#[test]
fn reads_older_than_five_actions_are_not_paired() {
    let mut monitor = SafetyMonitor::new();
    let now = Timestamp { secs: 5_000, nanos: 0 };
    let mut a = action_at("system.contacts.read", 4_900);
    a.capabilities_used = vec!["contacts.list.read".to_string()];
    monitor.record_and_check_at(a, now);
    for i in 0..5 {
        monitor.record_and_check_at(action_at(&format!("tool.{}", i), 4_900), now);
    }
    let mut send = action_at("system.messages.send", 5_000);
    send.capabilities_used = vec!["messages.sms.send".to_string()];
    assert!(monitor.record_and_check_at(send, now).is_empty());
}

#[test]
fn kill_switch_forgets_the_loop() {
    let mut monitor = SafetyMonitor::new();
    let now = Timestamp { secs: 100, nanos: 0 };
    for _ in 0..5 {
        monitor.record_and_check_at(action_at("tool.x", 0), now);
    }
    assert!(monitor.kill_switch());
    assert!(monitor.record_and_check_at(action_at("tool.x", 0), now).is_empty());
}

#[test]
fn history_is_bounded() {
    let mut monitor = SafetyMonitor::new();
    let now = Timestamp { secs: 1_000_000, nanos: 0 };
    for i in 0..1005 {
        monitor.record_and_check_at(action_at(&format!("tool.{}", i), 0), now);
    }
    // The oldest actions were dropped: five more of the latest tool make a loop
    // only through the ones still held.
    for _ in 0..5 {
        monitor.record_and_check_at(action_at("tool.1004", 0), now);
    }
    let anomalies = monitor.record_and_check_at(action_at("tool.1004", 0), now);
    assert!(anomalies.iter().any(|a| matches!(a, Anomaly::LoopDetected { count: 6, .. })));
}

#[test]
fn clock_readings_are_after_the_epoch() {
    let t = Timestamp::now();
    assert!(t.secs > 1_600_000_000);
    assert!(t.nanos < 1_000_000_000);
    assert!(t.is_after(&Timestamp { secs: 0, nanos: 0 }));
}
