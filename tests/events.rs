use kore_vault::events::{filter_deployment_events, filter_statefulset_events, EventRecord, EventTime};

fn at(ts: &str) -> EventTime {
    let t: k8s_openapi::jiff::Timestamp = ts.parse().unwrap();
    EventTime { seconds: t.as_second(), nanos: t.subsec_nanosecond() as u32, text: t.to_string() }
}

#[allow(clippy::too_many_arguments)]
fn create_mock_event(
    name: &str,
    kind: &str,
    uid: Option<&str>,
    event_type: &str,
    reason: &str,
    message: &str,
    count: i32,
    last_timestamp: Option<&str>,
) -> EventRecord {
    EventRecord {
        involved_name: Some(name.to_string()),
        involved_kind: Some(kind.to_string()),
        involved_uid: uid.map(|s| s.to_string()),
        event_type: Some(event_type.to_string()),
        reason: Some(reason.to_string()),
        message: Some(message.to_string()),
        count: Some(count),
        first_timestamp: last_timestamp.map(at),
        last_timestamp: last_timestamp.map(at),
        source_component: Some("deployment-controller".to_string()),
    }
}

fn mine(event_type: &str, reason: &str, message: &str, count: i32, ts: &str) -> EventRecord {
    create_mock_event("my-deployment", "Deployment", Some("uid-123"), event_type, reason, message, count, Some(ts))
}

#[test]
fn test_filter_deployment_events_with_multiple_events() {
    let events = vec![
        mine("Normal", "ScalingReplicaSet", "Scaled up replica set my-deployment-abc to 3", 1, "2024-01-01T02:00:00Z"),
        mine("Warning", "FailedCreate", "Error creating pods", 2, "2024-01-01T01:00:00Z"),
        mine("Normal", "ScalingReplicaSet", "Scaled down replica set my-deployment-xyz to 0", 1, "2024-01-01T03:00:00Z"),
    ];

    let result = filter_deployment_events(events, "my-deployment", Some("uid-123"));

    assert_eq!(result.len(), 3);
    assert_eq!(result[0].reason, "ScalingReplicaSet");
    assert!(result[0].message.contains("Scaled down"));
    assert_eq!(result[1].reason, "ScalingReplicaSet");
    assert!(result[1].message.contains("Scaled up"));
    assert_eq!(result[2].reason, "FailedCreate");
}

#[test]
fn test_filter_deployment_events_with_no_events() {
    let events: Vec<EventRecord> = vec![];
    let result = filter_deployment_events(events, "my-deployment", Some("uid-123"));
    assert_eq!(result.len(), 0);
}

#[test]
fn test_filter_deployment_events_filters_by_involved_object() {
    let events = vec![
        mine("Normal", "ScalingReplicaSet", "Scaled up", 1, "2024-01-01T01:00:00Z"),
        create_mock_event("other-deployment", "Deployment", Some("uid-456"), "Normal", "ScalingReplicaSet", "Other scaled up", 1, Some("2024-01-01T02:00:00Z")),
        create_mock_event("my-deployment-pod-abc", "Pod", Some("uid-789"), "Normal", "Scheduled", "Successfully assigned", 1, Some("2024-01-01T03:00:00Z")),
        create_mock_event("my-deployment-rs-abc", "ReplicaSet", Some("uid-101"), "Normal", "SuccessfulCreate", "Created pod", 1, Some("2024-01-01T04:00:00Z")),
    ];

    let result = filter_deployment_events(events, "my-deployment", Some("uid-123"));

    assert_eq!(result.len(), 1);
    assert_eq!(result[0].message, "Scaled up");
}

#[test]
fn test_filter_deployment_events_handles_event_types() {
    let events = vec![
        mine("Normal", "ScalingReplicaSet", "Scaled up", 1, "2024-01-01T01:00:00Z"),
        mine("Warning", "FailedCreate", "Error creating", 5, "2024-01-01T02:00:00Z"),
    ];

    let result = filter_deployment_events(events, "my-deployment", Some("uid-123"));

    assert_eq!(result.len(), 2);
    let warning_event = result.iter().find(|e| e.event_type == "Warning").unwrap();
    assert_eq!(warning_event.reason, "FailedCreate");
    assert_eq!(warning_event.count, 5);
    let normal_event = result.iter().find(|e| e.event_type == "Normal").unwrap();
    assert_eq!(normal_event.reason, "ScalingReplicaSet");
    assert_eq!(normal_event.count, 1);
}

#[test]
fn test_filter_deployment_events_timestamp_sorting() {
    let events = vec![
        mine("Normal", "Event1", "First event", 1, "2024-01-01T01:00:00Z"),
        mine("Normal", "Event3", "Third event (newest)", 1, "2024-01-01T03:00:00Z"),
        mine("Normal", "Event2", "Second event", 1, "2024-01-01T02:00:00Z"),
    ];

    let result = filter_deployment_events(events, "my-deployment", Some("uid-123"));

    assert_eq!(result.len(), 3);
    assert_eq!(result[0].reason, "Event3");
    assert_eq!(result[1].reason, "Event2");
    assert_eq!(result[2].reason, "Event1");
}

#[test]
fn test_filter_deployment_events_without_uid_filter() {
    let events = vec![
        mine("Normal", "ScalingReplicaSet", "Event 1", 1, "2024-01-01T01:00:00Z"),
        create_mock_event("my-deployment", "Deployment", Some("uid-456"), "Normal", "ScalingReplicaSet", "Event 2", 1, Some("2024-01-01T02:00:00Z")),
    ];

    let result = filter_deployment_events(events, "my-deployment", None);

    assert_eq!(result.len(), 2);
}

#[test]
fn test_filter_deployment_events_handles_missing_fields() {
    let event = EventRecord {
        involved_name: Some("my-deployment".to_string()),
        involved_kind: Some("Deployment".to_string()),
        involved_uid: Some("uid-123".to_string()),
        event_type: None,
        reason: None,
        message: None,
        count: None,
        first_timestamp: None,
        last_timestamp: None,
        source_component: None,
    };

    let result = filter_deployment_events(vec![event], "my-deployment", Some("uid-123"));

    assert_eq!(result.len(), 1);
    assert_eq!(result[0].event_type, "Normal");
    assert_eq!(result[0].reason, "");
    assert_eq!(result[0].message, "");
    assert_eq!(result[0].count, 1);
    assert_eq!(result[0].source, "unknown");
    assert!(result[0].first_timestamp.is_none());
    assert!(result[0].last_timestamp.is_none());
}

#[test]
fn equal_times_keep_their_order_and_untimed_events_come_last() {
    let events = vec![
        mine("Normal", "A", "a", 1, "2024-01-01T01:00:00Z"),
        create_mock_event("my-deployment", "Deployment", Some("uid-123"), "Normal", "U", "untimed", 1, None),
        mine("Normal", "B", "b", 1, "2024-01-01T01:00:00Z"),
        mine("Normal", "C", "c", 1, "2024-01-01T01:00:00.500Z"),
    ];
    let result = filter_deployment_events(events, "my-deployment", None);
    let reasons: Vec<&str> = result.iter().map(|e| e.reason.as_str()).collect();
    assert_eq!(reasons, vec!["C", "A", "B", "U"]);
    assert_eq!(result[0].last_timestamp.as_deref(), Some("2024-01-01T01:00:00.5Z"));
}

#[test]
fn statefulset_uid_filter_admits_events_without_uid() {
    let ev = |uid: Option<&str>, msg: &str, ts: &str| {
        create_mock_event("web", "StatefulSet", uid, "Normal", "SuccessfulCreate", msg, 1, Some(ts))
    };
    let events = vec![
        ev(Some("uid-1"), "mine", "2024-01-01T01:00:00Z"),
        ev(None, "no uid", "2024-01-01T02:00:00Z"),
        ev(Some("uid-2"), "other", "2024-01-01T03:00:00Z"),
        create_mock_event("web", "Deployment", Some("uid-1"), "Normal", "X", "wrong kind", 1, None),
    ];
    let result = filter_statefulset_events(events, "web", Some("uid-1"));
    let messages: Vec<&str> = result.iter().map(|e| e.message.as_str()).collect();
    assert_eq!(messages, vec!["no uid", "mine"]);

    let strict = filter_deployment_events(
        vec![create_mock_event("web", "Deployment", None, "Normal", "X", "no uid", 1, None)],
        "web",
        Some("uid-1"),
    );
    assert!(strict.is_empty());
}
