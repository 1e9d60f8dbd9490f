use forge_display::metrics::FileChangeMetrics;
use forge_display::metrics::Metrics;
use forge_display::metrics::SessionSummary;

#[test]
fn test_file_change_metrics_new() {
    let fixture = FileChangeMetrics::new();
    let actual = fixture;
    let expected = FileChangeMetrics { lines_added: 0, lines_removed: 0, operations_count: 0 };
    assert_eq!(actual.lines_added, expected.lines_added);
    assert_eq!(actual.lines_removed, expected.lines_removed);
    assert_eq!(actual.operations_count, expected.operations_count);
}

#[test]
fn test_file_change_metrics_add_operation() {
    let mut fixture = FileChangeMetrics::new();
    fixture.add_operation(10, 5);
    fixture.add_operation(3, 2);

    let actual = fixture;
    let expected = FileChangeMetrics { lines_added: 13, lines_removed: 7, operations_count: 2 };
    assert_eq!(actual.lines_added, expected.lines_added);
    assert_eq!(actual.lines_removed, expected.lines_removed);
    assert_eq!(actual.operations_count, expected.operations_count);
}

#[test]
fn test_file_change_metrics_net_change() {
    let mut fixture = FileChangeMetrics::new();
    fixture.add_operation(10, 5);

    let actual = fixture.net_change();
    let expected = 5;
    assert_eq!(actual, expected);
}

#[test]
fn test_metrics_new() {
    let fixture = Metrics::new();
    let actual = fixture;

    assert_eq!(actual.files_changed.len(), 0);
    assert_eq!(actual.total_lines_added, 0);
    assert_eq!(actual.total_lines_removed, 0);
    assert_eq!(actual.operations_count, 0);
}

#[test]
fn test_metrics_record_file_operation() {
    let mut fixture = Metrics::new();
    fixture.record_file_operation("file1.rs".to_string(), 10, 5);
    fixture.record_file_operation("file2.rs".to_string(), 3, 2);
    fixture.record_file_operation("file1.rs".to_string(), 5, 1);

    let actual = fixture;

    assert_eq!(actual.files_changed_count(), 2);
    assert_eq!(actual.total_lines_added, 18);
    assert_eq!(actual.total_lines_removed, 8);
    assert_eq!(actual.operations_count, 3);

    let file1_metrics = &actual
        .files_changed
        .iter()
        .find(|e| e.0 == "file1.rs")
        .unwrap()
        .1;
    assert_eq!(file1_metrics.lines_added, 15);
    assert_eq!(file1_metrics.lines_removed, 6);
    assert_eq!(file1_metrics.operations_count, 2);
}

#[test]
fn test_metrics_net_change() {
    let mut fixture = Metrics::new();
    fixture.record_file_operation("file1.rs".to_string(), 10, 5);

    let actual = fixture.net_change();
    let expected = 5;
    assert_eq!(actual, expected);
}

#[test]
fn test_session_summary_from_metrics() {
    let mut fixture = Metrics::new();
    fixture.start();
    fixture.record_file_operation("file1.rs".to_string(), 247, 89);
    fixture.record_file_operation("file2.rs".to_string(), 50, 20);

    let actual = SessionSummary::from_metrics(&fixture);

    assert_eq!(actual.files_changed, 2);
    assert_eq!(actual.lines_added, 297);
    assert_eq!(actual.lines_removed, 109);
    assert_eq!(actual.net_change, 188);
    assert_eq!(actual.operations, 2);
}

#[test]
fn test_session_summary_display() {
    let fixture = SessionSummary {
        duration: "15m 32s".to_string(),
        files_changed: 8,
        lines_added: 247,
        lines_removed: 89,
        net_change: 158,
        operations: 23,
    };

    let actual = fixture.summary_text();
    let expected = "SESSION SUMMARY\nDuration: 15m 32s\nFiles Changed: 8\nLines Added: 247\nLines Removed: 89\nNet Change: +158 lines\nOperations: 23\n";
    assert_eq!(actual, expected);
}

#[test]
fn test_session_summary_display_negative_net_change() {
    let fixture = SessionSummary {
        duration: "5m 10s".to_string(),
        files_changed: 3,
        lines_added: 50,
        lines_removed: 75,
        net_change: -25,
        operations: 5,
    };

    let actual = fixture.summary_text();
    let expected = "SESSION SUMMARY\nDuration: 5m 10s\nFiles Changed: 3\nLines Added: 50\nLines Removed: 75\nNet Change: -25 lines\nOperations: 5\n";
    assert_eq!(actual, expected);
}

#[test]
fn test_metrics_reset() {
    let mut fixture = Metrics::new();
    fixture.start();
    fixture.record_file_operation("f".to_string(), 1, 2);
    fixture.reset();
    assert_eq!(fixture.files_changed_count(), 0);
    assert_eq!(fixture.operations_count, 0);
    assert!(fixture.started_at.is_none());
}

#[test]
fn test_metrics_duration_tracks_start() {
    let mut fixture = Metrics::new();
    assert!(fixture.duration_millis().is_none());
    fixture.start();
    assert!(fixture.duration_millis().is_some());
}
