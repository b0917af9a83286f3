use arenabuddy::collector::LogCollector;
use arenabuddy::events::AnnotationType;

#[test]
fn test_log_collector() {
    let mut collector = LogCollector::new();
    collector.ingest("test log 1".to_string());
    collector.ingest("test log 2".to_string());

    let logs = collector.get();
    assert_eq!(logs.len(), 2);
    assert_eq!(logs[0], "test log 1");
    assert_eq!(logs[1], "test log 2");
}

#[test]
fn test_empty_collector() {
    let collector = LogCollector::new();
    assert_eq!(collector.get().len(), 0);
}

#[test]
fn test_annotation_type() {
    let annotation_type_strings = [
        "AnnotationType_ResolutionStart",
        "AnnotationType_ResolutionComplete",
        "AnnotationType_CardRevealed",
    ];
    for name in annotation_type_strings {
        assert!(
            AnnotationType::from_name(name).is_some(),
            "valid annotation type"
        );
    }
}
