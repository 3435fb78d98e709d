use hydrofoil::svc::ingest::{
    batch_outcome, classify_event, convert_batch, convert_event, ConvertError, EventKind, EventShape,
};
use hydrofoil::svc::writer::{ensure_trailing_slash, FlushAction, FlushBuffer};
use hydrofoil::telemetry::{ConfigValue, Parse};

const RUN_JSON: &str = r#"{"eventType":"COMPLETE","eventTime":"2026-04-28T19:30:00.000Z",
    "producer":"p","run":{"runId":"r1"},
    "job":{"namespace":"ns","name":"j"},
    "inputs":[{"namespace":"in-ns","name":"in"}],
    "outputs":[{"namespace":"out-ns","name":"out"}]}"#;

#[test]
fn classifies_run_event() {
    assert!(matches!(convert_event(RUN_JSON), Ok((EventKind::Run, _))));
}

#[test]
fn classifies_job_event() {
    let s = r#"{"eventTime":"2026-04-28T19:30:00.000Z","producer":"p","job":{"namespace":"ns","name":"j"}}"#;
    assert!(matches!(convert_event(s), Ok((EventKind::Job, _))));
}

#[test]
fn classifies_dataset_event() {
    let s = r#"{"eventTime":"2026-04-28T19:30:00.000Z","producer":"p","dataset":{"namespace":"ds-ns","name":"ds"}}"#;
    assert!(matches!(convert_event(s), Ok((EventKind::Dataset, _))));
}

#[test]
fn run_takes_precedence_over_dataset_and_job() {
    let s = r#"{"eventTime":"2026-04-28T19:30:00.000Z","producer":"p",
        "run":{"runId":"r"},"job":{"namespace":"n","name":"j"},
        "dataset":{"namespace":"d","name":"d"}}"#;
    assert!(matches!(convert_event(s), Ok((EventKind::Run, _))));
}

#[test]
fn missing_event_time_is_rejected() {
    let s = r#"{"producer":"p","job":{"namespace":"n","name":"j"}}"#;
    assert!(matches!(convert_event(s), Err(ConvertError::MissingEventTime)));
}

#[test]
fn unclassifiable_is_rejected() {
    let s = r#"{"eventTime":"2026-04-28T19:30:00.000Z","producer":"p"}"#;
    assert!(matches!(convert_event(s), Err(ConvertError::Unclassifiable)));
    assert!(matches!(convert_event("[1,2]"), Err(ConvertError::Unclassifiable)));
}

#[test]
fn invalid_json_is_a_json_error() {
    match convert_event("{not json") {
        Err(ConvertError::Json(m)) => assert!(!m.is_empty()),
        other => panic!("expected a JSON error, got {other:?}"),
    }
    assert!(matches!(convert_batch("{\"a\":1}"), Err(ConvertError::Json(_))));
}

#[test]
fn preserves_raw_json() {
    match convert_event(RUN_JSON) {
        Ok((EventKind::Run, raw)) => assert!(raw.contains("\"runId\":\"r1\"")),
        _ => panic!("expected run event"),
    }
}

#[test]
fn batch_collects_per_element_failures() {
    let data = format!("[{RUN_JSON}, {{\"producer\":\"p\"}}]");
    let outcome = convert_batch(&data).unwrap();
    assert_eq!(outcome.received, 2);
    assert_eq!(outcome.events.len(), 1);
    assert_eq!(outcome.failures.len(), 1);
    assert_eq!(outcome.failures[0].index, 1);
    assert_eq!(outcome.failures[0].reason, "eventTime is required");
    // Each element is kept as it was written.
    assert_eq!(outcome.events[0].1, RUN_JSON);
}

#[test]
fn classify_event_reads_a_shape() {
    let s = EventShape {
        is_object: true,
        has_run: true,
        has_job: true,
        has_dataset: false,
        event_time: Some("2026-04-28T19:30:00.000Z".to_string()),
    };
    assert!(matches!(classify_event(&s), Ok(EventKind::Run)));
    let results = vec![classify_event(&s), Err(ConvertError::Unclassifiable)];
    let outcome = batch_outcome(results);
    assert_eq!(outcome.received, 2);
    assert_eq!(outcome.failures[0].index, 1);
}

#[test]
fn error_messages() {
    assert_eq!(ConvertError::Json("eof".to_string()).message(), "invalid JSON: eof");
    assert_eq!(
        ConvertError::Unclassifiable.message(),
        "unable to classify event: must contain run+job, job, or dataset fields"
    );
    assert_eq!(ConvertError::Encode("x".to_string()).message(), "failed to encode event: x");
}

fn flushed(a: FlushAction<u32>) -> Vec<u32> {
    match a {
        FlushAction::Idle => Vec::new(),
        FlushAction::Flush { events, .. } => events,
        FlushAction::Drain { events } => events,
    }
}

#[test]
fn flushes_when_buffer_size_reached() {
    let mut b: FlushBuffer<u32> = FlushBuffer::new(3);
    assert!(matches!(b.on_event(0), FlushAction::Idle));
    assert!(matches!(b.on_event(1), FlushAction::Idle));
    match b.on_event(2) {
        FlushAction::Flush { events, reset_interval } => {
            assert_eq!(events, vec![0, 1, 2]);
            assert!(reset_interval);
        }
        other => panic!("expected a flush, got {other:?}"),
    }
    assert_eq!(b.len(), 0);
}

#[test]
fn flushes_on_interval_below_buffer_size() {
    let mut b: FlushBuffer<u32> = FlushBuffer::new(100);
    b.on_event(0);
    b.on_event(1);
    assert_eq!(flushed(b.on_tick()), vec![0, 1]);
    assert!(matches!(b.on_tick(), FlushAction::Idle), "an empty buffer does not flush");
}

#[test]
fn drains_remaining_on_shutdown() {
    let mut b: FlushBuffer<u32> = FlushBuffer::new(100);
    b.on_event(0);
    b.on_event(1);
    match b.on_close() {
        FlushAction::Drain { events } => assert_eq!(events, vec![0, 1]),
        other => panic!("expected a drain, got {other:?}"),
    }
}

#[test]
fn trailing_slash_is_added_once() {
    assert_eq!(ensure_trailing_slash("s3://b/t"), "s3://b/t/");
    assert_eq!(ensure_trailing_slash("s3://b/t/"), "s3://b/t/");
    assert_eq!(ensure_trailing_slash(""), "/");
}

#[test]
fn bool_config_values_parse_case_insensitively() {
    assert_eq!(<bool as Parse>::parse("TRUE").unwrap(), true);
    assert_eq!(<bool as Parse>::parse("y").unwrap(), true);
    assert_eq!(<bool as Parse>::parse("Off").unwrap(), false);
    let e = <bool as Parse>::parse("maybe").unwrap_err();
    assert_eq!(e.message, "failed to parse \"maybe\" as boolean");
    assert_eq!(e.store, "Config");
}

#[test]
fn integer_config_values_parse_in_range() {
    assert_eq!(<u32 as Parse>::parse("+42").unwrap(), 42);
    assert_eq!(<u32 as Parse>::parse("4294967295").unwrap(), u32::MAX);
    assert!(<u32 as Parse>::parse("4294967296").is_err());
    assert!(<u32 as Parse>::parse("-1").is_err());
    assert!(<u32 as Parse>::parse("").is_err());
    assert!(<u32 as Parse>::parse("+").is_err());
    assert_eq!(<usize as Parse>::parse("007").unwrap(), 7);
    assert_eq!(
        <usize as Parse>::parse("1x").unwrap_err().message,
        "failed to parse \"1x\" as usize"
    );
}

#[test]
fn config_value_parses_on_use() {
    let mut v: ConfigValue<bool> = ConfigValue::Parsed(true);
    assert_eq!(v.get().unwrap(), true);
    v.parse("no".to_string());
    assert_eq!(v.get().unwrap(), false);
    v.parse("nope".to_string());
    assert!(v.get().is_err());
}
