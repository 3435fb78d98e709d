use hydrofoil::query_stream::{QueryStream, StreamAction, StreamEvent};

fn run(events: &[StreamEvent]) -> Vec<StreamAction> {
    let mut s = QueryStream::new();
    events.iter().map(|e| s.on_event(*e)).collect()
}

#[test]
fn batches_then_end() {
    let acts = run(&[
        StreamEvent::Batch { encoded: true },
        StreamEvent::Batch { encoded: true },
        StreamEvent::Exhausted,
    ]);
    assert_eq!(acts, vec![StreamAction::SendBatch, StreamAction::SendBatch, StreamAction::Stop]);
}

#[test]
fn empty_result_still_sends_its_schema() {
    assert_eq!(run(&[StreamEvent::Exhausted]), vec![StreamAction::SendSchemaOnly]);
}

#[test]
fn failures_stop_the_stream() {
    assert_eq!(
        run(&[StreamEvent::Failed, StreamEvent::Batch { encoded: true }]),
        vec![StreamAction::SendError, StreamAction::Stop]
    );
    assert_eq!(
        run(&[StreamEvent::Batch { encoded: false }, StreamEvent::Exhausted]),
        vec![StreamAction::SendEncodeError, StreamAction::Stop]
    );
    assert_eq!(
        run(&[StreamEvent::Undelivered, StreamEvent::Exhausted]),
        vec![StreamAction::Stop, StreamAction::Stop]
    );
}
