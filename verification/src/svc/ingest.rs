//! OpenLineage event intake: classification of a wire document by its
//! top-level fields, the lift of `columnLineage` facets onto datasets, and the
//! outcome of a batch.

use vstd::prelude::*;

use crate::strmap::lookup;
use crate::svc::columns::{FieldLineage, InputFieldRef};
use crate::svc::json::{json_node, json_node_of, json_node_spec, json_raw_items, json_raw_items_of, json_str, member, str_of, JsonNode, NodeView};
use crate::text::opt_view;
use crate::text::owned;

verus! {

/// The three OpenLineage event kinds.
#[derive(Debug, Clone, Copy, PartialEq, Eq, Structural)]
pub enum EventKind {
    Run,
    Dataset,
    Job,
}

/// Why a document could not be taken in.
#[derive(Debug)]
pub enum ConvertError {
    Json(String),
    Unclassifiable,
    MissingEventTime,
    Encode(String),
}

impl ConvertError {
    pub open spec fn message_text(&self) -> Seq<char> {
        match self {
            ConvertError::Json(e) => "invalid JSON: "@ + e@,
            ConvertError::Unclassifiable => "unable to classify event: must contain run+job, job, or dataset fields"@,
            ConvertError::MissingEventTime => "eventTime is required"@,
            ConvertError::Encode(e) => "failed to encode event: "@ + e@,
        }
    }

    /// The error's message.
    pub fn message(&self) -> (r: String)
        ensures
            r@ == self.message_text(),
    {
        match self {
            ConvertError::Json(e) => {
                let mut r = owned("invalid JSON: ");
                r.append(e.as_str());
                r
            },
            ConvertError::Unclassifiable => owned(
                "unable to classify event: must contain run+job, job, or dataset fields",
            ),
            ConvertError::MissingEventTime => owned("eventTime is required"),
            ConvertError::Encode(e) => {
                let mut r = owned("failed to encode event: ");
                r.append(e.as_str());
                r
            },
        }
    }
}

/// What classification reads of a parsed document: whether it is an object,
/// which of `run`, `job`, `dataset` it has, and its `eventTime` when that is
/// a string.
#[derive(Debug)]
pub struct EventShape {
    pub is_object: bool,
    pub has_run: bool,
    pub has_job: bool,
    pub has_dataset: bool,
    pub event_time: Option<String>,
}

/// The kind of a document, or why it has none: non-objects are
/// unclassifiable; a missing or empty `eventTime` is rejected; `run`+`job`
/// is a run event, then `dataset` without `run` a dataset event, then `job`
/// without `run` a job event.
pub open spec fn classify_spec(s: EventShape) -> Result<EventKind, ConvertError> {
    classify_shape(shape_view(s))
}

/// An [`EventShape`] as plain values: object, `run`, `job`, `dataset`, and
/// the `eventTime` string.
pub type ShapeView = (bool, bool, bool, bool, Option<Seq<char>>);

pub open spec fn shape_view(s: EventShape) -> ShapeView {
    (s.is_object, s.has_run, s.has_job, s.has_dataset, opt_view(s.event_time))
}

/// [`classify_spec`] over a shape's plain values.
pub open spec fn classify_shape(v: ShapeView) -> Result<EventKind, ConvertError> {
    if !v.0 {
        Err(ConvertError::Unclassifiable)
    } else if match v.4 {
        Some(t) => t.len() == 0,
        None => true,
    } {
        Err(ConvertError::MissingEventTime)
    } else if v.1 && v.2 {
        Ok(EventKind::Run)
    } else if v.3 && !v.1 {
        Ok(EventKind::Dataset)
    } else if v.2 && !v.1 {
        Ok(EventKind::Job)
    } else {
        Err(ConvertError::Unclassifiable)
    }
}

/// The shape of a JSON text, when it is JSON: for an object, which of
/// `run`, `job` and `dataset` it has and its `eventTime` when that is a
/// string; any other value is no object.
pub open spec fn json_shape(text: Seq<char>) -> Option<ShapeView> {
    match json_node_spec(text) {
        None => None,
        Some(NodeView::Object(es)) => Some(
            (
                true,
                lookup(es, "run"@) is Some,
                lookup(es, "job"@) is Some,
                lookup(es, "dataset"@) is Some,
                match lookup(es, "eventTime"@) {
                    Some(t) => json_str(t),
                    None => None,
                },
            ),
        ),
        Some(_) => Some((false, false, false, false, None)),
    }
}

/// Parse a document and read its shape; `Err` with serde_json's message when
/// it is no JSON.
pub fn event_shape_of(text: &str) -> (r: Result<EventShape, String>)
    ensures
        match (r, json_node_of(text@)) {
            (Ok(s), Ok(_)) => json_shape(text@) == Some(shape_view(s)),
            (Err(e), Err(m)) => e@ == m,
            _ => false,
        },
{
    match json_node(text) {
        Err(e) => Err(e),
        Ok(JsonNode::Object(es)) => {
            let event_time = match member(&es, "eventTime") {
                Some(t) => str_of(t.as_str()),
                None => None,
            };
            Ok(
                EventShape {
                    is_object: true,
                    has_run: member(&es, "run").is_some(),
                    has_job: member(&es, "job").is_some(),
                    has_dataset: member(&es, "dataset").is_some(),
                    event_time,
                },
            )
        },
        Ok(_) => Ok(
            EventShape { is_object: false, has_run: false, has_job: false, has_dataset: false, event_time: None },
        ),
    }
}

/// What converting one document gives: its kind, or the message of the
/// error.
pub open spec fn convert_outcome(text: Seq<char>) -> Result<EventKind, Seq<char>> {
    match json_node_of(text) {
        Err(m) => Err("invalid JSON: "@ + m),
        Ok(_) => match classify_shape(json_shape(text)->0) {
            Ok(k) => Ok(k),
            Err(e) => Err(e.message_text()),
        },
    }
}

/// Convert one OpenLineage document: its kind and its text, kept as it
/// came. A text that is no JSON is a JSON error; otherwise the document is
/// classified by its top-level fields (see [`classify_shape`]).
pub fn convert_event(data: &str) -> (r: Result<(EventKind, String), ConvertError>)
    ensures
        match r {
            Ok((k, raw)) => convert_outcome(data@) == Ok::<EventKind, Seq<char>>(k) && raw@ == data@,
            Err(e) => convert_outcome(data@) == Err::<EventKind, Seq<char>>(e.message_text()),
        },
        match json_node_of(data@) {
            Err(m) => r matches Err(ConvertError::Json(e)) && e@ == m,
            Ok(_) => match classify_shape(json_shape(data@)->0) {
                Ok(_) => r is Ok,
                Err(ConvertError::Unclassifiable) => r matches Err(ConvertError::Unclassifiable),
                Err(_) => r matches Err(ConvertError::MissingEventTime),
            },
        },
{
    match event_shape_of(data) {
        Err(e) => Err(ConvertError::Json(e)),
        Ok(shape) => match classify_event(&shape) {
            Ok(k) => Ok((k, owned(data))),
            Err(e) => Err(e),
        },
    }
}

/// The converted documents among the first `n` items, with their texts.
pub open spec fn batch_events(items: Seq<Seq<char>>, n: int) -> Seq<(EventKind, Seq<char>)>
    decreases n,
{
    if n <= 0 {
        Seq::empty()
    } else {
        match convert_outcome(items[n - 1]) {
            Ok(k) => batch_events(items, n - 1).push((k, items[n - 1])),
            Err(_) => batch_events(items, n - 1),
        }
    }
}

/// The items among the first `n` that do not convert, by position and
/// message.
pub open spec fn batch_failures(items: Seq<Seq<char>>, n: int) -> Seq<(int, Seq<char>)>
    decreases n,
{
    if n <= 0 {
        Seq::empty()
    } else {
        match convert_outcome(items[n - 1]) {
            Ok(_) => batch_failures(items, n - 1),
            Err(m) => batch_failures(items, n - 1).push((n - 1, m)),
        }
    }
}

/// A batch: every item that converts is kept, in order; every one that does
/// not is a failure, at its position, with its error's message. Counts add
/// up, and the failures come in increasing position within the batch.
pub proof fn lemma_batch_counts(items: Seq<Seq<char>>, n: int)
    requires
        0 <= n <= items.len(),
    ensures
        batch_events(items, n).len() + batch_failures(items, n).len() == n,
        forall|a: int, b: int|
            0 <= a < b < batch_failures(items, n).len() ==> #[trigger] batch_failures(items, n)[a].0
                < #[trigger] batch_failures(items, n)[b].0,
        forall|a: int|
            0 <= a < batch_failures(items, n).len() ==> 0 <= #[trigger] batch_failures(items, n)[a].0 < n,
    decreases n,
{
    if n > 0 {
        lemma_batch_counts(items, n - 1);
    }
}

/// Convert a JSON array of documents: a body that is no JSON array is a JSON
/// error; otherwise each element converts on its own, a failure never
/// aborting the batch.
pub fn convert_batch(data: &str) -> (r: Result<BatchOutcome<(EventKind, String)>, ConvertError>)
    ensures
        match json_raw_items_of(data@) {
            Err(m) => r matches Err(ConvertError::Json(e)) && e@ == m,
            Ok(items) => r matches Ok(o) && o.received == items.len() && o.events@.map_values(
                |e: (EventKind, String)| (e.0, e.1@),
            ) == batch_events(items, items.len() as int) && o.failures@.map_values(
                |f: BatchFailure| (f.index as int, f.reason@),
            ) == batch_failures(items, items.len() as int),
        },
        r matches Ok(o) ==> o.events@.len() + o.failures@.len() == o.received && (forall|a: int, b: int|
            0 <= a < b < o.failures@.len() ==> #[trigger] o.failures@[a].index < #[trigger] o.failures@[b].index)
            && (forall|a: int| 0 <= a < o.failures@.len() ==> #[trigger] o.failures@[a].index < o.received),
{
    let items = match json_raw_items(data) {
        Err(e) => return Err(ConvertError::Json(e)),
        Ok(v) => v,
    };
    let ghost iv = items@.map_values(|x: String| x@);
    let mut events: Vec<(EventKind, String)> = Vec::new();
    let mut failures: Vec<BatchFailure> = Vec::new();
    let mut i: usize = 0;
    while i < items.len()
        invariant
            i <= items.len(),
            iv == items@.map_values(|x: String| x@),
            events@.map_values(|e: (EventKind, String)| (e.0, e.1@)) == batch_events(iv, i as int),
            failures@.map_values(|f: BatchFailure| (f.index as int, f.reason@)) == batch_failures(iv, i as int),
        decreases items.len() - i,
    {
        assert(iv[i as int] == items@[i as int]@);
        match convert_event(items[i].as_str()) {
            Ok(e) => {
                events.push(e);
                assert(events@.map_values(|e: (EventKind, String)| (e.0, e.1@)) =~= batch_events(iv, i + 1));
            },
            Err(e) => {
                failures.push(BatchFailure { index: i, reason: e.message() });
                assert(failures@.map_values(|f: BatchFailure| (f.index as int, f.reason@)) =~= batch_failures(
                    iv,
                    i + 1,
                ));
            },
        }
        i = i + 1;
    }
    proof {
        lemma_batch_counts(iv, i as int);
        let fv = failures@.map_values(|f: BatchFailure| (f.index as int, f.reason@));
        assert forall|a: int| 0 <= a < failures@.len() implies #[trigger] failures@[a].index as int == fv[a].0 by {}
    }
    Ok(BatchOutcome { events, failures, received: items.len() })
}

/// Classify a document by its top-level fields.
pub fn classify_event(s: &EventShape) -> (r: Result<EventKind, ConvertError>)
    ensures
        match (r, classify_spec(*s)) {
            (Ok(a), Ok(b)) => a == b,
            (Err(ConvertError::Unclassifiable), Err(ConvertError::Unclassifiable)) => true,
            (Err(ConvertError::MissingEventTime), Err(ConvertError::MissingEventTime)) => true,
            _ => false,
        },
{
    if !s.is_object {
        return Err(ConvertError::Unclassifiable);
    }
    let missing = match &s.event_time {
        Some(t) => t.as_str().is_empty(),
        None => true,
    };
    if missing {
        return Err(ConvertError::MissingEventTime);
    }
    if s.has_run && s.has_job {
        Ok(EventKind::Run)
    } else if s.has_dataset && !s.has_run {
        Ok(EventKind::Dataset)
    } else if s.has_job && !s.has_run {
        Ok(EventKind::Job)
    } else {
        Err(ConvertError::Unclassifiable)
    }
}

/// A dataset's `columnLineage` facet: its per-field lineage and its
/// dataset-level dependencies.
#[derive(Debug)]
pub struct ColumnLineageFacet {
    pub fields: Vec<FieldLineage>,
    pub dataset: Vec<InputFieldRef>,
}

/// A facet is lifted onto its dataset only when it names a field or a
/// dataset-level dependency.
pub open spec fn is_liftable(f: ColumnLineageFacet) -> bool {
    f.fields@.len() > 0 || f.dataset@.len() > 0
}

/// What is lifted of a dataset's facet, if it has one.
pub open spec fn lifted(found: Option<ColumnLineageFacet>) -> Option<ColumnLineageFacet> {
    match found {
        Some(f) => if is_liftable(f) {
            Some(f)
        } else {
            None
        },
        None => None,
    }
}

/// The facet to lift from a dataset: `None` when it is absent or names
/// nothing.
pub fn lift_column_lineage(found: Option<ColumnLineageFacet>) -> (r: Option<ColumnLineageFacet>)
    ensures
        r == lifted(found),
{
    match found {
        Some(f) => if f.fields.len() > 0 || f.dataset.len() > 0 {
            Some(f)
        } else {
            None
        },
        None => None,
    }
}

/// The typed facet of dataset `i` after the lift: the facet found in the raw
/// document at the same position when it lifts, else what it had.
pub open spec fn facet_after_lift(
    before: Seq<Option<ColumnLineageFacet>>,
    raw: Seq<Option<ColumnLineageFacet>>,
    i: int,
) -> Option<ColumnLineageFacet> {
    if i < raw.len() && lifted(raw[i]) is Some {
        lifted(raw[i])
    } else {
        before[i]
    }
}

/// Lift the raw facets onto the datasets pairwise, position by position; a
/// dataset without a raw counterpart, or whose facet does not lift, keeps what
/// it had.
pub fn lift_onto(datasets: &mut Vec<Option<ColumnLineageFacet>>, raw: Vec<Option<ColumnLineageFacet>>)
    ensures
        final(datasets)@.len() == old(datasets)@.len(),
        forall|i: int|
            0 <= i < old(datasets)@.len() ==> #[trigger] final(datasets)@[i] == facet_after_lift(
                old(datasets)@,
                raw@,
                i,
            ),
{
    let ghost before = datasets@;
    let ghost all = raw@;
    let mut rest = raw;
    assert(all.take(all.len() as int) =~= all);
    while rest.len() > 0
        invariant
            rest@.len() <= all.len(),
            rest@ == all.take(rest@.len() as int),
            datasets@.len() == before.len(),
            forall|i: int|
                0 <= i < before.len() ==> #[trigger] datasets@[i] == (if i >= rest@.len() {
                    facet_after_lift(before, all, i)
                } else {
                    before[i]
                }),
        decreases rest.len(),
    {
        let item = rest.pop().unwrap();
        let k = rest.len();
        assert(item == all[k as int]);
        assert(rest@ =~= all.take(k as int));
        let l = lift_column_lineage(item);
        if k < datasets.len() && l.is_some() {
            datasets.set(k, l);
        }
    }
}

/// A batch element that failed, by position, with its error's message.
#[derive(Debug)]
pub struct BatchFailure {
    pub index: usize,
    pub reason: String,
}

/// The outcome of a batch: the converted events, the failures, and how many
/// elements arrived.
#[derive(Debug)]
pub struct BatchOutcome<E> {
    pub events: Vec<E>,
    pub failures: Vec<BatchFailure>,
    pub received: usize,
}

/// The successes among the first `n` results, in order.
pub open spec fn successes<E>(rs: Seq<Result<E, ConvertError>>, n: int) -> Seq<E>
    decreases n,
{
    if n <= 0 {
        Seq::empty()
    } else {
        match rs[n - 1] {
            Ok(e) => successes(rs, n - 1).push(e),
            Err(_) => successes(rs, n - 1),
        }
    }
}

/// The failures among the first `n` results, by position and message.
pub open spec fn failures<E>(rs: Seq<Result<E, ConvertError>>, n: int) -> Seq<(int, Seq<char>)>
    decreases n,
{
    if n <= 0 {
        Seq::empty()
    } else {
        match rs[n - 1] {
            Ok(_) => failures(rs, n - 1),
            Err(e) => failures(rs, n - 1).push((n - 1, e.message_text())),
        }
    }
}

/// Gather per-element conversion results: failures are collected with their
/// position, never aborting the batch.
pub fn batch_outcome<E>(results: Vec<Result<E, ConvertError>>) -> (r: BatchOutcome<E>)
    ensures
        r.received == results@.len(),
        r.events@ == successes(results@, results@.len() as int),
        r.failures@.map_values(|f: BatchFailure| (f.index as int, f.reason@)) == failures(
            results@,
            results@.len() as int,
        ),
{
    let ghost rs = results@;
    let received = results.len();
    let mut rest = results;
    let mut events: Vec<E> = Vec::new();
    let mut fails: Vec<BatchFailure> = Vec::new();
    let mut i: usize = 0;
    assert(rs.skip(0) =~= rs);
    while rest.len() > 0
        invariant
            received == rs.len(),
            i <= rs.len(),
            rest@ == rs.skip(i as int),
            events@ == successes(rs, i as int),
            fails@.map_values(|f: BatchFailure| (f.index as int, f.reason@)) == failures(rs, i as int),
        decreases rest.len(),
    {
        let item = rest.remove(0);
        assert(item == rs[i as int]);
        assert(rest@ =~= rs.skip(i + 1));
        match item {
            Ok(e) => {
                events.push(e);
            },
            Err(err) => {
                let ghost f0 = fails@.map_values(|f: BatchFailure| (f.index as int, f.reason@));
                let reason = err.message();
                fails.push(BatchFailure { index: i, reason });
                assert(fails@.map_values(|f: BatchFailure| (f.index as int, f.reason@)) =~= f0.push(
                    (i as int, err.message_text()),
                ));
            },
        }
        i = i + 1;
    }
    BatchOutcome { events, failures: fails, received }
}

/// The counts of a batch request's response.
#[derive(Debug, Clone, Copy)]
pub struct BatchSummary {
    pub received: usize,
    pub successful: usize,
    pub failed: usize,
}

/// One failed element of a batch as the response reports it; conversion
/// failures are never worth retrying.
#[derive(Debug)]
pub struct FailedEvent {
    pub index: usize,
    pub reason: String,
    pub retriable: bool,
}

/// The response to a batch whose events were all enqueued.
#[derive(Debug)]
pub struct BatchResponse {
    /// `success`, or `partial_success` when an element failed.
    pub status: String,
    pub summary: BatchSummary,
    pub failed_events: Vec<FailedEvent>,
}

/// The response to a batch of `received` elements after `successful` events
/// were enqueued: every failure is reported, not retriable, and makes the
/// status `partial_success`.
pub fn batch_response(received: usize, successful: usize, failures: &Vec<BatchFailure>) -> (r:
    BatchResponse)
    ensures
        r.status@ == (if failures@.len() > 0 {
            "partial_success"@
        } else {
            "success"@
        }),
        r.summary.received == received,
        r.summary.successful == successful,
        r.summary.failed == failures@.len(),
        r.failed_events@.len() == failures@.len(),
        forall|k: int|
            0 <= k < failures@.len() ==> (#[trigger] r.failed_events@[k]).index == failures@[k].index
                && r.failed_events@[k].reason@ == failures@[k].reason@
                && !r.failed_events@[k].retriable,
{
    let mut failed_events: Vec<FailedEvent> = Vec::new();
    let mut i: usize = 0;
    while i < failures.len()
        invariant
            i <= failures.len(),
            failed_events@.len() == i,
            forall|k: int|
                0 <= k < i ==> (#[trigger] failed_events@[k]).index == failures@[k].index
                    && failed_events@[k].reason@ == failures@[k].reason@
                    && !failed_events@[k].retriable,
        decreases failures.len() - i,
    {
        failed_events.push(
            FailedEvent {
                index: failures[i].index,
                reason: failures[i].reason.clone(),
                retriable: false,
            },
        );
        i = i + 1;
    }
    let status = if failures.len() > 0 {
        owned("partial_success")
    } else {
        owned("success")
    };
    BatchResponse {
        status,
        summary: BatchSummary { received, successful, failed: failures.len() },
        failed_events,
    }
}

/// Enqueueing failed: the writer has shut down.
#[derive(Debug, Clone, Copy)]
pub struct EnqueueError;

impl EnqueueError {
    pub fn message(&self) -> (r: String)
        ensures
            r@ == "buffered writer is shut down"@,
    {
        owned("buffered writer is shut down")
    }
}

} // verus!
