//! Reconstruction of the Marquez model from the append-only event log: each
//! stored event row is folded into per-job and per-dataset aggregates.
//!
//! Edges and job metadata follow a latest-event-wins rule that an event
//! carrying none never erases; run states follow [`crate::svc::runs`];
//! datasets are recorded both from dataset events and from job edges.

use vstd::prelude::*;

use crate::svc::model::EntityId;
use crate::svc::runs::{
    fold_run_event, max_i64, min_i64, new_run, run_after_event, RunAgg, RunState,
};
use crate::strmap::str_eq;
use crate::text::{concat2, copy_opt};

verus! {

/// A job tag from the `tags` job facet.
#[derive(Debug)]
pub struct JobTag {
    pub key: String,
    pub value: Option<String>,
}

/// The schema fields an event's output dataset carries (each field as its
/// JSON text).
#[derive(Debug)]
pub struct OutputSchema {
    pub id: EntityId,
    pub fields: Vec<String>,
}

/// One stored event, with its JSON columns already decoded: dataset
/// references from `inputs_json` / `outputs_json`, job metadata from the
/// `documentation` and `tags` job facets, and output schemas from
/// `outputs[].facets.schema.fields`.
#[derive(Debug)]
pub struct EventRow {
    /// `run`, `job` or `dataset`.
    pub kind: String,
    pub event_type: Option<String>,
    /// Epoch microseconds; absent when unknown.
    pub event_time: Option<i64>,
    pub run_id: Option<String>,
    pub job_namespace: Option<String>,
    pub job_name: Option<String>,
    pub dataset_namespace: Option<String>,
    pub dataset_name: Option<String>,
    pub inputs: Vec<EntityId>,
    pub outputs: Vec<EntityId>,
    pub description: Option<String>,
    pub tags: Vec<JobTag>,
    pub output_schemas: Vec<OutputSchema>,
}

/// Aggregated state of one job.
#[derive(Debug)]
pub struct JobAgg {
    pub inputs: Vec<EntityId>,
    pub outputs: Vec<EntityId>,
    pub first_seen: i64,
    pub last_seen: i64,
    /// Event time at which the edges were last set.
    pub edges_at: i64,
    pub description: Option<String>,
    /// Tags rendered as `key` or `key:value`.
    pub tags: Vec<String>,
    /// Event time at which description and tags were last set.
    pub meta_at: i64,
    /// Runs keyed by run id, in arrival order.
    pub runs: Vec<RunAgg>,
}

/// The mathematical content of a [`JobAgg`].
pub struct JobView {
    pub inputs: Seq<EntityId>,
    pub outputs: Seq<EntityId>,
    pub first_seen: i64,
    pub last_seen: i64,
    pub edges_at: i64,
    pub description: Option<String>,
    pub tags: Seq<Seq<char>>,
    pub meta_at: i64,
    pub runs: Seq<RunAgg>,
}

impl View for JobAgg {
    type V = JobView;

    open spec fn view(&self) -> JobView {
        JobView {
            inputs: self.inputs@,
            outputs: self.outputs@,
            first_seen: self.first_seen,
            last_seen: self.last_seen,
            edges_at: self.edges_at,
            description: self.description,
            tags: self.tags@.map_values(|s: String| s@),
            meta_at: self.meta_at,
            runs: self.runs@,
        }
    }
}

/// Aggregated state of one dataset.
#[derive(Debug)]
pub struct DatasetAgg {
    pub first_seen: i64,
    pub last_seen: i64,
    /// Columns from the latest schema facet, each as JSON text.
    pub fields: Vec<String>,
    /// Event time the fields came from.
    pub schema_at: i64,
}

pub struct DatasetView {
    pub first_seen: i64,
    pub last_seen: i64,
    pub fields: Seq<String>,
    pub schema_at: i64,
}

impl View for DatasetAgg {
    type V = DatasetView;

    open spec fn view(&self) -> DatasetView {
        DatasetView {
            first_seen: self.first_seen,
            last_seen: self.last_seen,
            fields: self.fields@,
            schema_at: self.schema_at,
        }
    }
}

/// The reconstructed model: jobs and datasets with their aggregates.
#[derive(Debug)]
pub struct Model {
    pub jobs: Vec<(EntityId, JobAgg)>,
    pub datasets: Vec<(EntityId, DatasetAgg)>,
}

pub struct ModelView {
    pub jobs: Seq<(EntityId, JobView)>,
    pub datasets: Seq<(EntityId, DatasetView)>,
}

impl View for Model {
    type V = ModelView;

    open spec fn view(&self) -> ModelView {
        ModelView {
            jobs: self.jobs@.map_values(|p: (EntityId, JobAgg)| (p.0, p.1@)),
            datasets: self.datasets@.map_values(|p: (EntityId, DatasetAgg)| (p.0, p.1@)),
        }
    }
}

pub open spec fn same_id(a: EntityId, b: EntityId) -> bool {
    a.namespace@ == b.namespace@ && a.name@ == b.name@
}

/// Index of the first job at or after `i` with identity `id`.
pub open spec fn find_job_from(jobs: Seq<(EntityId, JobView)>, id: EntityId, i: int) -> Option<int>
    decreases jobs.len() - i,
{
    if i < 0 || i >= jobs.len() {
        None
    } else if same_id(jobs[i].0, id) {
        Some(i)
    } else {
        find_job_from(jobs, id, i + 1)
    }
}

pub open spec fn find_job(jobs: Seq<(EntityId, JobView)>, id: EntityId) -> Option<int> {
    find_job_from(jobs, id, 0)
}

/// Index of the first dataset at or after `i` with identity `id`.
pub open spec fn find_dataset_from(ds: Seq<(EntityId, DatasetView)>, id: EntityId, i: int) -> Option<int>
    decreases ds.len() - i,
{
    if i < 0 || i >= ds.len() {
        None
    } else if same_id(ds[i].0, id) {
        Some(i)
    } else {
        find_dataset_from(ds, id, i + 1)
    }
}

pub open spec fn find_dataset(ds: Seq<(EntityId, DatasetView)>, id: EntityId) -> Option<int> {
    find_dataset_from(ds, id, 0)
}

/// Index of the first run at or after `i` with id `rid`.
pub open spec fn find_run_from(runs: Seq<RunAgg>, rid: Seq<char>, i: int) -> Option<int>
    decreases runs.len() - i,
{
    if i < 0 || i >= runs.len() {
        None
    } else if runs[i].run_id@ == rid {
        Some(i)
    } else {
        find_run_from(runs, rid, i + 1)
    }
}

pub open spec fn find_run(runs: Seq<RunAgg>, rid: Seq<char>) -> Option<int> {
    find_run_from(runs, rid, 0)
}

pub proof fn lemma_find_job_from(jobs: Seq<(EntityId, JobView)>, id: EntityId, i: int)
    requires
        0 <= i,
    ensures
        find_job_from(jobs, id, i) matches Some(j) ==> i <= j < jobs.len() && same_id(jobs[j].0, id),
        find_job_from(jobs, id, i) is None ==> forall|k: int|
            i <= k < jobs.len() ==> !same_id(#[trigger] jobs[k].0, id),
    decreases jobs.len() - i,
{
    if i < jobs.len() && !same_id(jobs[i].0, id) {
        lemma_find_job_from(jobs, id, i + 1);
    }
}

pub proof fn lemma_find_dataset_from(ds: Seq<(EntityId, DatasetView)>, id: EntityId, i: int)
    requires
        0 <= i,
    ensures
        find_dataset_from(ds, id, i) matches Some(j) ==> i <= j < ds.len() && same_id(ds[j].0, id),
        find_dataset_from(ds, id, i) is None ==> forall|k: int|
            i <= k < ds.len() ==> !same_id(#[trigger] ds[k].0, id),
    decreases ds.len() - i,
{
    if i < ds.len() && !same_id(ds[i].0, id) {
        lemma_find_dataset_from(ds, id, i + 1);
    }
}

pub proof fn lemma_find_run_from(runs: Seq<RunAgg>, rid: Seq<char>, i: int)
    requires
        0 <= i,
    ensures
        find_run_from(runs, rid, i) matches Some(j) ==> i <= j < runs.len() && runs[j].run_id@ == rid,
        find_run_from(runs, rid, i) is None ==> forall|k: int|
            i <= k < runs.len() ==> (#[trigger] runs[k]).run_id@ != rid,
    decreases runs.len() - i,
{
    if i < runs.len() && runs[i].run_id@ != rid {
        lemma_find_run_from(runs, rid, i + 1);
    }
}

pub open spec fn ts_or_zero(ts: Option<i64>) -> i64 {
    match ts {
        Some(v) => v,
        None => 0,
    }
}

pub open spec fn opt_seq(o: Option<String>) -> Option<Seq<char>> {
    crate::text::opt_view(o)
}

/// A job tag as a Marquez tag string: `key:value`, or `key` without value.
pub open spec fn tag_text(t: JobTag) -> Seq<char> {
    match t.value {
        Some(v) => t.key@ + ":"@ + v@,
        None => t.key@,
    }
}

pub open spec fn tag_texts(tags: Seq<JobTag>) -> Seq<Seq<char>> {
    tags.map_values(|t: JobTag| tag_text(t))
}

/// The runs of a job after one more event of run `rid`: the matching run is
/// updated, or a new run first seen at the event is appended.
pub open spec fn runs_after_event(
    runs: Seq<RunAgg>,
    rid: String,
    et: Option<Seq<char>>,
    ts: Option<i64>,
) -> Seq<RunAgg> {
    match find_run(runs, rid@) {
        Some(i) => runs.update(i, run_after_event(runs[i], et, ts)),
        None => runs.push(run_after_event(new_run(rid, ts), et, ts)),
    }
}

/// A job first seen at `t`.
pub open spec fn new_job(t: i64) -> JobView {
    JobView {
        inputs: Seq::empty(),
        outputs: Seq::empty(),
        first_seen: t,
        last_seen: t,
        edges_at: i64::MIN,
        description: None,
        tags: Seq::empty(),
        meta_at: i64::MIN,
        runs: Seq::empty(),
    }
}

/// A job after one more of its events. Edges are replaced only by an event
/// that carries dataset references and is at least as recent as the current
/// edges; description and tags likewise only by an event that carries some;
/// first/last seen widen; an event with a run id updates that run.
pub open spec fn job_after_row(j: JobView, row: EventRow) -> JobView {
    let t = ts_or_zero(row.event_time);
    let carries = row.inputs@.len() > 0 || row.outputs@.len() > 0;
    let edges = carries && t >= j.edges_at;
    let has_meta = row.description is Some || row.tags@.len() > 0;
    let meta = has_meta && t >= j.meta_at;
    JobView {
        inputs: if edges {
            row.inputs@
        } else {
            j.inputs
        },
        outputs: if edges {
            row.outputs@
        } else {
            j.outputs
        },
        first_seen: min_i64(j.first_seen, t),
        last_seen: max_i64(j.last_seen, t),
        edges_at: if edges {
            t
        } else {
            j.edges_at
        },
        description: if meta {
            row.description
        } else {
            j.description
        },
        tags: if meta {
            tag_texts(row.tags@)
        } else {
            j.tags
        },
        meta_at: if meta {
            t
        } else {
            j.meta_at
        },
        runs: match row.run_id {
            Some(rid) => runs_after_event(j.runs, rid, opt_seq(row.event_type), row.event_time),
            None => j.runs,
        },
    }
}

pub open spec fn empty_dataset() -> DatasetView {
    DatasetView { first_seen: 0, last_seen: 0, fields: Seq::empty(), schema_at: 0 }
}

/// A dataset after being seen at `t`, possibly with schema fields: a dataset
/// never seen before (all times zero) starts at `t`; first/last seen widen;
/// a non-empty schema at least as recent as the current one replaces it.
pub open spec fn dataset_after_note(d: DatasetView, t: i64, schema: Option<Seq<String>>) -> DatasetView {
    let first0 = if d.first_seen == 0 && d.last_seen == 0 && d.schema_at == 0 {
        t
    } else {
        d.first_seen
    };
    let replace = match schema {
        Some(f) => f.len() > 0 && t >= d.schema_at,
        None => false,
    };
    DatasetView {
        first_seen: min_i64(first0, t),
        last_seen: max_i64(d.last_seen, t),
        fields: if replace {
            schema.unwrap()
        } else {
            d.fields
        },
        schema_at: if replace {
            t
        } else {
            d.schema_at
        },
    }
}

pub open spec fn note_dataset_spec(
    ds: Seq<(EntityId, DatasetView)>,
    id: EntityId,
    t: i64,
    schema: Option<Seq<String>>,
) -> Seq<(EntityId, DatasetView)> {
    match find_dataset(ds, id) {
        Some(i) => ds.update(i, (ds[i].0, dataset_after_note(ds[i].1, t, schema))),
        None => ds.push((id, dataset_after_note(empty_dataset(), t, schema))),
    }
}

/// The schema fields of output `id` in an event: the last matching entry.
pub open spec fn schema_for(schemas: Seq<OutputSchema>, id: EntityId) -> Option<Seq<String>>
    decreases schemas.len(),
{
    if schemas.len() == 0 {
        None
    } else if same_id(schemas.last().id, id) {
        Some(schemas.last().fields@)
    } else {
        schema_for(schemas.drop_last(), id)
    }
}

/// Datasets after noting the first `n` input references of `row` at `t`.
pub open spec fn note_inputs(ds: Seq<(EntityId, DatasetView)>, row: EventRow, t: i64, n: int) -> Seq<
    (EntityId, DatasetView),
>
    decreases n,
{
    if n <= 0 {
        ds
    } else {
        note_dataset_spec(note_inputs(ds, row, t, n - 1), row.inputs@[n - 1], t, None)
    }
}

/// Datasets after noting the first `n` output references of `row` at `t`,
/// each with its schema from the event.
pub open spec fn note_outputs(ds: Seq<(EntityId, DatasetView)>, row: EventRow, t: i64, n: int) -> Seq<
    (EntityId, DatasetView),
>
    decreases n,
{
    if n <= 0 {
        ds
    } else {
        note_dataset_spec(
            note_outputs(ds, row, t, n - 1),
            row.outputs@[n - 1],
            t,
            schema_for(row.output_schemas@, row.outputs@[n - 1]),
        )
    }
}

pub open spec fn job_id_of(row: EventRow) -> Option<EntityId> {
    match (row.job_namespace, row.job_name) {
        (Some(ns), Some(n)) => Some(EntityId { namespace: ns, name: n }),
        _ => None,
    }
}

/// The model after one more stored event. `run` and `job` events with a job
/// identity update that job and note the datasets of its edges; `dataset`
/// events with a dataset identity note that dataset; others change nothing.
pub open spec fn model_after_row(m: ModelView, row: EventRow) -> ModelView {
    let t = ts_or_zero(row.event_time);
    if row.kind@ == "run"@ || row.kind@ == "job"@ {
        match job_id_of(row) {
            None => m,
            Some(id) => {
                let jobs = match find_job(m.jobs, id) {
                    Some(i) => m.jobs.update(i, (m.jobs[i].0, job_after_row(m.jobs[i].1, row))),
                    None => m.jobs.push((id, job_after_row(new_job(t), row))),
                };
                let ds = note_inputs(m.datasets, row, t, row.inputs@.len() as int);
                let ds = note_outputs(ds, row, t, row.outputs@.len() as int);
                ModelView { jobs, datasets: ds }
            },
        }
    } else if row.kind@ == "dataset"@ {
        match (row.dataset_namespace, row.dataset_name) {
            (Some(ns), Some(n)) => ModelView {
                jobs: m.jobs,
                datasets: note_dataset_spec(m.datasets, EntityId { namespace: ns, name: n }, t, None),
            },
            _ => m,
        }
    } else {
        m
    }
}

pub open spec fn empty_model() -> ModelView {
    ModelView { jobs: Seq::empty(), datasets: Seq::empty() }
}

/// The model of the first `n` rows.
pub open spec fn model_of(rows: Seq<EventRow>, n: int) -> ModelView
    decreases n,
{
    if n <= 0 {
        empty_model()
    } else {
        model_after_row(model_of(rows, n - 1), rows[n - 1])
    }
}


/// Whether two identities are the same job or dataset.
pub fn entity_eq(a: &EntityId, b: &EntityId) -> (r: bool)
    ensures
        r == same_id(*a, *b),
{
    str_eq(a.namespace.as_str(), b.namespace.as_str()) && str_eq(
        a.name.as_str(),
        b.name.as_str(),
    )
}

/// A copy of an identity.
pub fn copy_entity(e: &EntityId) -> (r: EntityId)
    ensures
        r == *e,
{
    EntityId { namespace: e.namespace.clone(), name: e.name.clone() }
}

/// A copy of a list of identities.
pub fn copy_entities(v: &Vec<EntityId>) -> (r: Vec<EntityId>)
    ensures
        r@ == v@,
{
    let mut r: Vec<EntityId> = Vec::new();
    let mut i: usize = 0;
    while i < v.len()
        invariant
            i <= v.len(),
            r@ == v@.take(i as int),
        decreases v.len() - i,
    {
        r.push(copy_entity(&v[i]));
        i = i + 1;
        assert(r@ =~= v@.take(i as int));
    }
    assert(v@.take(i as int) =~= v@);
    r
}

fn find_job_exec(jobs: &Vec<(EntityId, JobAgg)>, id: &EntityId) -> (r: Option<usize>)
    ensures
        ({
            let view = jobs@.map_values(|p: (EntityId, JobAgg)| (p.0, p.1@));
            match r {
                Some(i) => find_job(view, *id) == Some(i as int),
                None => find_job(view, *id) is None,
            }
        }),
{
    let ghost view = jobs@.map_values(|p: (EntityId, JobAgg)| (p.0, p.1@));
    let mut i: usize = 0;
    while i < jobs.len()
        invariant
            i <= jobs.len(),
            view == jobs@.map_values(|p: (EntityId, JobAgg)| (p.0, p.1@)),
            find_job(view, *id) == find_job_from(view, *id, i as int),
        decreases jobs.len() - i,
    {
        if entity_eq(&jobs[i].0, id) {
            return Some(i);
        }
        i = i + 1;
    }
    None
}

fn find_dataset_exec(ds: &Vec<(EntityId, DatasetAgg)>, id: &EntityId) -> (r: Option<usize>)
    ensures
        ({
            let view = ds@.map_values(|p: (EntityId, DatasetAgg)| (p.0, p.1@));
            match r {
                Some(i) => find_dataset(view, *id) == Some(i as int),
                None => find_dataset(view, *id) is None,
            }
        }),
{
    let ghost view = ds@.map_values(|p: (EntityId, DatasetAgg)| (p.0, p.1@));
    let mut i: usize = 0;
    while i < ds.len()
        invariant
            i <= ds.len(),
            view == ds@.map_values(|p: (EntityId, DatasetAgg)| (p.0, p.1@)),
            find_dataset(view, *id) == find_dataset_from(view, *id, i as int),
        decreases ds.len() - i,
    {
        if entity_eq(&ds[i].0, id) {
            return Some(i);
        }
        i = i + 1;
    }
    None
}

fn find_run_exec(runs: &Vec<RunAgg>, rid: &str) -> (r: Option<usize>)
    ensures
        match r {
            Some(i) => find_run(runs@, rid@) == Some(i as int),
            None => find_run(runs@, rid@) is None,
        },
{
    let mut i: usize = 0;
    while i < runs.len()
        invariant
            i <= runs.len(),
            find_run(runs@, rid@) == find_run_from(runs@, rid@, i as int),
        decreases runs.len() - i,
    {
        if str_eq(runs[i].run_id.as_str(), rid) {
            return Some(i);
        }
        i = i + 1;
    }
    None
}

fn copy_fields(v: &Vec<String>) -> (r: Vec<String>)
    ensures
        r@ == v@,
{
    crate::text::copy_strings(v)
}

/// Record that a dataset was seen at `t`, possibly with schema fields.
fn note_dataset(
    ds: &mut Vec<(EntityId, DatasetAgg)>,
    id: &EntityId,
    t: i64,
    schema: Option<&Vec<String>>,
)
    ensures
        final(ds)@.map_values(|p: (EntityId, DatasetAgg)| (p.0, p.1@)) == note_dataset_spec(
            old(ds)@.map_values(|p: (EntityId, DatasetAgg)| (p.0, p.1@)),
            *id,
            t,
            match schema {
                Some(f) => Some(f@),
                None => None,
            },
        ),
{
    let ghost view0 = ds@.map_values(|p: (EntityId, DatasetAgg)| (p.0, p.1@));
    let ghost sch = match schema {
        Some(f) => Some(f@),
        None => None,
    };
    let idx = find_dataset_exec(ds, id);
    let i = match idx {
        Some(i) => i,
        None => {
            ds.push(
                (copy_entity(id), DatasetAgg { first_seen: 0, last_seen: 0, fields: Vec::new(), schema_at: 0 }),
            );
            ds.len() - 1
        },
    };
    proof {
        lemma_find_dataset_from(view0, *id, 0);
    }
    let (key, mut agg) = ds.remove(i);
    if agg.first_seen == 0 && agg.last_seen == 0 && agg.schema_at == 0 {
        agg.first_seen = t;
    }
    if t < agg.first_seen {
        agg.first_seen = t;
    }
    if t > agg.last_seen {
        agg.last_seen = t;
    }
    if let Some(f) = schema {
        if f.len() > 0 && t >= agg.schema_at {
            agg.fields = copy_fields(f);
            agg.schema_at = t;
        }
    }
    ds.insert(i, (key, agg));
    proof {
        let expect = note_dataset_spec(view0, *id, t, sch);
        assert(ds@.map_values(|p: (EntityId, DatasetAgg)| (p.0, p.1@)) =~= expect);
    }
}

/// Fold one event of run `rid` into a job's runs.
fn upsert_run(runs: &mut Vec<RunAgg>, rid: &String, event_type: Option<&str>, ts: Option<i64>)
    ensures
        final(runs)@ == runs_after_event(
            old(runs)@,
            *rid,
            match event_type {
                Some(e) => Some(e@),
                None => None,
            },
            ts,
        ),
{
    let ghost r0 = runs@;
    let idx = find_run_exec(runs, rid.as_str());
    proof {
        lemma_find_run_from(r0, rid@, 0);
    }
    match idx {
        Some(i) => {
            let mut run = runs.remove(i);
            fold_run_event(&mut run, event_type, ts);
            runs.insert(i, run);
            assert(runs@ =~= runs_after_event(
                r0,
                *rid,
                match event_type {
                    Some(e) => Some(e@),
                    None => None,
                },
                ts,
            ));
        },
        None => {
            let t = match ts {
                Some(v) => v,
                None => 0,
            };
            let mut run = RunAgg {
                run_id: rid.clone(),
                state: RunState::New,
                first_seen: t,
                last_seen: t,
                started_at: None,
                ended_at: None,
            };
            fold_run_event(&mut run, event_type, ts);
            runs.push(run);
        },
    }
}

fn render_tag(t: &JobTag) -> (r: String)
    ensures
        r@ == tag_text(*t),
{
    match &t.value {
        Some(v) => {
            let mut s = concat2(t.key.as_str(), ":");
            s.append(v.as_str());
            s
        },
        None => t.key.clone(),
    }
}

fn render_tags(tags: &Vec<JobTag>) -> (r: Vec<String>)
    ensures
        r@.map_values(|s: String| s@) == tag_texts(tags@),
{
    let mut r: Vec<String> = Vec::new();
    let mut i: usize = 0;
    while i < tags.len()
        invariant
            i <= tags.len(),
            r@.len() == i,
            forall|j: int| 0 <= j < i ==> r@[j]@ == tag_text(#[trigger] tags@[j]),
        decreases tags.len() - i,
    {
        r.push(render_tag(&tags[i]));
        i = i + 1;
    }
    assert(r@.map_values(|s: String| s@) =~= tag_texts(tags@));
    r
}

/// Fold one event of this job into its aggregate.
fn update_job(job: &mut JobAgg, row: &EventRow)
    ensures
        final(job)@ == job_after_row(old(job)@, *row),
{
    let ghost j0 = job@;
    let t = match row.event_time {
        Some(v) => v,
        None => 0,
    };
    let carries = row.inputs.len() > 0 || row.outputs.len() > 0;
    if carries && t >= job.edges_at {
        job.inputs = copy_entities(&row.inputs);
        job.outputs = copy_entities(&row.outputs);
        job.edges_at = t;
    }
    let has_meta = row.description.is_some() || row.tags.len() > 0;
    if has_meta && t >= job.meta_at {
        job.description = copy_opt(&row.description);
        job.tags = render_tags(&row.tags);
        job.meta_at = t;
    }
    if t < job.first_seen {
        job.first_seen = t;
    }
    if t > job.last_seen {
        job.last_seen = t;
    }
    match &row.run_id {
        Some(rid) => {
            let et = match &row.event_type {
                Some(e) => Some(e.as_str()),
                None => None,
            };
            upsert_run(&mut job.runs, rid, et, row.event_time);
        },
        None => {},
    }
    assert(job@.tags =~= job_after_row(j0, *row).tags);
}

/// A job first seen at `t`.
fn new_job_agg(t: i64) -> (r: JobAgg)
    ensures
        r@ == new_job(t),
{
    let r = JobAgg {
        inputs: Vec::new(),
        outputs: Vec::new(),
        first_seen: t,
        last_seen: t,
        edges_at: i64::MIN,
        description: None,
        tags: Vec::new(),
        meta_at: i64::MIN,
        runs: Vec::new(),
    };
    assert(r@.tags =~= new_job(t).tags);
    assert(r@.inputs =~= new_job(t).inputs);
    r
}

/// Fold one event of run `run_id` into a job: the run is updated, or
/// started when the job has not seen it (see [`runs_after_event`]); the
/// job's other state is untouched.
pub fn fold_run(job: &mut JobAgg, run_id: &str, event_type: Option<&str>, ts: Option<i64>)
    ensures
        exists|rid: String|
            #![trigger runs_after_event(old(job).runs@, rid, opt_str(event_type), ts)]
            rid@ == run_id@ && final(job).runs@ == runs_after_event(
                old(job).runs@,
                rid,
                opt_str(event_type),
                ts,
            ),
        final(job).inputs == old(job).inputs,
        final(job).outputs == old(job).outputs,
        final(job).first_seen == old(job).first_seen,
        final(job).last_seen == old(job).last_seen,
        final(job).edges_at == old(job).edges_at,
        final(job).description == old(job).description,
        final(job).tags == old(job).tags,
        final(job).meta_at == old(job).meta_at,
{
    let rid = crate::text::owned(run_id);
    upsert_run(&mut job.runs, &rid, event_type, ts);
    assert(job.runs@ == runs_after_event(old(job).runs@, rid, opt_str(event_type), ts));
}

pub open spec fn opt_str(o: Option<&str>) -> Option<Seq<char>> {
    match o {
        Some(e) => Some(e@),
        None => None,
    }
}

/// Fold one stored event into the model.
pub fn apply_row(model: &mut Model, row: &EventRow)
    ensures
        final(model)@ == model_after_row(old(model)@, *row),
{
    let ghost m0 = model@;
    let t = match row.event_time {
        Some(v) => v,
        None => 0,
    };
    let kind = row.kind.as_str();
    if str_eq(kind, "run") || str_eq(kind, "job") {
        let (ns, name) = match (&row.job_namespace, &row.job_name) {
            (Some(ns), Some(name)) => (ns, name),
            _ => return,
        };
        let id = EntityId { namespace: ns.clone(), name: name.clone() };
        let idx = find_job_exec(&model.jobs, &id);
        proof {
            lemma_find_job_from(m0.jobs, id, 0);
        }
        let i = match idx {
            Some(i) => i,
            None => {
                model.jobs.push((copy_entity(&id), new_job_agg(t)));
                model.jobs.len() - 1
            },
        };
        let (key, mut agg) = model.jobs.remove(i);
        update_job(&mut agg, row);
        model.jobs.insert(i, (key, agg));
        let ghost jobs1 = model@.jobs;
        proof {
            let expect = match find_job(m0.jobs, id) {
                Some(i) => m0.jobs.update(i, (m0.jobs[i].0, job_after_row(m0.jobs[i].1, *row))),
                None => m0.jobs.push((id, job_after_row(new_job(t), *row))),
            };
            assert(jobs1 =~= expect);
        }
        let mut k: usize = 0;
        while k < row.inputs.len()
            invariant
                k <= row.inputs.len(),
                model@.jobs == jobs1,
                model@.datasets == note_inputs(m0.datasets, *row, t, k as int),
            decreases row.inputs.len() - k,
        {
            note_dataset(&mut model.datasets, &row.inputs[k], t, None);
            k = k + 1;
        }
        let ghost ds1 = model@.datasets;
        let mut k: usize = 0;
        while k < row.outputs.len()
            invariant
                k <= row.outputs.len(),
                model@.jobs == jobs1,
                model@.datasets == note_outputs(ds1, *row, t, k as int),
            decreases row.outputs.len() - k,
        {
            let schema = schema_for_exec(&row.output_schemas, &row.outputs[k]);
            note_dataset(&mut model.datasets, &row.outputs[k], t, schema);
            k = k + 1;
        }
    } else if str_eq(kind, "dataset") {
        match (&row.dataset_namespace, &row.dataset_name) {
            (Some(ns), Some(name)) => {
                let id = EntityId { namespace: ns.clone(), name: name.clone() };
                note_dataset(&mut model.datasets, &id, t, None);
            },
            _ => {},
        }
    }
}

fn schema_for_exec<'a>(schemas: &'a Vec<OutputSchema>, id: &EntityId) -> (r: Option<&'a Vec<String>>)
    ensures
        match r {
            Some(f) => schema_for(schemas@, *id) == Some(f@),
            None => schema_for(schemas@, *id) is None,
        },
{
    let mut i = schemas.len();
    assert(schemas@.take(i as int) =~= schemas@);
    while i > 0
        invariant
            i <= schemas.len(),
            schema_for(schemas@, *id) == schema_for(schemas@.take(i as int), *id),
        decreases i,
    {
        assert(schemas@.take(i as int).drop_last() =~= schemas@.take(i - 1));
        if entity_eq(&schemas[i - 1].id, id) {
            return Some(&schemas[i - 1].fields);
        }
        i = i - 1;
    }
    None
}

/// The model reconstructed from the stored events, in order.
pub fn fold_rows(rows: &Vec<EventRow>) -> (m: Model)
    ensures
        m@ == model_of(rows@, rows@.len() as int),
{
    let mut m = Model { jobs: Vec::new(), datasets: Vec::new() };
    assert(m@.jobs =~= empty_model().jobs);
    assert(m@.datasets =~= empty_model().datasets);
    let mut i: usize = 0;
    while i < rows.len()
        invariant
            i <= rows.len(),
            m@ == model_of(rows@, i as int),
        decreases rows.len() - i,
    {
        apply_row(&mut m, &rows[i]);
        i = i + 1;
    }
    m
}

} // verus!
