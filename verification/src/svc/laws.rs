//! Properties of the reconstructed model that hold across events.

use vstd::prelude::*;

use crate::svc::fold::{
    dataset_after_note, empty_dataset, find_dataset, find_job, find_job_from, find_run_from, job_after_row, job_id_of,
    lemma_find_dataset_from, lemma_find_job_from, lemma_find_run_from, model_after_row, model_of,
    new_job, note_dataset_spec, note_inputs, note_outputs, runs_after_event, same_id,
    schema_for, tag_texts, ts_or_zero, DatasetView, EventRow, JobView, ModelView, find_run,
};
use crate::svc::model::EntityId;
use crate::svc::runs::{is_start_type, max_i64, min_i64, new_run, run_after_event, state_of_event_type, RunAgg, RunState};

verus! {

/// Whether dataset `d` is recorded in `ds`.
pub open spec fn has_dataset(ds: Seq<(EntityId, DatasetView)>, d: EntityId) -> bool {
    exists|k: int| 0 <= k < ds.len() && same_id(#[trigger] ds[k].0, d)
}

/// A run's first event is no later than its last, and run ids are distinct.
pub open spec fn runs_wf(runs: Seq<RunAgg>) -> bool {
    &&& forall|r: int| 0 <= r < runs.len() ==> (#[trigger] runs[r]).first_seen <= runs[r].last_seen
    &&& forall|a: int, b: int|
        0 <= a < b < runs.len() ==> (#[trigger] runs[a]).run_id@ != (#[trigger] runs[b]).run_id@
}

/// The invariant of every reconstructed model: one entry per job, per
/// dataset and per run; first seen never after last seen; and every dataset
/// a job's edges name is itself recorded.
pub open spec fn model_wf(m: ModelView) -> bool {
    &&& forall|a: int, b: int|
        0 <= a < b < m.jobs.len() ==> !same_id(#[trigger] m.jobs[a].0, #[trigger] m.jobs[b].0)
    &&& forall|a: int, b: int|
        0 <= a < b < m.datasets.len() ==> !same_id(
            #[trigger] m.datasets[a].0,
            #[trigger] m.datasets[b].0,
        )
    &&& forall|i: int|
        0 <= i < m.jobs.len() ==> (#[trigger] m.jobs[i]).1.first_seen <= m.jobs[i].1.last_seen
            && runs_wf(m.jobs[i].1.runs)
    &&& forall|i: int|
        0 <= i < m.datasets.len() ==> (#[trigger] m.datasets[i]).1.first_seen
            <= m.datasets[i].1.last_seen
    &&& forall|i: int, k: int|
        0 <= i < m.jobs.len() && 0 <= k < m.jobs[i].1.inputs.len() ==> has_dataset(
            m.datasets,
            #[trigger] m.jobs[i].1.inputs[k],
        )
    &&& forall|i: int, k: int|
        0 <= i < m.jobs.len() && 0 <= k < m.jobs[i].1.outputs.len() ==> has_dataset(
            m.datasets,
            #[trigger] m.jobs[i].1.outputs[k],
        )
}

pub open spec fn datasets_wf(ds: Seq<(EntityId, DatasetView)>) -> bool {
    &&& forall|a: int, b: int|
        0 <= a < b < ds.len() ==> !same_id(#[trigger] ds[a].0, #[trigger] ds[b].0)
    &&& forall|i: int| 0 <= i < ds.len() ==> (#[trigger] ds[i]).1.first_seen <= ds[i].1.last_seen
}

proof fn lemma_dataset_after_note(d: DatasetView, t: i64, schema: Option<Seq<String>>)
    requires
        d.first_seen <= d.last_seen || (d.first_seen == 0 && d.last_seen == 0 && d.schema_at == 0),
    ensures
        dataset_after_note(d, t, schema).first_seen <= dataset_after_note(d, t, schema).last_seen,
{
}

proof fn lemma_note_dataset(
    ds: Seq<(EntityId, DatasetView)>,
    id: EntityId,
    t: i64,
    schema: Option<Seq<String>>,
)
    requires
        datasets_wf(ds),
    ensures
        datasets_wf(note_dataset_spec(ds, id, t, schema)),
        has_dataset(note_dataset_spec(ds, id, t, schema), id),
        forall|d: EntityId| has_dataset(ds, d) ==> #[trigger] has_dataset(note_dataset_spec(ds, id, t, schema), d),
{
    let r = note_dataset_spec(ds, id, t, schema);
    lemma_find_dataset_from(ds, id, 0);
    match find_dataset(ds, id) {
        Some(i) => {
            lemma_dataset_after_note(ds[i].1, t, schema);
            assert(same_id(r[i].0, id));
            assert forall|d: EntityId| has_dataset(ds, d) implies #[trigger] has_dataset(r, d) by {
                let k = choose|k: int| 0 <= k < ds.len() && same_id(#[trigger] ds[k].0, d);
                assert(same_id(r[k].0, d));
            }
            assert forall|a: int, b: int| 0 <= a < b < r.len() implies !same_id(#[trigger] r[a].0, #[trigger] r[b].0) by {
                assert(r[a].0 == ds[a].0 && r[b].0 == ds[b].0);
            }
            assert forall|k: int| 0 <= k < r.len() implies (#[trigger] r[k]).1.first_seen <= r[k].1.last_seen by {
                if k != i {
                    assert(r[k] == ds[k]);
                }
            }
        },
        None => {
            lemma_dataset_after_note(empty_dataset(), t, schema);
            assert(same_id(r[ds.len() as int].0, id));
            assert forall|d: EntityId| has_dataset(ds, d) implies #[trigger] has_dataset(r, d) by {
                let k = choose|k: int| 0 <= k < ds.len() && same_id(#[trigger] ds[k].0, d);
                assert(same_id(r[k].0, d));
            }
            assert forall|a: int, b: int| 0 <= a < b < r.len() implies !same_id(#[trigger] r[a].0, #[trigger] r[b].0) by {
                if b == ds.len() {
                    assert(!same_id(ds[a].0, id));
                } else {
                    assert(r[a].0 == ds[a].0 && r[b].0 == ds[b].0);
                }
            }
            assert forall|k: int| 0 <= k < r.len() implies (#[trigger] r[k]).1.first_seen <= r[k].1.last_seen by {
                if k < ds.len() {
                    assert(r[k] == ds[k]);
                }
            }
        },
    }
}

proof fn lemma_note_inputs(ds: Seq<(EntityId, DatasetView)>, row: crate::svc::fold::EventRow, t: i64, n: int)
    requires
        datasets_wf(ds),
        0 <= n <= row.inputs@.len(),
    ensures
        datasets_wf(note_inputs(ds, row, t, n)),
        forall|k: int| 0 <= k < n ==> has_dataset(note_inputs(ds, row, t, n), #[trigger] row.inputs@[k]),
        forall|d: EntityId| has_dataset(ds, d) ==> #[trigger] has_dataset(note_inputs(ds, row, t, n), d),
    decreases n,
{
    if n > 0 {
        lemma_note_inputs(ds, row, t, n - 1);
        let prev = note_inputs(ds, row, t, n - 1);
        lemma_note_dataset(prev, row.inputs@[n - 1], t, None);
    }
}

proof fn lemma_note_outputs(ds: Seq<(EntityId, DatasetView)>, row: crate::svc::fold::EventRow, t: i64, n: int)
    requires
        datasets_wf(ds),
        0 <= n <= row.outputs@.len(),
    ensures
        datasets_wf(note_outputs(ds, row, t, n)),
        forall|k: int| 0 <= k < n ==> has_dataset(note_outputs(ds, row, t, n), #[trigger] row.outputs@[k]),
        forall|d: EntityId| has_dataset(ds, d) ==> #[trigger] has_dataset(note_outputs(ds, row, t, n), d),
    decreases n,
{
    if n > 0 {
        lemma_note_outputs(ds, row, t, n - 1);
        let prev = note_outputs(ds, row, t, n - 1);
        lemma_note_dataset(prev, row.outputs@[n - 1], t, schema_for(row.output_schemas@, row.outputs@[n - 1]));
    }
}

proof fn lemma_runs_after_event(runs: Seq<RunAgg>, rid: String, et: Option<Seq<char>>, ts: Option<i64>)
    requires
        runs_wf(runs),
    ensures
        runs_wf(runs_after_event(runs, rid, et, ts)),
{
    let r = runs_after_event(runs, rid, et, ts);
    lemma_find_run_from(runs, rid@, 0);
    match find_run(runs, rid@) {
        Some(i) => {
            assert forall|a: int, b: int| 0 <= a < b < r.len() implies (#[trigger] r[a]).run_id@ != (#[trigger] r[b]).run_id@ by {
                assert(r[a].run_id == runs[a].run_id && r[b].run_id == runs[b].run_id);
            }
            assert forall|k: int| 0 <= k < r.len() implies (#[trigger] r[k]).first_seen <= r[k].last_seen by {
                if k != i {
                    assert(r[k] == runs[k]);
                }
            }
        },
        None => {
            assert forall|a: int, b: int| 0 <= a < b < r.len() implies (#[trigger] r[a]).run_id@ != (#[trigger] r[b]).run_id@ by {
                if b == runs.len() {
                    assert(runs[a].run_id@ != rid@);
                } else {
                    assert(r[a] == runs[a] && r[b] == runs[b]);
                }
            }
            assert forall|k: int| 0 <= k < r.len() implies (#[trigger] r[k]).first_seen <= r[k].last_seen by {
                if k < runs.len() {
                    assert(r[k] == runs[k]);
                }
            }
        },
    }
}

proof fn lemma_job_after_row(j: JobView, row: crate::svc::fold::EventRow)
    requires
        j.first_seen <= j.last_seen,
        runs_wf(j.runs),
    ensures
        job_after_row(j, row).first_seen <= job_after_row(j, row).last_seen,
        runs_wf(job_after_row(j, row).runs),
        job_after_row(j, row).inputs == j.inputs || job_after_row(j, row).inputs == row.inputs@,
        job_after_row(j, row).outputs == j.outputs || job_after_row(j, row).outputs == row.outputs@,
{
    match row.run_id {
        Some(rid) => lemma_runs_after_event(j.runs, rid, crate::svc::fold::opt_seq(row.event_type), row.event_time),
        None => {},
    }
}

/// Folding any event into a well-formed model keeps it well formed.
pub proof fn lemma_model_after_row_wf(m: ModelView, row: crate::svc::fold::EventRow)
    requires
        model_wf(m),
    ensures
        model_wf(model_after_row(m, row)),
{
    let t = ts_or_zero(row.event_time);
    let r = model_after_row(m, row);
    assert(datasets_wf(m.datasets));
    if row.kind@ == "run"@ || row.kind@ == "job"@ {
        match job_id_of(row) {
            None => {},
            Some(id) => {
                lemma_note_inputs(m.datasets, row, t, row.inputs@.len() as int);
                let ds1 = note_inputs(m.datasets, row, t, row.inputs@.len() as int);
                lemma_note_outputs(ds1, row, t, row.outputs@.len() as int);
                let ds2 = note_outputs(ds1, row, t, row.outputs@.len() as int);
                assert(r.datasets == ds2);
                assert forall|d: EntityId| has_dataset(m.datasets, d) implies #[trigger] has_dataset(ds2, d) by {
                    assert(has_dataset(ds1, d));
                }
                assert forall|k: int| 0 <= k < row.inputs@.len() implies has_dataset(ds2, #[trigger] row.inputs@[k]) by {
                    assert(has_dataset(ds1, row.inputs@[k]));
                }
                lemma_find_job_from(m.jobs, id, 0);
                match find_job(m.jobs, id) {
                    Some(i) => {
                        lemma_job_after_row(m.jobs[i].1, row);
                        assert forall|a: int, b: int| 0 <= a < b < r.jobs.len() implies !same_id(#[trigger] r.jobs[a].0, #[trigger] r.jobs[b].0) by {
                            assert(r.jobs[a].0 == m.jobs[a].0 && r.jobs[b].0 == m.jobs[b].0);
                        }
                        assert forall|x: int| 0 <= x < r.jobs.len() implies (#[trigger] r.jobs[x]).1.first_seen <= r.jobs[x].1.last_seen && runs_wf(r.jobs[x].1.runs) by {
                            if x != i {
                                assert(r.jobs[x] == m.jobs[x]);
                            }
                        }
                        assert forall|x: int, k: int| 0 <= x < r.jobs.len() && 0 <= k < r.jobs[x].1.inputs.len() implies has_dataset(r.datasets, #[trigger] r.jobs[x].1.inputs[k]) by {
                            if x != i || r.jobs[x].1.inputs == m.jobs[x].1.inputs {
                                assert(has_dataset(m.datasets, m.jobs[x].1.inputs[k]));
                            } else {
                                assert(r.jobs[x].1.inputs[k] == row.inputs@[k]);
                            }
                        }
                        assert forall|x: int, k: int| 0 <= x < r.jobs.len() && 0 <= k < r.jobs[x].1.outputs.len() implies has_dataset(r.datasets, #[trigger] r.jobs[x].1.outputs[k]) by {
                            if x != i || r.jobs[x].1.outputs == m.jobs[x].1.outputs {
                                assert(has_dataset(m.datasets, m.jobs[x].1.outputs[k]));
                            } else {
                                assert(r.jobs[x].1.outputs[k] == row.outputs@[k]);
                            }
                        }
                    },
                    None => {
                        let nj = new_job(t);
                        assert(runs_wf(nj.runs));
                        lemma_job_after_row(nj, row);
                        let n = m.jobs.len() as int;
                        assert forall|a: int, b: int| 0 <= a < b < r.jobs.len() implies !same_id(#[trigger] r.jobs[a].0, #[trigger] r.jobs[b].0) by {
                            if b == n {
                                assert(!same_id(m.jobs[a].0, id));
                            } else {
                                assert(r.jobs[a] == m.jobs[a] && r.jobs[b] == m.jobs[b]);
                            }
                        }
                        assert forall|x: int| 0 <= x < r.jobs.len() implies (#[trigger] r.jobs[x]).1.first_seen <= r.jobs[x].1.last_seen && runs_wf(r.jobs[x].1.runs) by {
                            if x < n {
                                assert(r.jobs[x] == m.jobs[x]);
                            }
                        }
                        assert forall|x: int, k: int| 0 <= x < r.jobs.len() && 0 <= k < r.jobs[x].1.inputs.len() implies has_dataset(r.datasets, #[trigger] r.jobs[x].1.inputs[k]) by {
                            if x < n {
                                assert(r.jobs[x] == m.jobs[x]);
                                assert(has_dataset(m.datasets, m.jobs[x].1.inputs[k]));
                            } else {
                                assert(r.jobs[x].1.inputs[k] == row.inputs@[k]);
                            }
                        }
                        assert forall|x: int, k: int| 0 <= x < r.jobs.len() && 0 <= k < r.jobs[x].1.outputs.len() implies has_dataset(r.datasets, #[trigger] r.jobs[x].1.outputs[k]) by {
                            if x < n {
                                assert(r.jobs[x] == m.jobs[x]);
                                assert(has_dataset(m.datasets, m.jobs[x].1.outputs[k]));
                            } else {
                                assert(r.jobs[x].1.outputs[k] == row.outputs@[k]);
                            }
                        }
                    },
                }
            },
        }
    } else if row.kind@ == "dataset"@ {
        match (row.dataset_namespace, row.dataset_name) {
            (Some(ns), Some(n)) => {
                let id = EntityId { namespace: ns, name: n };
                lemma_note_dataset(m.datasets, id, t, None);
                assert forall|x: int, k: int| 0 <= x < r.jobs.len() && 0 <= k < r.jobs[x].1.inputs.len() implies has_dataset(r.datasets, #[trigger] r.jobs[x].1.inputs[k]) by {
                    assert(has_dataset(m.datasets, m.jobs[x].1.inputs[k]));
                }
                assert forall|x: int, k: int| 0 <= x < r.jobs.len() && 0 <= k < r.jobs[x].1.outputs.len() implies has_dataset(r.datasets, #[trigger] r.jobs[x].1.outputs[k]) by {
                    assert(has_dataset(m.datasets, m.jobs[x].1.outputs[k]));
                }
            },
            _ => {},
        }
    }
}

/// Every model reconstructed from an event log is well formed: one entry
/// per job, dataset and run; first seen never after last seen; every
/// dataset a job's edges name is recorded as a dataset.
pub proof fn lemma_model_of_wf(rows: Seq<crate::svc::fold::EventRow>, n: int)
    ensures
        model_wf(model_of(rows, n)),
    decreases n,
{
    if n > 0 {
        lemma_model_of_wf(rows, n - 1);
        lemma_model_after_row_wf(model_of(rows, n - 1), rows[n - 1]);
    }
}

/// The position of the job an event updates, when it updates one.
pub open spec fn event_job_index(m: ModelView, row: EventRow) -> Option<int> {
    if row.kind@ == "run"@ || row.kind@ == "job"@ {
        match job_id_of(row) {
            Some(id) => find_job(m.jobs, id),
            None => None,
        }
    } else {
        None
    }
}

/// An event of a known job that carries no dataset references (a terminal
/// event that drops the datasets its START carried) leaves the job's input
/// and output edges as they were.
pub proof fn lemma_edgeless_event_keeps_edges(m: ModelView, row: EventRow, i: int)
    requires
        event_job_index(m, row) == Some(i),
        row.inputs@.len() == 0,
        row.outputs@.len() == 0,
    ensures
        model_after_row(m, row).jobs[i].1.inputs == m.jobs[i].1.inputs,
        model_after_row(m, row).jobs[i].1.outputs == m.jobs[i].1.outputs,
{
    lemma_find_job_from(m.jobs, job_id_of(row)->0, 0);
}

/// An event of a known job that carries dataset references and is at least
/// as recent as the job's current edges replaces them with its own.
pub proof fn lemma_latest_edges_win(m: ModelView, row: EventRow, i: int)
    requires
        event_job_index(m, row) == Some(i),
        row.inputs@.len() > 0 || row.outputs@.len() > 0,
        ts_or_zero(row.event_time) >= m.jobs[i].1.edges_at,
    ensures
        model_after_row(m, row).jobs[i].1.inputs == row.inputs@,
        model_after_row(m, row).jobs[i].1.outputs == row.outputs@,
        model_after_row(m, row).jobs[i].1.edges_at == ts_or_zero(row.event_time),
{
    lemma_find_job_from(m.jobs, job_id_of(row)->0, 0);
}

/// An event older than a job's current edges never replaces them.
pub proof fn lemma_older_edges_ignored(m: ModelView, row: EventRow, i: int)
    requires
        event_job_index(m, row) == Some(i),
        ts_or_zero(row.event_time) < m.jobs[i].1.edges_at,
    ensures
        model_after_row(m, row).jobs[i].1.inputs == m.jobs[i].1.inputs,
        model_after_row(m, row).jobs[i].1.outputs == m.jobs[i].1.outputs,
{
    lemma_find_job_from(m.jobs, job_id_of(row)->0, 0);
}

/// An event of a known job without a description or tags leaves the job's
/// description and tags as they were.
pub proof fn lemma_metaless_event_keeps_metadata(m: ModelView, row: EventRow, i: int)
    requires
        event_job_index(m, row) == Some(i),
        row.description is None,
        row.tags@.len() == 0,
    ensures
        model_after_row(m, row).jobs[i].1.description == m.jobs[i].1.description,
        model_after_row(m, row).jobs[i].1.tags == m.jobs[i].1.tags,
{
    lemma_find_job_from(m.jobs, job_id_of(row)->0, 0);
}

/// An event of a known job that carries metadata and is at least as recent
/// as the job's current metadata replaces description and tags.
pub proof fn lemma_latest_metadata_wins(m: ModelView, row: EventRow, i: int)
    requires
        event_job_index(m, row) == Some(i),
        row.description is Some || row.tags@.len() > 0,
        ts_or_zero(row.event_time) >= m.jobs[i].1.meta_at,
    ensures
        model_after_row(m, row).jobs[i].1.description == row.description,
        model_after_row(m, row).jobs[i].1.tags == tag_texts(row.tags@),
{
    lemma_find_job_from(m.jobs, job_id_of(row)->0, 0);
}

/// A sighting of a dataset that carries no schema fields never clears the
/// schema it has.
pub proof fn lemma_schemaless_sighting_keeps_schema(d: DatasetView, t: i64, schema: Option<Seq<String>>)
    requires
        match schema {
            Some(f) => f.len() == 0,
            None => true,
        },
    ensures
        dataset_after_note(d, t, schema).fields == d.fields,
        dataset_after_note(d, t, schema).schema_at == d.schema_at,
{
}

/// A schema at least as recent as the dataset's current one replaces it.
pub proof fn lemma_latest_schema_wins(d: DatasetView, t: i64, fields: Seq<String>)
    requires
        fields.len() > 0,
        t >= d.schema_at,
    ensures
        dataset_after_note(d, t, Some(fields)).fields == fields,
        dataset_after_note(d, t, Some(fields)).schema_at == t,
{
}

/// A schema older than the dataset's current one is ignored.
pub proof fn lemma_older_schema_ignored(d: DatasetView, t: i64, schema: Option<Seq<String>>)
    requires
        t < d.schema_at,
    ensures
        dataset_after_note(d, t, schema).fields == d.fields,
        dataset_after_note(d, t, schema).schema_at == d.schema_at,
{
}

/// Whether `row` is an event of job `id`: a `run` or `job` event naming it.
pub open spec fn is_job_row(row: EventRow, id: EntityId) -> bool {
    &&& (row.kind@ == "run"@ || row.kind@ == "job"@)
    &&& job_id_of(row) matches Some(j) && same_id(j, id)
}

/// The event time a row is folded at (zero when unknown).
pub open spec fn row_ts(row: EventRow) -> i64 {
    ts_or_zero(row.event_time)
}

/// Whether a row carries any input or output dataset reference.
pub open spec fn carries_refs(row: EventRow) -> bool {
    row.inputs@.len() > 0 || row.outputs@.len() > 0
}

/// The aggregate of job `id` in `jobs`, if it is recorded.
pub open spec fn job_at(jobs: Seq<(EntityId, JobView)>, id: EntityId) -> Option<JobView> {
    match find_job(jobs, id) {
        Some(i) => Some(jobs[i].1),
        None => None,
    }
}

/// Row `k` of the first `n` is the one whose references job `id` keeps: an
/// event of the job carrying references, with no such event later in time,
/// nor at the same time later in the log.
pub open spec fn latest_refs_row(rows: Seq<EventRow>, n: int, id: EntityId, k: int) -> bool {
    &&& 0 <= k < n
    &&& is_job_row(rows[k], id)
    &&& carries_refs(rows[k])
    &&& forall|k2: int|
        0 <= k2 < n && #[trigger] is_job_row(rows[k2], id) && carries_refs(rows[k2]) ==> row_ts(rows[k2])
            < row_ts(rows[k]) || (row_ts(rows[k2]) == row_ts(rows[k]) && k2 <= k)
}

/// What the first `n` rows make of job `id`, as its aggregate `j` states it:
/// first and last seen are the earliest and latest times of its events, and
/// its edges are the references of its latest event that carries any, or
/// none when no event does.
pub open spec fn job_summary(rows: Seq<EventRow>, n: int, id: EntityId, j: JobView) -> bool {
    &&& exists|k: int| 0 <= k < n && #[trigger] is_job_row(rows[k], id) && j.first_seen == row_ts(rows[k])
    &&& exists|k: int| 0 <= k < n && #[trigger] is_job_row(rows[k], id) && j.last_seen == row_ts(rows[k])
    &&& forall|k: int|
        0 <= k < n && #[trigger] is_job_row(rows[k], id) ==> j.first_seen <= row_ts(rows[k]) <= j.last_seen
    &&& (exists|k: int|
        #[trigger] latest_refs_row(rows, n, id, k) && j.inputs == rows[k].inputs@ && j.outputs
            == rows[k].outputs@) || ((forall|k: int|
        0 <= k < n && #[trigger] is_job_row(rows[k], id) ==> !carries_refs(rows[k])) && j.inputs.len() == 0
        && j.outputs.len() == 0)
}

proof fn lemma_find_job_same_keys(a: Seq<(EntityId, JobView)>, b: Seq<(EntityId, JobView)>, id: EntityId, i: int)
    requires
        a.len() == b.len(),
        forall|k: int| 0 <= k < a.len() ==> #[trigger] a[k].0 == b[k].0,
    ensures
        find_job_from(a, id, i) == find_job_from(b, id, i),
    decreases a.len() - i,
{
    if 0 <= i < a.len() {
        assert(a[i].0 == b[i].0);
        lemma_find_job_same_keys(a, b, id, i + 1);
    }
}

/// How one row changes the aggregate of job `id`: an event of the job folds
/// into it (into a fresh job if it had none); any other row leaves it.
proof fn lemma_job_at_after_row(m: ModelView, row: EventRow, id: EntityId)
    requires
        model_wf(m),
    ensures
        job_at(model_after_row(m, row).jobs, id) == if is_job_row(row, id) {
            Some(
                job_after_row(
                    match job_at(m.jobs, id) {
                        Some(j) => j,
                        None => new_job(row_ts(row)),
                    },
                    row,
                ),
            )
        } else {
            job_at(m.jobs, id)
        },
{
    let r = model_after_row(m, row);
    let t = row_ts(row);
    lemma_find_job_from(m.jobs, id, 0);
    lemma_find_job_from(r.jobs, id, 0);
    if (row.kind@ == "run"@ || row.kind@ == "job"@) && job_id_of(row) is Some {
        let jid = job_id_of(row)->0;
        lemma_find_job_from(m.jobs, jid, 0);
        match find_job(m.jobs, jid) {
            Some(j) => {
                assert forall|k: int| 0 <= k < m.jobs.len() implies #[trigger] r.jobs[k].0 == m.jobs[k].0 by {}
                if same_id(jid, id) {
                    assert(same_id(m.jobs[j].0, id));
                    if let Some(j2) = find_job(m.jobs, id) {
                        if j2 != j {
                            if j2 < j {
                                assert(!same_id(m.jobs[j2].0, m.jobs[j].0));
                            } else {
                                assert(!same_id(m.jobs[j].0, m.jobs[j2].0));
                            }
                        }
                    }
                    lemma_find_job_same_keys(m.jobs, r.jobs, id, 0);
                } else {
                    lemma_find_job_same_keys(m.jobs, r.jobs, id, 0);
                    if let Some(k) = find_job(m.jobs, id) {
                        assert(k != j);
                    }
                }
            },
            None => {
                let n = m.jobs.len() as int;
                if same_id(jid, id) {
                    assert(find_job(m.jobs, id) is None) by {
                        if let Some(k) = find_job(m.jobs, id) {
                            assert(same_id(m.jobs[k].0, jid));
                        }
                    }
                    assert(same_id(r.jobs[n].0, id));
                    if let Some(k) = find_job(r.jobs, id) {
                        if k < n {
                            assert(r.jobs[k] == m.jobs[k]);
                        }
                    }
                } else {
                    if let Some(k) = find_job(r.jobs, id) {
                        assert(k < n);
                        assert(r.jobs[k] == m.jobs[k]);
                        if let Some(k0) = find_job(m.jobs, id) {
                            if k != k0 {
                                if k < k0 {
                                    assert(!same_id(m.jobs[k].0, m.jobs[k0].0));
                                } else {
                                    assert(!same_id(m.jobs[k0].0, m.jobs[k].0));
                                }
                            }
                        }
                    } else {
                        if let Some(k0) = find_job(m.jobs, id) {
                            assert(r.jobs[k0] == m.jobs[k0]);
                        }
                    }
                }
            },
        }
    } else {
        assert(r.jobs == m.jobs);
    }
}

/// The summary of job `id` over the first `n` rows, with the time its edges
/// were set: that of the row whose references it keeps, or `i64::MIN`.
proof fn lemma_fold_job_summary_at(rows: Seq<EventRow>, n: int, id: EntityId)
    requires
        0 <= n <= rows.len(),
    ensures
        match job_at(model_of(rows, n).jobs, id) {
            Some(j) => job_summary(rows, n, id, j) && ((exists|k: int|
                #[trigger] latest_refs_row(rows, n, id, k) && j.edges_at == row_ts(rows[k]) && j.inputs
                    == rows[k].inputs@ && j.outputs == rows[k].outputs@) || ((forall|k: int|
                0 <= k < n && #[trigger] is_job_row(rows[k], id) ==> !carries_refs(rows[k])) && j.edges_at
                == i64::MIN && j.inputs.len() == 0 && j.outputs.len() == 0)),
            None => forall|k: int| 0 <= k < n ==> !#[trigger] is_job_row(rows[k], id),
        },
    decreases n,
{
    if n > 0 {
        lemma_fold_job_summary_at(rows, n - 1, id);
        let m = model_of(rows, n - 1);
        let row = rows[n - 1];
        let t = row_ts(row);
        let idx = n - 1;
        lemma_model_of_wf(rows, n - 1);
        lemma_job_at_after_row(m, row, id);
        assert(model_of(rows, n) == model_after_row(m, row));
        if is_job_row(row, id) {
            let j = job_at(model_of(rows, n).jobs, id)->0;
            match job_at(m.jobs, id) {
                None => {
                    assert(forall|k: int| 0 <= k < n - 1 ==> !#[trigger] is_job_row(rows[k], id));
                    assert(j.first_seen == t && j.last_seen == t);
                    assert(is_job_row(rows[idx], id));
                    assert forall|k: int| 0 <= k < n && #[trigger] is_job_row(rows[k], id) implies k == idx by {}
                    if carries_refs(row) {
                        assert(latest_refs_row(rows, n, id, idx));
                    }
                },
                Some(p) => {
                    assert(is_job_row(rows[idx], id));
                    let kf = choose|k: int| 0 <= k < n - 1 && #[trigger] is_job_row(rows[k], id) && p.first_seen == row_ts(rows[k]);
                    let kl = choose|k: int| 0 <= k < n - 1 && #[trigger] is_job_row(rows[k], id) && p.last_seen == row_ts(rows[k]);
                    assert(is_job_row(rows[kf], id) && is_job_row(rows[kl], id));
                    let carries = carries_refs(row);
                    if exists|k: int| #[trigger] latest_refs_row(rows, n - 1, id, k) && p.edges_at == row_ts(rows[k]) && p.inputs
                        == rows[k].inputs@ && p.outputs == rows[k].outputs@ {
                        let kw = choose|k: int| #[trigger] latest_refs_row(rows, n - 1, id, k) && p.edges_at == row_ts(rows[k]) && p.inputs
                            == rows[k].inputs@ && p.outputs == rows[k].outputs@;
                        if carries && t >= p.edges_at {
                            assert forall|k2: int|
                                0 <= k2 < n && #[trigger] is_job_row(rows[k2], id) && carries_refs(rows[k2]) implies row_ts(rows[k2])
                                    < row_ts(rows[idx]) || (row_ts(rows[k2]) == row_ts(rows[idx]) && k2 <= idx) by {
                                if k2 < n - 1 {
                                    assert(latest_refs_row(rows, n - 1, id, kw));
                                }
                            }
                            assert(latest_refs_row(rows, n, id, idx));
                        } else {
                            assert forall|k2: int|
                                0 <= k2 < n && #[trigger] is_job_row(rows[k2], id) && carries_refs(rows[k2]) implies row_ts(rows[k2])
                                    < row_ts(rows[kw]) || (row_ts(rows[k2]) == row_ts(rows[kw]) && k2 <= kw) by {
                                if k2 < n - 1 {
                                    assert(latest_refs_row(rows, n - 1, id, kw));
                                }
                            }
                            assert(latest_refs_row(rows, n, id, kw));
                        }
                    } else {
                        if carries {
                            assert forall|k2: int|
                                0 <= k2 < n && #[trigger] is_job_row(rows[k2], id) && carries_refs(rows[k2]) implies row_ts(rows[k2])
                                    < row_ts(rows[idx]) || (row_ts(rows[k2]) == row_ts(rows[idx]) && k2 <= idx) by {
                                if k2 < n - 1 {
                                    assert(!carries_refs(rows[k2]));
                                }
                            }
                            assert(latest_refs_row(rows, n, id, idx));
                        } else {
                            assert forall|k: int|
                                0 <= k < n && #[trigger] is_job_row(rows[k], id) implies !carries_refs(rows[k]) by {
                                if k < n - 1 {
                                    assert(!carries_refs(rows[k]));
                                }
                            }
                        }
                    }
                    if t < p.first_seen {
                        assert(j.first_seen == row_ts(rows[idx]));
                    } else {
                        assert(j.first_seen == row_ts(rows[kf]));
                    }
                    if t > p.last_seen {
                        assert(j.last_seen == row_ts(rows[idx]));
                    } else {
                        assert(j.last_seen == row_ts(rows[kl]));
                    }
                    assert forall|k: int| 0 <= k < n && #[trigger] is_job_row(rows[k], id) implies j.first_seen
                        <= row_ts(rows[k]) <= j.last_seen by {
                        if k < n - 1 {
                            assert(p.first_seen <= row_ts(rows[k]) <= p.last_seen);
                        }
                    }
                },
            }
        } else {
            match job_at(m.jobs, id) {
                None => {
                    assert forall|k: int| 0 <= k < n implies !#[trigger] is_job_row(rows[k], id) by {
                        if k < n - 1 {
                            assert(!is_job_row(rows[k], id));
                        }
                    }
                },
                Some(p) => {
                    let kf = choose|k: int| 0 <= k < n - 1 && #[trigger] is_job_row(rows[k], id) && p.first_seen == row_ts(rows[k]);
                    let kl = choose|k: int| 0 <= k < n - 1 && #[trigger] is_job_row(rows[k], id) && p.last_seen == row_ts(rows[k]);
                    assert(is_job_row(rows[kf], id) && is_job_row(rows[kl], id));
                    assert forall|k: int| 0 <= k < n && #[trigger] is_job_row(rows[k], id) implies p.first_seen
                        <= row_ts(rows[k]) <= p.last_seen by {
                        if k < n - 1 {
                            assert(p.first_seen <= row_ts(rows[k]) <= p.last_seen);
                        }
                    }
                    if exists|k: int| #[trigger] latest_refs_row(rows, n - 1, id, k) && p.edges_at == row_ts(rows[k]) && p.inputs
                        == rows[k].inputs@ && p.outputs == rows[k].outputs@ {
                        let kw = choose|k: int| #[trigger] latest_refs_row(rows, n - 1, id, k) && p.edges_at == row_ts(rows[k]) && p.inputs
                            == rows[k].inputs@ && p.outputs == rows[k].outputs@;
                        assert forall|k2: int|
                            0 <= k2 < n && #[trigger] is_job_row(rows[k2], id) && carries_refs(rows[k2]) implies row_ts(rows[k2])
                                < row_ts(rows[kw]) || (row_ts(rows[k2]) == row_ts(rows[kw]) && k2 <= kw) by {
                            if k2 < n - 1 {
                                assert(latest_refs_row(rows, n - 1, id, kw));
                            }
                        }
                        assert(latest_refs_row(rows, n, id, kw));
                    } else {
                        assert forall|k: int|
                            0 <= k < n && #[trigger] is_job_row(rows[k], id) implies !carries_refs(rows[k]) by {
                            if k < n - 1 {
                                assert(!carries_refs(rows[k]));
                            }
                        }
                    }
                },
            }
        }
    }
}

/// Folding a log of events: every job recorded is one that some event names,
/// and its first and last seen are the earliest and latest times of its
/// events; its inputs and outputs are those of its latest event that carries
/// any dataset reference (a later row wins a tie in time), or none when no
/// event of it does. A job no event names is not recorded.
pub proof fn lemma_fold_job_summary(rows: Seq<EventRow>, id: EntityId)
    ensures
        match job_at(model_of(rows, rows.len() as int).jobs, id) {
            Some(j) => job_summary(rows, rows.len() as int, id, j),
            None => forall|k: int| 0 <= k < rows.len() ==> !#[trigger] is_job_row(rows[k], id),
        },
{
    lemma_fold_job_summary_at(rows, rows.len() as int, id);
}

/// Every dataset a folded log mentions is recorded: each reference of a
/// `run` or `job` event that names its job, and each `dataset` event that
/// names its dataset.
pub proof fn lemma_fold_records_datasets(rows: Seq<EventRow>, n: int)
    requires
        0 <= n <= rows.len(),
    ensures
        forall|k: int, x: int|
            0 <= k < n && (rows[k].kind@ == "run"@ || rows[k].kind@ == "job"@) && job_id_of(rows[k]) is Some && 0
                <= x < rows[k].inputs@.len() ==> has_dataset(model_of(rows, n).datasets, #[trigger] rows[k].inputs@[x]),
        forall|k: int, x: int|
            0 <= k < n && (rows[k].kind@ == "run"@ || rows[k].kind@ == "job"@) && job_id_of(rows[k]) is Some && 0
                <= x < rows[k].outputs@.len() ==> has_dataset(model_of(rows, n).datasets, #[trigger] rows[k].outputs@[x]),
        forall|k: int|
            0 <= k < n && #[trigger] rows[k].kind@ == "dataset"@ && rows[k].dataset_namespace is Some
                && rows[k].dataset_name is Some ==> has_dataset(
                model_of(rows, n).datasets,
                EntityId { namespace: rows[k].dataset_namespace->0, name: rows[k].dataset_name->0 },
            ),
    decreases n,
{
    if n > 0 {
        lemma_fold_records_datasets(rows, n - 1);
        lemma_model_of_wf(rows, n - 1);
        let m = model_of(rows, n - 1);
        let row = rows[n - 1];
        let t = ts_or_zero(row.event_time);
        let r = model_of(rows, n);
        assert(r == model_after_row(m, row));
        assert(datasets_wf(m.datasets));
        if (row.kind@ == "run"@ || row.kind@ == "job"@) {
            if job_id_of(row) is Some {
                lemma_note_inputs(m.datasets, row, t, row.inputs@.len() as int);
                let ds1 = note_inputs(m.datasets, row, t, row.inputs@.len() as int);
                lemma_note_outputs(ds1, row, t, row.outputs@.len() as int);
                let ds2 = note_outputs(ds1, row, t, row.outputs@.len() as int);
                assert(r.datasets == ds2);
                assert forall|d: EntityId| has_dataset(m.datasets, d) implies #[trigger] has_dataset(r.datasets, d) by {
                    assert(has_dataset(ds1, d));
                }
                assert forall|x: int| 0 <= x < row.inputs@.len() implies has_dataset(r.datasets, #[trigger] row.inputs@[x]) by {
                    assert(has_dataset(ds1, row.inputs@[x]));
                }
            } else {
                assert(r == m);
            }
        } else if row.kind@ == "dataset"@ {
            match (row.dataset_namespace, row.dataset_name) {
                (Some(ns), Some(nm)) => {
                    let id = EntityId { namespace: ns, name: nm };
                    lemma_note_dataset(m.datasets, id, t, None);
                    assert(r.datasets == note_dataset_spec(m.datasets, id, t, None));
                    assert forall|d: EntityId| has_dataset(m.datasets, d) implies #[trigger] has_dataset(r.datasets, d) by {}
                },
                _ => {
                    assert(r == m);
                },
            }
        } else {
            assert(r == m);
        }
        assert forall|k: int, x: int|
            0 <= k < n && (rows[k].kind@ == "run"@ || rows[k].kind@ == "job"@) && job_id_of(rows[k]) is Some && 0
                <= x < rows[k].inputs@.len() implies has_dataset(r.datasets, #[trigger] rows[k].inputs@[x]) by {
            if k < n - 1 {
                assert(has_dataset(m.datasets, rows[k].inputs@[x]));
            }
        }
        assert forall|k: int, x: int|
            0 <= k < n && (rows[k].kind@ == "run"@ || rows[k].kind@ == "job"@) && job_id_of(rows[k]) is Some && 0
                <= x < rows[k].outputs@.len() implies has_dataset(r.datasets, #[trigger] rows[k].outputs@[x]) by {
            if k < n - 1 {
                assert(has_dataset(m.datasets, rows[k].outputs@[x]));
            }
        }
        assert forall|k: int|
            0 <= k < n && #[trigger] rows[k].kind@ == "dataset"@ && rows[k].dataset_namespace is Some
                && rows[k].dataset_name is Some implies has_dataset(
                r.datasets,
                EntityId { namespace: rows[k].dataset_namespace->0, name: rows[k].dataset_name->0 },
            ) by {
            let d = EntityId { namespace: rows[k].dataset_namespace->0, name: rows[k].dataset_name->0 };
            if k < n - 1 {
                assert(has_dataset(m.datasets, d));
                assert(has_dataset(r.datasets, d));
            } else {
                reveal_strlit("dataset");
                reveal_strlit("run");
                reveal_strlit("job");
                assert("dataset"@.len() == 7 && "run"@.len() == 3 && "job"@.len() == 3);
                assert(row.kind@ == "dataset"@);
                assert(!(row.kind@ == "run"@ || row.kind@ == "job"@));
                lemma_note_dataset(m.datasets, d, t, None);
                assert(r.datasets == note_dataset_spec(m.datasets, d, t, None));
            }
        }
    }
}

/// The run of id `rid` among `runs`, if there is one.
pub open spec fn run_named(runs: Seq<RunAgg>, rid: Seq<char>) -> Option<RunAgg> {
    match find_run(runs, rid) {
        Some(i) => Some(runs[i]),
        None => None,
    }
}

proof fn lemma_find_run_same_ids(a: Seq<RunAgg>, b: Seq<RunAgg>, q: Seq<char>, i: int)
    requires
        a.len() == b.len(),
        forall|k: int| 0 <= k < a.len() ==> (#[trigger] a[k]).run_id@ == b[k].run_id@,
    ensures
        find_run_from(a, q, i) == find_run_from(b, q, i),
    decreases a.len() - i,
{
    if 0 <= i < a.len() {
        assert(a[i].run_id@ == b[i].run_id@);
        lemma_find_run_same_ids(a, b, q, i + 1);
    }
}

proof fn lemma_find_run_push(a: Seq<RunAgg>, x: RunAgg, q: Seq<char>, i: int)
    requires
        0 <= i <= a.len(),
    ensures
        find_run_from(a.push(x), q, i) == match find_run_from(a, q, i) {
            Some(k) => Some(k),
            None => if x.run_id@ == q {
                Some(a.len() as int)
            } else {
                None
            },
        },
    decreases a.len() - i,
{
    if i < a.len() {
        assert(a.push(x)[i] == a[i]);
        lemma_find_run_push(a, x, q, i + 1);
    } else {
        assert(a.push(x)[i] == x);
        assert(find_run_from(a.push(x), q, i + 1) is None);
        assert(find_run_from(a, q, i) is None);
    }
}

/// One event of run `rid` (type `et`, time `ts`) folded into a job's runs:
/// the run is there afterwards under its id; its state becomes the state the
/// event type sets when that state is terminal or the run's was not, and
/// stays otherwise (a new run starts as `NEW`); first and last seen widen to
/// the event's time (an unknown time counting as zero); a terminal event with
/// a time sets when the run ended, a `START` with a time when it started, and
/// otherwise these stay; every other run is unchanged.
pub proof fn lemma_fold_run(runs: Seq<RunAgg>, rid: String, et: Option<Seq<char>>, ts: Option<i64>)
    ensures
        ({
            let after = runs_after_event(runs, rid, et, ts);
            let before = run_named(runs, rid@);
            let prev = match before {
                Some(b) => b.state,
                None => RunState::New,
            };
            let s = match et {
                Some(e) => state_of_event_type(e),
                None => None,
            };
            let t = ts_or_zero(ts);
            &&& run_named(after, rid@) matches Some(r)
            &&& r.run_id@ == rid@
            &&& r.state == if s is Some && (s->0.terminal() || !prev.terminal()) {
                s->0
            } else {
                prev
            }
            &&& r.first_seen == match before {
                Some(b) => min_i64(b.first_seen, t),
                None => t,
            }
            &&& r.last_seen == match before {
                Some(b) => max_i64(b.last_seen, t),
                None => t,
            }
            &&& r.ended_at == if ts is Some && s is Some && s->0.terminal() {
                ts
            } else {
                match before {
                    Some(b) => b.ended_at,
                    None => None,
                }
            }
            &&& r.started_at == if ts is Some && is_start_type(et) {
                ts
            } else {
                match before {
                    Some(b) => b.started_at,
                    None => None,
                }
            }
            &&& forall|q: Seq<char>| q != rid@ ==> #[trigger] run_named(after, q) == run_named(runs, q)
        }),
{
    let after = runs_after_event(runs, rid, et, ts);
    lemma_find_run_from(runs, rid@, 0);
    match find_run(runs, rid@) {
        Some(i) => {
            assert forall|k: int| 0 <= k < runs.len() implies (#[trigger] runs[k]).run_id@ == after[k].run_id@ by {}
            lemma_find_run_same_ids(runs, after, rid@, 0);
            assert forall|q: Seq<char>| q != rid@ implies #[trigger] run_named(after, q) == run_named(runs, q) by {
                lemma_find_run_same_ids(runs, after, q, 0);
                lemma_find_run_from(runs, q, 0);
                if let Some(k) = find_run(runs, q) {
                    assert(k != i);
                    assert(after[k] == runs[k]);
                }
            }
        },
        None => {
            let x = run_after_event(new_run(rid, ts), et, ts);
            assert(after == runs.push(x));
            lemma_find_run_push(runs, x, rid@, 0);
            assert(after[runs.len() as int] == x);
            assert forall|q: Seq<char>| q != rid@ implies #[trigger] run_named(after, q) == run_named(runs, q) by {
                lemma_find_run_push(runs, x, q, 0);
                lemma_find_run_from(runs, q, 0);
                if let Some(k) = find_run(runs, q) {
                    assert(after[k] == runs[k]);
                }
            }
        },
    }
}

/// One sighting of a dataset at `t`: its last seen moves up to `t` if it
/// was earlier and otherwise stays; its first seen moves down to `t` if it
/// was later (a dataset never seen before starts at `t`).
pub proof fn lemma_sighting_widens(d: DatasetView, t: i64, schema: Option<Seq<String>>)
    ensures
        dataset_after_note(d, t, schema).last_seen >= t,
        dataset_after_note(d, t, schema).last_seen >= d.last_seen,
        dataset_after_note(d, t, schema).last_seen == t || dataset_after_note(d, t, schema).last_seen
            == d.last_seen,
        dataset_after_note(d, t, schema).first_seen <= t,
        !(d.first_seen == 0 && d.last_seen == 0 && d.schema_at == 0) ==> dataset_after_note(d, t, schema).first_seen
            <= d.first_seen && (dataset_after_note(d, t, schema).first_seen == t || dataset_after_note(
            d,
            t,
            schema,
        ).first_seen == d.first_seen),
        d.first_seen == 0 && d.last_seen == 0 && d.schema_at == 0 ==> dataset_after_note(d, t, schema).first_seen
            == t,
{
}

/// The aggregate of dataset `d` in `ds`, if it is recorded.
pub open spec fn dataset_at(ds: Seq<(EntityId, DatasetView)>, d: EntityId) -> Option<DatasetView> {
    match find_dataset(ds, d) {
        Some(i) => Some(ds[i].1),
        None => None,
    }
}

/// Whether a row mentions dataset `d`: a `run` or `job` event naming its job
/// that references `d` among its inputs or outputs, or a `dataset` event
/// naming `d`.
pub open spec fn row_mentions(row: EventRow, d: EntityId) -> bool {
    ||| (row.kind@ == "run"@ || row.kind@ == "job"@) && job_id_of(row) is Some && ((exists|k: int|
        0 <= k < row.inputs@.len() && same_id(#[trigger] row.inputs@[k], d)) || (exists|k: int|
        0 <= k < row.outputs@.len() && same_id(#[trigger] row.outputs@[k], d)))
    ||| row.kind@ == "dataset"@ && row.dataset_namespace is Some && row.dataset_name is Some && same_id(
        EntityId { namespace: row.dataset_namespace->0, name: row.dataset_name->0 },
        d,
    )
}

spec fn seen_last(o: Option<DatasetView>, t: i64) -> i64 {
    match o {
        Some(v) => max_i64(v.last_seen, t),
        None => t,
    }
}

spec fn seen_first(o: Option<DatasetView>, t: i64) -> i64 {
    match o {
        Some(v) => if v.first_seen == 0 && v.last_seen == 0 && v.schema_at == 0 {
            t
        } else {
            min_i64(v.first_seen, t)
        },
        None => t,
    }
}

/// A second sighting at the same time changes neither time.
proof fn lemma_seen_again(o: Option<DatasetView>, t: i64, v: DatasetView)
    requires
        t >= 0,
        v.last_seen == seen_last(o, t),
        v.first_seen == seen_first(o, t),
    ensures
        seen_last(Some(v), t) == v.last_seen,
        seen_first(Some(v), t) == v.first_seen,
{
}

proof fn lemma_dataset_at_note(
    ds: Seq<(EntityId, DatasetView)>,
    id: EntityId,
    t: i64,
    schema: Option<Seq<String>>,
    d: EntityId,
)
    requires
        datasets_wf(ds),
        t >= 0,
    ensures
        same_id(id, d) ==> (dataset_at(note_dataset_spec(ds, id, t, schema), d) matches Some(v) && v.last_seen
            == seen_last(dataset_at(ds, d), t) && v.first_seen == seen_first(dataset_at(ds, d), t)),
        !same_id(id, d) ==> dataset_at(note_dataset_spec(ds, id, t, schema), d) == dataset_at(ds, d),
{
    let r = note_dataset_spec(ds, id, t, schema);
    lemma_find_dataset_from(ds, id, 0);
    lemma_find_dataset_from(ds, d, 0);
    lemma_find_dataset_from(r, d, 0);
    match find_dataset(ds, id) {
        Some(j) => {
            assert forall|k: int| 0 <= k < ds.len() implies #[trigger] r[k].0 == ds[k].0 by {}
            lemma_find_dataset_same_keys(ds, r, d, 0);
            if same_id(id, d) {
                if let Some(j2) = find_dataset(ds, d) {
                    if j2 != j {
                        if j2 < j {
                            assert(!same_id(ds[j2].0, ds[j].0));
                        } else {
                            assert(!same_id(ds[j].0, ds[j2].0));
                        }
                    }
                } else {
                    assert(same_id(ds[j].0, d));
                }
            } else {
                if let Some(k) = find_dataset(ds, d) {
                    assert(k != j);
                }
            }
        },
        None => {
            let n = ds.len() as int;
            if same_id(id, d) {
                assert(find_dataset(ds, d) is None) by {
                    if let Some(k) = find_dataset(ds, d) {
                        assert(same_id(ds[k].0, id));
                    }
                }
                assert(same_id(r[n].0, d));
                if let Some(k) = find_dataset(r, d) {
                    if k < n {
                        assert(r[k] == ds[k]);
                    }
                }
            } else {
                if let Some(k) = find_dataset(r, d) {
                    assert(k < n);
                    assert(r[k] == ds[k]);
                    if let Some(k0) = find_dataset(ds, d) {
                        if k != k0 {
                            if k < k0 {
                                assert(!same_id(ds[k].0, ds[k0].0));
                            } else {
                                assert(!same_id(ds[k0].0, ds[k].0));
                            }
                        }
                    }
                } else {
                    if let Some(k0) = find_dataset(ds, d) {
                        assert(r[k0] == ds[k0]);
                    }
                }
            }
        },
    }
}

proof fn lemma_find_dataset_same_keys(
    a: Seq<(EntityId, DatasetView)>,
    b: Seq<(EntityId, DatasetView)>,
    id: EntityId,
    i: int,
)
    requires
        a.len() == b.len(),
        forall|k: int| 0 <= k < a.len() ==> #[trigger] a[k].0 == b[k].0,
    ensures
        crate::svc::fold::find_dataset_from(a, id, i) == crate::svc::fold::find_dataset_from(b, id, i),
    decreases a.len() - i,
{
    if 0 <= i < a.len() {
        assert(a[i].0 == b[i].0);
        lemma_find_dataset_same_keys(a, b, id, i + 1);
    }
}

proof fn lemma_dataset_at_inputs(ds: Seq<(EntityId, DatasetView)>, row: EventRow, t: i64, n: int, d: EntityId)
    requires
        datasets_wf(ds),
        t >= 0,
        0 <= n <= row.inputs@.len(),
    ensures
        (exists|k: int| 0 <= k < n && same_id(#[trigger] row.inputs@[k], d)) ==> (dataset_at(
            note_inputs(ds, row, t, n),
            d,
        ) matches Some(v) && v.last_seen == seen_last(dataset_at(ds, d), t) && v.first_seen == seen_first(
            dataset_at(ds, d),
            t,
        )),
        !(exists|k: int| 0 <= k < n && same_id(#[trigger] row.inputs@[k], d)) ==> dataset_at(
            note_inputs(ds, row, t, n),
            d,
        ) == dataset_at(ds, d),
    decreases n,
{
    if n > 0 {
        lemma_dataset_at_inputs(ds, row, t, n - 1, d);
        lemma_note_inputs(ds, row, t, n - 1);
        let prev = note_inputs(ds, row, t, n - 1);
        lemma_dataset_at_note(prev, row.inputs@[n - 1], t, None, d);
        if exists|k: int| 0 <= k < n - 1 && same_id(#[trigger] row.inputs@[k], d) {
            let v = dataset_at(prev, d)->0;
            lemma_seen_again(dataset_at(ds, d), t, v);
        } else {
            assert forall|k: int| 0 <= k < n && same_id(#[trigger] row.inputs@[k], d) implies k == n - 1 by {}
        }
    }
}

proof fn lemma_dataset_at_outputs(ds: Seq<(EntityId, DatasetView)>, row: EventRow, t: i64, n: int, d: EntityId)
    requires
        datasets_wf(ds),
        t >= 0,
        0 <= n <= row.outputs@.len(),
    ensures
        (exists|k: int| 0 <= k < n && same_id(#[trigger] row.outputs@[k], d)) ==> (dataset_at(
            note_outputs(ds, row, t, n),
            d,
        ) matches Some(v) && v.last_seen == seen_last(dataset_at(ds, d), t) && v.first_seen == seen_first(
            dataset_at(ds, d),
            t,
        )),
        !(exists|k: int| 0 <= k < n && same_id(#[trigger] row.outputs@[k], d)) ==> dataset_at(
            note_outputs(ds, row, t, n),
            d,
        ) == dataset_at(ds, d),
    decreases n,
{
    if n > 0 {
        lemma_dataset_at_outputs(ds, row, t, n - 1, d);
        lemma_note_outputs(ds, row, t, n - 1);
        let prev = note_outputs(ds, row, t, n - 1);
        lemma_dataset_at_note(prev, row.outputs@[n - 1], t, schema_for(row.output_schemas@, row.outputs@[n - 1]), d);
        if exists|k: int| 0 <= k < n - 1 && same_id(#[trigger] row.outputs@[k], d) {
            let v = dataset_at(prev, d)->0;
            lemma_seen_again(dataset_at(ds, d), t, v);
        } else {
            assert forall|k: int| 0 <= k < n && same_id(#[trigger] row.outputs@[k], d) implies k == n - 1 by {}
        }
    }
}

/// How one row changes the aggregate of dataset `d`: a row that mentions it
/// sees it at the row's time; any other row leaves it.
proof fn lemma_dataset_at_after_row(m: ModelView, row: EventRow, d: EntityId)
    requires
        model_wf(m),
        row_ts(row) >= 0,
    ensures
        row_mentions(row, d) ==> (dataset_at(model_after_row(m, row).datasets, d) matches Some(v) && v.last_seen
            == seen_last(dataset_at(m.datasets, d), row_ts(row)) && v.first_seen == seen_first(
            dataset_at(m.datasets, d),
            row_ts(row),
        )),
        !row_mentions(row, d) ==> dataset_at(model_after_row(m, row).datasets, d) == dataset_at(m.datasets, d),
{
    reveal_strlit("run");
    reveal_strlit("job");
    reveal_strlit("dataset");
    assert("run"@.len() == 3 && "job"@.len() == 3 && "dataset"@.len() == 7);
    let t = row_ts(row);
    let r = model_after_row(m, row);
    assert(datasets_wf(m.datasets));
    if (row.kind@ == "run"@ || row.kind@ == "job"@) {
        assert(row.kind@ != "dataset"@);
        if job_id_of(row) is Some {
            let n_in = row.inputs@.len() as int;
            let n_out = row.outputs@.len() as int;
            lemma_dataset_at_inputs(m.datasets, row, t, n_in, d);
            lemma_note_inputs(m.datasets, row, t, n_in);
            let ds1 = note_inputs(m.datasets, row, t, n_in);
            lemma_dataset_at_outputs(ds1, row, t, n_out, d);
            assert(r.datasets == note_outputs(ds1, row, t, n_out));
            if (exists|k: int| 0 <= k < n_in && same_id(#[trigger] row.inputs@[k], d)) && (exists|k: int|
                0 <= k < n_out && same_id(#[trigger] row.outputs@[k], d)) {
                let v = dataset_at(ds1, d)->0;
                lemma_seen_again(dataset_at(m.datasets, d), t, v);
            }
        } else {
            assert(r == m);
        }
    } else if row.kind@ == "dataset"@ {
        match (row.dataset_namespace, row.dataset_name) {
            (Some(ns), Some(nm)) => {
                lemma_dataset_at_note(m.datasets, EntityId { namespace: ns, name: nm }, t, None, d);
            },
            _ => {
                assert(r == m);
            },
        }
    } else {
        assert(r == m);
    }
}

/// Folding a log of events, a dataset is recorded exactly when some event
/// mentions it, and its last seen is the latest time of those events; when
/// every event time is positive its first seen is the earliest. (Event times
/// are taken as non-negative: an unknown time counts as zero.)
pub proof fn lemma_fold_dataset_span(rows: Seq<EventRow>, n: int, d: EntityId)
    requires
        0 <= n <= rows.len(),
        forall|k: int| 0 <= k < rows.len() ==> row_ts(#[trigger] rows[k]) >= 0,
    ensures
        match dataset_at(model_of(rows, n).datasets, d) {
            Some(v) => {
                &&& exists|k: int| 0 <= k < n && #[trigger] row_mentions(rows[k], d) && v.last_seen == row_ts(rows[k])
                &&& forall|k: int| 0 <= k < n && #[trigger] row_mentions(rows[k], d) ==> row_ts(rows[k]) <= v.last_seen
                &&& (forall|k: int| 0 <= k < n ==> row_ts(#[trigger] rows[k]) > 0) ==> ((exists|k: int|
                    0 <= k < n && #[trigger] row_mentions(rows[k], d) && v.first_seen == row_ts(rows[k])) && (forall|
                    k: int,
                | 0 <= k < n && #[trigger] row_mentions(rows[k], d) ==> v.first_seen <= row_ts(rows[k])))
            },
            None => forall|k: int| 0 <= k < n ==> !#[trigger] row_mentions(rows[k], d),
        },
    decreases n,
{
    if n > 0 {
        lemma_fold_dataset_span(rows, n - 1, d);
        lemma_model_of_wf(rows, n - 1);
        let m = model_of(rows, n - 1);
        let row = rows[n - 1];
        let t = row_ts(row);
        assert(t >= 0);
        lemma_dataset_at_after_row(m, row, d);
        assert(model_of(rows, n) == model_after_row(m, row));
        let idx = n - 1;
        if row_mentions(row, d) {
            assert(row_mentions(rows[idx], d));
            let v = dataset_at(model_of(rows, n).datasets, d)->0;
            match dataset_at(m.datasets, d) {
                None => {
                    assert forall|k: int| 0 <= k < n && #[trigger] row_mentions(rows[k], d) implies k == idx by {}
                    assert(v.last_seen == row_ts(rows[idx]) && v.first_seen == row_ts(rows[idx]));
                },
                Some(p) => {
                    let kl = choose|k: int| 0 <= k < n - 1 && #[trigger] row_mentions(rows[k], d) && p.last_seen == row_ts(rows[k]);
                    assert(row_mentions(rows[kl], d));
                    if t > p.last_seen {
                        assert(v.last_seen == row_ts(rows[idx]));
                    } else {
                        assert(v.last_seen == row_ts(rows[kl]));
                    }
                    assert forall|k: int| 0 <= k < n && #[trigger] row_mentions(rows[k], d) implies row_ts(rows[k]) <= v.last_seen by {
                        if k < n - 1 {
                            assert(row_ts(rows[k]) <= p.last_seen);
                        }
                    }
                    if forall|k: int| 0 <= k < n ==> row_ts(#[trigger] rows[k]) > 0 {
                        assert(forall|k: int| 0 <= k < n - 1 ==> row_ts(#[trigger] rows[k]) > 0);
                        let kf = choose|k: int| 0 <= k < n - 1 && #[trigger] row_mentions(rows[k], d) && p.first_seen == row_ts(rows[k]);
                        assert(row_mentions(rows[kf], d));
                        assert(row_ts(rows[kl]) > 0);
                        assert(p.last_seen > 0);
                        if t < p.first_seen {
                            assert(v.first_seen == row_ts(rows[idx]));
                        } else {
                            assert(v.first_seen == row_ts(rows[kf]));
                        }
                        assert forall|k: int| 0 <= k < n && #[trigger] row_mentions(rows[k], d) implies v.first_seen <= row_ts(rows[k]) by {
                            if k < n - 1 {
                                assert(p.first_seen <= row_ts(rows[k]));
                            }
                        }
                    }
                },
            }
        } else {
            match dataset_at(m.datasets, d) {
                None => {
                    assert forall|k: int| 0 <= k < n implies !#[trigger] row_mentions(rows[k], d) by {
                        if k < n - 1 {
                            assert(!row_mentions(rows[k], d));
                        }
                    }
                },
                Some(p) => {
                    let kl = choose|k: int| 0 <= k < n - 1 && #[trigger] row_mentions(rows[k], d) && p.last_seen == row_ts(rows[k]);
                    assert(row_mentions(rows[kl], d));
                    assert forall|k: int| 0 <= k < n && #[trigger] row_mentions(rows[k], d) implies row_ts(rows[k]) <= p.last_seen by {
                        if k < n - 1 {
                            assert(row_ts(rows[k]) <= p.last_seen);
                        }
                    }
                    if forall|k: int| 0 <= k < n ==> row_ts(#[trigger] rows[k]) > 0 {
                        assert(forall|k: int| 0 <= k < n - 1 ==> row_ts(#[trigger] rows[k]) > 0);
                        let kf = choose|k: int| 0 <= k < n - 1 && #[trigger] row_mentions(rows[k], d) && p.first_seen == row_ts(rows[k]);
                        assert(row_mentions(rows[kf], d));
                        assert forall|k: int| 0 <= k < n && #[trigger] row_mentions(rows[k], d) implies p.first_seen <= row_ts(rows[k]) by {
                            if k < n - 1 {
                                assert(p.first_seen <= row_ts(rows[k]));
                            }
                        }
                    }
                },
            }
        }
    }
}

} // verus!
