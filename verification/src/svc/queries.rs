//! The Marquez read endpoints derived from the reconstructed [`Model`]:
//! namespaces, job and dataset listings and details, run history, search and
//! the lineage graph.

use std::collections::hash_map::DefaultHasher;
use std::hash::Hasher;

use vstd::prelude::*;
use vstd::std_specs::hash::DefaultHasherAdditionalSpecFns;

use crate::sort::{lemma_lex_antisym, lemma_lex_lt_trans, lemma_lex_refl, lemma_lex_total, lex_lt, lemma_lex_trans, lex_le, sort_ranked, sorted_by_rank, str_le, Ranked};
use crate::strmap::str_eq;
use crate::svc::fold::{DatasetAgg, DatasetView, JobAgg, JobView, Model, ModelView};
use crate::svc::model::{
    dataset_word, job_node_id, job_word, node_id_text, Dataset, Datasets, EntityId, Job, Jobs,
    Namespace, Namespaces, Runs, Search, SearchResult, dataset_node_id, LineageEdge,
    LineageGraph, LineageNode, NodeData, NodeKind, parse_node_id, parse_node_id_spec,
    DatasetVersion, DatasetVersionId, DatasetVersions,
};
use crate::svc::runs::{build_run, max_i64, min_i64, LatestRun, RunAgg};
use crate::svc::read::ReadError;
use crate::svc::time::{micros_to_rfc3339, rfc3339_text};
use crate::text::{
    contains_seq, contains_str, copy_opt, copy_strings, hex_fixed, hex_text, owned, string_of_chars,
    to_lowercase, unicode_lowercase,
};

verus! {

/// Runs newest first: by last event time, then by first event time, both
/// descending.
impl Ranked for RunAgg {
    open spec fn rank_le(a: RunAgg, b: RunAgg) -> bool {
        a.last_seen > b.last_seen || (a.last_seen == b.last_seen && a.first_seen >= b.first_seen)
    }

    proof fn lemma_rank_total(a: RunAgg, b: RunAgg) {
    }

    proof fn lemma_rank_trans(a: RunAgg, b: RunAgg, c: RunAgg) {
    }

    fn ranks_le(a: &RunAgg, b: &RunAgg) -> (r: bool) {
        a.last_seen > b.last_seen || (a.last_seen == b.last_seen && a.first_seen >= b.first_seen)
    }
}

fn copy_run(r: &RunAgg) -> (c: RunAgg)
    ensures
        c == *r,
{
    RunAgg {
        run_id: r.run_id.clone(),
        state: r.state,
        first_seen: r.first_seen,
        last_seen: r.last_seen,
        started_at: r.started_at,
        ended_at: r.ended_at,
    }
}

fn copy_latest_run(r: &LatestRun) -> (c: LatestRun)
    ensures
        c == *r,
{
    LatestRun {
        id: r.id.clone(),
        created_at: r.created_at.clone(),
        updated_at: r.updated_at.clone(),
        state: r.state.clone(),
        nominal_start_time: copy_opt(&r.nominal_start_time),
        nominal_end_time: copy_opt(&r.nominal_end_time),
        started_at: copy_opt(&r.started_at),
        ended_at: copy_opt(&r.ended_at),
        duration_ms: r.duration_ms,
    }
}

/// `out` renders the runs `s` one for one.
pub open spec fn runs_render(out: Seq<LatestRun>, s: Seq<RunAgg>) -> bool {
    &&& out.len() == s.len()
    &&& forall|i: int| 0 <= i < s.len() ==> (#[trigger] out[i]).renders(s[i])
}

/// The `latestRuns` of a job: its runs newest first, each rendered; a job
/// without runs gets the one neutral run.
pub open spec fn latest_runs_of(
    out: Seq<LatestRun>,
    runs: Seq<RunAgg>,
    job_node: Seq<char>,
    updated_at: Seq<char>,
) -> bool {
    if runs.len() == 0 {
        out.len() == 1 && out[0].is_neutral_for(job_node, updated_at)
    } else {
        exists|s: Seq<RunAgg>|
            #![trigger sorted_by_rank(s)]
            sorted_by_rank(s) && s.to_multiset() == runs.to_multiset() && runs_render(out, s)
    }
}

/// `j` is the Marquez job built from job `id` with aggregate `agg`.
pub open spec fn job_renders(j: Job, id: EntityId, agg: JobView) -> bool {
    &&& j.id == id
    &&& j.job_type@ == "BATCH"@
    &&& j.name == id.name
    &&& j.simple_name == id.name
    &&& j.namespace == id.namespace
    &&& j.created_at@ == rfc3339_text(agg.first_seen)
    &&& j.updated_at@ == rfc3339_text(agg.last_seen)
    &&& j.inputs@ == agg.inputs
    &&& j.outputs@ == agg.outputs
    &&& j.location is None
    &&& j.description == agg.description
    &&& j.tags@.map_values(|s: String| s@) == agg.tags
    &&& latest_runs_of(
        j.latest_runs@,
        agg.runs,
        node_id_text(job_word(), id.namespace@, id.name@),
        rfc3339_text(agg.last_seen),
    )
    &&& j.latest_run == (if j.latest_runs@.len() > 0 {
        Some(j.latest_runs@[0])
    } else {
        None
    })
    &&& j.parent_job_name is None
    &&& j.parent_job_uuid is None
}

/// The runs of a job, newest first (ties keep their arrival order).
pub fn newest_first(runs: &Vec<RunAgg>) -> (r: Vec<RunAgg>)
    ensures
        sorted_by_rank(r@),
        r@.to_multiset() == runs@.to_multiset(),
{
    let mut v: Vec<RunAgg> = Vec::new();
    let mut i: usize = 0;
    while i < runs.len()
        invariant
            i <= runs.len(),
            v@ == runs@.take(i as int),
        decreases runs.len() - i,
    {
        v.push(copy_run(&runs[i]));
        i = i + 1;
        assert(v@ =~= runs@.take(i as int));
    }
    assert(runs@.take(i as int) =~= runs@);
    sort_ranked(v)
}

/// Build the Marquez job of `id` from its aggregate.
pub fn build_job(id: &EntityId, agg: &JobAgg) -> (j: Job)
    ensures
        job_renders(j, *id, agg@),
{
    let updated_at = micros_to_rfc3339(agg.last_seen);
    let node_id = job_node_id(id.namespace.as_str(), id.name.as_str());
    let latest_runs: Vec<LatestRun> = if agg.runs.len() == 0 {
        let mut v: Vec<LatestRun> = Vec::new();
        v.push(LatestRun::neutral(node_id.as_str(), updated_at.as_str()));
        v
    } else {
        let sorted = newest_first(&agg.runs);
        let mut v: Vec<LatestRun> = Vec::new();
        let mut i: usize = 0;
        while i < sorted.len()
            invariant
                i <= sorted.len(),
                v@.len() == i,
                forall|k: int| 0 <= k < i ==> (#[trigger] v@[k]).renders(sorted@[k]),
            decreases sorted.len() - i,
        {
            v.push(build_run(&sorted[i]));
            i = i + 1;
        }
        proof {
            assert(runs_render(v@, sorted@));
            assert(sorted_by_rank(sorted@));
        }
        v
    };
    let latest_run = if latest_runs.len() > 0 {
        Some(copy_latest_run(&latest_runs[0]))
    } else {
        None
    };
    Job {
        id: EntityId { namespace: id.namespace.clone(), name: id.name.clone() },
        job_type: owned("BATCH"),
        name: id.name.clone(),
        simple_name: id.name.clone(),
        namespace: id.namespace.clone(),
        created_at: micros_to_rfc3339(agg.first_seen),
        updated_at,
        inputs: crate::svc::fold::copy_entities(&agg.inputs),
        outputs: crate::svc::fold::copy_entities(&agg.outputs),
        location: None,
        description: copy_opt(&agg.description),
        latest_run,
        latest_runs,
        tags: copy_strings(&agg.tags),
        parent_job_name: None,
        parent_job_uuid: None,
    }
}

/// Comma-separated concatenation.
pub open spec fn join_commas(items: Seq<Seq<char>>) -> Seq<char>
    decreases items.len(),
{
    if items.len() == 0 {
        Seq::empty()
    } else if items.len() == 1 {
        items[0]
    } else {
        join_commas(items.drop_last()) + ","@ + items.last()
    }
}

/// The facet object of a dataset as JSON text: its columns as a `schema`
/// facet, or `{}` without columns.
pub open spec fn dataset_facets_text(fields: Seq<Seq<char>>) -> Seq<char> {
    if fields.len() == 0 {
        "{}"@
    } else {
        "{\"schema\":{\"fields\":["@ + join_commas(fields) + "]}}"@
    }
}

pub open spec fn string_views(v: Seq<String>) -> Seq<Seq<char>> {
    v.map_values(|s: String| s@)
}

/// Join JSON texts with commas.
pub fn join_with_commas(items: &Vec<String>) -> (r: String)
    ensures
        r@ == join_commas(string_views(items@)),
{
    let mut out = String::new();
    let mut i: usize = 0;
    while i < items.len()
        invariant
            i <= items.len(),
            out@ == join_commas(string_views(items@.take(i as int))),
        decreases items.len() - i,
    {
        if i > 0 {
            out.append(",");
        }
        out.append(items[i].as_str());
        i = i + 1;
        proof {
            let t = string_views(items@.take(i as int));
            assert(t.drop_last() =~= string_views(items@.take(i - 1)));
            assert(t.last() == items@[i - 1]@);
        }
    }
    assert(items@.take(i as int) =~= items@);
    out
}

/// The facet object of a dataset with columns `fields`, as JSON text.
pub fn dataset_facets(fields: &Vec<String>) -> (r: String)
    ensures
        r@ == dataset_facets_text(string_views(fields@)),
{
    if fields.len() == 0 {
        owned("{}")
    } else {
        let mut out = owned("{\"schema\":{\"fields\":[");
        let joined = join_with_commas(fields);
        out.append(joined.as_str());
        out.append("]}}");
        out
    }
}

/// `d` is the Marquez dataset built from dataset `id` with aggregate `agg`.
pub open spec fn dataset_renders(d: Dataset, id: EntityId, agg: DatasetView) -> bool {
    &&& d.id == id
    &&& d.dataset_type@ == "DB_TABLE"@
    &&& d.name == id.name
    &&& d.physical_name == id.name
    &&& d.namespace == id.namespace
    &&& d.source_name == id.namespace
    &&& d.created_at@ == rfc3339_text(agg.first_seen)
    &&& d.updated_at@ == rfc3339_text(agg.last_seen)
    &&& d.description is None
    &&& d.fields@ == agg.fields
    &&& d.facets@ == dataset_facets_text(string_views(agg.fields))
    &&& d.tags@.len() == 0
    &&& !d.deleted
}

/// Build the Marquez dataset of `id` from its aggregate.
pub fn build_dataset(id: &EntityId, agg: &DatasetAgg) -> (d: Dataset)
    ensures
        dataset_renders(d, *id, agg@),
{
    Dataset {
        id: EntityId { namespace: id.namespace.clone(), name: id.name.clone() },
        dataset_type: owned("DB_TABLE"),
        name: id.name.clone(),
        physical_name: id.name.clone(),
        namespace: id.namespace.clone(),
        source_name: id.namespace.clone(),
        created_at: micros_to_rfc3339(agg.first_seen),
        updated_at: micros_to_rfc3339(agg.last_seen),
        description: None,
        fields: copy_strings(&agg.fields),
        facets: dataset_facets(&agg.fields),
        tags: Vec::new(),
        deleted: false,
    }
}


/// Every job and dataset with its first and last event time.
pub open spec fn entity_spans(m: ModelView) -> Seq<(EntityId, i64, i64)> {
    m.jobs.map_values(|p: (EntityId, JobView)| (p.0, p.1.first_seen, p.1.last_seen))
        + m.datasets.map_values(
        |p: (EntityId, DatasetView)| (p.0, p.1.first_seen, p.1.last_seen),
    )
}

/// The earliest first-seen and latest last-seen time over the entities of
/// namespace `ns`, if it has any.
pub open spec fn ns_span(e: Seq<(EntityId, i64, i64)>, ns: Seq<char>) -> Option<(i64, i64)>
    decreases e.len(),
{
    if e.len() == 0 {
        None
    } else {
        let rest = ns_span(e.drop_last(), ns);
        let x = e.last();
        if x.0.namespace@ == ns {
            match rest {
                None => Some((x.1, x.2)),
                Some((lo, hi)) => Some((min_i64(lo, x.1), max_i64(hi, x.2))),
            }
        } else {
            rest
        }
    }
}

/// The namespace listing of model `m`: every non-empty namespace of a job or
/// a dataset exactly once, by name, spanning its entities' times.
pub open spec fn namespaces_render(out: Seq<Namespace>, m: ModelView) -> bool {
    let e = entity_spans(m);
    &&& forall|i: int, j: int|
        0 <= i < j < out.len() ==> lex_lt(#[trigger] out[i].name@, #[trigger] out[j].name@)
    &&& forall|i: int|
        0 <= i < out.len() ==> {
            &&& (#[trigger] out[i]).name@.len() > 0
            &&& ns_span(e, out[i].name@) matches Some((lo, hi)) && out[i].created_at@
                == rfc3339_text(lo) && out[i].updated_at@ == rfc3339_text(hi)
            &&& out[i].owner_name is None
            &&& out[i].description is None
            &&& !out[i].is_hidden
        }
    &&& forall|ns: Seq<char>|
        ns.len() > 0 && (#[trigger] ns_span(e, ns)) is Some ==> exists|i: int|
            0 <= i < out.len() && (#[trigger] out[i]).name@ == ns
}

struct NsAcc {
    name: String,
    lo: i64,
    hi: i64,
}

spec fn ns_acc_ok(acc: Seq<NsAcc>, e: Seq<(EntityId, i64, i64)>) -> bool {
    &&& forall|i: int, j: int|
        0 <= i < j < acc.len() ==> lex_lt(#[trigger] acc[i].name@, #[trigger] acc[j].name@)
    &&& forall|i: int|
        0 <= i < acc.len() ==> (#[trigger] acc[i]).name@.len() > 0 && ns_span(e, acc[i].name@)
            == Some((acc[i].lo, acc[i].hi))
    &&& forall|ns: Seq<char>|
        ns.len() > 0 && (#[trigger] ns_span(e, ns)) is Some ==> exists|i: int|
            0 <= i < acc.len() && (#[trigger] acc[i]).name@ == ns
}


proof fn lemma_ns_span_push(e: Seq<(EntityId, i64, i64)>, x: (EntityId, i64, i64), ns: Seq<char>)
    ensures
        ns_span(e.push(x), ns) == (if x.0.namespace@ == ns {
            match ns_span(e, ns) {
                None => Some((x.1, x.2)),
                Some((lo, hi)) => Some((min_i64(lo, x.1), max_i64(hi, x.2))),
            }
        } else {
            ns_span(e, ns)
        }),
{
    assert(e.push(x).drop_last() =~= e);
}

/// Record one entity's times in the namespace accumulator.
fn note_namespace(
    acc: &mut Vec<NsAcc>,
    Ghost(e): Ghost<Seq<(EntityId, i64, i64)>>,
    id: &EntityId,
    lo: i64,
    hi: i64,
)
    requires
        ns_acc_ok(old(acc)@, e),
    ensures
        ns_acc_ok(final(acc)@, e.push((*id, lo, hi))),
{
    let ghost x = (*id, lo, hi);
    let ghost e2 = e.push(x);
    let ghost a0 = acc@;
    proof {
        assert forall|n: Seq<char>| #![trigger ns_span(e2, n)]
            ns_span(e2, n) == (if id.namespace@ == n {
                match ns_span(e, n) {
                    None => Some((lo, hi)),
                    Some((l, h)) => Some((min_i64(l, lo), max_i64(h, hi))),
                }
            } else {
                ns_span(e, n)
            }) by {
            lemma_ns_span_push(e, x, n);
        }
    }
    let ns = id.namespace.as_str();
    if ns.is_empty() {
        proof {
            assert forall|n: Seq<char>|
                n.len() > 0 && (#[trigger] ns_span(e2, n)) is Some implies exists|i: int|
                    0 <= i < acc@.len() && (#[trigger] acc@[i]).name@ == n by {
                assert(ns_span(e2, n) == ns_span(e, n));
            }
        }
        return;
    }
    let mut k: usize = 0;
    while k < acc.len() && !str_eq(acc[k].name.as_str(), ns)
        invariant
            k <= acc.len(),
            acc@ == a0,
            ns@ == id.namespace@,
            forall|i: int| 0 <= i < k ==> (#[trigger] a0[i]).name@ != id.namespace@,
        decreases acc.len() - k,
    {
        k = k + 1;
    }
    if k < acc.len() {
        // An existing namespace widens its span.
        assert(acc@[k as int].name@ == id.namespace@);
        let nlo = if lo < acc[k].lo {
            lo
        } else {
            acc[k].lo
        };
        let nhi = if hi > acc[k].hi {
            hi
        } else {
            acc[k].hi
        };
        let name = acc[k].name.clone();
        acc.set(k, NsAcc { name, lo: nlo, hi: nhi });
        proof {
            let a1 = acc@;
            assert forall|i: int| 0 <= i < a1.len() implies (#[trigger] a1[i]).name@ == a0[i].name@ by {
            }
            assert forall|i: int| 0 <= i < a1.len() && i != k implies a0[i].name@ != id.namespace@ by {
                if i < k {
                    assert(lex_lt(a0[i].name@, a0[k as int].name@));
                } else {
                    assert(lex_lt(a0[k as int].name@, a0[i].name@));
                }
            }
            assert forall|i: int, j: int|
                0 <= i < j < a1.len() implies lex_lt(#[trigger] a1[i].name@, #[trigger] a1[j].name@) by {
                assert(lex_lt(a0[i].name@, a0[j].name@));
            }
            assert forall|i: int|
                0 <= i < a1.len() implies (#[trigger] a1[i]).name@.len() > 0 && ns_span(e2, a1[i].name@)
                    == Some((a1[i].lo, a1[i].hi)) by {
                assert(ns_span(e2, a1[i].name@) == ns_span(e2, a0[i].name@));
            }
            assert forall|n: Seq<char>|
                n.len() > 0 && (#[trigger] ns_span(e2, n)) is Some implies exists|i: int|
                    0 <= i < a1.len() && (#[trigger] a1[i]).name@ == n by {
                if n == id.namespace@ {
                    assert(a1[k as int].name@ == n);
                } else {
                    assert(ns_span(e, n) is Some);
                    let i = choose|i: int| 0 <= i < a0.len() && (#[trigger] a0[i]).name@ == n;
                    assert(a1[i].name@ == n);
                }
            }
        }
    } else {
        // A new namespace goes in before the first greater name.
        let mut p: usize = 0;
        while p < acc.len() && str_le(acc[p].name.as_str(), ns)
            invariant
                p <= acc.len(),
                acc@ == a0,
                ns@ == id.namespace@,
                forall|i: int| 0 <= i < p ==> lex_le(#[trigger] a0[i].name@, id.namespace@),
            decreases acc.len() - p,
        {
            p = p + 1;
        }
        let ghost q = p as int;
        proof {
            if p < acc.len() {
                lemma_lex_total(a0[q].name@, id.namespace@);
            }
        }
        acc.insert(p, NsAcc { name: id.namespace.clone(), lo, hi });
        proof {
            let a1 = acc@;
            assert(a1 =~= a0.insert(q, NsAcc { name: id.namespace, lo, hi }));
            assert forall|i: int| 0 <= i < a0.len() implies (#[trigger] a0[i]).name@ != id.namespace@ by {
            }
            assert forall|i: int, j: int|
                0 <= i < j < a1.len() implies lex_lt(#[trigger] a1[i].name@, #[trigger] a1[j].name@) by {
                if j < q {
                    assert(lex_lt(a0[i].name@, a0[j].name@));
                } else if j == q {
                    assert(lex_le(a0[i].name@, id.namespace@));
                } else if i < q {
                    assert(lex_le(a0[i].name@, id.namespace@));
                    lemma_lex_lt_trans(a0[i].name@, id.namespace@, a0[q].name@);
                    if j - 1 > q {
                        assert(lex_lt(a0[q].name@, a0[j - 1].name@));
                        lemma_lex_trans(a0[i].name@, a0[q].name@, a0[j - 1].name@);
                        lemma_lex_lt_trans(a0[i].name@, a0[q].name@, a0[j - 1].name@);
                    }
                } else if i == q {
                    assert(lex_lt(id.namespace@, a0[q].name@));
                    if j - 1 > q {
                        assert(lex_lt(a0[q].name@, a0[j - 1].name@));
                        lemma_lex_lt_trans(id.namespace@, a0[q].name@, a0[j - 1].name@);
                    }
                } else {
                    assert(lex_lt(a0[i - 1].name@, a0[j - 1].name@));
                }
            }
            assert forall|i: int|
                0 <= i < a1.len() implies (#[trigger] a1[i]).name@.len() > 0 && ns_span(e2, a1[i].name@)
                    == Some((a1[i].lo, a1[i].hi)) by {
                if i == q {
                    assert(ns_span(e, id.namespace@) is None);
                } else if i < q {
                    assert(a1[i] == a0[i]);
                } else {
                    assert(a1[i] == a0[i - 1]);
                }
            }
            assert forall|n: Seq<char>|
                n.len() > 0 && (#[trigger] ns_span(e2, n)) is Some implies exists|i: int|
                    0 <= i < a1.len() && (#[trigger] a1[i]).name@ == n by {
                if n == id.namespace@ {
                    assert(a1[q].name@ == n);
                } else {
                    assert(ns_span(e, n) is Some);
                    let i = choose|i: int| 0 <= i < a0.len() && (#[trigger] a0[i]).name@ == n;
                    if i < q {
                        assert(a1[i].name@ == n);
                    } else {
                        assert(a1[i + 1].name@ == n);
                    }
                }
            }
        }
    }
}

impl Model {
    /// The namespace listing: each non-empty namespace of a job or dataset
    /// once, sorted by name, created at its earliest and updated at its
    /// latest entity event.
    pub fn namespaces(&self) -> (r: Namespaces)
        ensures
            namespaces_render(r.namespaces@, self@),
    {
        let ghost e = entity_spans(self@);
        let ghost jn = self.jobs@.len() as int;
        let mut acc: Vec<NsAcc> = Vec::new();
        proof {
            assert(e.take(0) =~= Seq::<(EntityId, i64, i64)>::empty());
        }
        let mut i: usize = 0;
        while i < self.jobs.len()
            invariant
                i <= self.jobs.len(),
                e == entity_spans(self@),
                jn == self.jobs@.len(),
                ns_acc_ok(acc@, e.take(i as int)),
            decreases self.jobs.len() - i,
        {
            proof {
                assert(e.take(i + 1) =~= e.take(i as int).push(
                    (self.jobs@[i as int].0, self.jobs@[i as int].1.first_seen, self.jobs@[i as int].1.last_seen),
                ));
            }
            note_namespace(
                &mut acc,
                Ghost(e.take(i as int)),
                &self.jobs[i].0,
                self.jobs[i].1.first_seen,
                self.jobs[i].1.last_seen,
            );
            i = i + 1;
        }
        let mut d: usize = 0;
        while d < self.datasets.len()
            invariant
                d <= self.datasets.len(),
                e == entity_spans(self@),
                jn == self.jobs@.len(),
                ns_acc_ok(acc@, e.take(jn + d)),
            decreases self.datasets.len() - d,
        {
            proof {
                assert(e.take(jn + d + 1) =~= e.take(jn + d).push(
                    (
                        self.datasets@[d as int].0,
                        self.datasets@[d as int].1.first_seen,
                        self.datasets@[d as int].1.last_seen,
                    ),
                ));
            }
            note_namespace(
                &mut acc,
                Ghost(e.take(jn + d)),
                &self.datasets[d].0,
                self.datasets[d].1.first_seen,
                self.datasets[d].1.last_seen,
            );
            d = d + 1;
        }
        proof {
            assert(e.take(jn + d) =~= e);
        }
        let mut out: Vec<Namespace> = Vec::new();
        let mut k: usize = 0;
        while k < acc.len()
            invariant
                k <= acc.len(),
                ns_acc_ok(acc@, e),
                out@.len() == k,
                forall|t: int| 0 <= t < k ==> {
                    &&& (#[trigger] out@[t]).name@ == acc@[t].name@
                    &&& out@[t].created_at@ == rfc3339_text(acc@[t].lo)
                    &&& out@[t].updated_at@ == rfc3339_text(acc@[t].hi)
                    &&& out@[t].owner_name is None
                    &&& out@[t].description is None
                    &&& !out@[t].is_hidden
                },
            decreases acc.len() - k,
        {
            out.push(
                Namespace {
                    name: acc[k].name.clone(),
                    created_at: micros_to_rfc3339(acc[k].lo),
                    updated_at: micros_to_rfc3339(acc[k].hi),
                    owner_name: None,
                    description: None,
                    is_hidden: false,
                },
            );
            k = k + 1;
        }
        proof {
            let o = out@;
            let a = acc@;
            assert forall|i: int, j: int|
                0 <= i < j < o.len() implies lex_lt(#[trigger] o[i].name@, #[trigger] o[j].name@) by {
                assert(lex_lt(a[i].name@, a[j].name@));
            }
            assert forall|i: int| 0 <= i < o.len() implies (#[trigger] o[i]).name@.len() > 0 by {
                assert(a[i].name@.len() > 0);
            }
            assert forall|i: int| 0 <= i < o.len() implies ns_span(e, (#[trigger] o[i]).name@) matches Some((lo, hi))
                && o[i].created_at@ == rfc3339_text(lo) && o[i].updated_at@ == rfc3339_text(hi) by {
                assert(ns_span(e, a[i].name@) == Some((a[i].lo, a[i].hi)));
            }
            assert forall|ns: Seq<char>|
                ns.len() > 0 && (#[trigger] ns_span(e, ns)) is Some implies exists|i: int|
                    0 <= i < o.len() && (#[trigger] o[i]).name@ == ns by {
                let i = choose|i: int| 0 <= i < a.len() && (#[trigger] a[i]).name@ == ns;
                assert(o[i].name@ == ns);
            }
        }
        Namespaces { namespaces: out }
    }
}

/// A listing key: an entity's identity and its position in the model.
#[derive(Debug)]
pub struct EntityKey {
    pub id: EntityId,
    pub at: usize,
}

/// Listings are ordered by name, then namespace.
impl Ranked for EntityKey {
    open spec fn rank_le(a: EntityKey, b: EntityKey) -> bool {
        lex_lt(a.id.name@, b.id.name@) || (a.id.name@ == b.id.name@ && lex_le(
            a.id.namespace@,
            b.id.namespace@,
        ))
    }

    proof fn lemma_rank_total(a: EntityKey, b: EntityKey) {
        lemma_lex_total(a.id.name@, b.id.name@);
        lemma_lex_total(a.id.namespace@, b.id.namespace@);
    }

    proof fn lemma_rank_trans(a: EntityKey, b: EntityKey, c: EntityKey) {
        lemma_lex_refl(a.id.name@);
        lemma_lex_refl(b.id.name@);
        lemma_lex_trans(a.id.name@, b.id.name@, c.id.name@);
        if a.id.name@ == c.id.name@ {
            lemma_lex_antisym(a.id.name@, b.id.name@);
            lemma_lex_trans(a.id.namespace@, b.id.namespace@, c.id.namespace@);
        }
    }

    fn ranks_le(a: &EntityKey, b: &EntityKey) -> (r: bool) {
        let same = str_eq(a.id.name.as_str(), b.id.name.as_str());
        if same {
            str_le(a.id.namespace.as_str(), b.id.namespace.as_str())
        } else {
            str_le(a.id.name.as_str(), b.id.name.as_str())
        }
    }
}

/// Whether identity `id` passes an optional namespace filter.
pub open spec fn in_namespace(id: EntityId, ns: Option<Seq<char>>) -> bool {
    match ns {
        Some(n) => id.namespace@ == n,
        None => true,
    }
}

/// The keys of the first `n` identities that pass the namespace filter.
pub open spec fn keys_of(ids: Seq<EntityId>, ns: Option<Seq<char>>, n: int) -> Seq<EntityKey>
    decreases n,
{
    if n <= 0 {
        Seq::empty()
    } else if in_namespace(ids[n - 1], ns) {
        keys_of(ids, ns, n - 1).push(EntityKey { id: ids[n - 1], at: (n - 1) as usize })
    } else {
        keys_of(ids, ns, n - 1)
    }
}

pub open spec fn job_ids(m: ModelView) -> Seq<EntityId> {
    m.jobs.map_values(|p: (EntityId, JobView)| p.0)
}

pub open spec fn dataset_ids(m: ModelView) -> Seq<EntityId> {
    m.datasets.map_values(|p: (EntityId, DatasetView)| p.0)
}

/// The first index of a page of `limit` items from `offset` over `len`.
pub open spec fn page_start(len: int, offset: int) -> int {
    if offset < len {
        offset
    } else {
        len
    }
}

/// One past the last index of that page.
pub open spec fn page_end(len: int, offset: int, limit: int) -> int {
    if page_start(len, offset) + limit < len {
        page_start(len, offset) + limit
    } else {
        len
    }
}

proof fn lemma_keys_of(ids: Seq<EntityId>, ns: Option<Seq<char>>, n: int)
    requires
        0 <= n <= ids.len(),
        n <= usize::MAX,
    ensures
        keys_of(ids, ns, n).len() <= n,
        forall|k: int|
            0 <= k < keys_of(ids, ns, n).len() ==> {
                let key = #[trigger] keys_of(ids, ns, n)[k];
                &&& key.at < n
                &&& key.id == ids[key.at as int]
                &&& in_namespace(key.id, ns)
            },
    decreases n,
{
    if n > 0 {
        lemma_keys_of(ids, ns, n - 1);
    }
}

/// The keys of the identities passing the filter.
fn listing_keys(ids: &Vec<EntityId>, ns: Option<&str>) -> (r: Vec<EntityKey>)
    ensures
        r@ == keys_of(
            ids@,
            match ns {
                Some(n) => Some(n@),
                None => None,
            },
            ids@.len() as int,
        ),
{
    let ghost nsv = match ns {
        Some(n) => Some(n@),
        None => None,
    };
    let mut r: Vec<EntityKey> = Vec::new();
    let mut i: usize = 0;
    while i < ids.len()
        invariant
            i <= ids.len(),
            nsv == match ns {
                Some(n) => Some(n@),
                None => None::<Seq<char>>,
            },
            r@ == keys_of(ids@, nsv, i as int),
        decreases ids.len() - i,
    {
        let keep = match ns {
            Some(n) => str_eq(ids[i].namespace.as_str(), n),
            None => true,
        };
        if keep {
            r.push(EntityKey { id: crate::svc::fold::copy_entity(&ids[i]), at: i });
        }
        i = i + 1;
    }
    r
}

/// The keys sorted for a listing, with every key's position in range.
fn sorted_listing(ids: &Vec<EntityId>, ns: Option<&str>) -> (r: Vec<EntityKey>)
    ensures
        sorted_by_rank(r@),
        r@.to_multiset() == keys_of(
            ids@,
            match ns {
                Some(n) => Some(n@),
                None => None,
            },
            ids@.len() as int,
        ).to_multiset(),
        r@.len() <= ids@.len(),
        forall|k: int| 0 <= k < r@.len() ==> (#[trigger] r@[k]).at < ids@.len(),
{
    let keys = listing_keys(ids, ns);
    let ghost kv = keys@;
    let n = ids.len();
    proof {
        lemma_keys_of(
            ids@,
            match ns {
                Some(n) => Some(n@),
                None => None,
            },
            ids@.len() as int,
        );
    }
    let r = sort_ranked(keys);
    proof {
        broadcast use vstd::seq_lib::group_to_multiset_ensures;

        assert(r@.len() == kv.len()) by {
            assert(r@.to_multiset().len() == kv.to_multiset().len());
        }
        assert forall|k: int| 0 <= k < r@.len() implies (#[trigger] r@[k]).at < ids@.len() by {
            assert(r@.contains(r@[k]));
            assert(r@.to_multiset().count(r@[k]) > 0);
            assert(kv.contains(r@[k]));
            let j = choose|j: int| 0 <= j < kv.len() && kv[j] == r@[k];
            assert(kv[j].at < ids@.len());
        }
    }
    r
}

fn ids_of_jobs(jobs: &Vec<(EntityId, JobAgg)>) -> (r: Vec<EntityId>)
    ensures
        r@ == jobs@.map_values(|p: (EntityId, JobAgg)| p.0),
{
    let mut r: Vec<EntityId> = Vec::new();
    let mut i: usize = 0;
    while i < jobs.len()
        invariant
            i <= jobs.len(),
            r@ == jobs@.take(i as int).map_values(|p: (EntityId, JobAgg)| p.0),
        decreases jobs.len() - i,
    {
        r.push(crate::svc::fold::copy_entity(&jobs[i].0));
        i = i + 1;
        assert(r@ =~= jobs@.take(i as int).map_values(|p: (EntityId, JobAgg)| p.0));
    }
    assert(jobs@.take(i as int) =~= jobs@);
    r
}

fn ids_of_datasets(ds: &Vec<(EntityId, DatasetAgg)>) -> (r: Vec<EntityId>)
    ensures
        r@ == ds@.map_values(|p: (EntityId, DatasetAgg)| p.0),
{
    let mut r: Vec<EntityId> = Vec::new();
    let mut i: usize = 0;
    while i < ds.len()
        invariant
            i <= ds.len(),
            r@ == ds@.take(i as int).map_values(|p: (EntityId, DatasetAgg)| p.0),
        decreases ds.len() - i,
    {
        r.push(crate::svc::fold::copy_entity(&ds[i].0));
        i = i + 1;
        assert(r@ =~= ds@.take(i as int).map_values(|p: (EntityId, DatasetAgg)| p.0));
    }
    assert(ds@.take(i as int) =~= ds@);
    r
}

/// A page of jobs: `total_count` counts the jobs passing the filter; `jobs`
/// are those jobs ordered by name then namespace, from `offset`, at most
/// `limit` of them.
pub open spec fn jobs_page(r: Jobs, m: ModelView, ns: Option<Seq<char>>, limit: int, offset: int) -> bool {
    let keys = keys_of(job_ids(m), ns, m.jobs.len() as int);
    let start = page_start(keys.len() as int, offset);
    let end = page_end(keys.len() as int, offset, limit);
    &&& r.total_count == keys.len()
    &&& exists|s: Seq<EntityKey>|
        #![trigger sorted_by_rank(s)]
        {
            &&& sorted_by_rank(s)
            &&& s.to_multiset() == keys.to_multiset()
            &&& r.jobs@.len() == end - start
            &&& forall|k: int|
                0 <= k < end - start ==> s[start + k].at < m.jobs.len() && job_renders(
                    #[trigger] r.jobs@[k],
                    m.jobs[s[start + k].at as int].0,
                    m.jobs[s[start + k].at as int].1,
                )
        }
}

/// A page of datasets, as [`jobs_page`] for jobs.
pub open spec fn datasets_page(
    r: Datasets,
    m: ModelView,
    ns: Option<Seq<char>>,
    limit: int,
    offset: int,
) -> bool {
    let keys = keys_of(dataset_ids(m), ns, m.datasets.len() as int);
    let start = page_start(keys.len() as int, offset);
    let end = page_end(keys.len() as int, offset, limit);
    &&& r.total_count == keys.len()
    &&& exists|s: Seq<EntityKey>|
        #![trigger sorted_by_rank(s)]
        {
            &&& sorted_by_rank(s)
            &&& s.to_multiset() == keys.to_multiset()
            &&& r.datasets@.len() == end - start
            &&& forall|k: int|
                0 <= k < end - start ==> s[start + k].at < m.datasets.len() && dataset_renders(
                    #[trigger] r.datasets@[k],
                    m.datasets[s[start + k].at as int].0,
                    m.datasets[s[start + k].at as int].1,
                )
        }
}

fn page_bounds(len: usize, offset: usize, limit: usize) -> (r: (usize, usize))
    ensures
        r.0 == page_start(len as int, offset as int),
        r.1 == page_end(len as int, offset as int, limit as int),
        r.0 <= r.1 <= len,
{
    let start = if offset < len {
        offset
    } else {
        len
    };
    let end = if limit < len - start {
        start + limit
    } else {
        len
    };
    (start, end)
}

impl Model {
    /// Jobs of one namespace (or of all), by name then namespace, paged.
    pub fn jobs(&self, namespace: Option<&str>, limit: usize, offset: usize) -> (r: Jobs)
        ensures
            jobs_page(
                r,
                self@,
                match namespace {
                    Some(n) => Some(n@),
                    None => None,
                },
                limit as int,
                offset as int,
            ),
    {
        let ids = ids_of_jobs(&self.jobs);
        proof {
            assert(ids@ =~= job_ids(self@));
        }
        let sorted = sorted_listing(&ids, namespace);
        let ghost keys = keys_of(
            job_ids(self@),
            match namespace {
                Some(n) => Some(n@),
                None => None,
            },
            self@.jobs.len() as int,
        );
        proof {
            broadcast use vstd::seq_lib::group_to_multiset_ensures;

            assert(sorted@.to_multiset().len() == keys.to_multiset().len());
        }
        let (start, end) = page_bounds(sorted.len(), offset, limit);
        let mut out: Vec<Job> = Vec::new();
        let mut k: usize = start;
        while k < end
            invariant
                start <= k <= end <= sorted.len(),
                out@.len() == k - start,
                forall|t: int| 0 <= t < sorted@.len() ==> (#[trigger] sorted@[t]).at < self.jobs@.len(),
                forall|t: int|
                    0 <= t < k - start ==> job_renders(
                        #[trigger] out@[t],
                        self@.jobs[sorted@[start + t].at as int].0,
                        self@.jobs[sorted@[start + t].at as int].1,
                    ),
            decreases end - k,
        {
            let at = sorted[k].at;
            out.push(build_job(&self.jobs[at].0, &self.jobs[at].1));
            k = k + 1;
        }
        let r = Jobs { jobs: out, total_count: sorted.len() };
        proof {
            assert(sorted_by_rank(sorted@));
        }
        r
    }

    /// Datasets of one namespace (or of all), by name then namespace, paged.
    pub fn datasets(&self, namespace: Option<&str>, limit: usize, offset: usize) -> (r: Datasets)
        ensures
            datasets_page(
                r,
                self@,
                match namespace {
                    Some(n) => Some(n@),
                    None => None,
                },
                limit as int,
                offset as int,
            ),
    {
        let ids = ids_of_datasets(&self.datasets);
        proof {
            assert(ids@ =~= dataset_ids(self@));
        }
        let sorted = sorted_listing(&ids, namespace);
        let ghost keys = keys_of(
            dataset_ids(self@),
            match namespace {
                Some(n) => Some(n@),
                None => None,
            },
            self@.datasets.len() as int,
        );
        proof {
            broadcast use vstd::seq_lib::group_to_multiset_ensures;

            assert(sorted@.to_multiset().len() == keys.to_multiset().len());
        }
        let (start, end) = page_bounds(sorted.len(), offset, limit);
        let mut out: Vec<Dataset> = Vec::new();
        let mut k: usize = start;
        while k < end
            invariant
                start <= k <= end <= sorted.len(),
                out@.len() == k - start,
                forall|t: int| 0 <= t < sorted@.len() ==> (#[trigger] sorted@[t]).at < self.datasets@.len(),
                forall|t: int|
                    0 <= t < k - start ==> dataset_renders(
                        #[trigger] out@[t],
                        self@.datasets[sorted@[start + t].at as int].0,
                        self@.datasets[sorted@[start + t].at as int].1,
                    ),
            decreases end - k,
        {
            let at = sorted[k].at;
            out.push(build_dataset(&self.datasets[at].0, &self.datasets[at].1));
            k = k + 1;
        }
        let r = Datasets { datasets: out, total_count: sorted.len() };
        proof {
            assert(sorted_by_rank(sorted@));
        }
        r
    }
}

/// The first index from `i` on whose identity is (`ns`, `name`).
pub open spec fn index_of_id(ids: Seq<EntityId>, ns: Seq<char>, name: Seq<char>, i: int) -> Option<int>
    decreases ids.len() - i,
{
    if i < 0 || i >= ids.len() {
        None
    } else if ids[i].namespace@ == ns && ids[i].name@ == name {
        Some(i)
    } else {
        index_of_id(ids, ns, name, i + 1)
    }
}

proof fn lemma_index_of_id(ids: Seq<EntityId>, ns: Seq<char>, name: Seq<char>, i: int)
    requires
        0 <= i,
    ensures
        index_of_id(ids, ns, name, i) matches Some(j) ==> i <= j < ids.len() && ids[j].namespace@
            == ns && ids[j].name@ == name,
    decreases ids.len() - i,
{
    if i < ids.len() && !(ids[i].namespace@ == ns && ids[i].name@ == name) {
        lemma_index_of_id(ids, ns, name, i + 1);
    }
}

fn find_entity(ids: &Vec<EntityId>, ns: &str, name: &str) -> (r: Option<usize>)
    ensures
        match r {
            Some(i) => index_of_id(ids@, ns@, name@, 0) == Some(i as int) && i < ids@.len(),
            None => index_of_id(ids@, ns@, name@, 0) is None,
        },
{
    let mut i: usize = 0;
    while i < ids.len()
        invariant
            i <= ids.len(),
            index_of_id(ids@, ns@, name@, 0) == index_of_id(ids@, ns@, name@, i as int),
        decreases ids.len() - i,
    {
        if str_eq(ids[i].namespace.as_str(), ns) && str_eq(ids[i].name.as_str(), name) {
            return Some(i);
        }
        i = i + 1;
    }
    None
}

/// `e` is the not-found error `<what> <namespace>/<name>`.
pub open spec fn not_found_entity(e: ReadError, what: Seq<char>, ns: Seq<char>, name: Seq<char>) -> bool {
    e matches ReadError::NotFound(msg) && msg@ == what + ns + "/"@ + name
}

fn not_found(what: &str, ns: &str, name: &str) -> (e: ReadError)
    ensures
        not_found_entity(e, what@, ns@, name@),
{
    let mut msg = owned(what);
    msg.append(ns);
    msg.append("/");
    msg.append(name);
    ReadError::NotFound(msg)
}

impl Model {
    /// The job (`namespace`, `name`), or `NotFound("job <ns>/<name>")`.
    pub fn job(&self, namespace: &str, name: &str) -> (r: Result<Job, ReadError>)
        ensures
            match index_of_id(job_ids(self@), namespace@, name@, 0) {
                Some(i) => r matches Ok(j) && job_renders(j, self@.jobs[i].0, self@.jobs[i].1),
                None => r matches Err(e) && not_found_entity(e, "job "@, namespace@, name@),
            },
    {
        let ids = ids_of_jobs(&self.jobs);
        proof {
            assert(ids@ =~= job_ids(self@));
        }
        match find_entity(&ids, namespace, name) {
            Some(i) => Ok(build_job(&self.jobs[i].0, &self.jobs[i].1)),
            None => Err(not_found("job ", namespace, name)),
        }
    }

    /// The run history of job (`namespace`, `name`): its `latestRuns`, or
    /// `NotFound("job <ns>/<name>")`.
    pub fn job_runs(&self, namespace: &str, name: &str) -> (r: Result<Runs, ReadError>)
        ensures
            match index_of_id(job_ids(self@), namespace@, name@, 0) {
                Some(i) => r matches Ok(runs) && runs.total_count == runs.runs@.len()
                    && latest_runs_of(
                    runs.runs@,
                    self@.jobs[i].1.runs,
                    node_id_text(job_word(), self@.jobs[i].0.namespace@, self@.jobs[i].0.name@),
                    rfc3339_text(self@.jobs[i].1.last_seen),
                ),
                None => r matches Err(e) && not_found_entity(e, "job "@, namespace@, name@),
            },
    {
        match self.job(namespace, name) {
            Ok(job) => {
                let total_count = job.latest_runs.len();
                Ok(Runs { runs: job.latest_runs, total_count })
            },
            Err(e) => Err(e),
        }
    }

    /// The dataset (`namespace`, `name`), or `NotFound("dataset <ns>/<name>")`.
    pub fn dataset(&self, namespace: &str, name: &str) -> (r: Result<Dataset, ReadError>)
        ensures
            match index_of_id(dataset_ids(self@), namespace@, name@, 0) {
                Some(i) => r matches Ok(d) && dataset_renders(d, self@.datasets[i].0, self@.datasets[i].1),
                None => r matches Err(e) && not_found_entity(e, "dataset "@, namespace@, name@),
            },
    {
        let ids = ids_of_datasets(&self.datasets);
        proof {
            assert(ids@ =~= dataset_ids(self@));
        }
        match find_entity(&ids, namespace, name) {
            Some(i) => Ok(build_dataset(&self.datasets[i].0, &self.datasets[i].1)),
            None => Err(not_found("dataset ", namespace, name)),
        }
    }
}

/// A search hit: the entity's name, namespace, kind (0 job, 1 dataset) and
/// position in the model.
#[derive(Debug)]
pub struct SearchKey {
    pub name: String,
    pub namespace: String,
    pub kind: u8,
    pub at: usize,
}

/// Hits are ordered by name, then jobs before datasets, then namespace.
impl Ranked for SearchKey {
    open spec fn rank_le(a: SearchKey, b: SearchKey) -> bool {
        lex_lt(a.name@, b.name@) || (a.name@ == b.name@ && (a.kind < b.kind || (a.kind == b.kind
            && lex_le(a.namespace@, b.namespace@))))
    }

    proof fn lemma_rank_total(a: SearchKey, b: SearchKey) {
        lemma_lex_total(a.name@, b.name@);
        lemma_lex_total(a.namespace@, b.namespace@);
    }

    proof fn lemma_rank_trans(a: SearchKey, b: SearchKey, c: SearchKey) {
        lemma_lex_refl(a.name@);
        lemma_lex_refl(b.name@);
        lemma_lex_trans(a.name@, b.name@, c.name@);
        if a.name@ == c.name@ {
            lemma_lex_antisym(a.name@, b.name@);
            if a.kind == b.kind && b.kind == c.kind {
                lemma_lex_trans(a.namespace@, b.namespace@, c.namespace@);
            }
        }
    }

    fn ranks_le(a: &SearchKey, b: &SearchKey) -> (r: bool) {
        if str_eq(a.name.as_str(), b.name.as_str()) {
            if a.kind == b.kind {
                str_le(a.namespace.as_str(), b.namespace.as_str())
            } else {
                a.kind < b.kind
            }
        } else {
            str_le(a.name.as_str(), b.name.as_str())
        }
    }
}

/// The hits of kind `kind` among the first `n` identities: those whose
/// lowercased name contains `needle`.
pub open spec fn search_keys_of(ids: Seq<EntityId>, kind: u8, needle: Seq<char>, n: int) -> Seq<SearchKey>
    decreases n,
{
    if n <= 0 {
        Seq::empty()
    } else if contains_seq(unicode_lowercase(ids[n - 1].name@), needle) {
        search_keys_of(ids, kind, needle, n - 1).push(
            SearchKey {
                name: ids[n - 1].name,
                namespace: ids[n - 1].namespace,
                kind,
                at: (n - 1) as usize,
            },
        )
    } else {
        search_keys_of(ids, kind, needle, n - 1)
    }
}

/// All hits of a search for `needle`: jobs, then datasets.
pub open spec fn search_keys(m: ModelView, needle: Seq<char>) -> Seq<SearchKey> {
    search_keys_of(job_ids(m), 0, needle, m.jobs.len() as int) + search_keys_of(
        dataset_ids(m),
        1,
        needle,
        m.datasets.len() as int,
    )
}

/// `r` is the search result of hit `k`.
pub open spec fn hit_renders(r: SearchResult, k: SearchKey, m: ModelView) -> bool {
    &&& r.name == k.name
    &&& r.namespace == k.namespace
    &&& if k.kind == 0 {
        &&& k.at < m.jobs.len()
        &&& r.node_id@ == node_id_text(job_word(), k.namespace@, k.name@)
        &&& r.result_type@ == "JOB"@
        &&& r.updated_at@ == rfc3339_text(m.jobs[k.at as int].1.last_seen)
    } else {
        &&& k.at < m.datasets.len()
        &&& r.node_id@ == node_id_text(dataset_word(), k.namespace@, k.name@)
        &&& r.result_type@ == "DATASET"@
        &&& r.updated_at@ == rfc3339_text(m.datasets[k.at as int].1.last_seen)
    }
}

/// A search result: `total_count` counts all hits; `results` are the first
/// `limit` hits in order.
pub open spec fn search_page(r: Search, m: ModelView, needle: Seq<char>, limit: int) -> bool {
    let keys = search_keys(m, needle);
    &&& r.total_count == keys.len()
    &&& exists|s: Seq<SearchKey>|
        #![trigger sorted_by_rank(s)]
        {
            &&& sorted_by_rank(s)
            &&& s.to_multiset() == keys.to_multiset()
            &&& r.results@.len() == page_end(keys.len() as int, 0, limit)
            &&& forall|k: int| 0 <= k < r.results@.len() ==> hit_renders(#[trigger] r.results@[k], s[k], m)
        }
}

proof fn lemma_search_keys_of(ids: Seq<EntityId>, kind: u8, needle: Seq<char>, n: int)
    requires
        0 <= n <= ids.len(),
        n <= usize::MAX,
    ensures
        search_keys_of(ids, kind, needle, n).len() <= n,
        forall|k: int|
            0 <= k < search_keys_of(ids, kind, needle, n).len() ==> {
                let key = #[trigger] search_keys_of(ids, kind, needle, n)[k];
                &&& key.at < n
                &&& key.kind == kind
                &&& key.name == ids[key.at as int].name
                &&& key.namespace == ids[key.at as int].namespace
            },
    decreases n,
{
    if n > 0 {
        lemma_search_keys_of(ids, kind, needle, n - 1);
    }
}

fn push_search_keys(out: &mut Vec<SearchKey>, ids: &Vec<EntityId>, kind: u8, needle: &str)
    ensures
        final(out)@ == old(out)@ + search_keys_of(ids@, kind, needle@, ids@.len() as int),
{
    let ghost o0 = out@;
    let mut i: usize = 0;
    while i < ids.len()
        invariant
            i <= ids.len(),
            out@ == o0 + search_keys_of(ids@, kind, needle@, i as int),
        decreases ids.len() - i,
    {
        let lower = to_lowercase(ids[i].name.as_str());
        if contains_str(lower.as_str(), needle) {
            out.push(
                SearchKey {
                    name: ids[i].name.clone(),
                    namespace: ids[i].namespace.clone(),
                    kind,
                    at: i,
                },
            );
        }
        i = i + 1;
        proof {
            let prev = search_keys_of(ids@, kind, needle@, i - 1);
            if contains_seq(unicode_lowercase(ids@[i - 1].name@), needle@) {
                assert(o0 + prev.push(
                    SearchKey {
                        name: ids@[i - 1].name,
                        namespace: ids@[i - 1].namespace,
                        kind,
                        at: (i - 1) as usize,
                    },
                ) =~= (o0 + prev).push(
                    SearchKey {
                        name: ids@[i - 1].name,
                        namespace: ids@[i - 1].namespace,
                        kind,
                        at: (i - 1) as usize,
                    },
                ));
            }
        }
    }
}

fn render_hit(k: &SearchKey, m: &Model) -> (r: SearchResult)
    requires
        k.kind == 0 ==> k.at < m.jobs@.len(),
        k.kind != 0 ==> k.at < m.datasets@.len(),
    ensures
        hit_renders(r, *k, m@),
{
    if k.kind == 0 {
        SearchResult {
            name: k.name.clone(),
            namespace: k.namespace.clone(),
            node_id: job_node_id(k.namespace.as_str(), k.name.as_str()),
            result_type: owned("JOB"),
            updated_at: micros_to_rfc3339(m.jobs[k.at].1.last_seen),
        }
    } else {
        SearchResult {
            name: k.name.clone(),
            namespace: k.namespace.clone(),
            node_id: dataset_node_id(k.namespace.as_str(), k.name.as_str()),
            result_type: owned("DATASET"),
            updated_at: micros_to_rfc3339(m.datasets[k.at].1.last_seen),
        }
    }
}

impl Model {
    /// Jobs and datasets whose lowercased name contains the lowercased query,
    /// by name (jobs before datasets, then namespace); `total_count` counts
    /// every hit, `results` holds at most `limit`.
    pub fn search(&self, q: &str, limit: usize) -> (r: Search)
        ensures
            search_page(r, self@, unicode_lowercase(q@), limit as int),
    {
        let needle = to_lowercase(q);
        let job_ids_v = ids_of_jobs(&self.jobs);
        let ds_ids_v = ids_of_datasets(&self.datasets);
        proof {
            assert(job_ids_v@ =~= job_ids(self@));
            assert(ds_ids_v@ =~= dataset_ids(self@));
        }
        let mut keys: Vec<SearchKey> = Vec::new();
        push_search_keys(&mut keys, &job_ids_v, 0, needle.as_str());
        push_search_keys(&mut keys, &ds_ids_v, 1, needle.as_str());
        let ghost kv = keys@;
        let nj = job_ids_v.len();
        let nd = ds_ids_v.len();
        proof {
            assert(kv =~= Seq::<SearchKey>::empty() + search_keys_of(job_ids_v@, 0, needle@, nj as int)
                + search_keys_of(ds_ids_v@, 1, needle@, nd as int));
            assert(kv =~= search_keys(self@, unicode_lowercase(q@)));
            lemma_search_keys_of(job_ids_v@, 0, needle@, nj as int);
            lemma_search_keys_of(ds_ids_v@, 1, needle@, nd as int);
            let a = search_keys_of(job_ids_v@, 0, needle@, nj as int);
            let b = search_keys_of(ds_ids_v@, 1, needle@, nd as int);
            assert forall|k: int| 0 <= k < kv.len() implies {
                &&& (#[trigger] kv[k]).kind == 0 ==> kv[k].at < self.jobs@.len()
                &&& kv[k].kind != 0 ==> kv[k].at < self.datasets@.len()
            } by {
                if k < a.len() {
                    assert(kv[k] == a[k]);
                } else {
                    assert(kv[k] == b[k - a.len()]);
                }
            }
        }
        let sorted = sort_ranked(keys);
        proof {
            broadcast use vstd::seq_lib::group_to_multiset_ensures;

            assert(sorted@.len() == kv.len()) by {
                assert(sorted@.to_multiset().len() == kv.to_multiset().len());
            }
            assert forall|k: int| 0 <= k < sorted@.len() implies {
                &&& (#[trigger] sorted@[k]).kind == 0 ==> sorted@[k].at < self.jobs@.len()
                &&& sorted@[k].kind != 0 ==> sorted@[k].at < self.datasets@.len()
            } by {
                assert(sorted@.contains(sorted@[k]));
                assert(sorted@.to_multiset().count(sorted@[k]) > 0);
                assert(kv.contains(sorted@[k]));
                let j = choose|j: int| 0 <= j < kv.len() && kv[j] == sorted@[k];
                assert(kv[j] == sorted@[k]);
            }
        }
        let (_, end) = page_bounds(sorted.len(), 0, limit);
        let mut results: Vec<SearchResult> = Vec::new();
        let mut k: usize = 0;
        while k < end
            invariant
                k <= end <= sorted.len(),
                results@.len() == k,
                forall|t: int|
                    0 <= t < sorted@.len() ==> {
                        &&& (#[trigger] sorted@[t]).kind == 0 ==> sorted@[t].at < self.jobs@.len()
                        &&& sorted@[t].kind != 0 ==> sorted@[t].at < self.datasets@.len()
                    },
                forall|t: int| 0 <= t < k ==> hit_renders(#[trigger] results@[t], sorted@[t], self@),
            decreases end - k,
        {
            results.push(render_hit(&sorted[k], self));
            k = k + 1;
        }
        let r = Search { total_count: sorted.len(), results };
        proof {
            assert(sorted_by_rank(sorted@));
        }
        r
    }
}

/// The node id of dataset `d`.
pub open spec fn dataset_node(d: EntityId) -> Seq<char> {
    node_id_text(dataset_word(), d.namespace@, d.name@)
}

/// The node id of job `j`.
pub open spec fn job_node(j: EntityId) -> Seq<char> {
    node_id_text(job_word(), j.namespace@, j.name@)
}

/// The edges of one job: each input dataset to the job, the job to each
/// output dataset.
pub open spec fn job_edges(id: EntityId, j: JobView) -> Seq<(Seq<char>, Seq<char>)> {
    j.inputs.map_values(|d: EntityId| (dataset_node(d), job_node(id))) + j.outputs.map_values(
        |d: EntityId| (job_node(id), dataset_node(d)),
    )
}

/// The edges of all jobs, job by job.
pub open spec fn model_edges(jobs: Seq<(EntityId, JobView)>) -> Seq<(Seq<char>, Seq<char>)>
    decreases jobs.len(),
{
    if jobs.len() == 0 {
        Seq::empty()
    } else {
        model_edges(jobs.drop_last()) + job_edges(jobs.last().0, jobs.last().1)
    }
}

/// Whether node `x` is at most `d` hops from `seed`, the edges taken in
/// either direction.
pub open spec fn within(m: ModelView, seed: Seq<char>, d: nat, x: Seq<char>) -> bool
    decreases d,
{
    if d == 0 {
        x == seed
    } else {
        let es = model_edges(m.jobs);
        within(m, seed, (d - 1) as nat, x) || exists|e: int|
            0 <= e < es.len() && ((within(m, seed, (d - 1) as nat, (#[trigger] es[e]).0) && es[e].1
                == x) || (within(m, seed, (d - 1) as nat, es[e].1) && es[e].0 == x))
    }
}

pub open spec fn has_id(v: Seq<String>, x: Seq<char>) -> bool {
    exists|i: int| 0 <= i < v.len() && (#[trigger] v[i])@ == x
}

pub open spec fn ids_distinct(v: Seq<String>) -> bool {
    forall|i: int, j: int| 0 <= i < j < v.len() ==> (#[trigger] v[i])@ != (#[trigger] v[j])@
}

pub open spec fn edge_views(v: Seq<LineageEdge>) -> Seq<(Seq<char>, Seq<char>)> {
    v.map_values(|e: LineageEdge| (e.origin@, e.destination@))
}

fn contains_id(v: &Vec<String>, x: &str) -> (r: bool)
    ensures
        r == has_id(v@, x@),
{
    let mut i: usize = 0;
    while i < v.len()
        invariant
            i <= v.len(),
            forall|k: int| 0 <= k < i ==> (#[trigger] v@[k])@ != x@,
        decreases v.len() - i,
    {
        if str_eq(v[i].as_str(), x) {
            return true;
        }
        i = i + 1;
    }
    false
}

proof fn lemma_model_edges_push(jobs: Seq<(EntityId, JobView)>, x: (EntityId, JobView))
    ensures
        model_edges(jobs.push(x)) == model_edges(jobs) + job_edges(x.0, x.1),
{
    assert(jobs.push(x).drop_last() =~= jobs);
}

/// All edges of the model.
fn all_edges(m: &Model) -> (r: Vec<LineageEdge>)
    ensures
        edge_views(r@) == model_edges(m@.jobs),
{
    let ghost mj = m@.jobs;
    let mut r: Vec<LineageEdge> = Vec::new();
    let mut i: usize = 0;
    proof {
        assert(mj.take(0) =~= Seq::<(EntityId, JobView)>::empty());
    }
    while i < m.jobs.len()
        invariant
            i <= m.jobs.len(),
            mj == m@.jobs,
            edge_views(r@) == model_edges(mj.take(i as int)),
        decreases m.jobs.len() - i,
    {
        let id = &m.jobs[i].0;
        let agg = &m.jobs[i].1;
        let jn = job_node_id(id.namespace.as_str(), id.name.as_str());
        let ghost r0 = edge_views(r@);
        let mut k: usize = 0;
        while k < agg.inputs.len()
            invariant
                k <= agg.inputs.len(),
                jn@ == job_node(*id),
                edge_views(r@) == r0 + agg.inputs@.take(k as int).map_values(
                    |d: EntityId| (dataset_node(d), job_node(*id)),
                ),
            decreases agg.inputs.len() - k,
        {
            let d = &agg.inputs[k];
            let ghost before = edge_views(r@);
            let e = LineageEdge {
                origin: dataset_node_id(d.namespace.as_str(), d.name.as_str()),
                destination: jn.clone(),
            };
            assert(e.origin@ == dataset_node(*d) && e.destination@ == job_node(*id));
            r.push(e);
            assert(edge_views(r@) =~= before.push((dataset_node(*d), job_node(*id))));
            assert(agg.inputs@.take(k + 1) =~= agg.inputs@.take(k as int).push(*d));
            k = k + 1;
            assert(edge_views(r@) =~= r0 + agg.inputs@.take(k as int).map_values(
                |d: EntityId| (dataset_node(d), job_node(*id)),
            ));
        }
        let ghost r1 = edge_views(r@);
        let mut k: usize = 0;
        while k < agg.outputs.len()
            invariant
                k <= agg.outputs.len(),
                jn@ == job_node(*id),
                edge_views(r@) == r1 + agg.outputs@.take(k as int).map_values(
                    |d: EntityId| (job_node(*id), dataset_node(d)),
                ),
            decreases agg.outputs.len() - k,
        {
            let d = &agg.outputs[k];
            let ghost before = edge_views(r@);
            let e = LineageEdge {
                origin: jn.clone(),
                destination: dataset_node_id(d.namespace.as_str(), d.name.as_str()),
            };
            assert(e.destination@ == dataset_node(*d) && e.origin@ == job_node(*id));
            r.push(e);
            assert(edge_views(r@) =~= before.push((job_node(*id), dataset_node(*d))));
            assert(agg.outputs@.take(k + 1) =~= agg.outputs@.take(k as int).push(*d));
            k = k + 1;
            assert(edge_views(r@) =~= r1 + agg.outputs@.take(k as int).map_values(
                |d: EntityId| (job_node(*id), dataset_node(d)),
            ));
        }
        proof {
            assert(agg.inputs@.take(agg.inputs@.len() as int) =~= agg.inputs@);
            assert(agg.outputs@.take(agg.outputs@.len() as int) =~= agg.outputs@);
            assert(mj.take(i + 1) =~= mj.take(i as int).push(mj[i as int]));
            lemma_model_edges_push(mj.take(i as int), mj[i as int]);
            assert(edge_views(r@) =~= model_edges(mj.take(i + 1)));
        }
        i = i + 1;
    }
    proof {
        assert(mj.take(i as int) =~= mj);
    }
    r
}

/// One more hop: `next` holds exactly the nodes within `k + 1` hops, given
/// `cur` holds exactly those within `k`.
fn expand(
    cur: &Vec<String>,
    edges: &Vec<LineageEdge>,
    Ghost(m): Ghost<ModelView>,
    Ghost(seed): Ghost<Seq<char>>,
    Ghost(k): Ghost<nat>,
) -> (next: Vec<String>)
    requires
        edge_views(edges@) == model_edges(m.jobs),
        ids_distinct(cur@),
        forall|x: Seq<char>| #![trigger has_id(cur@, x)] #![trigger within(m, seed, k, x)]
            within(m, seed, k, x) <==> has_id(cur@, x),
    ensures
        ids_distinct(next@),
        forall|x: Seq<char>| #![trigger has_id(next@, x)] #![trigger within(m, seed, k + 1, x)]
            within(m, seed, k + 1, x) <==> has_id(next@, x),
{
    let ghost es = model_edges(m.jobs);
    let mut next: Vec<String> = Vec::new();
    let mut i: usize = 0;
    while i < cur.len()
        invariant
            i <= cur.len(),
            next@ == cur@.take(i as int),
        decreases cur.len() - i,
    {
        next.push(cur[i].clone());
        i = i + 1;
        assert(next@ =~= cur@.take(i as int));
    }
    assert(next@ =~= cur@);
    let mut t: usize = 0;
    while t < edges.len()
        invariant
            t <= edges.len(),
            es == model_edges(m.jobs),
            edge_views(edges@) == es,
            ids_distinct(next@),
            forall|x: Seq<char>| #![trigger has_id(cur@, x)] #![trigger within(m, seed, k, x)]
                within(m, seed, k, x) <==> has_id(cur@, x),
            forall|x: Seq<char>| #![trigger has_id(next@, x)]
                has_id(next@, x) <==> (within(m, seed, k, x) || exists|e: int|
                    0 <= e < t && ((within(m, seed, k, (#[trigger] es[e]).0) && es[e].1 == x) || (
                    within(m, seed, k, es[e].1) && es[e].0 == x))),
        decreases edges.len() - t,
    {
        let a = &edges[t].origin;
        let b = &edges[t].destination;
        assert(es[t as int] == (a@, b@));
        let ghost n0 = next@;
        if contains_id(cur, a.as_str()) && !contains_id(&next, b.as_str()) {
            next.push(b.clone());
            proof {
                assert forall|i: int, j: int| 0 <= i < j < next@.len() implies (#[trigger] next@[i])@
                    != (#[trigger] next@[j])@ by {
                    if j == n0.len() {
                        assert(!has_id(n0, b@));
                    }
                }
            }
        }
        let ghost n1 = next@;
        if contains_id(cur, b.as_str()) && !contains_id(&next, a.as_str()) {
            next.push(a.clone());
            proof {
                assert forall|i: int, j: int| 0 <= i < j < next@.len() implies (#[trigger] next@[i])@
                    != (#[trigger] next@[j])@ by {
                    if j == n1.len() {
                        assert(!has_id(n1, a@));
                    }
                }
            }
        }
        proof {
            assert forall|x: Seq<char>| #![trigger has_id(next@, x)]
                has_id(next@, x) <==> (within(m, seed, k, x) || exists|e: int|
                    0 <= e < t + 1 && ((within(m, seed, k, (#[trigger] es[e]).0) && es[e].1 == x)
                    || (within(m, seed, k, es[e].1) && es[e].0 == x))) by {
                if has_id(next@, x) {
                    let i = choose|i: int| 0 <= i < next@.len() && (#[trigger] next@[i])@ == x;
                    if i < n0.len() {
                        assert(has_id(n0, x));
                    } else if i < n1.len() {
                        assert(x == b@);
                        assert(within(m, seed, k, es[t as int].0) && es[t as int].1 == x);
                    } else {
                        assert(x == a@);
                        assert(within(m, seed, k, es[t as int].1) && es[t as int].0 == x);
                    }
                }
                if within(m, seed, k, x) || exists|e: int|
                    0 <= e < t + 1 && ((within(m, seed, k, (#[trigger] es[e]).0) && es[e].1 == x)
                    || (within(m, seed, k, es[e].1) && es[e].0 == x)) {
                    if within(m, seed, k, x) {
                        assert(has_id(n0, x));
                        let i = choose|i: int| 0 <= i < n0.len() && (#[trigger] n0[i])@ == x;
                        assert(next@[i]@ == x);
                    } else {
                        let e = choose|e: int|
                            0 <= e < t + 1 && ((within(m, seed, k, (#[trigger] es[e]).0) && es[e].1
                                == x) || (within(m, seed, k, es[e].1) && es[e].0 == x));
                        if e < t {
                            assert(has_id(n0, x));
                            let i = choose|i: int| 0 <= i < n0.len() && (#[trigger] n0[i])@ == x;
                            assert(next@[i]@ == x);
                        } else if within(m, seed, k, es[e].0) && es[e].1 == x {
                            assert(has_id(cur@, a@));
                            if has_id(n0, b@) {
                                let i = choose|i: int| 0 <= i < n0.len() && (#[trigger] n0[i])@ == b@;
                                assert(next@[i]@ == x);
                            } else {
                                assert(n1[n0.len() as int]@ == x);
                                assert(next@[n0.len() as int]@ == x);
                            }
                        } else {
                            assert(has_id(cur@, b@));
                            if has_id(n1, a@) {
                                let i = choose|i: int| 0 <= i < n1.len() && (#[trigger] n1[i])@ == a@;
                                assert(next@[i]@ == x);
                            } else {
                                assert(next@[n1.len() as int]@ == x);
                            }
                        }
                    }
                }
            }
        }
        t = t + 1;
    }
    proof {
        assert forall|x: Seq<char>| #![trigger has_id(next@, x)] #![trigger within(m, seed, k + 1, x)]
            within(m, seed, k + 1, x) <==> has_id(next@, x) by {
            assert(within(m, seed, k + 1, x) == (within(m, seed, k, x) || exists|e: int|
                0 <= e < es.len() && ((within(m, seed, k, (#[trigger] es[e]).0) && es[e].1 == x) || (
                within(m, seed, k, es[e].1) && es[e].0 == x))));
        }
    }
    next
}

/// The entity node id `x` addresses: its kind and position in the model.
pub open spec fn node_entity(m: ModelView, x: Seq<char>) -> Option<(NodeKind, int)> {
    match parse_node_id_spec(x) {
        Some((NodeKind::Job, ns, name)) => match index_of_id(job_ids(m), ns, name, 0) {
            Some(i) => Some((NodeKind::Job, i)),
            None => None,
        },
        Some((NodeKind::Dataset, ns, name)) => match index_of_id(dataset_ids(m), ns, name, 0) {
            Some(i) => Some((NodeKind::Dataset, i)),
            None => None,
        },
        None => None,
    }
}

/// `v` holds each edge of `es` into `x` (`incoming`) or out of `x` exactly
/// once, and nothing else.
pub open spec fn edges_incident(
    v: Seq<LineageEdge>,
    es: Seq<(Seq<char>, Seq<char>)>,
    x: Seq<char>,
    incoming: bool,
) -> bool {
    let ev = edge_views(v);
    &&& forall|i: int, j: int| 0 <= i < j < ev.len() ==> #[trigger] ev[i] != #[trigger] ev[j]
    &&& forall|i: int|
        0 <= i < ev.len() ==> es.contains(#[trigger] ev[i]) && (if incoming {
            ev[i].1 == x
        } else {
            ev[i].0 == x
        })
    &&& forall|e: int|
        0 <= e < es.len() && (if incoming {
            es[e].1 == x
        } else {
            es[e].0 == x
        }) ==> ev.contains(#[trigger] es[e])
}

/// `n` is the graph node of the entity its id addresses, with its edges.
pub open spec fn node_renders(n: LineageNode, m: ModelView) -> bool {
    let es = model_edges(m.jobs);
    &&& match node_entity(m, n.id@) {
        Some((NodeKind::Job, i)) => n.node_type@ == "JOB"@ && (n.data matches NodeData::Job(j)
            && job_renders(j, m.jobs[i].0, m.jobs[i].1)),
        Some((NodeKind::Dataset, i)) => n.node_type@ == "DATASET"@ && (n.data matches NodeData::Dataset(
            d,
        ) && dataset_renders(d, m.datasets[i].0, m.datasets[i].1)),
        None => false,
    }
    &&& edges_incident(n.in_edges@, es, n.id@, true)
    &&& edges_incident(n.out_edges@, es, n.id@, false)
}

/// The lineage graph around `seed`: every node within `d` hops that
/// addresses an entity of the model, once, with its edges.
pub open spec fn graph_renders(g: Seq<LineageNode>, m: ModelView, seed: Seq<char>, d: nat) -> bool {
    &&& forall|i: int, j: int| 0 <= i < j < g.len() ==> (#[trigger] g[i]).id@ != (#[trigger] g[j]).id@
    &&& forall|i: int|
        0 <= i < g.len() ==> within(m, seed, d, (#[trigger] g[i]).id@) && node_renders(g[i], m)
    &&& forall|x: Seq<char>|
        #![trigger within(m, seed, d, x)]
        within(m, seed, d, x) && node_entity(m, x) is Some ==> exists|i: int|
            0 <= i < g.len() && (#[trigger] g[i]).id@ == x
}

/// The deepest traversal the graph endpoint performs.
pub open spec fn max_depth() -> nat {
    20
}

/// The answer of the lineage endpoint for `node_id` and `depth`.
pub open spec fn lineage_answer(
    r: Result<LineageGraph, ReadError>,
    m: ModelView,
    node_id: Seq<char>,
    depth: nat,
) -> bool {
    if parse_node_id_spec(node_id) is None {
        r matches Err(ReadError::NotFound(msg)) && msg@ == "malformed nodeId "@ + node_id
    } else if node_entity(m, node_id) is None {
        r matches Err(ReadError::NotFound(msg)) && msg@ == "node "@ + node_id
    } else {
        r matches Ok(g) && graph_renders(
            g.graph@,
            m,
            node_id,
            if depth < max_depth() {
                depth
            } else {
                max_depth()
            },
        )
    }
}

fn copy_edge(e: &LineageEdge) -> (c: LineageEdge)
    ensures
        c == *e,
{
    LineageEdge { origin: e.origin.clone(), destination: e.destination.clone() }
}

/// The distinct edges into (`incoming`) or out of `x`.
fn edges_touching(edges: &Vec<LineageEdge>, x: &str, incoming: bool) -> (r: Vec<LineageEdge>)
    ensures
        edges_incident(r@, edge_views(edges@), x@, incoming),
{
    let ghost es = edge_views(edges@);
    let mut r: Vec<LineageEdge> = Vec::new();
    let mut t: usize = 0;
    while t < edges.len()
        invariant
            t <= edges.len(),
            es == edge_views(edges@),
            forall|i: int, j: int|
                0 <= i < j < edge_views(r@).len() ==> #[trigger] edge_views(r@)[i]
                    != #[trigger] edge_views(r@)[j],
            forall|i: int|
                0 <= i < edge_views(r@).len() ==> es.contains(#[trigger] edge_views(r@)[i]) && (
                if incoming {
                    edge_views(r@)[i].1 == x@
                } else {
                    edge_views(r@)[i].0 == x@
                }),
            forall|e: int|
                0 <= e < t && (if incoming {
                    es[e].1 == x@
                } else {
                    es[e].0 == x@
                }) ==> edge_views(r@).contains(#[trigger] es[e]),
        decreases edges.len() - t,
    {
        let cur = &edges[t];
        let end = if incoming {
            cur.destination.as_str()
        } else {
            cur.origin.as_str()
        };
        assert(es[t as int] == (cur.origin@, cur.destination@));
        if str_eq(end, x) {
            let mut k: usize = 0;
            let mut seen = false;
            while k < r.len()
                invariant
                    k <= r.len(),
                    t < edges.len(),
                    es == edge_views(edges@),
                    es[t as int] == (cur.origin@, cur.destination@),
                    seen ==> edge_views(r@).contains(es[t as int]),
                    !seen ==> forall|i: int| 0 <= i < k ==> #[trigger] edge_views(r@)[i] != es[t as int],
                decreases r.len() - k,
            {
                if str_eq(r[k].origin.as_str(), cur.origin.as_str()) && str_eq(
                    r[k].destination.as_str(),
                    cur.destination.as_str(),
                ) {
                    assert(edge_views(r@)[k as int] == es[t as int]);
                    seen = true;
                }
                k = k + 1;
            }
            if !seen {
                let ghost r0 = edge_views(r@);
                r.push(copy_edge(cur));
                proof {
                    let r1 = edge_views(r@);
                    assert(r1 =~= r0.push(es[t as int]));
                    assert(es.contains(es[t as int]));
                    assert forall|e: int|
                        0 <= e < t + 1 && (if incoming {
                            es[e].1 == x@
                        } else {
                            es[e].0 == x@
                        }) implies r1.contains(#[trigger] es[e]) by {
                        if e < t {
                            let i = choose|i: int| 0 <= i < r0.len() && r0[i] == es[e];
                            assert(r1[i] == es[e]);
                        } else {
                            assert(r1[r0.len() as int] == es[e]);
                        }
                    }
                }
            } else {
                proof {
                    assert forall|e: int|
                        0 <= e < t + 1 && (if incoming {
                            es[e].1 == x@
                        } else {
                            es[e].0 == x@
                        }) implies edge_views(r@).contains(#[trigger] es[e]) by {
                    }
                }
            }
        }
        t = t + 1;
    }
    r
}

/// The graph node addressed by `x`, if it names an entity of the model.
fn build_node(m: &Model, x: &String, edges: &Vec<LineageEdge>) -> (r: Option<LineageNode>)
    requires
        edge_views(edges@) == model_edges(m@.jobs),
    ensures
        match r {
            Some(n) => n.id@ == x@ && node_renders(n, m@),
            None => node_entity(m@, x@) is None,
        },
{
    let (kind, ns, name) = match parse_node_id(x.as_str()) {
        Some(p) => p,
        None => return None,
    };
    let (node_type, data) = match kind {
        NodeKind::Job => {
            let ids = ids_of_jobs(&m.jobs);
            proof {
                assert(ids@ =~= job_ids(m@));
            }
            match find_entity(&ids, ns.as_str(), name.as_str()) {
                Some(i) => (owned("JOB"), NodeData::Job(build_job(&m.jobs[i].0, &m.jobs[i].1))),
                None => return None,
            }
        },
        NodeKind::Dataset => {
            let ids = ids_of_datasets(&m.datasets);
            proof {
                assert(ids@ =~= dataset_ids(m@));
            }
            match find_entity(&ids, ns.as_str(), name.as_str()) {
                Some(i) => (
                    owned("DATASET"),
                    NodeData::Dataset(build_dataset(&m.datasets[i].0, &m.datasets[i].1)),
                ),
                None => return None,
            }
        },
    };
    let in_edges = edges_touching(edges, x.as_str(), true);
    let out_edges = edges_touching(edges, x.as_str(), false);
    Some(LineageNode { id: x.clone(), node_type, data, in_edges, out_edges })
}

impl Model {
    /// The lineage graph around `node_id`: every entity node within
    /// `min(depth, 20)` hops (edges taken both ways) with its edges;
    /// `NotFound` for a malformed or unknown node id.
    pub fn lineage(&self, node_id: &str, depth: usize) -> (r: Result<LineageGraph, ReadError>)
        ensures
            lineage_answer(r, self@, node_id@, depth as nat),
    {
        let parsed = parse_node_id(node_id);
        if parsed.is_none() {
            let mut msg = owned("malformed nodeId ");
            msg.append(node_id);
            return Err(ReadError::NotFound(msg));
        }
        let seed = owned(node_id);
        let edges = all_edges(self);
        let probe = build_node(self, &seed, &edges);
        if probe.is_none() {
            let mut msg = owned("node ");
            msg.append(node_id);
            return Err(ReadError::NotFound(msg));
        }
        let d: usize = if depth < 20 {
            depth
        } else {
            20
        };
        let mut reached: Vec<String> = Vec::new();
        reached.push(owned(node_id));
        proof {
            assert forall|x: Seq<char>| #![trigger has_id(reached@, x)] #![trigger within(self@, node_id@, 0, x)]
                within(self@, node_id@, 0, x) <==> has_id(reached@, x) by {
                if x == node_id@ {
                    assert(reached@[0]@ == x);
                }
            }
        }
        let mut k: usize = 0;
        while k < d
            invariant
                k <= d,
                edge_views(edges@) == model_edges(self@.jobs),
                ids_distinct(reached@),
                forall|x: Seq<char>| #![trigger has_id(reached@, x)] #![trigger within(self@, node_id@, k as nat, x)]
                    within(self@, node_id@, k as nat, x) <==> has_id(reached@, x),
            decreases d - k,
        {
            reached = expand(&reached, &edges, Ghost(self@), Ghost(node_id@), Ghost(k as nat));
            k = k + 1;
        }
        let mut graph: Vec<LineageNode> = Vec::new();
        let mut i: usize = 0;
        while i < reached.len()
            invariant
                i <= reached.len(),
                edge_views(edges@) == model_edges(self@.jobs),
                ids_distinct(reached@),
                forall|x: Seq<char>| #![trigger has_id(reached@, x)] #![trigger within(self@, node_id@, d as nat, x)]
                    within(self@, node_id@, d as nat, x) <==> has_id(reached@, x),
                forall|t: int|
                    0 <= t < graph@.len() ==> exists|j: int|
                        0 <= j < i && (#[trigger] graph@[t]).id@ == (#[trigger] reached@[j])@,
                forall|t: int| 0 <= t < graph@.len() ==> node_renders(#[trigger] graph@[t], self@),
                forall|a: int, b: int|
                    0 <= a < b < graph@.len() ==> (#[trigger] graph@[a]).id@ != (#[trigger] graph@[b]).id@,
                forall|j: int|
                    0 <= j < i && node_entity(self@, (#[trigger] reached@[j])@) is Some ==> exists|t: int|
                        0 <= t < graph@.len() && graph@[t].id@ == reached@[j]@,
            decreases reached.len() - i,
        {
            let ghost g0 = graph@;
            match build_node(self, &reached[i], &edges) {
                Some(n) => {
                    graph.push(n);
                    proof {
                        let g1 = graph@;
                        assert forall|t: int|
                            0 <= t < g1.len() implies exists|j: int|
                                0 <= j < i + 1 && (#[trigger] g1[t]).id@ == (#[trigger] reached@[j])@ by {
                            if t == g0.len() {
                                assert(g1[t].id@ == reached@[i as int]@);
                            } else {
                                assert(g1[t] == g0[t]);
                            }
                        }
                        assert forall|a: int, b: int|
                            0 <= a < b < g1.len() implies (#[trigger] g1[a]).id@ != (#[trigger] g1[b]).id@ by {
                            if b == g0.len() {
                                let j = choose|j: int| 0 <= j < i && (#[trigger] g0[a]).id@ == (#[trigger] reached@[j])@;
                                assert(reached@[j]@ != reached@[i as int]@);
                            } else {
                                assert(g1[a] == g0[a] && g1[b] == g0[b]);
                            }
                        }
                        assert forall|j: int|
                            0 <= j < i + 1 && node_entity(self@, (#[trigger] reached@[j])@) is Some implies exists|t: int|
                                0 <= t < g1.len() && g1[t].id@ == reached@[j]@ by {
                            if j == i {
                                assert(g1[g0.len() as int].id@ == reached@[j]@);
                            } else {
                                let t = choose|t: int| 0 <= t < g0.len() && g0[t].id@ == reached@[j]@;
                                assert(g1[t] == g0[t]);
                            }
                        }
                    }
                },
                None => {
                    proof {
                        assert forall|t: int|
                            0 <= t < graph@.len() implies exists|j: int|
                                0 <= j < i + 1 && (#[trigger] graph@[t]).id@ == (#[trigger] reached@[j])@ by {
                            let j = choose|j: int| 0 <= j < i && (#[trigger] graph@[t]).id@ == (#[trigger] reached@[j])@;
                        }
                    }
                },
            }
            i = i + 1;
        }
        proof {
            let g = graph@;
            assert forall|t: int| 0 <= t < g.len() implies within(self@, node_id@, d as nat, (#[trigger] g[t]).id@) by {
                let j = choose|j: int| 0 <= j < reached@.len() && (#[trigger] g[t]).id@ == (#[trigger] reached@[j])@;
                assert(has_id(reached@, g[t].id@));
            }
            assert forall|x: Seq<char>|
                #![trigger within(self@, node_id@, d as nat, x)]
                within(self@, node_id@, d as nat, x) && node_entity(self@, x) is Some implies exists|t: int|
                    0 <= t < g.len() && (#[trigger] g[t]).id@ == x by {
                assert(has_id(reached@, x));
                let j = choose|j: int| 0 <= j < reached@.len() && (#[trigger] reached@[j])@ == x;
                let t = choose|t: int| 0 <= t < g.len() && g[t].id@ == reached@[j]@;
            }
        }
        Ok(LineageGraph { graph })
    }
}

/// The JSON array text of a dataset's columns.
pub open spec fn fields_json_text(fields: Seq<Seq<char>>) -> Seq<char> {
    "["@ + join_commas(fields) + "]"@
}

/// The bytes std's `Hash` for `str` feeds a hasher: the UTF-8 bytes, then
/// `0xff`.
pub open spec fn str_hash_writes(s: Seq<char>) -> Seq<Seq<u8>> {
    seq![vstd::utf8::encode_utf8(s), seq![0xffu8]]
}

/// The version id of a dataset snapshot: std's default hasher over the
/// namespace, the name and the columns' JSON array, as 16 hex digits.
pub open spec fn version_text(ns: Seq<char>, name: Seq<char>, fields: Seq<Seq<char>>) -> Seq<char> {
    hex_text(
        DefaultHasher::spec_finish(
            str_hash_writes(ns) + str_hash_writes(name) + str_hash_writes(fields_json_text(fields)),
        ) as nat,
        16,
    )
}

fn hash_str(h: &mut DefaultHasher, s: &str)
    ensures
        final(h)@ == old(h)@ + str_hash_writes(s@),
{
    h.write(s.as_bytes());
    let ff: Vec<u8> = vec![0xffu8];
    assert(ff@ =~= seq![0xffu8]);
    h.write(ff.as_slice());
    assert(h@ =~= old(h)@ + str_hash_writes(s@));
}

/// A deterministic version id for a dataset snapshot, from its identity and
/// columns.
pub fn stable_version_id(namespace: &str, name: &str, fields: &Vec<String>) -> (r: String)
    ensures
        r@ == version_text(namespace@, name@, string_views(fields@)),
{
    let mut json = owned("[");
    let joined = join_with_commas(fields);
    json.append(joined.as_str());
    json.append("]");
    let mut h = DefaultHasher::new();
    hash_str(&mut h, namespace);
    hash_str(&mut h, name);
    hash_str(&mut h, json.as_str());
    assert(h@ =~= str_hash_writes(namespace@) + str_hash_writes(name@) + str_hash_writes(
        fields_json_text(string_views(fields@)),
    ));
    let v = h.finish();
    let digits = hex_fixed(v, 16);
    string_of_chars(&digits)
}

/// `v` is the one version of dataset (`ns`, `name`) with aggregate `agg`.
pub open spec fn version_renders(v: DatasetVersion, ns: Seq<char>, name: Seq<char>, agg: DatasetView) -> bool {
    let version = version_text(ns, name, string_views(agg.fields));
    &&& v.id.namespace@ == ns
    &&& v.id.name@ == name
    &&& v.id.version@ == version
    &&& v.dataset_type@ == "DB_TABLE"@
    &&& v.name@ == name
    &&& v.physical_name@ == name
    &&& v.created_at@ == rfc3339_text(agg.first_seen)
    &&& v.version@ == version
    &&& v.namespace@ == ns
    &&& v.source_name@ == ns
    &&& v.fields@ == agg.fields
    &&& v.tags@.len() == 0
    &&& crate::text::opt_view(v.last_modified_at) == Some(rfc3339_text(agg.last_seen))
    &&& v.description is None
    &&& v.facets@ == dataset_facets_text(string_views(agg.fields))
}

impl Model {
    /// The versions of dataset (`namespace`, `name`): its current snapshot as
    /// the one version, paged; `NotFound("dataset <ns>/<name>")` if unknown.
    pub fn dataset_versions(&self, namespace: &str, name: &str, limit: usize, offset: usize) -> (r:
        Result<DatasetVersions, ReadError>)
        ensures
            match index_of_id(dataset_ids(self@), namespace@, name@, 0) {
                Some(i) => r matches Ok(vs) && vs.total_count == 1 && vs.versions@.len() == page_end(
                    1,
                    offset as int,
                    limit as int,
                ) - page_start(1, offset as int) && (vs.versions@.len() == 1 ==> version_renders(
                    vs.versions@[0],
                    namespace@,
                    name@,
                    self@.datasets[i].1,
                )),
                None => r matches Err(e) && not_found_entity(e, "dataset "@, namespace@, name@),
            },
    {
        let dataset = match self.dataset(namespace, name) {
            Ok(d) => d,
            Err(e) => return Err(e),
        };
        let ghost i = index_of_id(dataset_ids(self@), namespace@, name@, 0)->0;
        proof {
            lemma_index_of_id(dataset_ids(self@), namespace@, name@, 0);
            assert(dataset_renders(dataset, self@.datasets[i].0, self@.datasets[i].1));
            assert(dataset_ids(self@)[i] == self@.datasets[i].0);
        }
        let version = stable_version_id(namespace, name, &dataset.fields);
        let (start, end) = page_bounds(1, offset, limit);
        let mut versions: Vec<DatasetVersion> = Vec::new();
        if start < end {
            versions.push(
                DatasetVersion {
                    id: DatasetVersionId {
                        namespace: owned(namespace),
                        name: owned(name),
                        version: version.clone(),
                    },
                    dataset_type: dataset.dataset_type,
                    name: owned(name),
                    physical_name: dataset.physical_name,
                    created_at: dataset.created_at,
                    version,
                    namespace: owned(namespace),
                    source_name: dataset.source_name,
                    fields: dataset.fields,
                    tags: Vec::new(),
                    last_modified_at: Some(dataset.updated_at),
                    description: dataset.description,
                    facets: dataset.facets,
                },
            );
        }
        Ok(DatasetVersions { versions, total_count: 1 })
    }
}

/// Every rendered job carries at least one run in `latestRuns` (a neutral
/// one when none of its events named a run), and `latestRun` is the first.
pub proof fn lemma_job_has_latest_run(j: Job, id: EntityId, agg: JobView)
    requires
        job_renders(j, id, agg),
    ensures
        j.latest_runs@.len() > 0,
        j.latest_run == Some(j.latest_runs@[0]),
{
    if agg.runs.len() > 0 {
        broadcast use vstd::seq_lib::group_to_multiset_ensures;

        let s = choose|s: Seq<RunAgg>|
            #![trigger sorted_by_rank(s)]
            sorted_by_rank(s) && s.to_multiset() == agg.runs.to_multiset() && runs_render(j.latest_runs@, s);
        assert(s.to_multiset().len() == agg.runs.to_multiset().len());
    }
}

/// Reaching within `d` hops implies reaching within any larger bound.
pub proof fn lemma_within_mono(m: ModelView, seed: Seq<char>, d: nat, e: nat, x: Seq<char>)
    requires
        d <= e,
        within(m, seed, d, x),
    ensures
        within(m, seed, e, x),
    decreases e - d,
{
    if d < e {
        lemma_within_mono(m, seed, d, (e - 1) as nat, x);
    }
}

/// The node a lineage graph is asked for is in the graph, whatever the
/// depth.
pub proof fn lemma_seed_in_graph(g: Seq<LineageNode>, m: ModelView, seed: Seq<char>, d: nat)
    requires
        graph_renders(g, m, seed, d),
        node_entity(m, seed) is Some,
    ensures
        exists|i: int| 0 <= i < g.len() && (#[trigger] g[i]).id@ == seed,
{
    lemma_within_mono(m, seed, 0, d, seed);
}

} // verus!
