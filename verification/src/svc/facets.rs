//! The run-detail facets: the `run.facets` maps of a run's stored events,
//! merged so that later events override earlier facets of the same name.

use vstd::prelude::*;

use crate::strmap::{keys_unique, lemma_lookup_at, lemma_lookup_index, lookup, str_eq, StringMap};
use crate::sort::views;
use crate::svc::read::ReadError;
use crate::text::owned;

verus! {

/// A stored event as the facets view reads it: its run, its time, and its
/// `run.facets` (facet name to JSON text) when the document parses and holds
/// that object.
#[derive(Debug)]
pub struct RunFacetRow {
    pub run_id: Option<String>,
    pub event_time: Option<i64>,
    pub facets: Option<StringMap>,
}

/// The merged run facets of one run.
#[derive(Debug)]
pub struct RunFacets {
    pub run_id: String,
    pub facets: StringMap,
}

/// Whether time `a` comes at or after `b` in ascending order, unknown times
/// last.
pub open spec fn not_before(a: Option<i64>, b: Option<i64>) -> bool {
    match (a, b) {
        (None, _) => true,
        (Some(_), None) => false,
        (Some(x), Some(y)) => x >= y,
    }
}

/// A row of run `rid`.
pub open spec fn of_run(r: RunFacetRow, rid: Seq<char>) -> bool {
    r.run_id matches Some(id) && id@ == rid
}

/// The facet `name` a row of run `rid` carries.
pub open spec fn row_facet_value(r: RunFacetRow, rid: Seq<char>, name: Seq<char>) -> Option<Seq<char>> {
    if of_run(r, rid) {
        match r.facets {
            Some(f) => f.spec_get(name),
            None => None,
        }
    } else {
        None
    }
}

/// The merged value of facet `name` of run `rid`, with the time of the event
/// it comes from: events are taken in ascending time, unknown times last and
/// storage order among equal times, each overriding what came before.
pub open spec fn facet_value(rows: Seq<RunFacetRow>, rid: Seq<char>, name: Seq<char>) -> Option<
    (Seq<char>, Option<i64>),
>
    decreases rows.len(),
{
    if rows.len() == 0 {
        None
    } else {
        let prev = facet_value(rows.drop_last(), rid, name);
        let r = rows.last();
        match row_facet_value(r, rid, name) {
            Some(v) => match prev {
                Some((pv, t)) => if not_before(r.event_time, t) {
                    Some((v, r.event_time))
                } else {
                    prev
                },
                None => Some((v, r.event_time)),
            },
            None => prev,
        }
    }
}

/// The merged facets of run `rid`, by name.
pub open spec fn merged_facet(rows: Seq<RunFacetRow>, rid: Seq<char>, name: Seq<char>) -> Option<Seq<char>> {
    match facet_value(rows, rid, name) {
        Some((v, _)) => Some(v),
        None => None,
    }
}

proof fn lemma_facet_value_some(rows: Seq<RunFacetRow>, rid: Seq<char>, name: Seq<char>)
    ensures
        facet_value(rows, rid, name) is Some <==> exists|j: int|
            0 <= j < rows.len() && (#[trigger] row_facet_value(rows[j], rid, name)) is Some,
    decreases rows.len(),
{
    if rows.len() > 0 {
        let d = rows.drop_last();
        lemma_facet_value_some(d, rid, name);
        if exists|j: int| 0 <= j < rows.len() && (#[trigger] row_facet_value(rows[j], rid, name)) is Some {
            let j = choose|j: int|
                0 <= j < rows.len() && (#[trigger] row_facet_value(rows[j], rid, name)) is Some;
            if j < rows.len() - 1 {
                assert(row_facet_value(d[j], rid, name) is Some);
            }
        }
        if exists|j: int| 0 <= j < d.len() && (#[trigger] row_facet_value(d[j], rid, name)) is Some {
            let j = choose|j: int| 0 <= j < d.len() && (#[trigger] row_facet_value(d[j], rid, name)) is Some;
            assert(row_facet_value(rows[j], rid, name) is Some);
        }
    }
}

fn not_before_exec(a: Option<i64>, b: Option<i64>) -> (r: bool)
    ensures
        r == not_before(a, b),
{
    match (a, b) {
        (None, _) => true,
        (Some(_), None) => false,
        (Some(x), Some(y)) => x >= y,
    }
}

fn of_run_exec(r: &RunFacetRow, rid: &str) -> (b: bool)
    ensures
        b == of_run(*r, rid@),
{
    match &r.run_id {
        Some(id) => str_eq(id.as_str(), rid),
        None => false,
    }
}

/// The merged value of one facet, computed as [`facet_value`] defines it.
fn facet_value_exec(rows: &Vec<RunFacetRow>, rid: &str, name: &str) -> (r: Option<String>)
    ensures
        crate::text::opt_view(r) == merged_facet(rows@, rid@, name@),
{
    let mut best: Option<(String, Option<i64>)> = None;
    let mut i: usize = 0;
    while i < rows.len()
        invariant
            i <= rows.len(),
            match best {
                Some((v, t)) => facet_value(rows@.take(i as int), rid@, name@) == Some((v@, t)),
                None => facet_value(rows@.take(i as int), rid@, name@) is None,
            },
        decreases rows.len() - i,
    {
        proof {
            assert(rows@.take(i + 1).drop_last() =~= rows@.take(i as int));
            assert(rows@.take(i + 1).last() == rows@[i as int]);
        }
        let r = &rows[i];
        if of_run_exec(r, rid) {
            if let Some(f) = &r.facets {
                if let Some(v) = f.get(name) {
                    let take = match &best {
                        Some((_, t)) => not_before_exec(r.event_time, *t),
                        None => true,
                    };
                    if take {
                        best = Some((v, r.event_time));
                    }
                }
            }
        }
        i = i + 1;
    }
    proof {
        assert(rows@.take(i as int) =~= rows@);
    }
    match best {
        Some((v, _)) => Some(v),
        None => None,
    }
}

/// The run-detail facets of run `run_id`: the `run.facets` maps of the run's
/// events merged so that later events (ascending time, unknown times last,
/// storage order among equal times) override earlier facets of the same
/// name. `NotFound("run <id>")` when no stored event belongs to the run.
pub fn run_facets(run_id: &str, rows: &Vec<RunFacetRow>) -> (r: Result<RunFacets, ReadError>)
    ensures
        (exists|j: int| 0 <= j < rows@.len() && of_run(#[trigger] rows@[j], run_id@)) <==> r is Ok,
        r matches Ok(rf) ==> rf.run_id@ == run_id@ && forall|name: Seq<char>| #[trigger]
            rf.facets.spec_get(name) == merged_facet(rows@, run_id@, name),
        r matches Err(e) ==> e matches ReadError::NotFound(msg) && msg@ == "run "@ + run_id@,
{
    let mut seen = false;
    let mut names: Vec<String> = Vec::new();
    let mut i: usize = 0;
    while i < rows.len()
        invariant
            i <= rows.len(),
            seen <==> exists|j: int| 0 <= j < i && of_run(#[trigger] rows@[j], run_id@),
            forall|q: Seq<char>|
                views(names@).contains(q) <==> exists|j: int|
                    0 <= j < i && (#[trigger] row_facet_value(rows@[j], run_id@, q)) is Some,
        decreases rows.len() - i,
    {
        let r = &rows[i];
        let ghost pre = names@;
        if of_run_exec(r, run_id) {
            seen = true;
            if let Some(f) = &r.facets {
                let es = f.entries();
                let mut k: usize = 0;
                while k < es.len()
                    invariant
                        k <= es.len(),
                        es@.map_values(|p: (String, String)| (p.0@, p.1@)) == f@,
                        keys_unique(f@),
                        forall|q: Seq<char>|
                            #[trigger] views(names@).contains(q) <==> (views(pre).contains(q)
                                || exists|m: int| 0 <= m < k && #[trigger] f@[m].0 == q),
                    decreases es.len() - k,
                {
                    let ghost before = names@;
                    names.push(es[k].0.clone());
                    proof {
                        assert(f@[k as int].0 == es@[k as int].0@);
                        assert(views(names@) =~= views(before).push(es@[k as int].0@));
                        assert forall|q: Seq<char>|
                            #[trigger] views(names@).contains(q) <==> (views(pre).contains(q) || exists|m: int| 0 <= m < k + 1 && #[trigger] f@[m].0 == q) by {
                            let nv = views(names@);
                            let bv = views(before);
                            if nv.contains(q) {
                                let w = choose|w: int| 0 <= w < nv.len() && nv[w] == q;
                                if w < bv.len() {
                                    assert(bv[w] == q);
                                } else {
                                    assert(f@[k as int].0 == q);
                                }
                            }
                            if exists|m: int| 0 <= m < k + 1 && #[trigger] f@[m].0 == q {
                                let m = choose|m: int| 0 <= m < k + 1 && #[trigger] f@[m].0 == q;
                                if m < k {
                                    assert(exists|m2: int| 0 <= m2 < k && #[trigger] f@[m2].0 == q);
                                    assert(bv.contains(q));
                                    let w = choose|w: int| 0 <= w < bv.len() && bv[w] == q;
                                    assert(nv[w] == q);
                                } else {
                                    assert(nv[nv.len() - 1] == q);
                                }
                            }
                            if bv.contains(q) {
                                let w = choose|w: int| 0 <= w < bv.len() && bv[w] == q;
                                assert(nv[w] == q);
                            }
                        }
                    }
                    k = k + 1;
                }
                proof {
                    assert(es@.len() == f@.len()) by {
                        assert(es@.map_values(|p: (String, String)| (p.0@, p.1@)).len() == es@.len());
                    }
                    assert forall|q: Seq<char>|
                        #[trigger] views(names@).contains(q) <==> (views(pre).contains(q)
                            || row_facet_value(rows@[i as int], run_id@, q) is Some) by {
                        assert(row_facet_value(rows@[i as int], run_id@, q) == f.spec_get(q));
                        lemma_lookup_index(f@, q);
                        if exists|m: int| 0 <= m < f@.len() && #[trigger] f@[m].0 == q {
                            let m = choose|m: int| 0 <= m < f@.len() && #[trigger] f@[m].0 == q;
                            lemma_lookup_at(f@, m);
                        }
                        if f.spec_get(q) is Some {
                            let m = choose|m: int| 0 <= m < f@.len() && f@[m] == (q, f.spec_get(q).unwrap());
                            assert(f@[m].0 == q);
                        }
                    }
                }
            } else {
                assert(names@ == pre);
            }
        } else {
            assert(names@ == pre);
        }
        proof {
            assert forall|q: Seq<char>|
                #[trigger] views(names@).contains(q) <==> exists|j: int|
                    0 <= j < i + 1 && (#[trigger] row_facet_value(rows@[j], run_id@, q)) is Some by {
                if exists|j: int| 0 <= j < i + 1 && (#[trigger] row_facet_value(rows@[j], run_id@, q)) is Some {
                    let j = choose|j: int|
                        0 <= j < i + 1 && (#[trigger] row_facet_value(rows@[j], run_id@, q)) is Some;
                    if j < i {
                        assert(row_facet_value(rows@[j], run_id@, q) is Some);
                    }
                }
                if views(pre).contains(q) {
                    let j = choose|j: int| 0 <= j < i && (#[trigger] row_facet_value(rows@[j], run_id@, q)) is Some;
                    assert(row_facet_value(rows@[j], run_id@, q) is Some);
                }
            }
        }
        i = i + 1;
    }
    if !seen {
        let mut msg = owned("run ");
        msg.append(run_id);
        return Err(ReadError::NotFound(msg));
    }
    let mut facets = StringMap::new();
    let mut n: usize = 0;
    while n < names.len()
        invariant
            n <= names.len(),
            i == rows.len(),
            forall|q: Seq<char>|
                views(names@).contains(q) <==> exists|j: int|
                    0 <= j < rows@.len() && (#[trigger] row_facet_value(rows@[j], run_id@, q)) is Some,
            forall|q: Seq<char>| #[trigger]
                facets.spec_get(q) == if exists|m: int| 0 <= m < n && names@[m]@ == q {
                    merged_facet(rows@, run_id@, q)
                } else {
                    None
                },
        decreases names.len() - n,
    {
        let name = names[n].as_str();
        let v = facet_value_exec(rows, run_id, name);
        proof {
            assert(views(names@)[n as int] == name@);
            assert(views(names@).contains(name@));
            lemma_facet_value_some(rows@, run_id@, name@);
        }
        match v {
            Some(val) => {
                facets.insert(names[n].clone(), val);
            },
            None => {
                proof {
                    assert(false);
                }
            },
        }
        proof {
            assert forall|q: Seq<char>| #[trigger]
                facets.spec_get(q) == if exists|m: int| 0 <= m < n + 1 && names@[m]@ == q {
                    merged_facet(rows@, run_id@, q)
                } else {
                    None
                } by {
                if q == name@ {
                    assert(names@[n as int]@ == q);
                } else if exists|m: int| 0 <= m < n + 1 && names@[m]@ == q {
                    let m = choose|m: int| 0 <= m < n + 1 && names@[m]@ == q;
                    assert(m < n);
                }
            }
        }
        n = n + 1;
    }
    proof {
        assert forall|q: Seq<char>| #[trigger]
            facets.spec_get(q) == merged_facet(rows@, run_id@, q) by {
            lemma_facet_value_some(rows@, run_id@, q);
            let nv = views(names@);
            if exists|m: int| 0 <= m < n && names@[m]@ == q {
                let m = choose|m: int| 0 <= m < n && names@[m]@ == q;
                assert(nv[m] == q);
            } else if nv.contains(q) {
                let w = choose|w: int| 0 <= w < nv.len() && nv[w] == q;
                assert(names@[w]@ == q);
            }
        }
    }
    Ok(RunFacets { run_id: owned(run_id), facets })
}

} // verus!
