//! Query-surface rules: the row cap and the table references reported back.

use vstd::prelude::*;

use crate::sort::{set_insert, strictly_sorted, views};

verus! {

/// The row cap of a query: the requested limit, or the default, never above
/// the maximum.
pub fn effective_limit(limit: Option<u32>, default_limit: u32, max_limit: u32) -> (r: usize)
    ensures
        r == ({
            let l = match limit {
                Some(v) => v,
                None => default_limit,
            };
            if l <= max_limit {
                l
            } else {
                max_limit
            }
        }),
{
    let l = match limit {
        Some(v) => v,
        None => default_limit,
    };
    let capped = if l <= max_limit {
        l
    } else {
        max_limit
    };
    capped as usize
}

/// The table references of a plan, deduplicated and sorted.
pub fn referenced_tables(names: &Vec<String>) -> (r: Vec<String>)
    ensures
        strictly_sorted(views(r@)),
        views(r@).to_set() == views(names@).to_set(),
{
    let mut out: Vec<String> = Vec::new();
    let mut i: usize = 0;
    while i < names.len()
        invariant
            i <= names.len(),
            strictly_sorted(views(out@)),
            views(out@).to_set() == views(names@).take(i as int).to_set(),
        decreases names.len() - i,
    {
        set_insert(&mut out, names[i].clone());
        proof {
            let nv = views(names@);
            assert(nv.take(i + 1) =~= nv.take(i as int).push(nv[i as int]));
            nv.take(i as int).lemma_push_to_set_commute(nv[i as int]);
        }
        i = i + 1;
    }
    assert(views(names@).take(i as int) =~= views(names@));
    out
}

/// The lineage context of an HTTP query: a fresh run of the job named after
/// the statement's normalized text (see [`crate::lineage::job_name_from_sql`]),
/// with the statement itself.
pub fn query_lineage_context(sql: &str) -> (r: crate::lineage::LineageContext)
    ensures
        r.run_id matches Some(id) && crate::text::is_uuid_text(id@, '7'),
        r.job_name matches Some(n) && n@ == crate::lineage::sql_job_name(sql@),
        r.sql matches Some(s) && s@ == sql@,
        r.job_namespace is None,
        r.parent_run is None,
        r.job_facets.producer@.len() == 0,
        r.job_facets.description is None,
        r.job_facets.tags@.len() == 0,
        r.job_facets.owners@.len() == 0,
{
    crate::lineage::LineageContext {
        run_id: Some(crate::lineage::new_run_id()),
        job_name: Some(crate::lineage::job_name_from_sql(sql)),
        job_namespace: None,
        parent_run: None,
        job_facets: crate::lineage::JobFacets {
            producer: String::new(),
            description: None,
            tags: Vec::new(),
            owners: Vec::new(),
        },
        sql: Some(crate::text::owned(sql)),
    }
}

/// A query request needs SQL that is not blank.
pub fn query_sql_check(sql: &str) -> (r: Result<(), String>)
    ensures
        crate::text::trim_seq(sql@).len() == 0 <==> r is Err,
        r matches Err(m) ==> m@ == "sql is required"@,
{
    let t = crate::text::trim(sql);
    if t.as_str().is_empty() {
        Err(crate::text::owned("sql is required"))
    } else {
        Ok(())
    }
}

} // verus!
