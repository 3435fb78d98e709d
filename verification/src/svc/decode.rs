//! Stored OpenLineage documents read into the rows the read model folds:
//! the event row, a run's facets, and an event's column lineage.

use vstd::prelude::*;

use crate::strmap::{lookup, StringMap};
use crate::svc::columns::{ColumnLineageRow, FieldLineage, InputFieldRef, OutputLineage};
use crate::svc::facets::RunFacetRow;
use crate::svc::fold::{EventRow, JobTag, OutputSchema};
use crate::svc::ingest::{convert_event, convert_outcome, EventKind};
use crate::svc::json::{
    field_of, json_field, opt_array, opt_array_of, opt_field, opt_field_of, opt_object, opt_object_of, opt_str,
    opt_str_of, pair_views, string_views,
};
use crate::svc::model::EntityId;
use crate::svc::time::{chrono_micros_of_rfc3339, rfc3339_micros};
use crate::text::{contains_seq, contains_str, opt_view, owned};

verus! {

/// The stored kind of an event.
pub open spec fn kind_word(k: EventKind) -> Seq<char> {
    match k {
        EventKind::Run => "run"@,
        EventKind::Dataset => "dataset"@,
        EventKind::Job => "job"@,
    }
}

fn kind_string(k: EventKind) -> (r: String)
    ensures
        r@ == kind_word(k),
{
    match k {
        EventKind::Run => owned("run"),
        EventKind::Dataset => owned("dataset"),
        EventKind::Job => owned("job"),
    }
}

/// A document's `eventTime`, in epoch microseconds.
pub open spec fn event_micros_spec(t: Seq<char>) -> Option<i64> {
    match opt_str(json_field(t, "eventTime"@)) {
        Some(s) => chrono_micros_of_rfc3339(s),
        None => None,
    }
}

/// A document's `eventTime` in epoch microseconds, when it is an RFC 3339
/// string.
pub fn event_micros(text: &str) -> (r: Option<i64>)
    ensures
        r == event_micros_spec(text@),
{
    match opt_str_of(&field_of(text, "eventTime")) {
        Some(s) => rfc3339_micros(s.as_str()),
        None => None,
    }
}

/// The string member `key` of a document.
pub open spec fn str_field(t: Seq<char>, key: Seq<char>) -> Option<Seq<char>> {
    opt_str(json_field(t, key))
}

fn str_field_of(text: &str, key: &str) -> (r: Option<String>)
    ensures
        opt_view(r) == str_field(text@, key@),
{
    opt_str_of(&field_of(text, key))
}

/// A dataset reference: an object with string `namespace` and `name`.
pub open spec fn ref_of(t: Seq<char>) -> Option<(Seq<char>, Seq<char>)> {
    match (str_field(t, "namespace"@), str_field(t, "name"@)) {
        (Some(a), Some(b)) => Some((a, b)),
        _ => None,
    }
}

/// The references of an `inputs` / `outputs` array: all of them, or none
/// when any element is no reference.
pub open spec fn refs_of(t: Option<Seq<char>>) -> Seq<(Seq<char>, Seq<char>)> {
    match opt_array(t) {
        Some(xs) => if forall|i: int| 0 <= i < xs.len() ==> #[trigger] ref_of(xs[i]) is Some {
            xs.map_values(|x: Seq<char>| ref_of(x)->0)
        } else {
            Seq::empty()
        },
        None => Seq::empty(),
    }
}

pub open spec fn entity_view(e: EntityId) -> (Seq<char>, Seq<char>) {
    (e.namespace@, e.name@)
}

fn dataset_refs(t: &Option<String>) -> (r: Vec<EntityId>)
    ensures
        r@.map_values(|e: EntityId| entity_view(e)) == refs_of(opt_view(*t)),
{
    let xs = match opt_array_of(t) {
        Some(xs) => xs,
        None => return Vec::new(),
    };
    let ghost xv = string_views(xs@);
    let mut out: Vec<EntityId> = Vec::new();
    let mut i: usize = 0;
    while i < xs.len()
        invariant
            i <= xs.len(),
            xv == string_views(xs@),
            opt_array(opt_view(*t)) == Some(xv),
            forall|j: int| 0 <= j < i ==> #[trigger] ref_of(xv[j]) is Some,
            out@.len() == i,
            out@.map_values(|e: EntityId| entity_view(e)) == xv.take(i as int).map_values(
                |x: Seq<char>| ref_of(x)->0,
            ),
        decreases xs.len() - i,
    {
        assert(xv[i as int] == xs@[i as int]@);
        let ns = str_field_of(xs[i].as_str(), "namespace");
        let name = str_field_of(xs[i].as_str(), "name");
        match (ns, name) {
            (Some(a), Some(b)) => {
                let ghost prev = out@;
                out.push(EntityId { namespace: a, name: b });
                proof {
                    assert forall|j: int| #![trigger out@[j]] 0 <= j < i + 1 implies out@.map_values(|e: EntityId| entity_view(e))[j]
                        == xv.take(i + 1).map_values(|x: Seq<char>| ref_of(x)->0)[j] by {
                        if j < i {
                            assert(out@[j] == prev[j]);
                            assert(prev.map_values(|e: EntityId| entity_view(e))[j] == xv.take(i as int).map_values(
                                |x: Seq<char>| ref_of(x)->0,
                            )[j]);
                        }
                    }
                    assert(out@.map_values(|e: EntityId| entity_view(e)) =~= xv.take(i + 1).map_values(
                        |x: Seq<char>| ref_of(x)->0,
                    ));
                }
            },
            _ => {
                assert(ref_of(xv[i as int]) is None);
                return Vec::new();
            },
        }
        i = i + 1;
    }
    assert(xv.take(i as int) =~= xv);
    out
}

/// A `tags` facet entry with a string `key`: the key and its string value.
pub open spec fn tag_of(t: Seq<char>) -> Option<(Seq<char>, Option<Seq<char>>)> {
    match str_field(t, "key"@) {
        Some(k) => Some((k, str_field(t, "value"@))),
        None => None,
    }
}

/// The entries of a `tags` array that have a key, in order.
pub open spec fn tags_of(xs: Seq<Seq<char>>) -> Seq<(Seq<char>, Option<Seq<char>>)>
    decreases xs.len(),
{
    if xs.len() == 0 {
        Seq::empty()
    } else {
        match tag_of(xs.last()) {
            Some(x) => tags_of(xs.drop_last()).push(x),
            None => tags_of(xs.drop_last()),
        }
    }
}

/// Whether an event's text may carry job metadata at all: it names a
/// `documentation` or a `tags` member.
pub open spec fn may_have_job_meta(t: Seq<char>) -> bool {
    contains_seq(t, "\"documentation\""@) || contains_seq(t, "\"tags\""@)
}

/// The job facets of an event.
pub open spec fn job_facets_json(t: Seq<char>) -> Option<Seq<char>> {
    opt_field(json_field(t, "job"@), "facets"@)
}

/// The job description from the `documentation` job facet.
pub open spec fn description_of(t: Seq<char>) -> Option<Seq<char>> {
    if may_have_job_meta(t) {
        opt_str(opt_field(opt_field(job_facets_json(t), "documentation"@), "description"@))
    } else {
        None
    }
}

/// The job tags from the `tags` job facet.
pub open spec fn job_tags_of(t: Seq<char>) -> Seq<(Seq<char>, Option<Seq<char>>)> {
    if may_have_job_meta(t) {
        match opt_array(opt_field(opt_field(job_facets_json(t), "tags"@), "tags"@)) {
            Some(xs) => tags_of(xs),
            None => Seq::empty(),
        }
    } else {
        Seq::empty()
    }
}

pub open spec fn tag_view(j: JobTag) -> (Seq<char>, Option<Seq<char>>) {
    (j.key@, opt_view(j.value))
}

fn job_tags(text: &str) -> (r: Vec<JobTag>)
    ensures
        r@.map_values(|j: JobTag| tag_view(j)) == job_tags_of(text@),
{
    if !(contains_str(text, "\"documentation\"") || contains_str(text, "\"tags\"")) {
        return Vec::new();
    }
    let facets = opt_field_of(&field_of(text, "job"), "facets");
    let xs = match opt_array_of(&opt_field_of(&opt_field_of(&facets, "tags"), "tags")) {
        Some(xs) => xs,
        None => return Vec::new(),
    };
    let ghost xv = string_views(xs@);
    let mut out: Vec<JobTag> = Vec::new();
    let mut i: usize = 0;
    while i < xs.len()
        invariant
            i <= xs.len(),
            xv == string_views(xs@),
            out@.map_values(|j: JobTag| tag_view(j)) == tags_of(xv.take(i as int)),
        decreases xs.len() - i,
    {
        assert(xv[i as int] == xs@[i as int]@);
        assert(xv.take(i + 1).drop_last() =~= xv.take(i as int));
        assert(xv.take(i + 1).last() == xv[i as int]);
        match str_field_of(xs[i].as_str(), "key") {
            Some(k) => {
                out.push(JobTag { key: k, value: str_field_of(xs[i].as_str(), "value") });
                assert(out@.map_values(|j: JobTag| tag_view(j)) =~= tags_of(xv.take(i + 1)));
            },
            None => {},
        }
        i = i + 1;
    }
    assert(xv.take(i as int) =~= xv);
    out
}

fn description(text: &str) -> (r: Option<String>)
    ensures
        opt_view(r) == description_of(text@),
{
    if !(contains_str(text, "\"documentation\"") || contains_str(text, "\"tags\"")) {
        return None;
    }
    let facets = opt_field_of(&field_of(text, "job"), "facets");
    opt_str_of(&opt_field_of(&opt_field_of(&facets, "documentation"), "description"))
}

/// An output dataset with string `namespace` and `name` and a schema facet
/// with a `fields` array: its identity and the JSON text of each field.
pub open spec fn schema_entry(ds: Seq<char>) -> Option<((Seq<char>, Seq<char>), Seq<Seq<char>>)> {
    match (str_field(ds, "namespace"@), str_field(ds, "name"@)) {
        (Some(a), Some(b)) => match opt_array(
            opt_field(opt_field(json_field(ds, "facets"@), "schema"@), "fields"@),
        ) {
            Some(fs) => Some(((a, b), fs)),
            None => None,
        },
        _ => None,
    }
}

pub open spec fn schemas_in(xs: Seq<Seq<char>>) -> Seq<((Seq<char>, Seq<char>), Seq<Seq<char>>)>
    decreases xs.len(),
{
    if xs.len() == 0 {
        Seq::empty()
    } else {
        match schema_entry(xs.last()) {
            Some(x) => schemas_in(xs.drop_last()).push(x),
            None => schemas_in(xs.drop_last()),
        }
    }
}

/// The schema fields of an event's outputs; none when the text names no
/// `schema` member.
pub open spec fn output_schemas_of(t: Seq<char>) -> Seq<((Seq<char>, Seq<char>), Seq<Seq<char>>)> {
    if contains_seq(t, "\"schema\""@) {
        match opt_array(json_field(t, "outputs"@)) {
            Some(xs) => schemas_in(xs),
            None => Seq::empty(),
        }
    } else {
        Seq::empty()
    }
}

pub open spec fn schema_view(o: OutputSchema) -> ((Seq<char>, Seq<char>), Seq<Seq<char>>) {
    (entity_view(o.id), string_views(o.fields@))
}

fn output_schemas(text: &str) -> (r: Vec<OutputSchema>)
    ensures
        r@.map_values(|o: OutputSchema| schema_view(o)) == output_schemas_of(text@),
{
    if !contains_str(text, "\"schema\"") {
        return Vec::new();
    }
    let xs = match opt_array_of(&field_of(text, "outputs")) {
        Some(xs) => xs,
        None => return Vec::new(),
    };
    let ghost xv = string_views(xs@);
    let mut out: Vec<OutputSchema> = Vec::new();
    let mut i: usize = 0;
    while i < xs.len()
        invariant
            i <= xs.len(),
            xv == string_views(xs@),
            out@.map_values(|o: OutputSchema| schema_view(o)) == schemas_in(xv.take(i as int)),
        decreases xs.len() - i,
    {
        assert(xv[i as int] == xs@[i as int]@);
        assert(xv.take(i + 1).drop_last() =~= xv.take(i as int));
        assert(xv.take(i + 1).last() == xv[i as int]);
        let ds = xs[i].as_str();
        match (str_field_of(ds, "namespace"), str_field_of(ds, "name")) {
            (Some(a), Some(b)) => {
                let facets = field_of(ds, "facets");
                match opt_array_of(&opt_field_of(&opt_field_of(&facets, "schema"), "fields")) {
                    Some(fs) => {
                        out.push(OutputSchema { id: EntityId { namespace: a, name: b }, fields: fs });
                        assert(out@.map_values(|o: OutputSchema| schema_view(o)) =~= schemas_in(
                            xv.take(i + 1),
                        ));
                    },
                    None => {},
                }
            },
            _ => {},
        }
        i = i + 1;
    }
    assert(xv.take(i as int) =~= xv);
    out
}

/// `row` is what the read model folds of the stored event `t` of kind `k`.
pub open spec fn event_row_is(row: EventRow, k: EventKind, t: Seq<char>) -> bool {
    &&& row.kind@ == kind_word(k)
    &&& opt_view(row.event_type) == str_field(t, "eventType"@)
    &&& row.event_time == event_micros_spec(t)
    &&& opt_view(row.run_id) == opt_str(opt_field(json_field(t, "run"@), "runId"@))
    &&& opt_view(row.job_namespace) == opt_str(opt_field(json_field(t, "job"@), "namespace"@))
    &&& opt_view(row.job_name) == opt_str(opt_field(json_field(t, "job"@), "name"@))
    &&& opt_view(row.dataset_namespace) == opt_str(opt_field(json_field(t, "dataset"@), "namespace"@))
    &&& opt_view(row.dataset_name) == opt_str(opt_field(json_field(t, "dataset"@), "name"@))
    &&& row.inputs@.map_values(|e: EntityId| entity_view(e)) == refs_of(json_field(t, "inputs"@))
    &&& row.outputs@.map_values(|e: EntityId| entity_view(e)) == refs_of(json_field(t, "outputs"@))
    &&& opt_view(row.description) == description_of(t)
    &&& row.tags@.map_values(|j: JobTag| tag_view(j)) == job_tags_of(t)
    &&& row.output_schemas@.map_values(|o: OutputSchema| schema_view(o)) == output_schemas_of(t)
}

/// One stored event as the read model folds it; `None` when the text does
/// not convert (see [`convert_outcome`]).
pub fn event_row_of(text: &str) -> (r: Option<EventRow>)
    ensures
        match convert_outcome(text@) {
            Ok(k) => r matches Some(row) && event_row_is(row, k, text@),
            Err(_) => r is None,
        },
{
    let kind = match convert_event(text) {
        Ok((k, _)) => k,
        Err(_) => return None,
    };
    let run = field_of(text, "run");
    let job = field_of(text, "job");
    let dataset = field_of(text, "dataset");
    Some(
        EventRow {
            kind: kind_string(kind),
            event_type: str_field_of(text, "eventType"),
            event_time: event_micros(text),
            run_id: opt_str_of(&opt_field_of(&run, "runId")),
            job_namespace: opt_str_of(&opt_field_of(&job, "namespace")),
            job_name: opt_str_of(&opt_field_of(&job, "name")),
            dataset_namespace: opt_str_of(&opt_field_of(&dataset, "namespace")),
            dataset_name: opt_str_of(&opt_field_of(&dataset, "name")),
            inputs: dataset_refs(&field_of(text, "inputs")),
            outputs: dataset_refs(&field_of(text, "outputs")),
            description: description(text),
            tags: job_tags(text),
            output_schemas: output_schemas(text),
        },
    )
}

/// The run facets of an event, each by name with its JSON text (the first
/// member of a name counting).
pub open spec fn run_facets_json(t: Seq<char>) -> Option<Seq<(Seq<char>, Seq<char>)>> {
    opt_object(opt_field(json_field(t, "run"@), "facets"@))
}

/// One stored event as the run-facets view reads it.
pub fn run_facet_row_of(text: &str) -> (r: RunFacetRow)
    ensures
        opt_view(r.run_id) == opt_str(opt_field(json_field(text@, "run"@), "runId"@)),
        r.event_time == event_micros_spec(text@),
        match run_facets_json(text@) {
            Some(es) => r.facets matches Some(m) && forall|k: Seq<char>| #[trigger] m.spec_get(k) == lookup(es, k),
            None => r.facets is None,
        },
{
    let run = field_of(text, "run");
    let facets = match opt_object_of(&opt_field_of(&run, "facets")) {
        Some(es) => {
            let ghost ev = pair_views(es@);
            let mut m = StringMap::new();
            let mut i: usize = 0;
            while i < es.len()
                invariant
                    i <= es.len(),
                    ev == pair_views(es@),
                    forall|k: Seq<char>| #[trigger] m.spec_get(k) == lookup(ev.take(i as int), k),
                decreases es.len() - i,
            {
                assert(ev[i as int] == (es@[i as int].0@, es@[i as int].1@));
                let (k, v) = (es[i].0.clone(), es[i].1.clone());
                proof {
                    assert forall|q: Seq<char>| lookup(ev.take(i + 1), q) == if lookup(ev.take(i as int), q) is Some {
                        lookup(ev.take(i as int), q)
                    } else if q == ev[i as int].0 {
                        Some(ev[i as int].1)
                    } else {
                        None
                    } by {
                        lemma_lookup_extend(ev, i as int, q);
                    }
                }
                if m.get(k.as_str()).is_none() {
                    m.insert(k, v);
                }
                i = i + 1;
            }
            assert(ev.take(i as int) =~= ev);
            Some(m)
        },
        None => None,
    };
    RunFacetRow { run_id: opt_str_of(&opt_field_of(&run, "runId")), event_time: event_micros(text), facets }
}

/// Looking up in one more entry: an earlier entry wins.
proof fn lemma_lookup_extend(e: Seq<(Seq<char>, Seq<char>)>, i: int, q: Seq<char>)
    requires
        0 <= i < e.len(),
    ensures
        lookup(e.take(i + 1), q) == if lookup(e.take(i), q) is Some {
            lookup(e.take(i), q)
        } else if q == e[i].0 {
            Some(e[i].1)
        } else {
            None
        },
    decreases i,
{
    if i > 0 {
        let t = e.drop_first();
        lemma_lookup_extend(t, i - 1, q);
        assert(e.take(i + 1).drop_first() =~= t.take(i));
        assert(e.take(i).drop_first() =~= t.take(i - 1));
        assert(e.take(i + 1)[0] == e[0]);
        assert(e.take(i)[0] == e[0]);
        assert(t[i - 1] == e[i]);
    } else {
        assert(e.take(1).drop_first() =~= Seq::<(Seq<char>, Seq<char>)>::empty());
        assert(e.take(0) =~= Seq::<(Seq<char>, Seq<char>)>::empty());
    }
}

/// An `inputFields` entry: its namespace, name and field when strings.
pub open spec fn input_ref_of(t: Seq<char>) -> (Option<Seq<char>>, Option<Seq<char>>, Option<Seq<char>>) {
    (str_field(t, "namespace"@), str_field(t, "name"@), str_field(t, "field"@))
}

pub open spec fn input_ref_view(r: InputFieldRef) -> (Option<Seq<char>>, Option<Seq<char>>, Option<Seq<char>>) {
    (opt_view(r.namespace), opt_view(r.name), opt_view(r.field))
}

/// The entries of an optional array, each as an input field reference.
pub open spec fn input_refs_of(t: Option<Seq<char>>) -> Seq<(Option<Seq<char>>, Option<Seq<char>>, Option<Seq<char>>)> {
    match opt_array(t) {
        Some(xs) => xs.map_values(|x: Seq<char>| input_ref_of(x)),
        None => Seq::empty(),
    }
}

fn input_refs(t: &Option<String>) -> (r: Vec<InputFieldRef>)
    ensures
        r@.map_values(|x: InputFieldRef| input_ref_view(x)) == input_refs_of(opt_view(*t)),
{
    let xs = match opt_array_of(t) {
        Some(xs) => xs,
        None => return Vec::new(),
    };
    let ghost xv = string_views(xs@);
    let mut out: Vec<InputFieldRef> = Vec::new();
    let mut i: usize = 0;
    while i < xs.len()
        invariant
            i <= xs.len(),
            xv == string_views(xs@),
            out@.len() == i,
            out@.map_values(|x: InputFieldRef| input_ref_view(x)) == xv.take(i as int).map_values(
                |x: Seq<char>| input_ref_of(x),
            ),
        decreases xs.len() - i,
    {
        assert(xv[i as int] == xs@[i as int]@);
        let x = xs[i].as_str();
        let ghost prev = out@;
        out.push(
            InputFieldRef {
                namespace: str_field_of(x, "namespace"),
                name: str_field_of(x, "name"),
                field: str_field_of(x, "field"),
            },
        );
        proof {
            assert forall|j: int| #![trigger out@[j]] 0 <= j < i + 1 implies out@.map_values(|x: InputFieldRef| input_ref_view(x))[j]
                == xv.take(i + 1).map_values(|x: Seq<char>| input_ref_of(x))[j] by {
                if j < i {
                    assert(out@[j] == prev[j]);
                    assert(prev.map_values(|x: InputFieldRef| input_ref_view(x))[j] == xv.take(i as int).map_values(
                        |x: Seq<char>| input_ref_of(x),
                    )[j]);
                }
            }
            assert(out@.map_values(|x: InputFieldRef| input_ref_view(x)) =~= xv.take(i + 1).map_values(
                |x: Seq<char>| input_ref_of(x),
            ));
        }
        i = i + 1;
    }
    assert(xv.take(i as int) =~= xv);
    out
}

/// One field's lineage: its name, its `inputFields` entries, and the JSON
/// text of `inputFields` (`null` when absent).
pub open spec fn field_lineage_of(k: Seq<char>, v: Seq<char>) -> (
    Seq<char>,
    Seq<(Option<Seq<char>>, Option<Seq<char>>, Option<Seq<char>>)>,
    Seq<char>,
) {
    (
        k,
        input_refs_of(json_field(v, "inputFields"@)),
        match json_field(v, "inputFields"@) {
            Some(x) => x,
            None => "null"@,
        },
    )
}

pub open spec fn field_view(f: FieldLineage) -> (
    Seq<char>,
    Seq<(Option<Seq<char>>, Option<Seq<char>>, Option<Seq<char>>)>,
    Seq<char>,
) {
    (f.field@, f.input_fields@.map_values(|x: InputFieldRef| input_ref_view(x)), f.input_fields_json@)
}

fn field_lineage(k: String, v: &str) -> (r: FieldLineage)
    ensures
        field_view(r) == field_lineage_of(k@, v@),
{
    let inputs = field_of(v, "inputFields");
    let refs = input_refs(&inputs);
    let json = match inputs {
        Some(x) => x,
        None => owned("null"),
    };
    FieldLineage { field: k, input_fields: refs, input_fields_json: json }
}

/// The fields of a `columnLineage` facet's `fields` object, in member order.
pub open spec fn facet_fields_of(es: Seq<(Seq<char>, Seq<char>)>) -> Seq<
    (Seq<char>, Seq<(Option<Seq<char>>, Option<Seq<char>>, Option<Seq<char>>)>, Seq<char>),
> {
    es.map_values(|p: (Seq<char>, Seq<char>)| field_lineage_of(p.0, p.1))
}

fn facet_fields(es: &Vec<(String, String)>) -> (r: Vec<FieldLineage>)
    ensures
        r@.map_values(|f: FieldLineage| field_view(f)) == facet_fields_of(pair_views(es@)),
{
    let ghost ev = pair_views(es@);
    let mut out: Vec<FieldLineage> = Vec::new();
    let mut i: usize = 0;
    while i < es.len()
        invariant
            i <= es.len(),
            ev == pair_views(es@),
            out@.len() == i,
            out@.map_values(|f: FieldLineage| field_view(f)) == facet_fields_of(ev.take(i as int)),
        decreases es.len() - i,
    {
        assert(ev[i as int] == (es@[i as int].0@, es@[i as int].1@));
        let ghost prev = out@;
        out.push(field_lineage(es[i].0.clone(), es[i].1.as_str()));
        proof {
            assert forall|j: int| #![trigger out@[j]] 0 <= j < i + 1 implies out@.map_values(|f: FieldLineage| field_view(f))[j]
                == facet_fields_of(ev.take(i + 1))[j] by {
                if j < i {
                    assert(out@[j] == prev[j]);
                    assert(prev.map_values(|f: FieldLineage| field_view(f))[j] == facet_fields_of(ev.take(i as int))[j]);
                }
            }
            assert(out@.map_values(|f: FieldLineage| field_view(f)) =~= facet_fields_of(ev.take(i + 1)));
        }
        i = i + 1;
    }
    assert(ev.take(i as int) =~= ev);
    out
}

pub type OutputView = (
    Option<Seq<char>>,
    Option<Seq<char>>,
    Option<Seq<(Seq<char>, Seq<(Option<Seq<char>>, Option<Seq<char>>, Option<Seq<char>>)>, Seq<char>)>>,
);

/// An output with a `columnLineage` facet that lifts (it has a field or a
/// dataset-level dependency): its namespace, name and fields.
pub open spec fn output_lineage_of(out: Seq<char>) -> Option<OutputView> {
    match opt_field(json_field(out, "facets"@), "columnLineage"@) {
        None => None,
        Some(f) => {
            let obj = opt_object(json_field(f, "fields"@));
            let n_fields = match obj {
                Some(es) => es.len(),
                None => 0,
            };
            let n_deps = input_refs_of(json_field(f, "dataset"@)).len();
            if n_fields > 0 || n_deps > 0 {
                Some(
                    (
                        str_field(out, "namespace"@),
                        str_field(out, "name"@),
                        match obj {
                            Some(es) => Some(facet_fields_of(es)),
                            None => None,
                        },
                    ),
                )
            } else {
                None
            }
        },
    }
}

pub open spec fn output_view(o: OutputLineage) -> OutputView {
    (
        opt_view(o.namespace),
        opt_view(o.name),
        match o.fields {
            Some(fs) => Some(fs@.map_values(|f: FieldLineage| field_view(f))),
            None => None,
        },
    )
}

fn output_lineage(out: &str) -> (r: Option<OutputLineage>)
    ensures
        match r {
            Some(o) => output_lineage_of(out@) == Some(output_view(o)),
            None => output_lineage_of(out@) is None,
        },
{
    let facet = match opt_field_of(&field_of(out, "facets"), "columnLineage") {
        Some(f) => f,
        None => return None,
    };
    let fields_json = field_of(facet.as_str(), "fields");
    let fields = match opt_object_of(&fields_json) {
        Some(es) => Some(facet_fields(&es)),
        None => None,
    };
    let deps = input_refs(&field_of(facet.as_str(), "dataset"));
    let n_fields = match &fields {
        Some(fs) => fs.len(),
        None => 0,
    };
    assert(deps@.map_values(|x: InputFieldRef| input_ref_view(x)).len() == deps@.len());
    if let Some(fs) = &fields {
        assert(fs@.map_values(|f: FieldLineage| field_view(f)).len() == fs@.len());
    }
    if n_fields == 0 && deps.len() == 0 {
        return None;
    }
    Some(OutputLineage { namespace: str_field_of(out, "namespace"), name: str_field_of(out, "name"), fields })
}

/// The outputs among `xs` whose column lineage lifts, in order.
pub open spec fn outputs_lineage_in(xs: Seq<Seq<char>>) -> Seq<OutputView>
    decreases xs.len(),
{
    if xs.len() == 0 {
        Seq::empty()
    } else {
        match output_lineage_of(xs.last()) {
            Some(o) => outputs_lineage_in(xs.drop_last()).push(o),
            None => outputs_lineage_in(xs.drop_last()),
        }
    }
}

/// One stored event's column lineage: its outputs whose `columnLineage`
/// facet lifts, with its event time; `None` when `outputs` is no array or no
/// output has such a facet.
pub fn column_lineage_row_of(text: &str) -> (r: Option<ColumnLineageRow>)
    ensures
        match opt_array(json_field(text@, "outputs"@)) {
            Some(xs) => if outputs_lineage_in(xs).len() > 0 {
                r matches Some(row) && row.event_time == event_micros_spec(text@) && (row.outputs matches Some(
                    os,
                ) && os@.map_values(|o: OutputLineage| output_view(o)) == outputs_lineage_in(xs))
            } else {
                r is None
            },
            None => r is None,
        },
{
    let xs = match opt_array_of(&field_of(text, "outputs")) {
        Some(xs) => xs,
        None => return None,
    };
    let ghost xv = string_views(xs@);
    let mut out: Vec<OutputLineage> = Vec::new();
    let mut i: usize = 0;
    while i < xs.len()
        invariant
            i <= xs.len(),
            xv == string_views(xs@),
            out@.map_values(|o: OutputLineage| output_view(o)) == outputs_lineage_in(xv.take(i as int)),
        decreases xs.len() - i,
    {
        assert(xv[i as int] == xs@[i as int]@);
        assert(xv.take(i + 1).drop_last() =~= xv.take(i as int));
        assert(xv.take(i + 1).last() == xv[i as int]);
        match output_lineage(xs[i].as_str()) {
            Some(o) => {
                out.push(o);
                assert(out@.map_values(|o: OutputLineage| output_view(o)) =~= outputs_lineage_in(xv.take(i + 1)));
            },
            None => {},
        }
        i = i + 1;
    }
    assert(xv.take(i as int) =~= xv);
    if out.len() == 0 {
        return None;
    }
    Some(ColumnLineageRow { event_time: event_micros(text), outputs: Some(out) })
}

} // verus!
