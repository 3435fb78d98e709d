//! Column lineage: the field-level graph of one dataset, read from the newest
//! stored event whose column-lineage facet describes it.

use vstd::prelude::*;

use crate::sort::{set_insert, strictly_sorted, views};
use crate::strmap::str_eq;
use crate::svc::model::{
    is_uri_namespace, LineageEdge, lemma_split_plain, lemma_split_uri, parse_node_id, parse_node_id_spec,
    split_namespace_name, split_namespace_name_exec, uri_text, NodeKind,
};
use crate::text::{chars_of, find_char, find_char_from, lemma_find_char_bounds, lemma_find_char_at, push_char, range_is, string_of_range};

verus! {

pub open spec fn dataset_field_word() -> Seq<char> {
    seq!['d', 'a', 't', 'a', 's', 'e', 't', 'F', 'i', 'e', 'l', 'd']
}

/// `datasetField:<namespace>:<dataset>:<field>`
pub open spec fn field_node_id_text(namespace: Seq<char>, dataset: Seq<char>, field: Seq<char>) -> Seq<char> {
    dataset_field_word() + seq![':'] + namespace + seq![':'] + dataset + seq![':'] + field
}

/// The `nodeId` of one field of a dataset.
pub fn dataset_field_node_id(namespace: &str, dataset: &str, field: &str) -> (r: String)
    ensures
        r@ == field_node_id_text(namespace@, dataset@, field@),
{
    let word = ['d', 'a', 't', 'a', 's', 'e', 't', 'F', 'i', 'e', 'l', 'd'];
    let mut out = String::new();
    let mut i: usize = 0;
    while i < word.len()
        invariant
            i <= word.len(),
            out@ == word@.take(i as int),
        decreases word.len() - i,
    {
        push_char(&mut out, word[i]);
        i = i + 1;
        assert(out@ =~= word@.take(i as int));
    }
    assert(word@.take(word.len() as int) =~= dataset_field_word());
    push_char(&mut out, ':');
    out.append(namespace);
    push_char(&mut out, ':');
    out.append(dataset);
    push_char(&mut out, ':');
    out.append(field);
    assert(out@ =~= field_node_id_text(namespace@, dataset@, field@));
    out
}

/// The position of the last `c` in `s`.
pub open spec fn rfind_char(s: Seq<char>, c: char) -> Option<int>
    decreases s.len(),
{
    if s.len() == 0 {
        None
    } else if s.last() == c {
        Some(s.len() - 1)
    } else {
        rfind_char(s.drop_last(), c)
    }
}

proof fn lemma_rfind_char(s: Seq<char>, c: char)
    ensures
        rfind_char(s, c) matches Some(j) ==> 0 <= j < s.len() && s[j] == c && forall|k: int|
            j < k < s.len() ==> s[k] != c,
        rfind_char(s, c) is None ==> forall|k: int| 0 <= k < s.len() ==> s[k] != c,
    decreases s.len(),
{
    if s.len() > 0 && s.last() != c {
        lemma_rfind_char(s.drop_last(), c);
        assert forall|k: int| 0 <= k < s.len() - 1 implies s[k] == s.drop_last()[k] by {}
    }
}

proof fn lemma_rfind_char_at(s: Seq<char>, c: char, j: int)
    requires
        0 <= j < s.len(),
        s[j] == c,
        forall|k: int| j < k < s.len() ==> s[k] != c,
    ensures
        rfind_char(s, c) == Some(j),
    decreases s.len(),
{
    if j < s.len() - 1 {
        assert(s.last() == s[s.len() - 1]);
        lemma_rfind_char_at(s.drop_last(), c, j);
    }
}

fn rfind_char_exec(v: &Vec<char>, c: char) -> (r: Option<usize>)
    ensures
        r matches Some(j) ==> rfind_char(v@, c) == Some(j as int),
        r is None ==> rfind_char(v@, c) is None,
{
    let mut i: usize = v.len();
    while i > 0
        invariant
            i <= v.len(),
            forall|k: int| i <= k < v.len() ==> v@[k] != c,
        decreases i,
    {
        if v[i - 1] == c {
            proof {
                lemma_rfind_char_at(v@, c, i - 1);
            }
            return Some(i - 1);
        }
        i = i - 1;
    }
    proof {
        lemma_rfind_char(v@, c);
        if let Some(j) = rfind_char(v@, c) {
            assert(v@[j] == c);
        }
    }
    None
}

/// What a column-lineage `nodeId` addresses: `dataset:<ns>:<name>` names a
/// whole dataset; `datasetField:<ns>:<dataset>:<field>` one field of it, the
/// field being what follows the last `:`. The namespace/dataset boundary is
/// found as in [`parse_node_id_spec`].
pub open spec fn parse_column_node_id_spec(s: Seq<char>) -> Option<(Seq<char>, Seq<char>, Option<Seq<char>>)> {
    match find_char(s, ':', 0) {
        Some(i) if s.subrange(0, i) == dataset_field_word() => {
            let rest = s.subrange(i + 1, s.len() as int);
            match rfind_char(rest, ':') {
                Some(j) => match split_namespace_name(rest.subrange(0, j)) {
                    Some((ns, ds)) => Some((ns, ds, Some(rest.subrange(j + 1, rest.len() as int)))),
                    None => None,
                },
                None => None,
            }
        },
        _ => match parse_node_id_spec(s) {
            Some((NodeKind::Dataset, ns, name)) => Some((ns, name, None)),
            _ => None,
        },
    }
}

/// Parse a column-lineage `nodeId` into namespace, dataset and the addressed
/// field, if any.
pub fn parse_column_lineage_node_id(node_id: &str) -> (r: Option<(String, String, Option<String>)>)
    ensures
        match r {
            Some((ns, ds, f)) => parse_column_node_id_spec(node_id@) == Some(
                (ns@, ds@, crate::text::opt_view(f)),
            ),
            None => parse_column_node_id_spec(node_id@) is None,
        },
{
    let s = chars_of(node_id);
    let word = ['d', 'a', 't', 'a', 's', 'e', 't', 'F', 'i', 'e', 'l', 'd'];
    assert(word@ =~= dataset_field_word());
    if let Some(i) = find_char_from(&s, ':', 0) {
        proof {
            lemma_find_char_bounds(s@, ':', 0);
        }
        if range_is(&s, 0, i, &word) {
            let rest = string_of_range(&s, i + 1, s.len());
            let rv = chars_of(rest.as_str());
            return match rfind_char_exec(&rv, ':') {
                Some(j) => {
                    proof {
                        lemma_rfind_char(rv@, ':');
                    }
                    let head = string_of_range(&rv, 0, j);
                    let hv = chars_of(head.as_str());
                    match split_namespace_name_exec(&hv) {
                        Some((ns, ds)) => {
                            let field = string_of_range(&rv, j + 1, rv.len());
                            Some((ns, ds, Some(field)))
                        },
                        None => None,
                    }
                },
                None => None,
            };
        }
    }
    match parse_node_id(node_id) {
        Some((NodeKind::Dataset, ns, name)) => Some((ns, name, None)),
        _ => None,
    }
}

/// One entry of a field's `inputFields`; each part is present when the
/// document holds it as a string.
#[derive(Debug)]
pub struct InputFieldRef {
    pub namespace: Option<String>,
    pub name: Option<String>,
    pub field: Option<String>,
}

/// One field of a `columnLineage` facet: its name, its input fields, and its
/// `inputFields` value as JSON text.
#[derive(Debug)]
pub struct FieldLineage {
    pub field: String,
    pub input_fields: Vec<InputFieldRef>,
    pub input_fields_json: String,
}

/// One element of the `outputs` of a stored column-lineage document: its
/// namespace and name when they are strings, and the fields of its
/// `columnLineage` facet, in key order, when `fields` is an object.
#[derive(Debug)]
pub struct OutputLineage {
    pub namespace: Option<String>,
    pub name: Option<String>,
    pub fields: Option<Vec<FieldLineage>>,
}

/// A stored event's column lineage: its event time and its `outputs`, absent
/// when the document does not parse or holds no `outputs` array.
#[derive(Debug)]
pub struct ColumnLineageRow {
    pub event_time: Option<i64>,
    pub outputs: Option<Vec<OutputLineage>>,
}

/// The payload of a field node: an output field carries its `inputFields`; a
/// field seen only as an input carries its coordinates.
#[derive(Debug)]
pub enum FieldNodeData {
    Input { namespace: String, dataset: String, field: String },
    Output { namespace: String, dataset: String, field: String, input_fields_json: String },
}

/// One node of the column-lineage graph.
#[derive(Debug)]
pub struct FieldNode {
    pub id: String,
    /// Always `DATASET_FIELD`.
    pub node_type: String,
    pub data: FieldNodeData,
    pub in_edges: Vec<LineageEdge>,
    pub out_edges: Vec<LineageEdge>,
}

/// The column-lineage envelope.
#[derive(Debug)]
pub struct ColumnLineageGraph {
    pub graph: Vec<FieldNode>,
}

pub open spec fn dataset_field_type() -> Seq<char> {
    seq!['D', 'A', 'T', 'A', 'S', 'E', 'T', '_', 'F', 'I', 'E', 'L', 'D']
}

/// An edge of the field graph, with the coordinates of the input it starts at.
pub struct FieldEdge {
    pub origin: Seq<char>,
    pub destination: Seq<char>,
    pub namespace: Seq<char>,
    pub dataset: Seq<char>,
    pub field: Seq<char>,
}

/// An input entry that names a namespace, a dataset and a field.
pub open spec fn input_complete(i: InputFieldRef) -> bool {
    &&& i.namespace is Some
    &&& i.name is Some
    &&& i.field is Some
}

/// The edges from the complete entries of `inputs` into `destination`, in
/// order.
pub open spec fn inputs_edges(inputs: Seq<InputFieldRef>, destination: Seq<char>) -> Seq<FieldEdge>
    decreases inputs.len(),
{
    if inputs.len() == 0 {
        Seq::empty()
    } else {
        let prev = inputs_edges(inputs.drop_last(), destination);
        let i = inputs.last();
        if input_complete(i) {
            let ns = i.namespace.unwrap()@;
            let ds = i.name.unwrap()@;
            let f = i.field.unwrap()@;
            prev.push(
                FieldEdge {
                    origin: field_node_id_text(ns, ds, f),
                    destination,
                    namespace: ns,
                    dataset: ds,
                    field: f,
                },
            )
        } else {
            prev
        }
    }
}

/// Whether the field filter admits `f`.
pub open spec fn kept(f: FieldLineage, filter: Option<Seq<char>>) -> bool {
    match filter {
        Some(x) => f.field@ == x,
        None => true,
    }
}

/// Every edge of the graph of `fields` of dataset `ds` in namespace `ns`,
/// field by field.
pub open spec fn graph_edges(
    ns: Seq<char>,
    ds: Seq<char>,
    filter: Option<Seq<char>>,
    fields: Seq<FieldLineage>,
) -> Seq<FieldEdge>
    decreases fields.len(),
{
    if fields.len() == 0 {
        Seq::empty()
    } else {
        let prev = graph_edges(ns, ds, filter, fields.drop_last());
        let f = fields.last();
        if kept(f, filter) {
            prev + inputs_edges(f.input_fields@, field_node_id_text(ns, ds, f.field@))
        } else {
            prev
        }
    }
}

/// The output field nodes, by id and the position of their field.
pub open spec fn output_ids(
    ns: Seq<char>,
    ds: Seq<char>,
    filter: Option<Seq<char>>,
    fields: Seq<FieldLineage>,
) -> Seq<(Seq<char>, int)>
    decreases fields.len(),
{
    if fields.len() == 0 {
        Seq::empty()
    } else {
        let prev = output_ids(ns, ds, filter, fields.drop_last());
        let f = fields.last();
        if kept(f, filter) {
            prev.push((field_node_id_text(ns, ds, f.field@), fields.len() - 1))
        } else {
            prev
        }
    }
}

/// The ids of the graph: every output field and every input an edge starts at.
pub open spec fn is_field_node(
    ns: Seq<char>,
    ds: Seq<char>,
    filter: Option<Seq<char>>,
    fields: Seq<FieldLineage>,
    id: Seq<char>,
) -> bool {
    let outs = output_ids(ns, ds, filter, fields);
    let edges = graph_edges(ns, ds, filter, fields);
    ||| exists|k: int| 0 <= k < outs.len() && #[trigger] outs[k].0 == id
    ||| exists|k: int| 0 <= k < edges.len() && #[trigger] edges[k].origin == id
}

/// The edges ending at `id`, in order, as (origin, destination).
pub open spec fn edges_into(edges: Seq<FieldEdge>, id: Seq<char>) -> Seq<(Seq<char>, Seq<char>)>
    decreases edges.len(),
{
    if edges.len() == 0 {
        Seq::empty()
    } else {
        let prev = edges_into(edges.drop_last(), id);
        let e = edges.last();
        if e.destination == id {
            prev.push((e.origin, e.destination))
        } else {
            prev
        }
    }
}

/// The edges starting at `id`, in order, as (origin, destination).
pub open spec fn edges_out_of(edges: Seq<FieldEdge>, id: Seq<char>) -> Seq<(Seq<char>, Seq<char>)>
    decreases edges.len(),
{
    if edges.len() == 0 {
        Seq::empty()
    } else {
        let prev = edges_out_of(edges.drop_last(), id);
        let e = edges.last();
        if e.origin == id {
            prev.push((e.origin, e.destination))
        } else {
            prev
        }
    }
}

/// The field of the last output node with this id.
pub open spec fn last_output(outs: Seq<(Seq<char>, int)>, id: Seq<char>) -> Option<int>
    decreases outs.len(),
{
    if outs.len() == 0 {
        None
    } else if outs.last().0 == id {
        Some(outs.last().1)
    } else {
        last_output(outs.drop_last(), id)
    }
}

/// The first edge that starts at `id`.
pub open spec fn first_origin(edges: Seq<FieldEdge>, id: Seq<char>) -> Option<int>
    decreases edges.len(),
{
    if edges.len() == 0 {
        None
    } else {
        match first_origin(edges.drop_last(), id) {
            Some(k) => Some(k),
            None => if edges.last().origin == id {
                Some(edges.len() - 1)
            } else {
                None
            },
        }
    }
}

pub open spec fn edge_pairs(v: Seq<LineageEdge>) -> Seq<(Seq<char>, Seq<char>)> {
    v.map_values(|e: LineageEdge| (e.origin@, e.destination@))
}

/// A node is right when its edges are the graph's edges at its id, in order,
/// and its payload is that of the last output field with its id, else that of
/// the first input that reaches it.
pub open spec fn field_node_ok(
    n: FieldNode,
    ns: Seq<char>,
    ds: Seq<char>,
    filter: Option<Seq<char>>,
    fields: Seq<FieldLineage>,
) -> bool {
    let edges = graph_edges(ns, ds, filter, fields);
    let outs = output_ids(ns, ds, filter, fields);
    &&& n.node_type@ == dataset_field_type()
    &&& edge_pairs(n.in_edges@) == edges_into(edges, n.id@)
    &&& edge_pairs(n.out_edges@) == edges_out_of(edges, n.id@)
    &&& match last_output(outs, n.id@) {
        Some(k) => n.data matches FieldNodeData::Output {
            namespace,
            dataset,
            field,
            input_fields_json,
        } && namespace@ == ns && dataset@ == ds && field@ == fields[k].field@
            && input_fields_json@ == fields[k].input_fields_json@,
        None => match first_origin(edges, n.id@) {
            Some(j) => n.data matches FieldNodeData::Input { namespace, dataset, field }
                && namespace@ == edges[j].namespace && dataset@ == edges[j].dataset && field@
                == edges[j].field,
            None => false,
        },
    }
}

pub open spec fn node_ids(g: Seq<FieldNode>) -> Seq<Seq<char>> {
    g.map_values(|n: FieldNode| n.id@)
}

/// `g` is the graph of `fields`: one node per id, in increasing id order, each
/// right.
pub open spec fn field_graph_ok(
    g: Seq<FieldNode>,
    ns: Seq<char>,
    ds: Seq<char>,
    filter: Option<Seq<char>>,
    fields: Seq<FieldLineage>,
) -> bool {
    &&& strictly_sorted(node_ids(g))
    &&& forall|id: Seq<char>| #[trigger]
        node_ids(g).contains(id) <==> is_field_node(ns, ds, filter, fields, id)
    &&& forall|k: int| 0 <= k < g.len() ==> field_node_ok(#[trigger] g[k], ns, ds, filter, fields)
}

/// An edge being built, with the coordinates of the input it starts at.
struct EdgeRec {
    origin: String,
    destination: String,
    namespace: String,
    dataset: String,
    field: String,
}

spec fn rec_view(e: EdgeRec) -> FieldEdge {
    FieldEdge {
        origin: e.origin@,
        destination: e.destination@,
        namespace: e.namespace@,
        dataset: e.dataset@,
        field: e.field@,
    }
}

spec fn recs_view(v: Seq<EdgeRec>) -> Seq<FieldEdge> {
    v.map_values(|e: EdgeRec| rec_view(e))
}

spec fn outs_view(v: Seq<(String, usize)>) -> Seq<(Seq<char>, int)> {
    v.map_values(|p: (String, usize)| (p.0@, p.1 as int))
}

proof fn lemma_output_ids_bounds(
    ns: Seq<char>,
    ds: Seq<char>,
    filter: Option<Seq<char>>,
    fields: Seq<FieldLineage>,
)
    ensures
        forall|k: int|
            0 <= k < output_ids(ns, ds, filter, fields).len() ==> 0 <= (#[trigger] output_ids(
                ns,
                ds,
                filter,
                fields,
            )[k]).1 < fields.len(),
    decreases fields.len(),
{
    if fields.len() > 0 {
        let prev = output_ids(ns, ds, filter, fields.drop_last());
        let all = output_ids(ns, ds, filter, fields);
        lemma_output_ids_bounds(ns, ds, filter, fields.drop_last());
        assert forall|k: int| 0 <= k < all.len() implies 0 <= (#[trigger] all[k]).1 < fields.len() by {
            if k < prev.len() {
                assert(all[k] == prev[k]);
            }
        }
    }
}

fn is_kept(f: &FieldLineage, filter: &Option<String>) -> (r: bool)
    ensures
        r == kept(*f, crate::text::opt_view(*filter)),
{
    match filter {
        Some(x) => str_eq(f.field.as_str(), x.as_str()),
        None => true,
    }
}

/// The edges and output nodes of the graph of `fields`.
fn collect_edges(ns: &str, ds: &str, filter: &Option<String>, fields: &Vec<FieldLineage>) -> (r: (
    Vec<EdgeRec>,
    Vec<(String, usize)>,
))
    ensures
        recs_view(r.0@) == graph_edges(ns@, ds@, crate::text::opt_view(*filter), fields@),
        outs_view(r.1@) == output_ids(ns@, ds@, crate::text::opt_view(*filter), fields@),
{
    let ghost fv = crate::text::opt_view(*filter);
    let mut edges: Vec<EdgeRec> = Vec::new();
    let mut outs: Vec<(String, usize)> = Vec::new();
    let mut i: usize = 0;
    while i < fields.len()
        invariant
            i <= fields.len(),
            fv == crate::text::opt_view(*filter),
            recs_view(edges@) == graph_edges(ns@, ds@, fv, fields@.take(i as int)),
            outs_view(outs@) == output_ids(ns@, ds@, fv, fields@.take(i as int)),
        decreases fields.len() - i,
    {
        let f = &fields[i];
        proof {
            assert(fields@.take(i + 1).drop_last() =~= fields@.take(i as int));
            assert(fields@.take(i + 1).last() == fields@[i as int]);
        }
        if is_kept(f, filter) {
            let dest = dataset_field_node_id(ns, ds, f.field.as_str());
            let ghost base = recs_view(edges@);
            let mut j: usize = 0;
            while j < f.input_fields.len()
                invariant
                    j <= f.input_fields.len(),
                    dest@ == field_node_id_text(ns@, ds@, f.field@),
                    recs_view(edges@) == base + inputs_edges(f.input_fields@.take(j as int), dest@),
                decreases f.input_fields.len() - j,
            {
                let inp = &f.input_fields[j];
                proof {
                    assert(f.input_fields@.take(j + 1).drop_last() =~= f.input_fields@.take(j as int));
                    assert(f.input_fields@.take(j + 1).last() == f.input_fields@[j as int]);
                }
                match (&inp.namespace, &inp.name, &inp.field) {
                    (Some(n), Some(d), Some(x)) => {
                        let origin = dataset_field_node_id(n.as_str(), d.as_str(), x.as_str());
                        let ghost pre = edges@;
                        edges.push(
                            EdgeRec {
                                origin,
                                destination: dest.clone(),
                                namespace: n.clone(),
                                dataset: d.clone(),
                                field: x.clone(),
                            },
                        );
                        proof {
                            assert(recs_view(edges@) =~= recs_view(pre).push(rec_view(edges@.last())));
                        }
                    },
                    _ => {},
                }
                j = j + 1;
                proof {
                    assert(recs_view(edges@) =~= base + inputs_edges(
                        f.input_fields@.take(j as int),
                        dest@,
                    ));
                }
            }
            proof {
                assert(f.input_fields@.take(j as int) =~= f.input_fields@);
            }
            let ghost pre_outs = outs@;
            outs.push((dest, i));
            proof {
                assert(outs_view(outs@) =~= outs_view(pre_outs).push((dest@, i as int)));
            }
        }
        i = i + 1;
    }
    proof {
        assert(fields@.take(i as int) =~= fields@);
    }
    (edges, outs)
}

proof fn lemma_last_output(outs: Seq<(Seq<char>, int)>, id: Seq<char>)
    ensures
        last_output(outs, id) matches Some(x) ==> exists|k: int|
            0 <= k < outs.len() && #[trigger] outs[k] == (id, x),
        (exists|k: int| 0 <= k < outs.len() && #[trigger] outs[k].0 == id) ==> last_output(
            outs,
            id,
        ) is Some,
    decreases outs.len(),
{
    if outs.len() > 0 {
        lemma_last_output(outs.drop_last(), id);
        if let Some(x) = last_output(outs, id) {
            if outs.last().0 != id {
                let k = choose|k: int| 0 <= k < outs.drop_last().len() && #[trigger] outs.drop_last()[k] == (id, x);
                assert(outs[k] == (id, x));
            }
        }
        if exists|k: int| 0 <= k < outs.len() && #[trigger] outs[k].0 == id {
            let k = choose|k: int| 0 <= k < outs.len() && #[trigger] outs[k].0 == id;
            if k < outs.len() - 1 {
                assert(outs.drop_last()[k].0 == id);
            }
        }
    }
}

proof fn lemma_first_origin(edges: Seq<FieldEdge>, id: Seq<char>)
    ensures
        first_origin(edges, id) matches Some(j) ==> 0 <= j < edges.len() && edges[j].origin == id,
        (exists|k: int| 0 <= k < edges.len() && #[trigger] edges[k].origin == id) ==> first_origin(
            edges,
            id,
        ) is Some,
    decreases edges.len(),
{
    if edges.len() > 0 {
        lemma_first_origin(edges.drop_last(), id);
        if let Some(j) = first_origin(edges.drop_last(), id) {
            assert(edges.drop_last()[j] == edges[j]);
        }
        if exists|k: int| 0 <= k < edges.len() && #[trigger] edges[k].origin == id {
            let k = choose|k: int| 0 <= k < edges.len() && #[trigger] edges[k].origin == id;
            if k < edges.len() - 1 {
                assert(edges.drop_last()[k].origin == id);
            }
        }
    }
}

fn edges_into_exec(edges: &Vec<EdgeRec>, id: &str) -> (r: Vec<LineageEdge>)
    ensures
        edge_pairs(r@) == edges_into(recs_view(edges@), id@),
{
    let mut r: Vec<LineageEdge> = Vec::new();
    let mut i: usize = 0;
    while i < edges.len()
        invariant
            i <= edges.len(),
            edge_pairs(r@) == edges_into(recs_view(edges@).take(i as int), id@),
        decreases edges.len() - i,
    {
        proof {
            assert(recs_view(edges@).take(i + 1).drop_last() =~= recs_view(edges@).take(i as int));
            assert(recs_view(edges@).take(i + 1).last() == rec_view(edges@[i as int]));
        }
        if str_eq(edges[i].destination.as_str(), id) {
            let ghost pre = r@;
            r.push(LineageEdge { origin: edges[i].origin.clone(), destination: edges[i].destination.clone() });
            proof {
                assert(edge_pairs(r@) =~= edge_pairs(pre).push((edges@[i as int].origin@, edges@[i as int].destination@)));
            }
        }
        i = i + 1;
    }
    proof {
        assert(recs_view(edges@).take(i as int) =~= recs_view(edges@));
    }
    r
}

fn edges_out_of_exec(edges: &Vec<EdgeRec>, id: &str) -> (r: Vec<LineageEdge>)
    ensures
        edge_pairs(r@) == edges_out_of(recs_view(edges@), id@),
{
    let mut r: Vec<LineageEdge> = Vec::new();
    let mut i: usize = 0;
    while i < edges.len()
        invariant
            i <= edges.len(),
            edge_pairs(r@) == edges_out_of(recs_view(edges@).take(i as int), id@),
        decreases edges.len() - i,
    {
        proof {
            assert(recs_view(edges@).take(i + 1).drop_last() =~= recs_view(edges@).take(i as int));
            assert(recs_view(edges@).take(i + 1).last() == rec_view(edges@[i as int]));
        }
        if str_eq(edges[i].origin.as_str(), id) {
            let ghost pre = r@;
            r.push(LineageEdge { origin: edges[i].origin.clone(), destination: edges[i].destination.clone() });
            proof {
                assert(edge_pairs(r@) =~= edge_pairs(pre).push((edges@[i as int].origin@, edges@[i as int].destination@)));
            }
        }
        i = i + 1;
    }
    proof {
        assert(recs_view(edges@).take(i as int) =~= recs_view(edges@));
    }
    r
}

fn last_output_exec(outs: &Vec<(String, usize)>, id: &str) -> (r: Option<usize>)
    ensures
        match r {
            Some(x) => last_output(outs_view(outs@), id@) == Some(x as int),
            None => last_output(outs_view(outs@), id@) is None,
        },
{
    let mut best: Option<usize> = None;
    let mut i: usize = 0;
    while i < outs.len()
        invariant
            i <= outs.len(),
            match best {
                Some(x) => last_output(outs_view(outs@).take(i as int), id@) == Some(x as int),
                None => last_output(outs_view(outs@).take(i as int), id@) is None,
            },
        decreases outs.len() - i,
    {
        proof {
            assert(outs_view(outs@).take(i + 1).drop_last() =~= outs_view(outs@).take(i as int));
            assert(outs_view(outs@).take(i + 1).last() == (outs@[i as int].0@, outs@[i as int].1 as int));
        }
        if str_eq(outs[i].0.as_str(), id) {
            best = Some(outs[i].1);
        }
        i = i + 1;
    }
    proof {
        assert(outs_view(outs@).take(i as int) =~= outs_view(outs@));
    }
    best
}

fn first_origin_exec(edges: &Vec<EdgeRec>, id: &str) -> (r: Option<usize>)
    ensures
        match r {
            Some(j) => first_origin(recs_view(edges@), id@) == Some(j as int),
            None => first_origin(recs_view(edges@), id@) is None,
        },
{
    let mut best: Option<usize> = None;
    let mut i: usize = 0;
    while i < edges.len()
        invariant
            i <= edges.len(),
            match best {
                Some(j) => first_origin(recs_view(edges@).take(i as int), id@) == Some(j as int),
                None => first_origin(recs_view(edges@).take(i as int), id@) is None,
            },
        decreases edges.len() - i,
    {
        proof {
            assert(recs_view(edges@).take(i + 1).drop_last() =~= recs_view(edges@).take(i as int));
            assert(recs_view(edges@).take(i + 1).last() == rec_view(edges@[i as int]));
        }
        if best.is_none() && str_eq(edges[i].origin.as_str(), id) {
            best = Some(i);
        }
        i = i + 1;
    }
    proof {
        assert(recs_view(edges@).take(i as int) =~= recs_view(edges@));
    }
    best
}

fn dataset_field_type_string() -> (r: String)
    ensures
        r@ == dataset_field_type(),
{
    let v = vec!['D', 'A', 'T', 'A', 'S', 'E', 'T', '_', 'F', 'I', 'E', 'L', 'D'];
    let r = crate::text::string_of_chars(&v);
    assert(r@ =~= dataset_field_type());
    r
}

/// The field graph of `fields`, the column-lineage facet of dataset `ds` in
/// namespace `ns`, keeping only the field `filter` names when it names one.
fn build_field_graph(ns: &str, ds: &str, filter: &Option<String>, fields: &Vec<FieldLineage>) -> (g:
    Vec<FieldNode>)
    ensures
        field_graph_ok(g@, ns@, ds@, crate::text::opt_view(*filter), fields@),
{
    let ghost fv = crate::text::opt_view(*filter);
    let (edges, outs) = collect_edges(ns, ds, filter, fields);
    let ghost ev = recs_view(edges@);
    let ghost ov = outs_view(outs@);
    proof {
        lemma_output_ids_bounds(ns@, ds@, fv, fields@);
    }
    let mut ids: Vec<String> = Vec::new();
    let mut i: usize = 0;
    while i < outs.len()
        invariant
            i <= outs.len(),
            ov == outs_view(outs@),
            strictly_sorted(views(ids@)),
            forall|id: Seq<char>|
                views(ids@).to_set().contains(id) <==> exists|k: int|
                    0 <= k < i && #[trigger] ov[k].0 == id,
        decreases outs.len() - i,
    {
        set_insert(&mut ids, outs[i].0.clone());
        proof {
            assert forall|id: Seq<char>|
                views(ids@).to_set().contains(id) <==> exists|k: int|
                    0 <= k < i + 1 && #[trigger] ov[k].0 == id by {
                if id == ov[i as int].0 {
                    assert(ov[i as int].0 == id);
                }
                if exists|k: int| 0 <= k < i + 1 && #[trigger] ov[k].0 == id {
                    let k = choose|k: int| 0 <= k < i + 1 && #[trigger] ov[k].0 == id;
                    if k < i {
                        assert(ov[k].0 == id);
                    }
                }
            }
        }
        i = i + 1;
    }
    let mut e: usize = 0;
    while e < edges.len()
        invariant
            e <= edges.len(),
            ev == recs_view(edges@),
            ov == outs_view(outs@),
            strictly_sorted(views(ids@)),
            forall|id: Seq<char>|
                views(ids@).to_set().contains(id) <==> ((exists|k: int|
                    0 <= k < ov.len() && #[trigger] ov[k].0 == id) || (exists|k: int|
                    0 <= k < e && #[trigger] ev[k].origin == id)),
        decreases edges.len() - e,
    {
        set_insert(&mut ids, edges[e].origin.clone());
        proof {
            assert forall|id: Seq<char>|
                views(ids@).to_set().contains(id) <==> ((exists|k: int|
                    0 <= k < ov.len() && #[trigger] ov[k].0 == id) || (exists|k: int|
                    0 <= k < e + 1 && #[trigger] ev[k].origin == id)) by {
                if id == ev[e as int].origin {
                    assert(ev[e as int].origin == id);
                }
                if exists|k: int| 0 <= k < e + 1 && #[trigger] ev[k].origin == id {
                    let k = choose|k: int| 0 <= k < e + 1 && #[trigger] ev[k].origin == id;
                    if k < e {
                        assert(ev[k].origin == id);
                    }
                }
            }
        }
        e = e + 1;
    }
    proof {
        assert forall|id: Seq<char>|
            views(ids@).contains(id) <==> is_field_node(ns@, ds@, fv, fields@, id) by {
            if views(ids@).contains(id) {
                assert(views(ids@).to_set().contains(id));
            }
            if views(ids@).to_set().contains(id) {
                assert(views(ids@).contains(id));
            }
        }
    }
    let mut g: Vec<FieldNode> = Vec::new();
    let mut k: usize = 0;
    while k < ids.len()
        invariant
            k <= ids.len(),
            ev == recs_view(edges@),
            ov == outs_view(outs@),
            ev == graph_edges(ns@, ds@, fv, fields@),
            ov == output_ids(ns@, ds@, fv, fields@),
            fv == crate::text::opt_view(*filter),
            forall|m: int| 0 <= m < ov.len() ==> 0 <= (#[trigger] ov[m]).1 < fields@.len(),
            forall|id: Seq<char>|
                views(ids@).contains(id) <==> is_field_node(ns@, ds@, fv, fields@, id),
            node_ids(g@) == views(ids@).take(k as int),
            forall|m: int| 0 <= m < g@.len() ==> field_node_ok(#[trigger] g@[m], ns@, ds@, fv, fields@),
        decreases ids.len() - k,
    {
        let id = ids[k].as_str();
        proof {
            assert(views(ids@)[k as int] == ids@[k as int]@);
            assert(views(ids@).contains(id@));
            lemma_last_output(ov, id@);
            lemma_first_origin(ev, id@);
        }
        let in_edges = edges_into_exec(&edges, id);
        let out_edges = edges_out_of_exec(&edges, id);
        let data = match last_output_exec(&outs, id) {
            Some(x) => {
                proof {
                    let w = choose|w: int| 0 <= w < ov.len() && #[trigger] ov[w] == (id@, x as int);
                    assert(0 <= ov[w].1 < fields@.len());
                }
                FieldNodeData::Output {
                    namespace: crate::text::owned(ns),
                    dataset: crate::text::owned(ds),
                    field: fields[x].field.clone(),
                    input_fields_json: fields[x].input_fields_json.clone(),
                }
            },
            None => match first_origin_exec(&edges, id) {
                Some(j) => FieldNodeData::Input {
                    namespace: edges[j].namespace.clone(),
                    dataset: edges[j].dataset.clone(),
                    field: edges[j].field.clone(),
                },
                None => {
                    proof {
                        assert(is_field_node(ns@, ds@, fv, fields@, id@));
                        assert(false);
                    }
                    FieldNodeData::Input {
                        namespace: String::new(),
                        dataset: String::new(),
                        field: String::new(),
                    }
                },
            },
        };
        let node = FieldNode {
            id: ids[k].clone(),
            node_type: dataset_field_type_string(),
            data,
            in_edges,
            out_edges,
        };
        proof {
            assert(field_node_ok(node, ns@, ds@, fv, fields@));
        }
        let ghost pre = g@;
        g.push(node);
        proof {
            assert(g@[pre.len() as int] == node);
            assert(node.id@ == views(ids@)[k as int]);
            assert(node_ids(g@) =~= node_ids(pre).push(node.id@));
            assert(views(ids@).take(k + 1) =~= views(ids@).take(k as int).push(views(ids@)[k as int]));
            assert(node_ids(g@) =~= views(ids@).take(k + 1));
        }
        k = k + 1;
    }
    proof {
        assert(views(ids@).take(k as int) =~= views(ids@));
    }
    g
}

/// An output that describes dataset `ds` of namespace `ns`.
pub open spec fn output_matches(o: OutputLineage, ns: Seq<char>, ds: Seq<char>) -> bool {
    &&& o.namespace matches Some(n) && n@ == ns
    &&& o.name matches Some(m) && m@ == ds
}

/// The first output that describes dataset `ds` of namespace `ns`.
pub open spec fn first_match(outs: Seq<OutputLineage>, ns: Seq<char>, ds: Seq<char>) -> Option<int>
    decreases outs.len(),
{
    if outs.len() == 0 {
        None
    } else {
        match first_match(outs.drop_last(), ns, ds) {
            Some(k) => Some(k),
            None => if output_matches(outs.last(), ns, ds) {
                Some(outs.len() - 1)
            } else {
                None
            },
        }
    }
}

/// What a row says of the dataset: nothing, or the fields of the facet of its
/// first output that describes it (none when that facet's `fields` is not an
/// object).
pub open spec fn row_facet(r: ColumnLineageRow, ns: Seq<char>, ds: Seq<char>) -> Option<
    Option<Seq<FieldLineage>>,
> {
    match r.outputs {
        Some(outs) => match first_match(outs@, ns, ds) {
            Some(k) => Some(
                match outs@[k].fields {
                    Some(f) => Some(f@),
                    None => None,
                },
            ),
            None => None,
        },
        None => None,
    }
}

/// `a` comes before `b` newest first, with unknown times last.
pub open spec fn newer(a: Option<i64>, b: Option<i64>) -> bool {
    match (a, b) {
        (Some(x), Some(y)) => x > y,
        (Some(_), None) => true,
        _ => false,
    }
}

/// The row whose facet is current: the newest row that describes the
/// dataset, the earliest stored among rows of equal time.
pub open spec fn current_row(rows: Seq<ColumnLineageRow>, ns: Seq<char>, ds: Seq<char>) -> Option<int>
    decreases rows.len(),
{
    if rows.len() == 0 {
        None
    } else {
        let prev = current_row(rows.drop_last(), ns, ds);
        let i = rows.len() - 1;
        if row_facet(rows[i], ns, ds) is Some && match prev {
            Some(p) => newer(rows[i].event_time, rows[p].event_time),
            None => true,
        } {
            Some(i)
        } else {
            prev
        }
    }
}

/// The fields of the current facet of the dataset, if it has one whose
/// `fields` is an object.
pub open spec fn current_fields(rows: Seq<ColumnLineageRow>, ns: Seq<char>, ds: Seq<char>) -> Option<
    Seq<FieldLineage>,
> {
    match current_row(rows, ns, ds) {
        Some(i) => match row_facet(rows[i], ns, ds) {
            Some(Some(f)) => Some(f),
            _ => None,
        },
        None => None,
    }
}

proof fn lemma_first_match(outs: Seq<OutputLineage>, ns: Seq<char>, ds: Seq<char>)
    ensures
        first_match(outs, ns, ds) matches Some(k) ==> 0 <= k < outs.len(),
    decreases outs.len(),
{
    if outs.len() > 0 {
        lemma_first_match(outs.drop_last(), ns, ds);
    }
}

fn output_matches_exec(o: &OutputLineage, ns: &str, ds: &str) -> (r: bool)
    ensures
        r == output_matches(*o, ns@, ds@),
{
    match (&o.namespace, &o.name) {
        (Some(n), Some(m)) => str_eq(n.as_str(), ns) && str_eq(m.as_str(), ds),
        _ => false,
    }
}

fn first_match_exec(outs: &Vec<OutputLineage>, ns: &str, ds: &str) -> (r: Option<usize>)
    ensures
        match r {
            Some(k) => first_match(outs@, ns@, ds@) == Some(k as int),
            None => first_match(outs@, ns@, ds@) is None,
        },
{
    let mut i: usize = 0;
    while i < outs.len()
        invariant
            i <= outs.len(),
            first_match(outs@.take(i as int), ns@, ds@) is None,
        decreases outs.len() - i,
    {
        proof {
            assert(outs@.take(i + 1).drop_last() =~= outs@.take(i as int));
        }
        if output_matches_exec(&outs[i], ns, ds) {
            proof {
                lemma_first_match_prefix(outs@, ns@, ds@, i + 1);
            }
            return Some(i);
        }
        i = i + 1;
    }
    proof {
        assert(outs@.take(i as int) =~= outs@);
    }
    None
}

proof fn lemma_first_match_prefix(outs: Seq<OutputLineage>, ns: Seq<char>, ds: Seq<char>, n: int)
    requires
        0 < n <= outs.len(),
        first_match(outs.take(n - 1), ns, ds) is None,
        output_matches(outs[n - 1], ns, ds),
    ensures
        first_match(outs, ns, ds) == Some(n - 1),
    decreases outs.len(),
{
    assert(outs.take(n).drop_last() =~= outs.take(n - 1));
    if n < outs.len() {
        assert(outs.drop_last().take(n - 1) =~= outs.take(n - 1));
        lemma_first_match_prefix(outs.drop_last(), ns, ds, n);
    } else {
        assert(outs.take(n) =~= outs);
    }
}

/// The position, among its outputs, of the output a row holds for the
/// dataset.
fn row_facet_exec(r: &ColumnLineageRow, ns: &str, ds: &str) -> (k: Option<usize>)
    ensures
        k is Some <==> row_facet(*r, ns@, ds@) is Some,
        k matches Some(x) ==> r.outputs matches Some(outs) && first_match(outs@, ns@, ds@) == Some(
            x as int,
        ),
{
    match &r.outputs {
        Some(outs) => first_match_exec(outs, ns, ds),
        None => None,
    }
}

fn newer_exec(a: Option<i64>, b: Option<i64>) -> (r: bool)
    ensures
        r == newer(a, b),
{
    match (a, b) {
        (Some(x), Some(y)) => x > y,
        (Some(_), None) => true,
        _ => false,
    }
}

/// The field-level lineage graph a column-lineage `nodeId` addresses, from
/// the stored events' column lineage in storage order. The current facet of
/// the dataset is that of the newest event describing it (unknown times
/// last); a `datasetField` id keeps only that field. Every output field is a
/// node carrying its `inputFields`; every input field an edge starts at is a
/// node carrying its coordinates; nodes come in increasing id order with
/// their edges in facet order. An unparsable id, a dataset without column
/// lineage, or a facet whose `fields` is not an object gives an empty graph.
pub fn column_lineage(node_id: &str, rows: &Vec<ColumnLineageRow>) -> (g: ColumnLineageGraph)
    ensures
        match parse_column_node_id_spec(node_id@) {
            Some((ns, ds, filter)) => match current_fields(rows@, ns, ds) {
                Some(fields) => field_graph_ok(g.graph@, ns, ds, filter, fields),
                None => g.graph@.len() == 0,
            },
            None => g.graph@.len() == 0,
        },
{
    let empty = ColumnLineageGraph { graph: Vec::new() };
    let (ns, ds, filter) = match parse_column_lineage_node_id(node_id) {
        Some(p) => p,
        None => return empty,
    };
    let mut best: Option<usize> = None;
    let mut i: usize = 0;
    while i < rows.len()
        invariant
            i <= rows.len(),
            match best {
                Some(b) => current_row(rows@.take(i as int), ns@, ds@) == Some(b as int) && b < i,
                None => current_row(rows@.take(i as int), ns@, ds@) is None,
            },
        decreases rows.len() - i,
    {
        proof {
            let t = rows@.take(i + 1);
            assert(t.drop_last() =~= rows@.take(i as int));
            assert(t[i as int] == rows@[i as int]);
            if let Some(b) = best {
                assert(t[b as int] == rows@[b as int]);
            }
        }
        if row_facet_exec(&rows[i], ns.as_str(), ds.as_str()).is_some() {
            let take = match best {
                Some(b) => newer_exec(rows[i].event_time, rows[b].event_time),
                None => true,
            };
            if take {
                best = Some(i);
            }
        }
        i = i + 1;
    }
    proof {
        assert(rows@.take(i as int) =~= rows@);
    }
    let b = match best {
        Some(b) => b,
        None => return empty,
    };
    let k = match row_facet_exec(&rows[b], ns.as_str(), ds.as_str()) {
        Some(k) => k,
        None => return empty,
    };
    match &rows[b].outputs {
        Some(outs) => {
            proof {
                lemma_first_match(outs@, ns@, ds@);
            }
            match &outs[k].fields {
                Some(fields) => ColumnLineageGraph {
                    graph: build_field_graph(ns.as_str(), ds.as_str(), &filter, fields),
                },
                None => empty,
            }
        },
        None => empty,
    }
}

proof fn lemma_field_id_parts(namespace: Seq<char>, dataset: Seq<char>, field: Seq<char>)
    requires
        !field.contains(':'),
    ensures
        ({
            let s = field_node_id_text(namespace, dataset, field);
            let w = dataset_field_word().len() as int;
            let rest = s.subrange(w + 1, s.len() as int);
            let j = (namespace.len() + 1 + dataset.len()) as int;
            &&& find_char(s, ':', 0) == Some(w)
            &&& s.subrange(0, w) == dataset_field_word()
            &&& rfind_char(rest, ':') == Some(j)
            &&& rest.subrange(0, j) == namespace + seq![':'] + dataset
            &&& rest.subrange(j + 1, rest.len() as int) == field
        }),
{
    let s = field_node_id_text(namespace, dataset, field);
    let word = dataset_field_word();
    let w = word.len() as int;
    let rest = namespace + seq![':'] + dataset + seq![':'] + field;
    assert(s =~= word + seq![':'] + rest);
    assert(s[w] == ':');
    assert forall|k: int| 0 <= k < w implies s[k] != ':' by {
        assert(s[k] == word[k]);
    }
    lemma_find_char_at(s, ':', 0, w);
    assert(s.subrange(0, w) =~= word);
    assert(s.subrange(w + 1, s.len() as int) =~= rest);
    let j = (namespace.len() + 1 + dataset.len()) as int;
    assert(rest[j] == ':');
    assert forall|k: int| j < k < rest.len() implies rest[k] != ':' by {
        assert(rest[k] == field[k - j - 1]);
        if field[k - j - 1] == ':' {
            assert(field.contains(':'));
        }
    }
    lemma_rfind_char_at(rest, ':', j);
    assert(rest.subrange(0, j) =~= namespace + seq![':'] + dataset);
    assert(rest.subrange(j + 1, rest.len() as int) =~= field);
}

/// Round trip of a field `nodeId` whose namespace holds no `:`: parsing it
/// gives back the namespace, the dataset and the field, for a field free of
/// `:` and a dataset that does not begin with `//`.
pub proof fn lemma_field_node_id_round_trip_plain(
    namespace: Seq<char>,
    dataset: Seq<char>,
    field: Seq<char>,
)
    requires
        !namespace.contains(':'),
        !(dataset.len() >= 2 && dataset[0] == '/' && dataset[1] == '/'),
        !field.contains(':'),
    ensures
        parse_column_node_id_spec(field_node_id_text(namespace, dataset, field)) == Some(
            (namespace, dataset, Some(field)),
        ),
{
    lemma_field_id_parts(namespace, dataset, field);
    lemma_split_plain(namespace, dataset);
}

/// Round trip of a field `nodeId` whose namespace is a `scheme://authority`
/// URI: every `:` of the dataset name survives, for a field free of `:`.
pub proof fn lemma_field_node_id_round_trip_uri(
    scheme: Seq<char>,
    authority: Seq<char>,
    dataset: Seq<char>,
    field: Seq<char>,
)
    requires
        is_uri_namespace(scheme, authority),
        !field.contains(':'),
    ensures
        parse_column_node_id_spec(field_node_id_text(uri_text(scheme, authority), dataset, field))
            == Some((uri_text(scheme, authority), dataset, Some(field))),
{
    lemma_field_id_parts(uri_text(scheme, authority), dataset, field);
    lemma_split_uri(scheme, authority, dataset);
}

} // verus!
