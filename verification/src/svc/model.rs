//! Identities and node ids of the Marquez-compatible read model.

use vstd::prelude::*;

use crate::svc::runs::LatestRun;
use crate::text::{
    chars_of, find_char, find_char_from, find_either, find_either_from, lemma_find_char_bounds,
    lemma_find_char_at, lemma_find_either_at, lemma_find_either_bounds, push_char, range_is,
    string_of_range,
};

verus! {

/// `{ namespace, name }`: the identity of a job or a dataset.
#[derive(Debug, Clone, PartialEq, Eq)]
pub struct EntityId {
    pub namespace: String,
    pub name: String,
}

impl EntityId {
    pub open spec fn key(self) -> (Seq<char>, Seq<char>) {
        (self.namespace@, self.name@)
    }
}

/// A namespace of the Marquez read model.
#[derive(Debug)]
pub struct Namespace {
    pub name: String,
    pub created_at: String,
    pub updated_at: String,
    pub owner_name: Option<String>,
    pub description: Option<String>,
    pub is_hidden: bool,
}

#[derive(Debug)]
pub struct Namespaces {
    pub namespaces: Vec<Namespace>,
}

/// A Marquez job: identity, edges, metadata and its runs newest first.
#[derive(Debug)]
pub struct Job {
    pub id: EntityId,
    /// Always `BATCH`.
    pub job_type: String,
    pub name: String,
    pub simple_name: String,
    pub namespace: String,
    pub created_at: String,
    pub updated_at: String,
    pub inputs: Vec<EntityId>,
    pub outputs: Vec<EntityId>,
    pub location: Option<String>,
    pub description: Option<String>,
    pub latest_run: Option<LatestRun>,
    /// Never empty: a job without runs carries one neutral run.
    pub latest_runs: Vec<LatestRun>,
    pub tags: Vec<String>,
    pub parent_job_name: Option<String>,
    pub parent_job_uuid: Option<String>,
}

#[derive(Debug)]
pub struct Jobs {
    pub jobs: Vec<Job>,
    pub total_count: usize,
}

#[derive(Debug)]
pub struct Runs {
    pub runs: Vec<LatestRun>,
    pub total_count: usize,
}

/// A Marquez dataset. `fields` holds the schema columns as JSON texts and
/// `facets` the facet object as JSON text.
#[derive(Debug)]
pub struct Dataset {
    pub id: EntityId,
    /// Always `DB_TABLE`.
    pub dataset_type: String,
    pub name: String,
    pub physical_name: String,
    pub namespace: String,
    pub source_name: String,
    pub created_at: String,
    pub updated_at: String,
    pub description: Option<String>,
    pub fields: Vec<String>,
    pub facets: String,
    pub tags: Vec<String>,
    pub deleted: bool,
}

#[derive(Debug)]
pub struct Datasets {
    pub datasets: Vec<Dataset>,
    pub total_count: usize,
}

#[derive(Debug)]
pub struct SearchResult {
    pub name: String,
    pub namespace: String,
    pub node_id: String,
    /// `JOB` or `DATASET`.
    pub result_type: String,
    pub updated_at: String,
}

#[derive(Debug)]
pub struct Search {
    pub total_count: usize,
    pub results: Vec<SearchResult>,
}

/// One dataset version: the dataset's current snapshot.
#[derive(Debug)]
pub struct DatasetVersion {
    pub id: DatasetVersionId,
    pub dataset_type: String,
    pub name: String,
    pub physical_name: String,
    pub created_at: String,
    pub version: String,
    pub namespace: String,
    pub source_name: String,
    /// Schema columns as JSON texts.
    pub fields: Vec<String>,
    pub tags: Vec<String>,
    pub last_modified_at: Option<String>,
    pub description: Option<String>,
    /// The facet object as JSON text.
    pub facets: String,
}

#[derive(Debug)]
pub struct DatasetVersionId {
    pub namespace: String,
    pub name: String,
    pub version: String,
}

#[derive(Debug)]
pub struct DatasetVersions {
    pub versions: Vec<DatasetVersion>,
    pub total_count: usize,
}

/// A directed edge between two nodes, by their node ids.
#[derive(Debug)]
pub struct LineageEdge {
    pub origin: String,
    pub destination: String,
}

/// The payload of a lineage graph node.
#[derive(Debug)]
pub enum NodeData {
    Job(Job),
    Dataset(Dataset),
}

/// One node of the lineage graph with its incident edges.
#[derive(Debug)]
pub struct LineageNode {
    pub id: String,
    /// `JOB` or `DATASET`.
    pub node_type: String,
    pub data: NodeData,
    pub in_edges: Vec<LineageEdge>,
    pub out_edges: Vec<LineageEdge>,
}

#[derive(Debug)]
pub struct LineageGraph {
    pub graph: Vec<LineageNode>,
}

/// The two node kinds a `nodeId` can address.
#[derive(Debug, Clone, Copy, PartialEq, Eq, Structural)]
pub enum NodeKind {
    Job,
    Dataset,
}

pub open spec fn job_word() -> Seq<char> {
    seq!['j', 'o', 'b']
}

pub open spec fn dataset_word() -> Seq<char> {
    seq!['d', 'a', 't', 'a', 's', 'e', 't']
}

/// `kind:namespace:name`
pub open spec fn node_id_text(kind: Seq<char>, namespace: Seq<char>, name: Seq<char>) -> Seq<char> {
    kind + seq![':'] + namespace + seq![':'] + name
}

/// Build the Marquez `nodeId` of a job: `job:<namespace>:<name>`.
pub fn job_node_id(namespace: &str, name: &str) -> (r: String)
    ensures
        r@ == node_id_text(job_word(), namespace@, name@),
{
    let word = ['j', 'o', 'b'];
    prefixed_node_id(&word, namespace, name)
}

/// Build the Marquez `nodeId` of a dataset: `dataset:<namespace>:<name>`.
pub fn dataset_node_id(namespace: &str, name: &str) -> (r: String)
    ensures
        r@ == node_id_text(dataset_word(), namespace@, name@),
{
    let word = ['d', 'a', 't', 'a', 's', 'e', 't'];
    prefixed_node_id(&word, namespace, name)
}

fn prefixed_node_id(word: &[char], namespace: &str, name: &str) -> (r: String)
    ensures
        r@ == node_id_text(word@, namespace@, name@),
{
    let mut out = String::new();
    let mut i: usize = 0;
    while i < word.len()
        invariant
            i <= word.len(),
            out@ == word@.take(i as int),
        decreases word.len() - i,
    {
        push_char(&mut out, word[i]);
        i = i + 1;
        assert(out@ =~= word@.take(i as int));
    }
    assert(word@.take(word.len() as int) =~= word@);
    push_char(&mut out, ':');
    out.append(namespace);
    push_char(&mut out, ':');
    out.append(name);
    assert(out@ =~= node_id_text(word@, namespace@, name@));
    out
}

pub open spec fn is_ascii_lower(c: char) -> bool {
    'a' <= c <= 'z'
}

/// `[a-z0-9+.-]` together with upper-case letters: the characters that may
/// continue a URI scheme.
pub open spec fn is_scheme_char(c: char) -> bool {
    ||| 'a' <= c <= 'z'
    ||| 'A' <= c <= 'Z'
    ||| '0' <= c <= '9'
    ||| c == '+'
    ||| c == '-'
    ||| c == '.'
}

/// End of the maximal run of scheme characters starting at `i`.
pub open spec fn scheme_run_end(s: Seq<char>, i: int) -> int
    decreases s.len() - i,
{
    if 0 <= i < s.len() && is_scheme_char(s[i]) {
        scheme_run_end(s, i + 1)
    } else {
        i
    }
}

/// When `s` begins with `scheme://`, the position that ends its
/// `scheme://authority` prefix: the first `/` or `:` after `://`, or the end of
/// `s`.
pub open spec fn scheme_authority_end(s: Seq<char>) -> Option<int> {
    if s.len() == 0 || !is_ascii_lower(s[0]) {
        None
    } else {
        let i = scheme_run_end(s, 1);
        if i < s.len() && s.len() - i >= 3 && s[i] == ':' && s[i + 1] == '/' && s[i + 2] == '/' {
            match find_either(s, '/', ':', i + 3) {
                Some(j) => Some(j),
                None => Some(s.len() as int),
            }
        } else {
            None
        }
    }
}

/// Split the `<namespace>:<name>` tail of a node id at the first `:` that
/// follows any `scheme://authority` prefix.
pub open spec fn split_namespace_name(rest: Seq<char>) -> Option<(Seq<char>, Seq<char>)> {
    let from = match scheme_authority_end(rest) {
        Some(e) => e,
        None => 0,
    };
    match find_char(rest, ':', from) {
        Some(b) => Some((rest.subrange(0, b), rest.subrange(b + 1, rest.len() as int))),
        None => None,
    }
}

/// A parsed `nodeId`: kind, namespace and name.
pub open spec fn parse_node_id_spec(s: Seq<char>) -> Option<(NodeKind, Seq<char>, Seq<char>)> {
    match find_char(s, ':', 0) {
        None => None,
        Some(i) => {
            let word = s.subrange(0, i);
            let rest = s.subrange(i + 1, s.len() as int);
            if word != job_word() && word != dataset_word() {
                None
            } else {
                let kind = if word == job_word() {
                    NodeKind::Job
                } else {
                    NodeKind::Dataset
                };
                match split_namespace_name(rest) {
                    Some((ns, name)) => Some((kind, ns, name)),
                    None => None,
                }
            }
        },
    }
}

proof fn lemma_scheme_run_end(s: Seq<char>, i: int)
    requires
        0 <= i,
    ensures
        i <= scheme_run_end(s, i),
        scheme_run_end(s, i) <= s.len() || scheme_run_end(s, i) == i,
        forall|k: int| i <= k < scheme_run_end(s, i) ==> is_scheme_char(#[trigger] s[k]),
        scheme_run_end(s, i) < s.len() ==> !is_scheme_char(s[scheme_run_end(s, i)]),
    decreases s.len() - i,
{
    if 0 <= i < s.len() && is_scheme_char(s[i]) {
        lemma_scheme_run_end(s, i + 1);
    }
}

proof fn lemma_scheme_run_end_at(s: Seq<char>, i: int, j: int)
    requires
        0 <= i <= j <= s.len(),
        forall|k: int| i <= k < j ==> is_scheme_char(#[trigger] s[k]),
        j == s.len() || !is_scheme_char(s[j]),
    ensures
        scheme_run_end(s, i) == j,
    decreases j - i,
{
    if i < j {
        lemma_scheme_run_end_at(s, i + 1, j);
    }
}

/// The word that names a node kind in a `nodeId`.
pub open spec fn kind_word(kind: NodeKind) -> Seq<char> {
    match kind {
        NodeKind::Job => job_word(),
        NodeKind::Dataset => dataset_word(),
    }
}

proof fn lemma_kind_prefix(kind: NodeKind, rest: Seq<char>)
    ensures
        ({
            let s = kind_word(kind) + seq![':'] + rest;
            &&& find_char(s, ':', 0) == Some(kind_word(kind).len() as int)
            &&& s.subrange(0, kind_word(kind).len() as int) == kind_word(kind)
            &&& s.subrange(kind_word(kind).len() + 1int, s.len() as int) == rest
            &&& (kind_word(kind) == job_word() <==> kind == NodeKind::Job)
            &&& (kind_word(kind) == dataset_word() <==> kind == NodeKind::Dataset)
        }),
{
    let w = kind_word(kind);
    let s = w + seq![':'] + rest;
    assert(job_word().len() != dataset_word().len());
    lemma_find_char_at(s, ':', 0, w.len() as int);
    assert(s.subrange(0, w.len() as int) =~= w);
    assert(s.subrange(w.len() + 1int, s.len() as int) =~= rest);
}

/// A `namespace:name` tail whose namespace holds no `:` splits back into the
/// two, unless a scheme-shaped namespace is followed by a name that begins
/// with `//`.
pub proof fn lemma_split_plain(namespace: Seq<char>, name: Seq<char>)
    requires
        !namespace.contains(':'),
        !(name.len() >= 2 && name[0] == '/' && name[1] == '/'),
    ensures
        split_namespace_name(namespace + seq![':'] + name) == Some((namespace, name)),
{
    let rest = namespace + seq![':'] + name;
    let n = namespace.len() as int;
    assert(rest[n] == ':');
    assert forall|k: int| 0 <= k < n implies rest[k] != ':' by {
        assert(rest[k] == namespace[k]);
        if namespace[k] == ':' {
            assert(namespace.contains(':'));
        }
    }
    if rest.len() > 0 && is_ascii_lower(rest[0]) {
        lemma_scheme_run_end(rest, 1);
        let i = scheme_run_end(rest, 1);
        assert(i <= n) by {
            if i > n {
                assert(is_scheme_char(rest[n]));
            }
        }
        if i < n {
            assert(rest[i] == namespace[i]);
        } else {
            if i + 3 <= rest.len() {
                assert(rest[i + 1] == name[0]);
                assert(rest[i + 2] == name[1]);
            }
        }
    }
    assert(scheme_authority_end(rest) is None);
    lemma_find_char_at(rest, ':', 0, n);
    assert(rest.subrange(0, n) =~= namespace);
    assert(rest.subrange(n + 1, rest.len() as int) =~= name);
}

/// Round trip of a node id whose namespace holds no `:`: parsing
/// `kind:namespace:name` gives back the kind, the namespace and the name,
/// unless a scheme-shaped namespace is followed by a name that begins with
/// `//` (the text then reads as one `scheme://authority`).
pub proof fn lemma_node_id_round_trip_plain(kind: NodeKind, namespace: Seq<char>, name: Seq<char>)
    requires
        !namespace.contains(':'),
        !(name.len() >= 2 && name[0] == '/' && name[1] == '/'),
    ensures
        parse_node_id_spec(node_id_text(kind_word(kind), namespace, name)) == Some(
            (kind, namespace, name),
        ),
{
    let rest = namespace + seq![':'] + name;
    let s = node_id_text(kind_word(kind), namespace, name);
    assert(s =~= kind_word(kind) + seq![':'] + rest);
    lemma_kind_prefix(kind, rest);
    lemma_split_plain(namespace, name);
}

/// `scheme://authority`, with a scheme that starts with a lower-case letter and
/// an authority free of `/` and `:`.
pub open spec fn is_uri_namespace(scheme: Seq<char>, authority: Seq<char>) -> bool {
    &&& scheme.len() > 0
    &&& is_ascii_lower(scheme[0])
    &&& forall|k: int| 0 <= k < scheme.len() ==> is_scheme_char(#[trigger] scheme[k])
    &&& !authority.contains('/')
    &&& !authority.contains(':')
}

pub open spec fn uri_text(scheme: Seq<char>, authority: Seq<char>) -> Seq<char> {
    scheme + seq![':', '/', '/'] + authority
}

/// A `namespace:name` tail whose namespace is a `scheme://authority` URI
/// splits back into the two, whatever `:` the name holds.
pub proof fn lemma_split_uri(scheme: Seq<char>, authority: Seq<char>, name: Seq<char>)
    requires
        is_uri_namespace(scheme, authority),
    ensures
        split_namespace_name(uri_text(scheme, authority) + seq![':'] + name) == Some(
            (uri_text(scheme, authority), name),
        ),
{
    let namespace = uri_text(scheme, authority);
    let rest = namespace + seq![':'] + name;
    let m = scheme.len() as int;
    let n = namespace.len() as int;
    assert forall|k: int| 1 <= k < m implies is_scheme_char(#[trigger] rest[k]) by {
        assert(rest[k] == scheme[k]);
    }
    assert(rest[m] == ':');
    lemma_scheme_run_end_at(rest, 1, m);
    assert(rest[m + 1] == '/' && rest[m + 2] == '/');
    assert forall|k: int| m + 3 <= k < n implies rest[k] != '/' && rest[k] != ':' by {
        assert(rest[k] == authority[k - m - 3]);
        if authority[k - m - 3] == '/' {
            assert(authority.contains('/'));
        }
        if authority[k - m - 3] == ':' {
            assert(authority.contains(':'));
        }
    }
    assert(rest[n] == ':');
    lemma_find_either_at(rest, '/', ':', m + 3, n);
    assert(scheme_authority_end(rest) == Some(n));
    lemma_find_char_at(rest, ':', n, n);
    assert(rest.subrange(0, n) =~= namespace);
    assert(rest.subrange(n + 1, rest.len() as int) =~= name);
}

/// Round trip of a node id whose namespace is a `scheme://authority` URI:
/// the authority stays in the namespace and every `:` of the name survives.
pub proof fn lemma_node_id_round_trip_uri(
    kind: NodeKind,
    scheme: Seq<char>,
    authority: Seq<char>,
    name: Seq<char>,
)
    requires
        is_uri_namespace(scheme, authority),
    ensures
        parse_node_id_spec(node_id_text(kind_word(kind), uri_text(scheme, authority), name))
            == Some((kind, uri_text(scheme, authority), name)),
{
    let namespace = uri_text(scheme, authority);
    let rest = namespace + seq![':'] + name;
    let s = node_id_text(kind_word(kind), namespace, name);
    assert(s =~= kind_word(kind) + seq![':'] + rest);
    lemma_kind_prefix(kind, rest);
    lemma_split_uri(scheme, authority, name);
}

fn is_scheme_char_exec(c: char) -> (r: bool)
    ensures
        r == is_scheme_char(c),
{
    ('a' <= c && c <= 'z') || ('A' <= c && c <= 'Z') || ('0' <= c && c <= '9') || c == '+' || c
        == '-' || c == '.'
}

fn scheme_authority_end_exec(s: &Vec<char>) -> (r: Option<usize>)
    ensures
        r matches Some(e) ==> scheme_authority_end(s@) == Some(e as int),
        r is None ==> scheme_authority_end(s@) is None,
{
    if s.len() == 0 || !('a' <= s[0] && s[0] <= 'z') {
        return None;
    }
    let mut i: usize = 1;
    while i < s.len() && is_scheme_char_exec(s[i])
        invariant
            1 <= i <= s.len(),
            scheme_run_end(s@, 1) == scheme_run_end(s@, i as int),
        decreases s.len() - i,
    {
        i = i + 1;
    }
    assert(scheme_run_end(s@, i as int) == i as int);
    if i < s.len() && s.len() - i >= 3 && s[i] == ':' && s[i + 1] == '/' && s[i + 2] == '/' {
        match find_either_from(s, '/', ':', i + 3) {
            Some(j) => Some(j),
            None => Some(s.len()),
        }
    } else {
        None
    }
}

/// Parse a Marquez `nodeId` of the form `job:<namespace>:<name>` or
/// `dataset:<namespace>:<name>`. A namespace that begins with a URI scheme
/// keeps its `scheme://authority` intact: the namespace/name boundary is the
/// first `:` after the authority. The name may contain further `:`.
pub fn parse_node_id(node_id: &str) -> (r: Option<(NodeKind, String, String)>)
    ensures
        match r {
            Some((k, ns, name)) => parse_node_id_spec(node_id@) == Some((k, ns@, name@)),
            None => parse_node_id_spec(node_id@) is None,
        },
{
    let s = chars_of(node_id);
    let i = match find_char_from(&s, ':', 0) {
        Some(i) => i,
        None => return None,
    };
    proof {
        lemma_find_char_bounds(s@, ':', 0);
    }
    let job = ['j', 'o', 'b'];
    let dataset = ['d', 'a', 't', 'a', 's', 'e', 't'];
    assert(job@ =~= job_word());
    assert(dataset@ =~= dataset_word());
    let kind = if range_is(&s, 0, i, &job) {
        NodeKind::Job
    } else if range_is(&s, 0, i, &dataset) {
        NodeKind::Dataset
    } else {
        return None;
    };
    let rest = string_of_range(&s, i + 1, s.len());
    let rest_chars = chars_of(rest.as_str());
    match split_namespace_name_exec(&rest_chars) {
        Some((ns, name)) => Some((kind, ns, name)),
        None => None,
    }
}

/// Split a `namespace:name` tail as [`split_namespace_name`] does.
pub fn split_namespace_name_exec(rest: &Vec<char>) -> (r: Option<(String, String)>)
    ensures
        match r {
            Some((ns, name)) => split_namespace_name(rest@) == Some((ns@, name@)),
            None => split_namespace_name(rest@) is None,
        },
{
    let from = match scheme_authority_end_exec(rest) {
        Some(e) => e,
        None => 0,
    };
    proof {
        if scheme_authority_end(rest@) is Some {
            let i = scheme_run_end(rest@, 1);
            lemma_scheme_run_end(rest@, 1);
            lemma_find_either_bounds(rest@, '/', ':', i + 3);
        }
    }
    match find_char_from(rest, ':', from) {
        Some(b) => {
            proof {
                lemma_find_char_bounds(rest@, ':', from as int);
                assert(b < rest.len());
            }
            let ns = string_of_range(rest, 0, b);
            let name = string_of_range(rest, b + 1, rest.len());
            Some((ns, name))
        },
        None => None,
    }
}

} // verus!
