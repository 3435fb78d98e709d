//! Per-statement OpenLineage job identity: the job name a client pins with
//! `x-openlineage-job-name`, or `query-<12 hex>` from an FNV-1a hash of the
//! whitespace-normalized SQL.

use vstd::prelude::*;

use crate::strmap::{lookup, StringMap};
use crate::text::{
    chars_of, copy_opt, hex_fixed, hex_text, non_empty, opt_view, owned, push_char, split_char, split_once_char,
    split_once_seq, split_seq, trim, trim_seq,
};

verus! {

/// Metadata key pinning the statement's job name.
pub const JOB_NAME: &'static str = "x-openlineage-job-name";

/// ASCII whitespace: space, tab, line feed, form feed, carriage return.
pub open spec fn is_ascii_ws(c: char) -> bool {
    c == ' ' || c == '\t' || c == '\n' || c == '\x0C' || c == '\r'
}

/// The words found so far and the word being read, scanning `s` left to
/// right.
pub open spec fn words_scan(s: Seq<char>) -> (Seq<Seq<char>>, Seq<char>)
    decreases s.len(),
{
    if s.len() == 0 {
        (Seq::empty(), Seq::empty())
    } else {
        let (ws, cur) = words_scan(s.drop_last());
        let c = s.last();
        if is_ascii_ws(c) {
            if cur.len() > 0 {
                (ws.push(cur), Seq::empty())
            } else {
                (ws, Seq::empty())
            }
        } else {
            (ws, cur.push(c))
        }
    }
}

/// The maximal runs of non-whitespace characters of `s`, in order.
pub open spec fn words(s: Seq<char>) -> Seq<Seq<char>> {
    let (ws, cur) = words_scan(s);
    if cur.len() > 0 {
        ws.push(cur)
    } else {
        ws
    }
}

/// Words joined by single spaces.
pub open spec fn join_spaces(ws: Seq<Seq<char>>) -> Seq<char>
    decreases ws.len(),
{
    if ws.len() == 0 {
        Seq::empty()
    } else if ws.len() == 1 {
        ws[0]
    } else {
        join_spaces(ws.drop_last()) + seq![' '] + ws.last()
    }
}

/// `s` with runs of ASCII whitespace collapsed to one space and the ends
/// trimmed.
pub open spec fn normalized(s: Seq<char>) -> Seq<char> {
    join_spaces(words(s))
}

/// Collapse runs of ASCII whitespace to a single space and trim the ends.
pub fn normalize_whitespace(s: &str) -> (r: String)
    ensures
        r@ == normalized(s@),
{
    let cs = chars_of(s);
    let mut out = String::new();
    let mut cur = String::new();
    let mut nwords: usize = 0;
    let ghost mut ws: Seq<Seq<char>> = Seq::empty();
    let mut i: usize = 0;
    while i < cs.len()
        invariant
            i <= cs.len(),
            cs@ == s@,
            words_scan(s@.take(i as int)) == (ws, cur@),
            out@ == join_spaces(ws),
            nwords == ws.len(),
            nwords <= i,
        decreases cs.len() - i,
    {
        let c = cs[i];
        assert(s@.take(i + 1).drop_last() =~= s@.take(i as int));
        assert(s@.take(i + 1).last() == c);
        if c == ' ' || c == '\t' || c == '\n' || c == '\x0C' || c == '\r' {
            if !cur.as_str().is_empty() {
                if nwords > 0 {
                    push_char(&mut out, ' ');
                }
                out.append(cur.as_str());
                proof {
                    let w2 = ws.push(cur@);
                    assert(w2.drop_last() =~= ws);
                    if ws.len() == 0 {
                        assert(out@ =~= join_spaces(w2));
                    } else {
                        assert(out@ =~= join_spaces(w2));
                    }
                    ws = w2;
                }
                nwords = nwords + 1;
                cur = String::new();
            } else {
                proof {
                    assert(cur@ =~= Seq::<char>::empty());
                }
                cur = String::new();
            }
        } else {
            push_char(&mut cur, c);
        }
        i = i + 1;
    }
    assert(s@.take(i as int) =~= s@);
    if !cur.as_str().is_empty() {
        if nwords > 0 {
            push_char(&mut out, ' ');
        }
        out.append(cur.as_str());
        proof {
            let w2 = ws.push(cur@);
            assert(w2.drop_last() =~= ws);
            assert(out@ =~= join_spaces(w2));
        }
    } else {
        proof {
            assert(cur@ =~= Seq::<char>::empty());
        }
    }
    out
}

pub open spec fn fnv_offset_basis() -> u64 {
    0xcbf2_9ce4_8422_2325
}

pub open spec fn fnv_prime() -> u64 {
    0x0000_0100_0000_01b3
}

/// 64-bit FNV-1a over `bytes`: from the offset basis, each byte is xored in
/// and the state multiplied by the prime, modulo 2^64.
pub open spec fn fnv1a_spec(bytes: Seq<u8>) -> u64
    decreases bytes.len(),
{
    if bytes.len() == 0 {
        fnv_offset_basis()
    } else {
        (fnv1a_spec(bytes.drop_last()) ^ (bytes.last() as u64)).wrapping_mul(fnv_prime())
    }
}

/// 64-bit FNV-1a, deterministic across processes and releases.
pub fn fnv1a_64(bytes: &[u8]) -> (h: u64)
    ensures
        h == fnv1a_spec(bytes@),
{
    let mut hash: u64 = 0xcbf2_9ce4_8422_2325;
    let mut i: usize = 0;
    while i < bytes.len()
        invariant
            i <= bytes.len(),
            hash == fnv1a_spec(bytes@.take(i as int)),
        decreases bytes.len() - i,
    {
        assert(bytes@.take(i + 1).drop_last() =~= bytes@.take(i as int));
        hash = hash ^ (bytes[i] as u64);
        hash = hash.wrapping_mul(0x0000_0100_0000_01b3);
        i = i + 1;
    }
    assert(bytes@.take(i as int) =~= bytes@);
    hash
}

/// `query-` and the first 12 of the 16 hex digits of the FNV-1a hash of the
/// normalized SQL's UTF-8 bytes.
pub open spec fn sql_job_name(sql: Seq<char>) -> Seq<char> {
    "query-"@ + hex_text(fnv1a_spec(vstd::utf8::encode_utf8(normalized(sql))) as nat, 16).take(12)
}

/// A stable job name for the SQL text: `query-<12 hex>`.
pub fn job_name_from_sql(sql: &str) -> (r: String)
    ensures
        r@ == sql_job_name(sql@),
{
    let normalized = normalize_whitespace(sql);
    let hash = fnv1a_64(normalized.as_str().as_bytes());
    let digits = hex_fixed(hash, 16);
    let mut out = owned("query-");
    let mut i: usize = 0;
    while i < 12
        invariant
            i <= 12,
            digits@.len() == 16,
            out@ == "query-"@ + digits@.take(i as int),
        decreases 12 - i,
    {
        push_char(&mut out, digits[i]);
        i = i + 1;
        assert(out@ =~= "query-"@ + digits@.take(i as int));
    }
    out
}

/// The job name of a statement: the trimmed, non-empty
/// `x-openlineage-job-name` metadata value, else the SQL hash name.
pub open spec fn statement_job_name(meta: Seq<(Seq<char>, Seq<char>)>, sql: Seq<char>) -> Seq<char> {
    match crate::strmap::lookup(meta, JOB_NAME@) {
        Some(v) if crate::text::trim_seq(v).len() > 0 => crate::text::trim_seq(v),
        _ => sql_job_name(sql),
    }
}

/// Derive the per-statement job name from request metadata and the SQL.
pub fn job_name_from_metadata(meta: &StringMap, sql: &str) -> (r: String)
    ensures
        r@ == statement_job_name(meta@, sql@),
{
    match meta.get(JOB_NAME) {
        Some(v) => {
            let t = crate::text::trim(v.as_str());
            if !t.as_str().is_empty() {
                t
            } else {
                job_name_from_sql(sql)
            }
        },
        None => job_name_from_sql(sql),
    }
}

/// Metadata key: the statement's job namespace override.
pub const JOB_NAMESPACE: &'static str = "x-openlineage-job-namespace";

/// Metadata key: free-text job description (`documentation` facet).
pub const JOB_DESCRIPTION: &'static str = "x-openlineage-job-description";

/// Metadata key: `;`-separated `key[:value[:source]]` job tags.
pub const JOB_TAGS: &'static str = "x-openlineage-job-tags";

/// Metadata key: `;`-separated `type:name` job owners.
pub const JOB_OWNERS: &'static str = "x-openlineage-job-owners";

/// One job tag.
#[derive(Debug)]
pub struct TagEntry {
    pub key: String,
    pub value: Option<String>,
    pub source: Option<String>,
}

/// One job owner; a bare name has no type.
#[derive(Debug)]
pub struct Owner {
    pub name: String,
    pub type_: Option<String>,
}

/// Client-supplied job metadata: the `documentation`, `tags` and
/// `ownership` job facets, each present when it has content, all stamped with
/// the producer of the OpenLineage configuration.
#[derive(Debug)]
pub struct JobFacets {
    pub producer: String,
    pub description: Option<String>,
    pub tags: Vec<TagEntry>,
    pub owners: Vec<Owner>,
}

/// The base every OpenLineage facet carries: its `_producer` and the
/// versioned schema file its `_schemaURL` names.
#[derive(Debug)]
pub struct FacetBase {
    pub producer: String,
    pub schema: String,
}

/// `1-1-0/DocumentationJobFacet.json`
pub const DOCUMENTATION_FACET_SCHEMA: &'static str = "1-1-0/DocumentationJobFacet.json";

/// `1-0-0/TagsJobFacet.json`
pub const TAGS_FACET_SCHEMA: &'static str = "1-0-0/TagsJobFacet.json";

/// `1-0-1/OwnershipJobFacet.json`
pub const OWNERSHIP_FACET_SCHEMA: &'static str = "1-0-1/OwnershipJobFacet.json";

/// The facets `f` holds, in the order documentation, tags, ownership: each
/// by its name in the job's facet map, its producer and its schema file.
pub open spec fn facet_entries(f: JobFacets) -> Seq<(Seq<char>, Seq<char>, Seq<char>)> {
    let d: Seq<(Seq<char>, Seq<char>, Seq<char>)> = if f.description is Some {
        seq![("documentation"@, f.producer@, DOCUMENTATION_FACET_SCHEMA@)]
    } else {
        Seq::empty()
    };
    let t: Seq<(Seq<char>, Seq<char>, Seq<char>)> = if f.tags@.len() > 0 {
        seq![("tags"@, f.producer@, TAGS_FACET_SCHEMA@)]
    } else {
        Seq::empty()
    };
    let o: Seq<(Seq<char>, Seq<char>, Seq<char>)> = if f.owners@.len() > 0 {
        seq![("ownership"@, f.producer@, OWNERSHIP_FACET_SCHEMA@)]
    } else {
        Seq::empty()
    };
    d + t + o
}

impl JobFacets {
    /// The facets this metadata makes, keyed by name, each with its base.
    pub fn facet_bases(&self) -> (r: Vec<(String, FacetBase)>)
        ensures
            r@.map_values(|e: (String, FacetBase)| (e.0@, e.1.producer@, e.1.schema@)) == facet_entries(*self),
    {
        let mut r: Vec<(String, FacetBase)> = Vec::new();
        if self.description.is_some() {
            r.push((owned("documentation"), FacetBase {
                producer: self.producer.clone(),
                schema: owned(DOCUMENTATION_FACET_SCHEMA),
            }));
        }
        if self.tags.len() > 0 {
            r.push((owned("tags"), FacetBase { producer: self.producer.clone(), schema: owned(TAGS_FACET_SCHEMA) }));
        }
        if self.owners.len() > 0 {
            r.push((owned("ownership"), FacetBase {
                producer: self.producer.clone(),
                schema: owned(OWNERSHIP_FACET_SCHEMA),
            }));
        }
        assert(r@.map_values(|e: (String, FacetBase)| (e.0@, e.1.producer@, e.1.schema@)) =~= facet_entries(*self));
        r
    }
}

/// The trimmed value of `key`, when present and not blank.
pub open spec fn trimmed_value(meta: Seq<(Seq<char>, Seq<char>)>, key: Seq<char>) -> Option<Seq<char>> {
    match lookup(meta, key) {
        Some(v) => non_empty(trim_seq(v)),
        None => None,
    }
}

/// A `key[:value[:source]]` entry: its trimmed key (entries with a blank key
/// are skipped), and its trimmed value and source when not blank.
pub open spec fn parse_tag(e: Seq<char>) -> Option<(Seq<char>, Option<Seq<char>>, Option<Seq<char>>)> {
    let (k, rest) = match split_once_seq(e, ':') {
        Some((a, b)) => (a, Some(b)),
        None => (e, None),
    };
    if trim_seq(k).len() == 0 {
        None
    } else {
        let (value, source) = match rest {
            None => (None, None),
            Some(r) => match split_once_seq(r, ':') {
                Some((a, b)) => (non_empty(trim_seq(a)), non_empty(trim_seq(b))),
                None => (non_empty(trim_seq(r)), None),
            },
        };
        Some((trim_seq(k), value, source))
    }
}

/// A `type:name` entry (a bare `name` has no type): entries with a blank
/// first part are skipped; a blank name makes the first part the name.
pub open spec fn parse_owner(e: Seq<char>) -> Option<(Seq<char>, Option<Seq<char>>)> {
    let (first, rest) = match split_once_seq(e, ':') {
        Some((a, b)) => (trim_seq(a), Some(trim_seq(b))),
        None => (trim_seq(e), None),
    };
    if first.len() == 0 {
        None
    } else {
        match rest {
            Some(n) if n.len() > 0 => Some((n, Some(first))),
            _ => Some((first, None)),
        }
    }
}

/// The parsed tags of the entries, in order, skipping unparsable ones.
pub open spec fn tag_list(entries: Seq<Seq<char>>) -> Seq<(Seq<char>, Option<Seq<char>>, Option<Seq<char>>)>
    decreases entries.len(),
{
    if entries.len() == 0 {
        Seq::empty()
    } else {
        match parse_tag(entries.last()) {
            Some(t) => tag_list(entries.drop_last()).push(t),
            None => tag_list(entries.drop_last()),
        }
    }
}

/// The parsed owners of the entries, in order, skipping unparsable ones.
pub open spec fn owner_list(entries: Seq<Seq<char>>) -> Seq<(Seq<char>, Option<Seq<char>>)>
    decreases entries.len(),
{
    if entries.len() == 0 {
        Seq::empty()
    } else {
        match parse_owner(entries.last()) {
            Some(o) => owner_list(entries.drop_last()).push(o),
            None => owner_list(entries.drop_last()),
        }
    }
}

pub open spec fn tag_view(t: TagEntry) -> (Seq<char>, Option<Seq<char>>, Option<Seq<char>>) {
    (t.key@, opt_view(t.value), opt_view(t.source))
}

pub open spec fn owner_view(o: Owner) -> (Seq<char>, Option<Seq<char>>) {
    (o.name@, opt_view(o.type_))
}

/// The job facets the metadata `meta` asks for, stamped with `producer`.
pub open spec fn job_facets_of(f: JobFacets, meta: Seq<(Seq<char>, Seq<char>)>, producer: Seq<char>) -> bool {
    &&& f.producer@ == producer
    &&& opt_view(f.description) == trimmed_value(meta, JOB_DESCRIPTION@)
    &&& f.tags@.map_values(|t: TagEntry| tag_view(t)) == match trimmed_value(meta, JOB_TAGS@) {
        Some(raw) => tag_list(split_seq(raw, ';')),
        None => Seq::empty(),
    }
    &&& f.owners@.map_values(|o: Owner| owner_view(o)) == match trimmed_value(meta, JOB_OWNERS@) {
        Some(raw) => owner_list(split_seq(raw, ';')),
        None => Seq::empty(),
    }
}

fn non_empty_string(s: String) -> (r: Option<String>)
    ensures
        opt_view(r) == non_empty(s@),
{
    if s.as_str().is_empty() {
        None
    } else {
        Some(s)
    }
}

fn trimmed_meta(meta: &StringMap, key: &str) -> (r: Option<String>)
    ensures
        opt_view(r) == trimmed_value(meta@, key@),
{
    match meta.get(key) {
        Some(v) => non_empty_string(trim(v.as_str())),
        None => None,
    }
}

/// Parse one `key[:value[:source]]` tag entry.
pub fn parse_tag_entry(e: &str) -> (r: Option<TagEntry>)
    ensures
        match r {
            Some(t) => parse_tag(e@) == Some(tag_view(t)),
            None => parse_tag(e@) is None,
        },
{
    let (k, rest) = match split_once_char(e, ':') {
        Some((a, b)) => (a, Some(b)),
        None => (owned(e), None),
    };
    let key = trim(k.as_str());
    if key.as_str().is_empty() {
        return None;
    }
    let (value, source) = match rest {
        None => (None, None),
        Some(r) => match split_once_char(r.as_str(), ':') {
            Some((a, b)) => (non_empty_string(trim(a.as_str())), non_empty_string(trim(b.as_str()))),
            None => (non_empty_string(trim(r.as_str())), None),
        },
    };
    Some(TagEntry { key, value, source })
}

/// Parse one `type:name` owner entry.
pub fn parse_owner_entry(e: &str) -> (r: Option<Owner>)
    ensures
        match r {
            Some(o) => parse_owner(e@) == Some(owner_view(o)),
            None => parse_owner(e@) is None,
        },
{
    let (first, rest) = match split_once_char(e, ':') {
        Some((a, b)) => (trim(a.as_str()), Some(trim(b.as_str()))),
        None => (trim(e), None),
    };
    if first.as_str().is_empty() {
        return None;
    }
    match rest {
        Some(n) => {
            if n.as_str().is_empty() {
                Some(Owner { name: first, type_: None })
            } else {
                Some(Owner { name: n, type_: Some(first) })
            }
        },
        None => Some(Owner { name: first, type_: None }),
    }
}

/// Parse client-supplied job metadata: a description, `;`-separated tags and
/// `;`-separated owners; malformed entries are skipped, never an error.
pub fn job_facets_from_metadata(meta: &StringMap, producer: &str) -> (f: JobFacets)
    ensures
        job_facets_of(f, meta@, producer@),
{
    let description = trimmed_meta(meta, JOB_DESCRIPTION);
    let mut tags: Vec<TagEntry> = Vec::new();
    match trimmed_meta(meta, JOB_TAGS) {
        Some(raw) => {
            let entries = split_char(raw.as_str(), ';');
            let ghost ev = entries@.map_values(|x: String| x@);
            let mut i: usize = 0;
            while i < entries.len()
                invariant
                    i <= entries.len(),
                    ev == entries@.map_values(|x: String| x@),
                    tags@.map_values(|t: TagEntry| tag_view(t)) == tag_list(ev.take(i as int)),
                decreases entries.len() - i,
            {
                assert(ev.take(i + 1).drop_last() =~= ev.take(i as int));
                assert(ev.take(i + 1).last() == entries@[i as int]@);
                let ghost t0 = tags@.map_values(|t: TagEntry| tag_view(t));
                match parse_tag_entry(entries[i].as_str()) {
                    Some(t) => {
                        tags.push(t);
                        assert(tags@.map_values(|t: TagEntry| tag_view(t)) =~= t0.push(
                            tag_view(tags@[tags@.len() - 1]),
                        ));
                    },
                    None => {},
                }
                i = i + 1;
            }
            assert(ev.take(i as int) =~= ev);
        },
        None => {
            assert(tags@.map_values(|t: TagEntry| tag_view(t)) =~= Seq::empty());
        },
    }
    let mut owners: Vec<Owner> = Vec::new();
    match trimmed_meta(meta, JOB_OWNERS) {
        Some(raw) => {
            let entries = split_char(raw.as_str(), ';');
            let ghost ev = entries@.map_values(|x: String| x@);
            let mut i: usize = 0;
            while i < entries.len()
                invariant
                    i <= entries.len(),
                    ev == entries@.map_values(|x: String| x@),
                    owners@.map_values(|o: Owner| owner_view(o)) == owner_list(ev.take(i as int)),
                decreases entries.len() - i,
            {
                assert(ev.take(i + 1).drop_last() =~= ev.take(i as int));
                assert(ev.take(i + 1).last() == entries@[i as int]@);
                let ghost o0 = owners@.map_values(|o: Owner| owner_view(o));
                match parse_owner_entry(entries[i].as_str()) {
                    Some(o) => {
                        owners.push(o);
                        assert(owners@.map_values(|o: Owner| owner_view(o)) =~= o0.push(
                            owner_view(owners@[owners@.len() - 1]),
                        ));
                    },
                    None => {},
                }
                i = i + 1;
            }
            assert(ev.take(i as int) =~= ev);
        },
        None => {
            assert(owners@.map_values(|o: Owner| owner_view(o)) =~= Seq::empty());
        },
    }
    JobFacets { producer: owned(producer), description, tags, owners }
}

/// Metadata keys of a client's parent run (all three needed).
pub const PARENT_RUN_ID: &'static str = "x-openlineage-parent-run-id";

pub const PARENT_JOB_NAMESPACE: &'static str = "x-openlineage-parent-job-namespace";

pub const PARENT_JOB_NAME: &'static str = "x-openlineage-parent-job-name";

/// Metadata keys of the orchestration root run (all three needed).
pub const ROOT_PARENT_RUN_ID: &'static str = "x-openlineage-root-parent-run-id";

pub const ROOT_PARENT_JOB_NAMESPACE: &'static str = "x-openlineage-root-parent-job-namespace";

pub const ROOT_PARENT_JOB_NAME: &'static str = "x-openlineage-root-parent-job-name";

/// The job a parent run belongs to.
#[derive(Debug)]
pub struct ParentJob {
    pub namespace: String,
    pub name: String,
}

/// The root of a run's orchestration chain.
#[derive(Debug)]
pub struct RootParent {
    pub run_id: String,
    pub job: ParentJob,
}

/// The `parent` run facet: the producer it is stamped with, the parent run,
/// its job, and the chain's root.
#[derive(Debug)]
pub struct ParentRunFacet {
    pub producer: String,
    pub run_id: String,
    pub job: ParentJob,
    pub root: Option<RootParent>,
}

/// `1-0-0/ParentRunFacet.json`
pub const PARENT_RUN_FACET_SCHEMA: &'static str = "1-0-0/ParentRunFacet.json";

impl ParentRunFacet {
    /// The facet's base: its producer and schema file.
    pub fn base(&self) -> (r: FacetBase)
        ensures
            r.producer@ == self.producer@,
            r.schema@ == PARENT_RUN_FACET_SCHEMA@,
    {
        FacetBase { producer: self.producer.clone(), schema: owned(PARENT_RUN_FACET_SCHEMA) }
    }
}

/// The producer a context's parent facet is stamped with, if it has one.
pub open spec fn parent_producer(p: Option<ParentRunFacet>) -> Option<Seq<char>> {
    match p {
        Some(f) => Some(f.producer@),
        None => None,
    }
}

/// The per-statement lineage context: its run, job identity overrides,
/// parent run and client-supplied job facets.
#[derive(Debug)]
pub struct LineageContext {
    pub run_id: Option<String>,
    pub job_name: Option<String>,
    pub job_namespace: Option<String>,
    pub parent_run: Option<ParentRunFacet>,
    pub job_facets: JobFacets,
    /// The statement's SQL text.
    pub sql: Option<String>,
}

pub open spec fn root_view(r: RootParent) -> (Seq<char>, Seq<char>, Seq<char>) {
    (r.run_id@, r.job.namespace@, r.job.name@)
}

pub open spec fn parent_view(p: ParentRunFacet) -> (Seq<char>, Seq<char>, Seq<char>, Option<
    (Seq<char>, Seq<char>, Seq<char>),
>) {
    (
        p.run_id@,
        p.job.namespace@,
        p.job.name@,
        match p.root {
            Some(r) => Some(root_view(r)),
            None => None,
        },
    )
}

pub open spec fn opt_parent_view(p: Option<ParentRunFacet>) -> Option<
    (Seq<char>, Seq<char>, Seq<char>, Option<(Seq<char>, Seq<char>, Seq<char>)>),
> {
    match p {
        Some(x) => Some(parent_view(x)),
        None => None,
    }
}

/// Three metadata values, when all are present.
pub open spec fn triple(
    meta: Seq<(Seq<char>, Seq<char>)>,
    a: Seq<char>,
    b: Seq<char>,
    c: Seq<char>,
) -> Option<(Seq<char>, Seq<char>, Seq<char>)> {
    match (lookup(meta, a), lookup(meta, b), lookup(meta, c)) {
        (Some(x), Some(y), Some(z)) => Some((x, y, z)),
        _ => None,
    }
}

/// The parent run a request names: present only when its run id, job
/// namespace and job name all are; likewise its root.
pub open spec fn parent_of_meta(meta: Seq<(Seq<char>, Seq<char>)>) -> Option<
    (Seq<char>, Seq<char>, Seq<char>, Option<(Seq<char>, Seq<char>, Seq<char>)>),
> {
    match triple(meta, PARENT_RUN_ID@, PARENT_JOB_NAMESPACE@, PARENT_JOB_NAME@) {
        Some((r, ns, n)) => Some(
            (r, ns, n, triple(meta, ROOT_PARENT_RUN_ID@, ROOT_PARENT_JOB_NAMESPACE@, ROOT_PARENT_JOB_NAME@)),
        ),
        None => None,
    }
}

/// The lineage context a request's metadata carries.
pub open spec fn request_context(c: LineageContext, meta: Seq<(Seq<char>, Seq<char>)>, producer: Seq<char>) -> bool {
    &&& c.run_id is None
    &&& c.job_name is None
    &&& c.sql is None
    &&& carries_metadata(c, meta, producer)
}

/// The namespace override, parent run and job facets of `c` are those the
/// metadata carries, its facets stamped with `producer`.
pub open spec fn carries_metadata(c: LineageContext, meta: Seq<(Seq<char>, Seq<char>)>, producer: Seq<char>) -> bool {
    &&& opt_view(c.job_namespace) == match lookup(meta, JOB_NAMESPACE@) {
        Some(ns) => if trim_seq(ns).len() > 0 {
            Some(ns)
        } else {
            None
        },
        None => None,
    }
    &&& opt_parent_view(c.parent_run) == parent_of_meta(meta)
    &&& (c.parent_run matches Some(p) ==> p.producer@ == producer)
    &&& job_facets_of(c.job_facets, meta, producer)
}

/// Parse the parent-run context, job namespace override and job facets from
/// request metadata; job facets are stamped with the configured `producer`.
pub fn context_from_metadata(meta: &StringMap, producer: &str) -> (c: LineageContext)
    ensures
        request_context(c, meta@, producer@),
{
    let parent_run = match (meta.get(PARENT_RUN_ID), meta.get(PARENT_JOB_NAMESPACE), meta.get(PARENT_JOB_NAME)) {
        (Some(run_id), Some(namespace), Some(name)) => {
            let root = match (
                meta.get(ROOT_PARENT_RUN_ID),
                meta.get(ROOT_PARENT_JOB_NAMESPACE),
                meta.get(ROOT_PARENT_JOB_NAME),
            ) {
                (Some(r_run), Some(r_ns), Some(r_name)) => Some(
                    RootParent { run_id: r_run, job: ParentJob { namespace: r_ns, name: r_name } },
                ),
                _ => None,
            };
            Some(ParentRunFacet { producer: owned(producer), run_id, job: ParentJob { namespace, name }, root })
        },
        _ => None,
    };
    let job_namespace = match meta.get(JOB_NAMESPACE) {
        Some(ns) => {
            let t = trim(ns.as_str());
            if t.as_str().is_empty() {
                None
            } else {
                Some(ns)
            }
        },
        None => None,
    };
    LineageContext {
        run_id: None,
        job_name: None,
        job_namespace,
        parent_run,
        job_facets: job_facets_from_metadata(meta, producer),
        sql: None,
    }
}

fn copy_tag(t: &TagEntry) -> (c: TagEntry)
    ensures
        c == *t,
{
    TagEntry { key: t.key.clone(), value: copy_opt(&t.value), source: copy_opt(&t.source) }
}

fn copy_owner(o: &Owner) -> (c: Owner)
    ensures
        c == *o,
{
    Owner { name: o.name.clone(), type_: copy_opt(&o.type_) }
}

fn copy_facets(f: &JobFacets) -> (c: JobFacets)
    ensures
        c.producer@ == f.producer@,
        c.description == f.description,
        c.tags@ == f.tags@,
        c.owners@ == f.owners@,
{
    let mut tags: Vec<TagEntry> = Vec::new();
    let mut i: usize = 0;
    while i < f.tags.len()
        invariant
            i <= f.tags.len(),
            tags@ == f.tags@.take(i as int),
        decreases f.tags.len() - i,
    {
        tags.push(copy_tag(&f.tags[i]));
        i = i + 1;
        assert(tags@ =~= f.tags@.take(i as int));
    }
    assert(f.tags@.take(i as int) =~= f.tags@);
    let mut owners: Vec<Owner> = Vec::new();
    let mut i: usize = 0;
    while i < f.owners.len()
        invariant
            i <= f.owners.len(),
            owners@ == f.owners@.take(i as int),
        decreases f.owners.len() - i,
    {
        owners.push(copy_owner(&f.owners[i]));
        i = i + 1;
        assert(owners@ =~= f.owners@.take(i as int));
    }
    assert(f.owners@.take(i as int) =~= f.owners@);
    JobFacets { producer: f.producer.clone(), description: copy_opt(&f.description), tags, owners }
}

/// The lineage context of one request: what its metadata carries, the pinned
/// run id, and for a statement its job name (see [`job_name_from_metadata`])
/// and SQL text.
pub fn request_lineage_context(meta: &StringMap, producer: &str, run_id: String, sql: Option<&str>) -> (c:
    LineageContext)
    ensures
        carries_metadata(c, meta@, producer@),
        c.run_id matches Some(r) && r@ == run_id@,
        match sql {
            Some(s) => (c.job_name matches Some(n) && n@ == statement_job_name(meta@, s@)) && (
            c.sql matches Some(t) && t@ == s@),
            None => c.job_name is None && c.sql is None,
        },
{
    let mut c = context_from_metadata(meta, producer);
    c.run_id = Some(run_id);
    match sql {
        Some(s) => {
            c.job_name = Some(job_name_from_metadata(meta, s));
            c.sql = Some(owned(s));
        },
        None => {},
    }
    c
}

/// The parent facet of one execution: the planning run under the
/// statement's job (the configured namespace and `datafusion_query` when
/// the statement names none), with the planning context's own parent, if
/// any, promoted to the root.
pub open spec fn execution_parent(planning: LineageContext, default_namespace: Seq<char>) -> Option<
    (Seq<char>, Seq<char>, Seq<char>, Option<(Seq<char>, Seq<char>, Seq<char>)>),
> {
    match planning.run_id {
        None => opt_parent_view(planning.parent_run),
        Some(run) => Some(
            (
                run@,
                match planning.job_namespace {
                    Some(ns) => ns@,
                    None => default_namespace,
                },
                match planning.job_name {
                    Some(n) => n@,
                    None => "datafusion_query"@,
                },
                match planning.parent_run {
                    Some(p) => Some((p.run_id@, p.job.namespace@, p.job.name@)),
                    None => None,
                },
            ),
        ),
    }
}

/// The context of one execution of a statement planned under `planning`,
/// with the fresh run id `run_id`: job identity and facets carry over; the
/// planning run becomes the parent, its facet stamped with `producer`.
pub fn execution_context_with(
    planning: &LineageContext,
    default_namespace: &str,
    producer: &str,
    run_id: String,
) -> (c: LineageContext)
    ensures
        parent_producer(c.parent_run) == if planning.run_id is Some {
            Some(producer@)
        } else {
            parent_producer(planning.parent_run)
        },
        opt_view(c.run_id) == Some(run_id@),
        c.sql == planning.sql,
        c.job_name == planning.job_name,
        c.job_namespace == planning.job_namespace,
        c.job_facets.producer@ == planning.job_facets.producer@,
        c.job_facets.description == planning.job_facets.description,
        c.job_facets.tags@ == planning.job_facets.tags@,
        c.job_facets.owners@ == planning.job_facets.owners@,
        opt_parent_view(c.parent_run) == execution_parent(*planning, default_namespace@),
{
    let parent_run = match &planning.run_id {
        None => match &planning.parent_run {
            Some(p) => Some(
                ParentRunFacet {
                    producer: p.producer.clone(),
                    run_id: p.run_id.clone(),
                    job: ParentJob { namespace: p.job.namespace.clone(), name: p.job.name.clone() },
                    root: match &p.root {
                        Some(r) => Some(
                            RootParent {
                                run_id: r.run_id.clone(),
                                job: ParentJob {
                                    namespace: r.job.namespace.clone(),
                                    name: r.job.name.clone(),
                                },
                            },
                        ),
                        None => None,
                    },
                },
            ),
            None => None,
        },
        Some(planning_run) => {
            let namespace = match &planning.job_namespace {
                Some(ns) => ns.clone(),
                None => owned(default_namespace),
            };
            let name = match &planning.job_name {
                Some(n) => n.clone(),
                None => owned("datafusion_query"),
            };
            let root = match &planning.parent_run {
                Some(p) => Some(
                    RootParent {
                        run_id: p.run_id.clone(),
                        job: ParentJob { namespace: p.job.namespace.clone(), name: p.job.name.clone() },
                    },
                ),
                None => None,
            };
            Some(
                ParentRunFacet {
                    producer: owned(producer),
                    run_id: planning_run.clone(),
                    job: ParentJob { namespace, name },
                    root,
                },
            )
        },
    };
    LineageContext {
        run_id: Some(run_id),
        job_name: copy_opt(&planning.job_name),
        job_namespace: copy_opt(&planning.job_namespace),
        parent_run,
        job_facets: copy_facets(&planning.job_facets),
        sql: copy_opt(&planning.sql),
    }
}

/// A fresh, time-ordered run id: uuid's `Uuid::now_v7()`, whose `Display`
/// writes the hyphenated lowercase form with version digit `7`. Nothing is
/// promised of the digits beyond that form: they depend on the clock and on
/// chance.
#[verifier::external_body]
pub(crate) fn new_run_id() -> (r: String)
    ensures
        crate::text::is_uuid_text(r@, '7'),
{
    uuid::Uuid::now_v7().to_string()
}

/// The context of one execution of a planned statement, with a freshly
/// minted run id (see [`execution_context_with`]).
pub fn execution_context(planning: &LineageContext, default_namespace: &str, producer: &str) -> (c:
    LineageContext)
    ensures
        parent_producer(c.parent_run) == if planning.run_id is Some {
            Some(producer@)
        } else {
            parent_producer(planning.parent_run)
        },
        c.run_id matches Some(r) && crate::text::is_uuid_text(r@, '7'),
        c.sql == planning.sql,
        c.job_name == planning.job_name,
        c.job_facets.producer@ == planning.job_facets.producer@,
        c.job_facets.description == planning.job_facets.description,
        c.job_facets.tags@ == planning.job_facets.tags@,
        c.job_facets.owners@ == planning.job_facets.owners@,
        c.job_namespace == planning.job_namespace,
        opt_parent_view(c.parent_run) == execution_parent(*planning, default_namespace@),
{
    execution_context_with(planning, default_namespace, producer, new_run_id())
}

/// The `hydrofoil` run facet: the producer, its schema URL, the principal
/// unless anonymous, and the agent context.
#[derive(Debug)]
pub struct RunFacet {
    pub producer: String,
    pub schema_url: String,
    pub principal: Option<String>,
    pub agent: Option<crate::agent::AgentContext>,
}

/// The principal a run facet names: any but the anonymous default.
pub open spec fn known_principal(principal: Option<Seq<char>>) -> Option<Seq<char>> {
    match principal {
        Some(p) => if p == crate::identity::DEFAULT_PRINCIPAL@ {
            None
        } else {
            Some(p)
        },
        None => None,
    }
}

fn copy_agent(a: &crate::agent::AgentContext) -> (c: crate::agent::AgentContext)
    ensures
        c == *a,
{
    crate::agent::AgentContext {
        agent_id: copy_opt(&a.agent_id),
        agent_session: copy_opt(&a.agent_session),
        task: copy_opt(&a.task),
        purpose: copy_opt(&a.purpose),
    }
}

/// The run facet carrying the query's governance context; none for the
/// anonymous principal without agent context.
pub fn hydrofoil_run_facet(
    principal: Option<&str>,
    agent: Option<&crate::agent::AgentContext>,
    producer: &str,
) -> (r: Option<RunFacet>)
    ensures
        ({
            let p = known_principal(
                match principal {
                    Some(s) => Some(s@),
                    None => None,
                },
            );
            match r {
                None => p is None && agent is None,
                Some(f) => {
                    &&& (p is Some || agent is Some)
                    &&& f.producer@ == producer@
                    &&& f.schema_url@ == producer@ + "/spec/facets/1-0-0/HydrofoilRunFacet.json"@
                    &&& opt_view(f.principal) == p
                    &&& f.agent == match agent {
                        Some(a) => Some(*a),
                        None => None,
                    }
                },
            }
        }),
{
    let p = match principal {
        Some(s) => {
            if crate::strmap::str_eq(s, crate::identity::DEFAULT_PRINCIPAL) {
                None
            } else {
                Some(owned(s))
            }
        },
        None => None,
    };
    if p.is_none() && agent.is_none() {
        return None;
    }
    let mut schema_url = owned(producer);
    schema_url.append("/spec/facets/1-0-0/HydrofoilRunFacet.json");
    Some(
        RunFacet {
            producer: owned(producer),
            schema_url,
            principal: p,
            agent: match agent {
                Some(a) => Some(copy_agent(a)),
                None => None,
            },
        },
    )
}

/// A statement's job name depends on its SQL only through the normalized
/// text: spellings that differ only in whitespace name the same job.
pub proof fn lemma_job_name_whitespace_insensitive(a: Seq<char>, b: Seq<char>)
    requires
        normalized(a) == normalized(b),
    ensures
        sql_job_name(a) == sql_job_name(b),
{
}

/// Every SQL-derived job name is `query-` followed by 12 hex digits.
pub proof fn lemma_job_name_shape(sql: Seq<char>)
    ensures
        sql_job_name(sql).len() == 18,
        sql_job_name(sql).take(6) == "query-"@,
{
    let h = fnv1a_spec(vstd::utf8::encode_utf8(normalized(sql))) as nat;
    crate::text::lemma_hex_text_len(h, 16);
    reveal_strlit("query-");
    assert(sql_job_name(sql).take(6) =~= "query-"@);
}

} // verus!
