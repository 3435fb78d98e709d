//! Table classification by convention from catalog metadata: table tags
//! from the `tags` / `classification` properties, column tags from
//! `tag.<column>` properties and `[tags: …]` markers in column comments,
//! and reader/writer ACLs from the `readers` / `writers` properties. Tags
//! are comma-split, trimmed, lower-cased, and kept as sets.

use vstd::prelude::*;

use crate::sort::{set_insert, strictly_sorted, views};
use crate::strmap::{lookup, StringMap};
use crate::text::{
    ascii_lower_seq, ascii_lowercase, chars_of, copy_opt, find_char, find_char_from,
    lemma_find_char_bounds, split_char, split_seq, string_of_range, strip_prefix, strip_prefix_seq,
    trim, trim_seq,
};

verus! {

/// A catalog column: its name and comment.
#[derive(Debug)]
pub struct Column {
    pub name: String,
    pub comment: Option<String>,
}

/// The catalog metadata classification reads: owner, properties, columns.
#[derive(Debug)]
pub struct Table {
    pub owner: Option<String>,
    pub properties: StringMap,
    pub columns: Vec<Column>,
}

/// One column's tags.
#[derive(Debug)]
pub struct ColumnTags {
    pub column: String,
    /// Sorted, without duplicates.
    pub tags: Vec<String>,
}

/// A table's classification: its tags and its columns' tags, sorted.
#[derive(Debug)]
pub struct TableClassification {
    pub table_tags: Vec<String>,
    pub column_tags: Vec<ColumnTags>,
}

/// The classifier deriving tags from catalog conventions.
#[derive(Debug, Default)]
pub struct ConventionTagProvider;

/// A tag token: trimmed and ASCII-lower-cased.
pub open spec fn tag_token(t: Seq<char>) -> Seq<char> {
    ascii_lower_seq(trim_seq(t))
}

/// The non-empty tokens of the pieces, in order.
pub open spec fn tokens(parts: Seq<Seq<char>>) -> Seq<Seq<char>>
    decreases parts.len(),
{
    if parts.len() == 0 {
        Seq::empty()
    } else if tag_token(parts.last()).len() > 0 {
        tokens(parts.drop_last()).push(tag_token(parts.last()))
    } else {
        tokens(parts.drop_last())
    }
}

/// The tags of a comma-separated value.
pub open spec fn split_tags_spec(s: Seq<char>) -> Seq<Seq<char>> {
    tokens(split_seq(s, ','))
}

/// Split a comma-separated value into trimmed, lower-cased, non-empty tags.
pub fn split_tags(s: &str) -> (r: Vec<String>)
    ensures
        views(r@) == split_tags_spec(s@),
{
    let parts = split_char(s, ',');
    let ghost pv = parts@.map_values(|x: String| x@);
    let mut r: Vec<String> = Vec::new();
    let mut i: usize = 0;
    while i < parts.len()
        invariant
            i <= parts.len(),
            pv == parts@.map_values(|x: String| x@),
            pv == split_seq(s@, ','),
            views(r@) == tokens(pv.take(i as int)),
        decreases parts.len() - i,
    {
        assert(pv.take(i + 1).drop_last() =~= pv.take(i as int));
        assert(pv.take(i + 1).last() == parts@[i as int]@);
        let t = ascii_lowercase(trim(parts[i].as_str()).as_str());
        if !t.as_str().is_empty() {
            let ghost r0 = views(r@);
            r.push(t);
            assert(views(r@) =~= r0.push(t@));
        }
        i = i + 1;
    }
    assert(pv.take(i as int) =~= pv);
    r
}

/// The first position from `i` on where `pat` occurs in `s`.
pub open spec fn find_seq_from(s: Seq<char>, pat: Seq<char>, i: int) -> Option<int>
    decreases s.len() + 1 - i,
{
    if i < 0 || i > s.len() || i + pat.len() > s.len() {
        None
    } else if s.subrange(i, i + pat.len()) == pat {
        Some(i)
    } else {
        find_seq_from(s, pat, i + 1)
    }
}

/// The tags of a `[tags: …]` marker in a column comment (the first marker,
/// up to the first `]` after it); none without a closed marker.
pub open spec fn comment_tags_spec(c: Seq<char>) -> Seq<Seq<char>> {
    match find_seq_from(c, "[tags:"@, 0) {
        None => Seq::empty(),
        Some(start) => {
            let inner = c.skip(start + 6);
            match find_char(inner, ']', 0) {
                None => Seq::empty(),
                Some(e) => split_tags_spec(inner.take(e)),
            }
        },
    }
}

fn find_marker(v: &Vec<char>) -> (r: Option<usize>)
    ensures
        match r {
            Some(i) => find_seq_from(v@, "[tags:"@, 0) == Some(i as int) && i + 6 <= v@.len(),
            None => find_seq_from(v@, "[tags:"@, 0) is None,
        },
{
    let pat = ['[', 't', 'a', 'g', 's', ':'];
    proof {
        reveal_strlit("[tags:");
        assert(pat@ =~= "[tags:"@);
    }
    if v.len() < 6 {
        return None;
    }
    let mut i: usize = 0;
    while i <= v.len() - 6
        invariant
            6 <= v.len(),
            i <= v.len() - 5,
            pat@ == "[tags:"@,
            find_seq_from(v@, "[tags:"@, 0) == find_seq_from(v@, "[tags:"@, i as int),
        decreases v.len() - i,
    {
        let mut j: usize = 0;
        while j < 6 && v[i + j] == pat[j]
            invariant
                j <= 6,
                i + 6 <= v.len(),
                forall|t: int| 0 <= t < j ==> v@[i + t] == pat@[t],
            decreases 6 - j,
        {
            j = j + 1;
        }
        if j == 6 {
            assert(v@.subrange(i as int, i + 6) =~= pat@);
            return Some(i);
        }
        assert(v@.subrange(i as int, i + 6)[j as int] != pat@[j as int]);
        i = i + 1;
    }
    None
}

/// Parse the tags of a `[tags: …]` marker out of a column comment.
pub fn parse_comment_tags(comment: &str) -> (r: Vec<String>)
    ensures
        views(r@) == comment_tags_spec(comment@),
{
    proof {
        reveal_strlit("[tags:");
    }
    let v = chars_of(comment);
    let n = v.len();
    let start = match find_marker(&v) {
        Some(s) => s,
        None => return Vec::new(),
    };
    let inner = string_of_range(&v, start + 6, v.len());
    let iv = chars_of(inner.as_str());
    assert(iv@ =~= comment@.skip(start + 6));
    match find_char_from(&iv, ']', 0) {
        Some(e) => {
            proof {
                lemma_find_char_bounds(iv@, ']', 0);
            }
            let body = string_of_range(&iv, 0, e);
            assert(body@ =~= iv@.take(e as int));
            split_tags(body.as_str())
        },
        None => Vec::new(),
    }
}

/// The tags of the properties `tags` and `classification`.
pub open spec fn table_tag_set(props: Seq<(Seq<char>, Seq<char>)>) -> Set<Seq<char>> {
    let a = match lookup(props, "tags"@) {
        Some(v) => split_tags_spec(v).to_set(),
        None => Set::empty(),
    };
    let b = match lookup(props, "classification"@) {
        Some(v) => split_tags_spec(v).to_set(),
        None => Set::empty(),
    };
    a.union(b)
}

/// The columns named by `tag.<column>` properties.
pub open spec fn prop_col_keys(props: Seq<(Seq<char>, Seq<char>)>) -> Set<Seq<char>>
    decreases props.len(),
{
    if props.len() == 0 {
        Set::empty()
    } else {
        match strip_prefix_seq(props.last().0, "tag."@) {
            Some(c) => prop_col_keys(props.drop_last()).insert(c),
            None => prop_col_keys(props.drop_last()),
        }
    }
}

/// The tags `tag.<c>` properties give column `c`.
pub open spec fn prop_col_tags(props: Seq<(Seq<char>, Seq<char>)>, c: Seq<char>) -> Set<Seq<char>>
    decreases props.len(),
{
    if props.len() == 0 {
        Set::empty()
    } else if strip_prefix_seq(props.last().0, "tag."@) == Some(c) {
        prop_col_tags(props.drop_last(), c).union(split_tags_spec(props.last().1).to_set())
    } else {
        prop_col_tags(props.drop_last(), c)
    }
}

pub open spec fn column_comment_tags(col: Column) -> Seq<Seq<char>> {
    match col.comment {
        Some(x) => comment_tags_spec(x@),
        None => Seq::empty(),
    }
}

/// The columns whose comment carries tags.
pub open spec fn comment_col_keys(cols: Seq<Column>) -> Set<Seq<char>>
    decreases cols.len(),
{
    if cols.len() == 0 {
        Set::empty()
    } else if column_comment_tags(cols.last()).len() > 0 {
        comment_col_keys(cols.drop_last()).insert(cols.last().name@)
    } else {
        comment_col_keys(cols.drop_last())
    }
}

/// The tags the comments of columns named `c` carry.
pub open spec fn comment_col_tags(cols: Seq<Column>, c: Seq<char>) -> Set<Seq<char>>
    decreases cols.len(),
{
    if cols.len() == 0 {
        Set::empty()
    } else if cols.last().name@ == c {
        comment_col_tags(cols.drop_last(), c).union(column_comment_tags(cols.last()).to_set())
    } else {
        comment_col_tags(cols.drop_last(), c)
    }
}

/// `out` is the classification of `t`.
pub open spec fn classification_of(out: TableClassification, t: Table) -> bool {
    let props = t.properties@;
    let cols = t.columns@;
    let names = out.column_tags@.map_values(|c: ColumnTags| c.column@);
    &&& strictly_sorted(views(out.table_tags@))
    &&& views(out.table_tags@).to_set() == table_tag_set(props)
    &&& strictly_sorted(names)
    &&& names.to_set() == prop_col_keys(props).union(comment_col_keys(cols))
    &&& forall|i: int|
        0 <= i < out.column_tags@.len() ==> {
            let e = #[trigger] out.column_tags@[i];
            &&& strictly_sorted(views(e.tags@))
            &&& views(e.tags@).to_set() == prop_col_tags(props, e.column@).union(
                comment_col_tags(cols, e.column@),
            )
        }
}

/// Add every tag of `toks` to the sorted set `v`.
fn insert_all(v: &mut Vec<String>, toks: Vec<String>)
    requires
        strictly_sorted(views(old(v)@)),
    ensures
        strictly_sorted(views(final(v)@)),
        views(final(v)@).to_set() == views(old(v)@).to_set().union(views(toks@).to_set()),
{
    let ghost v0 = views(v@).to_set();
    let ghost tv = views(toks@);
    let mut toks = toks;
    let mut k: usize = 0;
    let n = toks.len();
    while k < n
        invariant
            k <= n == toks.len(),
            tv == views(toks@),
            strictly_sorted(views(v@)),
            views(v@).to_set() == v0.union(tv.take(k as int).to_set()),
        decreases n - k,
    {
        let t = toks[k].clone();
        set_insert(v, t);
        proof {
            assert(tv.take(k + 1) =~= tv.take(k as int).push(tv[k as int]));
            tv.take(k as int).lemma_push_to_set_commute(tv[k as int]);
            assert(views(v@).to_set() =~= v0.union(tv.take(k + 1).to_set()));
        }
        k = k + 1;
    }
    assert(tv.take(k as int) =~= tv);
}

impl ConventionTagProvider {
    /// Classify a table by convention.
    pub fn classify(&self, table: &Table) -> (out: TableClassification)
        ensures
            classification_of(out, *table),
    {
        let props = table.properties.entries();
        let ghost pv = props@.map_values(|p: (String, String)| (p.0@, p.1@));
        // Table tags.
        let mut table_tags: Vec<String> = Vec::new();
        match table.properties.get("tags") {
            Some(v) => insert_all(&mut table_tags, split_tags(v.as_str())),
            None => {},
        }
        let ghost after_tags = views(table_tags@).to_set();
        match table.properties.get("classification") {
            Some(v) => insert_all(&mut table_tags, split_tags(v.as_str())),
            None => {},
        }
        proof {
            assert(views(table_tags@).to_set() =~= table_tag_set(table.properties@));
        }
        // Column names.
        let mut names: Vec<String> = Vec::new();
        let mut p: usize = 0;
        assert(pv.take(0) =~= Seq::<(Seq<char>, Seq<char>)>::empty());
        while p < props.len()
            invariant
                p <= props.len(),
                pv == props@.map_values(|p: (String, String)| (p.0@, p.1@)),
                strictly_sorted(views(names@)),
                views(names@).to_set() == prop_col_keys(pv.take(p as int)),
            decreases props.len() - p,
        {
            assert(pv.take(p + 1).drop_last() =~= pv.take(p as int));
            match strip_prefix(props[p].0.as_str(), "tag.") {
                Some(c) => set_insert(&mut names, c),
                None => {},
            }
            p = p + 1;
        }
        assert(pv.take(p as int) =~= pv);
        let ghost cols = table.columns@;
        let mut q: usize = 0;
        assert(cols.take(0) =~= Seq::<Column>::empty());
        while q < table.columns.len()
            invariant
                q <= table.columns.len(),
                cols == table.columns@,
                strictly_sorted(views(names@)),
                views(names@).to_set() == prop_col_keys(pv).union(comment_col_keys(cols.take(q as int))),
            decreases table.columns.len() - q,
        {
            assert(cols.take(q + 1).drop_last() =~= cols.take(q as int));
            let ghost before = views(names@).to_set();
            match &table.columns[q].comment {
                Some(c) => {
                    let tags = parse_comment_tags(c.as_str());
                    if tags.len() > 0 {
                        set_insert(&mut names, table.columns[q].name.clone());
                        assert(views(names@).to_set() =~= prop_col_keys(pv).union(
                            comment_col_keys(cols.take(q + 1)),
                        ));
                    }
                },
                None => {},
            }
            q = q + 1;
        }
        assert(cols.take(q as int) =~= cols);
        // Each column's tags.
        let mut column_tags: Vec<ColumnTags> = Vec::new();
        let mut k: usize = 0;
        while k < names.len()
            invariant
                k <= names.len(),
                pv == props@.map_values(|p: (String, String)| (p.0@, p.1@)),
                pv == table.properties@,
                cols == table.columns@,
                column_tags@.len() == k,
                forall|i: int|
                    0 <= i < k ==> {
                        let e = #[trigger] column_tags@[i];
                        &&& e.column@ == names@[i]@
                        &&& strictly_sorted(views(e.tags@))
                        &&& views(e.tags@).to_set() == prop_col_tags(pv, e.column@).union(
                            comment_col_tags(cols, e.column@),
                        )
                    },
            decreases names.len() - k,
        {
            let name = names[k].as_str();
            let mut tags: Vec<String> = Vec::new();
            let mut p: usize = 0;
            assert(pv.take(0) =~= Seq::<(Seq<char>, Seq<char>)>::empty());
            while p < props.len()
                invariant
                    p <= props.len(),
                    pv == props@.map_values(|p: (String, String)| (p.0@, p.1@)),
                    strictly_sorted(views(tags@)),
                    views(tags@).to_set() == prop_col_tags(pv.take(p as int), name@),
                decreases props.len() - p,
            {
                assert(pv.take(p + 1).drop_last() =~= pv.take(p as int));
                match strip_prefix(props[p].0.as_str(), "tag.") {
                    Some(c) => if crate::strmap::str_eq(c.as_str(), name) {
                        insert_all(&mut tags, split_tags(props[p].1.as_str()));
                    },
                    None => {},
                }
                p = p + 1;
            }
            assert(pv.take(p as int) =~= pv);
            let mut q: usize = 0;
            while q < table.columns.len()
                invariant
                    q <= table.columns.len(),
                    cols == table.columns@,
                    strictly_sorted(views(tags@)),
                    views(tags@).to_set() == prop_col_tags(pv, name@).union(
                        comment_col_tags(cols.take(q as int), name@),
                    ),
                decreases table.columns.len() - q,
            {
                assert(cols.take(q + 1).drop_last() =~= cols.take(q as int));
                if crate::strmap::str_eq(table.columns[q].name.as_str(), name) {
                    match &table.columns[q].comment {
                        Some(c) => insert_all(&mut tags, parse_comment_tags(c.as_str())),
                        None => {},
                    }
                    assert(views(tags@).to_set() =~= prop_col_tags(pv, name@).union(
                        comment_col_tags(cols.take(q + 1), name@),
                    ));
                }
                q = q + 1;
            }
            assert(cols.take(q as int) =~= cols);
            column_tags.push(ColumnTags { column: names[k].clone(), tags });
            k = k + 1;
        }
        proof {
            let cn = column_tags@.map_values(|c: ColumnTags| c.column@);
            assert(cn =~= views(names@));
        }
        TableClassification { table_tags, column_tags }
    }
}

/// The owner and the reader and writer ACLs of a table: the owner as
/// recorded, and the tags of the `readers` and `writers` properties.
pub fn table_acl_facts(table: &Table) -> (r: (Option<String>, Vec<String>, Vec<String>))
    ensures
        r.0 == table.owner,
        strictly_sorted(views(r.1@)),
        views(r.1@).to_set() == match table.properties.spec_get("readers"@) {
            Some(v) => split_tags_spec(v).to_set(),
            None => Set::empty(),
        },
        strictly_sorted(views(r.2@)),
        views(r.2@).to_set() == match table.properties.spec_get("writers"@) {
            Some(v) => split_tags_spec(v).to_set(),
            None => Set::empty(),
        },
{
    let mut readers: Vec<String> = Vec::new();
    match table.properties.get("readers") {
        Some(v) => insert_all(&mut readers, split_tags(v.as_str())),
        None => {},
    }
    let mut writers: Vec<String> = Vec::new();
    match table.properties.get("writers") {
        Some(v) => insert_all(&mut writers, split_tags(v.as_str())),
        None => {},
    }
    proof {
        assert(views(readers@).to_set() =~= match table.properties.spec_get("readers"@) {
            Some(v) => split_tags_spec(v).to_set(),
            None => Set::<Seq<char>>::empty(),
        });
        assert(views(writers@).to_set() =~= match table.properties.spec_get("writers"@) {
            Some(v) => split_tags_spec(v).to_set(),
            None => Set::<Seq<char>>::empty(),
        });
    }
    (copy_opt(&table.owner), readers, writers)
}

} // verus!
