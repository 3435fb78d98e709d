//! Principal identity carried in request metadata, and the Unity Catalog
//! bearer token a caller forwards.

use vstd::prelude::*;

use crate::strmap::StringMap;
use crate::text::{non_empty, opt_view, owned, strip_prefix, strip_prefix_seq, trim, trim_seq};

verus! {

/// The principal's Cedar entity uid, e.g. `User::"alice"`.
pub const PRINCIPAL: &'static str = "x-hydrofoil-principal";

/// The principal's role.
pub const ROLE: &'static str = "x-hydrofoil-role";

/// The principal's region.
pub const REGION: &'static str = "x-hydrofoil-region";

/// The caller's Unity Catalog bearer token on the gRPC surface.
pub const UC_TOKEN: &'static str = "x-hydrofoil-uc-token";

/// The principal of a request that names none.
pub const DEFAULT_PRINCIPAL: &'static str = "User::\"anonymous\"";

/// The caller's Unity Catalog token from gRPC metadata: the non-empty
/// `x-hydrofoil-uc-token` value.
pub fn uc_token_from_metadata(meta: &StringMap) -> (r: Option<String>)
    ensures
        opt_view(r) == match meta.spec_get(UC_TOKEN@) {
            Some(t) => non_empty(t),
            None => None,
        },
{
    match meta.get(UC_TOKEN) {
        Some(t) => if t.as_str().is_empty() {
            None
        } else {
            Some(t)
        },
        None => None,
    }
}

/// The caller's Unity Catalog token from HTTP headers: the trimmed,
/// non-empty rest of an `authorization: Bearer <token>` header.
pub fn uc_token_from_http_headers(headers: &StringMap) -> (r: Option<String>)
    ensures
        opt_view(r) == match headers.spec_get("authorization"@) {
            Some(auth) => match strip_prefix_seq(auth, "Bearer "@) {
                Some(t) => non_empty(trim_seq(t)),
                None => None,
            },
            None => None,
        },
{
    match headers.get("authorization") {
        Some(auth) => match strip_prefix(auth.as_str(), "Bearer ") {
            Some(t) => {
                let tt = trim(t.as_str());
                if tt.as_str().is_empty() {
                    None
                } else {
                    Some(tt)
                }
            },
            None => None,
        },
        None => None,
    }
}

/// The principal a request claims: its uid (the anonymous default when
/// none) and the advisory role and region.
#[derive(Debug)]
pub struct PrincipalClaims {
    pub uid: String,
    pub role: Option<String>,
    pub region: Option<String>,
}

/// The principal claims of a request's headers.
pub fn principal_claims_from_headers(meta: &StringMap) -> (c: PrincipalClaims)
    ensures
        c.uid@ == match meta.spec_get(PRINCIPAL@) {
            Some(u) => u,
            None => DEFAULT_PRINCIPAL@,
        },
        opt_view(c.role) == meta.spec_get(ROLE@),
        opt_view(c.region) == meta.spec_get(REGION@),
{
    let uid = match meta.get(PRINCIPAL) {
        Some(u) => u,
        None => owned(DEFAULT_PRINCIPAL),
    };
    PrincipalClaims { uid, role: meta.get(ROLE), region: meta.get(REGION) }
}

/// A user's facts: string attributes and the groups it directly belongs to.
#[derive(Debug)]
pub struct UserFacts {
    pub attributes: Vec<(String, String)>,
    pub groups: Vec<String>,
}

/// A group's facts: its parent groups.
#[derive(Debug)]
pub struct GroupFacts {
    pub parents: Vec<String>,
}

/// A group entity with its parent groups, each once.
#[derive(Debug)]
pub struct GroupEntity {
    pub uid: String,
    pub parents: Vec<String>,
}

/// What enrichment adds to a principal: its attributes, its direct groups,
/// and every group of the transitive closure as an entity.
#[derive(Debug)]
pub struct Enrichment {
    pub attributes: Vec<(String, String)>,
    pub groups: Vec<String>,
    pub group_entities: Vec<GroupEntity>,
}

/// Identity facts from a static configuration, keyed by uid; a later entry
/// for the same uid replaces an earlier one.
#[derive(Debug)]
pub struct ConfigIdentityProvider {
    users: Vec<(String, UserFacts)>,
    groups: Vec<(String, GroupFacts)>,
}

/// The position of the last entry with key `k` among the first `n`.
pub open spec fn last_key<V>(entries: Seq<(String, V)>, k: Seq<char>, n: int) -> Option<int>
    decreases n,
{
    if n <= 0 {
        None
    } else if entries[n - 1].0@ == k {
        Some(n - 1)
    } else {
        last_key(entries, k, n - 1)
    }
}

proof fn lemma_last_key<V>(entries: Seq<(String, V)>, k: Seq<char>, n: int)
    requires
        n <= entries.len(),
    ensures
        last_key(entries, k, n) matches Some(i) ==> 0 <= i < n && entries[i].0@ == k,
    decreases n,
{
    if n > 0 && entries[n - 1].0@ != k {
        lemma_last_key(entries, k, n - 1);
    }
}

fn find_last<V>(entries: &Vec<(String, V)>, k: &str) -> (r: Option<usize>)
    ensures
        match r {
            Some(i) => last_key(entries@, k@, entries@.len() as int) == Some(i as int),
            None => last_key(entries@, k@, entries@.len() as int) is None,
        },
{
    let mut n = entries.len();
    while n > 0
        invariant
            n <= entries.len(),
            last_key(entries@, k@, entries@.len() as int) == last_key(entries@, k@, n as int),
        decreases n,
    {
        if crate::strmap::str_eq(entries[n - 1].0.as_str(), k) {
            return Some(n - 1);
        }
        n = n - 1;
    }
    None
}

pub open spec fn string_seq(v: Seq<String>) -> Seq<Seq<char>> {
    v.map_values(|s: String| s@)
}

/// The parent groups configured for group `g`.
pub open spec fn parents_of(groups: Seq<(String, GroupFacts)>, g: Seq<char>) -> Seq<Seq<char>> {
    match last_key(groups, g, groups.len() as int) {
        Some(i) => string_seq(groups[i].1.parents@),
        None => Seq::empty(),
    }
}

/// Group `x` is reached from the direct groups in at most `k` steps up the
/// parent relation.
pub open spec fn reach(groups: Seq<(String, GroupFacts)>, direct: Seq<Seq<char>>, k: nat, x: Seq<char>) -> bool
    decreases k, 0nat,
{
    if k == 0 {
        direct.contains(x)
    } else {
        reach(groups, direct, (k - 1) as nat, x) || parent_of_reached(groups, direct, (k - 1) as nat, x)
    }
}

/// `x` is a parent of a group reached in at most `k` steps.
pub open spec fn parent_of_reached(groups: Seq<(String, GroupFacts)>, direct: Seq<Seq<char>>, k: nat, x: Seq<char>) -> bool
    decreases k, 1nat,
{
    exists|y: Seq<char>| reach(groups, direct, k, y) && #[trigger] parents_of(groups, y).contains(x)
}

/// Every group configured anywhere: the direct groups and all parents.
pub open spec fn universe(groups: Seq<(String, GroupFacts)>, direct: Seq<Seq<char>>, n: int) -> Seq<Seq<char>>
    decreases n,
{
    if n <= 0 {
        direct
    } else {
        universe(groups, direct, n - 1) + string_seq(groups[n - 1].1.parents@)
    }
}

proof fn lemma_parents_in_universe(groups: Seq<(String, GroupFacts)>, direct: Seq<Seq<char>>, g: Seq<char>, x: Seq<char>)
    requires
        parents_of(groups, g).contains(x),
    ensures
        universe(groups, direct, groups.len() as int).contains(x),
{
    lemma_last_key(groups, g, groups.len() as int);
    let i = last_key(groups, g, groups.len() as int)->0;
    lemma_universe_grows(groups, direct, i + 1, groups.len() as int);
    let u = universe(groups, direct, i + 1);
    let p = string_seq(groups[i].1.parents@);
    let j = choose|j: int| 0 <= j < p.len() && p[j] == x;
    assert(u == universe(groups, direct, i) + p);
    assert(u[universe(groups, direct, i).len() + j] == x);
}

proof fn lemma_universe_grows(groups: Seq<(String, GroupFacts)>, direct: Seq<Seq<char>>, m: int, n: int)
    requires
        0 <= m <= n <= groups.len(),
    ensures
        forall|x: Seq<char>|
            universe(groups, direct, m).contains(x) ==> #[trigger] universe(groups, direct, n).contains(x),
    decreases n - m,
{
    if m < n {
        lemma_universe_grows(groups, direct, m, n - 1);
        assert forall|x: Seq<char>|
            universe(groups, direct, m).contains(x) implies #[trigger] universe(groups, direct, n).contains(x) by {
            let a = universe(groups, direct, n - 1);
            assert(a.contains(x));
            let j = choose|j: int| 0 <= j < a.len() && a[j] == x;
            assert(universe(groups, direct, n)[j] == x);
        }
    }
}

proof fn lemma_direct_in_universe(groups: Seq<(String, GroupFacts)>, direct: Seq<Seq<char>>, x: Seq<char>)
    requires
        direct.contains(x),
    ensures
        universe(groups, direct, groups.len() as int).contains(x),
{
    lemma_universe_grows(groups, direct, 0, groups.len() as int);
}

/// Closed sets containing the direct groups hold everything reachable.
proof fn lemma_closed_holds_reach(
    groups: Seq<(String, GroupFacts)>,
    direct: Seq<Seq<char>>,
    r: Set<Seq<char>>,
    k: nat,
    x: Seq<char>,
)
    requires
        forall|d: Seq<char>| direct.contains(d) ==> #[trigger] r.contains(d),
        forall|y: Seq<char>, z: Seq<char>|
            r.contains(y) && parents_of(groups, y).contains(z) ==> #[trigger] r.contains(z) && #[trigger] r.contains(y),
        reach(groups, direct, k, x),
    ensures
        r.contains(x),
    decreases k,
{
    if k > 0 {
        if reach(groups, direct, (k - 1) as nat, x) {
            lemma_closed_holds_reach(groups, direct, r, (k - 1) as nat, x);
        } else {
            assert(parent_of_reached(groups, direct, (k - 1) as nat, x));
            let y = choose|y: Seq<char>|
                reach(groups, direct, (k - 1) as nat, y) && #[trigger] parents_of(groups, y).contains(x);
            lemma_closed_holds_reach(groups, direct, r, (k - 1) as nat, y);
        }
    }
}

proof fn lemma_reach_step(groups: Seq<(String, GroupFacts)>, direct: Seq<Seq<char>>, k: nat, y: Seq<char>, x: Seq<char>)
    requires
        reach(groups, direct, k, y),
        parents_of(groups, y).contains(x),
    ensures
        reach(groups, direct, k + 1, x),
{
    assert(parent_of_reached(groups, direct, k, x));
}

proof fn lemma_reach_mono(groups: Seq<(String, GroupFacts)>, direct: Seq<Seq<char>>, k: nat, m: nat, x: Seq<char>)
    requires
        k <= m,
        reach(groups, direct, k, x),
    ensures
        reach(groups, direct, m, x),
    decreases m - k,
{
    if k < m {
        lemma_reach_mono(groups, direct, k, (m - 1) as nat, x);
    }
}

/// Group `x` is reachable from `direct` in some number of steps.
pub open spec fn reachable(groups: Seq<(String, GroupFacts)>, direct: Seq<Seq<char>>, x: Seq<char>) -> bool {
    exists|k: nat| #[trigger] reach(groups, direct, k, x)
}

/// `v` holds exactly the groups reachable from `direct`, each once.
pub open spec fn is_closure(v: Seq<Seq<char>>, groups: Seq<(String, GroupFacts)>, direct: Seq<Seq<char>>) -> bool {
    &&& v.no_duplicates()
    &&& forall|x: Seq<char>|
        #![trigger v.contains(x)]
        #![trigger reachable(groups, direct, x)]
        v.contains(x) <==> reachable(groups, direct, x)
}

fn contains_str_in(v: &Vec<String>, x: &str) -> (r: bool)
    ensures
        r == string_seq(v@).contains(x@),
{
    let mut i: usize = 0;
    while i < v.len()
        invariant
            i <= v.len(),
            forall|j: int| 0 <= j < i ==> v@[j]@ != x@,
        decreases v.len() - i,
    {
        if crate::strmap::str_eq(v[i].as_str(), x) {
            assert(string_seq(v@)[i as int] == x@);
            return true;
        }
        i = i + 1;
    }
    proof {
        if string_seq(v@).contains(x@) {
            let j = choose|j: int| 0 <= j < string_seq(v@).len() && string_seq(v@)[j] == x@;
            assert(v@[j]@ == x@);
        }
    }
    false
}

impl ConfigIdentityProvider {
    pub closed spec fn spec_users(&self) -> Seq<(String, UserFacts)> {
        self.users@
    }

    pub closed spec fn spec_groups(&self) -> Seq<(String, GroupFacts)> {
        self.groups@
    }

    /// A provider over these users and groups.
    pub fn new(users: Vec<(String, UserFacts)>, groups: Vec<(String, GroupFacts)>) -> (r: Self)
        ensures
            r.spec_users() == users@,
            r.spec_groups() == groups@,
    {
        ConfigIdentityProvider { users, groups }
    }

    /// The transitive closure of `direct` up the parent relation, each group
    /// once.
    pub fn group_closure(&self, direct: &Vec<String>) -> (r: Vec<String>)
        ensures
            is_closure(string_seq(r@), self.spec_groups(), string_seq(direct@)),
    {
        let ghost gs = self.groups@;
        let ghost dv = string_seq(direct@);
        let ghost u = universe(gs, dv, gs.len() as int);
        let mut out: Vec<String> = Vec::new();
        let mut d: usize = 0;
        while d < direct.len()
            invariant
                d <= direct.len(),
                gs == self.groups@,
                dv == string_seq(direct@),
                u == universe(gs, dv, gs.len() as int),
                string_seq(out@).no_duplicates(),
                forall|x: Seq<char>| string_seq(out@).contains(x) ==> #[trigger] dv.contains(x),
                forall|j: int| 0 <= j < d ==> string_seq(out@).contains(#[trigger] dv[j]),
            decreases direct.len() - d,
        {
            let ghost o0 = string_seq(out@);
            if !contains_str_in(&out, direct[d].as_str()) {
                out.push(direct[d].clone());
                proof {
                    let o1 = string_seq(out@);
                    assert(o1 =~= o0.push(dv[d as int]));
                    assert forall|x: Seq<char>| o1.contains(x) implies #[trigger] dv.contains(x) by {
                        let j = choose|j: int| 0 <= j < o1.len() && o1[j] == x;
                        if j < o0.len() {
                            assert(o0[j] == x);
                        } else {
                            assert(dv[d as int] == x);
                        }
                    }
                    assert forall|j: int| 0 <= j < d + 1 implies o1.contains(#[trigger] dv[j]) by {
                        if j < d {
                            let t = choose|t: int| 0 <= t < o0.len() && o0[t] == dv[j];
                            assert(o1[t] == dv[j]);
                        } else {
                            assert(o1[o0.len() as int] == dv[j]);
                        }
                    }
                }
            }
            d = d + 1;
        }
        // Every group in `out` is reachable; `lvl` records in how many steps.
        let ghost mut lvl: Seq<nat> = Seq::new(out@.len(), |j: int| 0nat);
        proof {
            assert forall|j: int| 0 <= j < out@.len() implies reach(gs, dv, lvl[j], #[trigger] string_seq(out@)[j]) by {
                assert(string_seq(out@).contains(string_seq(out@)[j]));
            }
            assert forall|x: Seq<char>| string_seq(out@).contains(x) implies #[trigger] u.contains(x) by {
                lemma_direct_in_universe(gs, dv, x);
            }
        }
        let mut i: usize = 0;
        while i < out.len()
            invariant
                i <= out.len(),
                gs == self.groups@,
                dv == string_seq(direct@),
                u == universe(gs, dv, gs.len() as int),
                lvl.len() == out@.len(),
                string_seq(out@).no_duplicates(),
                forall|x: Seq<char>| string_seq(out@).contains(x) ==> #[trigger] u.contains(x),
                forall|j: int| 0 <= j < dv.len() ==> string_seq(out@).contains(#[trigger] dv[j]),
                forall|j: int| 0 <= j < out@.len() ==> reach(gs, dv, lvl[j], #[trigger] string_seq(out@)[j]),
                forall|j: int, z: Seq<char>|
                    0 <= j < i && parents_of(gs, #[trigger] string_seq(out@)[j]).contains(z) ==> #[trigger] string_seq(out@).contains(z),
            decreases u.len() - i,
        {
            proof {
                string_seq(out@).unique_seq_to_set();
                u.lemma_cardinality_of_set();
                vstd::set_lib::lemma_len_subset(string_seq(out@).to_set(), u.to_set());
            }
            let g = out[i].clone();
            let gi = find_last(&self.groups, g.as_str());
            proof {
                lemma_last_key(gs, g@, gs.len() as int);
            }
            match gi {
                Some(k) => {
                    let mut p: usize = 0;
                    let plen = self.groups[k].1.parents.len();
                    while p < plen
                        invariant
                            p <= plen == gs[k as int].1.parents@.len(),
                            k < gs.len(),
                            gs == self.groups@,
                            last_key(gs, g@, gs.len() as int) == Some(k as int),
                            i < out@.len(),
                            string_seq(out@)[i as int] == g@,
                            u == universe(gs, dv, gs.len() as int),
                            lvl.len() == out@.len(),
                            string_seq(out@).no_duplicates(),
                            forall|x: Seq<char>| string_seq(out@).contains(x) ==> #[trigger] u.contains(x),
                            forall|j: int| 0 <= j < dv.len() ==> string_seq(out@).contains(#[trigger] dv[j]),
                            forall|j: int| 0 <= j < out@.len() ==> reach(gs, dv, lvl[j], #[trigger] string_seq(out@)[j]),
                            forall|j: int, z: Seq<char>|
                                0 <= j < i && parents_of(gs, #[trigger] string_seq(out@)[j]).contains(z) ==> #[trigger] string_seq(out@).contains(z),
                            forall|t: int| 0 <= t < p ==> string_seq(out@).contains(#[trigger] parents_of(gs, g@)[t]),
                        decreases plen - p,
                    {
                        let parent = &self.groups[k].1.parents[p];
                        let ghost o0 = string_seq(out@);
                        assert(parents_of(gs, g@)[p as int] == parent@);
                        if !contains_str_in(&out, parent.as_str()) {
                            out.push(parent.clone());
                            proof {
                                let o1 = string_seq(out@);
                                assert(o1 =~= o0.push(parent@));
                                let lv = lvl[i as int] + 1;
                                assert(reach(gs, dv, lvl[i as int], g@));
                                assert(parents_of(gs, g@).contains(parent@));
                                lemma_reach_step(gs, dv, lvl[i as int], g@, parent@);
                                assert(reach(gs, dv, lv, parent@));
                                lvl = lvl.push(lv);
                                assert forall|x: Seq<char>| o1.contains(x) implies #[trigger] u.contains(x) by {
                                    let j = choose|j: int| 0 <= j < o1.len() && o1[j] == x;
                                    if j < o0.len() {
                                        assert(o0.contains(x));
                                    } else {
                                        lemma_parents_in_universe(gs, dv, g@, x);
                                    }
                                }
                                assert forall|j: int| 0 <= j < dv.len() implies o1.contains(#[trigger] dv[j]) by {
                                    let t = choose|t: int| 0 <= t < o0.len() && o0[t] == dv[j];
                                    assert(o1[t] == dv[j]);
                                }
                                assert forall|j: int| 0 <= j < o1.len() implies reach(gs, dv, lvl[j], #[trigger] o1[j]) by {
                                    if j < o0.len() {
                                        assert(o1[j] == o0[j]);
                                    }
                                }
                                assert forall|j: int, z: Seq<char>|
                                    0 <= j < i && parents_of(gs, #[trigger] o1[j]).contains(z) implies #[trigger] o1.contains(z) by {
                                    assert(o1[j] == o0[j]);
                                    assert(o0.contains(z));
                                    let t = choose|t: int| 0 <= t < o0.len() && o0[t] == z;
                                    assert(o1[t] == z);
                                }
                                assert forall|t: int| 0 <= t < p + 1 implies o1.contains(#[trigger] parents_of(gs, g@)[t]) by {
                                    if t < p {
                                        let w = choose|w: int| 0 <= w < o0.len() && o0[w] == parents_of(gs, g@)[t];
                                        assert(o1[w] == parents_of(gs, g@)[t]);
                                    } else {
                                        assert(o1[o0.len() as int] == parent@);
                                    }
                                }
                            }
                        }
                        p = p + 1;
                    }
                    proof {
                        assert forall|j: int, z: Seq<char>|
                            0 <= j < i + 1 && parents_of(gs, #[trigger] string_seq(out@)[j]).contains(z) implies #[trigger] string_seq(out@).contains(z) by {
                            if j == i {
                                let t = choose|t: int| 0 <= t < parents_of(gs, g@).len() && parents_of(gs, g@)[t] == z;
                            }
                        }
                    }
                },
                None => {
                    proof {
                        assert(parents_of(gs, g@) =~= Seq::<Seq<char>>::empty());
                    }
                },
            }
            i = i + 1;
        }
        proof {
            let o = string_seq(out@);
            assert forall|y: Seq<char>, z: Seq<char>|
                o.to_set().contains(y) && parents_of(gs, y).contains(z) implies #[trigger] o.to_set().contains(z) && #[trigger] o.to_set().contains(y) by {
                let j = choose|j: int| 0 <= j < o.len() && o[j] == y;
            }
            assert forall|dd: Seq<char>| dv.contains(dd) implies #[trigger] o.to_set().contains(dd) by {
                let j = choose|j: int| 0 <= j < dv.len() && dv[j] == dd;
            }
            assert forall|x: Seq<char>| o.contains(x) <==> reachable(gs, dv, x) by {
                if reachable(gs, dv, x) {
                    let k = choose|k: nat| #[trigger] reach(gs, dv, k, x);
                    lemma_closed_holds_reach(gs, dv, o.to_set(), k, x);
                }
                if o.contains(x) {
                    let j = choose|j: int| 0 <= j < o.len() && o[j] == x;
                    assert(reach(gs, dv, lvl[j], o[j]));
                }
            }
        }
        out
    }
}

/// `e` is the entity of group `uid`: its configured parents, each once.
pub open spec fn entity_of(e: GroupEntity, groups: Seq<(String, GroupFacts)>) -> bool {
    &&& string_seq(e.parents@).no_duplicates()
    &&& string_seq(e.parents@).to_set() == parents_of(groups, e.uid@).to_set()
}

/// `r` is the enrichment of principal `uid`: nothing for an unknown
/// principal; else its attributes, its direct groups, and one entity per
/// group of the closure.
pub open spec fn enrichment_of(r: Enrichment, users: Seq<(String, UserFacts)>, groups: Seq<(String, GroupFacts)>, uid: Seq<char>) -> bool {
    match last_key(users, uid, users.len() as int) {
        None => r.attributes@.len() == 0 && r.groups@.len() == 0 && r.group_entities@.len() == 0,
        Some(i) => {
            &&& r.attributes@ == users[i].1.attributes@
            &&& r.groups@ == users[i].1.groups@
            &&& is_closure(
                r.group_entities@.map_values(|e: GroupEntity| e.uid@),
                groups,
                string_seq(users[i].1.groups@),
            )
            &&& forall|j: int| 0 <= j < r.group_entities@.len() ==> entity_of(#[trigger] r.group_entities@[j], groups)
        },
    }
}

fn copy_pairs(v: &Vec<(String, String)>) -> (r: Vec<(String, String)>)
    ensures
        r@ == v@,
{
    let mut r: Vec<(String, String)> = Vec::new();
    let mut i: usize = 0;
    while i < v.len()
        invariant
            i <= v.len(),
            r@ == v@.take(i as int),
        decreases v.len() - i,
    {
        r.push((v[i].0.clone(), v[i].1.clone()));
        i = i + 1;
        assert(r@ =~= v@.take(i as int));
    }
    assert(v@.take(i as int) =~= v@);
    r
}

impl ConfigIdentityProvider {
    /// The entity of group `uid`, carrying its parent groups.
    pub fn group_entity(&self, uid: &String) -> (e: GroupEntity)
        ensures
            e.uid == *uid,
            entity_of(e, self.spec_groups()),
    {
        let mut parents: Vec<String> = Vec::new();
        let ghost gs = self.groups@;
        proof {
            lemma_last_key(gs, uid@, gs.len() as int);
        }
        match find_last(&self.groups, uid.as_str()) {
            Some(k) => {
                let src = &self.groups[k].1.parents;
                let mut p: usize = 0;
                while p < src.len()
                    invariant
                        p <= src.len(),
                        *src == gs[k as int].1.parents,
                        string_seq(parents@).no_duplicates(),
                        string_seq(parents@).to_set() == string_seq(src@).take(p as int).to_set(),
                    decreases src.len() - p,
                {
                    let ghost before = string_seq(parents@);
                    let ghost sv = string_seq(src@);
                    assert(sv.take(p + 1) =~= sv.take(p as int).push(sv[p as int]));
                    proof {
                        sv.take(p as int).lemma_push_to_set_commute(sv[p as int]);
                    }
                    if !contains_str_in(&parents, src[p].as_str()) {
                        parents.push(src[p].clone());
                        proof {
                            let after = string_seq(parents@);
                            assert(after =~= before.push(sv[p as int]));
                            before.lemma_push_to_set_commute(sv[p as int]);
                            assert forall|a: int, b: int| 0 <= a < after.len() && 0 <= b < after.len() && a != b implies after[a] != after[b] by {
                                if a == before.len() as int {
                                    assert(before[b] != sv[p as int]);
                                } else if b == before.len() as int {
                                    assert(before[a] != sv[p as int]);
                                }
                            }
                        }
                    } else {
                        proof {
                            assert(before.to_set().insert(sv[p as int]) =~= before.to_set());
                        }
                    }
                    p = p + 1;
                }
                assert(string_seq(src@).take(p as int) =~= string_seq(src@));
            },
            None => {
                assert(string_seq(parents@).to_set() =~= parents_of(gs, uid@).to_set());
            },
        }
        GroupEntity { uid: uid.clone(), parents }
    }

    /// The enrichment of principal `uid`: its attributes, its direct groups,
    /// and the entities of every group it belongs to, directly or through
    /// parent groups. An unknown principal gets an empty enrichment.
    pub fn enrich(&self, uid: &str) -> (r: Enrichment)
        ensures
            enrichment_of(r, self.spec_users(), self.spec_groups(), uid@),
    {
        let ghost us = self.users@;
        let i = match find_last(&self.users, uid) {
            Some(i) => i,
            None => {
                return Enrichment { attributes: Vec::new(), groups: Vec::new(), group_entities: Vec::new() };
            },
        };
        proof {
            lemma_last_key(us, uid@, us.len() as int);
        }
        let user = &self.users[i].1;
        let closure = self.group_closure(&user.groups);
        let mut entities: Vec<GroupEntity> = Vec::new();
        let mut k: usize = 0;
        while k < closure.len()
            invariant
                k <= closure.len(),
                entities@.len() == k,
                forall|j: int| 0 <= j < k ==> (#[trigger] entities@[j]).uid == closure@[j],
                forall|j: int| 0 <= j < k ==> entity_of(#[trigger] entities@[j], self.groups@),
            decreases closure.len() - k,
        {
            entities.push(self.group_entity(&closure[k]));
            k = k + 1;
        }
        proof {
            assert(entities@.map_values(|e: GroupEntity| e.uid@) =~= string_seq(closure@));
        }
        Enrichment { attributes: copy_pairs(&user.attributes), groups: crate::text::copy_strings(&user.groups), group_entities: entities }
    }
}

fn facts(attrs: Vec<(String, String)>, groups: Vec<String>) -> (u: UserFacts)
    ensures
        u.attributes == attrs,
        u.groups == groups,
{
    UserFacts { attributes: attrs, groups }
}

/// The characters of each string, in order.
pub open spec fn string_seq_view(v: Seq<String>) -> Seq<Seq<char>> {
    v.map_values(|g: String| g@)
}

/// A user's facts as plain text: its attribute pairs and its groups.
pub open spec fn user_facts_view(u: UserFacts) -> (Seq<(Seq<char>, Seq<char>)>, Seq<Seq<char>>) {
    (u.attributes@.map_values(|a: (String, String)| (a.0@, a.1@)), string_seq_view(u.groups@))
}

/// The demo identity facts: `alice` (region `eu`) in `privileged_readers`,
/// `bob` (region `us`) in `readers`, `Agent::"r2d2"` in `readers`, and
/// `privileged_readers` under `readers`.
pub fn default_identity_provider() -> (p: ConfigIdentityProvider)
    ensures
        p.spec_users().map_values(|e: (String, UserFacts)| (e.0@, user_facts_view(e.1))) == seq![
            ("User::\"alice\""@, (seq![("region"@, "eu"@)], seq!["UserGroup::\"privileged_readers\""@])),
            ("User::\"bob\""@, (seq![("region"@, "us"@)], seq!["UserGroup::\"readers\""@])),
            ("Agent::\"r2d2\""@, (Seq::empty(), seq!["UserGroup::\"readers\""@])),
        ],
        p.spec_groups().map_values(|e: (String, GroupFacts)| (e.0@, string_seq_view(e.1.parents@))) == seq![
            ("UserGroup::\"privileged_readers\""@, seq!["UserGroup::\"readers\""@]),
            ("UserGroup::\"readers\""@, Seq::<Seq<char>>::empty()),
        ],
{
    let mut users: Vec<(String, UserFacts)> = Vec::new();
    let mut alice_attrs: Vec<(String, String)> = Vec::new();
    alice_attrs.push((owned("region"), owned("eu")));
    let mut alice_groups: Vec<String> = Vec::new();
    alice_groups.push(owned("UserGroup::\"privileged_readers\""));
    users.push((owned("User::\"alice\""), facts(alice_attrs, alice_groups)));
    let mut bob_attrs: Vec<(String, String)> = Vec::new();
    bob_attrs.push((owned("region"), owned("us")));
    let mut bob_groups: Vec<String> = Vec::new();
    bob_groups.push(owned("UserGroup::\"readers\""));
    users.push((owned("User::\"bob\""), facts(bob_attrs, bob_groups)));
    let mut r2d2_groups: Vec<String> = Vec::new();
    r2d2_groups.push(owned("UserGroup::\"readers\""));
    users.push((owned("Agent::\"r2d2\""), facts(Vec::new(), r2d2_groups)));
    let mut groups: Vec<(String, GroupFacts)> = Vec::new();
    let mut pr_parents: Vec<String> = Vec::new();
    pr_parents.push(owned("UserGroup::\"readers\""));
    groups.push((owned("UserGroup::\"privileged_readers\""), GroupFacts { parents: pr_parents }));
    groups.push((owned("UserGroup::\"readers\""), GroupFacts { parents: Vec::new() }));
    proof {
        assert(user_facts_view(users@[0].1).0 =~= seq![("region"@, "eu"@)]);
        assert(user_facts_view(users@[0].1).1 =~= seq!["UserGroup::\"privileged_readers\""@]);
        assert(user_facts_view(users@[1].1).0 =~= seq![("region"@, "us"@)]);
        assert(user_facts_view(users@[1].1).1 =~= seq!["UserGroup::\"readers\""@]);
        assert(user_facts_view(users@[2].1).0 =~= Seq::empty());
        assert(user_facts_view(users@[2].1).1 =~= seq!["UserGroup::\"readers\""@]);
        assert(string_seq_view(groups@[0].1.parents@) =~= seq!["UserGroup::\"readers\""@]);
        assert(string_seq_view(groups@[1].1.parents@) =~= Seq::<Seq<char>>::empty());
    }
    ConfigIdentityProvider::new(users, groups)
}

} // verus!
