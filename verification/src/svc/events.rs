//! The Events page: the stored OpenLineage documents newest first, paged.

use vstd::prelude::*;

use crate::svc::columns::newer;

verus! {

/// A stored event as the Events page reads it: its time and its raw
/// document.
#[derive(Debug)]
pub struct StoredEvent {
    pub event_time: Option<i64>,
    pub raw_json: Option<String>,
}

/// One page of raw documents, and how many events are stored.
#[derive(Debug)]
pub struct EventsPage {
    pub events: Vec<String>,
    pub total_count: usize,
}

/// The first place, from `k` on, where time `x` goes in `order`: before the
/// first event strictly older than it.
pub open spec fn place_from(t: Seq<Option<i64>>, order: Seq<int>, x: Option<i64>, k: int) -> int
    decreases order.len() - k,
{
    if k < 0 || k >= order.len() {
        order.len() as int
    } else if newer(x, t[order[k]]) {
        k
    } else {
        place_from(t, order, x, k + 1)
    }
}

/// The positions of the first `n` events, newest first with unknown times
/// last, in storage order among equal times.
pub open spec fn newest_first(t: Seq<Option<i64>>, n: int) -> Seq<int>
    decreases n,
{
    if n <= 0 {
        Seq::empty()
    } else {
        let o = newest_first(t, n - 1);
        o.insert(place_from(t, o, t[n - 1], 0), n - 1)
    }
}

/// The raw documents of the events at places `from` up to `to` of `order`,
/// skipping events without one.
pub open spec fn page_raws(rows: Seq<StoredEvent>, order: Seq<int>, from: int, to: int) -> Seq<Seq<char>>
    decreases to - from,
{
    if to <= from {
        Seq::empty()
    } else {
        let prev = page_raws(rows, order, from, to - 1);
        match rows[order[to - 1]].raw_json {
            Some(r) => prev.push(r@),
            None => prev,
        }
    }
}

pub open spec fn times(rows: Seq<StoredEvent>) -> Seq<Option<i64>> {
    rows.map_values(|r: StoredEvent| r.event_time)
}

/// The end of the page that starts at `offset` with at most `limit` events
/// out of `n`.
pub open spec fn page_end(n: int, limit: int, offset: int) -> int {
    if offset >= n {
        n
    } else if limit < n - offset {
        offset + limit
    } else {
        n
    }
}

proof fn lemma_place_bounds(t: Seq<Option<i64>>, order: Seq<int>, x: Option<i64>, k: int)
    requires
        0 <= k <= order.len(),
    ensures
        k <= place_from(t, order, x, k) <= order.len(),
        forall|j: int| k <= j < place_from(t, order, x, k) ==> !newer(x, t[order[j]]),
        place_from(t, order, x, k) < order.len() ==> newer(
            x,
            t[order[place_from(t, order, x, k)]],
        ),
    decreases order.len() - k,
{
    if k < order.len() && !newer(x, t[order[k]]) {
        lemma_place_bounds(t, order, x, k + 1);
    }
}

/// Every stored event comes exactly once.
pub open spec fn is_ordering(o: Seq<int>, n: int) -> bool {
    &&& o.len() == n
    &&& forall|k: int| 0 <= k < o.len() ==> 0 <= #[trigger] o[k] < n
    &&& forall|a: int, b: int| 0 <= a < b < o.len() ==> o[a] != o[b]
}

/// No event comes after an event strictly older than it.
pub open spec fn is_newest_first(t: Seq<Option<i64>>, o: Seq<int>) -> bool {
    forall|a: int, b: int| 0 <= a < b < o.len() ==> !newer(#[trigger] t[o[b]], #[trigger] t[o[a]])
}

/// The Events page lists every stored event exactly once, newest first with
/// unknown times last.
pub proof fn lemma_events_newest_first(t: Seq<Option<i64>>, n: int)
    requires
        0 <= n <= t.len(),
    ensures
        is_ordering(newest_first(t, n), n),
        is_newest_first(t, newest_first(t, n)),
    decreases n,
{
    if n > 0 {
        lemma_events_newest_first(t, n - 1);
        let o = newest_first(t, n - 1);
        let x = t[n - 1];
        let p = place_from(t, o, x, 0);
        lemma_place_bounds(t, o, x, 0);
        let o2 = o.insert(p, n - 1);
        assert(o2 == newest_first(t, n));
        assert forall|k: int| 0 <= k < o2.len() implies 0 <= #[trigger] o2[k] < n by {
            if k < p {
                assert(o2[k] == o[k]);
            } else if k > p {
                assert(o2[k] == o[k - 1]);
            }
        }
        assert forall|a: int, b: int| 0 <= a < b < o2.len() implies o2[a] != o2[b] by {
            if a < p && b < p {
                assert(o2[a] == o[a] && o2[b] == o[b]);
            } else if a < p && b == p {
                assert(o2[a] == o[a]);
            } else if a < p {
                assert(o2[a] == o[a] && o2[b] == o[b - 1]);
            } else if a == p {
                assert(o2[b] == o[b - 1]);
            } else {
                assert(o2[a] == o[a - 1] && o2[b] == o[b - 1]);
            }
        }
        assert forall|a: int, b: int| 0 <= a < b < o2.len() implies !newer(
            #[trigger] t[o2[b]],
            #[trigger] t[o2[a]],
        ) by {
            if a < p && b < p {
                assert(o2[a] == o[a] && o2[b] == o[b]);
            } else if a < p && b == p {
                assert(o2[a] == o[a]);
                assert(!newer(x, t[o[a]]));
            } else if a < p {
                assert(o2[a] == o[a] && o2[b] == o[b - 1]);
            } else if a == p {
                assert(o2[b] == o[b - 1]);
                assert(newer(x, t[o[p]]));
                if b - 1 > p {
                    assert(!newer(t[o[b - 1]], t[o[p]]));
                }
            } else {
                assert(o2[a] == o[a - 1] && o2[b] == o[b - 1]);
            }
        }
    }
}

fn newer_exec(a: Option<i64>, b: Option<i64>) -> (r: bool)
    ensures
        r == newer(a, b),
{
    match (a, b) {
        (Some(x), Some(y)) => x > y,
        (Some(_), None) => true,
        _ => false,
    }
}

/// `GET /events/lineage`: the stored documents newest first (unknown times
/// last, storage order among equal times), the page of at most `limit`
/// events after the first `offset`, without the events that hold no
/// document; `total_count` counts every stored event.
pub fn events_page(rows: &Vec<StoredEvent>, limit: usize, offset: usize) -> (r: EventsPage)
    ensures
        r.total_count == rows@.len(),
        r.events@.map_values(|s: String| s@) == page_raws(
            rows@,
            newest_first(times(rows@), rows@.len() as int),
            offset as int,
            page_end(rows@.len() as int, limit as int, offset as int),
        ),
{
    let ghost t = times(rows@);
    let n = rows.len();
    let mut order: Vec<usize> = Vec::new();
    let mut i: usize = 0;
    while i < n
        invariant
            n == rows@.len(),
            t == times(rows@),
            i <= n,
            order@.map_values(|k: usize| k as int) == newest_first(t, i as int),
        decreases n - i,
    {
        let x = rows[i].event_time;
        let ghost o = order@.map_values(|k: usize| k as int);
        proof {
            lemma_events_newest_first(t, i as int);
            assert(t[i as int] == x);
            assert forall|j: int| 0 <= j < order@.len() implies (order@[j] as int) < i by {
                assert(o[j] == order@[j] as int);
            }
        }
        let mut k: usize = 0;
        while k < order.len() && !newer_exec(x, rows[order[k]].event_time)
            invariant
                k <= order.len(),
                o == order@.map_values(|k: usize| k as int),
                is_ordering(o, i as int),
                i < n,
                n == rows@.len(),
                t == times(rows@),
                t[i as int] == x,
                forall|j: int| 0 <= j < order@.len() ==> (order@[j] as int) < i,
                place_from(t, o, x, 0) == place_from(t, o, x, k as int),
            decreases order.len() - k,
        {
            proof {
                assert(o[k as int] == order@[k as int] as int);
                assert(t[o[k as int]] == rows@[order@[k as int] as int].event_time);
            }
            k = k + 1;
        }
        proof {
            if k < order.len() {
                assert(o[k as int] == order@[k as int] as int);
                assert(t[o[k as int]] == rows@[order@[k as int] as int].event_time);
            }
            assert(place_from(t, o, x, k as int) == k as int);
        }
        order.insert(k, i);
        proof {
            assert(order@.map_values(|k: usize| k as int) =~= o.insert(k as int, i as int));
        }
        i = i + 1;
    }
    let ghost o = order@.map_values(|k: usize| k as int);
    proof {
        lemma_events_newest_first(t, n as int);
        assert forall|j: int| 0 <= j < order@.len() implies (order@[j] as int) < n by {
            assert(o[j] == order@[j] as int);
        }
    }
    let end = if offset >= n {
        n
    } else if limit < n - offset {
        offset + limit
    } else {
        n
    };
    let mut events: Vec<String> = Vec::new();
    let mut k: usize = offset;
    if k > end {
        k = end;
    }
    let start = k;
    proof {
        assert(offset >= n ==> start == n);
    }
    while k < end
        invariant
            start <= k <= end <= n,
            n == rows@.len(),
            o == order@.map_values(|k: usize| k as int),
            is_ordering(o, n as int),
            forall|j: int| 0 <= j < order@.len() ==> (order@[j] as int) < n,
            events@.map_values(|s: String| s@) == page_raws(rows@, o, start as int, k as int),
        decreases end - k,
    {
        proof {
            assert(o[k as int] == order@[k as int] as int);
        }
        let ghost before = events@.map_values(|s: String| s@);
        match &rows[order[k]].raw_json {
            Some(raw) => {
                events.push(raw.clone());
                proof {
                    assert(events@.map_values(|s: String| s@) =~= before.push(raw@));
                }
            },
            None => {},
        }
        k = k + 1;
    }
    proof {
        if offset >= n {
            assert(page_raws(rows@, o, offset as int, n as int) =~= Seq::<Seq<char>>::empty());
            assert(page_raws(rows@, o, start as int, k as int) =~= Seq::<Seq<char>>::empty());
        }
    }
    EventsPage { events, total_count: n }
}

} // verus!
