//! Searching the history.

use vstd::prelude::*;
use crate::base::fuzzy::{
    find_match, found_positions_are_hit, highlight_indices, marked, match_of, matcher, picked,
};
use crate::hugin::proto::SearchSort;
use crate::hugin::storage::{capped_limit, row_views, Row, RowView, MAX_LIMIT};
use crate::ranking::{goes_before, is_ranking, rank, ranking_is_unique, Rank};
use crate::sorting::distinct_numbers;
use crate::text::{chars_of, opt_view, substring, trim, trimmed};

verus! {

/// How many characters of an entry's text a search looks at.
pub const MATCH_PREFIX: usize = 4096;

/// An entry that a search goes through.
pub struct Candidate {
    pub id: i64,
    pub ts_unix_ns: i64,
    pub selection: String,
    pub size_bytes: i64,
    /// What it is found by.
    pub text: Option<String>,
}

/// What a [`Candidate`] holds.
pub ghost struct CandidateView {
    pub id: i64,
    pub ts_unix_ns: i64,
    pub selection: Seq<char>,
    pub size_bytes: i64,
    pub text: Option<Seq<char>>,
}

impl View for Candidate {
    type V = CandidateView;

    open spec fn view(&self) -> CandidateView {
        CandidateView {
            id: self.id,
            ts_unix_ns: self.ts_unix_ns,
            selection: self.selection@,
            size_bytes: self.size_bytes,
            text: opt_view(self.text),
        }
    }
}

/// The views of the candidates of `v`.
pub open spec fn candidate_views(v: Seq<Candidate>) -> Seq<CandidateView> {
    Seq::new(v.len(), |i: int| v[i]@)
}

/// The first `n` characters of `s`.
pub open spec fn prefix(s: Seq<char>, n: int) -> Seq<char> {
    if s.len() <= n {
        s
    } else {
        s.take(n)
    }
}

/// The first `n` characters of `s`.
pub fn prefix_chars(s: &str, n: usize) -> (r: String)
    ensures
        r@ == prefix(s@, n as int),
{
    let v = chars_of(s);
    if v.len() <= n {
        s.to_owned()
    } else {
        assert(v@.subrange(0, n as int) == v@.take(n as int));
        substring(&v, 0, n)
    }
}

/// What the search `q` finds in a text: its score, and the text that it looked at
/// with markers round what was matched.
pub open spec fn find_in(q: Seq<char>, text: Option<Seq<char>>) -> Option<(u32, Seq<char>)> {
    match text {
        Some(t) => {
            let hay = prefix(t, MATCH_PREFIX as int);
            match match_of(q, hay) {
                Some(m) => Some((m.0, marked(hay, picked(m.1, hay.len())))),
                None => None,
            }
        },
        None => None,
    }
}

/// How finds rank: by score, then the newer first.
pub struct FindRank {
    pub score: u32,
    pub id: i64,
}

impl Rank for FindRank {
    open spec fn before(self, other: Self) -> bool {
        self.score > other.score || (self.score == other.score && self.id > other.id)
    }

    proof fn irreflexive(a: Self) {
    }

    proof fn transitive(a: Self, b: Self, c: Self) {
    }

    proof fn negatively_transitive(a: Self, b: Self, c: Self) {
    }

    fn ranks_before(&self, other: &Self) -> (r: bool) {
        self.score > other.score || (self.score == other.score && self.id > other.id)
    }
}

/// The rank of a candidate in the search `q`, where it is found. By time, every
/// find scores alike.
pub open spec fn find_rank(c: CandidateView, q: Seq<char>, sort: SearchSort) -> Option<FindRank> {
    match find_in(q, c.text) {
        Some(f) => Some(
            FindRank {
                score: if sort == SearchSort::Relevance {
                    f.0
                } else {
                    0
                },
                id: c.id,
            },
        ),
        None => None,
    }
}

/// The ranks of the candidates in the search `q`.
pub open spec fn find_ranks(pool: Seq<CandidateView>, q: Seq<char>, sort: SearchSort) -> Seq<
    Option<FindRank>,
> {
    Seq::new(pool.len(), |i: int| find_rank(pool[i], q, sort))
}

/// A candidate that the search `q` finds, as a row.
pub open spec fn found_row(c: CandidateView, q: Seq<char>) -> RowView {
    RowView {
        id: c.id,
        ts_unix_ns: c.ts_unix_ns,
        selection: c.selection,
        size_bytes: c.size_bytes,
        snippet: match find_in(q, c.text) {
            Some(f) => Some(f.1),
            None => None,
        },
    }
}

/// Whether `rows` are the best finds of the search `q`, at most `limit` of them,
/// best first.
pub open spec fn is_search_result(
    rows: Seq<RowView>,
    pool: Seq<CandidateView>,
    q: Seq<char>,
    sort: SearchSort,
    limit: int,
) -> bool {
    exists|order: Seq<usize>| #[trigger]
        is_ranking(order, find_ranks(pool, q, sort)) && rows == best_rows(pool, q, order, limit)
}

/// The rows of the first of `order`, at most `limit` of them.
pub open spec fn best_rows(
    pool: Seq<CandidateView>,
    q: Seq<char>,
    order: Seq<usize>,
    limit: int,
) -> Seq<RowView> {
    let n = if order.len() < limit {
        order.len() as int
    } else {
        limit
    };
    Seq::new(n as nat, |i: int| found_row(pool[order[i] as int], q))
}

/// What is searched for: nothing where the query holds only white space, and
/// then the latest entries are listed instead.
pub fn wanted(query: &str) -> (q: Option<String>)
    ensures
        match q {
            Some(q) => q@ == trimmed(query@) && q@.len() > 0,
            None => trimmed(query@).len() == 0,
        },
{
    let q = trim(query);
    if q.as_str().is_empty() {
        None
    } else {
        Some(q)
    }
}

/// Lists of the same numbers pick the same characters.
proof fn lemma_same_picks(a: Seq<u32>, b: Seq<u32>, n: nat)
    requires
        forall|x: u32| #[trigger] a.contains(x) <==> b.contains(x),
    ensures
        picked(a, n) == picked(b, n),
{
    assert forall|i: int| 0 <= i < n implies picked(a, n)[i] == picked(b, n)[i] by {
        if picked(a, n)[i] {
            let j = choose|j: int| 0 <= j < a.len() && #[trigger] a[j] == i;
            assert(a.contains(a[j]));
            let k = choose|k: int| 0 <= k < b.len() && b[k] == a[j];
            assert(b[k] == i);
        }
        if picked(b, n)[i] {
            let j = choose|j: int| 0 <= j < b.len() && #[trigger] b[j] == i;
            assert(b.contains(b[j]));
            assert(a.contains(b[j]));
            let k = choose|k: int| 0 <= k < a.len() && a[k] == b[j];
            assert(a[k] == i);
        }
    }
}

/// What the search finds in each candidate.
fn find_all(pool: &Vec<Candidate>, query: &str) -> (finds: Vec<Option<(u32, String)>>)
    ensures
        finds@.len() == pool@.len(),
        forall|i: int|
            0 <= i < pool@.len() ==> match #[trigger] finds@[i] {
                Some(f) => find_in(query@, opt_view(pool@[i].text)) == Some((f.0, f.1@)),
                None => find_in(query@, opt_view(pool@[i].text)) is None,
            },
{
    let mut m = matcher();
    let mut finds: Vec<Option<(u32, String)>> = Vec::new();
    let mut i: usize = 0;
    while i < pool.len()
        invariant
            i <= pool@.len(),
            finds@.len() == i,
            forall|i: int|
                0 <= i < finds@.len() ==> match #[trigger] finds@[i] {
                    Some(f) => find_in(query@, opt_view(pool@[i].text)) == Some((f.0, f.1@)),
                    None => find_in(query@, opt_view(pool@[i].text)) is None,
                },
        decreases pool@.len() - i,
    {
        let found = match &pool[i].text {
            Some(text) => {
                let hay = prefix_chars(text.as_str(), MATCH_PREFIX);
                match find_match(&mut m, query, hay.as_str()) {
                    Some(hit) => {
                        let indices = distinct_numbers(&hit.1);
                        proof {
                            let n = hay@.len();
                            found_positions_are_hit(indices@, n);
                            lemma_same_picks(indices@, hit.1@, n);
                        }
                        Some((hit.0, highlight_indices(hay.as_str(), &indices)))
                    },
                    None => None,
                }
            },
            None => None,
        };
        finds.push(found);
        i += 1;
    }
    finds
}

/// The entries of `pool` that the search finds, best first: the better match, or
/// the newer entry, and of two that match alike the newer one. At most `limit`
/// of them.
pub fn search(
    pool: &Vec<Candidate>,
    query: &str,
    sort: SearchSort,
    limit: usize,
) -> (rows: Vec<Row>)
    ensures
        is_search_result(
            row_views(rows@),
            candidate_views(pool@),
            query@,
            sort,
            capped_limit(limit as int),
        ),
{
    let ghost pv = candidate_views(pool@);
    let finds = find_all(pool, query);
    let mut ranks: Vec<Option<FindRank>> = Vec::new();
    let mut i: usize = 0;
    while i < pool.len()
        invariant
            i <= pool@.len(),
            pv == candidate_views(pool@),
            finds@.len() == pool@.len(),
            forall|i: int|
                0 <= i < pool@.len() ==> match #[trigger] finds@[i] {
                    Some(f) => find_in(query@, opt_view(pool@[i].text)) == Some((f.0, f.1@)),
                    None => find_in(query@, opt_view(pool@[i].text)) is None,
                },
            ranks@ == find_ranks(pv, query@, sort).take(i as int),
        decreases pool@.len() - i,
    {
        assert(pv[i as int] == pool@[i as int]@);
        let key = match &finds[i] {
            Some(f) => Some(
                FindRank {
                    score: if sort == SearchSort::Relevance {
                        f.0
                    } else {
                        0
                    },
                    id: pool[i].id,
                },
            ),
            None => None,
        };
        assert(key == find_rank(pv[i as int], query@, sort));
        ranks.push(key);
        assert(ranks@ =~= find_ranks(pv, query@, sort).take(i + 1));
        i += 1;
    }
    assert(find_ranks(pv, query@, sort).take(pool@.len() as int) =~= find_ranks(pv, query@, sort));
    let order = rank(&ranks);
    let cap: usize = if limit < MAX_LIMIT {
        limit
    } else {
        MAX_LIMIT
    };
    let n: usize = if order.len() < cap {
        order.len()
    } else {
        cap
    };
    let mut rows: Vec<Row> = Vec::new();
    let mut k: usize = 0;
    while k < n
        invariant
            k <= n <= order@.len(),
            pv == candidate_views(pool@),
            is_ranking(order@, find_ranks(pv, query@, sort)),
            finds@.len() == pool@.len(),
            forall|i: int|
                0 <= i < pool@.len() ==> match #[trigger] finds@[i] {
                    Some(f) => find_in(query@, opt_view(pool@[i].text)) == Some((f.0, f.1@)),
                    None => find_in(query@, opt_view(pool@[i].text)) is None,
                },
            row_views(rows@) == Seq::new(
                k as nat,
                |i: int| found_row(pv[order@[i] as int], query@),
            ),
        decreases n - k,
    {
        let at = order[k];
        assert(at < pool@.len());
        assert(pv[at as int] == pool@[at as int]@);
        let c = &pool[at];
        let snippet = match &finds[at] {
            Some(f) => Some(f.1.clone()),
            None => None,
        };
        let row = Row {
            id: c.id,
            ts_unix_ns: c.ts_unix_ns,
            selection: c.selection.clone(),
            size_bytes: c.size_bytes,
            snippet,
        };
        let ghost rv = row@;
        assert(rv == found_row(pv[at as int], query@));
        let ghost done = rows@;
        rows.push(row);
        assert(row_views(rows@) =~= row_views(done).push(rv));
        k += 1;
        assert(row_views(rows@) =~= Seq::new(
            k as nat,
            |i: int| found_row(pv[order@[i] as int], query@),
        ));
    }
    proof {
        assert(row_views(rows@) =~= best_rows(
            pv,
            query@,
            order@,
            capped_limit(limit as int),
        ));
    }
    rows
}

/// A search has one result.
pub proof fn search_result_is_unique(
    a: Seq<RowView>,
    b: Seq<RowView>,
    pool: Seq<CandidateView>,
    q: Seq<char>,
    sort: SearchSort,
    limit: int,
)
    requires
        pool.len() <= usize::MAX,
        limit >= 0,
        is_search_result(a, pool, q, sort, limit),
        is_search_result(b, pool, q, sort, limit),
    ensures
        a == b,
{
    let ranks = find_ranks(pool, q, sort);
    let x = choose|order: Seq<usize>| #[trigger]
        is_ranking(order, ranks) && a == best_rows(pool, q, order, limit);
    let y = choose|order: Seq<usize>| #[trigger]
        is_ranking(order, ranks) && b == best_rows(pool, q, order, limit);
    ranking_is_unique(x, y, ranks);
}

/// Entries without text are never found, and every find shows what was matched.
pub proof fn finds_have_text(
    rows: Seq<RowView>,
    pool: Seq<CandidateView>,
    q: Seq<char>,
    sort: SearchSort,
    limit: int,
    i: int,
)
    requires
        is_search_result(rows, pool, q, sort, limit),
        0 <= i < rows.len(),
        limit >= 0,
    ensures
        exists|k: int|
            0 <= k < pool.len() && (#[trigger] pool[k]).id == rows[i].id && pool[k].text is Some,
        rows[i].snippet is Some,
        rows.len() <= limit,
{
    let ranks = find_ranks(pool, q, sort);
    let order = choose|order: Seq<usize>| #[trigger]
        is_ranking(order, ranks) && rows == best_rows(pool, q, order, limit);
    let k = order[i] as int;
    assert(ranks[k] is Some);
    assert(find_rank(pool[k], q, sort) is Some);
    assert(pool[k].id == rows[i].id);
}

/// By time, the newer of two finds stands first.
pub proof fn newer_finds_stand_first(
    rows: Seq<RowView>,
    pool: Seq<CandidateView>,
    q: Seq<char>,
    limit: int,
    i: int,
    j: int,
)
    requires
        is_search_result(rows, pool, q, SearchSort::Recent, limit),
        0 <= i < j < rows.len(),
        limit >= 0,
    ensures
        rows[i].id >= rows[j].id,
{
    let ranks = find_ranks(pool, q, SearchSort::Recent);
    let order = choose|order: Seq<usize>| #[trigger]
        is_ranking(order, ranks) && rows == best_rows(pool, q, order, limit);
    let a = order[i] as int;
    let b = order[j] as int;
    assert(ranks[a] is Some);
    assert(ranks[b] is Some);
    assert(find_rank(pool[a], q, SearchSort::Recent) is Some);
    assert(find_rank(pool[b], q, SearchSort::Recent) is Some);
    assert(goes_before(ranks, a, b));
}

/// By relevance, of two finds the one that scores less never stands first, and of
/// two that score alike the newer one does.
pub proof fn better_finds_stand_first(
    rows: Seq<RowView>,
    pool: Seq<CandidateView>,
    q: Seq<char>,
    limit: int,
    i: int,
    j: int,
)
    requires
        is_search_result(rows, pool, q, SearchSort::Relevance, limit),
        0 <= i < j < rows.len(),
        limit >= 0,
    ensures
        exists|a: int, b: int|
            {
                &&& 0 <= a < pool.len()
                &&& 0 <= b < pool.len()
                &&& rows[i] == #[trigger] found_row(pool[a], q)
                &&& rows[j] == #[trigger] found_row(pool[b], q)
                &&& find_in(q, pool[a].text) is Some
                &&& find_in(q, pool[b].text) is Some
                &&& (find_in(q, pool[a].text)->0).0 >= (find_in(q, pool[b].text)->0).0
                &&& (find_in(q, pool[a].text)->0).0 == (find_in(q, pool[b].text)->0).0
                    ==> rows[i].id >= rows[j].id
                &&& (find_in(q, pool[a].text)->0).0 == (match_of(
                    q,
                    prefix(pool[a].text->0, 4096),
                )->0).0
                &&& (find_in(q, pool[b].text)->0).0 == (match_of(
                    q,
                    prefix(pool[b].text->0, 4096),
                )->0).0
            },
{
    let ranks = find_ranks(pool, q, SearchSort::Relevance);
    let order = choose|order: Seq<usize>| #[trigger]
        is_ranking(order, ranks) && rows == best_rows(pool, q, order, limit);
    let a = order[i] as int;
    let b = order[j] as int;
    assert(ranks[a] is Some);
    assert(ranks[b] is Some);
    assert(find_rank(pool[a], q, SearchSort::Relevance) is Some);
    assert(find_rank(pool[b], q, SearchSort::Relevance) is Some);
    assert(goes_before(ranks, a, b));
    assert(rows[i] == found_row(pool[a], q));
    assert(rows[j] == found_row(pool[b], q));
}

} // verus!
