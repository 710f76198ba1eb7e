//! Ranking stored records against a query: order by score, highest first,
//! then keep the top `k`.
use vstd::prelude::*;

use crate::client::Client;
use crate::embedding::{EmbeddingInput, EmbeddingRequest, EmbeddingResponse, EMBEDDING_MODEL};
use crate::error::SemanticSearchError;
use crate::store::{EmbeddingRecord, texts_view};

verus! {

/// The number of suggestions a query returns.
pub const TOP_K: usize = 10;

/// A ranked result: the record's identity, its score dropped.
#[derive(Clone, Debug, PartialEq, Eq)]
pub struct Suggestions {
    pub name: String,
    pub header: String,
}

/// Entry `i` ranks before entry `j`: a higher score, or an equal score and an
/// earlier position.
pub open spec fn ranks_before(scores: Seq<u32>, i: int, j: int) -> bool {
    scores[i] > scores[j] || (scores[i] == scores[j] && i < j)
}

/// `order` lists every entry exactly once, best first.
pub open spec fn is_ranking(scores: Seq<u32>, order: Seq<usize>) -> bool {
    &&& order.len() == scores.len()
    &&& forall|p: int| 0 <= p < order.len() ==> #[trigger] order[p] < scores.len()
    &&& forall|j: usize| j < scores.len() ==> #[trigger] order.contains(j)
    &&& forall|p: int, q: int|
        0 <= p < q < order.len() ==> ranks_before(scores, #[trigger] order[p] as int, #[trigger] order[q] as int)
}

/// Scores that compare alike give the same rankings: a ranking depends on
/// the scores only through their order, so a change of scores that keeps
/// every comparison (such as rescaling a vector under a magnitude-invariant
/// similarity) leaves it as it is.
pub proof fn lemma_ranking_depends_on_order_only(s1: Seq<u32>, s2: Seq<u32>, order: Seq<usize>)
    requires
        s1.len() == s2.len(),
        forall|i: int, j: int|
            0 <= i < s1.len() && 0 <= j < s1.len() ==> (#[trigger] s1[i] > #[trigger] s1[j] <==> s2[i]
                > s2[j]) && (s1[i] == s1[j] <==> s2[i] == s2[j]),
        is_ranking(s1, order),
    ensures
        is_ranking(s2, order),
{
    assert forall|p: int, q: int| 0 <= p < q < order.len() implies ranks_before(
        s2,
        #[trigger] order[p] as int,
        #[trigger] order[q] as int,
    ) by {
        assert(ranks_before(s1, order[p] as int, order[q] as int));
        assert(order[p] < s1.len() && order[q] < s1.len());
    }
}

proof fn lemma_ranking_prefix(scores: Seq<u32>, o1: Seq<usize>, o2: Seq<usize>, p: int)
    requires
        is_ranking(scores, o1),
        is_ranking(scores, o2),
        0 <= p < o1.len(),
    ensures
        forall|k: int| 0 <= k <= p ==> o1[k] == o2[k],
    decreases p,
{
    if p > 0 {
        lemma_ranking_prefix(scores, o1, o2, p - 1);
    }
    let x = o1[p];
    let y = o2[p];
    if x != y {
        assert(x < scores.len() && y < scores.len());
        assert(o2.contains(x));
        let q = choose|q: int| 0 <= q < o2.len() && o2[q] == x;
        if q < p {
            assert(o1[q] == o2[q]);
            assert(ranks_before(scores, o1[q] as int, o1[p] as int));
        }
        assert(q != p);
        assert(ranks_before(scores, y as int, x as int));
        assert(o1.contains(y));
        let q1 = choose|q1: int| 0 <= q1 < o1.len() && o1[q1] == y;
        if q1 < p {
            assert(o1[q1] == o2[q1]);
            assert(ranks_before(scores, o2[q1] as int, o2[p] as int));
        }
        assert(q1 != p);
        assert(ranks_before(scores, x as int, y as int));
    }
}

/// Scores have exactly one ranking.
pub proof fn lemma_ranking_unique(scores: Seq<u32>, o1: Seq<usize>, o2: Seq<usize>)
    requires
        is_ranking(scores, o1),
        is_ranking(scores, o2),
    ensures
        o1 == o2,
{
    if o1.len() > 0 {
        lemma_ranking_prefix(scores, o1, o2, o1.len() - 1);
    }
    assert(o1 =~= o2);
}

/// The positions of the entries, best score first; equal scores keep their
/// input order.
pub fn rank_order(scores: &Vec<u32>) -> (r: Vec<usize>)
    ensures
        is_ranking(scores@, r@),
{
    let n = scores.len();
    let mut order: Vec<usize> = Vec::new();
    let mut i: usize = 0;
    while i < n
        invariant
            n == scores@.len(),
            i <= n,
            order@.len() == i,
            forall|p: int| 0 <= p < order@.len() ==> #[trigger] order@[p] < i,
            forall|j: usize| j < i ==> #[trigger] order@.contains(j),
            forall|p: int, q: int|
                0 <= p < q < order@.len() ==> ranks_before(
                    scores@,
                    #[trigger] order@[p] as int,
                    #[trigger] order@[q] as int,
                ),
        decreases n - i,
    {
        let key = scores[i];
        let mut pos: usize = 0;
        while pos < order.len() && scores[order[pos]] >= key
            invariant
                n == scores@.len(),
                i < n,
                pos <= order@.len(),
                forall|p: int| 0 <= p < order@.len() ==> #[trigger] order@[p] < i,
                forall|p: int| 0 <= p < pos ==> scores@[#[trigger] order@[p] as int] >= key,
            decreases order@.len() - pos,
        {
            pos = pos + 1;
        }
        let ghost prev = order@;
        proof {
            assert forall|q: int| pos <= q < prev.len() implies scores@[#[trigger] prev[q] as int]
                < key by {
                if q > pos {
                    assert(ranks_before(scores@, prev[pos as int] as int, prev[q] as int));
                }
            }
        }
        order.insert(pos, i);
        proof {
            assert forall|p: int| 0 <= p < order@.len() implies #[trigger] order@[p] < i + 1 by {
                if p < pos {
                    assert(order@[p] == prev[p]);
                } else if p > pos {
                    assert(order@[p] == prev[p - 1]);
                }
            }
            assert forall|j: usize| j < i + 1 implies #[trigger] order@.contains(j) by {
                if j == i {
                    assert(order@[pos as int] == i);
                } else {
                    assert(prev.contains(j));
                    let w = choose|w: int| 0 <= w < prev.len() && prev[w] == j;
                    if w < pos {
                        assert(order@[w] == prev[w]);
                    } else {
                        assert(order@[w + 1] == prev[w]);
                    }
                }
            }
            assert forall|p: int, q: int| 0 <= p < q < order@.len() implies ranks_before(
                scores@,
                #[trigger] order@[p] as int,
                #[trigger] order@[q] as int,
            ) by {
                if q < pos {
                    assert(order@[p] == prev[p] && order@[q] == prev[q]);
                } else if q == pos {
                    assert(order@[p] == prev[p]);
                } else if p < pos {
                    assert(order@[p] == prev[p] && order@[q] == prev[q - 1]);
                } else if p == pos {
                    assert(order@[q] == prev[q - 1]);
                } else {
                    assert(order@[p] == prev[p - 1] && order@[q] == prev[q - 1]);
                }
            }
        }
        i = i + 1;
    }
    order
}

/// Answers free-text queries against the embedding store.
#[derive(Clone, Debug)]
pub struct QueryCommand {
    client: Client,
}

impl QueryCommand {
    pub closed spec fn client_spec(&self) -> Client {
        self.client
    }

    pub fn new(client: Client) -> (r: Self)
        ensures
            r.client_spec() == client,
    {
        QueryCommand { client }
    }

    pub fn client(&self) -> (r: &Client)
        ensures
            *r == self.client_spec(),
    {
        &self.client
    }

    /// The request for the query's embedding: a single-text input.
    pub fn query_request(&self, query: String) -> (r: EmbeddingRequest)
        ensures
            r.model@ == EMBEDDING_MODEL@,
            r.input == EmbeddingInput::String(query),
            r.user is None,
    {
        self.client.create_embedding_request(EmbeddingInput::String(query))
    }
}

/// The smaller of two counts.
pub open spec fn min_nat(a: nat, b: nat) -> nat {
    if a < b {
        a
    } else {
        b
    }
}

/// The top `top_k` records by score, best first, as (name, header) pairs:
/// every record when there are fewer, and never a filler entry.
pub fn get_suggestions(records: &Vec<EmbeddingRecord>, scores: &Vec<u32>, top_k: usize) -> (r: Vec<
    Suggestions,
>)
    requires
        scores@.len() == records@.len(),
    ensures
        r@.len() == min_nat(records@.len(), top_k as nat),
        exists|order: Seq<usize>|
            {
                &&& is_ranking(scores@, order)
                &&& forall|p: int|
                    0 <= p < r@.len() ==> {
                        &&& (#[trigger] r@[p]).name@ == records@[order[p] as int].name@
                        &&& r@[p].header@ == records@[order[p] as int].header@
                    }
            },
{
    let order = rank_order(scores);
    let count = if records.len() < top_k {
        records.len()
    } else {
        top_k
    };
    let mut out: Vec<Suggestions> = Vec::new();
    let mut p: usize = 0;
    while p < count
        invariant
            is_ranking(scores@, order@),
            scores@.len() == records@.len(),
            count <= records@.len(),
            p <= count,
            out@.len() == p,
            forall|m: int|
                0 <= m < p ==> {
                    &&& (#[trigger] out@[m]).name@ == records@[order@[m] as int].name@
                    &&& out@[m].header@ == records@[order@[m] as int].header@
                },
        decreases count - p,
    {
        let rec = &records[order[p]];
        out.push(Suggestions { name: rec.name.clone(), header: rec.header.clone() });
        p = p + 1;
    }
    out
}

/// The query's embedding: the first one of the reply.
pub fn query_embedding(response: &EmbeddingResponse) -> (r: Result<
    Vec<String>,
    SemanticSearchError,
>)
    ensures
        match r {
            Ok(v) => response.data@.len() > 0 && texts_view(v@) == texts_view(
                response.data@[0].embedding@,
            ),
            Err(e) => response.data@.len() == 0 && e == SemanticSearchError::EmptyEmbeddingResponse,
        },
{
    if response.data.len() == 0 {
        return Err(SemanticSearchError::EmptyEmbeddingResponse);
    }
    let src = &response.data[0].embedding;
    let mut out: Vec<String> = Vec::new();
    let mut i: usize = 0;
    while i < src.len()
        invariant
            i <= src@.len(),
            out@.len() == i,
            forall|j: int| 0 <= j < i ==> #[trigger] out@[j]@ == src@[j]@,
        decreases src@.len() - i,
    {
        out.push(src[i].clone());
        i = i + 1;
    }
    assert(texts_view(out@) =~= texts_view(src@));
    Ok(out)
}

} // verus!
