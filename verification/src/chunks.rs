//! Splitting a list of ids into the `ids=` values of bulk requests.
use vstd::prelude::*;
use vstd::string::*;
use crate::ids::EndpointId;

verus! {

/// The most ids that one bulk request carries.
pub const CHUNK_SIZE: usize = 200;

/// The texts of a list of ids, in order.
pub open spec fn id_texts<I: EndpointId>(ids: Seq<I>) -> Seq<Seq<char>> {
    Seq::new(ids.len(), |i: int| ids[i].text())
}

/// Texts joined by commas, with none in front and none behind.
pub open spec fn comma_joined(texts: Seq<Seq<char>>) -> Seq<char>
    decreases texts.len(),
{
    if texts.len() == 0 {
        Seq::empty()
    } else if texts.len() == 1 {
        texts[0]
    } else {
        comma_joined(texts.drop_last()) + seq![','] + texts.last()
    }
}

/// How many chunks a list of `n` entries falls into: `n / 200`, rounded up.
pub open spec fn chunk_count(n: nat) -> nat {
    (n + 199) / 200
}

/// Where chunk `k` of a list of `n` entries ends.
pub open spec fn chunk_end(n: nat, k: int) -> int {
    if 200 * (k + 1) <= n {
        200 * (k + 1)
    } else {
        n as int
    }
}

/// Chunk `k` of a list: entries `200 * k` up to `200 * k + 200`, or up to
/// the end of the list where that comes first.
pub open spec fn chunk<A>(list: Seq<A>, k: int) -> Seq<A> {
    list.subrange(200 * k, chunk_end(list.len(), k))
}

/// What `join_ids` returns for a list of texts: one comma-joined string for
/// each chunk, in order.
pub open spec fn joined_chunks(texts: Seq<Seq<char>>) -> Seq<Seq<char>> {
    Seq::new(chunk_count(texts.len()), |k: int| comma_joined(chunk(texts, k)))
}

/// Every chunk but the last is full, the last holds what is left, and no
/// chunk is empty.
pub proof fn lemma_chunk_bounds(n: nat, k: int)
    requires
        0 <= k < chunk_count(n),
    ensures
        200 * k < chunk_end(n, k) <= n,
        chunk_end(n, k) - 200 * k <= 200,
        k + 1 < chunk_count(n) ==> chunk_end(n, k) == 200 * (k + 1),
        k + 1 == chunk_count(n) ==> chunk_end(n, k) == n,
{
}

/// Concatenates ids, separated by commas (`1,2,3,4`), in batches of up to
/// 200 ids: one string for each batch, none for an empty list.
pub fn join_ids<I: EndpointId>(ids: &[I]) -> (result: Vec<String>)
    ensures
        result.len() == chunk_count(ids@.len()),
        result@.map_values(|s: String| s@) == joined_chunks(id_texts(ids@)),
{
    let ghost texts = id_texts(ids@);
    let n = ids.len();
    let mut result: Vec<String> = Vec::new();
    let mut start: usize = 0;
    while start < n
        invariant
            n == ids@.len(),
            texts == id_texts(ids@),
            start <= n,
            start < n ==> start == 200 * result.len(),
            start == n ==> result.len() == chunk_count(n as nat),
            forall|k: int|
                0 <= k < result.len() ==> (#[trigger] result@[k])@ == comma_joined(
                    chunk(texts, k),
                ),
        decreases n - start,
    {
        let ghost k = result.len() as int;
        let end: usize = if n - start > CHUNK_SIZE {
            start + CHUNK_SIZE
        } else {
            n
        };
        assert(end as int == chunk_end(n as nat, k));
        let mut query_string = ids[start].render();
        assert(texts.subrange(start as int, start + 1) =~= seq![texts[start as int]]);
        let mut i: usize = start + 1;
        while i < end
            invariant
                n == ids@.len(),
                texts == id_texts(ids@),
                start < i <= end <= n,
                query_string@ == comma_joined(texts.subrange(start as int, i as int)),
            decreases end - i,
        {
            proof {
                reveal_strlit(",");
                let upto = texts.subrange(start as int, i + 1);
                assert(upto.drop_last() =~= texts.subrange(start as int, i as int));
                assert(upto.last() == ids@[i as int].text());
                assert(","@ =~= seq![',']);
            }
            let text = ids[i].render();
            query_string.append(",");
            query_string.append(text.as_str());
            i += 1;
        }
        result.push(query_string);
        start = end;
    }
    assert(result@.map_values(|s: String| s@) =~= joined_chunks(texts));
    result
}

} // verus!
