//! Response path: drained responses to wire bytes per connection.

use vstd::prelude::*;

use std::collections::HashMap;

use crate::buffer_pool::BufferPool;
use crate::protocol::{response_bytes, write_response};
use crate::ring_types::InferenceResponse;

verus! {

broadcast use vstd::std_specs::hash::group_hash_axioms;

/// The wire bytes owed to connection `c` for `resps`: each of its responses,
/// in order, as a count byte and the results.
pub open spec fn wire_for_conn(resps: Seq<InferenceResponse>, c: u16, pool: &BufferPool) -> Seq<u8>
    decreases resps.len(),
{
    if resps.len() == 0 {
        Seq::empty()
    } else {
        let rest = wire_for_conn(resps.drop_last(), c, pool);
        if resps.last().conn_id == c {
            rest + response_bytes(resps.last().num_vectors, resps.last().results_view(pool))
        } else {
            rest
        }
    }
}

/// Whether some response of `resps` is for connection `c`.
pub open spec fn has_conn(resps: Seq<InferenceResponse>, c: u16) -> bool {
    exists|i: int| 0 <= i < resps.len() && (#[trigger] resps[i]).conn_id == c
}

/// Whether every response of `resps` can be read from `pool`.
pub open spec fn all_readable(resps: Seq<InferenceResponse>, pool: &BufferPool) -> bool {
    forall|i: int| 0 <= i < resps.len() ==> (#[trigger] resps[i]).readable(pool)
}

/// Builds the wire bytes per connection: `[u8 num_vectors][results as
/// little-endian words]` for each response, the responses of one connection
/// concatenated in the order given.
pub fn guard_to_wire_per_conn(responses: &[InferenceResponse], pool: &BufferPool) -> (r: HashMap<u16, Vec<u8>>)
    requires
        pool.wf(),
        all_readable(responses@, pool),
    ensures
        forall|c: u16| #[trigger] r@.contains_key(c) <==> has_conn(responses@, c),
        forall|c: u16| r@.contains_key(c) ==> (#[trigger] r@[c])@ == wire_for_conn(responses@, c, pool),
{
    let mut map: HashMap<u16, Vec<u8>> = HashMap::new();
    let mut i: usize = 0;
    while i < responses.len()
        invariant
            i <= responses@.len(),
            pool.wf(),
            all_readable(responses@, pool),
            forall|c: u16| #[trigger] map@.contains_key(c) <==> has_conn(responses@.subrange(0, i as int), c),
            forall|c: u16|
                map@.contains_key(c) ==> (#[trigger] map@[c])@ == wire_for_conn(responses@.subrange(0, i as int), c, pool),
        decreases responses@.len() - i,
    {
        let resp = responses[i];
        let ghost done = responses@.subrange(0, i as int);
        let ghost next = responses@.subrange(0, i + 1);
        proof {
            assert(next.drop_last() =~= done);
            assert(next.last() == resp);
            assert(resp.readable(pool));
            pool.lemma_wf();
        }
        let mut buf = match map.remove(&resp.conn_id) {
            Some(b) => b,
            None => Vec::new(),
        };
        let results = resp.results_slice(pool);
        assert(results@.len() == resp.num_vectors);
        write_response(&mut buf, resp.num_vectors as u32, results);
        map.insert(resp.conn_id, buf);
        proof {
            assert(results@.subrange(0, resp.num_vectors as int) =~= results@);
            assert forall|c: u16| #[trigger] map@.contains_key(c) <==> has_conn(next, c) by {
                if c == resp.conn_id {
                    assert(next[i as int].conn_id == c);
                } else {
                    if has_conn(next, c) {
                        let j = choose|j: int| 0 <= j < next.len() && (#[trigger] next[j]).conn_id == c;
                        assert(done[j] == next[j]);
                    }
                    if has_conn(done, c) {
                        let j = choose|j: int| 0 <= j < done.len() && (#[trigger] done[j]).conn_id == c;
                        assert(next[j] == done[j]);
                    }
                }
            }
            assert forall|c: u16| map@.contains_key(c) implies (#[trigger] map@[c])@ == wire_for_conn(next, c, pool) by {
                if c != resp.conn_id {
                    assert(has_conn(done, c));
                }
                else if !has_conn(done, c) {
                    lemma_wire_empty(done, c, pool);
                }
            }
        }
        i += 1;
    }
    proof {
        assert(responses@.subrange(0, responses@.len() as int) =~= responses@);
    }
    map
}

/// A connection without responses is owed no bytes.
pub proof fn lemma_wire_empty(resps: Seq<InferenceResponse>, c: u16, pool: &BufferPool)
    requires
        !has_conn(resps, c),
    ensures
        wire_for_conn(resps, c, pool) == Seq::<u8>::empty(),
    decreases resps.len(),
{
    if resps.len() > 0 {
        let d = resps.drop_last();
        assert(!has_conn(d, c)) by {
            if has_conn(d, c) {
                let j = choose|j: int| 0 <= j < d.len() && (#[trigger] d[j]).conn_id == c;
                assert(resps[j] == d[j]);
            }
        }
        assert(resps[resps.len() - 1].conn_id != c);
        lemma_wire_empty(d, c, pool);
    }
}

/// Responses drained later are emitted later: the bytes owed to a
/// connection for two batches in a row are those of the first batch followed
/// by those of the second, so a connection's replies keep the order of its
/// responses.
pub proof fn lemma_wire_order(first: Seq<InferenceResponse>, second: Seq<InferenceResponse>, c: u16, pool: &BufferPool)
    ensures
        wire_for_conn(first + second, c, pool) == wire_for_conn(first, c, pool) + wire_for_conn(second, c, pool),
    decreases second.len(),
{
    if second.len() == 0 {
        assert(first + second =~= first);
        assert(wire_for_conn(first, c, pool) + Seq::<u8>::empty() =~= wire_for_conn(first, c, pool));
    } else {
        let both = first + second;
        assert(both.drop_last() =~= first + second.drop_last());
        assert(both.last() == second.last());
        lemma_wire_order(first, second.drop_last(), c, pool);
        if second.last().conn_id == c {
            let tail = response_bytes(second.last().num_vectors, second.last().results_view(pool));
            assert(wire_for_conn(first, c, pool) + wire_for_conn(second.drop_last(), c, pool) + tail =~= wire_for_conn(
                first,
                c,
                pool,
            ) + (wire_for_conn(second.drop_last(), c, pool) + tail));
        }
    }
}

} // verus!
