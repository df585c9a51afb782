//! Spreading chunks of work over a pool of credentials, and joining what
//! comes back.
//!
//! Each round launches one call per credential, the `j`-th chunk of the round
//! through the `j`-th credential, so no more calls are in flight at once than
//! there are credentials; the caller waits the pacing delay between rounds.
use crate::chunking::{
    ceil_div, chunk_indices, chunks_of, indices, lemma_chunks_partition, vec_views,
};
use crate::RobberError;
use vstd::prelude::*;

verus! {

/// The chunks each round launches: round `r` launches chunks
/// `r * n_clients .. r * n_clients + n_clients` (fewer in the last round),
/// the `j`-th of them through client `j`.
pub fn plan_rounds(n_chunks: usize, n_clients: usize) -> (rounds: Vec<Vec<usize>>)
    requires
        n_clients > 0,
    ensures
        vec_views(rounds@) == chunks_of(indices(n_chunks as int), n_clients as int),
{
    chunk_indices(n_chunks, n_clients)
}

/// Fan-out over `n_clients` credentials runs exactly `ceil(n_chunks /
/// n_clients)` rounds; each round launches at least one call and at most
/// `n_clients`; and every chunk is launched exactly once, in order.
pub proof fn lemma_rounds_shape(n_chunks: nat, n_clients: nat)
    requires
        n_clients > 0,
    ensures
        chunks_of(indices(n_chunks as int), n_clients as int).len() == ceil_div(
            n_chunks as int,
            n_clients as int,
        ),
        forall|r: int|
            0 <= r < chunks_of(indices(n_chunks as int), n_clients as int).len() ==> 0 < (
            #[trigger] chunks_of(indices(n_chunks as int), n_clients as int)[r]).len()
                <= n_clients,
        chunks_of(indices(n_chunks as int), n_clients as int).flatten() == indices(
            n_chunks as int,
        ),
{
    lemma_chunks_partition(indices(n_chunks as int), n_clients as int);
}

pub open spec fn all_ok<T>(results: Seq<Result<Vec<T>, RobberError>>) -> bool {
    forall|i: int| 0 <= i < results.len() ==> (#[trigger] results[i]) is Ok
}

/// What each successful call returned; nothing for a failed one.
pub open spec fn ok_views<T>(results: Seq<Result<Vec<T>, RobberError>>) -> Seq<Seq<T>> {
    results.map_values(
        |r: Result<Vec<T>, RobberError>|
            match r {
                Ok(v) => v@,
                Err(_) => Seq::empty(),
            },
    )
}

/// Joins the results of the launched calls, in launch order. If any call
/// failed, the error of the first that did is returned and nothing else: no
/// partial result.
pub fn merge_results<T>(results: Vec<Result<Vec<T>, RobberError>>) -> (r: Result<
    Vec<T>,
    RobberError,
>)
    ensures
        r is Ok <==> all_ok(results@),
        r matches Ok(v) ==> v@ == ok_views(results@).flatten(),
        r matches Err(e) ==> exists|i: int|
            0 <= i < results@.len() && results@[i] == Err::<Vec<T>, RobberError>(e) && all_ok(
                results@.take(i),
            ),
{
    let ghost orig = results@;
    let n: usize = results.len();
    let mut rest = results;
    let mut out: Vec<T> = Vec::new();
    let mut k: usize = 0;
    proof {
        assert(ok_views(orig.take(0)) =~= Seq::<Seq<T>>::empty());
        assert(orig.subrange(0, orig.len() as int) =~= orig);
    }
    while rest.len() > 0
        invariant
            n == orig.len(),
            orig == results@,
            k <= orig.len(),
            rest@ == orig.subrange(k as int, orig.len() as int),
            all_ok(orig.take(k as int)),
            out@ == ok_views(orig.take(k as int)).flatten(),
        decreases rest@.len(),
    {
        let next = rest.remove(0);
        proof {
            assert(next == orig[k as int]);
        }
        match next {
            Ok(mut v) => {
                let ghost before = out@;
                let ghost got = v@;
                out.append(&mut v);
                proof {
                    assert(orig.take(k + 1) =~= orig.take(k as int).push(orig[k as int]));
                    assert(ok_views(orig.take(k + 1)) =~= ok_views(orig.take(k as int)).push(got));
                    ok_views(orig.take(k as int)).lemma_flatten_push(got);
                }
            },
            Err(e) => {
                proof {
                    assert(orig[k as int] == Err::<Vec<T>, RobberError>(e));
                    assert(!(orig[k as int] is Ok));
                }
                return Err(e);
            },
        }
        k = k + 1;
        proof {
            assert(rest@ =~= orig.subrange(k as int, orig.len() as int));
        }
    }
    proof {
        assert(orig.take(k as int) =~= orig);
    }
    Ok(out)
}

} // verus!
