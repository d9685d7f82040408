//! Executing many transactions against one snapshot on a pool of threads.
use rayon::iter::{IntoParallelRefIterator, ParallelIterator};
use rayon::ThreadPool;
use vstd::prelude::*;
use crate::model::{Transaction, TxExecution};
use crate::state::State;
use crate::tx::{execute_transaction, executes_as};

verus! {

#[verifier::external_type_specification]
#[verifier::external_body]
pub struct ExThreadPool(ThreadPool);

/// `rayon::ThreadPoolBuilder::new().num_threads(threads).build()`: a pool of
/// `threads` workers, or `None` when rayon cannot build it. Nothing is
/// stated of which of the two comes back.
#[verifier::external_body]
pub(crate) fn build_pool(threads: usize) -> Option<ThreadPool> {
    rayon::ThreadPoolBuilder::new().num_threads(threads).build().ok()
}

/// `ThreadPool::install` of rayon's parallel `map` and `collect` over
/// `block`: each transaction is executed against `snapshot` by the verified
/// `execute_transaction`, and the executions are collected in block order
/// (rayon's `collect` on an indexed parallel iterator keeps the order).
#[verifier::external_body]
pub(crate) fn execute_on_pool(pool: &ThreadPool, block: &[Transaction], snapshot: &State) -> (r: Vec<TxExecution>)
    ensures
        r.len() == block.len(),
        forall|i: int| 0 <= i < block.len() ==> executes_as(#[trigger] r@[i], block@[i]@, snapshot@),
{
    pool.install(|| block.par_iter().map(|tx| execute_transaction(tx, snapshot)).collect())
}

/// Executes each transaction of `block` against `snapshot`, in turn.
fn execute_each(block: &[Transaction], snapshot: &State) -> (r: Vec<TxExecution>)
    ensures
        r.len() == block.len(),
        forall|i: int| 0 <= i < block.len() ==> executes_as(#[trigger] r@[i], block@[i]@, snapshot@),
{
    let mut r: Vec<TxExecution> = Vec::with_capacity(block.len());
    for i in 0..block.len()
        invariant
            r.len() == i,
            forall|j: int| 0 <= j < i ==> executes_as(#[trigger] r@[j], block@[j]@, snapshot@),
    {
        r.push(execute_transaction(&block[i], snapshot));
    }
    r
}

/// Executes every transaction of `block` against `snapshot`: on the pool
/// when there is one, else on this thread. Either way the executions come
/// back in block order.
pub fn execute_against(pool: &Option<ThreadPool>, block: &[Transaction], snapshot: &State) -> (r: Vec<TxExecution>)
    ensures
        r.len() == block.len(),
        forall|i: int| 0 <= i < block.len() ==> executes_as(#[trigger] r@[i], block@[i]@, snapshot@),
{
    match pool {
        Some(p) => execute_on_pool(p, block, snapshot),
        None => execute_each(block, snapshot),
    }
}

} // verus!
