use vstd::prelude::*;

verus! {

/// The shape of one endless sweep loop: how many users one batch query asks
/// for, and how many per-user updates run at once.
pub struct WorkerLoopConfiguration {
    pub query_batch_size: u32,
    pub concurrent_updates: u32,
}

/// The mastery sweep: large fan-out, since most of the work is waiting on
/// the upstream API.
pub fn mastery_worker_config() -> (c: WorkerLoopConfiguration)
    ensures
        c.query_batch_size == 100,
        c.concurrent_updates == 200,
{
    WorkerLoopConfiguration { query_batch_size: 100, concurrent_updates: 200 }
}

/// The ranked-tier sweep.
pub fn ranked_worker_config() -> (c: WorkerLoopConfiguration)
    ensures
        c.query_batch_size == 100,
        c.concurrent_updates == 15,
{
    WorkerLoopConfiguration { query_batch_size: 100, concurrent_updates: 15 }
}

/// The account sweep.
pub fn account_worker_config() -> (c: WorkerLoopConfiguration)
    ensures
        c.query_batch_size == 100,
        c.concurrent_updates == 15,
{
    WorkerLoopConfiguration { query_batch_size: 100, concurrent_updates: 15 }
}

/// The next query offset of an endless user sweep: when a batch comes back
/// short the scan has reached the end and wraps to the start, else it
/// advances by one batch.
pub fn next_offset(offset: u32, batch_size: u32, received: usize) -> (r: u32)
    requires
        offset + batch_size <= u32::MAX,
    ensures
        received < batch_size ==> r == 0,
        received >= batch_size ==> r == offset + batch_size,
{
    if received < batch_size as usize {
        0
    } else {
        offset + batch_size
    }
}

} // verus!
