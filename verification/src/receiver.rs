//! The receiver's side: the strategy choice, the sequential download's state
//! machine, and the concurrent download's partition of chunk indices over a
//! fixed pool of workers.

use vstd::prelude::*;
use crate::chunks::{lemma_chunk_count_bounds, lemma_chunk_index_in_range, spec_chunk_count};
use crate::protocol::{MessageModel, ProtocolMessage};

verus! {

/// Files larger than this are downloaded over several connections.
pub const CONCURRENT_THRESHOLD: u64 = 100 * 1024 * 1024;

/// How many worker connections the concurrent download uses.
pub const NUM_WORKERS: u64 = 5;

/// The receiving end of one transfer; it connects to this address.
pub struct Receiver {
    pub sender_address: String,
}

impl Receiver {
    /// A receiver that will download from the sender at `sender_address`.
    pub fn new(sender_address: String) -> (r: Receiver)
        ensures
            r.sender_address@ == sender_address@,
    {
        Receiver { sender_address }
    }
}

/// The two download strategies.
#[derive(Debug, PartialEq, Eq, Structural)]
pub enum DownloadStrategy {
    Sequential,
    Concurrent,
}

/// Picks the strategy from the announced file size: concurrent for files
/// strictly over the threshold, sequential otherwise.
pub fn choose_strategy(file_size: u64) -> (s: DownloadStrategy)
    ensures
        s == DownloadStrategy::Concurrent <==> file_size > CONCURRENT_THRESHOLD,
{
    if file_size > CONCURRENT_THRESHOLD {
        DownloadStrategy::Concurrent
    } else {
        DownloadStrategy::Sequential
    }
}

/// The sequential download's state: the next chunk to request, over a fixed
/// chunk count, chunk size, and file size.
pub struct SequentialDownload {
    pub chunk_index: u64,
    pub chunk_count: u64,
    pub chunk_size: u64,
    pub file_size: u64,
    pub done: bool,
}

/// What the driving loop does after one response.
pub enum DownloadStep {
    /// Write `data` at `offset` in the destination file, then request the
    /// next chunk.
    Write { offset: u64, data: Vec<u8> },
    /// The sender said `TransferComplete`: stop, nothing more exists.
    Finished,
    /// An unexpected response: log it, drop it, move to the next chunk.
    Skipped,
}

impl SequentialDownload {
    /// The state is consistent with its transfer's geometry.
    pub open spec fn wf(&self) -> bool {
        &&& self.chunk_size > 0
        &&& self.chunk_count == spec_chunk_count(self.file_size as int, self.chunk_size as int)
        &&& self.chunk_index <= self.chunk_count
    }

    /// Starts a sequential download of `file_size` bytes in chunks of
    /// `chunk_size`, about to request chunk 0.
    pub fn new(file_size: u64, chunk_size: u64) -> (r: SequentialDownload)
        requires
            chunk_size > 0,
        ensures
            r.wf(),
            r.chunk_index == 0,
            !r.done,
            r.file_size == file_size,
            r.chunk_size == chunk_size,
            r.chunk_count == spec_chunk_count(file_size as int, chunk_size as int),
    {
        proof {
            lemma_chunk_count_bounds(file_size as int, chunk_size as int);
        }
        SequentialDownload {
            chunk_index: 0,
            chunk_count: crate::chunks::chunk_count(file_size, chunk_size),
            chunk_size,
            file_size,
            done: false,
        }
    }

    /// The next request to send: `RequestChunk` for the current index, or
    /// nothing once every chunk was requested or the sender closed the
    /// transfer.
    pub fn next_request(&self) -> (r: Option<ProtocolMessage>)
        requires
            self.wf(),
        ensures
            (r is Some) <==> (!self.done && self.chunk_index < self.chunk_count),
            r is Some ==> r->0@ == (MessageModel::RequestChunk { chunk_index: self.chunk_index }),
    {
        if !self.done && self.chunk_index < self.chunk_count {
            Some(ProtocolMessage::RequestChunk { chunk_index: self.chunk_index })
        } else {
            None
        }
    }

    /// Consumes one response to the current request. A `FileChunk`'s bytes go
    /// to the current chunk's offset — the echoed index is trusted, not
    /// checked — and the index advances; `TransferComplete` ends the
    /// download early; anything else is skipped and the index advances, the
    /// skipped chunk never re-requested.
    pub fn handle_response(&mut self, response: ProtocolMessage) -> (step: DownloadStep)
        requires
            old(self).wf(),
            !old(self).done,
            old(self).chunk_index < old(self).chunk_count,
        ensures
            final(self).wf(),
            final(self).chunk_size == old(self).chunk_size,
            final(self).chunk_count == old(self).chunk_count,
            final(self).file_size == old(self).file_size,
            match response@ {
                MessageModel::FileChunk { chunk_index, data } => {
                    &&& (step matches DownloadStep::Write { offset, data: d } && offset == old(
                        self,
                    ).chunk_index * old(self).chunk_size && d@ == data && offset < old(
                        self,
                    ).file_size)
                    &&& final(self).chunk_index == old(self).chunk_index + 1
                    &&& !final(self).done
                },
                MessageModel::TransferComplete => {
                    &&& step is Finished
                    &&& final(self).done
                },
                _ => {
                    &&& step is Skipped
                    &&& final(self).chunk_index == old(self).chunk_index + 1
                    &&& !final(self).done
                },
            },
    {
        proof {
            lemma_chunk_index_in_range(
                self.file_size as int,
                self.chunk_size as int,
                self.chunk_index as int,
            );
        }
        match response {
            ProtocolMessage::FileChunk { chunk_index: _, data } => {
                let offset = self.chunk_index * self.chunk_size;
                self.chunk_index = self.chunk_index + 1;
                DownloadStep::Write { offset, data }
            },
            ProtocolMessage::TransferComplete => {
                self.done = true;
                DownloadStep::Finished
            },
            _ => {
                self.chunk_index = self.chunk_index + 1;
                DownloadStep::Skipped
            },
        }
    }
}

/// One concurrent worker's state: it walks its own contiguous sub-range of
/// chunk indices on a private connection, handing each received chunk to the
/// collector.
pub struct WorkerDownload {
    pub next_index: u64,
    pub end: u64,
    pub done: bool,
}

impl WorkerDownload {
    /// A worker about to request the range `[start, end)` in increasing order.
    pub fn new(start: u64, end: u64) -> (r: WorkerDownload)
        requires
            start <= end,
        ensures
            r.next_index == start,
            r.end == end,
            !r.done,
    {
        WorkerDownload { next_index: start, end, done: false }
    }

    /// The next request on this worker's connection, or nothing once the
    /// range is exhausted or the sender closed the transfer.
    pub fn next_request(&self) -> (r: Option<ProtocolMessage>)
        ensures
            (r is Some) <==> (!self.done && self.next_index < self.end),
            r is Some ==> r->0@ == (MessageModel::RequestChunk { chunk_index: self.next_index }),
    {
        if !self.done && self.next_index < self.end {
            Some(ProtocolMessage::RequestChunk { chunk_index: self.next_index })
        } else {
            None
        }
    }

    /// Consumes one response. A `FileChunk` becomes the `(index, data)` pair
    /// for the collector — the echoed index, as the collector trusts it for
    /// the offset — and the worker advances; `TransferComplete` ends its
    /// range early; anything else is logged by the caller and skipped, the
    /// index advancing as in the sequential loop.
    pub fn handle_response(&mut self, response: ProtocolMessage) -> (pair: Option<(u64, Vec<u8>)>)
        requires
            !old(self).done,
            old(self).next_index < old(self).end,
        ensures
            final(self).end == old(self).end,
            match response@ {
                MessageModel::FileChunk { chunk_index, data } => {
                    &&& (pair matches Some((i, d)) && i == chunk_index && d@ == data)
                    &&& final(self).next_index == old(self).next_index + 1
                    &&& !final(self).done
                },
                MessageModel::TransferComplete => {
                    &&& pair is None
                    &&& final(self).done
                },
                _ => {
                    &&& pair is None
                    &&& final(self).next_index == old(self).next_index + 1
                    &&& !final(self).done
                },
            },
    {
        match response {
            ProtocolMessage::FileChunk { chunk_index, data } => {
                self.next_index = self.next_index + 1;
                Some((chunk_index, data))
            },
            ProtocolMessage::TransferComplete => {
                self.done = true;
                None
            },
            _ => {
                self.next_index = self.next_index + 1;
                None
            },
        }
    }
}

/// Start of worker `w`'s contiguous range of chunk indices: each worker takes
/// `chunk_count / num_workers` chunks, and each of the first
/// `chunk_count % num_workers` workers takes one more.
pub open spec fn spec_worker_start(w: int, num_workers: int, chunk_count: int) -> int
    recommends
        num_workers >= 1,
        0 <= w <= num_workers,
{
    w * (chunk_count / num_workers) + vstd::math::min(w, chunk_count % num_workers)
}

/// End (exclusive) of worker `w`'s range.
pub open spec fn spec_worker_end(w: int, num_workers: int, chunk_count: int) -> int
    recommends
        num_workers >= 1,
        0 <= w < num_workers,
{
    spec_worker_start(w, num_workers, chunk_count) + (chunk_count / num_workers) + if w
        < chunk_count % num_workers {
        1int
    } else {
        0int
    }
}

/// Worker `w`'s range `[start, end)` of chunk indices.
pub fn worker_range(worker_id: u64, num_workers: u64, chunk_count: u64) -> (r: (u64, u64))
    requires
        num_workers >= 1,
        worker_id < num_workers,
    ensures
        r.0 == spec_worker_start(worker_id as int, num_workers as int, chunk_count as int),
        r.1 == spec_worker_end(worker_id as int, num_workers as int, chunk_count as int),
        r.0 <= r.1 <= chunk_count,
{
    let per_worker = chunk_count / num_workers;
    let remainder = chunk_count % num_workers;
    let extra = if worker_id < remainder {
        1u64
    } else {
        0u64
    };
    proof {
        vstd::arithmetic::div_mod::lemma_fundamental_div_mod(
            chunk_count as int,
            num_workers as int,
        );
        vstd::arithmetic::div_mod::lemma_mod_bound(chunk_count as int, num_workers as int);
        lemma_worker_start_bound(worker_id as int, num_workers as int, chunk_count as int);
        lemma_worker_start_bound(worker_id + 1, num_workers as int, chunk_count as int);
        assert((worker_id + 1) * (chunk_count as int / num_workers as int) == worker_id
            * (chunk_count as int / num_workers as int) + (chunk_count as int
            / num_workers as int)) by (nonlinear_arith);
        assert(spec_worker_end(worker_id as int, num_workers as int, chunk_count as int)
            == spec_worker_start(worker_id + 1, num_workers as int, chunk_count as int));
    }
    let start = worker_id * per_worker + (if worker_id < remainder {
        worker_id
    } else {
        remainder
    });
    let end = start + per_worker + extra;
    (start, end)
}

/// Every range boundary lies inside `[0, chunk_count]`.
proof fn lemma_worker_start_bound(w: int, num_workers: int, chunk_count: int)
    requires
        num_workers >= 1,
        chunk_count >= 0,
        0 <= w <= num_workers,
    ensures
        0 <= spec_worker_start(w, num_workers, chunk_count) <= chunk_count,
{
    let q = chunk_count / num_workers;
    let r = chunk_count % num_workers;
    vstd::arithmetic::div_mod::lemma_fundamental_div_mod(chunk_count, num_workers);
    vstd::arithmetic::div_mod::lemma_mod_bound(chunk_count, num_workers);
    vstd::arithmetic::div_mod::lemma_div_is_ordered_by_denominator(chunk_count, 1, num_workers);
    assert(q >= 0) by {
        vstd::arithmetic::div_mod::lemma_div_pos_is_pos(chunk_count, num_workers);
    }
    assert(w * q >= 0) by (nonlinear_arith)
        requires
            w >= 0,
            q >= 0,
    ;
    assert(w * q + vstd::math::min(w, r) <= num_workers * q + r) by (nonlinear_arith)
        requires
            0 <= w <= num_workers,
            q >= 0,
            0 <= r,
            vstd::math::min(w, r) <= r,
    ;
}

/// Partition law: the workers' ranges are contiguous, they tile
/// `[0, chunk_count)` exactly — worker 0 starts at 0, each range starts where
/// the previous ends, the last ends at `chunk_count` — and any two ranges'
/// sizes differ by at most one.
pub proof fn lemma_partition_complete(num_workers: int, chunk_count: int)
    requires
        num_workers >= 1,
        chunk_count >= 0,
    ensures
        spec_worker_start(0, num_workers, chunk_count) == 0,
        spec_worker_end(num_workers - 1, num_workers, chunk_count) == chunk_count,
        forall|w: int|
            0 <= w < num_workers ==> #[trigger] spec_worker_start(w, num_workers, chunk_count)
                <= spec_worker_end(w, num_workers, chunk_count),
        forall|w: int|
            0 <= w < num_workers - 1 ==> #[trigger] spec_worker_end(w, num_workers, chunk_count)
                == spec_worker_start(w + 1, num_workers, chunk_count),
        forall|w1: int, w2: int|
            0 <= w1 < num_workers && 0 <= w2 < num_workers ==> (
            #[trigger] spec_worker_end(w1, num_workers, chunk_count) - spec_worker_start(
                w1,
                num_workers,
                chunk_count,
            )) - (#[trigger] spec_worker_end(w2, num_workers, chunk_count) - spec_worker_start(
                w2,
                num_workers,
                chunk_count,
            )) <= 1,
{
    let q = chunk_count / num_workers;
    let r = chunk_count % num_workers;
    vstd::arithmetic::div_mod::lemma_fundamental_div_mod(chunk_count, num_workers);
    vstd::arithmetic::div_mod::lemma_mod_bound(chunk_count, num_workers);
    assert(q >= 0) by {
        vstd::arithmetic::div_mod::lemma_div_pos_is_pos(chunk_count, num_workers);
    }
    assert(spec_worker_end(num_workers - 1, num_workers, chunk_count) == chunk_count) by {
        assert((num_workers - 1) * q + q == num_workers * q) by (nonlinear_arith);
        assert(vstd::math::min(num_workers - 1, r) == r);
        assert(num_workers * q + r == chunk_count);
    }
    assert forall|w: int| 0 <= w < num_workers - 1 implies #[trigger] spec_worker_end(
        w,
        num_workers,
        chunk_count,
    ) == spec_worker_start(w + 1, num_workers, chunk_count) by {
        assert((w + 1) * q == w * q + q) by (nonlinear_arith);
    }
}

/// Every chunk index below `chunk_count` lies in some worker's range.
pub proof fn lemma_partition_covers(num_workers: int, chunk_count: int, i: int)
    requires
        num_workers >= 1,
        0 <= i < chunk_count,
    ensures
        exists|w: int|
            0 <= w < num_workers && #[trigger] spec_worker_start(w, num_workers, chunk_count)
                <= i < spec_worker_end(w, num_workers, chunk_count),
{
    lemma_partition_complete(num_workers, chunk_count);
    lemma_cover_up_to(num_workers, chunk_count, num_workers - 1, i);
}

/// Any index below worker `w`'s end is covered by a worker up to `w`.
#[verifier::rlimit(50)]
#[verifier::spinoff_prover]
proof fn lemma_cover_up_to(num_workers: int, chunk_count: int, w: int, i: int)
    requires
        num_workers >= 1,
        chunk_count >= 0,
        0 <= w < num_workers,
        0 <= i < spec_worker_end(w, num_workers, chunk_count),
    ensures
        exists|w2: int|
            0 <= w2 <= w && #[trigger] spec_worker_start(w2, num_workers, chunk_count) <= i
                < spec_worker_end(w2, num_workers, chunk_count),
    decreases w,
{
    lemma_partition_complete(num_workers, chunk_count);
    if i >= spec_worker_start(w, num_workers, chunk_count) {
        assert(spec_worker_start(w, num_workers, chunk_count) <= i < spec_worker_end(
            w,
            num_workers,
            chunk_count,
        ));
    } else {
        lemma_cover_up_to(num_workers, chunk_count, w - 1, i);
    }
}

} // verus!
