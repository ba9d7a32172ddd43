//! The producer-side agent: buffering, batching, retry and spill decisions.
//! The timer, the HTTP transmission and the disk write are performed by the
//! caller, which hands back what happened.

use vstd::prelude::*;
use vstd::string::*;
use crate::ext::{gzip, gzip_of};
use crate::model::LogEntry;

verus! {

/// Attempts made to deliver one batch before it is spilled to disk.
pub const MAX_ATTEMPTS: u32 = 3;

/// The largest batch the agent forms for a configured `batch_size`.
pub open spec fn batch_bound(batch_size: nat) -> nat {
    if batch_size >= 1 {
        batch_size
    } else {
        1
    }
}

/// One agent operation on buffer `buf`: `Some(e)` logs `e`, `None` is a
/// flush tick. Gives the batch formed, if any, and the new buffer.
pub open spec fn agent_step<A>(batch_size: nat, buf: Seq<A>, op: Option<A>) -> (Option<Seq<A>>, Seq<A>) {
    match op {
        Some(e) => {
            let all = buf.push(e);
            if all.len() >= batch_size {
                (Some(all), Seq::empty())
            } else {
                (None, all)
            }
        },
        None => {
            if buf.len() > 0 {
                (Some(buf), Seq::empty())
            } else {
                (None, buf)
            }
        },
    }
}

/// The batches formed by a sequence of operations, in order, and the
/// buffer left at the end.
pub open spec fn agent_run<A>(batch_size: nat, buf: Seq<A>, ops: Seq<Option<A>>) -> (Seq<Seq<A>>, Seq<A>)
    decreases ops.len(),
{
    if ops.len() == 0 {
        (Seq::empty(), buf)
    } else {
        let (b, next) = agent_step(batch_size, buf, ops[0]);
        let (later, last) = agent_run(batch_size, next, ops.drop_first());
        match b {
            Some(batch) => (seq![batch] + later, last),
            None => (later, last),
        }
    }
}

/// The entries logged by a sequence of operations, in order.
pub open spec fn logged<A>(ops: Seq<Option<A>>) -> Seq<A>
    decreases ops.len(),
{
    if ops.len() == 0 {
        Seq::empty()
    } else {
        match ops[0] {
            Some(e) => seq![e] + logged(ops.drop_first()),
            None => logged(ops.drop_first()),
        }
    }
}

/// All entries of a sequence of batches, batch after batch.
pub open spec fn flatten<A>(batches: Seq<Seq<A>>) -> Seq<A>
    decreases batches.len(),
{
    if batches.len() == 0 {
        Seq::empty()
    } else {
        batches[0] + flatten(batches.drop_first())
    }
}

/// Nothing is lost or duplicated: the batches formed, followed by what is
/// still buffered, are exactly the entries that were buffered at the start
/// followed by every entry logged, in order. So once a flush tick has emptied
/// the buffer, each logged entry is in exactly one batch.
pub proof fn lemma_agent_no_loss<A>(batch_size: nat, buf: Seq<A>, ops: Seq<Option<A>>)
    ensures
        flatten(agent_run(batch_size, buf, ops).0) + agent_run(batch_size, buf, ops).1 == buf
            + logged(ops),
    decreases ops.len(),
{
    if ops.len() > 0 {
        let (b, next) = agent_step(batch_size, buf, ops[0]);
        let rest = ops.drop_first();
        lemma_agent_no_loss(batch_size, next, rest);
        let (later, last) = agent_run(batch_size, next, rest);
        match b {
            Some(batch) => {
                assert((seq![batch] + later).drop_first() =~= later);
                assert(flatten(seq![batch] + later) == batch + flatten(later));
            },
            None => {},
        }
        match ops[0] {
            Some(e) => {
                assert(buf + logged(ops) =~= buf.push(e) + logged(rest));
            },
            None => {},
        }
        assert(flatten(agent_run(batch_size, buf, ops).0) + agent_run(batch_size, buf, ops).1
            =~= buf + logged(ops));
    }
}

/// Every batch formed is non-empty and holds at most
/// `max(batch_size, 1)` entries, from any buffer the agent can hold.
pub proof fn lemma_agent_batch_bound<A>(batch_size: nat, buf: Seq<A>, ops: Seq<Option<A>>)
    requires
        buf.len() < batch_bound(batch_size),
    ensures
        forall|i: int|
            0 <= i < agent_run(batch_size, buf, ops).0.len() ==> 1 <= (#[trigger] agent_run(
                batch_size,
                buf,
                ops,
            ).0[i]).len() <= batch_bound(batch_size),
    decreases ops.len(),
{
    if ops.len() > 0 {
        let (b, next) = agent_step(batch_size, buf, ops[0]);
        let rest = ops.drop_first();
        lemma_agent_batch_bound(batch_size, next, rest);
        let (later, last) = agent_run(batch_size, next, rest);
        match b {
            Some(batch) => {
                assert forall|i: int| 0 <= i < (seq![batch] + later).len() implies 1 <= (#[trigger] (
                seq![batch] + later)[i]).len() <= batch_bound(batch_size) by {
                    if i > 0 {
                        assert((seq![batch] + later)[i] == later[i - 1]);
                    }
                }
            },
            None => {},
        }
    }
}

/// The entries of a drained batch, if one was formed.
pub open spec fn batch_view(r: Option<Vec<LogEntry>>) -> Option<Seq<LogEntry>> {
    match r {
        Some(v) => Some(v@),
        None => None,
    }
}

/// The agent's buffer: entries wait here until a batch is formed.
pub struct LogAgent {
    pub buffer: Vec<LogEntry>,
    pub batch_size: usize,
    pub ingestion_url: String,
}

impl LogAgent {
    /// The buffer never reaches a full batch between calls.
    pub open spec fn wf(&self) -> bool {
        self.buffer@.len() < batch_bound(self.batch_size as nat)
    }

    /// An agent with an empty buffer that sends to `ingestion_url`.
    pub fn new(ingestion_url: String, batch_size: usize) -> (r: LogAgent)
        ensures
            r.wf(),
            r.buffer@.len() == 0,
            r.batch_size == batch_size,
            r.ingestion_url == ingestion_url,
    {
        LogAgent { buffer: Vec::new(), batch_size, ingestion_url }
    }

    /// Buffers `entry`. When the buffer then holds `batch_size` entries or
    /// more, all of it is drained and returned as the next batch to send.
    pub fn log(&mut self, entry: LogEntry) -> (r: Option<Vec<LogEntry>>)
        requires
            old(self).wf(),
        ensures
            final(self).wf(),
            final(self).batch_size == old(self).batch_size,
            final(self).ingestion_url == old(self).ingestion_url,
            (batch_view(r), final(self).buffer@) == agent_step(
                old(self).batch_size as nat,
                old(self).buffer@,
                Some(entry),
            ),
            r matches Some(v) ==> 1 <= v@.len() <= batch_bound(old(self).batch_size as nat),
    {
        self.buffer.push(entry);
        if self.buffer.len() >= self.batch_size {
            let mut logs: Vec<LogEntry> = Vec::new();
            std::mem::swap(&mut self.buffer, &mut logs);
            Some(logs)
        } else {
            None
        }
    }

    /// A flush tick: drains a non-empty buffer into a batch.
    pub fn flush(&mut self) -> (r: Option<Vec<LogEntry>>)
        requires
            old(self).wf(),
        ensures
            final(self).wf(),
            final(self).batch_size == old(self).batch_size,
            final(self).ingestion_url == old(self).ingestion_url,
            (batch_view(r), final(self).buffer@) == agent_step(
                old(self).batch_size as nat,
                old(self).buffer@,
                None,
            ),
            r matches Some(v) ==> 1 <= v@.len() <= batch_bound(old(self).batch_size as nat),
    {
        if self.buffer.len() > 0 {
            let mut logs: Vec<LogEntry> = Vec::new();
            std::mem::swap(&mut self.buffer, &mut logs);
            Some(logs)
        } else {
            None
        }
    }
}

/// What to do after an attempt to deliver a batch.
#[derive(Clone, Copy, Debug, PartialEq, Eq, Structural)]
pub enum DeliveryAction {
    /// The batch was accepted; drop it.
    Acknowledged,
    /// Sleep this many seconds, then try again.
    RetryAfter(u64),
    /// Give up and write the batch to disk.
    Spill,
}

/// The decision after attempt number `attempt` (counting from 1): done on
/// success; otherwise wait `2^attempt` seconds before attempts 2 and 3, and
/// spill after the third failure.
pub fn after_attempt(attempt: u32, success: bool) -> (r: DeliveryAction)
    requires
        1 <= attempt <= MAX_ATTEMPTS,
    ensures
        success ==> r == DeliveryAction::Acknowledged,
        !success && attempt == 1 ==> r == DeliveryAction::RetryAfter(2),
        !success && attempt == 2 ==> r == DeliveryAction::RetryAfter(4),
        !success && attempt == 3 ==> r == DeliveryAction::Spill,
{
    if success {
        DeliveryAction::Acknowledged
    } else if attempt < MAX_ATTEMPTS {
        let mut delay: u64 = 1;
        let mut k: u32 = 0;
        while k < attempt
            invariant
                k <= attempt <= 2,
                delay == if k == 0 {
                    1u64
                } else if k == 1 {
                    2u64
                } else {
                    4u64
                },
            decreases attempt - k,
        {
            delay = delay * 2;
            k = k + 1;
        }
        DeliveryAction::RetryAfter(delay)
    } else {
        DeliveryAction::Spill
    }
}

/// The file an undeliverable batch is written to.
pub fn spill_file_name(batch_id: &str) -> (r: String)
    ensures
        r@ == "failed_batch_"@ + batch_id@ + ".json"@,
{
    let mut s = String::from_str("failed_batch_");
    s.append(batch_id);
    s.append(".json");
    s
}

/// The request body for a batch already encoded as JSON: its gzip stream.
pub fn compress_batch(json: &[u8]) -> (r: Vec<u8>)
    ensures
        r@ == gzip_of(json@),
{
    gzip(json)
}

} // verus!
