//! A fixed set of reusable audio buffers with a queue of free slots.
//!
//! Capture takes a free slot, fills it and hands its index on; the sender
//! returns the index once the chunk is out. Each buffer starts with a 4-byte
//! little-endian payload length.

use crossbeam_channel::{Receiver, Sender};
use vstd::prelude::*;

verus! {

/// Size of each pooled buffer: room for the length and 16,380 payload bytes.
pub const DEFAULT_BUFFER_SIZE: usize = 16384;

/// Bytes taken by the length at the start of a pooled buffer.
pub const LENGTH_PREFIX: usize = 4;

/// Most buffers a pool can be asked for.
pub const MAX_BUFFERS: usize = 0x3fff_ffff;

/// `crossbeam_channel::Sender`, the writing end of a channel, carried as an
/// opaque value.
#[verifier::external_type_specification]
#[verifier::external_body]
#[verifier::reject_recursive_types(T)]
pub struct ExSender<T>(Sender<T>);

/// `crossbeam_channel::Receiver`, the reading end of a channel, carried as
/// an opaque value.
#[verifier::external_type_specification]
#[verifier::external_body]
#[verifier::reject_recursive_types(T)]
pub struct ExReceiver<T>(Receiver<T>);

/// The indices waiting in the channel that `rx` reads, oldest first.
pub uninterp spec fn queued(rx: Receiver<usize>) -> Seq<usize>;

/// The capacity that the channel of `rx` was made with.
pub uninterp spec fn queue_capacity(rx: Receiver<usize>) -> nat;

/// Whether `tx` writes the channel that `rx` reads.
pub uninterp spec fn feeds(tx: Sender<usize>, rx: Receiver<usize>) -> bool;

/// The two ends of the free-slot queue, held together and never cloned, so
/// that nothing else sends or receives on the channel.
pub struct IndexQueue {
    tx: Sender<usize>,
    rx: Receiver<usize>,
}

impl IndexQueue {
    /// The queued indices, oldest first.
    pub closed spec fn items(&self) -> Seq<usize> {
        queued(self.rx)
    }

    /// The most indices the queue holds.
    pub closed spec fn capacity(&self) -> nat {
        queue_capacity(self.rx)
    }

    /// Whether the two ends belong to one channel.
    pub closed spec fn wf(&self) -> bool {
        feeds(self.tx, self.rx)
    }
}

/// Calls `crossbeam_channel::bounded`. Trusted: the channel starts empty,
/// with the capacity asked for, and the sender feeds the receiver.
#[verifier::external_body]
fn index_queue(cap: usize) -> (q: IndexQueue)
    requires
        cap <= MAX_BUFFERS,
    ensures
        queued(q.rx) == Seq::<usize>::empty(),
        queue_capacity(q.rx) == cap,
        feeds(q.tx, q.rx),
{
    let (tx, rx) = crossbeam_channel::bounded(cap);
    IndexQueue { tx, rx }
}

/// Calls `Sender::try_send`. Trusted: with room left the index goes to the
/// back of the queue; a full queue refuses it and stays as it is.
#[verifier::external_body]
fn queue_offer(q: &mut IndexQueue, idx: usize) -> (taken: bool)
    requires
        feeds(old(q).tx, old(q).rx),
    ensures
        taken == (queued(old(q).rx).len() < queue_capacity(old(q).rx)),
        queued(final(q).rx) == if taken {
            queued(old(q).rx).push(idx)
        } else {
            queued(old(q).rx)
        },
        queue_capacity(final(q).rx) == queue_capacity(old(q).rx),
        feeds(final(q).tx, final(q).rx),
{
    q.tx.try_send(idx).is_ok()
}

/// Calls `Receiver::try_recv`. Trusted: the oldest index leaves the queue
/// and is returned; an empty queue gives nothing and stays as it is.
#[verifier::external_body]
fn queue_take(q: &mut IndexQueue) -> (idx: Option<usize>)
    requires
        feeds(old(q).tx, old(q).rx),
    ensures
        match idx {
            Some(i) => queued(old(q).rx).len() > 0 && i == queued(old(q).rx)[0] && queued(
                final(q).rx,
            ) == queued(old(q).rx).drop_first(),
            None => queued(old(q).rx).len() == 0 && queued(final(q).rx) == queued(old(q).rx),
        },
        queue_capacity(final(q).rx) == queue_capacity(old(q).rx),
        feeds(final(q).tx, final(q).rx),
{
    q.rx.try_recv().ok()
}

/// The indices `0, 1, .., n - 1`.
pub open spec fn spec_indices(n: nat) -> Seq<usize> {
    Seq::new(n, |i: int| i as usize)
}

/// Whether no index occurs twice in `free` and each is below `count`.
pub open spec fn spec_exclusive(free: Seq<usize>, count: nat) -> bool {
    &&& forall|i: int| 0 <= i < free.len() ==> (#[trigger] free[i]) < count
    &&& forall|i: int, j: int| 0 <= i < j < free.len() ==> free[i] != free[j]
}

/// The free list after a pop.
pub open spec fn spec_pop(free: Seq<usize>) -> (Option<usize>, Seq<usize>) {
    if free.len() > 0 {
        (Some(free[0]), free.drop_first())
    } else {
        (None, free)
    }
}

/// The free list after a push into a pool of `count` buffers.
pub open spec fn spec_push(free: Seq<usize>, count: nat, idx: usize) -> Seq<usize> {
    if free.len() < count {
        free.push(idx)
    } else {
        free
    }
}

/// The free list after `k` pops.
pub open spec fn spec_pop_n(free: Seq<usize>, k: nat) -> Seq<usize>
    decreases k,
{
    if k == 0 {
        free
    } else {
        spec_pop_n(spec_pop(free).1, (k - 1) as nat)
    }
}

/// The payload recorded in a pooled buffer: the bytes behind the length
/// prefix, as many as the prefix says; `None` when the prefix says zero or
/// more than the buffer holds.
pub open spec fn spec_payload(raw: Seq<u8>) -> Option<Seq<u8>> {
    if raw.len() < LENGTH_PREFIX {
        None
    } else {
        let len = raw[0] as int + raw[1] as int * 0x100 + raw[2] as int * 0x1_0000 + raw[3] as int
            * 0x100_0000;
        if len == 0 || len + LENGTH_PREFIX > raw.len() {
            None
        } else {
            Some(raw.subrange(LENGTH_PREFIX as int, LENGTH_PREFIX + len))
        }
    }
}

/// The contents of a pooled buffer after a chunk was written to it: the
/// length of what fits, then those bytes, then what was there before.
pub open spec fn spec_fill(buf: Seq<u8>, chunk: Seq<u8>) -> Seq<u8> {
    if buf.len() < LENGTH_PREFIX + 1 {
        buf
    } else {
        let room = buf.len() - LENGTH_PREFIX;
        let n = if chunk.len() < room {
            chunk.len() as int
        } else {
            room
        };
        seq![
            (n % 0x100) as u8,
            (n / 0x100 % 0x100) as u8,
            (n / 0x1_0000 % 0x100) as u8,
            (n / 0x100_0000 % 0x100) as u8,
        ] + chunk.subrange(0, n) + buf.subrange(LENGTH_PREFIX + n, buf.len() as int)
    }
}

/// The pool: `count` buffers and the queue of free slots.
pub struct AudioBufferPool {
    free: IndexQueue,
    data: Vec<Vec<u8>>,
}

impl AudioBufferPool {
    /// The free indices, oldest first.
    pub closed spec fn free(&self) -> Seq<usize> {
        self.free.items()
    }

    /// The contents of the buffers.
    pub closed spec fn buffers(&self) -> Seq<Seq<u8>> {
        self.data@.map_values(|b: Vec<u8>| b@)
    }

    /// The number of buffers.
    pub open spec fn count(&self) -> nat {
        self.buffers().len()
    }

    /// Whether the free queue is sound and sized for the buffers.
    pub closed spec fn queue_fits(&self) -> bool {
        &&& self.free.wf()
        &&& self.free.capacity() == self.data@.len()
    }

    /// Whether the queue is sized for the buffers, there are no more buffers
    /// than a pool may have, and every buffer has the default size.
    pub open spec fn wf(&self) -> bool {
        &&& self.queue_fits()
        &&& self.count() <= MAX_BUFFERS
        &&& forall|i: int|
            0 <= i < self.count() ==> (#[trigger] self.buffers()[i]).len() == DEFAULT_BUFFER_SIZE
    }

    /// Makes a pool of `count` zero-filled buffers, all of them free.
    pub fn new(count: usize) -> (pool: AudioBufferPool)
        requires
            count <= MAX_BUFFERS,
        ensures
            pool.wf(),
            pool.count() == count,
            pool.free() == spec_indices(count as nat),
            spec_exclusive(pool.free(), count as nat),
            forall|i: int, j: int|
                0 <= i < count && 0 <= j < DEFAULT_BUFFER_SIZE ==> #[trigger] pool.buffers()[i][j]
                    == 0u8,
    {
        let mut free = index_queue(count);
        let mut data: Vec<Vec<u8>> = Vec::with_capacity(count);
        let mut i: usize = 0;
        while i < count
            invariant
                i <= count,
                free.wf(),
                free.capacity() == count,
                free.items() == spec_indices(i as nat),
                data@.len() == i,
                forall|k: int| 0 <= k < i ==> (#[trigger] data@[k])@.len() == DEFAULT_BUFFER_SIZE,
                forall|k: int, j: int|
                    0 <= k < i && 0 <= j < DEFAULT_BUFFER_SIZE ==> #[trigger] data@[k]@[j] == 0u8,
            decreases count - i,
        {
            data.push(vec![0u8; DEFAULT_BUFFER_SIZE]);
            let taken = queue_offer(&mut free, i);
            assert(taken);
            assert(free.items() =~= spec_indices((i + 1) as nat));
            i += 1;
        }
        AudioBufferPool { free, data }
    }

    /// Takes the oldest free index, or `None` when every buffer is in use.
    pub fn pop(&mut self) -> (idx: Option<usize>)
        requires
            old(self).wf(),
        ensures
            final(self).wf(),
            idx == spec_pop(old(self).free()).0,
            final(self).free() == spec_pop(old(self).free()).1,
            final(self).buffers() == old(self).buffers(),
    {
        queue_take(&mut self.free)
    }

    /// Returns an index to the back of the free queue. A full queue leaves
    /// the push without effect.
    pub fn push(&mut self, idx: usize)
        requires
            old(self).wf(),
        ensures
            final(self).wf(),
            final(self).free() == spec_push(old(self).free(), old(self).count(), idx),
            final(self).buffers() == old(self).buffers(),
    {
        let _ = queue_offer(&mut self.free, idx);
    }

    /// The number of buffers.
    pub fn len(&self) -> (n: usize)
        ensures
            n == self.count(),
    {
        self.data.len()
    }

    /// The payload recorded in buffer `idx`, or `None` when the index is
    /// out of range or the buffer's length prefix is zero or too large.
    pub fn payload(&self, idx: usize) -> (payload: Option<Vec<u8>>)
        ensures
            match payload {
                Some(p) => idx < self.count() && spec_payload(self.buffers()[idx as int]) == Some(
                    p@,
                ),
                None => idx >= self.count() || spec_payload(self.buffers()[idx as int]) is None,
            },
    {
        if idx >= self.data.len() {
            return None;
        }
        read_payload(&self.data[idx])
    }

    /// Writes `chunk` into buffer `idx`: its length, cut to what fits, then
    /// its bytes. An index out of range changes nothing.
    pub fn fill(&mut self, idx: usize, chunk: &[u8])
        requires
            old(self).wf(),
        ensures
            final(self).wf(),
            final(self).free() == old(self).free(),
            final(self).buffers() == if idx < old(self).count() {
                old(self).buffers().update(
                    idx as int,
                    spec_fill(old(self).buffers()[idx as int], chunk@),
                )
            } else {
                old(self).buffers()
            },
    {
        if idx < self.data.len() {
            let ghost before = self.data@;
            fill_buffer(&mut self.data[idx], chunk);
            assert(self.data@.len() == before.len());
            assert(forall|k: int| 0 <= k < before.len() && k != idx ==> self.data@[k] == before[k]);
            assert(self.buffers() =~= old(self).buffers().update(
                idx as int,
                spec_fill(old(self).buffers()[idx as int], chunk@),
            ));
        }
    }

    /// Takes a free buffer and writes `chunk` into it. `None`, with the
    /// chunk dropped, when no buffer is free.
    pub fn capture(&mut self, chunk: &[u8]) -> (idx: Option<usize>)
        requires
            old(self).wf(),
        ensures
            final(self).wf(),
            idx == spec_pop(old(self).free()).0,
            final(self).free() == spec_pop(old(self).free()).1,
            final(self).buffers() == match idx {
                Some(i) => if i < old(self).count() {
                    old(self).buffers().update(
                        i as int,
                        spec_fill(old(self).buffers()[i as int], chunk@),
                    )
                } else {
                    old(self).buffers()
                },
                None => old(self).buffers(),
            },
    {
        match self.pop() {
            Some(i) => {
                self.fill(i, chunk);
                Some(i)
            },
            None => None,
        }
    }
}

/// Reads the payload that a pooled buffer records.
pub fn read_payload(raw: &Vec<u8>) -> (payload: Option<Vec<u8>>)
    ensures
        match payload {
            Some(p) => spec_payload(raw@) == Some(p@),
            None => spec_payload(raw@) is None,
        },
{
    if raw.len() < LENGTH_PREFIX {
        return None;
    }
    let len: u64 = raw[0] as u64 + raw[1] as u64 * 0x100 + raw[2] as u64 * 0x1_0000 + raw[3] as u64
        * 0x100_0000;
    if len == 0 || len > (raw.len() - LENGTH_PREFIX) as u64 {
        return None;
    }
    let end: usize = LENGTH_PREFIX + len as usize;
    let mut out: Vec<u8> = Vec::with_capacity(len as usize);
    let mut i: usize = LENGTH_PREFIX;
    while i < end
        invariant
            LENGTH_PREFIX <= i <= end,
            end <= raw@.len(),
            out@ == raw@.subrange(LENGTH_PREFIX as int, i as int),
        decreases end - i,
    {
        out.push(raw[i]);
        assert(out@ =~= raw@.subrange(LENGTH_PREFIX as int, i + 1));
        i += 1;
    }
    Some(out)
}

/// Writes `chunk` into a pooled buffer: its length, cut to what fits, as
/// four little-endian bytes, then its bytes. A buffer too small to hold the
/// length and one byte is left alone.
pub fn fill_buffer(buf: &mut Vec<u8>, chunk: &[u8])
    ensures
        final(buf)@ == spec_fill(old(buf)@, chunk@),
        final(buf)@.len() == old(buf)@.len(),
{
    let size: usize = buf.len();
    if size < LENGTH_PREFIX + 1 {
        return;
    }
    let room: usize = size - LENGTH_PREFIX;
    let n: usize = if chunk.len() < room {
        chunk.len()
    } else {
        room
    };
    buf[0] = (n % 0x100) as u8;
    buf[1] = (n / 0x100 % 0x100) as u8;
    buf[2] = (n / 0x1_0000 % 0x100) as u8;
    buf[3] = (n / 0x100_0000 % 0x100) as u8;
    let mut i: usize = 0;
    while i < n
        invariant
            i <= n,
            n <= chunk@.len(),
            n + LENGTH_PREFIX <= size,
            buf@.len() == size,
            size == old(buf)@.len(),
            buf@[0] == (n % 0x100) as u8,
            buf@[1] == (n / 0x100 % 0x100) as u8,
            buf@[2] == (n / 0x1_0000 % 0x100) as u8,
            buf@[3] == (n / 0x100_0000 % 0x100) as u8,
            forall|j: int| 0 <= j < i ==> buf@[LENGTH_PREFIX + j] == chunk@[j],
            forall|j: int| LENGTH_PREFIX + i <= j < size ==> buf@[j] == old(buf)@[j],
        decreases n - i,
    {
        buf[LENGTH_PREFIX + i] = chunk[i];
        i += 1;
    }
    assert(buf@ =~= spec_fill(old(buf)@, chunk@));
}

/// From a fresh pool of `n` buffers, `n` pops give the `n` different
/// indices below `n` and leave nothing; one more pop gives `None`; and an
/// index pushed back then is the next to be popped.
pub proof fn lemma_pool_exclusivity(n: usize, back: usize)
    ensures
        spec_exclusive(spec_indices(n as nat), n as nat),
        forall|i: nat|
            i < n ==> spec_pop(#[trigger] spec_pop_n(spec_indices(n as nat), i)).0 == Some(
                i as usize,
            ),
        spec_pop_n(spec_indices(n as nat), n as nat) == Seq::<usize>::empty(),
        spec_pop(spec_pop_n(spec_indices(n as nat), n as nat)).0 is None,
        n > 0 ==> spec_pop(
            spec_push(spec_pop_n(spec_indices(n as nat), n as nat), n as nat, back),
        ) == (Some(back), Seq::<usize>::empty()),
{
    let all = spec_indices(n as nat);
    assert forall|i: nat| i < n implies spec_pop(#[trigger] spec_pop_n(all, i)).0 == Some(
        i as usize,
    ) by {
        lemma_pop_n(all, i);
        assert(all.subrange(i as int, n as int)[0] == all[i as int]);
    }
    lemma_pop_n(all, n as nat);
    let empty = Seq::<usize>::empty();
    assert(all.subrange(n as int, n as int) =~= empty);
    if n > 0 {
        assert(spec_push(empty, n as nat, back) == empty.push(back));
        assert(empty.push(back).drop_first() =~= empty);
    }
}

/// `k` pops take the first `k` indices off the free list.
pub proof fn lemma_pop_n(free: Seq<usize>, k: nat)
    requires
        k <= free.len(),
    ensures
        spec_pop_n(free, k) == free.subrange(k as int, free.len() as int),
    decreases k,
{
    if k == 0 {
        assert(free.subrange(0, free.len() as int) =~= free);
    } else {
        lemma_pop_n(free.drop_first(), (k - 1) as nat);
        assert(free.drop_first().subrange(k - 1, free.len() - 1) =~= free.subrange(
            k as int,
            free.len() as int,
        ));
    }
}

/// Popping keeps the free list exclusive, and so does pushing an index in
/// range that is not free already.
pub proof fn lemma_exclusive_preserved(free: Seq<usize>, count: nat, idx: usize)
    requires
        spec_exclusive(free, count),
    ensures
        spec_exclusive(spec_pop(free).1, count),
        idx < count && !free.contains(idx) ==> spec_exclusive(spec_push(free, count, idx), count),
{
    let popped = spec_pop(free).1;
    assert forall|i: int, j: int| 0 <= i < j < popped.len() implies popped[i] != popped[j] by {
        if free.len() > 0 {
            assert(popped[i] == free[i + 1]);
            assert(popped[j] == free[j + 1]);
        }
    }
    assert forall|i: int| 0 <= i < popped.len() implies (#[trigger] popped[i]) < count by {
        if free.len() > 0 {
            assert(popped[i] == free[i + 1]);
        }
    }
    if idx < count && !free.contains(idx) {
        let pushed = spec_push(free, count, idx);
        assert forall|i: int, j: int| 0 <= i < j < pushed.len() implies pushed[i] != pushed[j] by {
            if j == free.len() {
                assert(free.contains(free[i]));
            }
        }
    }
}

/// What was written to a buffer of the default size is read back from it:
/// the whole chunk where it leaves room for the length prefix, else as much
/// of it as fits. An empty chunk leaves nothing to read.
pub proof fn lemma_fill_then_payload(buf: Seq<u8>, chunk: Seq<u8>)
    requires
        buf.len() == DEFAULT_BUFFER_SIZE,
    ensures
        spec_fill(buf, chunk).len() == DEFAULT_BUFFER_SIZE,
        spec_payload(spec_fill(buf, chunk)) == if chunk.len() == 0 {
            None
        } else if chunk.len() <= DEFAULT_BUFFER_SIZE - LENGTH_PREFIX {
            Some(chunk)
        } else {
            Some(chunk.subrange(0, DEFAULT_BUFFER_SIZE - LENGTH_PREFIX))
        },
{
    let room = DEFAULT_BUFFER_SIZE - LENGTH_PREFIX;
    let n = if chunk.len() < room {
        chunk.len() as int
    } else {
        room
    };
    let filled = spec_fill(buf, chunk);
    assert(filled[0] == (n % 0x100) as u8);
    assert(filled[1] == (n / 0x100 % 0x100) as u8);
    assert(filled[2] == (n / 0x1_0000 % 0x100) as u8);
    assert(filled[3] == (n / 0x100_0000 % 0x100) as u8);
    assert(n == n % 0x100 + (n / 0x100 % 0x100) * 0x100 + (n / 0x1_0000 % 0x100) * 0x1_0000 + (n
        / 0x100_0000 % 0x100) * 0x100_0000);
    if n > 0 {
        assert(filled.subrange(LENGTH_PREFIX as int, LENGTH_PREFIX + n) =~= chunk.subrange(0, n));
        assert(chunk.len() <= room ==> chunk.subrange(0, n) =~= chunk);
    }
}

} // verus!
