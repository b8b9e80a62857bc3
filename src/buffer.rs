use vstd::prelude::*;

verus! {

/// How many samples a drain of at most `capacity` takes from `content`.
pub open spec fn drain_len(content: Seq<u32>, capacity: int) -> int {
    if capacity < content.len() {
        capacity
    } else {
        content.len() as int
    }
}

/// The samples that a drain of at most `capacity` hands out: the leading
/// ones, as many as there are, up to `capacity`.
pub open spec fn drained(content: Seq<u32>, capacity: int) -> Seq<u32> {
    content.take(drain_len(content, capacity))
}

/// What a drain of at most `capacity` leaves behind.
pub open spec fn after_drain(content: Seq<u32>, capacity: int) -> Seq<u32> {
    content.skip(drain_len(content, capacity))
}

/// What a buffer holds after a producer stores `block` in it: the block
/// alone, whatever `content` was there before.
pub open spec fn replaced(content: Seq<u32>, block: Seq<u32>) -> Seq<u32> {
    block
}

/// Two stores with no read between them leave only the second block: the
/// first is discarded, not kept in front of it.
pub proof fn lemma_last_write_wins(content: Seq<u32>, a: Seq<u32>, b: Seq<u32>)
    ensures
        replaced(replaced(content, a), b) == b,
        a.len() > 0 ==> replaced(replaced(content, a), b) != a + b,
{
    if a.len() > 0 {
        assert((a + b).len() != b.len());
    }
}

/// Draining `m` samples from `n > m` hands out the first `m`; draining the
/// other `n - m` then hands out the rest and leaves the buffer empty.
pub proof fn lemma_partial_drain(content: Seq<u32>, m: int)
    requires
        0 <= m < content.len(),
    ensures
        drained(content, m) == content.take(m),
        drained(after_drain(content, m), content.len() - m) == content.skip(m),
        after_drain(after_drain(content, m), content.len() - m) == Seq::<u32>::empty(),
        drained(content, m) + drained(after_drain(content, m), content.len() - m) == content,
{
    let rest = after_drain(content, m);
    assert(rest.take(content.len() - m) =~= content.skip(m));
    assert(rest.skip(content.len() - m) =~= Seq::<u32>::empty());
    assert(content.take(m) + content.skip(m) =~= content);
}

/// Draining an empty buffer, whatever the capacity, hands out nothing and
/// leaves it empty.
pub proof fn lemma_empty_drain(capacity: int)
    requires
        capacity >= 0,
    ensures
        drained(Seq::<u32>::empty(), capacity) == Seq::<u32>::empty(),
        after_drain(Seq::<u32>::empty(), capacity) == Seq::<u32>::empty(),
{
    assert(Seq::<u32>::empty().take(0) =~= Seq::<u32>::empty());
    assert(Seq::<u32>::empty().skip(0) =~= Seq::<u32>::empty());
}

/// The holder of the latest block of samples in one direction of the
/// pipeline. A producer overwrites its content wholesale; a consumer takes
/// samples from its front.
///
/// Sharing one between an audio callback and a transport loop is done by
/// wrapping it in a lock; every method here is a bounded in-memory copy, so
/// a critical section around one never blocks on I/O.
pub struct SampleBuffer {
    samples: Vec<u32>,
}

impl View for SampleBuffer {
    type V = Seq<u32>;

    closed spec fn view(&self) -> Seq<u32> {
        self.samples@
    }
}

impl SampleBuffer {
    /// An empty buffer.
    pub fn new() -> (r: SampleBuffer)
        ensures
            r@ == Seq::<u32>::empty(),
    {
        SampleBuffer { samples: Vec::new() }
    }

    /// The number of samples held.
    pub fn len(&self) -> (r: usize)
        ensures
            r == self@.len(),
    {
        self.samples.len()
    }

    /// Whether no sample is held.
    pub fn is_empty(&self) -> (r: bool)
        ensures
            r == (self@.len() == 0),
    {
        self.samples.len() == 0
    }

    /// A copy of the samples held, leaving them in place.
    pub fn contents(&self) -> (r: Vec<u32>)
        ensures
            r@ == self@,
    {
        let mut out: Vec<u32> = Vec::new();
        let mut i: usize = 0;
        while i < self.samples.len()
            invariant
                i <= self@.len(),
                out@ =~= self@.take(i as int),
            decreases self@.len() - i,
        {
            out.push(self.samples[i]);
            i = i + 1;
        }
        out
    }

    /// Discards whatever is held and holds `block` instead.
    pub fn replace(&mut self, block: Vec<u32>)
        ensures
            final(self)@ == replaced(old(self)@, block@),
    {
        self.samples = block;
    }

    /// Removes and returns the leading samples, at most `capacity` of them:
    /// fewer when fewer are held, none when the buffer is empty.
    pub fn drain_into(&mut self, capacity: usize) -> (r: Vec<u32>)
        ensures
            r@ == drained(old(self)@, capacity as int),
            final(self)@ == after_drain(old(self)@, capacity as int),
            r@ + final(self)@ == old(self)@,
    {
        let n: usize = if capacity < self.samples.len() {
            capacity
        } else {
            self.samples.len()
        };
        let mut head = self.samples.split_off(n);
        std::mem::swap(&mut self.samples, &mut head);
        assert(head@ + self@ =~= old(self)@);
        head
    }

    /// Returns everything held and leaves the buffer empty.
    pub fn snapshot_and_clear(&mut self) -> (r: Vec<u32>)
        ensures
            r@ == old(self)@,
            final(self)@ == Seq::<u32>::empty(),
    {
        let mut out: Vec<u32> = Vec::new();
        std::mem::swap(&mut self.samples, &mut out);
        out
    }

    /// Serves one output block: moves as many leading samples as `out` has
    /// room for, and as are held, into the front of `out`, and returns how
    /// many were moved. The rest of `out` is left as it was.
    pub fn fill_output(&mut self, out: &mut Vec<u32>) -> (n: usize)
        ensures
            n == drain_len(old(self)@, old(out)@.len() as int),
            final(out)@ == drained(old(self)@, old(out)@.len() as int) + old(out)@.skip(
                n as int,
            ),
            final(self)@ == after_drain(old(self)@, old(out)@.len() as int),
    {
        let head = self.drain_into(out.len());
        let n = head.len();
        let mut i: usize = 0;
        while i < n
            invariant
                n == head@.len(),
                n <= out@.len(),
                out@.len() == old(out)@.len(),
                i <= n,
                out@ =~= head@.take(i as int) + old(out)@.skip(i as int),
            decreases n - i,
        {
            out.set(i, head[i]);
            i = i + 1;
        }
        n
    }
}

} // verus!
