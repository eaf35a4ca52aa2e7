//! The receive ring buffer that the USART interrupt fills and the shell
//! drains.
use vstd::prelude::*;

verus! {

/// Number of slots of the ring; it holds at most `CAP - 1` bytes.
pub const CAP: usize = 30;

/// Byte ring with a read and a write index.
pub struct CircularBuffer {
    buf: [u8; 30],
    read_index: usize,
    write_index: usize,
}

/// Returned by `get` when nothing is queued.
#[derive(Clone, Debug)]
pub struct EmptyBufferError;

/// The bytes queued from `start` (inclusive) to `end` (exclusive), going
/// round the ring.
pub open spec fn ring_contents(buf: Seq<u8>, start: int, end: int) -> Seq<u8> {
    if start <= end {
        buf.subrange(start, end)
    } else {
        buf.subrange(start, CAP as int) + buf.subrange(0, end)
    }
}

/// Number of bytes queued between the two indices.
pub open spec fn ring_len(start: int, end: int) -> int {
    if start <= end { end - start } else { CAP - start + end }
}

/// The slot before `w` as the firmware computes it: `(w - 1) % CAP` with the
/// subtraction wrapping round at zero, as the optimised build does.
pub open spec fn wrapped_prev(w: usize) -> int {
    if w == 0 { (usize::MAX as int) % (CAP as int) } else { w - 1 }
}

/// Whether `b` is what `put(data)` makes of `a`: the byte is queued at
/// the back, unless the ring was full, which empties it.
pub open spec fn put_effect(a: CircularBuffer, data: u8, b: CircularBuffer) -> bool {
    &&& b.wf()
    &&& a@.len() < CAP - 1 ==> b@ == a@.push(data)
    &&& a@.len() == CAP - 1 ==> b@ == Seq::<u8>::empty()
}

/// Whether `b` and `res` are what `get()` makes of `a`: the oldest byte is
/// taken and returned, or `Err` when nothing is queued.
pub open spec fn get_effect(a: CircularBuffer, b: CircularBuffer, res: Result<u8, EmptyBufferError>) -> bool {
    &&& b.wf()
    &&& a@.len() == 0 ==> res is Err && b@ == a@
    &&& a@.len() > 0 ==> res == Ok::<u8, EmptyBufferError>(a@[0]) && b@ == a@.drop_first()
}

impl CircularBuffer {
    /// Indices stay inside the ring.
    pub closed spec fn wf(&self) -> bool {
        &&& self.read_index < CAP
        &&& self.write_index < CAP
    }

    /// The queued bytes, oldest first.
    pub closed spec fn view(&self) -> Seq<u8> {
        ring_contents(self.buf@, self.read_index as int, self.write_index as int)
    }

    /// The contents of all `CAP` slots, queued or not.
    pub closed spec fn slots(&self) -> Seq<u8> {
        self.buf@
    }

    pub closed spec fn spec_read_index(&self) -> usize {
        self.read_index
    }

    pub closed spec fn spec_write_index(&self) -> usize {
        self.write_index
    }

    /// The ring never holds more than `CAP - 1` bytes, and it is empty
    /// exactly when the two indices meet.
    pub proof fn lemma_capacity(&self)
        requires
            self.wf(),
        ensures
            self@.len() < CAP,
            self@.len() == 0 <==> self.spec_read_index() == self.spec_write_index(),
    {
        self.lemma_len();
    }

    proof fn lemma_len(&self)
        requires
            self.wf(),
        ensures
            self@.len() == ring_len(self.read_index as int, self.write_index as int),
            self@.len() < CAP,
            self@.len() == 0 <==> self.read_index == self.write_index,
            self@.len() == CAP - 1 <==> (self.write_index + 1) % (CAP as int)
                == self.read_index,
    {
    }

    /// An empty ring with every slot zeroed and both indices at slot 0.
    pub fn init() -> (cb: CircularBuffer)
        ensures
            cb.wf(),
            cb@ == Seq::<u8>::empty(),
            cb.slots() == Seq::new(CAP as nat, |i: int| 0u8),
            cb.spec_read_index() == 0,
            cb.spec_write_index() == 0,
    {
        let cb = CircularBuffer { buf: [0u8; 30], read_index: 0, write_index: 0 };
        proof {
            assert(cb@ =~= Seq::<u8>::empty());
            assert(cb.slots() =~= Seq::new(CAP as nat, |i: int| 0u8));
        }
        cb
    }

    /// Stores `data` at the write index and advances it. The result tells
    /// whether the ring was full before the call (`CAP - 1` bytes queued), in
    /// which case the receive interrupt is to be masked; the write then
    /// catches up with the read index and the queued bytes are lost.
    pub fn put(&mut self, data: u8) -> (mask_receive: bool)
        requires
            old(self).wf(),
        ensures
            final(self).wf(),
            mask_receive == (old(self)@.len() == CAP - 1),
            !mask_receive ==> final(self)@ == old(self)@.push(data),
            mask_receive ==> final(self)@ == Seq::<u8>::empty(),
            final(self).spec_read_index() == old(self).spec_read_index(),
            final(self).spec_write_index() == (old(self).spec_write_index() + 1) % (CAP as int),
            put_effect(*old(self), data, *final(self)),
    {
        proof {
            self.lemma_len();
        }
        let mask_receive = (self.write_index + 1) % CAP == self.read_index;
        let ghost old_buf = self.buf@;
        let w = self.write_index;
        self.buf.set(w, data);
        self.write_index = (w + 1) % CAP;
        proof {
            let r = self.read_index as int;
            let ow = w as int;
            let nw = self.write_index as int;
            if mask_receive {
                assert(self@ =~= Seq::<u8>::empty());
            } else {
                let s = ring_contents(old_buf, r, ow);
                if r <= ow {
                    if ow + 1 < CAP {
                        assert(self@ =~= s.push(data));
                    } else {
                        assert(nw == 0);
                        assert(self@ =~= s.push(data));
                    }
                } else {
                    assert(self@ =~= s.push(data));
                }
            }
        }
        mask_receive
    }

    /// Takes the oldest byte. When the ring is empty the result is
    /// `Err(EmptyBufferError)` and nothing changes. Otherwise the second
    /// component tells whether the receive interrupt is to be unmasked: that
    /// is the case when the read index equals `wrapped_prev` of the write
    /// index, that is when the byte taken was the last one queued (or, with
    /// the write index at 0, when the read index is slot 15: the firmware
    /// computes `(write_index - 1) % CAP`, and the subtraction wraps as in
    /// the optimised build, where an unoptimised build with overflow checks
    /// would panic).
    pub fn get(&mut self) -> (res: (Result<u8, EmptyBufferError>, bool))
        requires
            old(self).wf(),
        ensures
            final(self).wf(),
            old(self)@.len() == 0 ==> (res.0 is Err && !res.1 && *final(self) == *old(self)),
            old(self)@.len() > 0 ==> {
                &&& res.0 == Ok::<u8, EmptyBufferError>(old(self)@[0])
                &&& final(self)@ == old(self)@.drop_first()
                &&& res.1 == (old(self).spec_read_index() == wrapped_prev(
                    old(self).spec_write_index(),
                ))
                &&& final(self).spec_read_index() == (old(self).spec_read_index() + 1) % (
                CAP as int)
                &&& final(self).spec_write_index() == old(self).spec_write_index()
            },
            get_effect(*old(self), *final(self), res.0),
    {
        proof {
            self.lemma_len();
        }
        if self.read_index != self.write_index {
            let unmask = self.read_index == self.write_index.wrapping_sub(1) % CAP;
            let r = self.read_index;
            let data = self.buf[r];
            let ghost old_self = *self;
            self.read_index = (r + 1) % CAP;
            proof {
                let w = self.write_index as int;
                let s = ring_contents(self.buf@, r as int, w);
                if r < w {
                    assert(self@ =~= s.drop_first());
                } else if r + 1 < CAP {
                    assert(self@ =~= s.drop_first());
                } else {
                    assert(self@ =~= s.drop_first());
                }
            }
            (Ok(data), unmask)
        } else {
            (Err(EmptyBufferError), false)
        }
    }
}

/// After `j` of the puts from an empty ring, the first `j` bytes are
/// queued.
proof fn lemma_fill(states: Seq<CircularBuffer>, data: Seq<u8>, j: int)
    requires
        states.len() == data.len() + 1,
        data.len() <= CAP - 1,
        states[0].wf(),
        states[0]@ == Seq::<u8>::empty(),
        forall|t: int| 0 <= t < data.len() ==> put_effect(#[trigger] states[t], data[t], states[t + 1]),
        0 <= j <= data.len(),
    ensures
        states[j]@ == data.take(j),
    decreases j,
{
    if j == 0 {
        assert(data.take(0) =~= Seq::<u8>::empty());
    } else {
        lemma_fill(states, data, j - 1);
        assert(put_effect(states[j - 1], data[j - 1], states[j]));
        assert(data.take(j) =~= data.take(j - 1).push(data[j - 1]));
    }
}

/// After `j` of the gets, the first `j` results are the oldest `j` queued
/// bytes in order, and the rest are still queued.
proof fn lemma_drain(states: Seq<CircularBuffer>, results: Seq<Result<u8, EmptyBufferError>>, j: int)
    requires
        states.len() == results.len() + 1,
        states[0].wf(),
        forall|t: int| 0 <= t < results.len() ==> get_effect(#[trigger] states[t], states[t + 1], results[t]),
        0 <= j <= results.len(),
        j <= states[0]@.len(),
    ensures
        states[j]@ == states[0]@.skip(j),
        forall|t: int| 0 <= t < j ==> #[trigger] results[t] == Ok::<u8, EmptyBufferError>(states[0]@[t]),
    decreases j,
{
    if j == 0 {
        assert(states[0]@.skip(0) =~= states[0]@);
    } else {
        lemma_drain(states, results, j - 1);
        assert(get_effect(states[j - 1], states[j], results[j - 1]));
        assert(states[0]@.skip(j - 1).drop_first() =~= states[0]@.skip(j));
    }
}

/// First in, first out: bytes put one after another into an empty ring,
/// at most `CAP - 1` of them, come back from as many gets in the order they
/// were put, and the get after them finds the ring empty.
pub proof fn put_then_get_is_fifo(
    puts: Seq<CircularBuffer>,
    data: Seq<u8>,
    gets: Seq<CircularBuffer>,
    results: Seq<Result<u8, EmptyBufferError>>,
)
    requires
        puts.len() == data.len() + 1,
        data.len() <= CAP - 1,
        puts[0].wf(),
        puts[0]@ == Seq::<u8>::empty(),
        forall|t: int| 0 <= t < data.len() ==> put_effect(#[trigger] puts[t], data[t], puts[t + 1]),
        gets.len() == results.len() + 1,
        results.len() == data.len() + 1,
        gets[0] == puts.last(),
        forall|t: int| 0 <= t < results.len() ==> get_effect(#[trigger] gets[t], gets[t + 1], results[t]),
    ensures
        puts.last()@ == data,
        forall|t: int| 0 <= t < data.len() ==> #[trigger] results[t] == Ok::<u8, EmptyBufferError>(data[t]),
        results[data.len() as int] is Err,
{
    let n = data.len() as int;
    lemma_fill(puts, data, n);
    assert(data.take(n) =~= data);
    if n > 0 {
        assert(put_effect(puts[n - 1], data[n - 1], puts[n]));
    }
    assert(gets[0].wf());
    lemma_drain(gets, results, n);
    assert(gets[0]@.skip(n) =~= Seq::<u8>::empty());
    assert(get_effect(gets[n], gets[n + 1], results[n]));
}

} // verus!
