//! First-fit heap allocator.
//!
//! The heap is one region of `size` bytes starting at address `start`. It
//! is cut into blocks, each led by an 8-byte header: a 16-bit size field
//! (bit 0 set when the block is in use), two bytes of padding and the 32-bit
//! address of the block's payload. The block after a header at offset `o`
//! with size field `v` starts at `o + (v & !1) + 8`.
//!
//! The region is held here as its bytes, in little-endian order, so that
//! every read and write that the allocator makes on it is visible to the
//! proofs. Addresses handed in and out are absolute (`start` + offset), as
//! on the target. What the users of a block store in its payload is not
//! part of this model: the bytes change only through the allocator (headers,
//! payload addresses, zeroing).
//!
//! The allocator walks headers without checking that what it reads was
//! written as a header, and it may write past the end of the region (the
//! last block claims more bytes than the region has left). Each operation
//! therefore has a condition under which it stays inside the region and
//! does not overflow (`block_fits`, `stack_fits`, `free_safe`), and a
//! function that tests it (`can_zalloc`, `can_zalloc_stack`, `can_free`,
//! `can_free_in_range`).
use vstd::prelude::*;

verus! {

/// Size of a block header on the 32-bit target: the 16-bit size field, two
/// bytes of padding and the 32-bit payload address.
pub const HEADER_SIZE: usize = 8;

/// A block header, decoded: the raw size field (bit 0 is the in-use flag)
/// and the payload address.
pub struct FreeList {
    pub size: u16,
    pub memory: usize,
}

/// The heap region: where it lies, its bytes, and whether the first header
/// has been written (`FreeList::init`).
pub struct Heap {
    start: usize,
    size: usize,
    mem: Vec<u8>,
    ready: bool,
}

// ---------------------------------------------------------------------------
// The byte model
// ---------------------------------------------------------------------------

/// The little-endian 16-bit value at offset `o`.
pub open spec fn u16_at(mem: Seq<u8>, o: int) -> int {
    mem[o] as int + 256 * (mem[o + 1] as int)
}

/// The little-endian 32-bit value at offset `o`.
pub open spec fn u32_at(mem: Seq<u8>, o: int) -> int {
    u16_at(mem, o) + 65536 * u16_at(mem, o + 2)
}

/// `mem` with the 16-bit value `v` stored at offset `o`.
pub open spec fn put16(mem: Seq<u8>, o: int, v: int) -> Seq<u8> {
    mem.update(o, (v % 256) as u8).update(o + 1, (v / 256) as u8)
}

/// `mem` with the 32-bit value `v` stored at offset `o`.
pub open spec fn put32(mem: Seq<u8>, o: int, v: int) -> Seq<u8> {
    put16(put16(mem, o, v % 65536), o + 2, v / 65536)
}

/// `mem` with the `n` bytes from offset `a` set to zero.
pub open spec fn zeroed(mem: Seq<u8>, a: int, n: int) -> Seq<u8> {
    Seq::new(mem.len(), |i: int| if a <= i < a + n { 0u8 } else { mem[i] })
}

/// The block length a size field stands for: the field without its flag
/// (`v & !1`).
pub open spec fn span(v: int) -> int {
    v - v % 2
}

/// The size field with the in-use flag set (`v | 1`).
pub open spec fn with_used(v: int) -> int {
    v - v % 2 + 1
}

/// Whether a size field carries the in-use flag.
pub open spec fn is_used(v: int) -> bool {
    v % 2 == 1
}

/// Offset of the header that follows the one at `o`.
pub open spec fn next_block(mem: Seq<u8>, o: int) -> int {
    o + span(u16_at(mem, o)) + HEADER_SIZE
}

/// `(v + 3) & !3`: the request rounded up to a multiple of 4.
pub open spec fn align4(v: int) -> int {
    (v + 3) - (v + 3) % 4
}

/// `(v + 7) & !7`: the request rounded up to a multiple of 8.
pub open spec fn align8(v: int) -> int {
    (v + 7) - (v + 7) % 8
}

/// A 16-bit pattern read as `i16`.
pub open spec fn as_i16(v: int) -> int {
    if v < 32768 { v } else { v - 65536 }
}

/// An `i16` read back as a 16-bit pattern.
pub open spec fn as_u16(x: int) -> int {
    if x < 0 { x + 65536 } else { x }
}

/// `size_in_between` of the allocator: what is left of a block of size `v`
/// once `s` bytes and two headers are taken, computed in `i16`.
pub open spec fn gap(v: int, s: int) -> int {
    as_i16(v) - 2 * (HEADER_SIZE as int) - as_i16(s)
}

/// Offset of the first block at or after `o` whose header is free and whose
/// size field is at least `s`; `len` or more when the walk leaves the heap.
pub open spec fn first_fit(mem: Seq<u8>, len: int, o: int, s: int) -> int
    decreases len - o,
{
    if 0 <= o < len {
        let v = u16_at(mem, o);
        proof {
            lemma_u16_nonneg(mem, o);
        }
        if is_used(v) || v < s {
            let n = next_block(mem, o);
            if n < len {
                first_fit(mem, len, n, s)
            } else {
                n
            }
        } else {
            o
        }
    } else {
        o
    }
}

/// What `alloc_first_fit` writes into the free block at `o` to hand out
/// `s` bytes: the block is marked in use, and when enough is left it is split
/// and a free header is written `s + 8` bytes further. The remainder is
/// `size_in_between` when another block follows inside the heap, and the
/// size minus `s` otherwise.
pub open spec fn carve(mem: Seq<u8>, len: int, o: int, s: int) -> Seq<u8> {
    let v = u16_at(mem, o);
    if v == s {
        put16(mem, o, with_used(s))
    } else if gap(v, s) < 4 {
        put16(mem, o, with_used(v))
    } else if v > s {
        let rem = if o + v + (HEADER_SIZE as int) < len {
            as_u16(gap(v, s))
        } else {
            v - s
        };
        put16(put16(mem, o, with_used(s)), o + s + HEADER_SIZE, span(rem))
    } else {
        mem
    }
}

/// Whether carving `s` bytes out of the block at `o` splits it.
pub open spec fn splits(mem: Seq<u8>, o: int, s: int) -> bool {
    let v = u16_at(mem, o);
    v != s && gap(v, s) >= 4 && v > s
}

/// Offset of the first block from `o` on that `first_stackable_block`
/// accepts for a stack of `s` bytes: a free block whose size field is a
/// multiple of 8 and at least `s`, or one that is 4 more than a multiple of
/// 8 and at least `s + 20`.
pub open spec fn first_stackable(mem: Seq<u8>, len: int, o: int, s: int) -> int
    decreases len - o,
{
    if 0 <= o < len {
        let v = u16_at(mem, o);
        proof {
            lemma_u16_nonneg(mem, o);
        }
        if is_used(v) || (v < s && v % 8 == 0) || (v < s + 4 + 2 * (HEADER_SIZE as int) && v
            % 8 == 4) {
            let n = next_block(mem, o);
            if n < len {
                first_stackable(mem, len, n, s)
            } else {
                n
            }
        } else {
            o
        }
    } else {
        o
    }
}

/// Every byte at a 4-aligned offset is 0 or 1 modulo 4, so that every size
/// field read at a 4-aligned offset spans a multiple of 4.
pub open spec fn words_ok(mem: Seq<u8>) -> bool {
    forall|i: int| 0 <= i < mem.len() && i % 4 == 0 ==> #[trigger] mem[i] % 4 < 2
}

// ---------------------------------------------------------------------------
// Lemmas on the byte model
// ---------------------------------------------------------------------------

pub proof fn lemma_u16_nonneg(mem: Seq<u8>, o: int)
    ensures
        0 <= u16_at(mem, o) < 65536,
        0 <= span(u16_at(mem, o)) <= u16_at(mem, o),
{
    let a = mem[o];
    let b = mem[o + 1];
    assert(0 <= a <= 255);
    assert(0 <= b <= 255);
}

proof fn lemma_span_aligned(mem: Seq<u8>, o: int)
    requires
        words_ok(mem),
        0 <= o,
        o + 1 < mem.len(),
        o % 4 == 0,
    ensures
        u16_at(mem, o) % 4 < 2,
        span(u16_at(mem, o)) % 4 == 0,
        span(u16_at(mem, o)) >= 0,
        next_block(mem, o) % 4 == 0,
        next_block(mem, o) >= o + 8,
{
    let a = mem[o] as int;
    let b = mem[o + 1] as int;
    assert(mem[o] % 4 < 2);
    assert((a + 256 * b) % 4 == a % 4) by (nonlinear_arith)
        requires
            0 <= a,
            0 <= b,
    ;
}

proof fn lemma_put16(mem: Seq<u8>, o: int, v: int)
    requires
        words_ok(mem),
        0 <= o,
        o + 1 < mem.len(),
        o % 4 == 0,
        0 <= v < 65536,
        v % 4 < 2,
    ensures
        words_ok(put16(mem, o, v)),
        put16(mem, o, v).len() == mem.len(),
        u16_at(put16(mem, o, v), o) == v,
        forall|i: int| 0 <= i < mem.len() && i != o && i != o + 1 ==> #[trigger] put16(
            mem,
            o,
            v,
        )[i] == mem[i],
{
    let m = put16(mem, o, v);
    assert((v % 256) % 4 == v % 4) by (nonlinear_arith)
        requires
            0 <= v,
    ;
    assert forall|i: int| 0 <= i < m.len() && i % 4 == 0 implies #[trigger] m[i] % 4 < 2 by {
        if i == o {
        } else {
            assert(i != o + 1);
            assert(m[i] == mem[i]);
        }
    }
}

proof fn lemma_put32(mem: Seq<u8>, o: int, v: int)
    requires
        words_ok(mem),
        0 <= o,
        o + 3 < mem.len(),
        o % 4 == 0,
        0 <= v < 0x1_0000_0000,
        v % 4 == 0,
    ensures
        words_ok(put32(mem, o, v)),
        put32(mem, o, v).len() == mem.len(),
        u32_at(put32(mem, o, v), o) == v,
        forall|i: int| 0 <= i < mem.len() && !(o <= i < o + 4) ==> #[trigger] put32(
            mem,
            o,
            v,
        )[i] == mem[i],
{
    assert((v % 65536) % 4 == v % 4) by (nonlinear_arith)
        requires
            0 <= v,
    ;
    lemma_put16(mem, o, v % 65536);
    let m1 = put16(mem, o, v % 65536);
    let m2 = put16(m1, o + 2, v / 65536);
    assert((v % 256) % 4 == v % 4) by (nonlinear_arith)
        requires
            0 <= v,
    ;
    assert forall|i: int| 0 <= i < m2.len() && i % 4 == 0 implies #[trigger] m2[i] % 4 < 2 by {
        assert(i != o + 2 && i != o + 3);
        assert(m2[i] == m1[i]);
    }
    assert(u16_at(m2, o) == u16_at(m1, o));
    assert(v == v % 65536 + 65536 * (v / 65536)) by (nonlinear_arith);
}

proof fn lemma_zeroed(mem: Seq<u8>, a: int, n: int)
    requires
        words_ok(mem),
    ensures
        words_ok(zeroed(mem, a, n)),
        zeroed(mem, a, n).len() == mem.len(),
{
    let m = zeroed(mem, a, n);
    assert forall|i: int| 0 <= i < m.len() && i % 4 == 0 implies #[trigger] m[i] % 4 < 2 by {
        if a <= i < a + n {
        } else {
            assert(m[i] == mem[i]);
        }
    }
}

proof fn lemma_first_fit(mem: Seq<u8>, len: int, o: int, s: int)
    requires
        words_ok(mem),
        mem.len() == len,
        len % 4 == 0,
        0 <= o,
        o % 4 == 0,
        o < len + 65536 + 8,
    ensures
        first_fit(mem, len, o, s) % 4 == 0,
        first_fit(mem, len, o, s) >= o,
        first_fit(mem, len, o, s) < len ==> {
            let v = u16_at(mem, first_fit(mem, len, o, s));
            &&& !is_used(v)
            &&& v >= s
            &&& v % 4 == 0
        },
        first_fit(mem, len, o, s) < len + 65536 + 8,
    decreases len - o,
{
    if o < len {
        lemma_span_aligned(mem, o);
        lemma_u16_nonneg(mem, o);
        let v = u16_at(mem, o);
        if is_used(v) || v < s {
            if next_block(mem, o) < len {
                lemma_first_fit(mem, len, next_block(mem, o), s);
            }
        }
    }
}

proof fn lemma_first_stackable(mem: Seq<u8>, len: int, o: int, s: int)
    requires
        words_ok(mem),
        mem.len() == len,
        len % 4 == 0,
        0 <= o,
        o % 4 == 0,
        o < len + 65536 + 8,
    ensures
        first_stackable(mem, len, o, s) % 4 == 0,
        first_stackable(mem, len, o, s) >= o,
        first_stackable(mem, len, o, s) < len ==> {
            let v = u16_at(mem, first_stackable(mem, len, o, s));
            &&& !is_used(v)
            &&& v % 4 == 0
        },
        first_stackable(mem, len, o, s) < len + 65536 + 8,
    decreases len - o,
{
    if o < len {
        lemma_span_aligned(mem, o);
        lemma_u16_nonneg(mem, o);
        let v = u16_at(mem, o);
        if is_used(v) || (v < s && v % 8 == 0) || (v < s + 20 && v % 8 == 4) {
            if next_block(mem, o) < len {
                lemma_first_stackable(mem, len, next_block(mem, o), s);
            }
        }
    }
}

proof fn lemma_cast16(v: u16)
    ensures
        (v as i16) as int == as_i16(v as int),
{
    assert(v >= 32768u16 ==> ((v as i16) as i32) == (v as i32) - 65536i32) by (bit_vector);
}

proof fn lemma_cast_back(x: i16)
    ensures
        (x as u16) as int == as_u16(x as int),
{
    assert(x < 0i16 ==> ((x as u16) as i32) == (x as i32) + 65536i32) by (bit_vector);
}

proof fn lemma_flags(v: u16)
    ensures
        (v & 1 == 1) == is_used(v as int),
        (v & !1u16) as int == span(v as int),
        (v | 1) as int == with_used(v as int),
{
    assert((v & 1 == 1) == (v % 2 == 1)) by (bit_vector);
    assert((v & !1u16) == v - v % 2) by (bit_vector);
    assert((v | 1u16) == v - v % 2 + 1) by (bit_vector);
}

proof fn lemma_mask(w: u16)
    ensures
        (w & !3u16) as int == w - w % 4,
        (w & !7u16) as int == w - w % 8,
{
    assert((w & !3u16) == w - w % 4) by (bit_vector);
    assert((w & !7u16) == w - w % 8) by (bit_vector);
}

// ---------------------------------------------------------------------------
// The heap
// ---------------------------------------------------------------------------

/// Whether the call `alloc_first_fit(s)` stays inside the heap and its
/// `i16` arithmetic does not overflow: when a block is found, the gap
/// computed for it fits `i16`, and a split header lands inside the heap.
pub open spec fn alloc_safe(mem: Seq<u8>, len: int, s: int) -> bool {
    let o = first_fit(mem, len, 0, s);
    o < len ==> carve_safe(mem, len, o, s)
}

/// Whether carving `s` bytes out of the block at `o` keeps its `i16`
/// arithmetic in range and a split header inside the heap.
pub open spec fn carve_safe(mem: Seq<u8>, len: int, o: int, s: int) -> bool {
    let v = u16_at(mem, o);
    &&& -32768 <= as_i16(v) - 2 * (HEADER_SIZE as int)
    &&& -32768 <= gap(v, s) <= 32767
    &&& splits(mem, o, s) ==> o + s + HEADER_SIZE < len
}

/// Whether `zalloc_block` can hand out `s` bytes (already rounded to a
/// multiple of 4) without panicking or writing past the heap: the request is
/// below the heap size, a block is found, the arithmetic is safe, and the
/// payload address and the `s` zeroed bytes lie inside the heap.
pub open spec fn block_fits(mem: Seq<u8>, len: int, s: int) -> bool {
    let o = first_fit(mem, len, 0, s);
    &&& s < len
    &&& o < len
    &&& alloc_safe(mem, len, s)
    &&& o + HEADER_SIZE + s <= len
}

/// The bytes after `zalloc_block` handed out the block at `o` for `s`
/// bytes: the block carved, its payload address stored, the payload zeroed.
pub open spec fn after_zalloc(mem: Seq<u8>, len: int, start: int, o: int, s: int) -> Seq<u8> {
    zeroed(
        put32(carve(mem, len, o, s), o + 4, start + o + HEADER_SIZE),
        o + HEADER_SIZE,
        s,
    )
}

/// Whether `pad_at` on the block at `o` for `s` bytes stays inside the
/// heap and its arithmetic does not overflow: the size field is at least
/// `s`, the `i16` gap computation fits, and the second header lands inside
/// the heap.
pub open spec fn pad_safe(mem: Seq<u8>, len: int, o: int, s: int) -> bool {
    let v = u16_at(mem, o);
    &&& v >= s
    &&& -32768 <= as_i16(v) - 2 * (HEADER_SIZE as int)
    &&& -32768 <= gap(v, s) <= 32767
    &&& o + s + HEADER_SIZE < len
}

/// What `pad_at` writes: the block at `o` becomes an in-use block of `s`
/// bytes, followed by a free header carrying the rest (`size_in_between`
/// when another block follows inside the heap, the size minus `s`
/// otherwise).
pub open spec fn pad(mem: Seq<u8>, len: int, o: int, s: int) -> Seq<u8> {
    let v = u16_at(mem, o);
    let rem = if o + v + (HEADER_SIZE as int) < len {
        as_u16(gap(v, s))
    } else {
        v - s
    };
    put16(put16(mem, o, with_used(s)), o + s + HEADER_SIZE, span(rem))
}

/// The bytes that `zalloc_stack` hands to `zalloc_block` for a stack of
/// `s` bytes: when the block that `first_stackable_block` finds starts 4
/// bytes past an 8-byte boundary, a 4-byte block is carved in front of it.
pub open spec fn stack_padded(mem: Seq<u8>, len: int, start: int, s: int) -> Seq<u8> {
    let o = first_stackable(mem, len, 0, s);
    if o < len && (start + o) % 8 == 4 {
        pad(mem, len, o, 4)
    } else {
        mem
    }
}

/// Whether `zalloc_stack` can hand out a stack of `s` bytes (already
/// rounded to a multiple of 8) without panicking or writing past the heap:
/// the padding step is safe, the block that `zalloc_block` then finds fits,
/// and its payload lands on an 8-byte boundary.
pub open spec fn stack_fits(mem: Seq<u8>, len: int, start: int, s: int) -> bool {
    let o = first_stackable(mem, len, 0, s);
    let padded = stack_padded(mem, len, start, s);
    &&& (o < len && (start + o) % 8 == 4) ==> pad_safe(mem, len, o, 4)
    &&& block_fits(padded, len, s)
    &&& (start + first_fit(padded, len, 0, s) + HEADER_SIZE) % 8 == 0
}

/// Offset of the header in front of the payload address `ptr`.
pub open spec fn header_of(start: int, ptr: int) -> int {
    ptr - start - HEADER_SIZE
}

/// Whether `free(ptr)` stays inside the heap: `ptr` is 4-aligned with its
/// header inside the heap, and the payload address stored in that header is
/// 4-aligned with the span of the block after it inside the heap.
pub open spec fn free_safe(mem: Seq<u8>, len: int, start: int, ptr: int) -> bool {
    let o = header_of(start, ptr);
    let m = u32_at(mem, o + 4);
    let n = span(u16_at(mem, o));
    &&& ptr % 4 == 0
    &&& 0 <= o
    &&& o + HEADER_SIZE <= len
    &&& m % 4 == 0
    &&& n == 0 || (start <= m && m + n <= start + len)
}

/// The bytes after `free(ptr)`: the span recorded in the header in front
/// of `ptr` is zeroed from the payload address stored there, then the
/// header is rewritten free with the same span.
pub open spec fn after_free(mem: Seq<u8>, start: int, ptr: int) -> Seq<u8> {
    let o = header_of(start, ptr);
    let n = span(u16_at(mem, o));
    put16(zeroed(mem, u32_at(mem, o + 4) - start, n), o, n)
}

/// The walk of `free_in_range`: from offset `o`, with `prec` the header
/// visited before it, go on while the block is inside the heap, in use and
/// below `ptr`. Returns the header where the walk stopped and the one before.
pub open spec fn range_walk(mem: Seq<u8>, len: int, start: int, ptr: int, o: int, prec: int) -> (
    int,
    int,
)
    decreases len - o,
{
    if 0 <= o < len && is_used(u16_at(mem, o)) && start + o < ptr {
        proof {
            lemma_u16_nonneg(mem, o);
        }
        let n = next_block(mem, o);
        if n < len {
            range_walk(mem, len, start, ptr, n, o)
        } else {
            (n, o)
        }
    } else {
        (o, prec)
    }
}

/// The address that `free_in_range(ptr)` hands to `free`: the header where
/// the walk stopped when that header is `ptr` itself, else the header before
/// it.
pub open spec fn range_target(mem: Seq<u8>, len: int, start: int, ptr: int) -> int {
    let (head, prec) = range_walk(mem, len, start, ptr, 0, 0);
    if start + head == ptr {
        start + head
    } else {
        start + prec
    }
}

/// On a prepared heap with bytes `mem`, the payload address that
/// `zalloc_block(size)` returns.
pub open spec fn ready_zalloc_addr(mem: Seq<u8>, len: int, start: int, size: u16) -> int {
    start + first_fit(mem, len, 0, align4(size as int)) + HEADER_SIZE
}

/// On a prepared heap with bytes `mem`, the bytes after
/// `zalloc_block(size)`.
pub open spec fn ready_zalloc_bytes(mem: Seq<u8>, len: int, start: int, size: u16) -> Seq<u8> {
    after_zalloc(mem, len, start, first_fit(mem, len, 0, align4(size as int)), align4(size as int))
}

impl Heap {
    /// Layout facts: the bytes cover the region, the region is word aligned,
    /// fits the 16-bit size field and the 32-bit address space, and every
    /// byte at a 4-aligned offset is 0 or 1 modulo 4.
    pub closed spec fn wf(&self) -> bool {
        &&& self.mem@.len() == self.size
        &&& self.start % 4 == 0
        &&& self.size % 4 == 0
        &&& self.size < 65536
        &&& self.start + self.size < 0x1_0000_0000
        &&& words_ok(self.mem@)
    }

    pub closed spec fn heap_start(&self) -> int {
        self.start as int
    }

    pub closed spec fn heap_size(&self) -> int {
        self.size as int
    }

    /// The bytes of the region, offset 0 at `heap_start()`.
    pub closed spec fn bytes(&self) -> Seq<u8> {
        self.mem@
    }

    /// Whether the first header was written.
    pub closed spec fn is_ready(&self) -> bool {
        self.ready
    }

    /// Whether `zalloc_block(size)` is safe on this heap (see `block_fits`).
    pub open spec fn can_zalloc_block(&self, size: u16) -> bool {
        self.is_ready() ==> block_fits(self.bytes(), self.heap_size(), align4(size as int))
    }

    /// The payload address that `zalloc_block(size)` returns.
    pub open spec fn zalloc_block_addr(&self, size: u16) -> int {
        if self.is_ready() {
            ready_zalloc_addr(self.bytes(), self.heap_size(), self.heap_start(), size)
        } else {
            0
        }
    }

    /// The bytes after `zalloc_block(size)`.
    pub open spec fn zalloc_block_bytes(&self, size: u16) -> Seq<u8> {
        if self.is_ready() {
            ready_zalloc_bytes(self.bytes(), self.heap_size(), self.heap_start(), size)
        } else {
            self.bytes()
        }
    }

    /// The header at offset `o`, decoded.
    pub open spec fn header(&self, o: int) -> (int, int) {
        (u16_at(self.bytes(), o), u32_at(self.bytes(), o + 4))
    }

    pub proof fn lemma_wf(&self)
        requires
            self.wf(),
        ensures
            self.bytes().len() == self.heap_size(),
            0 <= self.heap_start(),
            0 <= self.heap_size(),
            self.heap_start() % 4 == 0,
            self.heap_size() % 4 == 0,
            self.heap_size() < 65536,
            self.heap_start() + self.heap_size() < 0x1_0000_0000,
            words_ok(self.bytes()),
    {
    }

    /// An unprepared heap over the region `[start, start + size)`, whose
    /// bytes are all zero. The region is word aligned (the allocator checks
    /// the alignment of every header it writes), its size fits the 16-bit
    /// size field of a header (the SRAM of the STM32F0 parts is at most
    /// 32 KiB), and its addresses fit the 32-bit payload address field.
    pub fn new(start: usize, size: usize) -> (heap: Heap)
        requires
            start % 4 == 0,
            size % 4 == 0,
            size < 65536,
            start + size < 0x1_0000_0000,
        ensures
            heap.wf(),
            heap.heap_start() == start,
            heap.heap_size() == size,
            !heap.is_ready(),
            heap.bytes() == Seq::new(size as nat, |i: int| 0u8),
    {
        let mut mem: Vec<u8> = Vec::new();
        let mut i: usize = 0;
        while i < size
            invariant
                i <= size,
                mem@ == Seq::new(i as nat, |k: int| 0u8),
            decreases size - i,
        {
            mem.push(0u8);
            i = i + 1;
            proof {
                assert(mem@ =~= Seq::new(i as nat, |k: int| 0u8));
            }
        }
        Heap { start, size, mem, ready: false }
    }

    pub fn start(&self) -> (r: usize)
        ensures
            r == self.heap_start(),
    {
        self.start
    }

    pub fn size(&self) -> (r: usize)
        ensures
            r == self.heap_size(),
    {
        self.size
    }

    pub fn ready(&self) -> (r: bool)
        ensures
            r == self.is_ready(),
    {
        self.ready
    }

    /// The byte at absolute address `addr`.
    pub fn byte_at(&self, addr: usize) -> (b: u8)
        requires
            self.wf(),
            self.heap_start() <= addr < self.heap_start() + self.heap_size(),
        ensures
            b == self.bytes()[addr - self.heap_start()],
    {
        self.mem[addr - self.start]
    }

    /// The header at absolute address `addr`, decoded.
    pub fn header_at(&self, addr: usize) -> (h: FreeList)
        requires
            self.wf(),
            self.heap_start() <= addr,
            addr + HEADER_SIZE <= self.heap_start() + self.heap_size(),
        ensures
            h.size == self.header((addr - self.heap_start()) as int).0,
            h.memory == self.header((addr - self.heap_start()) as int).1,
    {
        let o = addr - self.start;
        FreeList { size: self.read16(o), memory: self.read32(o + 4) as usize }
    }

    fn read16(&self, o: usize) -> (v: u16)
        requires
            o + 1 < self.mem@.len(),
            self.mem@.len() < 65536,
        ensures
            v as int == u16_at(self.mem@, o as int),
    {
        (self.mem[o] as u16) + (self.mem[o + 1] as u16) * 256
    }

    fn read32(&self, o: usize) -> (v: u32)
        requires
            o + 3 < self.mem@.len(),
            self.mem@.len() < 65536,
        ensures
            v as int == u32_at(self.mem@, o as int),
    {
        (self.read16(o) as u32) + (self.read16(o + 2) as u32) * 65536
    }

    fn write16(&mut self, o: usize, v: u16)
        requires
            o + 1 < old(self).mem@.len(),
            old(self).mem@.len() < 65536,
        ensures
            final(self).mem@ == put16(old(self).mem@, o as int, v as int),
            final(self).start == old(self).start,
            final(self).size == old(self).size,
            final(self).ready == old(self).ready,
    {
        self.mem[o] = (v % 256) as u8;
        self.mem[o + 1] = (v / 256) as u8;
    }

    fn write32(&mut self, o: usize, v: u32)
        requires
            o + 3 < old(self).mem@.len(),
            old(self).mem@.len() < 65536,
        ensures
            final(self).mem@ == put32(old(self).mem@, o as int, v as int),
            final(self).start == old(self).start,
            final(self).size == old(self).size,
            final(self).ready == old(self).ready,
    {
        self.write16(o, (v % 65536) as u16);
        self.write16(o + 2, (v / 65536) as u16);
    }

    /// Writes a header's size field at offset `o`, with the in-use flag set
    /// or cleared.
    fn init_metadata(&mut self, o: usize, size: u16, is_allocated: bool)
        requires
            old(self).wf(),
            o + 1 < old(self).mem@.len(),
            o % 4 == 0,
            size % 4 < 2,
        ensures
            final(self).wf(),
            final(self).mem@ == put16(
                old(self).mem@,
                o as int,
                if is_allocated {
                    with_used(size as int)
                } else {
                    span(size as int)
                },
            ),
            final(self).start == old(self).start,
            final(self).size == old(self).size,
            final(self).ready == old(self).ready,
    {
        assert_4_alignment(self.start + o);
        proof {
            lemma_flags(size);
        }
        let v = if is_allocated {
            size | 1
        } else {
            size & !1
        };
        proof {
            lemma_put16(self.mem@, o as int, v as int);
        }
        self.write16(o, v);
    }

    /// Zeroes `size` bytes from absolute address `block`.
    fn zero_memory(&mut self, block: usize, size: u16)
        requires
            old(self).wf(),
            block % 4 == 0,
            size == 0 || (old(self).start <= block && block + size <= old(self).start
                + old(self).size),
        ensures
            final(self).wf(),
            final(self).mem@ == zeroed(
                old(self).mem@,
                block - old(self).start,
                size as int,
            ),
            final(self).start == old(self).start,
            final(self).size == old(self).size,
            final(self).ready == old(self).ready,
    {
        assert_4_alignment(block);
        if size == 0 {
            proof {
                assert(self.mem@ =~= zeroed(self.mem@, block - self.start, 0));
            }
            return ;
        }
        let a = block - self.start;
        let n = size as usize;
        let mut i: usize = 0;
        let ghost m0 = self.mem@;
        while i < n
            invariant
                i <= n,
                a + n <= self.mem@.len(),
                self.mem@.len() < 65536,
                self.mem@.len() == m0.len(),
                self.mem@ == zeroed(m0, a as int, i as int),
                self.start == old(self).start,
                self.size == old(self).size,
                self.ready == old(self).ready,
            decreases n - i,
        {
            self.mem[a + i] = 0;
            i = i + 1;
            proof {
                assert(self.mem@ =~= zeroed(m0, a as int, i as int));
            }
        }
        proof {
            lemma_zeroed(m0, a as int, n as int);
        }
    }

    /// The first-fit walk: from the first header, skip blocks that are in
    /// use or smaller than `size` until one fits or the walk leaves the heap.
    fn first_fit_walk(&self, size: u16) -> (o: usize)
        requires
            self.wf(),
        ensures
            o == first_fit(self.mem@, self.size as int, 0, size as int),
    {
        let len = self.size;
        let ghost mem = self.mem@;
        let ghost target = first_fit(mem, len as int, 0, size as int);
        proof {
            lemma_first_fit(mem, len as int, 0, size as int);
        }
        let mut tmp: usize = 0;
        loop
            invariant
                self.wf(),
                self.mem@ == mem,
                len == self.size,
                tmp % 4 == 0,
                tmp <= target,
                first_fit(mem, len as int, tmp as int, size as int) == target,
                target < len + 65536 + 8,
            ensures
                tmp == target,
            decreases target - tmp,
        {
            if tmp >= len {
                break ;
            }
            let v = self.read16(tmp);
            proof {
                lemma_flags(v);
                lemma_span_aligned(mem, tmp as int);
            }
            if !(v & 1 == 1 || v < size) {
                break ;
            }
            proof {
                if next_block(mem, tmp as int) < len {
                    lemma_first_fit(mem, len as int, next_block(mem, tmp as int), size as int);
                }
            }
            tmp = tmp + ((v & !1) as usize) + HEADER_SIZE;
        }
        tmp
    }

    /// Marks the free block at `o` in use for `size` bytes, splitting it
    /// when enough is left.
    fn carve_block(&mut self, o: usize, size: u16)
        requires
            old(self).wf(),
            size % 4 == 0,
            o < old(self).size,
            o % 4 == 0,
            !is_used(u16_at(old(self).mem@, o as int)),
            u16_at(old(self).mem@, o as int) >= size,
            -32768 <= as_i16(u16_at(old(self).mem@, o as int)) - 2 * (HEADER_SIZE as int),
            -32768 <= gap(u16_at(old(self).mem@, o as int), size as int) <= 32767,
            splits(old(self).mem@, o as int, size as int) ==> o + size + HEADER_SIZE
                < old(self).size,
        ensures
            final(self).wf(),
            final(self).start == old(self).start,
            final(self).size == old(self).size,
            final(self).ready == old(self).ready,
            final(self).mem@ == carve(old(self).mem@, old(self).size as int, o as int, size as int),
    {
        let len = self.size;
        let ghost mem = self.mem@;
        let v = self.read16(o);
        proof {
            lemma_cast16(v);
            lemma_cast16(size);
            lemma_span_aligned(mem, o as int);
        }
        let size_in_between: i16 = (v as i16) - 2 * (HEADER_SIZE as i16) - (size as i16);
        if v == size {
            self.init_metadata(o, size, true);
        } else if size_in_between < 4 {
            self.init_metadata(o, v, true);
        } else if v > size {
            let mut remaining_size: u16 = v - size;
            if o + (v as usize) + HEADER_SIZE < len {
                proof {
                    lemma_cast_back(size_in_between);
                }
                remaining_size = size_in_between as u16;
            }
            assert(remaining_size % 4 == 0);
            self.init_metadata(o, size, true);
            self.init_metadata(o + (size as usize) + HEADER_SIZE, remaining_size, false);
        }
    }

    /// The first-fit search and carve. `None` when the walk leaves the heap
    /// without finding a free block of at least `size` bytes; otherwise the
    /// offset of the block, which is now marked in use and split when enough
    /// is left.
    fn alloc_first_fit(&mut self, size: u16) -> (r: Option<usize>)
        requires
            old(self).wf(),
            size % 4 == 0,
            (size as int) < old(self).size,
            alloc_safe(old(self).mem@, old(self).size as int, size as int),
        ensures
            final(self).wf(),
            final(self).start == old(self).start,
            final(self).size == old(self).size,
            final(self).ready == old(self).ready,
            ({
                let o = first_fit(old(self).mem@, old(self).size as int, 0, size as int);
                match r {
                    None => o >= old(self).size && final(self).mem@ == old(self).mem@,
                    Some(p) => p == o && o < old(self).size && final(self).mem@ == carve(
                        old(self).mem@,
                        old(self).size as int,
                        o,
                        size as int,
                    ),
                }
            }),
    {
        assert_4_alignment(self.start);
        proof {
            lemma_first_fit(self.mem@, self.size as int, 0, size as int);
        }
        let tmp = self.first_fit_walk(size);
        if tmp >= self.size {
            return None;
        }
        self.carve_block(tmp, size);
        Some(tmp)
    }
}

impl Heap {
    /// The walk of `first_stackable_block`: skip blocks in use, blocks
    /// whose size field is a multiple of 8 below `size`, and blocks whose
    /// size field is 4 past a multiple of 8 below `size + 20`.
    fn first_stackable_block(&self, size: u16) -> (o: usize)
        requires
            self.wf(),
            size <= 65515,
        ensures
            o == first_stackable(self.mem@, self.size as int, 0, size as int),
    {
        let len = self.size;
        let ghost mem = self.mem@;
        let ghost target = first_stackable(mem, len as int, 0, size as int);
        proof {
            lemma_first_stackable(mem, len as int, 0, size as int);
        }
        let mut tmp: usize = 0;
        loop
            invariant
                self.wf(),
                self.mem@ == mem,
                len == self.size,
                size <= 65515,
                tmp % 4 == 0,
                tmp <= target,
                first_stackable(mem, len as int, tmp as int, size as int) == target,
                target < len + 65536 + 8,
            ensures
                tmp == target,
            decreases target - tmp,
        {
            if tmp >= len {
                break ;
            }
            let v = self.read16(tmp);
            proof {
                lemma_flags(v);
                lemma_span_aligned(mem, tmp as int);
            }
            if !(v & 1 == 1 || (v < size && v % 8 == 0) || (v < size + 4 + 2 * (
            HEADER_SIZE as u16) && v % 8 == 4)) {
                break ;
            }
            proof {
                if next_block(mem, tmp as int) < len {
                    lemma_first_stackable(
                        mem,
                        len as int,
                        next_block(mem, tmp as int),
                        size as int,
                    );
                }
            }
            tmp = tmp + ((v & !1) as usize) + HEADER_SIZE;
        }
        tmp
    }

    /// The walk of `free_in_range`: the header where it stopped and the one
    /// visited before it.
    fn range_walk_exec(&self, ptr: usize) -> (r: (usize, usize))
        requires
            self.wf(),
        ensures
            (r.0 as int, r.1 as int) == range_walk(
                self.mem@,
                self.size as int,
                self.start as int,
                ptr as int,
                0,
                0,
            ),
            r.0 % 4 == 0,
            r.1 < self.size || r.1 == 0,
    {
        let len = self.size;
        let start = self.start;
        let ghost mem = self.mem@;
        let ghost result = range_walk(mem, len as int, start as int, ptr as int, 0, 0);
        proof {
            lemma_range_walk(mem, len as int, start as int, ptr as int, 0, 0);
        }
        let mut heap_head: usize = 0;
        let mut prec: usize = 0;
        loop
            invariant
                self.wf(),
                self.mem@ == mem,
                len == self.size,
                start == self.start,
                heap_head % 4 == 0,
                prec % 4 == 0,
                prec < len || prec == 0,
                heap_head < len + 65536 + 8,
                range_walk(mem, len as int, start as int, ptr as int, heap_head as int, prec as int)
                    == result,
            ensures
                (heap_head as int, prec as int) == result,
                heap_head % 4 == 0,
                prec < len || prec == 0,
            decreases len + 65536 + 8 - heap_head,
        {
            if heap_head >= len {
                break ;
            }
            let v = self.read16(heap_head);
            proof {
                lemma_flags(v);
                lemma_span_aligned(mem, heap_head as int);
                lemma_u16_nonneg(mem, heap_head as int);
            }
            if !(v & 1 == 1 && start + heap_head < ptr) {
                break ;
            }
            let next = heap_head + ((v & !1) as usize) + HEADER_SIZE;
            prec = heap_head;
            heap_head = next;
            if heap_head >= len {
                break ;
            }
        }
        (heap_head, prec)
    }

    /// Splits the block at `o` into an in-use block of `size` bytes and a
    /// free block holding the rest.
    fn pad_at(&mut self, o: usize, size: u16)
        requires
            old(self).wf(),
            o % 4 == 0,
            size % 4 == 0,
            pad_safe(old(self).mem@, old(self).size as int, o as int, size as int),
        ensures
            final(self).wf(),
            final(self).start == old(self).start,
            final(self).size == old(self).size,
            final(self).ready == old(self).ready,
            final(self).mem@ == pad(old(self).mem@, old(self).size as int, o as int, size as int),
    {
        let ghost mem = self.mem@;
        let v = self.read16(o);
        proof {
            lemma_cast16(v);
            lemma_cast16(size);
            lemma_span_aligned(mem, o as int);
        }
        let size_in_between: i16 = (v as i16) - 2 * (HEADER_SIZE as i16) - (size as i16);
        let mut remaining_size: u16 = v - size;
        if o + (v as usize) + HEADER_SIZE < self.size {
            proof {
                lemma_cast_back(size_in_between);
            }
            remaining_size = size_in_between as u16;
        }
        assert(remaining_size % 4 < 2);
        self.init_metadata(o, size, true);
        self.init_metadata(o + (size as usize) + HEADER_SIZE, remaining_size, false);
    }
}

proof fn lemma_range_walk(mem: Seq<u8>, len: int, start: int, ptr: int, o: int, prec: int)
    requires
        words_ok(mem),
        mem.len() == len,
        len % 4 == 0,
        0 <= o,
        o % 4 == 0,
        0 <= prec,
        prec % 4 == 0,
        o < len + 65536 + 8,
        prec < len || prec == 0,
    ensures
        ({
            let (h, p) = range_walk(mem, len, start, ptr, o, prec);
            &&& h % 4 == 0
            &&& p % 4 == 0
            &&& 0 <= h < len + 65536 + 8
            &&& 0 <= p
            &&& p < len || p == 0
        }),
    decreases len - o,
{
    if 0 <= o < len && is_used(u16_at(mem, o)) && start + o < ptr {
        lemma_span_aligned(mem, o);
        lemma_u16_nonneg(mem, o);
        if next_block(mem, o) < len {
            lemma_range_walk(mem, len, start, ptr, next_block(mem, o), o);
        }
    }
}

impl Heap {
    /// A copy of the heap.
    pub(crate) fn duplicate(&self) -> (h: Heap)
        requires
            self.wf(),
        ensures
            h.wf(),
            h.heap_start() == self.heap_start(),
            h.heap_size() == self.heap_size(),
            h.is_ready() == self.is_ready(),
            h.bytes() == self.bytes(),
    {
        let mem = self.mem.clone();
        proof {
            assert(mem@ =~= self.mem@);
        }
        Heap { start: self.start, size: self.size, mem, ready: self.ready }
    }

    /// Whether the block that first fit picks for `s` bytes can be handed
    /// out (see `block_fits`).
    fn fits(&self, s: u16) -> (r: bool)
        requires
            self.wf(),
        ensures
            r == block_fits(self.mem@, self.size as int, s as int),
    {
        let len = self.size;
        if !((s as usize) < len) {
            return false;
        }
        let o = self.first_fit_walk(s);
        proof {
            lemma_first_fit(self.mem@, len as int, 0, s as int);
        }
        if o >= len {
            return false;
        }
        let v = self.read16(o);
        let vi: i32 = if v < 32768 {
            v as i32
        } else {
            v as i32 - 65536
        };
        let si: i32 = if s < 32768 {
            s as i32
        } else {
            s as i32 - 65536
        };
        if vi - 16 < -32768 {
            return false;
        }
        let g = vi - 16 - si;
        if g < -32768 || g > 32767 {
            return false;
        }
        let splits = v != s && g >= 4 && v > s;
        if splits && !(o + (s as usize) + HEADER_SIZE < len) {
            return false;
        }
        o + HEADER_SIZE + (s as usize) <= len
    }

    /// Whether `zalloc_block(size)` may be called on this heap.
    pub fn can_zalloc(&self, size: u16) -> (r: bool)
        requires
            self.wf(),
        ensures
            r == (size <= 65532 && self.can_zalloc_block(size)),
    {
        if size > 65532 {
            return false;
        }
        if !self.ready {
            return true;
        }
        let rounded = size + 3;
        proof {
            lemma_mask(rounded);
        }
        self.fits(rounded & !3)
    }

    /// Whether `zalloc_stack(size)` may be called on this heap.
    pub fn can_zalloc_stack(&self, size: u16) -> (r: bool)
        requires
            self.wf(),
        ensures
            r == (size <= 65528 && (self.is_ready() ==> size <= 65512 && stack_fits(
                self.bytes(),
                self.heap_size(),
                self.heap_start(),
                align8(size as int),
            ))),
    {
        if size > 65528 {
            return false;
        }
        if !self.ready {
            return true;
        }
        if size > 65512 {
            return false;
        }
        let rounded = size + 7;
        proof {
            lemma_mask(rounded);
        }
        let s = rounded & !7;
        let len = self.size;
        let o = self.first_stackable_block(s);
        proof {
            lemma_first_stackable(self.mem@, len as int, 0, s as int);
        }
        if o < len && (self.start + o) % 8 == 4 {
            let v = self.read16(o);
            let vi: i32 = if v < 32768 {
                v as i32
            } else {
                v as i32 - 65536
            };
            if v < 4 || vi - 16 < -32768 || vi - 16 - 4 < -32768 || !(o + 4 + HEADER_SIZE < len) {
                return false;
            }
            let mut padded = self.duplicate();
            padded.pad_at(o, 4);
            if !padded.fits(s) {
                return false;
            }
            let f = padded.first_fit_walk(s);
            (self.start + f + HEADER_SIZE) % 8 == 0
        } else {
            if !self.fits(s) {
                return false;
            }
            let f = self.first_fit_walk(s);
            (self.start + f + HEADER_SIZE) % 8 == 0
        }
    }

    /// Whether `free(ptr)` may be called on this heap.
    pub fn can_free(&self, ptr: usize) -> (r: bool)
        requires
            self.wf(),
        ensures
            r == free_safe(self.bytes(), self.heap_size(), self.heap_start(), ptr as int),
    {
        if ptr % 4 != 0 || ptr < self.start || ptr - self.start < HEADER_SIZE {
            return false;
        }
        let o = ptr - self.start - HEADER_SIZE;
        if o + HEADER_SIZE > self.size {
            return false;
        }
        let m = self.read32(o + 4) as usize;
        let v = self.read16(o);
        proof {
            lemma_flags(v);
        }
        let n = (v & !1) as usize;
        m % 4 == 0 && (n == 0 || (self.start <= m && n <= self.size && m - self.start
            <= self.size - n))
    }

    /// Whether `free_in_range(ptr)` may be called on this heap.
    pub fn can_free_in_range(&self, ptr: usize) -> (r: bool)
        requires
            self.wf(),
        ensures
            r == (self.is_ready() && ptr % 4 == 0 && free_safe(
                self.bytes(),
                self.heap_size(),
                self.heap_start(),
                range_target(self.bytes(), self.heap_size(), self.heap_start(), ptr as int),
            )),
    {
        if !self.ready || ptr % 4 != 0 {
            return false;
        }
        let (head, prec) = self.range_walk_exec(ptr);
        if ptr >= self.start && ptr - self.start == head {
            self.can_free(ptr)
        } else {
            self.can_free(self.start + prec)
        }
    }
}

/// Panics unless `block` is 4-byte aligned; the proofs show it never does.
fn assert_4_alignment(block: usize)
    requires
        block % 4 == 0,
{
}

/// Panics unless `block` is 8-byte aligned; the proofs show it never does.
fn assert_8_alignment(block: usize)
    requires
        block % 8 == 0,
{
}

impl FreeList {
    /// Writes the first header of the heap: one free block spanning the
    /// whole region, with a null payload address.
    pub fn init(heap: &mut Heap)
        requires
            old(heap).wf(),
            !old(heap).is_ready(),
            old(heap).heap_size() >= HEADER_SIZE,
        ensures
            final(heap).wf(),
            final(heap).is_ready(),
            final(heap).heap_start() == old(heap).heap_start(),
            final(heap).heap_size() == old(heap).heap_size(),
            final(heap).bytes() == put32(
                put16(old(heap).bytes(), 0, old(heap).heap_size()),
                4,
                0,
            ),
    {
        let s = heap.size as u16;
        proof {
            lemma_put16(heap.mem@, 0, s as int);
            lemma_put32(put16(heap.mem@, 0, s as int), 4, 0);
        }
        heap.write16(0, s);
        heap.write32(4, 0);
        heap.ready = true;
    }
}

proof fn lemma_after_zalloc(mem: Seq<u8>, len: int, start: int, o: int, s: int)
    requires
        mem.len() == len,
        len % 4 == 0,
        o % 4 == 0,
        0 <= o,
        0 <= s,
        s % 4 == 0,
        o + HEADER_SIZE + s <= len,
        !is_used(u16_at(mem, o)),
        u16_at(mem, o) >= s,
        0 <= start + o + HEADER_SIZE < 0x1_0000_0000,
        splits(mem, o, s) ==> o + s + HEADER_SIZE < len,
    ensures
        ({
            let m = after_zalloc(mem, len, start, o, s);
            &&& m.len() == len
            &&& is_used(u16_at(m, o))
            &&& span(u16_at(m, o)) >= s
            &&& span(u16_at(m, o)) == (if splits(mem, o, s) {
                s
            } else {
                u16_at(mem, o)
            })
            &&& u32_at(m, o + 4) == start + o + HEADER_SIZE
            &&& forall|i: int| o + HEADER_SIZE <= i < o + HEADER_SIZE + s ==> #[trigger] m[i] == 0
        }),
{
    let v = u16_at(mem, o);
    lemma_u16_nonneg(mem, o);
    let m1 = carve(mem, len, o, s);
    if v == s {
        assert(u16_at(m1, o) == with_used(s));
    } else if gap(v, s) < 4 {
        assert(u16_at(m1, o) == with_used(v));
    } else {
        let m_a = put16(mem, o, with_used(s));
        assert(u16_at(m_a, o) == with_used(s));
        assert(m1[o] == m_a[o]);
        assert(m1[o + 1] == m_a[o + 1]);
        assert(u16_at(m1, o) == with_used(s));
    }
    let p = start + o + HEADER_SIZE;
    let m2 = put32(m1, o + 4, p);
    assert(m2[o] == m1[o]);
    assert(m2[o + 1] == m1[o + 1]);
    assert(u16_at(m2, o + 4) == p % 65536);
    assert(u16_at(m2, o + 6) == p / 65536);
    assert(u32_at(m2, o + 4) == p);
    let m3 = zeroed(m2, o + HEADER_SIZE, s);
    assert(m3[o] == m2[o]);
    assert(m3[o + 1] == m2[o + 1]);
    assert(m3[o + 4] == m2[o + 4]);
    assert(m3[o + 5] == m2[o + 5]);
    assert(m3[o + 6] == m2[o + 6]);
    assert(m3[o + 7] == m2[o + 7]);
}

/// Hands out a zeroed block of at least `size` bytes, rounded up to a
/// multiple of 4, and returns its payload address; 0 when the heap has not
/// been prepared.
#[verifier::spinoff_prover]
#[verifier::rlimit(40)]
pub fn zalloc_block(heap: &mut Heap, size: u16) -> (ptr: usize)
    requires
        old(heap).wf(),
        size <= 65532,
        old(heap).can_zalloc_block(size),
    ensures
        final(heap).wf(),
        final(heap).heap_start() == old(heap).heap_start(),
        final(heap).heap_size() == old(heap).heap_size(),
        final(heap).is_ready() == old(heap).is_ready(),
        ptr == old(heap).zalloc_block_addr(size),
        final(heap).bytes() == old(heap).zalloc_block_bytes(size),
        old(heap).is_ready() ==> {
            let s = align4(size as int);
            let o = ptr - old(heap).heap_start() - HEADER_SIZE;
            let m = final(heap).bytes();
            &&& ptr % 4 == 0
            &&& s >= size
            &&& 0 <= o
            &&& ptr - old(heap).heap_start() + s <= old(heap).heap_size()
            &&& is_used(u16_at(m, o))
            &&& span(u16_at(m, o)) >= s
            &&& u32_at(m, o + 4) == ptr
            &&& forall|i: int|
                ptr - old(heap).heap_start() <= i < ptr - old(heap).heap_start() + s ==> #[trigger] m[i]
                    == 0
        },
{
    let rounded = size + 3;
    proof {
        lemma_mask(rounded);
    }
    let size = rounded & !3;
    if !heap.ready {
        return 0;
    }
    let ghost m0 = heap.mem@;
    let o = match heap.alloc_first_fit(size) {
        Some(o) => o,
        None => {
            return 0;
        },
    };
    proof {
        lemma_first_fit(m0, heap.size as int, 0, size as int);
    }
    let memory = heap.start + o + HEADER_SIZE;
    proof {
        lemma_put32(heap.mem@, (o + 4) as int, memory as int);
    }
    proof {
        lemma_after_zalloc(m0, heap.size as int, heap.start as int, o as int, size as int);
    }
    heap.write32(o + 4, memory as u32);
    heap.zero_memory(memory, size);
    memory
}


/// Releases the block whose payload starts at `ptr`: the span recorded in
/// its header is zeroed from the payload address stored there, and the
/// header is marked free. Neighbouring free blocks are not merged.
#[verifier::spinoff_prover]
pub fn free(heap: &mut Heap, ptr: usize)
    requires
        old(heap).wf(),
        free_safe(old(heap).bytes(), old(heap).heap_size(), old(heap).heap_start(), ptr as int),
    ensures
        final(heap).wf(),
        final(heap).heap_start() == old(heap).heap_start(),
        final(heap).heap_size() == old(heap).heap_size(),
        final(heap).is_ready() == old(heap).is_ready(),
        final(heap).bytes() == after_free(old(heap).bytes(), old(heap).heap_start(), ptr as int),
{
    assert_4_alignment(ptr);
    let block = ptr - HEADER_SIZE;
    let o = block - heap.start;
    let ghost m0 = heap.mem@;
    let field = heap.read16(o);
    proof {
        lemma_flags(field);
    }
    let old_size: u16 = field & !1;
    let memory = heap.read32(o + 4) as usize;
    heap.zero_memory(memory, old_size);
    proof {
        lemma_span_aligned(m0, o as int);
        lemma_u16_nonneg(m0, o as int);
    }
    heap.init_metadata(block - heap.start, old_size, false);
}

/// Releases a block given any address inside the run of in-use blocks at
/// the front of the heap: walks the in-use headers below `ptr`; when the
/// walk stops exactly on `ptr`, that address goes to `free`, otherwise the
/// last in-use header before it does.
pub fn free_in_range(heap: &mut Heap, ptr: usize)
    requires
        old(heap).wf(),
        old(heap).is_ready(),
        ptr % 4 == 0,
        free_safe(
            old(heap).bytes(),
            old(heap).heap_size(),
            old(heap).heap_start(),
            range_target(
                old(heap).bytes(),
                old(heap).heap_size(),
                old(heap).heap_start(),
                ptr as int,
            ),
        ),
    ensures
        final(heap).wf(),
        final(heap).heap_start() == old(heap).heap_start(),
        final(heap).heap_size() == old(heap).heap_size(),
        final(heap).is_ready() == old(heap).is_ready(),
        final(heap).bytes() == after_free(
            old(heap).bytes(),
            old(heap).heap_start(),
            range_target(
                old(heap).bytes(),
                old(heap).heap_size(),
                old(heap).heap_start(),
                ptr as int,
            ),
        ),
{
    assert_4_alignment(ptr);
    let start = heap.start;
    let (heap_head, prec) = heap.range_walk_exec(ptr);
    if ptr >= start && ptr - start == heap_head {
        free(heap, ptr);
    } else {
        free(heap, start + prec);
    }
}

/// Hands out a zeroed stack of at least `size` bytes, rounded up to a
/// multiple of 8, whose payload address is 8-byte aligned; 0 when the heap
/// has not been prepared. When the block that `first_stackable_block`
/// picks starts 4 bytes past an 8-byte boundary, a 4-byte block is first
/// carved in front of it; the stack itself then comes from `zalloc_block`.
#[verifier::spinoff_prover]
#[verifier::rlimit(40)]
pub fn zalloc_stack(heap: &mut Heap, size: u16) -> (ptr: usize)
    requires
        old(heap).wf(),
        size <= 65528,
        old(heap).is_ready() ==> size <= 65512 && stack_fits(
            old(heap).bytes(),
            old(heap).heap_size(),
            old(heap).heap_start(),
            align8(size as int),
        ),
    ensures
        final(heap).wf(),
        final(heap).heap_start() == old(heap).heap_start(),
        final(heap).heap_size() == old(heap).heap_size(),
        final(heap).is_ready() == old(heap).is_ready(),
        !old(heap).is_ready() ==> ptr == 0 && final(heap).bytes() == old(heap).bytes(),
        old(heap).is_ready() ==> {
            let s = align8(size as int);
            let padded = stack_padded(
                old(heap).bytes(),
                old(heap).heap_size(),
                old(heap).heap_start(),
                s,
            );
            let o = first_fit(padded, old(heap).heap_size(), 0, s);
            &&& ptr == old(heap).heap_start() + o + HEADER_SIZE
            &&& ptr % 8 == 0
            &&& final(heap).bytes() == after_zalloc(
                padded,
                old(heap).heap_size(),
                old(heap).heap_start(),
                o,
                s,
            )
        },
{
    let rounded = size + 7;
    proof {
        lemma_mask(rounded);
    }
    let size = rounded & !7;
    if !heap.ready {
        return 0;
    }
    let last_block = heap.first_stackable_block(size);
    proof {
        lemma_first_stackable(heap.mem@, heap.size as int, 0, size as int);
    }
    if last_block < heap.size && (heap.start + last_block) % 8 == 4 {
        heap.pad_at(last_block, 4);
    }
    let ret_stack = zalloc_block(heap, size);
    assert_8_alignment(ret_stack);
    ret_stack
}

/// Freeing a block as `zalloc_block` leaves it (header in use, payload
/// address stored in the header, payload inside the heap) is safe, marks
/// the header free again with the same span, and leaves the payload zeroed.
pub proof fn free_releases_handed_out_block(mem: Seq<u8>, len: int, start: int, ptr: int)
    requires
        mem.len() == len,
        0 <= start,
        ptr % 4 == 0,
        start + HEADER_SIZE <= ptr,
        ptr - start <= len,
        is_used(u16_at(mem, ptr - start - HEADER_SIZE)),
        u32_at(mem, ptr - start - 4) == ptr,
        ptr - start + span(u16_at(mem, ptr - start - HEADER_SIZE)) <= len,
    ensures
        free_safe(mem, len, start, ptr),
        ({
            let o = ptr - start - HEADER_SIZE;
            let n = span(u16_at(mem, o));
            let m = after_free(mem, start, ptr);
            &&& m.len() == len
            &&& !is_used(u16_at(m, o))
            &&& span(u16_at(m, o)) == n
            &&& u32_at(m, o + 4) == ptr
            &&& forall|i: int| ptr - start <= i < ptr - start + n ==> #[trigger] m[i] == 0
        }),
{
    let o = ptr - start - HEADER_SIZE;
    lemma_u16_nonneg(mem, o);
    let n = span(u16_at(mem, o));
    let z = zeroed(mem, ptr - start, n);
    let m = after_free(mem, start, ptr);
    assert(m == put16(z, o, n));
    assert(m[o + 4] == mem[o + 4]);
    assert(m[o + 5] == mem[o + 5]);
    assert(m[o + 6] == mem[o + 6]);
    assert(m[o + 7] == mem[o + 7]);
    assert(u16_at(m, o) == n);
}

/// The first-fit walk only reads the headers it passes: on bytes that agree
/// below the block `o` it finds, and with a free header of at least `s`
/// bytes at `o`, it stops at `o` again.
proof fn lemma_first_fit_same_prefix(m: Seq<u8>, m2: Seq<u8>, len: int, q: int, s: int, o: int)
    requires
        words_ok(m),
        m.len() == len,
        m2.len() == len,
        len % 4 == 0,
        0 <= q <= o,
        q % 4 == 0,
        o % 4 == 0,
        o < len,
        first_fit(m, len, q, s) == o,
        forall|i: int| 0 <= i < o ==> #[trigger] m2[i] == m[i],
        !is_used(u16_at(m2, o)),
        u16_at(m2, o) >= s,
    ensures
        first_fit(m2, len, q, s) == o,
    decreases o - q,
{
    if q < o {
        assert(m2[q] == m[q]);
        assert(m2[q + 1] == m[q + 1]);
        assert(u16_at(m2, q) == u16_at(m, q));
        lemma_span_aligned(m, q);
        lemma_u16_nonneg(m, q);
        let n = next_block(m, q);
        assert(next_block(m2, q) == n);
        if n < len {
            lemma_first_fit(m, len, n, s);
            lemma_first_fit_same_prefix(m, m2, len, n, s, o);
        }
    }
}

/// `zalloc_block` only writes the block it hands out and what follows it.
proof fn lemma_after_zalloc_keeps_prefix(mem: Seq<u8>, len: int, start: int, o: int, s: int)
    requires
        mem.len() == len,
        0 <= o,
        o + HEADER_SIZE + s <= len,
        0 <= s,
        len % 4 == 0,
        o % 4 == 0,
        s % 4 == 0,
        splits(mem, o, s) ==> o + s + HEADER_SIZE < len,
    ensures
        forall|i: int| 0 <= i < o ==> #[trigger] after_zalloc(mem, len, start, o, s)[i] == mem[i],
{
    let c = carve(mem, len, o, s);
    let m1b = put32(c, o + 4, start + o + HEADER_SIZE);
    let m1 = after_zalloc(mem, len, start, o, s);
    assert forall|i: int| 0 <= i < o implies #[trigger] m1[i] == mem[i] by {
        assert(c[i] == mem[i]);
        assert(m1b[i] == c[i]);
    }
}

/// `free` on a block whose header stores its own payload address only
/// writes from the header on, and leaves a free header with the same span.
proof fn lemma_after_free_at(m: Seq<u8>, start: int, p: int)
    requires
        u32_at(m, p - start - 4) == p,
        0 <= p - start - HEADER_SIZE,
        p - start <= m.len(),
    ensures
        ({
            let o = p - start - HEADER_SIZE;
            let m2 = after_free(m, start, p);
            &&& forall|i: int| 0 <= i < o ==> #[trigger] m2[i] == m[i]
            &&& u16_at(m2, o) == span(u16_at(m, o))
            &&& !is_used(u16_at(m2, o))
        }),
{
    let o = p - start - HEADER_SIZE;
    lemma_u16_nonneg(m, o);
    let n = span(u16_at(m, o));
    let z = zeroed(m, p - start, n);
    let m2 = after_free(m, start, p);
    assert(m2 == put16(z, o, n));
    assert forall|i: int| 0 <= i < o implies #[trigger] m2[i] == m[i] by {
        assert(z[i] == m[i]);
    }
    assert(u16_at(m2, o) == n);
    assert(n % 2 == 0);
}

/// Freeing a block that `zalloc_block` just handed out, and asking again
/// for the same size, gives back the same block, its payload zeroed again:
/// first fit finds it before any other, since only that block and what
/// follows it changed; and the second request may be made wherever the
/// first could, except for requests that round to 32768 to 32780 bytes,
/// where the `i16` size arithmetic on a block split by the first request
/// can overflow. Stated for the calls
/// that stay inside the heap.
#[verifier::spinoff_prover]
pub proof fn free_then_zalloc_gives_same_block(mem: Seq<u8>, len: int, start: int, size: u16)
    requires
        words_ok(mem),
        mem.len() == len,
        len % 4 == 0,
        len < 65536,
        start % 4 == 0,
        0 <= start,
        start + len < 0x1_0000_0000,
        size <= 65532,
        block_fits(mem, len, align4(size as int)),
        free_safe(
            ready_zalloc_bytes(mem, len, start, size),
            len,
            start,
            ready_zalloc_addr(mem, len, start, size),
        ),
    ensures
        ({
            let p = ready_zalloc_addr(mem, len, start, size);
            let freed = after_free(ready_zalloc_bytes(mem, len, start, size), start, p);
            let again = ready_zalloc_bytes(freed, len, start, size);
            &&& ready_zalloc_addr(freed, len, start, size) == p
            &&& forall|i: int|
                p - start <= i < p - start + align4(size as int) ==> #[trigger] again[i] == 0
            &&& (align4(size as int) < 32768 || align4(size as int) >= 32784) ==> block_fits(
                freed,
                len,
                align4(size as int),
            )
        }),
{
    let s = align4(size as int);
    let o = first_fit(mem, len, 0, s);
    lemma_first_fit(mem, len, 0, s);
    let p = start + o + HEADER_SIZE;
    lemma_after_zalloc(mem, len, start, o, s);
    let m1 = after_zalloc(mem, len, start, o, s);
    lemma_after_zalloc_keeps_prefix(mem, len, start, o, s);
    lemma_after_free_at(m1, start, p);
    let m2 = after_free(m1, start, p);
    assert forall|i: int| 0 <= i < o implies #[trigger] m2[i] == mem[i] by {
        assert(m2[i] == m1[i]);
    }
    lemma_first_fit_same_prefix(mem, m2, len, 0, s, o);
    assert(u16_at(m2, o) == (if splits(mem, o, s) {
        s
    } else {
        u16_at(mem, o)
    }));
    assert(!splits(m2, o, s));
}

// ---------------------------------------------------------------------------
// The header walk
// ---------------------------------------------------------------------------

/// Whether `offs` lists, from offset 0, consecutive headers of the heap:
/// each lies inside the heap and each after the first is where the span
/// of the one before it ends.
pub open spec fn is_walk(mem: Seq<u8>, len: int, offs: Seq<int>) -> bool {
    &&& offs.len() > 0
    &&& offs[0] == 0
    &&& forall|k: int| 0 <= k < offs.len() ==> 0 <= #[trigger] offs[k] < len
    &&& forall|k: int|
        0 <= k < offs.len() - 1 ==> #[trigger] offs[k + 1] == next_block(mem, offs[k])
}

/// Whether the header at `o` is free with a size field of at least `s`.
pub open spec fn has_room(mem: Seq<u8>, o: int, s: int) -> bool {
    !is_used(u16_at(mem, o)) && u16_at(mem, o) >= s
}

proof fn lemma_first_fit_on_walk(mem: Seq<u8>, len: int, offs: Seq<int>, s: int, k: int, j: int)
    requires
        is_walk(mem, len, offs),
        0 <= j <= k < offs.len(),
        has_room(mem, offs[k], s),
        forall|i: int| 0 <= i < k ==> !has_room(mem, #[trigger] offs[i], s),
    ensures
        first_fit(mem, len, offs[j], s) == offs[k],
    decreases k - j,
{
    assert(0 <= offs[j] < len);
    if j < k {
        assert(!has_room(mem, offs[j], s));
        assert(offs[j + 1] == next_block(mem, offs[j]));
        assert(0 <= offs[j + 1] < len);
        lemma_first_fit_on_walk(mem, len, offs, s, k, j + 1);
    }
}

/// First fit: along the headers of the heap, the block that
/// `zalloc_block(size)` hands out is the first free one whose size field
/// is at least the request rounded up to a multiple of 4; free blocks that
/// are too small and blocks in use are passed over. The request may be
/// made (`can_zalloc`) exactly when that block leaves room for the request
/// inside the heap and carving it stays in range.
pub proof fn zalloc_takes_first_free_block_with_room(
    mem: Seq<u8>,
    len: int,
    start: int,
    size: u16,
    offs: Seq<int>,
    k: int,
)
    requires
        mem.len() == len,
        is_walk(mem, len, offs),
        0 <= k < offs.len(),
        has_room(mem, offs[k], align4(size as int)),
        forall|i: int| 0 <= i < k ==> !has_room(mem, #[trigger] offs[i], align4(size as int)),
    ensures
        ready_zalloc_addr(mem, len, start, size) == start + offs[k] + HEADER_SIZE,
        block_fits(mem, len, align4(size as int)) == (align4(size as int) < len && offs[k]
            + HEADER_SIZE + align4(size as int) <= len && carve_safe(
            mem,
            len,
            offs[k],
            align4(size as int),
        )),
{
    lemma_first_fit_on_walk(mem, len, offs, align4(size as int), k, 0);
}

proof fn lemma_first_fit_past_walk(mem: Seq<u8>, len: int, offs: Seq<int>, s: int, j: int)
    requires
        is_walk(mem, len, offs),
        0 <= j < offs.len(),
        next_block(mem, offs.last()) >= len,
        forall|i: int| 0 <= i < offs.len() ==> !has_room(mem, #[trigger] offs[i], s),
    ensures
        first_fit(mem, len, offs[j], s) >= len,
    decreases offs.len() - j,
{
    assert(0 <= offs[j] < len);
    assert(!has_room(mem, offs[j], s));
    if j < offs.len() - 1 {
        assert(offs[j + 1] == next_block(mem, offs[j]));
        lemma_first_fit_past_walk(mem, len, offs, s, j + 1);
    }
}

/// Out of memory: when the walk over every header of the heap finds no
/// free block with room for the rounded request, `zalloc_block(size)` may
/// not be called (`can_zalloc` is false).
pub proof fn zalloc_refused_without_free_block_with_room(
    mem: Seq<u8>,
    len: int,
    size: u16,
    offs: Seq<int>,
)
    requires
        mem.len() == len,
        is_walk(mem, len, offs),
        next_block(mem, offs.last()) >= len,
        forall|i: int| 0 <= i < offs.len() ==> !has_room(mem, #[trigger] offs[i], align4(size as int)),
    ensures
        !block_fits(mem, len, align4(size as int)),
{
    lemma_first_fit_past_walk(mem, len, offs, align4(size as int), 0);
}

/// Whether the walk of `free_in_range(ptr)` goes on past the header at
/// `o`: it is in use and lies below `ptr`.
pub open spec fn walks_past(mem: Seq<u8>, start: int, ptr: int, o: int) -> bool {
    is_used(u16_at(mem, o)) && start + o < ptr
}

proof fn lemma_range_walk_on_walk(
    mem: Seq<u8>,
    len: int,
    start: int,
    ptr: int,
    offs: Seq<int>,
    k: int,
    j: int,
)
    requires
        is_walk(mem, len, offs),
        0 <= j <= k < offs.len(),
        !walks_past(mem, start, ptr, offs[k]),
        forall|i: int| 0 <= i < k ==> walks_past(mem, start, ptr, #[trigger] offs[i]),
    ensures
        range_walk(mem, len, start, ptr, offs[j], if j > 0 { offs[j - 1] } else { 0 }) == (
        offs[k],
        if k > 0 {
            offs[k - 1]
        } else {
            0
        },
        ),
    decreases k - j,
{
    assert(0 <= offs[j] < len);
    if j < k {
        assert(walks_past(mem, start, ptr, offs[j]));
        assert(offs[j + 1] == next_block(mem, offs[j]));
        assert(0 <= offs[j + 1] < len);
        lemma_range_walk_on_walk(mem, len, start, ptr, offs, k, j + 1);
    }
}

/// `free_in_range(ptr)` walks the headers from the first one while they
/// are in use and below `ptr`. When the walk stops on a header inside the
/// heap, the address freed is `ptr` if that header is `ptr` itself, and
/// otherwise the header visited last (the first header when the walk
/// stopped at once).
pub proof fn free_in_range_frees_where_walk_stops(
    mem: Seq<u8>,
    len: int,
    start: int,
    ptr: int,
    offs: Seq<int>,
    k: int,
)
    requires
        mem.len() == len,
        is_walk(mem, len, offs),
        0 <= k < offs.len(),
        !walks_past(mem, start, ptr, offs[k]),
        forall|i: int| 0 <= i < k ==> walks_past(mem, start, ptr, #[trigger] offs[i]),
    ensures
        range_target(mem, len, start, ptr) == (if start + offs[k] == ptr {
            ptr
        } else if k > 0 {
            start + offs[k - 1]
        } else {
            start
        }),
{
    lemma_range_walk_on_walk(mem, len, start, ptr, offs, k, 0);
}

proof fn lemma_range_walk_past_walk(
    mem: Seq<u8>,
    len: int,
    start: int,
    ptr: int,
    offs: Seq<int>,
    j: int,
)
    requires
        is_walk(mem, len, offs),
        0 <= j < offs.len(),
        next_block(mem, offs.last()) >= len,
        forall|i: int| 0 <= i < offs.len() ==> walks_past(mem, start, ptr, #[trigger] offs[i]),
    ensures
        range_walk(mem, len, start, ptr, offs[j], if j > 0 { offs[j - 1] } else { 0 }) == (
        next_block(mem, offs.last()),
        offs.last(),
        ),
    decreases offs.len() - j,
{
    assert(0 <= offs[j] < len);
    assert(walks_past(mem, start, ptr, offs[j]));
    if j < offs.len() - 1 {
        assert(offs[j + 1] == next_block(mem, offs[j]));
        assert(0 <= offs[j + 1] < len);
        lemma_range_walk_past_walk(mem, len, start, ptr, offs, j + 1);
    }
}

/// When every header of the heap is in use and below `ptr`, the walk of
/// `free_in_range(ptr)` runs off the end of the heap, and the address
/// freed is the last header, unless the address where the last block ends
/// is `ptr` itself.
pub proof fn free_in_range_past_the_last_header(
    mem: Seq<u8>,
    len: int,
    start: int,
    ptr: int,
    offs: Seq<int>,
)
    requires
        mem.len() == len,
        is_walk(mem, len, offs),
        next_block(mem, offs.last()) >= len,
        forall|i: int| 0 <= i < offs.len() ==> walks_past(mem, start, ptr, #[trigger] offs[i]),
    ensures
        range_target(mem, len, start, ptr) == (if start + next_block(mem, offs.last()) == ptr {
            ptr
        } else {
            start + offs.last()
        }),
{
    lemma_range_walk_past_walk(mem, len, start, ptr, offs, 0);
}

} // verus!
