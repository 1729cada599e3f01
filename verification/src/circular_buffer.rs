//! Circular buffer for byte streams.
//!
//! The buffer is a fixed block of `length` bytes (a power of two, at least one
//! page) holding a queue of committed bytes. The *data* half is the committed
//! region, starting at `head` and wrapping around the end of the block; the
//! *uninit* half is the complement. A producer writes into the uninit region
//! and then `commit`s a prefix of it; a consumer reads the data region and
//! then `consume`s a prefix of it. The two region lengths always add up to
//! `length`, and bytes written before a commit are read back, in order, after
//! it.
//!
//! The runtime presents the wrapping regions as contiguous slices by mapping
//! the same physical pages twice into consecutive virtual ranges; that
//! virtual-memory aliasing is untouched here. This module is the arithmetic
//! of the ring itself: every index below is reduced modulo `length`, so the
//! contents never depend on how the block is presented.

use vstd::prelude::*;
use vstd::arithmetic::power2::is_pow2;
use vstd::arithmetic::div_mod::lemma_add_mod_noop_right;
use vstd::arithmetic::div_mod::lemma_mod_self_0;
use vstd::arithmetic::div_mod::lemma_small_mod;

verus! {

/// The page size the buffer length is rounded up to.
pub const PAGE_SIZE: usize = 4096;

/// Construct a circular buffer of at least `length` bytes: the actual length
/// is `length` rounded up to the nearest multiple of the page size and then
/// up to the nearest power of two. Returns `None` when no such length fits in
/// `usize`.
pub fn circular_buffer(length: usize) -> (r: Option<CircularBuffer>)
    ensures
        match r {
            Some(cb) => cb.wf() && cb.data() == Seq::<u8>::empty() && is_pow2(
                cb.length() as int,
            ) && cb.length() >= length && cb.length() >= PAGE_SIZE && (forall|q: int|
                is_pow2(q) && q >= length && q >= PAGE_SIZE ==> q >= cb.length()),
            None => length > usize::MAX / 8,
        },
{
    let rounded = calculate_length(length)?;
    if rounded > usize::MAX / 4 {
        // A length this large could not be mapped twice anyway.
        proof {
            assert(rounded != PAGE_SIZE);
            assert(length > rounded / 2);
        }
        return None;
    }
    let mut buf: Vec<u8> = Vec::new();
    let mut i: usize = 0;
    while i < rounded
        invariant
            i <= rounded,
            buf@.len() == i,
        decreases rounded - i,
    {
        buf.push(0);
        i = i + 1;
    }
    let cb = CircularBuffer { buf, head: 0, len: 0 };
    proof {
        assert(cb.data() =~= Seq::<u8>::empty());
        lemma_pow2_le_quarter(rounded as int);
    }
    Some(cb)
}

/// The least power of two that is both at least `length` and at least one
/// page, or `None` when it does not fit in `usize`.
pub fn calculate_length(length: usize) -> (r: Option<usize>)
    ensures
        match r {
            Some(v) => is_pow2(v as int) && v >= length && v >= PAGE_SIZE && (v == PAGE_SIZE
                || v / 2 < length) && (forall|q: int|
                is_pow2(q) && q >= length && q >= PAGE_SIZE ==> q >= v),
            None => length > usize::MAX / 2,
        },
        length <= usize::MAX / 2 ==> r matches Some(_),
{
    let mut v: usize = PAGE_SIZE;
    proof {
        lemma_page_size_pow2();
    }
    while v < length
        invariant
            is_pow2(v as int),
            v >= PAGE_SIZE,
            v == PAGE_SIZE || v / 2 < length,
        decreases 2 * length - v,
    {
        if v > usize::MAX / 2 {
            return None;
        }
        proof {
            lemma_pow2_double(v as int);
        }
        v = v * 2;
    }
    proof {
        assert forall|q: int| is_pow2(q) && q >= length && q >= PAGE_SIZE implies q >= v by {
            if q < v {
                lemma_pow2_gap(q, v as int);
            }
        }
    }
    Some(v)
}

/// Doubling a power of two gives the next power of two.
proof fn lemma_pow2_double(v: int)
    requires
        is_pow2(v),
    ensures
        is_pow2(2 * v),
{
    broadcast use vstd::arithmetic::power2::is_pow2_equiv;

    let i = choose|i: nat| vstd::arithmetic::power::pow(2, i) == v;
    vstd::arithmetic::power2::lemma2_to64();
    vstd::arithmetic::power2::lemma_pow2_adds(i, 1);
    vstd::arithmetic::power2::lemma_pow2(i);
    vstd::arithmetic::power2::lemma_pow2(1);
    vstd::arithmetic::power2::lemma_pow2((i + 1) as nat);
    vstd::arithmetic::power2::lemma_pow2_unfold(1);
    assert(vstd::arithmetic::power::pow(2, (i + 1) as nat) == 2 * v);
}

/// Powers of two come in doubling steps: a power of two strictly above `p`
/// is at least `2 * p`.
proof fn lemma_pow2_gap(p: int, q: int)
    requires
        is_pow2(p),
        is_pow2(q),
        q > p,
    ensures
        q >= 2 * p,
{
    broadcast use vstd::arithmetic::power2::is_pow2_equiv;

    let a = choose|a: nat| vstd::arithmetic::power::pow(2, a) == p;
    let b = choose|b: nat| vstd::arithmetic::power::pow(2, b) == q;
    vstd::arithmetic::power2::lemma_pow2(a);
    vstd::arithmetic::power2::lemma_pow2(b);
    if b <= a {
        if b < a {
            vstd::arithmetic::power2::lemma_pow2_strictly_increases(b, a);
        }
        assert(q <= p);
    }
    vstd::arithmetic::power2::lemma2_to64();
    vstd::arithmetic::power2::lemma_pow2_adds(a, 1);
    vstd::arithmetic::power2::lemma_pow2(1);
    if a + 1 < b {
        vstd::arithmetic::power2::lemma_pow2_strictly_increases((a + 1) as nat, b);
    }
    vstd::arithmetic::power2::lemma_pow2((a + 1) as nat);
}

/// The page size is a power of two.
proof fn lemma_page_size_pow2()
    ensures
        is_pow2(PAGE_SIZE as int),
{
    broadcast use vstd::arithmetic::power2::is_pow2_equiv;

    vstd::arithmetic::power2::lemma2_to64();
    vstd::arithmetic::power2::lemma_pow2(12);
    assert(vstd::arithmetic::power::pow(2, 12) == PAGE_SIZE as int);
}

/// A power of two at most `usize::MAX / 4` stays a quarter of the address
/// space, so index arithmetic below never overflows.
proof fn lemma_pow2_le_quarter(v: int)
    requires
        v <= usize::MAX / 4,
    ensures
        4 * v <= usize::MAX,
{
}

/// A fixed-length ring of bytes: a committed *data* region (starting at
/// `head`, `len` bytes, wrapping) and the complementary *uninit* region.
pub struct CircularBuffer {
    buf: Vec<u8>,
    head: usize,
    len: usize,
}

impl CircularBuffer {
    /// The fixed total length of the ring.
    pub closed spec fn length(&self) -> int {
        self.buf@.len() as int
    }

    /// The committed bytes, oldest first.
    pub closed spec fn data(&self) -> Seq<u8> {
        Seq::new(self.len as nat, |i: int| self.buf@[(self.head + i) % self.length()])
    }

    /// The bytes of the writable region, in the order a producer fills them.
    pub closed spec fn uninit(&self) -> Seq<u8> {
        Seq::new(
            (self.length() - self.len) as nat,
            |i: int| self.buf@[(self.head + self.len + i) % self.length()],
        )
    }

    /// Structural invariant: a non-empty power-of-two block, the start offset
    /// inside it, and no more committed than the block holds. The length is
    /// capped at a quarter of the address space so that index sums stay
    /// representable.
    pub closed spec fn wf(&self) -> bool {
        &&& self.buf@.len() > 0
        &&& self.buf@.len() <= usize::MAX / 4
        &&& (self.head as int) < self.length()
        &&& self.len as int <= self.length()
    }

    /// The data and uninit regions always partition the ring.
    pub proof fn lemma_partition(&self)
        requires
            self.wf(),
        ensures
            self.data().len() + self.uninit().len() == self.length(),
    {
    }

    /// Offset of the committed region's first byte inside the block.
    pub closed spec fn start_offset(&self) -> int {
        self.head as int
    }

    /// Offset of the committed region's first byte inside the block; with
    /// the dual virtual mapping, the whole region is contiguous from here.
    pub fn data_start(&self) -> (o: usize)
        requires
            self.wf(),
        ensures
            o as int == self.start_offset(),
            o < self.length(),
    {
        self.head
    }

    /// Offset of the writable region's first byte inside the block.
    pub fn uninit_start(&self) -> (o: usize)
        requires
            self.wf(),
        ensures
            o as int == (self.start_offset() + self.data().len()) % self.length(),
            o < self.length(),
    {
        let l = self.buf.len();
        (self.head + self.len) % l
    }

    /// The fixed total length of the ring.
    pub fn capacity(&self) -> (n: usize)
        requires
            self.wf(),
        ensures
            n == self.length(),
    {
        self.buf.len()
    }

    /// Length of the committed region.
    pub fn data_len(&self) -> (n: usize)
        requires
            self.wf(),
        ensures
            n == self.data().len(),
    {
        self.len
    }

    /// Whether nothing is committed.
    pub fn data_is_empty(&self) -> (b: bool)
        requires
            self.wf(),
        ensures
            b == (self.data().len() == 0),
    {
        self.len == 0
    }

    /// Length of the writable region.
    pub fn uninit_len(&self) -> (n: usize)
        requires
            self.wf(),
        ensures
            n == self.uninit().len(),
    {
        self.buf.len() - self.len
    }

    /// Whether the ring is full.
    pub fn uninit_is_empty(&self) -> (b: bool)
        requires
            self.wf(),
        ensures
            b == (self.uninit().len() == 0),
    {
        self.buf.len() == self.len
    }

    /// Read the committed byte at offset `i`.
    pub fn read_data(&self, i: usize) -> (b: u8)
        requires
            self.wf(),
            i < self.data().len(),
        ensures
            b == self.data()[i as int],
    {
        let l = self.buf.len();
        let at = (self.head + i) % l;
        self.buf[at]
    }

    /// Copy the committed bytes out, oldest first. The dual virtual mapping
    /// of the runtime serves the same bytes without the copy.
    pub fn data_to_vec(&self) -> (v: Vec<u8>)
        requires
            self.wf(),
        ensures
            v@ == self.data(),
    {
        let mut v: Vec<u8> = Vec::new();
        let mut i: usize = 0;
        while i < self.len
            invariant
                self.wf(),
                i <= self.len,
                v@.len() == i,
                forall|k: int| 0 <= k < i ==> v@[k] == self.data()[k],
            decreases self.len - i,
        {
            let l = self.buf.len();
            let at = (self.head + i) % l;
            v.push(self.buf[at]);
            i = i + 1;
        }
        proof {
            assert(v@ =~= self.data());
        }
        v
    }

    /// Write a byte at offset `i` of the writable region.
    pub fn write_uninit(&mut self, i: usize, b: u8)
        requires
            old(self).wf(),
            i < old(self).uninit().len(),
        ensures
            final(self).wf(),
            final(self).length() == old(self).length(),
            final(self).data() == old(self).data(),
            final(self).uninit() == old(self).uninit().update(i as int, b),
    {
        let l = self.buf.len();
        let at = (self.head + self.len + i) % l;
        self.buf.set(at, b);
        proof {
            let h = old(self).head as int;
            let n = old(self).len as int;
            let ll = old(self).length();
            assert forall|k: int| 0 <= k < n implies #[trigger] self.data()[k] == old(self).data()[k] by {
                lemma_ring_offsets_distinct(h, ll, k, n + i);
            }
            assert(self.data() =~= old(self).data());
            assert forall|k: int| 0 <= k < ll - n && k != i implies #[trigger] self.uninit()[k]
                == old(self).uninit()[k] by {
                lemma_ring_offsets_distinct(h, ll, n + k, n + i);
            }
            assert(self.uninit() =~= old(self).uninit().update(i as int, b));
        }
    }

    /// Copy `bytes` into the front of the writable region.
    pub fn copy_into_uninit(&mut self, bytes: &[u8])
        requires
            old(self).wf(),
            bytes@.len() <= old(self).uninit().len(),
        ensures
            final(self).wf(),
            final(self).length() == old(self).length(),
            final(self).data() == old(self).data(),
            final(self).uninit().len() == old(self).uninit().len(),
            final(self).uninit().subrange(0, bytes@.len() as int) == bytes@,
            final(self).uninit().skip(bytes@.len() as int) == old(self).uninit().skip(
                bytes@.len() as int,
            ),
    {
        let mut i: usize = 0;
        while i < bytes.len()
            invariant
                self.wf(),
                i <= bytes@.len(),
                bytes@.len() <= self.uninit().len(),
                self.length() == old(self).length(),
                self.data() == old(self).data(),
                self.uninit().len() == old(self).uninit().len(),
                forall|k: int| 0 <= k < i ==> self.uninit()[k] == bytes@[k],
                forall|k: int|
                    i <= k < self.uninit().len() ==> self.uninit()[k] == old(self).uninit()[k],
            decreases bytes@.len() - i,
        {
            let b = bytes[i];
            self.write_uninit(i, b);
            i = i + 1;
        }
        proof {
            assert(self.uninit().subrange(0, bytes@.len() as int) =~= bytes@);
            assert(self.uninit().skip(bytes@.len() as int) =~= old(self).uninit().skip(
                bytes@.len() as int,
            ));
        }
    }

    /// Move `n` bytes from the writable region into the committed one: the
    /// bytes written at offsets `0 .. n` of uninit become the newest committed
    /// bytes, in the same order.
    pub fn commit(&mut self, n: usize)
        requires
            old(self).wf(),
            n <= old(self).uninit().len(),
        ensures
            final(self).wf(),
            final(self).length() == old(self).length(),
            final(self).data() == old(self).data().add(
                old(self).uninit().subrange(0, n as int),
            ),
            final(self).uninit() == old(self).uninit().skip(n as int),
    {
        self.len = self.len + n;
        proof {
            let h = old(self).head as int;
            let m = old(self).len as int;
            let ll = old(self).length();
            assert(self.data() =~= old(self).data().add(
                old(self).uninit().subrange(0, n as int),
            ));
            assert(self.uninit() =~= old(self).uninit().skip(n as int));
        }
    }

    /// Drop the `n` oldest committed bytes, returning their space to the
    /// writable region (where a producer may later overwrite them).
    pub fn consume(&mut self, n: usize)
        requires
            old(self).wf(),
            n <= old(self).data().len(),
        ensures
            final(self).wf(),
            final(self).length() == old(self).length(),
            final(self).data() == old(self).data().skip(n as int),
            final(self).uninit() == old(self).uninit().add(
                old(self).data().subrange(0, n as int),
            ),
    {
        let l = self.buf.len();
        self.head = (self.head + n) % l;
        self.len = self.len - n;
        proof {
            let h = old(self).head as int;
            let m = old(self).len as int;
            let ll = old(self).length();
            let l0 = old(self).uninit().len() as int;
            assert forall|k: int| 0 <= k < self.len as int implies #[trigger] self.data()[k]
                == old(self).data()[n + k] by {
                lemma_mod_shift(h + n, k, ll);
            }
            assert(self.data() =~= old(self).data().skip(n as int));
            assert forall|k: int| 0 <= k < self.uninit().len() implies #[trigger] self.uninit()[k]
                == old(self).uninit().add(old(self).data().subrange(0, n as int))[k] by {
                lemma_mod_shift(h + n, m - n + k, ll);
                if k >= l0 {
                    lemma_mod_cycle(h + m + k - ll, ll);
                }
            }
            assert(self.uninit() =~= old(self).uninit().add(
                old(self).data().subrange(0, n as int),
            ));
        }
    }
}

/// Reducing the base of a ring offset modulo the length first does not change
/// the final offset: `((a % l) + k) % l == (a + k) % l`.
proof fn lemma_mod_shift(a: int, k: int, l: int)
    requires
        l > 0,
        0 <= a,
        0 <= k,
    ensures
        ((a % l) + k) % l == (a + k) % l,
{
    lemma_add_mod_noop_right(k, a, l);
}

/// Going one full ring around lands on the same offset.
proof fn lemma_mod_cycle(a: int, l: int)
    requires
        l > 0,
        0 <= a,
    ensures
        (a + l) % l == a % l,
{
    lemma_mod_self_0(l);
    lemma_add_mod_noop_right(a, l, l);
}

/// Two distinct offsets within one ring length land on distinct positions.
proof fn lemma_ring_offsets_distinct(h: int, l: int, i: int, j: int)
    requires
        l > 0,
        0 <= h < l,
        0 <= i < l,
        0 <= j < l,
        i != j,
    ensures
        (h + i) % l != (h + j) % l,
{
    let a = h + i;
    let b = h + j;
    if a < l && b < l {
        lemma_small_mod(a as nat, l as nat);
        lemma_small_mod(b as nat, l as nat);
    } else if a >= l && b >= l {
        lemma_mod_cycle(a - l, l);
        lemma_mod_cycle(b - l, l);
        lemma_small_mod((a - l) as nat, l as nat);
        lemma_small_mod((b - l) as nat, l as nat);
    } else if a < l && b >= l {
        lemma_small_mod(a as nat, l as nat);
        lemma_mod_cycle(b - l, l);
        lemma_small_mod((b - l) as nat, l as nat);
    } else {
        lemma_small_mod(b as nat, l as nat);
        lemma_mod_cycle(a - l, l);
        lemma_small_mod((a - l) as nat, l as nat);
    }
}

/// Bytes written into the front of the writable region and then committed
/// are read back, in order, behind the bytes already committed: filling the
/// first `n` uninit positions with `bytes` and then committing `n` extends
/// the data region by exactly `bytes`.
pub proof fn lemma_commit_reads_back(
    before: CircularBuffer,
    filled: CircularBuffer,
    committed: CircularBuffer,
    bytes: Seq<u8>,
    n: int,
)
    requires
        before.wf(),
        0 <= n == bytes.len() <= before.uninit().len(),
        filled.wf(),
        filled.length() == before.length(),
        filled.data() == before.data(),
        filled.uninit().len() == before.uninit().len(),
        filled.uninit().subrange(0, n) == bytes,
        committed.wf(),
        committed.length() == filled.length(),
        committed.data() == filled.data().add(filled.uninit().subrange(0, n)),
        committed.uninit() == filled.uninit().skip(n),
    ensures
        committed.data() == before.data().add(bytes),
        committed.data().len() + committed.uninit().len() == before.length(),
{
    committed.lemma_partition();
}

} // verus!
