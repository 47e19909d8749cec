//! The per-document signature: a Bloom filter over observation hashes.
//!
//! A filter of `m` bits answers `contains` with `true` for every hash
//! previously inserted — never a false negative — and may answer `true`
//! for a hash never inserted. `m` and the probe count `k` are sized for a
//! 1% target false-positive rate from the expected element count, with a
//! floor of 64 bits and `k` clamped to `[1, 10]`. Probes follow a double
//! hashing schedule over the low and high halves of the 64-bit hash.
//!
//! The bit storage is `bitvec`'s bit-vector, held behind trusted
//! declarations; everything proved about the filter speaks of the bit
//! sequence `bits_of` that those declarations expose.

use vstd::prelude::*;

verus! {

/// The filter's bit storage: `bitvec`'s bit-vector, opaque to the
/// verifier (its generic bounds name `bitvec`'s own traits, which cannot
/// be declared here), so it is held whole behind this struct and spoken
/// of only through `bits_of`.
#[verifier::external_body]
pub struct BitStorage {
    inner: bitvec::vec::BitVec<usize, bitvec::order::Lsb0>,
}

/// The bits the storage holds, in index order.
pub uninterp spec fn bits_of(bv: BitStorage) -> Seq<bool>;

/// Relies on `bitvec::vec::BitVec::repeat`: a bit-vector of `len` copies
/// of the given bit, here all zero.
#[verifier::external_body]
fn bits_repeat_false(len: usize) -> (r: BitStorage)
    ensures
        bits_of(r).len() == len,
        forall|i: int| 0 <= i < len ==> !bits_of(r)[i],
{
    BitStorage { inner: bitvec::vec::BitVec::repeat(false, len) }
}

/// Relies on `bitvec::slice::BitSlice::set`: writes one bit, here `true`,
/// at an in-bounds index, leaving every other bit unchanged.
#[verifier::external_body]
fn bits_set_true(bv: &mut BitStorage, idx: usize)
    requires
        idx < bits_of(*old(bv)).len(),
    ensures
        bits_of(*final(bv)) == bits_of(*old(bv)).update(idx as int, true),
{
    bv.inner.set(idx, true);
}

/// Relies on `bitvec`'s `Index` implementation for `BitSlice`: reads the
/// bit at an in-bounds index.
#[verifier::external_body]
fn bits_read(bv: &BitStorage, idx: usize) -> (r: bool)
    requires
        idx < bits_of(*bv).len(),
    ensures
        r == bits_of(*bv)[idx as int],
{
    bv.inner[idx]
}

/// Relies on `bitvec::vec::BitVec::len`: the number of bits held.
#[verifier::external_body]
fn bits_len(bv: &BitStorage) -> (r: usize)
    ensures
        r == bits_of(*bv).len(),
{
    bv.inner.len()
}

/// Millionths of the bits-per-element factor `-ln(0.01) / (ln 2)^2` for a
/// 1% target false-positive rate.
pub const BITS_PER_ELEMENT_MICRO: u64 = 9585058;

/// Millionths of `ln 2`.
pub const LN2_MICRO: u64 = 693147;

/// The fixed-point scale of the two constants above.
pub const MICRO: u64 = 1000000;

/// The largest expected element count the sizing accepts: beyond it the
/// bit count would overflow a 32-bit address space.
pub const MAX_ELEMENTS: usize = 0x0fff_ffff;

/// The bit count `ceil(n * -ln(p) / (ln 2)^2)` before the 64-bit floor.
pub open spec fn sizing_m_raw(n: nat) -> nat {
    (n * (BITS_PER_ELEMENT_MICRO as nat) + (MICRO - 1) as nat) / (MICRO as nat)
}

/// The filter's bit count: the sized value, floored at 64 bits.
pub open spec fn sizing_m(n: nat) -> nat {
    if sizing_m_raw(n) < 64 {
        64
    } else {
        sizing_m_raw(n)
    }
}

/// The probe count `ceil((m / n) * ln 2)`, clamped to `[1, 10]`, where
/// `m` is the unfloored bit count.
pub open spec fn sizing_k(n: nat) -> nat {
    let raw = (sizing_m_raw(n) * (LN2_MICRO as nat) + n * (MICRO as nat) - 1) as int / (n * (
    MICRO as nat)) as int;
    if raw < 1 {
        1
    } else if raw > 10 {
        10
    } else {
        raw as nat
    }
}

/// A per-document approximate-membership filter.
pub struct BloomFilter {
    bits: BitStorage,
    num_hashes: usize,
    size: usize,
}

impl BloomFilter {
    /// The filter's bit sequence.
    pub closed spec fn spec_bits(self) -> Seq<bool> {
        bits_of(self.bits)
    }

    /// The filter's probe count.
    pub closed spec fn spec_num_hashes(self) -> int {
        self.num_hashes as int
    }

    /// Well-formed: the recorded size is the bit count, at least 64 bits,
    /// and between 1 and 10 probes.
    pub open spec fn wf(self) -> bool {
        &&& self.spec_bits().len() == self.spec_size()
        &&& self.spec_bits().len() >= 64
        &&& 1 <= self.spec_num_hashes() <= 10
    }

    /// The recorded size, in bits.
    pub closed spec fn spec_size(self) -> int {
        self.size as int
    }

    /// The `i`-th probe index of `hash` in a filter of `m` bits: double
    /// hashing over the low and high 32-bit halves.
    pub open spec fn probe(hash: u64, i: int, m: int) -> int {
        (((hash & 0xffff_ffff) as int) + i * ((hash >> 32u64) as int)) % m
    }

    /// Whether every probe bit of `hash` is set: the membership answer.
    pub open spec fn may_contain(self, hash: u64) -> bool {
        forall|i: int|
            0 <= i < self.spec_num_hashes() ==> self.spec_bits()[Self::probe(
                hash,
                i,
                self.spec_bits().len() as int,
            )]
    }

    /// A fresh filter sized for `num_elements` at a 1% target
    /// false-positive rate; nothing is a member yet.
    pub fn new(num_elements: usize) -> (r: BloomFilter)
        requires
            1 <= num_elements <= MAX_ELEMENTS,
        ensures
            r.wf(),
            r.spec_bits().len() == sizing_m(num_elements as nat),
            r.spec_num_hashes() == sizing_k(num_elements as nat),
            forall|j: int| 0 <= j < r.spec_bits().len() ==> !r.spec_bits()[j],
            forall|h: u64| !r.may_contain(h),
    {
        let n64: u64 = num_elements as u64;
        let m_raw: u64 = (n64 * BITS_PER_ELEMENT_MICRO + (MICRO - 1)) / MICRO;
        proof {
            assert(m_raw == sizing_m_raw(num_elements as nat));
            assert(m_raw <= 0xffff_ffff) by {
                assert(n64 * BITS_PER_ELEMENT_MICRO <= 0x0fff_ffff * 9585058);
            }
        }
        let size64: u64 = if m_raw < 64 {
            64
        } else {
            m_raw
        };
        let size: usize = size64 as usize;
        let k_den: u64 = n64 * MICRO;
        let k_raw: u64 = (m_raw * LN2_MICRO + k_den - 1) / k_den;
        let k: usize = if k_raw < 1 {
            1
        } else if k_raw > 10 {
            10
        } else {
            k_raw as usize
        };
        proof {
            assert(k == sizing_k(num_elements as nat));
        }
        let bits = bits_repeat_false(size);
        let r = BloomFilter { bits, num_hashes: k, size };
        proof {
            assert forall|h: u64| !r.may_contain(h) by {
                let m = r.spec_bits().len() as int;
                let p = Self::probe(h, 0, m);
                assert(0 <= p < m) by {
                    assert(m > 0);
                }
                assert(!r.spec_bits()[p]);
            }
        }
        r
    }

    /// Insert a hash: sets every probe bit. Afterwards the hash is a
    /// member, and everything that was a member stays one.
    #[verifier::loop_isolation(false)]
    pub fn insert(&mut self, hash: u64)
        requires
            old(self).wf(),
        ensures
            final(self).wf(),
            final(self).spec_size() == old(self).spec_size(),
            final(self).spec_num_hashes() == old(self).spec_num_hashes(),
            final(self).spec_bits().len() == old(self).spec_bits().len(),
            final(self).may_contain(hash),
            forall|h2: u64|
                old(self).may_contain(h2) ==> final(self).may_contain(h2),
            forall|j: int|
                0 <= j < old(self).spec_bits().len() ==> (final(self).spec_bits()[j] <==> old(
                    self,
                ).spec_bits()[j] || (exists|p: int|
                    0 <= p < old(self).spec_num_hashes() && j == Self::probe(
                        hash,
                        p,
                        old(self).spec_bits().len() as int,
                    ))),
    {
        let k = self.num_hashes;
        let mut i: usize = 0;
        while i < k
            invariant
                i <= k,
                self.num_hashes == old(self).num_hashes,
                self.size == old(self).size,
                self.spec_bits().len() == old(self).spec_bits().len(),
                forall|j: int|
                    0 <= j < self.spec_bits().len() && old(self).spec_bits()[j]
                        ==> self.spec_bits()[j],
                forall|p: int|
                    0 <= p < i ==> self.spec_bits()[Self::probe(
                        hash,
                        p,
                        self.spec_bits().len() as int,
                    )],
                forall|j: int|
                    0 <= j < self.spec_bits().len() && self.spec_bits()[j] && !old(
                        self,
                    ).spec_bits()[j] ==> (exists|p: int|
                        0 <= p < i && j == Self::probe(
                            hash,
                            p,
                            self.spec_bits().len() as int,
                        )),
            decreases k - i,
        {
            let idx = Self::probe_index(hash, i, self.size);
            bits_set_true(&mut self.bits, idx);
            proof {
                let m = self.spec_bits().len() as int;
                assert forall|j: int|
                    0 <= j < m && self.spec_bits()[j] && !old(self).spec_bits()[j] implies (
                exists|p: int| 0 <= p <= i && j == Self::probe(hash, p, m)) by {
                    if j == idx {
                        assert(j == Self::probe(hash, i as int, m));
                    }
                }
            }
            i += 1;
        }
        proof {
            assert forall|h2: u64|
                old(self).may_contain(h2) implies self.may_contain(h2) by {
                let m = self.spec_bits().len() as int;
                assert forall|p: int|
                    0 <= p < self.spec_num_hashes() implies self.spec_bits()[Self::probe(
                    h2,
                    p,
                    m,
                )] by {
                    assert(0 <= Self::probe(h2, p, m) < m);
                    assert(old(self).spec_bits()[Self::probe(h2, p, m)]);
                }
            }
        }
    }

    /// Whether every probe bit of `hash` is set: `true` for every hash
    /// ever inserted, possibly `true` for others.
    #[verifier::loop_isolation(false)]
    pub fn contains(&self, hash: u64) -> (r: bool)
        requires
            self.wf(),
        ensures
            r == self.may_contain(hash),
    {
        let k = self.num_hashes;
        let mut i: usize = 0;
        while i < k
            invariant
                i <= k,
                forall|p: int|
                    0 <= p < i ==> self.spec_bits()[Self::probe(
                        hash,
                        p,
                        self.spec_bits().len() as int,
                    )],
            decreases k - i,
        {
            let idx = Self::probe_index(hash, i, self.size);
            if !bits_read(&self.bits, idx) {
                proof {
                    assert(!self.spec_bits()[Self::probe(
                        hash,
                        i as int,
                        self.spec_bits().len() as int,
                    )]);
                }
                return false;
            }
            i += 1;
        }
        true
    }

    /// The `i`-th probe index of `hash`, within bounds.
    fn probe_index(hash: u64, i: usize, size: usize) -> (r: usize)
        requires
            1 <= size,
            i <= 10,
        ensures
            r == Self::probe(hash, i as int, size as int),
            r < size,
    {
        let h1: u64 = hash & 0xffff_ffff;
        let h2: u64 = hash >> 32;
        proof {
            assert(h1 <= 0xffff_ffffu64 && h2 <= 0xffff_ffffu64) by (bit_vector)
                requires
                    h1 == hash & 0xffff_ffff,
                    h2 == hash >> 32,
            ;
        }
        proof {
            assert((i as u64) * h2 <= 10 * 0xffff_ffffu64) by (nonlinear_arith)
                requires
                    i <= 10,
                    h2 <= 0xffff_ffffu64,
            ;
        }
        let idx: u64 = (h1 + (i as u64) * h2) % (size as u64);
        idx as usize
    }

    /// The filter's storage size in bytes.
    pub fn size_bytes(&self) -> (r: usize)
        ensures
            r == self.spec_bits().len() / 8,
    {
        bits_len(&self.bits) / 8
    }
}

} // verus!
