//! Benchmark weights of the heartbeat validation extrinsic.
//!
//! A weight is a pair of a reference execution time in picoseconds
//! and a proof size in bytes; all arithmetic on it saturates. The
//! database access costs are those of the reference backing store.
use vstd::prelude::*;

verus! {

/// The saturating sum of two 64-bit numbers.
pub open spec fn sat_add(a: u64, b: u64) -> u64 {
    if a + b > u64::MAX {
        u64::MAX
    } else {
        (a + b) as u64
    }
}

/// The saturating product of two 64-bit numbers.
pub open spec fn sat_mul(a: u64, b: u64) -> u64 {
    if a * b > u64::MAX {
        u64::MAX
    } else {
        (a * b) as u64
    }
}

/// The cost of one database read, in picoseconds.
pub const DB_READ_COST: u64 = 25_000_000;

/// The cost of one database write, in picoseconds.
pub const DB_WRITE_COST: u64 = 100_000_000;

/// The weight of one operation: reference execution time and proof
/// size.
#[derive(Clone, Copy, PartialEq, Eq, Structural, Debug)]
pub struct Weight {
    /// Reference execution time, in picoseconds.
    pub ref_time: u64,
    /// Proof size, in bytes.
    pub proof_size: u64,
}

impl Weight {
    /// A weight from its two parts.
    pub fn from_parts(ref_time: u64, proof_size: u64) -> (w: Weight)
        ensures
            w.ref_time == ref_time,
            w.proof_size == proof_size,
    {
        Weight { ref_time, proof_size }
    }

    /// Add another weight, saturating each part.
    pub fn saturating_add(self, other: Weight) -> (w: Weight)
        ensures
            w.ref_time == sat_add(self.ref_time, other.ref_time),
            w.proof_size == sat_add(self.proof_size, other.proof_size),
    {
        Weight {
            ref_time: sat_add_u64(self.ref_time, other.ref_time),
            proof_size: sat_add_u64(self.proof_size, other.proof_size),
        }
    }

    /// Scale both parts by a factor, saturating each.
    pub fn saturating_mul(self, scalar: u64) -> (w: Weight)
        ensures
            w.ref_time == sat_mul(self.ref_time, scalar),
            w.proof_size == sat_mul(self.proof_size, scalar),
    {
        Weight {
            ref_time: sat_mul_u64(self.ref_time, scalar),
            proof_size: sat_mul_u64(self.proof_size, scalar),
        }
    }
}

/// The saturating sum of two 64-bit numbers.
pub fn sat_add_u64(a: u64, b: u64) -> (r: u64)
    ensures
        r == sat_add(a, b),
{
    if a <= u64::MAX - b {
        a + b
    } else {
        u64::MAX
    }
}

/// The saturating product of two 64-bit numbers.
pub fn sat_mul_u64(a: u64, b: u64) -> (r: u64)
    ensures
        r == sat_mul(a, b),
{
    if b == 0 {
        proof {
            assert(a * 0 == 0) by (nonlinear_arith);
        }
        0
    } else if a <= u64::MAX / b {
        proof {
            vstd::arithmetic::div_mod::lemma_fundamental_div_mod(u64::MAX as int, b as int);
            let q = u64::MAX as int / b as int;
            assert(u64::MAX as int == b * q + (u64::MAX as int) % (b as int));
            assert((u64::MAX as int) % (b as int) >= 0) by {
                vstd::arithmetic::div_mod::lemma_mod_bound(u64::MAX as int, b as int);
            }
            assert(a as int * b as int <= q * b) by (nonlinear_arith)
                requires
                    a as int <= q,
                    b >= 1,
            ;
            assert(q * b == b * q) by (nonlinear_arith);
        }
        a * b
    } else {
        proof {
            vstd::arithmetic::div_mod::lemma_fundamental_div_mod(u64::MAX as int, b as int);
            vstd::arithmetic::div_mod::lemma_mod_bound(u64::MAX as int, b as int);
            let q = u64::MAX as int / b as int;
            assert(u64::MAX as int == b * q + (u64::MAX as int) % (b as int));
            assert((u64::MAX as int) % (b as int) < b as int);
            assert(a as int * b as int >= (q + 1) * b) by (nonlinear_arith)
                requires
                    a as int >= q + 1,
                    b >= 1,
            ;
            assert((q + 1) * (b as int) == b * q + b) by (nonlinear_arith);
        }
        u64::MAX
    }
}

/// The database access costs of the reference backing store.
pub struct DbWeight {
    /// The cost of one read, in picoseconds.
    pub read: u64,
    /// The cost of one write, in picoseconds.
    pub write: u64,
}

impl DbWeight {
    /// The weight of a number of reads.
    pub fn reads(&self, n: u64) -> (w: Weight)
        ensures
            w.ref_time == sat_mul(self.read, n),
            w.proof_size == 0,
    {
        Weight { ref_time: sat_mul_u64(self.read, n), proof_size: 0 }
    }

    /// The weight of a number of writes.
    pub fn writes(&self, n: u64) -> (w: Weight)
        ensures
            w.ref_time == sat_mul(self.write, n),
            w.proof_size == 0,
    {
        Weight { ref_time: sat_mul_u64(self.write, n), proof_size: 0 }
    }
}

/// The access costs of the reference backing store.
pub fn db_weight() -> (w: DbWeight)
    ensures
        w.read == DB_READ_COST,
        w.write == DB_WRITE_COST,
{
    DbWeight { read: DB_READ_COST, write: DB_WRITE_COST }
}

/// Weight functions needed by the heartbeat extrinsic's callers.
pub trait WeightInfo {
    /// The weight of validating an unsigned heartbeat and applying
    /// it, for `k` keys.
    fn validate_unsigned_and_then_heartbeat(k: u32) -> (w: Weight)
        ensures
            w.ref_time == 296_523_256 + 30_542 * (k as int),
            w.proof_size == 321_487 + 1_761 * (k as int),
    ;
}

/// The weight of validating an unsigned heartbeat and applying it,
/// for `k` keys: the measured base time, a per-key component, four
/// database reads and one write, and the per-key proof size growth.
/// The range of `k` is `[1, 1000]` in the benchmark, but the formula
/// saturates nowhere for any 32-bit `k`.
fn heartbeat_weight(k: u32) -> (w: Weight)
    ensures
        w.ref_time == 296_523_256 + 30_542 * (k as int),
        w.proof_size == 321_487 + 1_761 * (k as int),
{
    proof {
        assert(30_542 * (k as int) <= 30_542 * 0xFFFF_FFFF) by (nonlinear_arith)
            requires
                k <= 0xFFFF_FFFFu32,
        ;
        assert(1_761 * (k as int) <= 1_761 * 0xFFFF_FFFF) by (nonlinear_arith)
            requires
                k <= 0xFFFF_FFFFu32,
        ;
    }
    Weight::from_parts(96_523_256, 321_487).saturating_add(
        Weight::from_parts(30_542, 0).saturating_mul(k as u64),
    ).saturating_add(db_weight().reads(4)).saturating_add(db_weight().writes(1)).saturating_add(
        Weight::from_parts(0, 1_761).saturating_mul(k as u64),
    )
}

/// Weights measured on the reference hardware.
pub struct SubstrateWeight;

impl WeightInfo for SubstrateWeight {
    fn validate_unsigned_and_then_heartbeat(k: u32) -> (w: Weight) {
        heartbeat_weight(k)
    }
}

/// The fallback weights, kept equal to the reference ones.
impl WeightInfo for () {
    fn validate_unsigned_and_then_heartbeat(k: u32) -> (w: Weight) {
        heartbeat_weight(k)
    }
}

} // verus!
