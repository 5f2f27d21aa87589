//! Fixed-width natural numbers, wide enough to hold `256^255`.
//!
//! The gamma table is defined by comparing large integer powers. The numbers
//! here carry 64 limbs of 32 bits each, least significant limb first, and
//! offer just what that comparison needs: a small constant, multiplication by
//! a small factor, powers of a small base, and `<=`.

use vstd::prelude::*;
use vstd::arithmetic::power::*;

verus! {

/// Number of 32-bit limbs in a [`Wide`].
pub const LIMBS: usize = 64;

/// The value of one limb position: `2^32`.
pub open spec fn radix() -> int {
    0x1_0000_0000
}

/// Exclusive upper bound of the values a [`Wide`] can hold: `2^2048`.
pub open spec fn capacity() -> int {
    pow(radix(), 64)
}

/// The number that the first `n` limbs of `limbs` spell, least significant
/// limb first.
pub open spec fn limbs_value(limbs: Seq<u32>, n: nat) -> int
    decreases n,
{
    if n == 0 {
        0
    } else {
        limbs_value(limbs, (n - 1) as nat) + limbs[n - 1] as int * pow(radix(), (n - 1) as nat)
    }
}

/// A prefix of limbs spells a number below the radix raised to its length.
pub proof fn lemma_limbs_value_bound(limbs: Seq<u32>, n: nat)
    ensures
        0 <= limbs_value(limbs, n) < pow(radix(), n),
    decreases n,
{
    if n == 0 {
        lemma_pow0(radix());
    } else {
        let m = (n - 1) as nat;
        lemma_limbs_value_bound(limbs, m);
        lemma_pow_positive(radix(), m);
        let p = pow(radix(), m);
        let d = limbs[n - 1] as int;
        assert(pow(radix(), n) == radix() * p) by {
            reveal(pow);
        }
        assert(0 <= d * p && d * p + p <= radix() * p) by (nonlinear_arith)
            requires
                0 <= d < radix(),
                p > 0,
        ;
    }
}

/// Limb sequences that agree on the positions `k..n` differ in value only by
/// what their first `k` limbs spell.
pub proof fn lemma_limbs_value_agree(a: Seq<u32>, b: Seq<u32>, k: nat, n: nat)
    requires
        k <= n,
        forall|j: int| k <= j < n ==> a[j] == b[j],
    ensures
        limbs_value(a, n) - limbs_value(a, k) == limbs_value(b, n) - limbs_value(b, k),
    decreases n,
{
    if n > k {
        lemma_limbs_value_agree(a, b, k, (n - 1) as nat);
    }
}

/// Where two limb sequences agree above position `i` and differ at `i`, the
/// limb at `i` decides which spells the smaller number.
pub proof fn lemma_limbs_value_decided(a: Seq<u32>, b: Seq<u32>, i: nat, n: nat)
    requires
        i < n,
        a[i as int] < b[i as int],
        forall|j: int| i < j < n ==> a[j] == b[j],
    ensures
        limbs_value(a, n) < limbs_value(b, n),
{
    let p = pow(radix(), i);
    let da = a[i as int] as int;
    let db = b[i as int] as int;
    lemma_limbs_value_bound(a, i);
    lemma_limbs_value_bound(b, i);
    lemma_limbs_value_agree(a, b, i + 1, n);
    assert(limbs_value(a, i + 1) == limbs_value(a, i) + da * p);
    assert(limbs_value(b, i + 1) == limbs_value(b, i) + db * p);
    assert(da * p + p <= db * p) by (nonlinear_arith)
        requires
            da < db,
            p > 0,
    ;
}

/// A natural number below `2^2048`.
pub struct Wide {
    limbs: Vec<u32>,
}

impl Wide {
    #[verifier::type_invariant]
    spec fn has_all_limbs(&self) -> bool {
        self.limbs@.len() == LIMBS
    }

    /// The number held.
    pub closed spec fn value(&self) -> int {
        limbs_value(self.limbs@, LIMBS as nat)
    }

    /// The number `v`.
    pub fn from_small(v: u32) -> (r: Self)
        ensures
            r.value() == v,
    {
        let mut limbs: Vec<u32> = Vec::new();
        limbs.push(v);
        assert(limbs_value(limbs@, 1) == v as int) by {
            reveal_with_fuel(limbs_value, 2);
            lemma_pow0(radix());
        }
        let mut i: usize = 1;
        while i < LIMBS
            invariant
                1 <= i <= LIMBS,
                limbs@.len() == i,
                limbs_value(limbs@, i as nat) == v as int,
            decreases LIMBS - i,
        {
            let ghost before = limbs@;
            limbs.push(0);
            proof {
                lemma_limbs_value_agree(limbs@, before, 0, i as nat);
                assert(limbs@[i as int] as int * pow(radix(), i as nat) == 0) by (nonlinear_arith)
                    requires
                        limbs@[i as int] == 0,
                ;
            }
            i += 1;
        }
        Wide { limbs }
    }

    /// The number multiplied by `m`. The product must fit.
    pub fn mul_small(self, m: u32) -> (r: Self)
        requires
            self.value() * m < capacity(),
        ensures
            r.value() == self.value() * m,
    {
        proof {
            use_type_invariant(&self);
        }
        let ghost before = self.limbs@;
        let mut limbs = self.limbs;
        let mut carry: u64 = 0;
        let mut i: usize = 0;
        while i < LIMBS
            invariant
                i <= LIMBS,
                limbs@.len() == LIMBS,
                before.len() == LIMBS,
                carry < 0x1_0000_0000,
                forall|j: int| i <= j < LIMBS ==> limbs@[j] == before[j],
                limbs_value(limbs@, i as nat) + carry * pow(radix(), i as nat) == limbs_value(
                    before,
                    i as nat,
                ) * m,
            decreases LIMBS - i,
        {
            let ghost prior = limbs@;
            let limb: u64 = limbs[i] as u64;
            let factor: u64 = m as u64;
            assert(limb * factor + carry <= 0xFFFF_FFFF_0000_0000) by (nonlinear_arith)
                requires
                    limb <= 0xFFFF_FFFF,
                    factor <= 0xFFFF_FFFF,
                    carry <= 0xFFFF_FFFF,
            ;
            let cur: u64 = limb * factor + carry;
            let low: u64 = cur % 0x1_0000_0000;
            let high: u64 = cur / 0x1_0000_0000;
            limbs.set(i, low as u32);
            proof {
                let p = pow(radix(), i as nat);
                lemma_limbs_value_agree(limbs@, prior, 0, i as nat);
                assert(pow(radix(), (i + 1) as nat) == radix() * p) by {
                    reveal(pow);
                }
                let v = limbs_value(prior, i as nat);
                let w = limbs_value(before, i as nat);
                assert(v + low * p + high * (radix() * p) == (w + limb * p) * m) by (nonlinear_arith)
                    requires
                        v + carry * p == w * m,
                        low + high * radix() == limb * factor + carry,
                        factor == m,
                ;
            }
            carry = high;
            i += 1;
        }
        proof {
            lemma_limbs_value_bound(limbs@, LIMBS as nat);
            let c = capacity();
            let v = limbs_value(limbs@, LIMBS as nat);
            assert(carry == 0) by (nonlinear_arith)
                requires
                    0 <= v,
                    0 <= carry,
                    0 < c,
                    v + carry * c < c,
            ;
        }
        Wide { limbs }
    }

    /// `base` raised to `exponent`. The power must fit.
    pub fn power_of(base: u32, exponent: u32) -> (r: Self)
        requires
            pow(base as int, exponent as nat) < capacity(),
        ensures
            r.value() == pow(base as int, exponent as nat),
    {
        let mut acc = Wide::from_small(1);
        proof {
            lemma_pow0(base as int);
        }
        let mut k: u32 = 0;
        while k < exponent
            invariant
                k <= exponent,
                acc.value() == pow(base as int, k as nat),
                pow(base as int, exponent as nat) < capacity(),
            decreases exponent - k,
        {
            proof {
                assert(pow(base as int, (k + 1) as nat) == base * pow(base as int, k as nat)) by {
                    reveal(pow);
                }
                if base == 0 {
                    lemma0_pow((k + 1) as nat);
                    lemma_pow_positive(radix(), LIMBS as nat);
                } else {
                    lemma_pow_increases(base as nat, (k + 1) as nat, exponent as nat);
                }
                assert(acc.value() * base == base * pow(base as int, k as nat)) by (nonlinear_arith)
                    requires
                        acc.value() == pow(base as int, k as nat),
                ;
            }
            acc = acc.mul_small(base);
            k += 1;
        }
        acc
    }

    /// Whether this number is at most `other`.
    pub fn le(&self, other: &Self) -> (r: bool)
        ensures
            r == (self.value() <= other.value()),
    {
        proof {
            use_type_invariant(self);
            use_type_invariant(other);
        }
        let mut i: usize = LIMBS;
        while i > 0
            invariant
                i <= LIMBS,
                self.limbs@.len() == LIMBS,
                other.limbs@.len() == LIMBS,
                forall|j: int| i <= j < LIMBS ==> self.limbs@[j] == other.limbs@[j],
            decreases i,
        {
            i -= 1;
            let a: u32 = self.limbs[i];
            let b: u32 = other.limbs[i];
            if a < b {
                proof {
                    lemma_limbs_value_decided(self.limbs@, other.limbs@, i as nat, LIMBS as nat);
                }
                return true;
            }
            if b < a {
                proof {
                    lemma_limbs_value_decided(other.limbs@, self.limbs@, i as nat, LIMBS as nat);
                }
                return false;
            }
        }
        proof {
            lemma_limbs_value_agree(self.limbs@, other.limbs@, 0, LIMBS as nat);
        }
        true
    }
}

} // verus!
