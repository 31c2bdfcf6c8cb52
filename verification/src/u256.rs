use vstd::prelude::*;

verus! {

/// The value of one limb's worth of shift: 2^64.
pub open spec fn limb_base() -> int {
    0x10000000000000000int
}

/// The first value that does not fit in 256 bits: 2^256.
pub open spec fn u256_bound() -> int {
    0x10000000000000000000000000000000000000000000000000000000000000000int
}

/// A 256-bit unsigned integer: four 64-bit limbs, least significant first.
/// Balances, gas amounts and transaction amounts are carried in this type.
#[derive(Clone, Copy, Debug)]
pub struct U256 {
    pub limbs: [u64; 4],
}

impl U256 {
    /// The number this value stands for.
    pub open spec fn as_nat(self) -> nat {
        (self.limbs@[0]
            + 0x10000000000000000int * self.limbs@[1]
            + 0x100000000000000000000000000000000int * self.limbs@[2]
            + 0x1000000000000000000000000000000000000000000000000int * self.limbs@[3]) as nat
    }

    /// Every 256-bit value is below 2^256.
    pub proof fn lemma_as_nat_bound(self)
        ensures
            self.as_nat() < u256_bound(),
    {
    }

    pub fn zero() -> (r: U256)
        ensures
            r.as_nat() == 0,
    {
        U256 { limbs: [0, 0, 0, 0] }
    }

    pub fn from_u64(x: u64) -> (r: U256)
        ensures
            r.as_nat() == x,
    {
        U256 { limbs: [x, 0, 0, 0] }
    }

    /// Sum, or `None` when the sum does not fit in 256 bits.
    pub fn checked_add(&self, other: &U256) -> (r: Option<U256>)
        ensures
            match r {
                Some(v) => v.as_nat() == self.as_nat() + other.as_nat(),
                None => self.as_nat() + other.as_nat() >= u256_bound(),
            },
    {
        let (s0, c0) = add_limb(self.limbs[0], other.limbs[0], 0);
        let (s1, c1) = add_limb(self.limbs[1], other.limbs[1], c0);
        let (s2, c2) = add_limb(self.limbs[2], other.limbs[2], c1);
        let (s3, c3) = add_limb(self.limbs[3], other.limbs[3], c2);
        if c3 == 0 {
            Some(U256 { limbs: [s0, s1, s2, s3] })
        } else {
            None
        }
    }

    /// Difference, or `None` when `other` is larger than `self`.
    pub fn checked_sub(&self, other: &U256) -> (r: Option<U256>)
        ensures
            match r {
                Some(v) => v.as_nat() == self.as_nat() - other.as_nat(),
                None => self.as_nat() < other.as_nat(),
            },
    {
        let (d0, b0) = sub_limb(self.limbs[0], other.limbs[0], 0);
        let (d1, b1) = sub_limb(self.limbs[1], other.limbs[1], b0);
        let (d2, b2) = sub_limb(self.limbs[2], other.limbs[2], b1);
        let (d3, b3) = sub_limb(self.limbs[3], other.limbs[3], b2);
        if b3 == 0 {
            Some(U256 { limbs: [d0, d1, d2, d3] })
        } else {
            None
        }
    }

    /// Whether `self` and `other` stand for the same number.
    pub fn equals(&self, other: &U256) -> (r: bool)
        ensures
            r == (self.as_nat() == other.as_nat()),
    {
        let r = self.limbs[0] == other.limbs[0] && self.limbs[1] == other.limbs[1]
            && self.limbs[2] == other.limbs[2] && self.limbs[3] == other.limbs[3];
        proof {
            if !r {
                lemma_limbs_unique(*self, *other);
            }
        }
        r
    }
}

/// One limb of an addition: `x + y + c` split into a low limb and a carry.
fn add_limb(x: u64, y: u64, c: u64) -> (r: (u64, u64))
    requires
        c <= 1,
    ensures
        x + y + c == r.0 + limb_base() * r.1,
        r.1 <= 1,
{
    let s: u128 = x as u128 + y as u128 + c as u128;
    let lo: u64 = #[verifier::truncate] (s as u64);
    let hi: u64 = (s >> 64) as u64;
    proof {
        assert(s == lo as u128 + (hi as u128) * 0x10000000000000000u128) by (bit_vector)
            requires
                lo == s as u64,
                hi == (s >> 64) as u64,
        ;
    }
    (lo, hi)
}

/// One limb of a subtraction: `x - y - b` split into a low limb and a borrow.
fn sub_limb(x: u64, y: u64, b: u64) -> (r: (u64, u64))
    requires
        b <= 1,
    ensures
        x - y - b == r.0 - limb_base() * r.1,
        r.1 <= 1,
{
    let s: u128 = 0x10000000000000000u128 + x as u128 - y as u128 - b as u128;
    let lo: u64 = #[verifier::truncate] (s as u64);
    let hi: u64 = (s >> 64) as u64;
    proof {
        assert(s == lo as u128 + (hi as u128) * 0x10000000000000000u128) by (bit_vector)
            requires
                lo == s as u64,
                hi == (s >> 64) as u64,
        ;
    }
    (lo, 1 - hi)
}

/// Two values with some differing limb stand for different numbers: the
/// base-2^64 representation of a number is unique.
proof fn lemma_limbs_unique(a: U256, b: U256)
    requires
        a.limbs@ != b.limbs@,
    ensures
        a.as_nat() != b.as_nat(),
{
    if a.as_nat() == b.as_nat() {
        let x = a.as_nat() as int;
        let d = limb_base();
        vstd::arithmetic::div_mod::lemma_fundamental_div_mod_converse(
            x,
            d,
            a.limbs@[1] + 0x10000000000000000int * a.limbs@[2]
                + 0x100000000000000000000000000000000int * a.limbs@[3],
            a.limbs@[0] as int,
        );
        vstd::arithmetic::div_mod::lemma_fundamental_div_mod_converse(
            x,
            d,
            b.limbs@[1] + 0x10000000000000000int * b.limbs@[2]
                + 0x100000000000000000000000000000000int * b.limbs@[3],
            b.limbs@[0] as int,
        );
        let x1 = x / d;
        vstd::arithmetic::div_mod::lemma_fundamental_div_mod_converse(
            x1,
            d,
            a.limbs@[2] + 0x10000000000000000int * a.limbs@[3],
            a.limbs@[1] as int,
        );
        vstd::arithmetic::div_mod::lemma_fundamental_div_mod_converse(
            x1,
            d,
            b.limbs@[2] + 0x10000000000000000int * b.limbs@[3],
            b.limbs@[1] as int,
        );
        let x2 = x1 / d;
        vstd::arithmetic::div_mod::lemma_fundamental_div_mod_converse(
            x2,
            d,
            a.limbs@[3] as int,
            a.limbs@[2] as int,
        );
        vstd::arithmetic::div_mod::lemma_fundamental_div_mod_converse(
            x2,
            d,
            b.limbs@[3] as int,
            b.limbs@[2] as int,
        );
        assert(a.limbs@ =~= b.limbs@);
    }
}

} // verus!
