//! A 256-bit unsigned integer made of four 64-bit limbs (least significant
//! first), with checked arithmetic whose results are stated over `nat`.

use vstd::arithmetic::div_mod::*;
use vstd::arithmetic::power2::*;
use vstd::prelude::*;

verus! {

/// 2^64, the weight of one limb.
#[verifier::inline]
pub open spec fn b1() -> int {
    0x1_0000_0000_0000_0000int
}

/// 2^128.
#[verifier::inline]
pub open spec fn b2() -> int {
    0x1_0000_0000_0000_0000_0000_0000_0000_0000int
}

/// 2^192.
#[verifier::inline]
pub open spec fn b3() -> int {
    0x1_0000_0000_0000_0000_0000_0000_0000_0000_0000_0000_0000_0000int
}

/// 2^256, one past the largest value of a `U256`.
#[verifier::inline]
pub open spec fn b4() -> int {
    0x1_0000_0000_0000_0000_0000_0000_0000_0000_0000_0000_0000_0000_0000_0000_0000_0000int
}

/// Unsigned 256-bit integer, limbs least significant first.
#[derive(Clone, Copy, Debug, PartialEq, Eq, Structural)]
pub struct U256 {
    pub w0: u64,
    pub w1: u64,
    pub w2: u64,
    pub w3: u64,
}

impl U256 {
    /// The number the limbs stand for.
    pub open spec fn value(self) -> nat {
        (self.w0 as int + self.w1 as int * b1() + self.w2 as int * b2() + self.w3 as int * b3()) as nat
    }

    pub proof fn lemma_bounds(self)
        ensures
            self.value() < b4(),
            self.w3 == 0 ==> self.value() < b3(),
            self.w3 == 0 && self.w2 == 0 ==> self.value() < b2(),
            self.w3 == 0 && self.w2 == 0 && self.w1 == 0 ==> self.value() < b1(),
            self.value() < b3() ==> self.w3 == 0,
            self.value() < b2() ==> self.w3 == 0 && self.w2 == 0,
            self.value() < b1() ==> self.w3 == 0 && self.w2 == 0 && self.w1 == 0,
    {
    }

    /// The limbs of a number below 2^256.
    pub open spec fn of_nat(n: nat) -> U256 {
        U256 {
            w0: (n % (b1() as nat)) as u64,
            w1: ((n / (b1() as nat)) % (b1() as nat)) as u64,
            w2: ((n / (b2() as nat)) % (b1() as nat)) as u64,
            w3: ((n / (b3() as nat)) % (b1() as nat)) as u64,
        }
    }

    /// The value of a `U256` fixes its limbs.
    pub proof fn lemma_value_determines(self, other: U256)
        requires
            self.value() == other.value(),
        ensures
            self == other,
    {
        self.lemma_of_nat();
        other.lemma_of_nat();
    }

    /// `of_nat` gives back the limbs of a value.
    /// Every number below 2^256 is the value of its limbs.
    pub proof fn lemma_of_nat_value(n: nat)
        requires
            n < b4(),
        ensures
            U256::of_nat(n).value() == n,
    {
        let b: int = b1();
        let q1 = n as int / b;
        let q2 = q1 / b;
        let q3 = q2 / b;
        vstd::arithmetic::div_mod::lemma_fundamental_div_mod(n as int, b);
        vstd::arithmetic::div_mod::lemma_fundamental_div_mod(q1, b);
        vstd::arithmetic::div_mod::lemma_fundamental_div_mod(q2, b);
        vstd::arithmetic::div_mod::lemma_div_denominator(n as int, b, b);
        vstd::arithmetic::div_mod::lemma_div_denominator(q1, b, b);
        vstd::arithmetic::div_mod::lemma_div_denominator(n as int, b * b, b);
        vstd::arithmetic::div_mod::lemma_mod_pos_bound(n as int, b);
        vstd::arithmetic::div_mod::lemma_mod_pos_bound(q1, b);
        vstd::arithmetic::div_mod::lemma_mod_pos_bound(q2, b);
        vstd::arithmetic::div_mod::lemma_div_pos_is_pos(n as int, b);
        vstd::arithmetic::div_mod::lemma_div_pos_is_pos(q1, b);
        vstd::arithmetic::div_mod::lemma_div_pos_is_pos(q2, b);
        assert(n as int / b3() == q3);
        assert(n as int / b2() == q2);
        vstd::arithmetic::div_mod::lemma_div_by_multiple_is_strongly_ordered(n as int, b4() , b3(), b);
        assert(q3 < b) by {
            vstd::arithmetic::div_mod::lemma_div_is_ordered(n as int, b4() - 1, b3());
            vstd::arithmetic::div_mod::lemma_fundamental_div_mod(b4() - 1, b3());
        }
        vstd::arithmetic::div_mod::lemma_small_mod(q3 as nat, b as nat);
    }

    pub proof fn lemma_of_nat(self)
        ensures
            U256::of_nat(self.value()) == self,
    {
        let n = self.value() as int;
        let w0 = self.w0 as int;
        let w1 = self.w1 as int;
        let w2 = self.w2 as int;
        let w3 = self.w3 as int;
        let m1 = w1 + w2 * b1() + w3 * b2();
        let m2 = w2 + w3 * b1();
        lemma_fundamental_div_mod_converse(n, b1(), m1, w0);
        lemma_fundamental_div_mod_converse(n, b2(), m2, w0 + w1 * b1());
        lemma_fundamental_div_mod_converse(n, b3(), w3, w0 + w1 * b1() + w2 * b2());
        lemma_fundamental_div_mod_converse(m1, b1(), w2 + w3 * b1(), w1);
        lemma_fundamental_div_mod_converse(m2, b1(), w3, w2);
        lemma_fundamental_div_mod_converse(w3, b1(), 0, w3);
    }

    pub fn zero() -> (r: U256)
        ensures
            r.value() == 0,
    {
        U256 { w0: 0, w1: 0, w2: 0, w3: 0 }
    }

    pub fn from_u64(v: u64) -> (r: U256)
        ensures
            r.value() == v,
    {
        U256 { w0: v, w1: 0, w2: 0, w3: 0 }
    }

    pub fn from_u128(v: u128) -> (r: U256)
        ensures
            r.value() == v,
    {
        let lo = (v % 0x1_0000_0000_0000_0000u128) as u64;
        let hi = (v / 0x1_0000_0000_0000_0000u128) as u64;
        U256 { w0: lo, w1: hi, w2: 0, w3: 0 }
    }

    pub fn is_zero(&self) -> (r: bool)
        ensures
            r == (self.value() == 0),
    {
        self.w0 == 0 && self.w1 == 0 && self.w2 == 0 && self.w3 == 0
    }

    /// `self < other`.
    pub fn lt(&self, other: &U256) -> (r: bool)
        ensures
            r == (self.value() < other.value()),
    {
        if self.w3 != other.w3 {
            self.w3 < other.w3
        } else if self.w2 != other.w2 {
            self.w2 < other.w2
        } else if self.w1 != other.w1 {
            self.w1 < other.w1
        } else {
            self.w0 < other.w0
        }
    }

    /// `self <= other`.
    pub fn le(&self, other: &U256) -> (r: bool)
        ensures
            r == (self.value() <= other.value()),
    {
        !other.lt(self)
    }

    /// `self == other`, by value.
    pub fn eq_value(&self, other: &U256) -> (r: bool)
        ensures
            r == (self.value() == other.value()),
    {
        proof {
            if self.value() == other.value() {
                self.lemma_value_determines(*other);
            }
        }
        self.w0 == other.w0 && self.w1 == other.w1 && self.w2 == other.w2 && self.w3 == other.w3
    }

    /// The low 64 bits; exact when the value fits in a `u64`.
    pub fn low_u64(&self) -> (r: u64)
        ensures
            self.value() < b1() ==> r == self.value(),
    {
        self.w0
    }

    /// The low 128 bits; exact when the value fits in a `u128`.
    pub fn low_u128(&self) -> (r: u128)
        ensures
            self.value() < b2() ==> r == self.value(),
    {
        self.w0 as u128 + self.w1 as u128 * 0x1_0000_0000_0000_0000u128
    }

    /// Sum modulo 2^256 and whether it wrapped.
    pub fn overflowing_add(&self, other: &U256) -> (r: (U256, bool))
        ensures
            r.0.value() + (if r.1 { b4() } else { 0 }) == self.value() + other.value(),
    {
        let (r0, c0) = add_limb(self.w0, other.w0, 0);
        let (r1, c1) = add_limb(self.w1, other.w1, c0);
        let (r2, c2) = add_limb(self.w2, other.w2, c1);
        let (r3, c3) = add_limb(self.w3, other.w3, c2);
        (U256 { w0: r0, w1: r1, w2: r2, w3: r3 }, c3 == 1)
    }

    /// Difference modulo 2^256 and whether it borrowed (`self < other`).
    pub fn overflowing_sub(&self, other: &U256) -> (r: (U256, bool))
        ensures
            r.0.value() == self.value() - other.value() + (if r.1 { b4() } else { 0 }),
            r.1 == (self.value() < other.value()),
    {
        let (r0, c0) = sub_limb(self.w0, other.w0, 0);
        let (r1, c1) = sub_limb(self.w1, other.w1, c0);
        let (r2, c2) = sub_limb(self.w2, other.w2, c1);
        let (r3, c3) = sub_limb(self.w3, other.w3, c2);
        let r = U256 { w0: r0, w1: r1, w2: r2, w3: r3 };
        proof {
            r.lemma_bounds();
        }
        (r, c3 == 1)
    }

    pub fn checked_add(&self, other: &U256) -> (r: Option<U256>)
        ensures
            match r {
                Some(s) => s.value() == self.value() + other.value(),
                None => self.value() + other.value() >= b4(),
            },
    {
        let (s, c) = self.overflowing_add(other);
        proof {
            s.lemma_bounds();
        }
        if c {
            None
        } else {
            Some(s)
        }
    }

    pub fn checked_sub(&self, other: &U256) -> (r: Option<U256>)
        ensures
            match r {
                Some(s) => s.value() == self.value() - other.value(),
                None => self.value() < other.value(),
            },
    {
        let (s, c) = self.overflowing_sub(other);
        if c {
            None
        } else {
            Some(s)
        }
    }

    /// Doubling modulo 2^256, with the bit shifted out; the lowest bit of the
    /// result is clear.
    pub fn shl1(&self) -> (r: (U256, bool))
        ensures
            r.0.value() + (if r.1 { b4() } else { 0 }) == 2 * self.value(),
            r.0.w0 % 2 == 0,
    {
        let (r0, c0) = dbl_limb(self.w0, 0);
        let (r1, c1) = dbl_limb(self.w1, c0);
        let (r2, c2) = dbl_limb(self.w2, c1);
        let (r3, c3) = dbl_limb(self.w3, c2);
        (U256 { w0: r0, w1: r1, w2: r2, w3: r3 }, c3 == 1)
    }

    /// Sets the lowest bit of an even number.
    fn set_low_bit(&self) -> (r: U256)
        requires
            self.w0 % 2 == 0,
        ensures
            r.value() == self.value() + 1,
    {
        U256 { w0: self.w0 + 1, w1: self.w1, w2: self.w2, w3: self.w3 }
    }

    /// Product, or `None` when it does not fit in 256 bits.
    #[verifier::rlimit(100)]
    #[verifier::spinoff_prover]
    pub fn checked_mul(&self, other: &U256) -> (r: Option<U256>)
        ensures
            match r {
                Some(p) => p.value() == self.value() * other.value(),
                None => self.value() * other.value() >= b4(),
            },
    {
        let a0 = self.w0;
        let a1 = self.w1;
        let a2 = self.w2;
        let a3 = self.w3;
        let b0 = other.w0;
        let b1_ = other.w1;
        let b2_ = other.w2;
        let b3_ = other.w3;
        let (h00, l00) = mul_limb(a0, b0);
        let (h01, l01) = mul_limb(a0, b1_);
        let (h02, l02) = mul_limb(a0, b2_);
        let (h03, l03) = mul_limb(a0, b3_);
        let (h10, l10) = mul_limb(a1, b0);
        let (h11, l11) = mul_limb(a1, b1_);
        let (h12, l12) = mul_limb(a1, b2_);
        let (h13, l13) = mul_limb(a1, b3_);
        let (h20, l20) = mul_limb(a2, b0);
        let (h21, l21) = mul_limb(a2, b1_);
        let (h22, l22) = mul_limb(a2, b2_);
        let (h23, l23) = mul_limb(a2, b3_);
        let (h30, l30) = mul_limb(a3, b0);
        let (h31, l31) = mul_limb(a3, b1_);
        let (h32, l32) = mul_limb(a3, b2_);
        let (h33, l33) = mul_limb(a3, b3_);
        let s0: u128 = l00 as u128;
        let r0 = (s0 % 0x1_0000_0000_0000_0000u128) as u64;
        let c1 = s0 / 0x1_0000_0000_0000_0000u128;
        let s1: u128 = c1 + h00 as u128 + l01 as u128 + l10 as u128;
        let r1 = (s1 % 0x1_0000_0000_0000_0000u128) as u64;
        let c2 = s1 / 0x1_0000_0000_0000_0000u128;
        let s2: u128 = c2 + h01 as u128 + h10 as u128 + l02 as u128 + l11 as u128 + l20 as u128;
        let r2 = (s2 % 0x1_0000_0000_0000_0000u128) as u64;
        let c3 = s2 / 0x1_0000_0000_0000_0000u128;
        let s3: u128 = c3 + h02 as u128 + h11 as u128 + h20 as u128 + l03 as u128 + l12 as u128
            + l21 as u128 + l30 as u128;
        let r3 = (s3 % 0x1_0000_0000_0000_0000u128) as u64;
        let c4 = s3 / 0x1_0000_0000_0000_0000u128;
        let s4: u128 = c4 + h03 as u128 + h12 as u128 + h21 as u128 + h30 as u128 + l13 as u128
            + l22 as u128 + l31 as u128;
        let c5 = s4 / 0x1_0000_0000_0000_0000u128;
        let s5: u128 = c5 + h13 as u128 + h22 as u128 + h31 as u128 + l23 as u128 + l32 as u128;
        let c6 = s5 / 0x1_0000_0000_0000_0000u128;
        let s6: u128 = c6 + h23 as u128 + h32 as u128 + l33 as u128;
        let c7 = s6 / 0x1_0000_0000_0000_0000u128;
        let s7: u128 = c7 + h33 as u128;
        let res = U256 { w0: r0, w1: r1, w2: r2, w3: r3 };
        proof {
            let x = self.value() as int;
            let y = other.value() as int;
            lemma_mul_value(*self, *other);
            assert(x * y == (h00 as int * b1() + l00 as int) * 1 + (h01 as int * b1() + l01 as int) * b1() + (h02 as int * b1() + l02 as int) * b2() + (h03 as int * b1() + l03 as int) * b3() + (h10 as int * b1() + l10 as int) * b1() + (h11 as int * b1() + l11 as int) * b2() + (h12 as int * b1() + l12 as int) * b3() + (h13 as int * b1() + l13 as int) * b4() + (h20 as int * b1() + l20 as int) * b2() + (h21 as int * b1() + l21 as int) * b3() + (h22 as int * b1() + l22 as int) * b4() + (h23 as int * b1() + l23 as int) * (b4() * b1()) + (h30 as int * b1() + l30 as int) * b3() + (h31 as int * b1() + l31 as int) * b4() + (h32 as int * b1() + l32 as int) * (b4() * b1()) + (h33 as int * b1() + l33 as int) * (b4() * b2()));
            lemma_split_u128(s0);
            lemma_split_u128(s1);
            lemma_split_u128(s2);
            lemma_split_u128(s3);
            lemma_split_u128(s4);
            lemma_split_u128(s5);
            lemma_split_u128(s6);
            assert(x * y == s0 as int + (s1 as int - c1 as int) * b1() + (s2 as int - c2 as int) * b2() + (s3 as int - c3 as int) * b3() + (s4 as int - c4 as int) * b4() + (s5 as int - c5 as int) * (b4() * b1()) + (s6 as int - c6 as int) * (b4() * b2()) + (s7 as int - c7 as int) * (b4() * b3()));
            assert(x * y == res.value() + (s4 as int % 0x1_0000_0000_0000_0000) * b4() + (s5 as int % 0x1_0000_0000_0000_0000) * (b4() * b1()) + (s6 as int % 0x1_0000_0000_0000_0000) * (b4() * b2()) + (s7 as int) * (b4() * b3()));
        }
        if s4 % 0x1_0000_0000_0000_0000u128 == 0 && s5 % 0x1_0000_0000_0000_0000u128 == 0 && s6
            % 0x1_0000_0000_0000_0000u128 == 0 && s7 == 0 {
            Some(res)
        } else {
            proof {
                res.lemma_bounds();
            }
            None
        }
    }

    /// Quotient and remainder of `self` by a nonzero divisor (binary long
    /// division, most significant bit first).
    #[verifier::rlimit(40)]
    pub fn div_rem(&self, d: &U256) -> (r: (U256, U256))
        requires
            d.value() > 0,
        ensures
            r.0.value() == self.value() / d.value(),
            r.1.value() == self.value() % d.value(),
    {
        let mut q = U256::zero();
        let mut rem = U256::zero();
        let mut rest = *self;
        let ghost n = self.value();
        let ghost mut hi: nat = 0;
        let ghost mut lo: nat = n;
        let mut t: u32 = 0;
        proof {
            lemma_pow2_b4();
            lemma2_to64();
            assert(pow2(0) == 1);
            self.lemma_bounds();
            assert(n == hi * pow2(256) + lo);
        }
        while t < 256
            invariant
                t <= 256,
                d.value() > 0,
                n == self.value(),
                n == hi * pow2((256 - t) as nat) + lo,
                lo < pow2((256 - t) as nat),
                rest.value() == lo * pow2(t as nat),
                hi == q.value() * d.value() + rem.value(),
                rem.value() < d.value(),
                hi < pow2(t as nat),
            decreases 256 - t,
        {
            let (q2, rem2, rest2, Ghost(hi2), Ghost(lo2)) = div_step(
                q,
                rem,
                rest,
                d,
                t,
                Ghost(n),
                Ghost(hi),
                Ghost(lo),
            );
            q = q2;
            rem = rem2;
            rest = rest2;
            proof {
                hi = hi2;
                lo = lo2;
            }
            t = t + 1;
        }
        proof {
            assert(pow2(0) == 1) by {
                lemma2_to64();
            }
            assert(lo == 0);
            assert(hi * 1 == hi) by (nonlinear_arith);
            assert(n == hi);
            lemma_fundamental_div_mod_converse(
                n as int,
                d.value() as int,
                q.value() as int,
                rem.value() as int,
            );
        }
        (q, rem)
    }

    /// Quotient by a divisor, `None` when the divisor is zero.
    pub fn checked_div(&self, d: &U256) -> (r: Option<U256>)
        ensures
            match r {
                Some(q) => d.value() > 0 && q.value() == self.value() / d.value(),
                None => d.value() == 0,
            },
    {
        if d.is_zero() {
            None
        } else {
            Some(self.div_rem(d).0)
        }
    }
}

/// One round of binary long division: takes the next dividend bit into the
/// running remainder.
#[verifier::rlimit(40)]
fn div_step(
    q: U256,
    rem: U256,
    rest: U256,
    d: &U256,
    t: u32,
    Ghost(n): Ghost<nat>,
    Ghost(hi): Ghost<nat>,
    Ghost(lo): Ghost<nat>,
) -> (r: (U256, U256, U256, Ghost<nat>, Ghost<nat>))
    requires
        t < 256,
        d.value() > 0,
        n == hi * pow2((256 - t) as nat) + lo,
        lo < pow2((256 - t) as nat),
        rest.value() == lo * pow2(t as nat),
        hi == q.value() * d.value() + rem.value(),
        rem.value() < d.value(),
        hi < pow2(t as nat),
    ensures
        n == r.3@ * pow2((256 - (t + 1)) as nat) + r.4@,
        r.4@ < pow2((256 - (t + 1)) as nat),
        r.2.value() == r.4@ * pow2((t + 1) as nat),
        r.3@ == r.0.value() * d.value() + r.1.value(),
        r.1.value() < d.value(),
        r.3@ < pow2((t + 1) as nat),
{
    let ghost tt = t as nat;
    let (rest2, top) = rest.shl1();
    let ghost p_lo = pow2((255 - tt) as nat);
    let ghost p_t1 = pow2(tt + 1);
    let ghost bit: nat = lo / p_lo;
    let ghost lo2: nat = lo % p_lo;
    assert(0 <= bit <= 1 && top == (bit == 1) && rest2.value() == lo2 * p_t1 && n == (2 * hi + bit)
        * p_lo + lo2 && lo2 < p_lo) by {
        lemma_div_step(n, hi, lo, tt, rest.value());
        rest.lemma_bounds();
        rest2.lemma_bounds();
        lemma_pow2_b4();
        lemma_shifted_out(rest.value(), rest2.value(), top, bit, lo2 * p_t1);
    }
    assert(q.value() <= hi && 2 * q.value() + 1 < b4()) by {
        lemma_quotient_room(q.value(), d.value(), rem.value(), hi, tt);
    }
    assert(2 * hi + bit < p_t1) by {
        lemma_pow2_adds(tt, 1);
        lemma2_to64();
        assert(hi < pow2(tt));
    }
    let (r2, c) = rem.shl1();
    let r3 = if top {
        r2.set_low_bit()
    } else {
        r2
    };
    let (q2, qc) = q.shl1();
    let ghost wide_r: nat = (r3.value() + (if c { b4() } else { 0int })) as nat;
    proof {
        q2.lemma_bounds();
        r2.lemma_bounds();
        assert(top ==> bit == 1);
        assert(!top ==> bit == 0);
        assert(wide_r == 2 * rem.value() + bit);
        assert(!qc);
    }
    let mut q_out = q2;
    let mut rem_out = r3;
    if c || !r3.lt(d) {
        let (r4, _b) = r3.overflowing_sub(d);
        proof {
            r4.lemma_bounds();
            r3.lemma_bounds();
            assert(r4.value() == wide_r - d.value());
        }
        rem_out = r4;
        q_out = q2.set_low_bit();
        proof {
            lemma_div_accumulate(hi, q.value(), rem.value(), d.value(), bit, wide_r, 1);
        }
    } else {
        proof {
            lemma_div_accumulate(hi, q.value(), rem.value(), d.value(), bit, wide_r, 0);
        }
    }
    proof {
        assert((256 - (t + 1)) as nat == (255 - tt) as nat);
        assert((t + 1) as nat == tt + 1);
    }
    (q_out, rem_out, rest2, Ghost(2 * hi + bit), Ghost(lo2))
}

impl From<u128> for U256 {
    fn from(v: u128) -> (r: U256) {
        let r = U256::from_u128(v);
        proof {
            r.lemma_of_nat();
        }
        r
    }
}

impl vstd::std_specs::convert::FromSpecImpl<u128> for U256 {
    open spec fn obeys_from_spec() -> bool {
        true
    }

    open spec fn from_spec(v: u128) -> U256 {
        U256::of_nat(v as nat)
    }
}

impl From<u64> for U256 {
    fn from(v: u64) -> (r: U256) {
        let r = U256::from_u64(v);
        proof {
            r.lemma_of_nat();
        }
        r
    }
}

impl vstd::std_specs::convert::FromSpecImpl<u64> for U256 {
    open spec fn obeys_from_spec() -> bool {
        true
    }

    open spec fn from_spec(v: u64) -> U256 {
        U256::of_nat(v as nat)
    }
}

impl From<u32> for U256 {
    fn from(v: u32) -> (r: U256) {
        let r = U256::from_u64(v as u64);
        proof {
            r.lemma_of_nat();
        }
        r
    }
}

impl vstd::std_specs::convert::FromSpecImpl<u32> for U256 {
    open spec fn obeys_from_spec() -> bool {
        true
    }

    open spec fn from_spec(v: u32) -> U256 {
        U256::of_nat(v as nat)
    }
}

proof fn lemma_pow2_b4()
    ensures
        pow2(256) == b4(),
        pow2(192) == b3(),
        pow2(128) == b2(),
        pow2(64) == b1(),
        pow2(255) * 2 == b4(),
{
    lemma2_to64();
    lemma_pow2_adds(64, 64);
    lemma_pow2_adds(128, 64);
    lemma_pow2_adds(192, 64);
    lemma_pow2_adds(255, 1);
}

/// One step of reading a number from its most significant bit down.
proof fn lemma_div_step(n: nat, hi: nat, lo: nat, t: nat, rest: nat)
    requires
        t < 256,
        n == hi * pow2((256 - t) as nat) + lo,
        lo < pow2((256 - t) as nat),
        rest == lo * pow2(t),
    ensures
        0 <= lo / pow2((255 - t) as nat) <= 1,
        (rest >= pow2(255)) == (lo / pow2((255 - t) as nat) == 1),
        2 * rest == (lo / pow2((255 - t) as nat)) * pow2(256) + (lo % pow2((255 - t) as nat))
            * pow2(t + 1),
        n == (2 * hi + lo / pow2((255 - t) as nat)) * pow2((255 - t) as nat) + lo % pow2(
            (255 - t) as nat,
        ),
        lo % pow2((255 - t) as nat) < pow2((255 - t) as nat),
        (lo % pow2((255 - t) as nat)) * pow2(t + 1) < pow2(256),
{
    let p = pow2((255 - t) as nat);
    let tp = pow2(t);
    lemma_pow2_pos((255 - t) as nat);
    lemma_pow2_pos(t);
    lemma_pow2_adds((255 - t) as nat, 1);
    lemma2_to64();
    assert(pow2((256 - t) as nat) == 2 * p) by {
        assert((256 - t) as nat == ((255 - t) as nat + 1) as nat);
    }
    lemma_pow2_adds((255 - t) as nat, t);
    assert(((255 - t) as nat + t) as nat == 255);
    assert(p * tp == pow2(255));
    lemma_pow2_adds(t, 1);
    assert(pow2(t + 1) == 2 * tp);
    lemma_pow2_adds(255, 1);
    assert(pow2(256) == 2 * pow2(255));
    let bit = lo / p;
    let lo2 = lo % p;
    lemma_fundamental_div_mod(lo as int, p as int);
    lemma_mod_bound(lo as int, p as int);
    assert(lo == p * bit + lo2);
    assert(bit >= 0) by (nonlinear_arith)
        requires
            lo == p * bit + lo2,
            lo2 < p,
            lo >= 0,
            p > 0,
    ;
    assert(bit <= 1) by (nonlinear_arith)
        requires
            lo == p * bit + lo2,
            lo < 2 * p,
            p > 0,
            lo2 >= 0,
    ;
    assert(rest == bit * pow2(255) + lo2 * tp) by (nonlinear_arith)
        requires
            rest == lo * tp,
            lo == p * bit + lo2,
            p * tp == pow2(255),
    ;
    assert(lo2 * tp < pow2(255)) by (nonlinear_arith)
        requires
            lo2 < p,
            tp > 0,
            p * tp == pow2(255),
    ;
    assert(n == (2 * hi + bit) * p + lo2) by (nonlinear_arith)
        requires
            n == hi * (2 * p) + lo,
            lo == p * bit + lo2,
    ;
    if bit == 0 {
        assert(rest < pow2(255)) by (nonlinear_arith)
            requires
                rest == bit * pow2(255) + lo2 * tp,
                bit == 0,
                lo2 * tp < pow2(255),
        ;
    } else {
        assert(rest >= pow2(255)) by (nonlinear_arith)
            requires
                rest == bit * pow2(255) + lo2 * tp,
                bit == 1,
                lo2 * tp >= 0,
        ;
    }
    assert(lo2 * pow2(t + 1) < pow2(256)) by (nonlinear_arith)
        requires
            lo2 * tp < pow2(255),
            pow2(t + 1) == 2 * tp,
            pow2(256) == 2 * pow2(255),
    ;
    assert(2 * rest == bit * pow2(256) + lo2 * pow2(t + 1)) by (nonlinear_arith)
        requires
            rest == bit * pow2(255) + lo2 * tp,
            pow2(256) == 2 * pow2(255),
            pow2(t + 1) == 2 * tp,
    ;
}

/// While reading the dividend bit by bit, the quotient so far has room to
/// double.
proof fn lemma_quotient_room(q: nat, d: nat, r: nat, hi: nat, t: nat)
    requires
        d > 0,
        hi == q * d + r,
        hi < pow2(t),
        t < 256,
    ensures
        q <= hi,
        2 * q + 1 < b4(),
{
    assert(q <= hi) by (nonlinear_arith)
        requires
            d > 0,
            hi == q * d + r,
    ;
    lemma_pow2_b4();
    if t < 255 {
        lemma_pow2_strictly_increases(t, 255);
    }
}

/// Doubling a number pushes out its top bit.
proof fn lemma_shifted_out(x: nat, y: nat, top: bool, bit: nat, z: nat)
    requires
        y + (if top { b4() } else { 0int }) == 2 * x,
        y < b4(),
        x < b4(),
        bit <= 1,
        (x >= pow2(255)) == (bit == 1),
        pow2(255) * 2 == b4(),
        2 * x == bit * b4() + z,
        z < b4(),
    ensures
        top == (bit == 1),
        y == z,
{
}

/// The quotient/remainder relation after one more dividend bit.
proof fn lemma_div_accumulate(hi: nat, q: nat, r: nat, d: nat, bit: nat, wide_r: nat, qbit: nat)
    requires
        hi == q * d + r,
        wide_r == 2 * r + bit,
        qbit == 1 ==> wide_r >= d,
    ensures
        2 * hi + bit == (2 * q + qbit) * d + (wide_r - qbit * d),
{
    assert(2 * hi + bit == (2 * q + qbit) * d + (wide_r - qbit * d)) by (nonlinear_arith)
        requires
            hi == q * d + r,
            wide_r == 2 * r + bit,
    ;
}

/// Scaling a limb combination by a limb weight.
proof fn lemma_shift_limbs(t0: int, t1: int, t2: int, t3: int, k: int)
    requires
        0 <= k < 4,
    ensures
        k == 0 ==> (t0 * 1 + t1 * b1() + t2 * b2() + t3 * b3()) * 1 == t0 * 1 + t1 * b1() + t2 * b2() + t3 * b3(),
        k == 1 ==> (t0 * 1 + t1 * b1() + t2 * b2() + t3 * b3()) * b1() == t0 * b1() + t1 * b2() + t2 * b3() + t3 * b4(),
        k == 2 ==> (t0 * 1 + t1 * b1() + t2 * b2() + t3 * b3()) * b2() == t0 * b2() + t1 * b3() + t2 * b4() + t3 * (b4() * b1()),
        k == 3 ==> (t0 * 1 + t1 * b1() + t2 * b2() + t3 * b3()) * b3() == t0 * b3() + t1 * b4() + t2 * (b4() * b1()) + t3 * (b4() * b2()),
{
    if k == 2 {
        assert((t0 * 1 + t1 * b1() + t2 * b2() + t3 * b3()) * b2() == t0 * b2() + t1 * b3() + t2 * b4() + t3 * (b4() * b1())) by (nonlinear_arith);
    }
    if k == 3 {
        assert((t0 * 1 + t1 * b1() + t2 * b2() + t3 * b3()) * b3() == t0 * b3() + t1 * b4() + t2 * (b4() * b1()) + t3 * (b4() * b2())) by (nonlinear_arith);
    }
}

/// The product of two numbers as a sum of limb products.
proof fn lemma_mul_value(a: U256, b: U256)
    ensures
        a.value() * b.value() == (a.w0 as int * b.w0 as int) * 1 + (a.w0 as int * b.w1 as int) * b1() + (a.w0 as int * b.w2 as int) * b2() + (a.w0 as int * b.w3 as int) * b3() + (a.w1 as int * b.w0 as int) * b1() + (a.w1 as int * b.w1 as int) * b2() + (a.w1 as int * b.w2 as int) * b3() + (a.w1 as int * b.w3 as int) * b4() + (a.w2 as int * b.w0 as int) * b2() + (a.w2 as int * b.w1 as int) * b3() + (a.w2 as int * b.w2 as int) * b4() + (a.w2 as int * b.w3 as int) * (b4() * b1()) + (a.w3 as int * b.w0 as int) * b3() + (a.w3 as int * b.w1 as int) * b4() + (a.w3 as int * b.w2 as int) * (b4() * b1()) + (a.w3 as int * b.w3 as int) * (b4() * b2()),
{
    let x = a.value() as int;
    let y = b.value() as int;
    assert(x * y == x * (b.w0 as int) + (x * (b.w1 as int)) * b1() + (x * (b.w2 as int)) * b2() + (x * (b.w3 as int)) * b3()) by (nonlinear_arith)
        requires
            y == b.w0 as int + b.w1 as int * b1() + b.w2 as int * b2() + b.w3 as int * b3(),
    ;
    assert(x * (b.w0 as int) == (a.w0 as int * b.w0 as int) + (a.w1 as int * b.w0 as int) * b1() + (a.w2 as int * b.w0 as int) * b2() + (a.w3 as int * b.w0 as int) * b3()) by (nonlinear_arith)
        requires
            x == a.w0 as int + a.w1 as int * b1() + a.w2 as int * b2() + a.w3 as int * b3(),
    ;
    assert(x * (b.w1 as int) == (a.w0 as int * b.w1 as int) + (a.w1 as int * b.w1 as int) * b1() + (a.w2 as int * b.w1 as int) * b2() + (a.w3 as int * b.w1 as int) * b3()) by (nonlinear_arith)
        requires
            x == a.w0 as int + a.w1 as int * b1() + a.w2 as int * b2() + a.w3 as int * b3(),
    ;
    assert(x * (b.w2 as int) == (a.w0 as int * b.w2 as int) + (a.w1 as int * b.w2 as int) * b1() + (a.w2 as int * b.w2 as int) * b2() + (a.w3 as int * b.w2 as int) * b3()) by (nonlinear_arith)
        requires
            x == a.w0 as int + a.w1 as int * b1() + a.w2 as int * b2() + a.w3 as int * b3(),
    ;
    assert(x * (b.w3 as int) == (a.w0 as int * b.w3 as int) + (a.w1 as int * b.w3 as int) * b1() + (a.w2 as int * b.w3 as int) * b2() + (a.w3 as int * b.w3 as int) * b3()) by (nonlinear_arith)
        requires
            x == a.w0 as int + a.w1 as int * b1() + a.w2 as int * b2() + a.w3 as int * b3(),
    ;
    assert(x * y == ((a.w0 as int * b.w0 as int) * 1 + (a.w1 as int * b.w0 as int) * b1() + (a.w2 as int * b.w0 as int) * b2() + (a.w3 as int * b.w0 as int) * b3()) * 1 + ((a.w0 as int * b.w1 as int) * 1 + (a.w1 as int * b.w1 as int) * b1() + (a.w2 as int * b.w1 as int) * b2() + (a.w3 as int * b.w1 as int) * b3()) * b1() + ((a.w0 as int * b.w2 as int) * 1 + (a.w1 as int * b.w2 as int) * b1() + (a.w2 as int * b.w2 as int) * b2() + (a.w3 as int * b.w2 as int) * b3()) * b2() + ((a.w0 as int * b.w3 as int) * 1 + (a.w1 as int * b.w3 as int) * b1() + (a.w2 as int * b.w3 as int) * b2() + (a.w3 as int * b.w3 as int) * b3()) * b3());
    lemma_shift_limbs(a.w0 as int * b.w0 as int, a.w1 as int * b.w0 as int, a.w2 as int * b.w0 as int, a.w3 as int * b.w0 as int, 0);
    lemma_shift_limbs(a.w0 as int * b.w1 as int, a.w1 as int * b.w1 as int, a.w2 as int * b.w1 as int, a.w3 as int * b.w1 as int, 1);
    lemma_shift_limbs(a.w0 as int * b.w2 as int, a.w1 as int * b.w2 as int, a.w2 as int * b.w2 as int, a.w3 as int * b.w2 as int, 2);
    lemma_shift_limbs(a.w0 as int * b.w3 as int, a.w1 as int * b.w3 as int, a.w2 as int * b.w3 as int, a.w3 as int * b.w3 as int, 3);
    assert(a.value() * b.value() == x * y);
}

proof fn lemma_split_u128(s: u128)
    ensures
        s as int == (s as int % 0x1_0000_0000_0000_0000) + (s as int / 0x1_0000_0000_0000_0000)
            * 0x1_0000_0000_0000_0000,
        s % 0x1_0000_0000_0000_0000u128 == s as int % 0x1_0000_0000_0000_0000,
        s / 0x1_0000_0000_0000_0000u128 == s as int / 0x1_0000_0000_0000_0000,
        0 <= s as int % 0x1_0000_0000_0000_0000 < 0x1_0000_0000_0000_0000,
{
    lemma_fundamental_div_mod(s as int, 0x1_0000_0000_0000_0000);
    lemma_mod_bound(s as int, 0x1_0000_0000_0000_0000);
}

fn add_limb(a: u64, b: u64, c: u64) -> (r: (u64, u64))
    requires
        c <= 1,
    ensures
        r.0 + r.1 * b1() == a + b + c,
        r.1 <= 1,
{
    let s: u128 = a as u128 + b as u128 + c as u128;
    ((s % 0x1_0000_0000_0000_0000u128) as u64, (s / 0x1_0000_0000_0000_0000u128) as u64)
}

fn sub_limb(a: u64, b: u64, c: u64) -> (r: (u64, u64))
    requires
        c <= 1,
    ensures
        r.0 == a - b - c + r.1 * b1(),
        r.1 <= 1,
{
    if a as u128 >= b as u128 + c as u128 {
        (a - b - c, 0)
    } else {
        ((a as u128 + 0x1_0000_0000_0000_0000u128 - b as u128 - c as u128) as u64, 1)
    }
}

fn dbl_limb(a: u64, c: u64) -> (r: (u64, u64))
    requires
        c <= 1,
    ensures
        r.0 + r.1 * b1() == 2 * a + c,
        r.1 <= 1,
        c == 0 ==> r.0 % 2 == 0,
{
    let s: u128 = 2 * (a as u128) + c as u128;
    ((s % 0x1_0000_0000_0000_0000u128) as u64, (s / 0x1_0000_0000_0000_0000u128) as u64)
}

fn mul_limb(a: u64, b: u64) -> (r: (u64, u64))
    ensures
        r.0 * b1() + r.1 == a * b,
{
    assert((a as nat) * (b as nat) <= 0xffff_ffff_ffff_ffff * 0xffff_ffff_ffff_ffff) by (
    nonlinear_arith)
        requires
            a <= 0xffff_ffff_ffff_ffff,
            b <= 0xffff_ffff_ffff_ffff,
    ;
    let p: u128 = a as u128 * b as u128;
    ((p / 0x1_0000_0000_0000_0000u128) as u64, (p % 0x1_0000_0000_0000_0000u128) as u64)
}

} // verus!
