//! Natural numbers of any size, as base-2^32 limbs, least significant first.
use vstd::prelude::*;
use vstd::arithmetic::power::pow;
use vstd::arithmetic::power2::pow2;

verus! {

pub const BASE: u64 = 0x1_0000_0000;

/// The weight of limb `i`.
pub open spec fn weight(i: nat) -> nat
    decreases i,
{
    if i == 0 {
        1
    } else {
        BASE as nat * weight((i - 1) as nat)
    }
}

/// Limb `i`, or zero beyond the stored ones.
pub open spec fn limb(s: Seq<u32>, i: int) -> nat {
    if 0 <= i < s.len() {
        s[i] as nat
    } else {
        0
    }
}

/// The number that the lowest `i` limbs stand for.
pub open spec fn low(s: Seq<u32>, i: nat) -> nat
    decreases i,
{
    if i == 0 {
        0
    } else {
        low(s, (i - 1) as nat) + limb(s, i - 1) * weight((i - 1) as nat)
    }
}

/// The number that a sequence of limbs stands for.
pub open spec fn value(s: Seq<u32>) -> nat {
    low(s, s.len())
}

proof fn lemma_weight_positive(i: nat)
    ensures
        weight(i) > 0,
    decreases i,
{
    if i > 0 {
        lemma_weight_positive((i - 1) as nat);
        assert(BASE as nat * weight((i - 1) as nat) > 0) by (nonlinear_arith)
            requires
                weight((i - 1) as nat) > 0,
                BASE > 0,
        ;
    }
}

proof fn lemma_low_bound(s: Seq<u32>, i: nat)
    ensures
        low(s, i) < weight(i),
    decreases i,
{
    if i > 0 {
        lemma_low_bound(s, (i - 1) as nat);
        let w = weight((i - 1) as nat);
        let x = limb(s, i - 1);
        assert(x * w + w <= BASE as nat * w) by (nonlinear_arith)
            requires
                x + 1 <= BASE,
        ;
    }
}

/// Limbs that agree below `i` have the same low part.
proof fn lemma_low_same(s: Seq<u32>, t: Seq<u32>, i: nat)
    requires
        forall|j: int| 0 <= j < i ==> #[trigger] limb(s, j) == limb(t, j),
    ensures
        low(s, i) == low(t, i),
    decreases i,
{
    if i > 0 {
        lemma_low_same(s, t, (i - 1) as nat);
        assert(limb(s, i - 1) == limb(t, i - 1));
    }
}

/// Above the stored limbs nothing is added.
proof fn lemma_low_beyond(s: Seq<u32>, i: nat)
    requires
        i >= s.len(),
    ensures
        low(s, i) == value(s),
    decreases i,
{
    if i > s.len() {
        lemma_low_beyond(s, (i - 1) as nat);
        assert(limb(s, i - 1) * weight((i - 1) as nat) == 0) by (nonlinear_arith)
            requires
                limb(s, i - 1) == 0,
        ;
    }
}

/// What lies above limb `i` is nothing or at least the weight of `i`.
proof fn lemma_low_gap(s: Seq<u32>, i: nat, n: nat)
    requires
        i <= n,
    ensures
        low(s, n) == low(s, i) || low(s, n) >= weight(i) + low(s, i),
        low(s, n) >= low(s, i),
        weight(n) >= weight(i),
    decreases n,
{
    if i < n {
        lemma_low_gap(s, i, (n - 1) as nat);
        let x = limb(s, n - 1);
        let w = weight((n - 1) as nat);
        lemma_weight_positive((n - 1) as nat);
        assert(BASE as nat * w >= w) by (nonlinear_arith)
            requires
                BASE >= 1,
        ;
        if x == 0 {
            assert(x * w == 0) by (nonlinear_arith)
                requires
                    x == 0,
            ;
        } else {
            assert(x * w >= w) by (nonlinear_arith)
                requires
                    x >= 1,
            ;
        }
    }
}

/// Changing one limb changes the value by its weight.
proof fn lemma_low_update(s: Seq<u32>, k: int, v: u32, i: nat)
    requires
        0 <= k < s.len(),
        k < i,
    ensures
        low(s.update(k, v), i) == low(s, i) + (v as int - s[k] as int) * weight(k as nat),
    decreases i,
{
    let t = s.update(k, v);
    if i == k + 1 {
        lemma_low_same(s, t, k as nat);
        let w = weight(k as nat) as int;
        assert((v as int) * w == (s[k] as int) * w + (v as int - s[k] as int) * w)
            by (nonlinear_arith);
    } else {
        lemma_low_update(s, k, v, (i - 1) as nat);
        assert(limb(t, i - 1) == limb(s, i - 1));
    }
}

/// A natural number.
pub struct Natural {
    limbs: Vec<u32>,
}

impl View for Natural {
    type V = nat;

    closed spec fn view(&self) -> nat {
        value(self.limbs@)
    }
}

impl Natural {
    /// The natural number `n`.
    pub fn new(n: u64) -> (r: Natural)
        ensures
            r@ == n,
    {
        let mut limbs: Vec<u32> = Vec::new();
        limbs.push((n % BASE) as u32);
        limbs.push((n / BASE) as u32);
        proof {
            reveal_with_fuel(low, 3);
            reveal_with_fuel(weight, 3);
            assert(limbs@.len() == 2);
            assert(limb(limbs@, 0) == n % BASE);
            assert(limb(limbs@, 1) == n / BASE);
            let (q, m) = ((n / BASE) as int, (n % BASE) as int);
            assert(weight(0) == 1);
            assert(weight(1) == BASE as nat * weight(0));
            assert(low(limbs@, 1) == low(limbs@, 0) + limb(limbs@, 0) * weight(0));
            assert(low(limbs@, 2) == low(limbs@, 1) + limb(limbs@, 1) * weight(1));
            assert(0 + m * 1 + q * (BASE * 1) == n) by (nonlinear_arith)
                requires
                    q * BASE + m == n,
            ;
        }
        Natural { limbs }
    }

    /// Multiplies by `m` and adds `a`.
    pub fn mul_add(&mut self, m: u32, a: u32)
        ensures
            final(self)@ == old(self)@ * m + a,
    {
        let mut carry: u64 = a as u64;
        let mut i: usize = 0;
        let n = self.limbs.len();
        let ghost s0 = self.limbs@;
        assert(carry * weight(0) == carry) by (nonlinear_arith)
            requires
                weight(0) == 1,
        ;
        assert(0 * m == 0);
        while i < n
            invariant
                n == self.limbs@.len(),
                n == s0.len(),
                i <= n,
                carry < BASE,
                low(self.limbs@, i as nat) + carry * weight(i as nat) == low(s0, i as nat) * m + a,
                forall|j: int| i <= j < n ==> self.limbs@[j] == s0[j],
            decreases n - i,
        {
            let x = self.limbs[i];
            let ghost s1 = self.limbs@;
            assert((x as int) * (m as int) <= 0xffff_ffff * 0xffff_ffff) by (nonlinear_arith)
                requires
                    x <= 0xffff_ffff,
                    m <= 0xffff_ffff,
            ;
            let t: u64 = x as u64 * m as u64 + carry;
            let digit: u32 = (t % BASE) as u32;
            self.limbs.set(i, digit);
            proof {
                lemma_low_same(self.limbs@, s1, i as nat);
                let w = weight(i as nat) as int;
                let li = low(s1, i as nat) as int;
                let lo = low(s0, i as nat) as int;
                let nc = (t / BASE) as int;
                assert(weight((i + 1) as nat) == BASE as nat * weight(i as nat));
                assert(limb(self.limbs@, i as int) == digit);
                assert(limb(s0, i as int) == x);
                assert(low(self.limbs@, (i + 1) as nat) == li + digit * w);
                assert(low(s0, (i + 1) as nat) == lo + x * w);
                assert(t == nc * BASE + digit);
                assert(nc < BASE) by {
                    assert(t < 0x1_0000_0000 * 0x1_0000_0000);
                }
                assert(li + digit * w + nc * (BASE * w) == (lo + x * w) * m + a)
                    by (nonlinear_arith)
                    requires
                        li + carry * w == lo * m + a,
                        nc * BASE + digit == x * m + carry,
                ;
            }
            carry = t / BASE;
            i += 1;
        }
        proof {
            lemma_low_beyond(s0, n as nat);
        }
        if carry > 0 {
            let ghost s1 = self.limbs@;
            self.limbs.push(carry as u32);
            proof {
                lemma_low_same(self.limbs@, s1, n as nat);
            }
        } else {
            assert(carry * weight(n as nat) == 0) by (nonlinear_arith)
                requires
                    carry == 0,
            ;
        }
    }

    /// Multiplies by two `k` times.
    pub fn shift(&mut self, k: u32)
        ensures
            final(self)@ == old(self)@ * pow2(k as nat),
    {
        let mut i: u32 = 0;
        let ghost v0 = self@;
        proof {
            vstd::arithmetic::power2::lemma2_to64();
            assert(v0 * 1 == v0) by (nonlinear_arith);
        }
        while i < k
            invariant
                i <= k,
                self@ == v0 * pow2(i as nat),
            decreases k - i,
        {
            self.mul_add(2, 0);
            proof {
                vstd::arithmetic::power2::lemma_pow2_unfold((i + 1) as nat);
                assert(v0 * pow2(i as nat) * 2 == v0 * (2 * pow2(i as nat))) by (nonlinear_arith);
            }
            i += 1;
        }
    }

    /// Multiplies by ten `k` times.
    pub fn scale(&mut self, k: u128)
        ensures
            final(self)@ == old(self)@ * pow(10, k as nat),
    {
        let mut i: u128 = 0;
        let ghost v0 = self@ as int;
        proof {
            vstd::arithmetic::power::lemma_pow0(10);
            assert(v0 * 1 == v0) by (nonlinear_arith);
        }
        while i < k
            invariant
                i <= k,
                self@ == v0 * pow(10, i as nat),
            decreases k - i,
        {
            self.mul_add(10, 0);
            proof {
                reveal(pow);
                assert(v0 * pow(10, i as nat) * 10 == v0 * (10 * pow(10, i as nat)))
                    by (nonlinear_arith);
            }
            i += 1;
        }
    }

    /// Whether this number is smaller than `other`.
    pub fn less(&self, other: &Natural) -> (r: bool)
        ensures
            r == (self@ < other@),
    {
        let n: usize = if self.limbs.len() >= other.limbs.len() {
            self.limbs.len()
        } else {
            other.limbs.len()
        };
        let mut i: usize = n;
        proof {
            lemma_low_beyond(self.limbs@, n as nat);
            lemma_low_beyond(other.limbs@, n as nat);
        }
        while i > 0
            invariant
                i <= n,
                self@ == low(self.limbs@, n as nat),
                other@ == low(other.limbs@, n as nat),
                self@ - low(self.limbs@, i as nat) == other@ - low(other.limbs@, i as nat),
            decreases i,
        {
            let x: u32 = if i - 1 < self.limbs.len() { self.limbs[i - 1] } else { 0 };
            let y: u32 = if i - 1 < other.limbs.len() { other.limbs[i - 1] } else { 0 };
            let ghost w = weight((i - 1) as nat);
            assert(x == limb(self.limbs@, i - 1));
            assert(y == limb(other.limbs@, i - 1));
            proof {
                lemma_low_bound(self.limbs@, (i - 1) as nat);
                lemma_low_bound(other.limbs@, (i - 1) as nat);
            }
            if x < y {
                assert(x * w + w <= y * w) by (nonlinear_arith)
                    requires
                        x + 1 <= y,
                ;
                return true;
            }
            if y < x {
                assert(y * w + w <= x * w) by (nonlinear_arith)
                    requires
                        y + 1 <= x,
                ;
                return false;
            }
            i -= 1;
        }
        false
    }

    /// Adds `other`.
    pub fn add_to(&mut self, other: &Natural)
        ensures
            final(self)@ == old(self)@ + other@,
    {
        let n: usize = if self.limbs.len() >= other.limbs.len() {
            self.limbs.len()
        } else {
            other.limbs.len()
        };
        let ghost s0 = self.limbs@;
        let ghost t = other.limbs@;
        let mut carry: u64 = 0;
        let mut i: usize = 0;
        let mut out: Vec<u32> = Vec::new();
        proof {
            lemma_low_beyond(s0, n as nat);
            lemma_low_beyond(t, n as nat);
            assert(carry * weight(0) == 0) by (nonlinear_arith)
                requires
                    carry == 0,
            ;
        }
        while i < n
            invariant
                i <= n,
                s0 == self.limbs@,
                t == other.limbs@,
                out@.len() == i,
                carry <= 1,
                low(out@, i as nat) + carry * weight(i as nat) == low(s0, i as nat) + low(
                    t,
                    i as nat,
                ),
            decreases n - i,
        {
            let x: u64 = if i < self.limbs.len() { self.limbs[i] as u64 } else { 0 };
            let y: u64 = if i < other.limbs.len() { other.limbs[i] as u64 } else { 0 };
            let sum: u64 = x + y + carry;
            let (d, c): (u64, u64) = if sum >= BASE { (sum - BASE, 1) } else { (sum, 0) };
            let ghost o1 = out@;
            out.push(d as u32);
            proof {
                lemma_low_same(out@, o1, i as nat);
                let w = weight(i as nat) as int;
                let lo = low(o1, i as nat) as int;
                let ls = low(s0, i as nat) as int;
                let lt = low(t, i as nat) as int;
                assert(limb(out@, i as int) == d);
                assert(limb(s0, i as int) == x);
                assert(limb(t, i as int) == y);
                assert(lo + d * w + c * (BASE * w) == ls + x * w + (lt + y * w))
                    by (nonlinear_arith)
                    requires
                        lo + carry * w == ls + lt,
                        d + c * BASE == x + y + carry,
                ;
            }
            carry = c;
            i += 1;
        }
        let ghost o1 = out@;
        out.push(carry as u32);
        proof {
            lemma_low_same(out@, o1, n as nat);
            assert(limb(out@, n as int) == carry);
        }
        self.limbs = out;
    }

    /// Subtracts `other`, which is no larger.
    pub fn subtract(&mut self, other: &Natural)
        requires
            other@ <= old(self)@,
        ensures
            final(self)@ == old(self)@ - other@,
    {
        let n = self.limbs.len();
        let mut borrow: u64 = 0;
        let mut i: usize = 0;
        let ghost s0 = self.limbs@;
        let ghost t = other.limbs@;
        while i < n
            invariant
                n == self.limbs@.len(),
                n == s0.len(),
                i <= n,
                t == other.limbs@,
                borrow <= 1,
                low(self.limbs@, i as nat) + low(t, i as nat) == low(s0, i as nat) + borrow
                    * weight(i as nat),
                forall|j: int| i <= j < n ==> self.limbs@[j] == s0[j],
            decreases n - i,
        {
            let x: u64 = self.limbs[i] as u64;
            let y: u64 = if i < other.limbs.len() { other.limbs[i] as u64 } else { 0 };
            let ghost s1 = self.limbs@;
            let (d, b): (u64, u64) = if x >= y + borrow {
                (x - y - borrow, 0)
            } else {
                (x + BASE - y - borrow, 1)
            };
            self.limbs.set(i, d as u32);
            proof {
                lemma_low_same(self.limbs@, s1, i as nat);
                let w = weight(i as nat) as int;
                let li = low(s1, i as nat) as int;
                let lo = low(s0, i as nat) as int;
                let lt = low(t, i as nat) as int;
                assert(limb(self.limbs@, i as int) == d);
                assert(limb(s0, i as int) == x);
                assert(limb(t, i as int) == y);
                assert(li + d * w + (lt + y * w) == lo + x * w + b * (BASE * w))
                    by (nonlinear_arith)
                    requires
                        li + lt == lo + borrow * w,
                        d + y + borrow == x + b * BASE,
                ;
            }
            borrow = b;
            i += 1;
        }
        proof {
            let m = if t.len() >= n {
                t.len()
            } else {
                n as nat
            };
            lemma_low_beyond(t, m);
            lemma_low_gap(t, n as nat, m);
            lemma_low_bound(s0, n as nat);
            lemma_low_bound(self.limbs@, n as nat);
            assert(borrow == 0 ==> borrow * weight(n as nat) == 0) by (nonlinear_arith);
            assert(borrow == 1 ==> borrow * weight(n as nat) == weight(n as nat))
                by (nonlinear_arith);
        }
    }

    /// Divides by `d` and gives the remainder.
    pub fn divide(&mut self, d: u32) -> (r: u32)
        requires
            d > 0,
        ensures
            final(self)@ == old(self)@ / d as nat,
            r == old(self)@ % d as nat,
    {
        let n = self.limbs.len();
        let mut rem: u64 = 0;
        let mut i: usize = n;
        let ghost v0 = self@;
        proof {
            assert(rem * weight(i as nat) == 0) by (nonlinear_arith)
                requires
                    rem == 0,
            ;
            assert((d as int) * 0 == 0);
        }
        while i > 0
            invariant
                n == self.limbs@.len(),
                i <= n,
                d > 0,
                rem < d,
                v0 == (d as int) * (low(self.limbs@, n as nat) - low(self.limbs@, i as nat)) + rem
                    * weight(i as nat) + low(self.limbs@, i as nat),
            decreases i,
        {
            i -= 1;
            let x = self.limbs[i];
            let ghost s1 = self.limbs@;
            assert((rem as int) * 0x1_0000_0000 <= 0xffff_fffe * 0x1_0000_0000) by (nonlinear_arith)
                requires
                    rem <= 0xffff_fffe,
            ;
            let t: u64 = rem * BASE + x as u64;
            let q: u64 = t / d as u64;
            let nr: u64 = t % d as u64;
            proof {
                vstd::arithmetic::div_mod::lemma_fundamental_div_mod(t as int, d as int);
                assert(t < d * BASE) by (nonlinear_arith)
                    requires
                        t == rem * BASE + x,
                        rem + 1 <= d,
                        x < BASE,
                ;
                assert(q < BASE) by (nonlinear_arith)
                    requires
                        t == d * q + nr,
                        t < d * BASE,
                        d > 0,
                        nr >= 0,
                {
                    if q >= BASE {
                        assert(d * q >= d * BASE) by (nonlinear_arith)
                            requires
                                q >= BASE,
                                d > 0,
                        ;
                    }
                }
            }
            self.limbs.set(i, q as u32);
            proof {
                lemma_low_update(s1, i as int, q as u32, n as nat);
                lemma_low_same(self.limbs@, s1, i as nat);
                let w = weight(i as nat) as int;
                let top = low(s1, n as nat) as int;
                let top2 = low(self.limbs@, n as nat) as int;
                let li = low(s1, i as nat) as int;
                let dd = d as int;
                let (qi, xi, ri, nri) = (q as int, x as int, rem as int, nr as int);
                assert(limb(s1, i as int) == x);
                assert(weight((i + 1) as nat) == BASE as nat * weight(i as nat));
                assert(top2 == top + (qi - xi) * w);
                assert(v0 == dd * (top - (li + xi * w)) + ri * (BASE * w) + (li + xi * w));
                assert(v0 == dd * (top2 - li) + nri * w + li) by (nonlinear_arith)
                    requires
                        v0 == dd * (top - (li + xi * w)) + ri * (BASE * w) + (li + xi * w),
                        top2 == top + (qi - xi) * w,
                        ri * BASE + xi == dd * qi + nri,
                ;
            }
            rem = nr;
        }
        proof {
            let q = self@ as int;
            assert(rem * weight(0) == rem) by (nonlinear_arith)
                requires
                    weight(0) == 1,
            ;
            assert(v0 == d * q + rem);
            vstd::arithmetic::div_mod::lemma_fundamental_div_mod_converse(
                v0 as int,
                d as int,
                q,
                rem as int,
            );
        }
        rem as u32
    }

    /// Whether this number is zero.
    pub fn is_zero(&self) -> (r: bool)
        ensures
            r == (self@ == 0),
    {
        let zero = Natural::new(0);
        !zero.less(self)
    }
}

} // verus!
