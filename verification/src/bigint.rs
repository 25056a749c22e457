//! Arbitrary-precision signed integers.
//!
//! The per-pixel formulas of the transforms are quotients of integer
//! polynomials whose numerators and denominators outgrow `i128`. They are
//! evaluated exactly on `BigInt`, whose view is the mathematical integer it
//! holds, so that no rounding happens before the final quantisation to a byte.
use vstd::prelude::*;

verus! {

/// The radix of one limb.
const LIMB_RADIX: u64 = 0x1_0000_0000;

/// `LIMB_RADIX` to the power `k`.
spec fn radix_pow(k: nat) -> nat
    decreases k,
{
    if k == 0 {
        1
    } else {
        4294967296 * radix_pow((k - 1) as nat)
    }
}

/// The limb at position `i`, reading positions past the end as zero.
spec fn limb(s: Seq<u32>, i: int) -> nat {
    if 0 <= i < s.len() {
        s[i] as nat
    } else {
        0
    }
}

/// The number held by the `n` least significant limbs of `s`.
spec fn prefix_value(s: Seq<u32>, n: nat) -> nat
    decreases n,
{
    if n == 0 {
        0
    } else {
        prefix_value(s, (n - 1) as nat) + limb(s, n - 1) * radix_pow((n - 1) as nat)
    }
}

/// The natural number that a little-endian limb sequence stands for.
spec fn magnitude(s: Seq<u32>) -> nat {
    prefix_value(s, s.len())
}

/// Powers of the radix add their exponents.
proof fn lemma_radix_pow_add(a: nat, b: nat)
    ensures
        radix_pow(a + b) == radix_pow(a) * radix_pow(b),
    decreases b,
{
    if b == 0 {
        assert(radix_pow(a) * 1 == radix_pow(a));
    } else {
        lemma_radix_pow_add(a, (b - 1) as nat);
        let p: int = radix_pow(a) as int;
        let q: int = radix_pow((b - 1) as nat) as int;
        assert(radix_pow(a + b) == 4294967296 * radix_pow((a + b - 1) as nat));
        assert(4294967296 * (p * q) == p * (4294967296 * q)) by (nonlinear_arith);
    }
}

/// `n` limbs hold a number below the `n`-th power of the radix.
proof fn lemma_prefix_bound(s: Seq<u32>, n: nat)
    ensures
        prefix_value(s, n) < radix_pow(n),
    decreases n,
{
    if n > 0 {
        lemma_prefix_bound(s, (n - 1) as nat);
        let p: int = radix_pow((n - 1) as nat) as int;
        let l: int = limb(s, n - 1) as int;
        assert(l * p <= 4294967295 * p) by (nonlinear_arith)
            requires
                0 <= l <= 4294967295,
                0 <= p,
        ;
    }
}

/// Reading past the last limb adds nothing.
proof fn lemma_prefix_beyond(s: Seq<u32>, n: nat)
    requires
        n >= s.len(),
    ensures
        prefix_value(s, n) == magnitude(s),
    decreases n,
{
    if n > s.len() {
        lemma_prefix_beyond(s, (n - 1) as nat);
        assert(limb(s, n - 1) == 0);
        assert(0 * radix_pow((n - 1) as nat) == 0);
    }
}

/// Sequences that agree on their first `n` limbs hold the same number there.
proof fn lemma_prefix_agree(s: Seq<u32>, t: Seq<u32>, n: nat)
    requires
        forall|i: int| 0 <= i < n ==> limb(s, i) == limb(t, i),
    ensures
        prefix_value(s, n) == prefix_value(t, n),
    decreases n,
{
    if n > 0 {
        lemma_prefix_agree(s, t, (n - 1) as nat);
    }
}

/// A limb pushed at the significant end adds its value at that position.
proof fn lemma_magnitude_push(s: Seq<u32>, x: u32)
    ensures
        magnitude(s.push(x)) == magnitude(s) + x * radix_pow(s.len()),
{
    let t = s.push(x);
    assert forall|i: int| 0 <= i < s.len() implies limb(s, i) == limb(t, i) by {}
    lemma_prefix_agree(s, t, s.len());
    assert(limb(t, s.len() as int) == x);
}

/// Reads limb `i`, zero past the end.
fn limb_at(a: &Vec<u32>, i: usize) -> (r: u32)
    ensures
        r == limb(a@, i as int),
{
    if i < a.len() {
        a[i]
    } else {
        0
    }
}

/// The length of the longer of two limb vectors.
fn larger_len(a: &Vec<u32>, b: &Vec<u32>) -> (n: usize)
    ensures
        n >= a.len(),
        n >= b.len(),
        n == a.len() || n == b.len(),
{
    if a.len() >= b.len() {
        a.len()
    } else {
        b.len()
    }
}

/// Sum of two magnitudes.
fn add_limbs(a: &Vec<u32>, b: &Vec<u32>) -> (r: Vec<u32>)
    ensures
        magnitude(r@) == magnitude(a@) + magnitude(b@),
{
    let n: usize = larger_len(a, b);
    let mut r: Vec<u32> = Vec::new();
    let mut carry: u64 = 0;
    let mut i: usize = 0;
    while i < n
        invariant
            i <= n,
            r.len() == i,
            carry <= 1,
            magnitude(r@) + carry * radix_pow(i as nat) == prefix_value(a@, i as nat)
                + prefix_value(b@, i as nat),
        decreases n - i,
    {
        let x: u32 = limb_at(a, i);
        let y: u32 = limb_at(b, i);
        let sum: u64 = x as u64 + y as u64 + carry;
        let lo: u32 = (sum % LIMB_RADIX) as u32;
        let hi: u64 = sum / LIMB_RADIX;
        proof {
            lemma_magnitude_push(r@, lo);
            let p: int = radix_pow(i as nat) as int;
            assert(radix_pow((i + 1) as nat) == 4294967296 * p);
            assert(lo * p + hi * (4294967296 * p) == (x + y + carry) * p) by (nonlinear_arith)
                requires
                    lo + hi * 4294967296 == x + y + carry,
            ;
            assert((x + y + carry) * p == x * p + y * p + carry * p) by (nonlinear_arith);
        }
        r.push(lo);
        carry = hi;
        i = i + 1;
    }
    proof {
        lemma_prefix_beyond(a@, n as nat);
        lemma_prefix_beyond(b@, n as nat);
        lemma_magnitude_push(r@, carry as u32);
    }
    r.push(carry as u32);
    r
}

/// Difference of two magnitudes, the first being the larger.
fn sub_limbs(a: &Vec<u32>, b: &Vec<u32>) -> (r: Vec<u32>)
    requires
        magnitude(a@) >= magnitude(b@),
    ensures
        magnitude(r@) == magnitude(a@) - magnitude(b@),
{
    let n: usize = larger_len(a, b);
    let mut r: Vec<u32> = Vec::new();
    let mut borrow: u64 = 0;
    let mut i: usize = 0;
    while i < n
        invariant
            i <= n,
            r.len() == i,
            borrow <= 1,
            magnitude(r@) + prefix_value(b@, i as nat) == prefix_value(a@, i as nat) + borrow
                * radix_pow(i as nat),
        decreases n - i,
    {
        let x: u32 = limb_at(a, i);
        let y: u32 = limb_at(b, i);
        let take: u64 = y as u64 + borrow;
        let lo: u32;
        let next: u64;
        if x as u64 >= take {
            lo = (x as u64 - take) as u32;
            next = 0;
        } else {
            lo = (x as u64 + LIMB_RADIX - take) as u32;
            next = 1;
        }
        proof {
            lemma_magnitude_push(r@, lo);
            let p: int = radix_pow(i as nat) as int;
            assert(radix_pow((i + 1) as nat) == 4294967296 * p);
            assert(lo * p + y * p + borrow * p == x * p + next * (4294967296 * p))
                by (nonlinear_arith)
                requires
                    lo + y + borrow == x + next * 4294967296,
            ;
        }
        r.push(lo);
        borrow = next;
        i = i + 1;
    }
    proof {
        lemma_prefix_beyond(a@, n as nat);
        lemma_prefix_beyond(b@, n as nat);
        lemma_prefix_bound(r@, n as nat);
        assert(borrow * radix_pow(n as nat) == if borrow == 1 {
            radix_pow(n as nat) as int
        } else {
            0
        }) by (nonlinear_arith)
            requires
                borrow <= 1,
        ;
    }
    r
}

/// Three-way comparison of two magnitudes: -1, 0 or 1.
fn order_limbs(a: &Vec<u32>, b: &Vec<u32>) -> (r: i8)
    ensures
        r == -1 <==> magnitude(a@) < magnitude(b@),
        r == 0 <==> magnitude(a@) == magnitude(b@),
        r == 1 <==> magnitude(a@) > magnitude(b@),
{
    let n: usize = larger_len(a, b);
    let mut i: usize = n;
    proof {
        lemma_prefix_beyond(a@, n as nat);
        lemma_prefix_beyond(b@, n as nat);
    }
    while i > 0
        invariant
            i <= n,
            magnitude(a@) - prefix_value(a@, i as nat) == magnitude(b@) - prefix_value(
                b@,
                i as nat,
            ),
        decreases i,
    {
        let x: u32 = limb_at(a, i - 1);
        let y: u32 = limb_at(b, i - 1);
        proof {
            lemma_prefix_bound(a@, (i - 1) as nat);
            lemma_prefix_bound(b@, (i - 1) as nat);
            let p: int = radix_pow((i - 1) as nat) as int;
            if x < y {
                assert(x * p + p <= y * p) by (nonlinear_arith)
                    requires
                        x + 1 <= y,
                        0 <= p,
                ;
            }
            if y < x {
                assert(y * p + p <= x * p) by (nonlinear_arith)
                    requires
                        y + 1 <= x,
                        0 <= p,
                ;
            }
        }
        if x < y {
            return -1;
        }
        if x > y {
            return 1;
        }
        i = i - 1;
    }
    0
}

/// Product of a magnitude and one limb.
fn scale_limbs(a: &Vec<u32>, m: u32) -> (r: Vec<u32>)
    ensures
        magnitude(r@) == magnitude(a@) * m,
{
    let n: usize = a.len();
    let mut r: Vec<u32> = Vec::new();
    let mut carry: u64 = 0;
    let mut i: usize = 0;
    assert(0 * m == 0) by (nonlinear_arith);
    while i < n
        invariant
            i <= n,
            n == a.len(),
            r.len() == i,
            carry < LIMB_RADIX,
            magnitude(r@) + carry * radix_pow(i as nat) == prefix_value(a@, i as nat) * m,
        decreases n - i,
    {
        let x: u32 = a[i];
        assert(x * m <= 4294967295 * 4294967295) by (nonlinear_arith)
            requires
                0 <= x <= 4294967295,
                0 <= m <= 4294967295,
        ;
        let t: u64 = x as u64 * m as u64 + carry;
        let lo: u32 = (t % LIMB_RADIX) as u32;
        let hi: u64 = t / LIMB_RADIX;
        proof {
            lemma_magnitude_push(r@, lo);
            let p: int = radix_pow(i as nat) as int;
            let pre: int = prefix_value(a@, i as nat) as int;
            assert(radix_pow((i + 1) as nat) == 4294967296 * p);
            assert(lo * p + hi * (4294967296 * p) == (x * m) * p + carry * p) by (nonlinear_arith)
                requires
                    lo + hi * 4294967296 == x * m + carry,
            ;
            assert((pre + x * p) * m == pre * m + (x * m) * p) by (nonlinear_arith);
        }
        r.push(lo);
        carry = hi;
        i = i + 1;
    }
    proof {
        lemma_magnitude_push(r@, carry as u32);
    }
    r.push(carry as u32);
    r
}

/// A magnitude moved up by `k` limbs.
fn shift_limbs(a: &Vec<u32>, k: usize) -> (r: Vec<u32>)
    ensures
        magnitude(r@) == magnitude(a@) * radix_pow(k as nat),
{
    let mut r: Vec<u32> = Vec::new();
    let mut i: usize = 0;
    while i < k
        invariant
            i <= k,
            r.len() == i,
            magnitude(r@) == 0,
        decreases k - i,
    {
        proof {
            lemma_magnitude_push(r@, 0);
            assert(0 * radix_pow(r@.len()) == 0);
        }
        r.push(0);
        i = i + 1;
    }
    let n: usize = a.len();
    let mut j: usize = 0;
    assert(0 * radix_pow(k as nat) == 0);
    while j < n
        invariant
            j <= n,
            n == a.len(),
            r.len() == k + j,
            magnitude(r@) == prefix_value(a@, j as nat) * radix_pow(k as nat),
        decreases n - j,
    {
        let x: u32 = a[j];
        proof {
            lemma_magnitude_push(r@, x);
            lemma_radix_pow_add(j as nat, k as nat);
            let pj: int = radix_pow(j as nat) as int;
            let pk: int = radix_pow(k as nat) as int;
            let pre: int = prefix_value(a@, j as nat) as int;
            assert((pre + x * pj) * pk == pre * pk + x * (pj * pk)) by (nonlinear_arith);
        }
        r.push(x);
        j = j + 1;
    }
    r
}

/// A zero limb at the significant end can be dropped.
proof fn lemma_magnitude_drop_zero(s: Seq<u32>)
    requires
        s.len() > 0,
        s.last() == 0,
    ensures
        magnitude(s.drop_last()) == magnitude(s),
{
    let t = s.drop_last();
    assert forall|i: int| 0 <= i < t.len() implies limb(s, i) == limb(t, i) by {}
    lemma_prefix_agree(s, t, t.len());
    assert(limb(s, s.len() - 1) == 0);
    assert(limb(s, s.len() - 1) * radix_pow((s.len() - 1) as nat) == 0) by (nonlinear_arith)
        requires
            limb(s, s.len() - 1) == 0,
    ;
}

/// Drops the zero limbs at the significant end: `a` up to its last limb that is not zero.
fn trim_limbs(a: Vec<u32>) -> (r: Vec<u32>)
    ensures
        magnitude(r@) == magnitude(a@),
        r@.len() <= a@.len(),
        r@ == a@.subrange(0, r@.len() as int),
        forall|i: int| r@.len() <= i < a@.len() ==> a@[i] == 0,
        r@.len() == 0 || r@[r@.len() - 1] != 0,
{
    let mut r: Vec<u32> = a;
    while r.len() > 0
        invariant
            magnitude(r@) == magnitude(a@),
            r@.len() <= a@.len(),
            r@ == a@.subrange(0, r@.len() as int),
            forall|i: int| r@.len() <= i < a@.len() ==> a@[i] == 0,
        decreases r.len(),
    {
        if r[r.len() - 1] != 0 {
            return r;
        }
        proof {
            lemma_magnitude_drop_zero(r@);
            assert(r@.drop_last() == a@.subrange(0, r@.len() - 1));
        }
        r.pop();
    }
    r
}

/// Product of two magnitudes.
fn mul_limbs(a: &Vec<u32>, b: &Vec<u32>) -> (r: Vec<u32>)
    ensures
        magnitude(r@) == magnitude(a@) * magnitude(b@),
{
    let n: usize = b.len();
    let mut acc: Vec<u32> = Vec::new();
    let mut i: usize = 0;
    assert(magnitude(a@) * 0 == 0);
    while i < n
        invariant
            i <= n,
            n == b.len(),
            magnitude(acc@) == magnitude(a@) * prefix_value(b@, i as nat),
        decreases n - i,
    {
        let y: u32 = b[i];
        if y != 0 {
            let row: Vec<u32> = scale_limbs(a, y);
            let moved: Vec<u32> = shift_limbs(&row, i);
            acc = add_limbs(&acc, &moved);
        }
        proof {
            let av: int = magnitude(a@) as int;
            let pre: int = prefix_value(b@, i as nat) as int;
            let p: int = radix_pow(i as nat) as int;
            assert(av * (pre + y * p) == av * pre + (av * y) * p) by (nonlinear_arith);
            if y == 0 {
                assert(av * (pre + 0 * p) == av * pre) by (nonlinear_arith);
            }
        }
        i = i + 1;
    }
    trim_limbs(acc)
}

/// An integer of any size.
pub struct BigInt {
    negative: bool,
    limbs: Vec<u32>,
}

impl View for BigInt {
    type V = int;

    closed spec fn view(&self) -> int {
        if self.negative {
            -(magnitude(self.limbs@) as int)
        } else {
            magnitude(self.limbs@) as int
        }
    }
}

impl BigInt {
    /// The integer `v`.
    pub fn from_u128(v: u128) -> (r: BigInt)
        ensures
            r@ == v,
    {
        let radix: u128 = LIMB_RADIX as u128;
        let l0: u32 = (v % radix) as u32;
        let v1: u128 = v / radix;
        let l1: u32 = (v1 % radix) as u32;
        let v2: u128 = v1 / radix;
        let l2: u32 = (v2 % radix) as u32;
        let v3: u128 = v2 / radix;
        let l3: u32 = v3 as u32;
        let mut limbs: Vec<u32> = Vec::new();
        proof {
            let s0: Seq<u32> = limbs@;
            let s1: Seq<u32> = s0.push(l0);
            let s2: Seq<u32> = s1.push(l1);
            let s3: Seq<u32> = s2.push(l2);
            lemma_magnitude_push(s0, l0);
            lemma_magnitude_push(s1, l1);
            lemma_magnitude_push(s2, l2);
            lemma_magnitude_push(s3, l3);
            reveal_with_fuel(radix_pow, 5);
            assert(radix_pow(0) == 1);
            assert(radix_pow(1) == 0x1_0000_0000);
            assert(radix_pow(2) == 0x1_0000_0000_0000_0000);
            assert(radix_pow(3) == 0x1_0000_0000_0000_0000_0000_0000);
            assert(v1 == l1 + 0x1_0000_0000 * v2);
            assert(v2 == l2 + 0x1_0000_0000 * l3);
            assert(v == l0 + 0x1_0000_0000 * v1);
            let r0: int = radix_pow(0) as int;
            let r1: int = radix_pow(1) as int;
            let r2: int = radix_pow(2) as int;
            let r3: int = radix_pow(3) as int;
            assert(l0 * r0 == l0) by (nonlinear_arith)
                requires
                    r0 == 1,
            ;
            assert(l1 * r1 == l1 * 0x1_0000_0000) by (nonlinear_arith)
                requires
                    r1 == 0x1_0000_0000,
            ;
            assert(l2 * r2 == l2 * 0x1_0000_0000_0000_0000) by (nonlinear_arith)
                requires
                    r2 == 0x1_0000_0000_0000_0000,
            ;
            assert(l3 * r3 == l3 * 0x1_0000_0000_0000_0000_0000_0000) by (nonlinear_arith)
                requires
                    r3 == 0x1_0000_0000_0000_0000_0000_0000,
            ;
            assert(magnitude(s3.push(l3)) == v);
        }
        limbs.push(l0);
        limbs.push(l1);
        limbs.push(l2);
        limbs.push(l3);
        assert(limbs@ == Seq::<u32>::empty().push(l0).push(l1).push(l2).push(l3));
        BigInt { negative: false, limbs: trim_limbs(limbs) }
    }

    /// The integer `v`.
    pub fn from_i128(v: i128) -> (r: BigInt)
        ensures
            r@ == v,
    {
        if v >= 0 {
            BigInt::from_u128(v as u128)
        } else {
            let m: u128 = (-(v + 1)) as u128 + 1;
            let p: BigInt = BigInt::from_u128(m);
            BigInt { negative: true, limbs: p.limbs }
        }
    }

    /// The integer `v`.
    pub fn from_i64(v: i64) -> (r: BigInt)
        ensures
            r@ == v,
    {
        BigInt::from_i128(v as i128)
    }

    /// The integer `v`.
    pub fn from_u64(v: u64) -> (r: BigInt)
        ensures
            r@ == v,
    {
        BigInt::from_u128(v as u128)
    }

    /// Whether the integer is below zero.
    pub fn is_negative(&self) -> (r: bool)
        ensures
            r == (self@ < 0),
    {
        self.negative && order_limbs(&self.limbs, &Vec::new()) != 0
    }

    /// Whether the integer is zero.
    pub fn is_zero(&self) -> (r: bool)
        ensures
            r == (self@ == 0),
    {
        order_limbs(&self.limbs, &Vec::new()) == 0
    }

    /// The integer with its sign turned.
    pub fn negated(&self) -> (r: BigInt)
        ensures
            r@ == -self@,
    {
        BigInt { negative: !self.negative, limbs: self.limbs.clone() }
    }

    /// The sum of two integers.
    pub fn plus(&self, other: &BigInt) -> (r: BigInt)
        ensures
            r@ == self@ + other@,
    {
        if self.negative == other.negative {
            BigInt { negative: self.negative, limbs: add_limbs(&self.limbs, &other.limbs) }
        } else if order_limbs(&self.limbs, &other.limbs) >= 0 {
            BigInt {
                negative: self.negative,
                limbs: trim_limbs(sub_limbs(&self.limbs, &other.limbs)),
            }
        } else {
            BigInt {
                negative: other.negative,
                limbs: trim_limbs(sub_limbs(&other.limbs, &self.limbs)),
            }
        }
    }

    /// The difference of two integers.
    pub fn minus(&self, other: &BigInt) -> (r: BigInt)
        ensures
            r@ == self@ - other@,
    {
        let turned: BigInt = BigInt { negative: !other.negative, limbs: other.limbs.clone() };
        self.plus(&turned)
    }

    /// The product of two integers.
    pub fn times(&self, other: &BigInt) -> (r: BigInt)
        ensures
            r@ == self@ * other@,
    {
        // the rows of the product are as many as the second factor has limbs
        let limbs: Vec<u32> = if self.limbs.len() <= other.limbs.len() {
            mul_limbs(&other.limbs, &self.limbs)
        } else {
            mul_limbs(&self.limbs, &other.limbs)
        };
        proof {
            let a: int = magnitude(self.limbs@) as int;
            let b: int = magnitude(other.limbs@) as int;
            assert(b * a == a * b) by (nonlinear_arith);
            assert((-a) * b == -(a * b)) by (nonlinear_arith);
            assert(a * (-b) == -(a * b)) by (nonlinear_arith);
            assert((-a) * (-b) == a * b) by (nonlinear_arith);
        }
        BigInt { negative: self.negative != other.negative, limbs }
    }

    /// Whether `self` is below `other`.
    pub fn less_than(&self, other: &BigInt) -> (r: bool)
        ensures
            r == (self@ < other@),
    {
        let order: i8 = order_limbs(&self.limbs, &other.limbs);
        if self.negative == other.negative {
            if self.negative {
                order == 1
            } else {
                order == -1
            }
        } else if self.negative {
            !(self.is_zero() && other.is_zero())
        } else {
            false
        }
    }

    /// Whether `self` is at most `other`.
    pub fn at_most(&self, other: &BigInt) -> (r: bool)
        ensures
            r == (self@ <= other@),
    {
        !other.less_than(self)
    }
}

} // verus!
