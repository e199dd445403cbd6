//! Natural numbers of any size.
use crate::rounding::two;
use vstd::prelude::*;

verus! {

/// A natural number as digits to the base of two to the power 32, the lowest
/// first.
pub struct Natural {
    pub limbs: Vec<u32>,
}

/// What a digit at a place counts.
pub open spec fn base(i: nat) -> nat
    decreases i,
{
    if i == 0 {
        1
    } else {
        0x1_0000_0000 * base((i - 1) as nat)
    }
}

/// The digit at a place, zero beyond the last.
pub open spec fn limb(s: Seq<u32>, i: int) -> nat {
    if 0 <= i < s.len() {
        s[i] as nat
    } else {
        0
    }
}

/// What the lowest `n` digits make.
pub open spec fn low(s: Seq<u32>, n: nat) -> nat
    decreases n,
{
    if n == 0 {
        0
    } else {
        low(s, (n - 1) as nat) + limb(s, n - 1) * base((n - 1) as nat)
    }
}

impl View for Natural {
    type V = nat;

    open spec fn view(&self) -> nat {
        low(self.limbs@, self.limbs@.len())
    }
}

proof fn lemma_base_pos(i: nat)
    ensures
        base(i) > 0,
    decreases i,
{
    if i > 0 {
        lemma_base_pos((i - 1) as nat);
    }
}

/// Digits beyond the last add nothing.
proof fn lemma_low_rest(s: Seq<u32>, n: nat)
    requires
        n >= s.len(),
    ensures
        low(s, n) == low(s, s.len()),
    decreases n,
{
    if n > s.len() {
        lemma_low_rest(s, (n - 1) as nat);
        let b = base((n - 1) as nat);
        assert(0 * b == 0) by (nonlinear_arith);
    }
}

proof fn lemma_low_below(s: Seq<u32>, n: nat)
    ensures
        low(s, n) < base(n),
    decreases n,
{
    if n > 0 {
        lemma_low_below(s, (n - 1) as nat);
        let b = base((n - 1) as nat);
        let x = limb(s, n - 1);
        assert(x * b + b <= 0x1_0000_0000 * b) by (nonlinear_arith)
            requires
                x + 1 <= 0x1_0000_0000,
        ;
    }
}

proof fn lemma_low_push(s: Seq<u32>, x: u32, n: nat)
    requires
        n <= s.len(),
    ensures
        low(s.push(x), n) == low(s, n),
    decreases n,
{
    if n > 0 {
        lemma_low_push(s, x, (n - 1) as nat);
    }
}

proof fn lemma_push(s: Seq<u32>, x: u32)
    ensures
        low(s.push(x), s.len() + 1) == low(s, s.len()) + x * base(s.len()),
{
    lemma_low_push(s, x, s.len());
}

fn limb_at(v: &Vec<u32>, i: usize) -> (x: u32)
    ensures
        x == limb(v@, i as int),
{
    if i < v.len() {
        v[i]
    } else {
        0
    }
}

impl Natural {
    /// The number of a machine word.
    pub fn from_word(x: u64) -> (r: Natural)
        ensures
            r@ == x,
    {
        let mut limbs: Vec<u32> = Vec::new();
        limbs.push((x % 0x1_0000_0000) as u32);
        limbs.push((x / 0x1_0000_0000) as u32);
        proof {
            let (h, l) = (limb(limbs@, 1), limb(limbs@, 0));
            assert(base(0) == 1 && base(1) == 0x1_0000_0000 * base(0));
            assert(low(limbs@, 0) == 0 && low(limbs@, 1) == l * base(0));
            assert(low(limbs@, 2) == low(limbs@, 1) + h * base(1));
            assert(l * 1 == l) by (nonlinear_arith);
        }
        Natural { limbs }
    }

    pub fn copied(&self) -> (r: Natural)
        ensures
            r@ == self@,
    {
        let mut limbs: Vec<u32> = Vec::new();
        limbs.extend_from_slice(self.limbs.as_slice());
        proof {
            assert(limbs@ =~= self.limbs@);
        }
        Natural { limbs }
    }

    /// The number, taken `k` times.
    pub fn times(&self, k: u32) -> (r: Natural)
        ensures
            r@ == self@ * k,
    {
        let mut limbs: Vec<u32> = Vec::new();
        let mut carry: u64 = 0;
        let mut i: usize = 0;
        proof {
            assert(0 * k == 0 && 0 * base(0) == 0) by (nonlinear_arith);
        }
        while i < self.limbs.len()
            invariant
                i == limbs@.len() <= self.limbs@.len(),
                carry <= 0xffff_ffff,
                low(limbs@, i as nat) + carry * base(i as nat) == low(self.limbs@, i as nat) * k,
            decreases self.limbs.len() - i,
        {
            let y: u64 = self.limbs[i] as u64;
            proof {
                assert(y * k <= 0xffff_ffff * 0xffff_ffff) by (nonlinear_arith)
                    requires
                        0 <= y <= 0xffff_ffff,
                        0 <= k <= 0xffff_ffff,
                ;
            }
            let x: u64 = y * k as u64 + carry;
            let digit: u32 = (x % 0x1_0000_0000) as u32;
            let next: u64 = x / 0x1_0000_0000;
            proof {
                let b = base(i as nat);
                let (l, s) = (low(limbs@, i as nat), low(self.limbs@, i as nat));
                lemma_push(limbs@, digit);
                assert(base((i + 1) as nat) == 0x1_0000_0000 * b);
                assert(l + digit * b + next * (0x1_0000_0000 * b) == (s + y * b) * k)
                    by (nonlinear_arith)
                    requires
                        l + carry * b == s * k,
                        digit + 0x1_0000_0000 * next == y * k + carry,
                ;
            }
            limbs.push(digit);
            carry = next;
            i = i + 1;
        }
        if carry > 0 {
            proof {
                lemma_push(limbs@, carry as u32);
            }
            limbs.push(carry as u32);
        } else {
            proof {
                assert(0 * base(i as nat) == 0) by (nonlinear_arith);
            }
        }
        Natural { limbs }
    }

    /// The sum of two numbers.
    pub fn plus(&self, other: &Natural) -> (r: Natural)
        ensures
            r@ == self@ + other@,
    {
        let n: usize = if self.limbs.len() < other.limbs.len() {
            other.limbs.len()
        } else {
            self.limbs.len()
        };
        let mut limbs: Vec<u32> = Vec::new();
        let mut carry: u64 = 0;
        let mut i: usize = 0;
        proof {
            lemma_low_rest(self.limbs@, n as nat);
            lemma_low_rest(other.limbs@, n as nat);
            assert(0 * base(0) == 0) by (nonlinear_arith);
        }
        while i < n
            invariant
                i == limbs@.len() <= n,
                carry <= 1,
                low(limbs@, i as nat) + carry * base(i as nat) == low(self.limbs@, i as nat) + low(
                    other.limbs@,
                    i as nat,
                ),
            decreases n - i,
        {
            let y: u64 = limb_at(&self.limbs, i) as u64;
            let z: u64 = limb_at(&other.limbs, i) as u64;
            let x: u64 = y + z + carry;
            let digit: u32 = (x % 0x1_0000_0000) as u32;
            let next: u64 = x / 0x1_0000_0000;
            proof {
                let b = base(i as nat);
                lemma_push(limbs@, digit);
                assert(base((i + 1) as nat) == 0x1_0000_0000 * b);
                assert(digit * b + next * (0x1_0000_0000 * b) == y * b + z * b + carry * b)
                    by (nonlinear_arith)
                    requires
                        digit + 0x1_0000_0000 * next == y + z + carry,
                ;
            }
            limbs.push(digit);
            carry = next;
            i = i + 1;
        }
        if carry > 0 {
            proof {
                lemma_push(limbs@, carry as u32);
            }
            limbs.push(carry as u32);
        } else {
            proof {
                assert(0 * base(i as nat) == 0) by (nonlinear_arith);
            }
        }
        Natural { limbs }
    }

    /// What is left of the number without another.
    pub fn minus(&self, other: &Natural) -> (r: Natural)
        requires
            other@ <= self@,
        ensures
            r@ == self@ - other@,
    {
        let n: usize = if self.limbs.len() < other.limbs.len() {
            other.limbs.len()
        } else {
            self.limbs.len()
        };
        let mut limbs: Vec<u32> = Vec::new();
        let mut borrow: u64 = 0;
        let mut i: usize = 0;
        proof {
            lemma_low_rest(self.limbs@, n as nat);
            lemma_low_rest(other.limbs@, n as nat);
            assert(0 * base(0) == 0) by (nonlinear_arith);
        }
        while i < n
            invariant
                i == limbs@.len() <= n,
                borrow <= 1,
                low(limbs@, i as nat) + low(other.limbs@, i as nat) == low(
                    self.limbs@,
                    i as nat,
                ) + borrow * base(i as nat),
            decreases n - i,
        {
            let y: u64 = limb_at(&self.limbs, i) as u64;
            let z: u64 = limb_at(&other.limbs, i) as u64;
            let x: u64 = 0x1_0000_0000 + y - z - borrow;
            let digit: u32 = (x % 0x1_0000_0000) as u32;
            let next: u64 = 1 - x / 0x1_0000_0000;
            proof {
                let b = base(i as nat);
                lemma_push(limbs@, digit);
                assert(base((i + 1) as nat) == 0x1_0000_0000 * b);
                assert(digit * b + z * b + borrow * b == y * b + next * (0x1_0000_0000 * b))
                    by (nonlinear_arith)
                    requires
                        digit + z + borrow == y + 0x1_0000_0000 * next,
                ;
            }
            limbs.push(digit);
            borrow = next;
            i = i + 1;
        }
        proof {
            lemma_low_below(limbs@, n as nat);
            let b = base(n as nat);
            assert(0 * b == 0 && 1 * b == b) by (nonlinear_arith);
        }
        Natural { limbs }
    }

    /// Whether the number is at least another.
    pub fn at_least(&self, other: &Natural) -> (r: bool)
        ensures
            r == (self@ >= other@),
    {
        let mut i: usize = if self.limbs.len() < other.limbs.len() {
            other.limbs.len()
        } else {
            self.limbs.len()
        };
        proof {
            lemma_low_rest(self.limbs@, i as nat);
            lemma_low_rest(other.limbs@, i as nat);
        }
        while i > 0
            invariant
                self@ - low(self.limbs@, i as nat) == other@ - low(other.limbs@, i as nat),
            decreases i,
        {
            i = i - 1;
            let y: u32 = limb_at(&self.limbs, i);
            let z: u32 = limb_at(&other.limbs, i);
            if y != z {
                proof {
                    let b = base(i as nat);
                    lemma_low_below(self.limbs@, i as nat);
                    lemma_low_below(other.limbs@, i as nat);
                    assert(y > z ==> y * b >= z * b + b) by (nonlinear_arith);
                    assert(y < z ==> z * b >= y * b + b) by (nonlinear_arith);
                }
                return y > z;
            }
        }
        true
    }

    /// The number times a power of two.
    pub fn shifted(&self, e: u32) -> (r: Natural)
        ensures
            r@ == self@ * two(e as nat),
    {
        let mut r = self.copied();
        let mut i: u32 = 0;
        proof {
            assert(self@ * 1 == self@) by (nonlinear_arith);
        }
        while i < e
            invariant
                i <= e,
                r@ == self@ * two(i as nat),
            decreases e - i,
        {
            proof {
                let (v, t) = (self@, two(i as nat));
                assert((v * t) * 2 == v * (2 * t)) by (nonlinear_arith);
            }
            r = r.times(2);
            i = i + 1;
        }
        r
    }
}

} // verus!
