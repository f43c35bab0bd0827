//! Natural numbers of any size, as far as reading decimals needs them.
use vstd::prelude::*;
use vstd::arithmetic::power2::{pow2, lemma_pow2_adds, lemma_pow2_pos, lemma2_to64};

verus! {

/// A natural number in base two to the 32, lowest digit first.
pub(crate) struct Natural {
    digits: Vec<u32>,
}

spec fn digit(s: Seq<u32>, i: int) -> nat {
    if 0 <= i < s.len() {
        s[i] as nat
    } else {
        0
    }
}

/// The number that the lowest `n` digits stand for.
spec fn low(s: Seq<u32>, n: nat) -> nat
    decreases n,
{
    if n == 0 {
        0
    } else {
        low(s, (n - 1) as nat) + digit(s, n - 1) * pow2((32 * (n - 1)) as nat)
    }
}

proof fn lemma_low_agrees(a: Seq<u32>, b: Seq<u32>, n: nat)
    requires
        forall|i: int| 0 <= i < n ==> digit(a, i) == #[trigger] digit(b, i),
    ensures
        low(a, n) == low(b, n),
    decreases n,
{
    if n > 0 {
        lemma_low_agrees(a, b, (n - 1) as nat);
        assert(digit(a, n - 1) == digit(b, n - 1));
    }
}

proof fn lemma_low_of_push(s: Seq<u32>, x: u32)
    ensures
        low(s.push(x), s.len()) == low(s, s.len()),
        low(s.push(x), s.len() + 1) == low(s, s.len()) + x * pow2(32 * s.len()),
{
    lemma_low_agrees(s.push(x), s, s.len());
}

proof fn lemma_low_beyond(s: Seq<u32>, n: nat)
    requires
        n >= s.len(),
    ensures
        low(s, n) == low(s, s.len()),
    decreases n,
{
    if n > s.len() {
        lemma_low_beyond(s, (n - 1) as nat);
        assert(0 * pow2((32 * (n - 1)) as nat) == 0);
    }
}

/// The weight of the digit `n + 1` is two to the 32 times that of the digit `n`.
proof fn lemma_weight(n: nat)
    ensures
        pow2(32 * (n + 1)) == 0x1_0000_0000 * pow2(32 * n),
        pow2(32 * n) > 0,
{
    lemma2_to64();
    lemma_pow2_adds(32, 32 * n);
    lemma_pow2_pos(32 * n);
}

proof fn lemma_low_bound(s: Seq<u32>, n: nat)
    ensures
        low(s, n) < pow2(32 * n),
    decreases n,
{
    lemma2_to64();
    if n > 0 {
        let w = pow2((32 * (n - 1)) as nat);
        lemma_low_bound(s, (n - 1) as nat);
        lemma_weight((n - 1) as nat);
        let d = digit(s, n - 1);
        assert(d * w + w <= 0x1_0000_0000 * w) by (nonlinear_arith)
            requires
                d + 1 <= 0x1_0000_0000,
        ;
    }
}

impl View for Natural {
    type V = nat;

    closed spec fn view(&self) -> nat {
        low(self.digits@, self.digits@.len())
    }
}

impl Natural {
    pub(crate) fn small(n: u32) -> (r: Natural)
        ensures
            r@ == n,
    {
        let mut digits: Vec<u32> = Vec::new();
        let ghost before = digits@;
        digits.push(n);
        proof {
            lemma_low_of_push(before, n);
            lemma2_to64();
            assert(n as nat * 1 == n as nat);
        }
        Natural { digits }
    }

    /// `self * k + a`.
    pub(crate) fn times_plus(&self, k: u32, a: u32) -> (r: Natural)
        ensures
            r@ == self@ * k + a,
    {
        let mut out: Vec<u32> = Vec::new();
        let mut carry: u64 = a as u64;
        let mut i: usize = 0;
        proof {
            lemma2_to64();
            assert(carry as nat * 1 == carry as nat);
            assert(0 * k == 0);
        }
        while i < self.digits.len()
            invariant
                i <= self.digits@.len(),
                out@.len() == i,
                carry < 0x1_0000_0000,
                low(out@, i as nat) + carry * pow2(32 * i as nat) == low(self.digits@, i as nat) * k
                    + a,
            decreases self.digits.len() - i,
        {
            let x: u32 = self.digits[i];
            proof {
                assert(x * k <= 0xffff_ffff * 0xffff_ffff) by (nonlinear_arith)
                    requires
                        x <= 0xffff_ffff,
                        k <= 0xffff_ffff,
                ;
                assert(x * k >= 0) by (nonlinear_arith);
            }
            let total: u64 = x as u64 * k as u64 + carry;
            let keep: u32 = (total % 0x1_0000_0000) as u32;
            proof {
                lemma_low_of_push(out@, keep);
                lemma_weight(i as nat);
                let w = pow2(32 * i as nat);
                let l = low(self.digits@, i as nat);
                let next = total / 0x1_0000_0000;
                assert(keep * w + next * (0x1_0000_0000 * w) == total * w) by (nonlinear_arith)
                    requires
                        total == next * 0x1_0000_0000 + keep,
                ;
                assert(total * w == (x * k) * w + carry * w) by (nonlinear_arith)
                    requires
                        total == x * k + carry,
                ;
                assert((l + x * w) * k == l * k + (x * k) * w) by (nonlinear_arith);
            }
            out.push(keep);
            carry = total / 0x1_0000_0000;
            i = i + 1;
        }
        let top: u32 = carry as u32;
        proof {
            lemma_low_of_push(out@, top);
        }
        out.push(top);
        Natural { digits: out }
    }

    fn digit_at(&self, i: usize) -> (d: u32)
        ensures
            d == digit(self.digits@, i as int),
    {
        if i < self.digits.len() {
            self.digits[i]
        } else {
            0
        }
    }

    /// `self - other`, where that is not negative.
    pub(crate) fn minus(&self, other: &Natural) -> (r: Option<Natural>)
        ensures
            match r {
                Some(d) => self@ >= other@ && d@ == self@ - other@,
                None => self@ < other@,
            },
    {
        let n: usize = if self.digits.len() >= other.digits.len() {
            self.digits.len()
        } else {
            other.digits.len()
        };
        let mut out: Vec<u32> = Vec::new();
        let mut borrow: u32 = 0;
        let mut i: usize = 0;
        proof {
            assert(0 * pow2(0) == 0);
        }
        while i < n
            invariant
                i <= n,
                out@.len() == i,
                borrow <= 1,
                low(self.digits@, i as nat) - low(other.digits@, i as nat) == low(out@, i as nat)
                    - borrow * pow2(32 * i as nat),
            decreases n - i,
        {
            let x: u64 = self.digit_at(i) as u64;
            let y: u64 = other.digit_at(i) as u64 + borrow as u64;
            let short: bool = x < y;
            let d: u32 = if short {
                (x + 0x1_0000_0000 - y) as u32
            } else {
                (x - y) as u32
            };
            let lack: u32 = if short {
                1
            } else {
                0
            };
            proof {
                lemma_low_of_push(out@, d);
                lemma_weight(i as nat);
                let w = pow2(32 * i as nat);
                let dx = digit(self.digits@, i as int);
                let dy = digit(other.digits@, i as int);
                assert(dx * w - dy * w - borrow * w == d * w - lack * (0x1_0000_0000 * w))
                    by (nonlinear_arith)
                    requires
                        dx - dy - borrow == d - lack * 0x1_0000_0000,
                ;
            }
            out.push(d);
            borrow = lack;
            i = i + 1;
        }
        proof {
            lemma_low_beyond(self.digits@, n as nat);
            lemma_low_beyond(other.digits@, n as nat);
            lemma_low_bound(out@, n as nat);
            assert(borrow == 1 ==> borrow * pow2(32 * n as nat) == pow2(32 * n as nat));
            assert(borrow == 0 ==> borrow * pow2(32 * n as nat) == 0);
        }
        if borrow == 0 {
            Some(Natural { digits: out })
        } else {
            None
        }
    }
}

} // verus!
