//! Natural numbers of any size, for the sums and products that do not fit a
//! machine word.

use vstd::prelude::*;

verus! {

/// The base of the limbs: two to the power of 64.
pub open spec fn base() -> nat {
    0x1_0000_0000_0000_0000
}

/// The base to the power of `n`.
pub open spec fn power(n: nat) -> nat
    decreases n,
{
    if n == 0 {
        1
    } else {
        base() * power((n - 1) as nat)
    }
}

/// The number that limbs stand for, the least significant first.
pub open spec fn value(limbs: Seq<u64>) -> nat
    decreases limbs.len(),
{
    if limbs.len() == 0 {
        0
    } else {
        limbs[0] as nat + base() * value(limbs.drop_first())
    }
}

/// The limb at a position; zero beyond the last.
pub open spec fn limb(limbs: Seq<u64>, i: int) -> nat {
    if 0 <= i < limbs.len() {
        limbs[i] as nat
    } else {
        0
    }
}

/// The number that the limbs below position `i` stand for.
pub open spec fn low(limbs: Seq<u64>, i: int) -> nat {
    if i <= limbs.len() {
        value(limbs.take(i))
    } else {
        value(limbs)
    }
}

/// The number that the limbs from position `i` on stand for.
pub open spec fn high(limbs: Seq<u64>, i: int) -> nat {
    if i <= limbs.len() {
        value(limbs.skip(i))
    } else {
        0
    }
}

proof fn lemma_power_step(n: nat)
    ensures
        power(n + 1) == base() * power(n),
        power(n) >= 1,
    decreases n,
{
    if n > 0 {
        lemma_power_step((n - 1) as nat);
        assert(base() * power((n - 1) as nat) >= 1) by (nonlinear_arith)
            requires
                power((n - 1) as nat) >= 1,
                base() >= 1,
        ;
    }
}

proof fn lemma_power_grows(m: nat, n: nat)
    requires
        m <= n,
    ensures
        power(m) <= power(n),
    decreases n - m,
{
    if m < n {
        lemma_power_grows(m + 1, n);
        lemma_power_step(m);
        assert(power(m) <= base() * power(m)) by (nonlinear_arith)
            requires
                base() >= 1,
        ;
    }
}

proof fn lemma_value_push(limbs: Seq<u64>, x: u64)
    ensures
        value(limbs.push(x)) == value(limbs) + x * power(limbs.len()),
    decreases limbs.len(),
{
    let pushed = limbs.push(x);
    if limbs.len() == 0 {
        assert(pushed.drop_first() =~= Seq::<u64>::empty());
        assert(value(pushed) == x + base() * value(pushed.drop_first()));
        assert(base() * 0 == 0) by (nonlinear_arith);
        assert(x * power(0) == x) by (nonlinear_arith)
            requires
                power(0) == 1,
        ;
    } else {
        let rest = limbs.drop_first();
        lemma_value_push(rest, x);
        assert(pushed.drop_first() =~= rest.push(x));
        assert(pushed[0] == limbs[0]);
        assert(value(pushed) == limbs[0] + base() * value(rest.push(x)));
        lemma_power_step(rest.len());
        assert(power(limbs.len()) == base() * power(rest.len()));
        let b = base();
        let v = value(rest);
        let p = power(rest.len());
        assert(b * (v + x * p) == b * v + x * (b * p)) by (nonlinear_arith);
    }
}

proof fn lemma_value_bound(limbs: Seq<u64>)
    ensures
        value(limbs) < power(limbs.len()),
    decreases limbs.len(),
{
    if limbs.len() > 0 {
        let rest = limbs.drop_first();
        lemma_value_bound(rest);
        lemma_power_step(rest.len());
        let b = base();
        let v = value(rest);
        let p = power(rest.len());
        assert(b * v + b <= b * p) by (nonlinear_arith)
            requires
                v + 1 <= p,
        ;
    }
}

proof fn lemma_value_split(limbs: Seq<u64>, i: int)
    requires
        0 <= i <= limbs.len(),
    ensures
        value(limbs) == value(limbs.take(i)) + power(i as nat) * value(limbs.skip(i)),
    decreases i,
{
    if i == 0 {
        assert(limbs.take(0) =~= Seq::<u64>::empty());
        assert(limbs.skip(0) =~= limbs);
        assert(power(0) * value(limbs) == value(limbs)) by (nonlinear_arith)
            requires
                power(0) == 1,
        ;
    } else {
        let rest = limbs.drop_first();
        lemma_value_split(rest, i - 1);
        assert(limbs.take(i).drop_first() =~= rest.take(i - 1));
        assert(limbs.skip(i) =~= rest.skip(i - 1));
        lemma_power_step((i - 1) as nat);
        let b = base();
        let t = value(rest.take(i - 1));
        let p = power((i - 1) as nat);
        let s = value(rest.skip(i - 1));
        assert(b * (t + p * s) == b * t + (b * p) * s) by (nonlinear_arith);
    }
}

proof fn lemma_low_step(limbs: Seq<u64>, i: int)
    requires
        0 <= i,
    ensures
        low(limbs, i + 1) == low(limbs, i) + limb(limbs, i) * power(i as nat),
        low(limbs, i) < power(i as nat),
{
    if i < limbs.len() {
        lemma_value_push(limbs.take(i), limbs[i]);
        assert(limbs.take(i + 1) =~= limbs.take(i).push(limbs[i]));
        lemma_value_bound(limbs.take(i));
    } else {
        assert(limbs.take(limbs.len() as int) =~= limbs);
        lemma_value_bound(limbs);
        lemma_power_grows(limbs.len(), i as nat);
        assert(0 * power(i as nat) == 0) by (nonlinear_arith);
    }
}

proof fn lemma_high_step(limbs: Seq<u64>, i: int)
    requires
        0 <= i,
    ensures
        high(limbs, i) == limb(limbs, i) + base() * high(limbs, i + 1),
{
    if i < limbs.len() {
        assert(limbs.skip(i).drop_first() =~= limbs.skip(i + 1));
    } else if i == limbs.len() {
        assert(limbs.skip(i) =~= Seq::<u64>::empty());
    }
}

proof fn lemma_low_high(limbs: Seq<u64>, i: int)
    requires
        0 <= i,
    ensures
        value(limbs) == low(limbs, i) + power(i as nat) * high(limbs, i),
{
    if i <= limbs.len() {
        lemma_value_split(limbs, i);
    } else {
        assert(power(i as nat) * 0 == 0) by (nonlinear_arith);
    }
}

/// A natural number of any size.
#[derive(Debug)]
pub struct Wide {
    limbs: Vec<u64>,
}

impl View for Wide {
    type V = nat;

    closed spec fn view(&self) -> nat {
        value(self.limbs@)
    }
}

fn limb_at(limbs: &Vec<u64>, i: usize) -> (r: u64)
    ensures
        r == limb(limbs@, i as int),
{
    if i < limbs.len() {
        limbs[i]
    } else {
        0
    }
}

impl Wide {
    /// The number of a machine word of 128 bits.
    pub fn from_u128(x: u128) -> (r: Wide)
        ensures
            r@ == x,
    {
        let lo = (x % 0x1_0000_0000_0000_0000) as u64;
        let hi = (x / 0x1_0000_0000_0000_0000) as u64;
        let mut limbs: Vec<u64> = Vec::new();
        limbs.push(lo);
        limbs.push(hi);
        proof {
            let one = limbs@.drop_first();
            assert(one.drop_first() =~= Seq::<u64>::empty());
            assert(base() * 0 == 0) by (nonlinear_arith);
            assert(value(one) == hi + base() * value(one.drop_first()));
            assert(value(limbs@) == lo + base() * value(one));
        }
        Wide { limbs: limbs }
    }

    /// The sum of two numbers.
    pub fn plus(&self, other: &Wide) -> (r: Wide)
        ensures
            r@ == self@ + other@,
    {
        let n = if self.limbs.len() >= other.limbs.len() {
            self.limbs.len()
        } else {
            other.limbs.len()
        };
        let ghost a = self.limbs@;
        let ghost b = other.limbs@;
        let mut out: Vec<u64> = Vec::new();
        let mut carry: u64 = 0;
        let mut i: usize = 0;
        proof {
            assert(a.take(0) =~= Seq::<u64>::empty());
            assert(b.take(0) =~= Seq::<u64>::empty());
            assert(0 * power(0) == 0) by (nonlinear_arith);
        }
        while i < n
            invariant
                i <= n,
                n >= self.limbs@.len(),
                n >= other.limbs@.len(),
                a == self.limbs@,
                b == other.limbs@,
                out@.len() == i,
                carry <= 1,
                value(out@) + carry * power(i as nat) == low(a, i as int) + low(b, i as int),
            decreases n - i,
        {
            let x = limb_at(&self.limbs, i);
            let y = limb_at(&other.limbs, i);
            let sum: u128 = x as u128 + y as u128 + carry as u128;
            let digit = (sum % 0x1_0000_0000_0000_0000) as u64;
            let next = (sum / 0x1_0000_0000_0000_0000) as u64;
            proof {
                lemma_low_step(a, i as int);
                lemma_low_step(b, i as int);
                lemma_value_push(out@, digit);
                lemma_power_step(i as nat);
                let p = power(i as nat);
                assert(digit * p + next * (base() * p) == (x + y + carry) * p) by (nonlinear_arith)
                    requires
                        digit + next * base() == x + y + carry,
                ;
                assert((x + y + carry) * p == x * p + y * p + carry * p) by (nonlinear_arith);
            }
            out.push(digit);
            carry = next;
            i += 1;
        }
        proof {
            lemma_value_push(out@, carry);
            assert(a.take(a.len() as int) =~= a);
            assert(b.take(b.len() as int) =~= b);
        }
        out.push(carry);
        Wide { limbs: out }
    }

    /// The product with a machine word.
    pub fn times(&self, m: u64) -> (r: Wide)
        ensures
            r@ == self@ * m,
    {
        let ghost a = self.limbs@;
        let mut out: Vec<u64> = Vec::new();
        let mut carry: u64 = 0;
        let mut i: usize = 0;
        proof {
            assert(a.take(0) =~= Seq::<u64>::empty());
            assert(0 * power(0) == 0) by (nonlinear_arith);
            assert(0 * m == 0) by (nonlinear_arith);
        }
        while i < self.limbs.len()
            invariant
                i <= self.limbs@.len(),
                a == self.limbs@,
                out@.len() == i,
                value(out@) + carry * power(i as nat) == low(a, i as int) * m,
            decreases self.limbs@.len() - i,
        {
            let x = self.limbs[i];
            assert(x as u128 * m as u128 + carry as u128 <= 0xFFFF_FFFF_FFFF_FFFF
                * 0xFFFF_FFFF_FFFF_FFFF + 0xFFFF_FFFF_FFFF_FFFF) by (nonlinear_arith)
                requires
                    x <= 0xFFFF_FFFF_FFFF_FFFF,
                    m <= 0xFFFF_FFFF_FFFF_FFFF,
                    carry <= 0xFFFF_FFFF_FFFF_FFFF,
            ;
            let product: u128 = x as u128 * m as u128 + carry as u128;
            let digit = (product % 0x1_0000_0000_0000_0000) as u64;
            let next = (product / 0x1_0000_0000_0000_0000) as u64;
            proof {
                lemma_low_step(a, i as int);
                lemma_value_push(out@, digit);
                lemma_power_step(i as nat);
                let p = power(i as nat);
                let l = low(a, i as int);
                assert(digit * p + next * (base() * p) == (x * m + carry) * p) by (nonlinear_arith)
                    requires
                        digit + next * base() == x * m + carry,
                ;
                assert((x * m + carry) * p + l * m == (l + x * p) * m + carry * p)
                    by (nonlinear_arith);
            }
            out.push(digit);
            carry = next;
            i += 1;
        }
        proof {
            lemma_value_push(out@, carry);
            assert(a.take(a.len() as int) =~= a);
        }
        out.push(carry);
        Wide { limbs: out }
    }

    /// The product with the base: a limb of zero below all others.
    fn shifted(&self) -> (r: Wide)
        ensures
            r@ == base() * self@,
    {
        let mut out: Vec<u64> = Vec::new();
        out.push(0);
        let mut i: usize = 0;
        while i < self.limbs.len()
            invariant
                i <= self.limbs@.len(),
                out@ == seq![0u64] + self.limbs@.take(i as int),
            decreases self.limbs@.len() - i,
        {
            out.push(self.limbs[i]);
            assert(out@ =~= seq![0u64] + self.limbs@.take(i + 1));
            i += 1;
        }
        proof {
            assert(self.limbs@.take(i as int) =~= self.limbs@);
            assert(out@.drop_first() =~= self.limbs@);
        }
        Wide { limbs: out }
    }

    /// The product of two numbers.
    pub fn product(&self, other: &Wide) -> (r: Wide)
        ensures
            r@ == self@ * other@,
    {
        let ghost b = other.limbs@;
        let mut acc = Wide { limbs: Vec::new() };
        let mut j: usize = other.limbs.len();
        proof {
            assert(b.skip(j as int) =~= Seq::<u64>::empty());
            assert(self@ * 0 == 0) by (nonlinear_arith);
        }
        while j > 0
            invariant
                j <= other.limbs@.len(),
                b == other.limbs@,
                acc@ == self@ * high(b, j as int),
            decreases j,
        {
            j -= 1;
            let part = self.times(other.limbs[j]);
            let moved = acc.shifted();
            proof {
                lemma_high_step(b, j as int);
                let a = self@;
                let h = high(b, j + 1);
                let d = b[j as int] as nat;
                assert(base() * (a * h) + a * d == a * (d + base() * h)) by (nonlinear_arith);
            }
            acc = moved.plus(&part);
        }
        proof {
            assert(b.skip(0) =~= b);
        }
        acc
    }

    /// Whether this number is at least the other.
    pub fn at_least(&self, other: &Wide) -> (r: bool)
        ensures
            r == (self@ >= other@),
    {
        let n = if self.limbs.len() >= other.limbs.len() {
            self.limbs.len()
        } else {
            other.limbs.len()
        };
        let ghost a = self.limbs@;
        let ghost b = other.limbs@;
        let mut i: usize = n;
        proof {
            assert(a.skip(a.len() as int) =~= Seq::<u64>::empty());
            assert(b.skip(b.len() as int) =~= Seq::<u64>::empty());
        }
        while i > 0
            invariant
                i <= n,
                a == self.limbs@,
                b == other.limbs@,
                high(a, i as int) == high(b, i as int),
            decreases i,
        {
            i -= 1;
            let x = limb_at(&self.limbs, i);
            let y = limb_at(&other.limbs, i);
            proof {
                lemma_high_step(a, i as int);
                lemma_high_step(b, i as int);
                lemma_low_high(a, i as int);
                lemma_low_high(b, i as int);
                lemma_low_step(a, i as int);
                lemma_low_step(b, i as int);
                let p = power(i as nat);
                let ha = high(a, i as int);
                let hb = high(b, i as int);
                if x > y {
                    assert(p * ha >= p * hb + p) by (nonlinear_arith)
                        requires
                            ha >= hb + 1,
                    ;
                }
                if x < y {
                    assert(p * hb >= p * ha + p) by (nonlinear_arith)
                        requires
                            hb >= ha + 1,
                    ;
                }
            }
            if x > y {
                return true;
            }
            if x < y {
                return false;
            }
        }
        proof {
            assert(a.skip(0) =~= a);
            assert(b.skip(0) =~= b);
        }
        true
    }
}

} // verus!
