//! Load figures as exact decimal numbers, read from their text and compared
//! by value.

use vstd::prelude::*;

verus! {

/// Ten to the power `n`.
pub open spec fn pow10(n: nat) -> nat
    decreases n,
{
    if n == 0 {
        1
    } else {
        10 * pow10((n - 1) as nat)
    }
}

pub proof fn lemma_pow10_positive(n: nat)
    ensures
        pow10(n) >= 1,
    decreases n,
{
    if n > 0 {
        lemma_pow10_positive((n - 1) as nat);
    }
}

pub proof fn lemma_pow10_add(a: nat, b: nat)
    ensures
        pow10(a + b) == pow10(a) * pow10(b),
    decreases b,
{
    if b == 0 {
        assert(pow10(0) == 1);
    } else {
        lemma_pow10_add(a, (b - 1) as nat);
        assert(pow10(a + b) == 10 * pow10((a + b - 1) as nat));
        assert(pow10(a) * pow10(b) == pow10(a) * (10 * pow10((b - 1) as nat)));
        assert(pow10(a) * (10 * pow10((b - 1) as nat)) == 10 * (pow10(a) * pow10(
            (b - 1) as nat,
        ))) by (nonlinear_arith);
    }
}

/// A non-negative decimal number: `mantissa / 10^scale`. "0.42" is held as
/// mantissa 42 and scale 2; "0.420" as 420 and 3, the same value.
#[derive(Clone, Copy, Debug, PartialEq, Eq, Structural)]
pub struct Load {
    pub mantissa: u128,
    pub scale: usize,
}

impl Load {
    /// The value is at most that of `other`.
    pub open spec fn at_most(self, other: Load) -> bool {
        self.mantissa * pow10(other.scale as nat) <= other.mantissa * pow10(self.scale as nat)
    }

    /// The value is below that of `other`.
    pub open spec fn below(self, other: Load) -> bool {
        !other.at_most(self)
    }

    /// Both stand for the same number.
    pub open spec fn same_value(self, other: Load) -> bool {
        self.at_most(other) && other.at_most(self)
    }
}


/// Loads are ordered by value: "at most" passes along a chain.
pub proof fn lemma_at_most_transitive(a: Load, b: Load, c: Load)
    requires
        a.at_most(b),
        b.at_most(c),
    ensures
        a.at_most(c),
{
    let pa = pow10(a.scale as nat);
    let pb = pow10(b.scale as nat);
    let pc = pow10(c.scale as nat);
    lemma_pow10_positive(b.scale as nat);
    let (ma, mb, mc) = (a.mantissa as int, b.mantissa as int, c.mantissa as int);
    assert(ma * pc <= mc * pa) by (nonlinear_arith)
        requires
            ma * pb <= mb * pa,
            mb * pc <= mc * pb,
            pa >= 0,
            pb >= 1,
            pc >= 0,
    {
        assert(ma * pb * pc <= mb * pa * pc);
        assert(mb * pc * pa <= mc * pb * pa);
        assert((ma * pc) * pb <= (mc * pa) * pb);
    }
}

/// `m * 10^k`, or `None` where that exceeds `u128::MAX`.
fn scale_up(m: u128, k: usize) -> (r: Option<u128>)
    ensures
        r matches Some(x) ==> x == m * pow10(k as nat),
        r is None ==> m * pow10(k as nat) > u128::MAX,
{
    let mut x: u128 = m;
    let mut i: usize = 0;
    assert(pow10(0) == 1);
    while i < k
        invariant
            i <= k,
            x == m * pow10(i as nat),
        decreases k - i,
    {
        if x > u128::MAX / 10 {
            proof {
                lemma_pow10_add((i + 1) as nat, (k - i - 1) as nat);
                lemma_pow10_positive((k - i - 1) as nat);
                let p = pow10((k - i - 1) as nat);
                assert(pow10((i + 1) as nat) == 10 * pow10(i as nat));
                assert(m * pow10(k as nat) == (10 * x) * p) by (nonlinear_arith)
                    requires
                        x == m * pow10(i as nat),
                        pow10(k as nat) == pow10((i + 1) as nat) * p,
                        pow10((i + 1) as nat) == 10 * pow10(i as nat),
                ;
                assert((10 * x) * p >= 10 * x) by (nonlinear_arith)
                    requires
                        p >= 1,
                        x >= 0,
                ;
            }
            return None;
        }
        proof {
            assert(pow10((i + 1) as nat) == 10 * pow10(i as nat));
            assert(x * 10 == m * pow10((i + 1) as nat)) by (nonlinear_arith)
                requires
                    x == m * pow10(i as nat),
                    pow10((i + 1) as nat) == 10 * pow10(i as nat),
            ;
        }
        x = x * 10;
        i = i + 1;
    }
    Some(x)
}

/// `a * 10^d <= b` is `a * 10^(s + d) <= b * 10^s`.
proof fn lemma_compare_scaled(a: nat, b: nat, s: nat, d: nat)
    ensures
        (a * pow10(d) <= b) == (a * pow10(s + d) <= b * pow10(s)),
        (b <= a * pow10(d)) == (b * pow10(s) <= a * pow10(s + d)),
{
    lemma_pow10_add(d, s);
    lemma_pow10_positive(s);
    let p = pow10(s);
    assert(a * pow10(s + d) == (a * pow10(d)) * p) by (nonlinear_arith)
        requires
            pow10(d + s) == pow10(d) * p,
            s + d == d + s,
    ;
    let x = a * pow10(d);
    assert((x <= b) == (x * p <= b * p)) by (nonlinear_arith)
        requires
            p >= 1,
    ;
    assert((b <= x) == (b * p <= x * p)) by (nonlinear_arith)
        requires
            p >= 1,
    ;
}

/// Whether `a` is at most `b` as a number.
pub fn load_at_most(a: Load, b: Load) -> (r: bool)
    ensures
        r == a.at_most(b),
{
    if a.scale <= b.scale {
        let d: usize = b.scale - a.scale;
        proof {
            lemma_compare_scaled(a.mantissa as nat, b.mantissa as nat, a.scale as nat, d as nat);
        }
        match scale_up(a.mantissa, d) {
            Some(x) => x <= b.mantissa,
            None => false,
        }
    } else {
        let d: usize = a.scale - b.scale;
        proof {
            lemma_compare_scaled(b.mantissa as nat, a.mantissa as nat, b.scale as nat, d as nat);
        }
        match scale_up(b.mantissa, d) {
            Some(y) => a.mantissa <= y,
            None => true,
        }
    }
}

} // verus!
