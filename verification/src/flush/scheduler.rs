//! Flush scheduling. The flusher wakes up every `interval_secs` seconds, and
//! at once when the fraction of dirty blocks exceeds the dirty watermark: a
//! watermark of 0 flushes after every write, a watermark of 1 leaves flushing
//! to the periodic cycle.
//!
//! The watermark is an exact fraction `num / den`; a value in `[0, 1]` has
//! `den > 0` and `num <= den`.

use vstd::prelude::*;
use vstd::string::StrSliceExecFns;

use crate::text::{decimal, decimal_text, joined};

verus! {

/// A non-negative fraction `num / den`.
#[derive(Debug, Clone, Copy, PartialEq, Eq, Structural)]
pub struct Fraction {
    /// Numerator.
    pub num: u64,
    /// Denominator.
    pub den: u64,
}

impl Fraction {
    /// The fraction lies in `[0, 1]` (and has a non-zero denominator).
    pub open spec fn in_unit_interval(self) -> bool {
        self.den > 0 && self.num <= self.den
    }

    /// `true` if the fraction lies in `[0, 1]`.
    pub fn is_unit(&self) -> (b: bool)
        ensures
            b == self.in_unit_interval(),
    {
        self.den > 0 && self.num <= self.den
    }
}

/// `10^k`.
pub open spec fn pow10(k: nat) -> nat
    decreases k,
{
    if k == 0 {
        1
    } else {
        10 * pow10((k - 1) as nat)
    }
}

/// The `k` with `10^k == den`, if `den` is a power of ten.
pub open spec fn decimal_places(den: nat) -> Option<nat> {
    if exists|k: nat| #[trigger] pow10(k) == den {
        Some(choose|k: nat| #[trigger] pow10(k) == den)
    } else {
        None
    }
}

/// `rem` over `10^k` with the trailing zero digits dropped: the digits and
/// the number of decimal places that remain.
pub open spec fn trimmed(rem: nat, k: nat) -> (nat, nat)
    decreases k,
{
    if k > 0 && rem % 10 == 0 {
        trimmed(rem / 10, (k - 1) as nat)
    } else {
        (rem, k)
    }
}

/// `n` zero digits.
pub open spec fn zeros(n: nat) -> Seq<char> {
    Seq::new(n, |i: int| '0')
}

/// How a fraction is written: in decimal notation when the denominator is a
/// power of ten, as a float's `Display` writes the same value (`0.75`,
/// `1.5`, `2`), and as `num/den` otherwise.
pub open spec fn fraction_text(w: Fraction) -> Seq<char> {
    match decimal_places(w.den as nat) {
        Some(k) => {
            let whole = decimal((w.num / w.den) as nat);
            let (r, j) = trimmed((w.num % w.den) as nat, k);
            let digits = decimal(r);
            let pad: nat = if digits.len() >= j {
                0
            } else {
                (j - digits.len()) as nat
            };
            if j == 0 {
                whole
            } else {
                whole + "."@ + zeros(pad) + digits
            }
        },
        None => decimal(w.num as nat) + "/"@ + decimal(w.den as nat),
    }
}

proof fn lemma_pow10_grows(k: nat)
    ensures
        pow10(k) >= k + 1,
    decreases k,
{
    if k > 0 {
        lemma_pow10_grows((k - 1) as nat);
    }
}

proof fn lemma_pow10_add(a: nat, b: nat)
    ensures
        pow10(a + b) == pow10(a) * pow10(b),
    decreases b,
{
    if b > 0 {
        let b1 = (b - 1) as nat;
        lemma_pow10_add(a, b1);
        assert(pow10(a + b) == 10 * pow10(a + b1));
        assert(pow10(b) == 10 * pow10(b1));
        let x = pow10(a);
        let y = pow10(b1);
        assert(x * (10 * y) == 10 * (x * y)) by (nonlinear_arith);
    } else {
        assert(pow10(b) == 1);
        assert(a + b == a);
    }
}

/// `d * 10^k` is a power of ten, for `d` not divisible by ten, only when
/// `d` is one; and then the exponent is `k`.
proof fn lemma_power_of_ten_split(d: nat, k: nat, m: nat)
    requires
        d > 0,
        d % 10 != 0,
        pow10(m) == d * pow10(k),
    ensures
        d == 1,
        m == k,
{
    lemma_pow10_grows(k);
    if m <= k {
        lemma_pow10_add(m, (k - m) as nat);
        lemma_pow10_grows((k - m) as nat);
        let p = pow10(m);
        let q = pow10((k - m) as nat);
        assert(p >= 1) by {
            lemma_pow10_grows(m);
        }
        assert(d * (p * q) == p) by {
            assert(pow10(k) == p * q);
        }
        assert(d * q == 1) by (nonlinear_arith)
            requires
                d * (p * q) == p,
                p >= 1,
        ;
        assert(d == 1 && q == 1) by (nonlinear_arith)
            requires
                d * q == 1,
                d > 0,
                q >= 1,
        ;
        if m < k {
            lemma_pow10_grows((k - m) as nat);
        }
    } else {
        lemma_pow10_add(k, (m - k) as nat);
        let q = pow10((m - k) as nat);
        assert(pow10(k) >= 1);
        assert(d * pow10(k) == q * pow10(k)) by (nonlinear_arith)
            requires
                pow10(m) == d * pow10(k),
                pow10(m) == pow10(k) * q,
        ;
        assert(d == q) by (nonlinear_arith)
            requires
                d * pow10(k) == q * pow10(k),
                pow10(k) >= 1,
        ;
        assert(q == 10 * pow10((m - k - 1) as nat));
        assert(d % 10 == 0);
    }
}

/// The number of decimal places of `den`, if it is a power of ten.
fn places_of(den: u64) -> (r: Option<u64>)
    ensures
        r matches Some(k) ==> decimal_places(den as nat) == Some(k as nat) && k <= 19 && den > 0,
        r is None ==> decimal_places(den as nat) is None,
{
    if den == 0 {
        proof {
            assert forall|m: nat| #[trigger] pow10(m) != 0 by {
                lemma_pow10_grows(m);
            }
        }
        return None;
    }
    let mut d: u64 = den;
    let mut k: u64 = 0;
    proof {
        lemma_pow10_grows(0);
    }
    while d % 10 == 0
        invariant
            d > 0,
            den == d * pow10(k as nat),
            k + 1 <= pow10(k as nat),
        decreases d,
    {
        proof {
            assert(d * pow10(k as nat) == (d / 10) * pow10((k + 1) as nat)) by (nonlinear_arith)
                requires
                    d % 10 == 0,
                    pow10((k + 1) as nat) == 10 * pow10(k as nat),
            ;
            lemma_pow10_grows((k + 1) as nat);
            assert(pow10((k + 1) as nat) <= den) by (nonlinear_arith)
                requires
                    den == (d / 10) * pow10((k + 1) as nat),
                    d / 10 >= 1,
            ;
        }
        d = d / 10;
        k = k + 1;
    }
    proof {
        assert(pow10(k as nat) <= den) by (nonlinear_arith)
            requires
                den == d * pow10(k as nat),
                d >= 1,
        ;
    }
    if d == 1 {
        proof {
            assert(pow10(k as nat) == den);
            let m = choose|m: nat| #[trigger] pow10(m) == den as nat;
            lemma_power_of_ten_split(1, k as nat, m);
            if k > 19 {
                lemma_pow10_add(20, (k - 20) as nat);
                assert(pow10(20) == 100000000000000000000) by {
                    reveal_with_fuel(pow10, 21);
                }
                assert(pow10((k - 20) as nat) >= 1) by {
                    lemma_pow10_grows((k - 20) as nat);
                }
                assert(pow10(20) * pow10((k - 20) as nat) >= pow10(20)) by (nonlinear_arith)
                    requires
                        pow10((k - 20) as nat) >= 1,
                ;
            }
        }
        Some(k)
    } else {
        proof {
            assert forall|m: nat| #[trigger] pow10(m) != den as nat by {
                if pow10(m) == den as nat {
                    lemma_power_of_ten_split(d as nat, k as nat, m);
                }
            }
        }
        None
    }
}

impl Fraction {
    /// The fraction written out: see [`fraction_text`].
    pub fn text(&self) -> (r: String)
        ensures
            r@ == fraction_text(*self),
    {
        match places_of(self.den) {
            None => {
                let n = decimal_text(self.num);
                let d = decimal_text(self.den);
                let head = joined(n.as_str(), "/");
                joined(head.as_str(), d.as_str())
            },
            Some(k) => {
                let whole = decimal_text(self.num / self.den);
                let mut r: u64 = self.num % self.den;
                let mut j: u64 = k;
                while j > 0 && r % 10 == 0
                    invariant
                        j <= k,
                        trimmed(r as nat, j as nat) == trimmed((self.num % self.den) as nat, k as nat),
                    decreases j,
                {
                    r = r / 10;
                    j = j - 1;
                }
                if j == 0 {
                    return whole;
                }
                let digits = decimal_text(r);
                let len = digits.as_str().unicode_len();
                let pad: usize = if len as u64 >= j {
                    0
                } else {
                    (j as usize) - len
                };
                let mut z = String::new();
                let mut i: usize = 0;
                proof {
                    reveal_strlit("0");
                }
                while i < pad
                    invariant
                        i <= pad,
                        z@ == zeros(i as nat),
                        "0"@ == seq!['0'],
                    decreases pad - i,
                {
                    z = joined(z.as_str(), "0");
                    i = i + 1;
                    proof {
                        assert(z@ =~= zeros(i as nat));
                    }
                }
                let m1 = joined(whole.as_str(), ".");
                let m2 = joined(m1.as_str(), z.as_str());
                joined(m2.as_str(), digits.as_str())
            },
        }
    }
}

/// `dirty / total > w`, compared exactly; never for an empty cache.
pub open spec fn watermark_exceeded(w: Fraction, dirty: nat, total: nat) -> bool {
    total > 0 && dirty * w.den > w.num * total
}

/// The product of two values below `2^64` fits in a `u128`.
proof fn lemma_product_fits(a: u128, b: u128)
    requires
        a <= u64::MAX,
        b <= u64::MAX,
    ensures
        a * b <= u128::MAX,
{
    assert(a * b <= (u64::MAX as int) * (u64::MAX as int)) by (nonlinear_arith)
        requires
            a <= u64::MAX,
            b <= u64::MAX,
    ;
}

/// Configuration for the background flush scheduler.
#[derive(Debug, Clone, Copy)]
pub struct FlushSchedule {
    /// Seconds between periodic flush cycles.
    pub interval_secs: u64,
    /// Fraction of the cache that may be dirty before an immediate flush.
    pub dirty_watermark: Fraction,
}

impl FlushSchedule {
    /// A schedule with the given interval and watermark. The watermark must
    /// lie in `[0, 1]`.
    pub fn new(interval_secs: u64, dirty_watermark: Fraction) -> (s: Self)
        requires
            dirty_watermark.in_unit_interval(),
        ensures
            s.interval_secs == interval_secs,
            s.dirty_watermark == dirty_watermark,
    {
        FlushSchedule { interval_secs, dirty_watermark }
    }

    /// Whether `dirty_count` dirty blocks out of `total_count` occupied
    /// slots exceed the watermark.
    pub fn should_flush_immediately(&self, dirty_count: usize, total_count: usize) -> (b: bool)
        ensures
            b == watermark_exceeded(self.dirty_watermark, dirty_count as nat, total_count as nat),
    {
        if total_count == 0 {
            return false;
        }
        let d: u128 = dirty_count as u128;
        let t: u128 = total_count as u128;
        let n: u128 = self.dirty_watermark.num as u128;
        let w: u128 = self.dirty_watermark.den as u128;
        proof {
            lemma_product_fits(d, w);
            lemma_product_fits(n, t);
        }
        d * w > n * t
    }

    /// The default schedule: every 5 s, watermark 3/4.
    pub fn default_schedule() -> (s: Self)
        ensures
            s.interval_secs == 5,
            s.dirty_watermark == (Fraction { num: 3, den: 4 }),
    {
        FlushSchedule { interval_secs: 5, dirty_watermark: Fraction { num: 3, den: 4 } }
    }
}

impl Default for FlushSchedule {
    fn default() -> (s: Self)
        ensures
            s.interval_secs == 5,
            s.dirty_watermark == (Fraction { num: 3, den: 4 }),
    {
        FlushSchedule::default_schedule()
    }
}

/// More dirty blocks never cancel an immediate flush; an empty cache never
/// asks for one; a watermark of 1 never does (only the periodic cycle
/// flushes); a watermark of 0 does as soon as one block is dirty.
pub proof fn law_watermark(w: Fraction, d1: nat, d2: nat, total: nat)
    requires
        w.in_unit_interval(),
    ensures
        d1 <= d2 && watermark_exceeded(w, d1, total) ==> watermark_exceeded(w, d2, total),
        !watermark_exceeded(w, d1, 0),
        w.num == w.den && d1 <= total ==> !watermark_exceeded(w, d1, total),
        w.num == 0 && d1 > 0 && total > 0 ==> watermark_exceeded(w, d1, total),
{
    assert(d1 <= d2 ==> d1 * w.den <= d2 * w.den) by (nonlinear_arith);
    assert(w.num == w.den && d1 <= total ==> d1 * w.den <= w.num * total) by (nonlinear_arith);
    assert(w.num == 0 && d1 > 0 && total > 0 ==> d1 * w.den > w.num * total) by (nonlinear_arith)
        requires
            w.den > 0,
    ;
}

} // verus!
