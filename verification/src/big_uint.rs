//! A 1024-bit unsigned integer held as sixteen 64-bit limbs, least
//! significant limb first. Addition and subtraction are carry/borrow
//! loops over the limbs, verified against the mathematical value of the
//! limb sequence; only the decimal rendering is delegated to an
//! arbitrary-precision library.

use vstd::prelude::*;
use vstd::arithmetic::power2::{pow2, lemma_pow2_adds, lemma_pow2_pos, lemma2_to64};
use vstd::arithmetic::div_mod::{
    lemma_fundamental_div_mod, lemma_mod_multiples_vanish, lemma_small_mod,
};

verus! {

/// The value of the first `n` limbs of `s`, least significant limb first:
/// the sum over `i < n` of `s[i] * 2^(64 * i)`.
pub open spec fn limbs_prefix_value(s: Seq<u64>, n: nat) -> nat
    decreases n,
{
    if n == 0 {
        0
    } else {
        limbs_prefix_value(s, (n - 1) as nat) + (s[n - 1] as nat) * pow2(64 * ((n - 1) as nat))
    }
}

/// The value of a whole limb sequence.
pub open spec fn limbs_value(s: Seq<u64>) -> nat {
    limbs_prefix_value(s, s.len())
}

/// The decimal digits of `n`, as rendered by the arbitrary-precision
/// library; a function of the value alone.
pub uninterp spec fn decimal_of(n: nat) -> Seq<char>;

/// A 1024-bit unsigned integer. Arithmetic on it wraps modulo 2^1024,
/// which `BigCounter` treats as practically unreachable.
pub struct BigUint {
    limbs: Vec<u64>,
}

/// The prefix value only depends on the first `n` limbs.
proof fn lemma_prefix_congruence(s1: Seq<u64>, s2: Seq<u64>, n: nat)
    requires
        n <= s1.len(),
        n <= s2.len(),
        forall|j: int| 0 <= j < n ==> s1[j] == s2[j],
    ensures
        limbs_prefix_value(s1, n) == limbs_prefix_value(s2, n),
    decreases n,
{
    if n > 0 {
        lemma_prefix_congruence(s1, s2, (n - 1) as nat);
    }
}

/// Appending a limb adds its weighted value on top of the prefix.
proof fn lemma_prefix_push(s: Seq<u64>, x: u64)
    ensures
        limbs_prefix_value(s.push(x), s.len() + 1) == limbs_prefix_value(s, s.len()) + (
        x as nat) * pow2(64 * s.len()),
{
    lemma_prefix_congruence(s.push(x), s, s.len());
}

/// Whatever the top limb contributes stays below the next weight.
proof fn lemma_bound_step(pr: int, a: int, p: int, q: int, w: int)
    by (nonlinear_arith)
    requires
        q == w * p,
        0 <= pr < p,
        0 <= a < w,
    ensures
        pr + a * p < q,
{
}

/// An `n`-limb prefix is below `2^(64 * n)`.
pub proof fn lemma_prefix_bound(s: Seq<u64>, n: nat)
    requires
        n <= s.len(),
    ensures
        limbs_prefix_value(s, n) < pow2(64 * n),
    decreases n,
{
    lemma2_to64();
    if n == 0 {
    } else {
        lemma_prefix_bound(s, (n - 1) as nat);
        lemma_pow2_adds(64, 64 * ((n - 1) as nat));
        lemma_bound_step(
            limbs_prefix_value(s, (n - 1) as nat) as int,
            s[n - 1] as int,
            pow2(64 * ((n - 1) as nat)) as int,
            pow2(64 * n) as int,
            pow2(64) as int,
        );
    }
}

/// A prefix is zero exactly when every limb in it is zero.
proof fn lemma_prefix_zero(s: Seq<u64>, n: nat)
    requires
        n <= s.len(),
    ensures
        limbs_prefix_value(s, n) == 0 <==> (forall|j: int| 0 <= j < n ==> s[j] == 0),
    decreases n,
{
    if n > 0 {
        lemma_prefix_zero(s, (n - 1) as nat);
        lemma_pow2_pos(64 * ((n - 1) as nat));
        lemma_weighted_limb_zero(s[n - 1] as int, pow2(64 * ((n - 1) as nat)) as int);
    }
}

proof fn lemma_weighted_limb_zero(a: int, p: int)
    by (nonlinear_arith)
    requires
        0 <= a,
        0 < p,
    ensures
        a * p == 0 <==> a == 0,
{
}

/// Equal prefix values come from equal limbs: the top limbs must match
/// because everything below them is smaller than their weight.
proof fn lemma_top_limb_unique(p1: int, p2: int, a1: int, a2: int, p: int)
    by (nonlinear_arith)
    requires
        0 <= p1 < p,
        0 <= p2 < p,
        0 <= a1,
        0 <= a2,
        p1 + a1 * p == p2 + a2 * p,
    ensures
        a1 == a2,
        p1 == p2,
{
}

/// The limb representation of a value is unique: equal prefix values
/// force equal limbs.
proof fn lemma_prefix_injective(s1: Seq<u64>, s2: Seq<u64>, n: nat)
    requires
        n <= s1.len(),
        n <= s2.len(),
        limbs_prefix_value(s1, n) == limbs_prefix_value(s2, n),
    ensures
        forall|j: int| 0 <= j < n ==> s1[j] == s2[j],
    decreases n,
{
    if n > 0 {
        lemma_prefix_bound(s1, (n - 1) as nat);
        lemma_prefix_bound(s2, (n - 1) as nat);
        lemma_top_limb_unique(
            limbs_prefix_value(s1, (n - 1) as nat) as int,
            limbs_prefix_value(s2, (n - 1) as nat) as int,
            s1[n - 1] as int,
            s2[n - 1] as int,
            pow2(64 * ((n - 1) as nat)) as int,
        );
        lemma_prefix_injective(s1, s2, (n - 1) as nat);
    }
}

/// One limb of a carry-propagating addition extends the partial-sum
/// equation by one position.
proof fn lemma_add_limb_step(
    pr: int,
    pa: int,
    pb: int,
    a: int,
    b: int,
    cin: int,
    limb: int,
    cout: int,
    p: int,
    q: int,
    w: int,
)
    by (nonlinear_arith)
    requires
        q == w * p,
        limb + cout * w == a + b + cin,
        pr + cin * p == pa + pb,
    ensures
        pr + limb * p + cout * q == (pa + a * p) + (pb + b * p),
{
}

/// One limb of a borrow-propagating subtraction extends the partial
/// difference equation by one position.
proof fn lemma_sub_limb_step(
    pr: int,
    pa: int,
    pb: int,
    a: int,
    b: int,
    bin: int,
    limb: int,
    bout: int,
    p: int,
    q: int,
    w: int,
)
    by (nonlinear_arith)
    requires
        q == w * p,
        limb - bout * w == a - b - bin,
        pr - bin * p == pa - pb,
    ensures
        pr + limb * p - bout * q == (pa + a * p) - (pb + b * p),
{
}

impl BigUint {
    /// Well-formed: exactly sixteen limbs, 1024 bits in all.
    pub closed spec fn wf(&self) -> bool {
        self.limbs@.len() == 16
    }

    /// The mathematical value of this integer.
    pub closed spec fn as_nat(&self) -> nat {
        limbs_value(self.limbs@)
    }

    /// A well-formed value lies below 2^1024.
    pub proof fn lemma_value_bound(&self)
        requires
            self.wf(),
        ensures
            self.as_nat() < pow2(1024),
    {
        lemma_prefix_bound(self.limbs@, 16);
    }

    /// The value `x`, widened to 1024 bits.
    pub fn from_u64(x: u64) -> (r: BigUint)
        ensures
            r.wf(),
            r.as_nat() == x as nat,
    {
        let mut limbs: Vec<u64> = Vec::new();
        limbs.push(x);
        while limbs.len() < 16
            invariant
                1 <= limbs@.len() <= 16,
                limbs@[0] == x,
                forall|j: int| 1 <= j < limbs@.len() ==> limbs@[j] == 0,
            decreases 16 - limbs@.len(),
        {
            limbs.push(0);
        }
        proof {
            lemma2_to64();
            lemma_tail_zeros(limbs@, 1, 16);
            assert(limbs_prefix_value(limbs@, 0) == 0);
            assert(limbs_prefix_value(limbs@, 1) == (x as nat) * pow2(0));
        }
        BigUint { limbs }
    }

    /// An owned copy of the same value, for observers that keep a
    /// snapshot while the counter moves on.
    pub fn duplicate(&self) -> (r: BigUint)
        requires
            self.wf(),
        ensures
            r.wf(),
            r.as_nat() == self.as_nat(),
    {
        let mut limbs: Vec<u64> = Vec::new();
        let mut i: usize = 0;
        while i < 16
            invariant
                self.wf(),
                i <= 16,
                limbs@ =~= self.limbs@.take(i as int),
            decreases 16 - i,
        {
            limbs.push(self.limbs[i]);
            i += 1;
        }
        proof {
            assert(limbs@ =~= self.limbs@);
        }
        BigUint { limbs }
    }

    /// The largest representable value, 2^1024 - 1.
    pub fn max_value() -> (r: BigUint)
        ensures
            r.wf(),
            r.as_nat() == pow2(1024) - 1,
    {
        let mut limbs: Vec<u64> = Vec::new();
        while limbs.len() < 16
            invariant
                limbs@.len() <= 16,
                forall|j: int| 0 <= j < limbs@.len() ==> limbs@[j] == 0xFFFF_FFFF_FFFF_FFFFu64,
            decreases 16 - limbs@.len(),
        {
            limbs.push(0xFFFF_FFFF_FFFF_FFFF);
        }
        proof {
            lemma_all_max(limbs@, 16);
        }
        BigUint { limbs }
    }

    /// Carry-propagating addition, wrapping modulo 2^1024.
    pub fn wrapping_add(&self, other: &BigUint) -> (r: BigUint)
        requires
            self.wf(),
            other.wf(),
        ensures
            r.wf(),
            r.as_nat() == (self.as_nat() + other.as_nat()) % pow2(1024),
    {
        let mut limbs: Vec<u64> = Vec::new();
        let mut carry: u64 = 0;
        let mut i: usize = 0;
        while i < 16
            invariant
                self.wf(),
                other.wf(),
                i <= 16,
                limbs@.len() == i,
                carry <= 1,
                limbs_prefix_value(limbs@, i as nat) + (carry as nat) * pow2(64 * (i as nat))
                    == limbs_prefix_value(self.limbs@, i as nat) + limbs_prefix_value(
                    other.limbs@,
                    i as nat,
                ),
            decreases 16 - i,
        {
            let a: u64 = self.limbs[i];
            let b: u64 = other.limbs[i];
            let sum: u128 = (a as u128) + (b as u128) + (carry as u128);
            let limb: u64 = (sum % 0x1_0000_0000_0000_0000u128) as u64;
            let carry_out: u64 = (sum / 0x1_0000_0000_0000_0000u128) as u64;
            proof {
                lemma2_to64();
                lemma_fundamental_div_mod(sum as int, 0x1_0000_0000_0000_0000);
                lemma_pow2_adds(64, 64 * (i as nat));
                lemma_prefix_push(limbs@, limb);
                lemma_add_limb_step(
                    limbs_prefix_value(limbs@, i as nat) as int,
                    limbs_prefix_value(self.limbs@, i as nat) as int,
                    limbs_prefix_value(other.limbs@, i as nat) as int,
                    a as int,
                    b as int,
                    carry as int,
                    limb as int,
                    carry_out as int,
                    pow2(64 * (i as nat)) as int,
                    pow2(64 * ((i + 1) as nat)) as int,
                    pow2(64) as int,
                );
            }
            limbs.push(limb);
            carry = carry_out;
            i += 1;
        }
        proof {
            lemma_prefix_bound(limbs@, 16);
            lemma_prefix_bound(self.limbs@, 16);
            lemma_prefix_bound(other.limbs@, 16);
            lemma_pow2_pos(1024);
            lemma_mod_multiples_vanish(
                carry as int,
                limbs_prefix_value(limbs@, 16) as int,
                pow2(1024) as int,
            );
            lemma_small_mod(limbs_prefix_value(limbs@, 16), pow2(1024));
        }
        BigUint { limbs }
    }

    /// Borrow-propagating subtraction. Returns the 1024-bit difference and
    /// a borrow flag; the flag is set exactly when `self < other`, in which
    /// case the difference has wrapped upward by 2^1024.
    pub fn borrowing_sub(&self, other: &BigUint) -> (r: (BigUint, bool))
        requires
            self.wf(),
            other.wf(),
        ensures
            r.0.wf(),
            r.0.as_nat() as int == self.as_nat() - other.as_nat() + (if r.1 {
                pow2(1024) as int
            } else {
                0
            }),
            r.1 <==> self.as_nat() < other.as_nat(),
    {
        let mut limbs: Vec<u64> = Vec::new();
        let mut borrow: u64 = 0;
        let mut i: usize = 0;
        while i < 16
            invariant
                self.wf(),
                other.wf(),
                i <= 16,
                limbs@.len() == i,
                borrow <= 1,
                limbs_prefix_value(limbs@, i as nat) as int - (borrow as int) * (pow2(
                    64 * (i as nat),
                ) as int) == limbs_prefix_value(self.limbs@, i as nat) as int
                    - limbs_prefix_value(other.limbs@, i as nat) as int,
            decreases 16 - i,
        {
            let a: u64 = self.limbs[i];
            let b: u64 = other.limbs[i];
            let diff: u128 = (0x1_0000_0000_0000_0000u128 + a as u128) - (b as u128
                + borrow as u128);
            let limb: u64 = (diff % 0x1_0000_0000_0000_0000u128) as u64;
            let no_borrow: u64 = (diff / 0x1_0000_0000_0000_0000u128) as u64;
            let borrow_out: u64 = 1 - no_borrow;
            proof {
                lemma2_to64();
                lemma_fundamental_div_mod(diff as int, 0x1_0000_0000_0000_0000);
                lemma_pow2_adds(64, 64 * (i as nat));
                lemma_prefix_push(limbs@, limb);
                lemma_sub_limb_step(
                    limbs_prefix_value(limbs@, i as nat) as int,
                    limbs_prefix_value(self.limbs@, i as nat) as int,
                    limbs_prefix_value(other.limbs@, i as nat) as int,
                    a as int,
                    b as int,
                    borrow as int,
                    limb as int,
                    borrow_out as int,
                    pow2(64 * (i as nat)) as int,
                    pow2(64 * ((i + 1) as nat)) as int,
                    pow2(64) as int,
                );
            }
            limbs.push(limb);
            borrow = borrow_out;
            i += 1;
        }
        proof {
            lemma_prefix_bound(limbs@, 16);
            lemma_prefix_bound(self.limbs@, 16);
            lemma_prefix_bound(other.limbs@, 16);
        }
        (BigUint { limbs }, borrow == 1)
    }

    /// True exactly when the value is zero.
    pub fn is_zero(&self) -> (r: bool)
        requires
            self.wf(),
        ensures
            r <==> self.as_nat() == 0,
    {
        let mut i: usize = 0;
        let mut all_zero: bool = true;
        while i < 16
            invariant
                self.wf(),
                i <= 16,
                all_zero <==> (forall|j: int| 0 <= j < i ==> self.limbs@[j] == 0),
            decreases 16 - i,
        {
            if self.limbs[i] != 0 {
                all_zero = false;
            }
            i += 1;
        }
        proof {
            lemma_prefix_zero(self.limbs@, 16);
        }
        all_zero
    }

    /// True exactly when the two values are equal.
    pub fn eq_value(&self, other: &BigUint) -> (r: bool)
        requires
            self.wf(),
            other.wf(),
        ensures
            r <==> self.as_nat() == other.as_nat(),
    {
        let mut i: usize = 0;
        let mut eq: bool = true;
        while i < 16
            invariant
                self.wf(),
                other.wf(),
                i <= 16,
                eq <==> (forall|j: int| 0 <= j < i ==> self.limbs@[j] == other.limbs@[j]),
            decreases 16 - i,
        {
            if self.limbs[i] != other.limbs[i] {
                eq = false;
            }
            i += 1;
        }
        proof {
            if eq {
                lemma_prefix_congruence(self.limbs@, other.limbs@, 16);
            } else {
                if self.as_nat() == other.as_nat() {
                    lemma_prefix_injective(self.limbs@, other.limbs@, 16);
                }
            }
        }
        eq
    }

    /// The decimal rendering of the value.
    ///
    /// Relies on `ruint::Uint::<1024, 16>`'s `Display` impl, which writes
    /// the value in base 10; the digits are a function of the value alone.
    #[verifier::external_body]
    pub(crate) fn to_decimal(&self) -> (r: String)
        requires
            self.wf(),
        ensures
            r@ == decimal_of(self.as_nat()),
    {
        let mut limbs = [0u64; 16];
        let mut i: usize = 0;
        while i < 16 {
            limbs[i] = self.limbs[i];
            i += 1;
        }
        ruint::Uint::<1024, 16>::from_limbs(limbs).to_string()
    }
}

/// A prefix of all-maximal limbs has the largest value the prefix can
/// carry.
proof fn lemma_all_max(s: Seq<u64>, n: nat)
    requires
        n <= s.len(),
        forall|j: int| 0 <= j < n ==> s[j] == 0xFFFF_FFFF_FFFF_FFFFu64,
    ensures
        limbs_prefix_value(s, n) == pow2(64 * n) - 1,
    decreases n,
{
    lemma2_to64();
    if n > 0 {
        lemma_all_max(s, (n - 1) as nat);
        lemma_pow2_adds(64, 64 * ((n - 1) as nat));
    }
}

/// Zero limbs from position `k` up to `n` leave the prefix value at `k`
/// unchanged.
proof fn lemma_tail_zeros(s: Seq<u64>, k: nat, n: nat)
    requires
        k <= n <= s.len(),
        forall|j: int| k <= j < n ==> s[j] == 0,
    ensures
        limbs_prefix_value(s, n) == limbs_prefix_value(s, k),
    decreases n - k,
{
    if n > k {
        lemma_tail_zeros(s, k, (n - 1) as nat);
    }
}

} // verus!
