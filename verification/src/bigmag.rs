//! Unsigned magnitudes of arbitrary width, as little-endian base-2^64 limb
//! vectors. They carry the exact scaled values of finite binary64 numbers,
//! so that the numeric tolerance comparison is exact integer arithmetic.
use vstd::arithmetic::power2::pow2;
use vstd::prelude::*;

verus! {

/// The base of the limb representation.
pub const LIMB_BASE: u128 = 0x10000000000000000;

/// The value of a little-endian limb sequence.
pub open spec fn val(s: Seq<u64>) -> nat
    decreases s.len(),
{
    if s.len() == 0 {
        0
    } else {
        (s[0] + 0x10000000000000000 * val(s.drop_first())) as nat
    }
}

/// Appending a limb on the high end adds its value at the next power.
pub proof fn lemma_val_push(s: Seq<u64>, x: u64)
    ensures
        val(s.push(x)) == val(s) + x * pow2(64 * s.len()),
    decreases s.len(),
{
    vstd::arithmetic::power2::lemma2_to64();
    if s.len() == 0 {
        assert(s.push(x).drop_first() =~= Seq::<u64>::empty());
        assert(val(s.push(x).drop_first()) == 0);
        assert(s.push(x)[0] == x);
        assert(val(s.push(x)) == x);
        assert(pow2(0) == 1);
        assert(x * pow2(0) == x) by (nonlinear_arith)
            requires
                pow2(0) == 1,
        ;
    } else {
        let p1 = pow2((64 * (s.len() - 1)) as nat);
        let b: nat = 0x10000000000000000;
        assert(s.push(x).drop_first() =~= s.drop_first().push(x));
        lemma_val_push(s.drop_first(), x);
        vstd::arithmetic::power2::lemma_pow2_adds(64, (64 * (s.len() - 1)) as nat);
        assert(pow2(64) == b);
        assert(pow2(64 * s.len()) == b * p1);
        assert(val(s.drop_first().push(x)) == val(s.drop_first()) + x * p1);
        assert(val(s.push(x)) == (s[0] + b * val(s.drop_first().push(x))) as nat);
        assert(val(s) == (s[0] + b * val(s.drop_first())) as nat);
        assert(b * (val(s.drop_first()) + x * p1) == b * val(s.drop_first()) + b * (x * p1))
            by (nonlinear_arith);
        assert(b * (x * p1) == x * (b * p1)) by (nonlinear_arith);
        assert(val(s.push(x)) == val(s) + x * (b * p1));
    }
}

/// The value of a limb sequence is below the power of two of its width.
pub proof fn lemma_val_bound(s: Seq<u64>)
    ensures
        val(s) < pow2(64 * s.len()),
    decreases s.len(),
{
    vstd::arithmetic::power2::lemma2_to64();
    if s.len() == 0 {
        assert(pow2(0) == 1);
    } else {
        lemma_val_bound(s.drop_first());
        vstd::arithmetic::power2::lemma_pow2_adds(64, 64 * (s.len() - 1) as nat);
        assert(val(s.drop_first()) <= pow2(64 * (s.len() - 1) as nat) - 1);
        assert(0x10000000000000000 * val(s.drop_first()) <= 0x10000000000000000 * (pow2(
            64 * (s.len() - 1) as nat,
        ) - 1)) by (nonlinear_arith)
            requires
                val(s.drop_first()) <= pow2(64 * (s.len() - 1) as nat) - 1,
        ;
    }
}

/// Doubling every limb with a carry chain doubles the value, as long as the
/// width is not exceeded.
fn big_double(v: &Vec<u64>) -> (r: Vec<u64>)
    requires
        2 * val(v@) < pow2(64 * v@.len()),
    ensures
        r@.len() == v@.len(),
        val(r@) == 2 * val(v@),
{
    let mut r: Vec<u64> = Vec::new();
    let mut carry: u64 = 0;
    let mut i: usize = 0;
    proof {
        assert(v@.take(0) =~= Seq::<u64>::empty());
        assert(r@ =~= Seq::<u64>::empty());
    }
    while i < v.len()
        invariant
            i <= v@.len(),
            r@.len() == i,
            carry <= 1,
            val(r@) + carry * pow2(64 * i as nat) == 2 * val(v@.take(i as int)),
        decreases v@.len() - i,
    {
        let ghost r_pre = r@;
        let ghost carry_pre = carry;
        let t: u128 = 2 * (v[i] as u128) + (carry as u128);
        let low: u64 = (t % LIMB_BASE) as u64;
        let high: u64 = (t / LIMB_BASE) as u64;
        r.push(low);
        carry = high;
        proof {
            lemma_val_push(r_pre, low);
            assert(v@.take(i + 1 as int) =~= v@.take(i as int).push(v@[i as int]));
            lemma_val_push(v@.take(i as int), v@[i as int]);
            vstd::arithmetic::power2::lemma_pow2_adds(64 * i as nat, 64);
            vstd::arithmetic::power2::lemma2_to64();
            assert(t == low + 0x10000000000000000 * high);
            assert(high <= 1);
            assert(val(r@) + carry * pow2(64 * (i + 1) as nat) == 2 * val(v@.take(i + 1 as int)))
                by (nonlinear_arith)
                requires
                    val(r@) == val(r_pre) + low * pow2(64 * i as nat),
                    val(r_pre) + carry_pre * pow2(64 * i as nat) == 2 * val(v@.take(i as int)),
                    val(v@.take(i + 1 as int)) == val(v@.take(i as int)) + v@[i as int] * pow2(
                        64 * i as nat,
                    ),
                    2 * (v@[i as int] as nat) + carry_pre == low + 0x10000000000000000 * carry,
                    pow2(64 * (i + 1) as nat) == pow2(64 * i as nat) * pow2(64),
                    pow2(64) == 0x10000000000000000,
            ;
        }
        i = i + 1;
    }
    proof {
        assert(v@.take(v@.len() as int) =~= v@);
        if carry != 0 {
            lemma_val_bound(r@);
            assert(val(r@) + carry * pow2(64 * v@.len()) >= pow2(64 * v@.len()))
                by (nonlinear_arith)
                requires
                    carry >= 1,
            ;
        }
    }
    r
}

/// Builds the magnitude `m * 2^shift` as a vector of `width` limbs.
///
/// The width must be generous enough that the value fits with room for the
/// doublings: `m < 2^53` and `53 + shift < 64 * width` suffice.
pub fn big_from(m: u64, shift: usize, width: usize) -> (r: Vec<u64>)
    requires
        m < 0x20000000000000,
        53 + shift < 64 * width,
    ensures
        r@.len() == width,
        val(r@) == m * pow2(shift as nat),
{
    let mut r: Vec<u64> = Vec::new();
    let mut i: usize = 0;
    proof {
        assert(r@ =~= Seq::<u64>::empty());
    }
    while i < width
        invariant
            i <= width,
            r@.len() == i,
            val(r@) == if i == 0 {
                0
            } else {
                m as nat
            },
        decreases width - i,
    {
        let ghost r_pre = r@;
        if i == 0 {
            r.push(m);
        } else {
            r.push(0);
        }
        proof {
            lemma_val_push(r_pre, r@.last());
            vstd::arithmetic::power2::lemma2_to64();
            if i == 0 {
                assert(val(r@) == 0 + m * pow2(0));
            } else {
                assert(val(r@) == m + 0 * pow2(64 * i as nat));
            }
        }
        i = i + 1;
    }
    let mut k: usize = 0;
    proof {
        vstd::arithmetic::power2::lemma2_to64();
        assert(pow2(0) == 1);
    }
    while k < shift
        invariant
            k <= shift,
            r@.len() == width,
            53 + shift < 64 * width,
            m < 0x20000000000000,
            val(r@) == m * pow2(k as nat),
        decreases shift - k,
    {
        proof {
            vstd::arithmetic::power2::lemma_pow2_pos(k as nat);
            vstd::arithmetic::power2::lemma_pow2_adds(53, k as nat);
            vstd::arithmetic::power2::lemma_pow2_strictly_increases(
                53 + k as nat,
                64 * r@.len() as nat,
            );
            vstd::arithmetic::power2::lemma2_to64_rest();
            vstd::arithmetic::power2::lemma2_to64();
            assert(2 * val(r@) <= 2 * ((0x20000000000000 - 1) * pow2(k as nat)))
                by (nonlinear_arith)
                requires
                    val(r@) == m * pow2(k as nat),
                    m <= 0x20000000000000 - 1,
                    pow2(k as nat) >= 0,
            ;
            assert(2 * ((0x20000000000000 - 1) * pow2(k as nat)) < 2 * (0x20000000000000 * pow2(
                k as nat,
            ))) by (nonlinear_arith)
                requires
                    pow2(k as nat) >= 1,
            ;
            assert(pow2(53) == 0x20000000000000);
            assert(2 * (0x20000000000000 * pow2(k as nat)) == 2 * pow2(53 + k as nat))
                by (nonlinear_arith)
                requires
                    pow2(53 + k as nat) == 0x20000000000000 * pow2(k as nat),
            ;
            assert(2 * pow2(53 + k as nat) == pow2(54 + k as nat)) by {
                vstd::arithmetic::power2::lemma_pow2_adds(1, 53 + k as nat);
                assert(pow2(1) == 2);
            }
            if 54 + k < 64 * r@.len() {
                vstd::arithmetic::power2::lemma_pow2_strictly_increases(
                    54 + k as nat,
                    64 * r@.len() as nat,
                );
            }
            assert(2 * val(r@) < pow2(64 * r@.len() as nat));
        }
        r = big_double(&r);
        proof {
            vstd::arithmetic::power2::lemma_pow2_adds(1, k as nat);
            assert(pow2(1) == 2) by {
                vstd::arithmetic::power2::lemma2_to64();
            }
            assert(val(r@) == 2 * (m * pow2(k as nat)));
            assert(2 * (m * pow2(k as nat)) == m * pow2((k + 1) as nat)) by (nonlinear_arith)
                requires
                    pow2((k + 1) as nat) == 2 * pow2(k as nat),
            ;
        }
        k = k + 1;
    }
    r
}

/// Adds two equal-width magnitudes into a result one limb wider; the extra
/// limb absorbs the final carry, so the sum is always exact.
pub fn big_add(a: &Vec<u64>, b: &Vec<u64>) -> (r: Vec<u64>)
    requires
        a@.len() == b@.len(),
    ensures
        r@.len() == a@.len() + 1,
        val(r@) == val(a@) + val(b@),
{
    let mut r: Vec<u64> = Vec::new();
    let mut carry: u64 = 0;
    let mut i: usize = 0;
    proof {
        assert(a@.take(0) =~= Seq::<u64>::empty());
        assert(b@.take(0) =~= Seq::<u64>::empty());
        assert(r@ =~= Seq::<u64>::empty());
    }
    while i < a.len()
        invariant
            i <= a@.len(),
            a@.len() == b@.len(),
            r@.len() == i,
            carry <= 1,
            val(r@) + carry * pow2(64 * i as nat) == val(a@.take(i as int)) + val(
                b@.take(i as int),
            ),
        decreases a@.len() - i,
    {
        let ghost r_pre = r@;
        let ghost carry_pre = carry;
        let t: u128 = (a[i] as u128) + (b[i] as u128) + (carry as u128);
        let low: u64 = (t % LIMB_BASE) as u64;
        let high: u64 = (t / LIMB_BASE) as u64;
        r.push(low);
        carry = high;
        proof {
            lemma_val_push(r_pre, low);
            assert(a@.take(i + 1 as int) =~= a@.take(i as int).push(a@[i as int]));
            assert(b@.take(i + 1 as int) =~= b@.take(i as int).push(b@[i as int]));
            lemma_val_push(a@.take(i as int), a@[i as int]);
            lemma_val_push(b@.take(i as int), b@[i as int]);
            vstd::arithmetic::power2::lemma_pow2_adds(64 * i as nat, 64);
            vstd::arithmetic::power2::lemma2_to64();
            assert(t == low + 0x10000000000000000 * high);
            assert(high <= 1);
            assert(val(r@) + carry * pow2(64 * (i + 1) as nat) == val(a@.take(i + 1 as int)) + val(
                b@.take(i + 1 as int),
            )) by (nonlinear_arith)
                requires
                    val(r@) == val(r_pre) + low * pow2(64 * i as nat),
                    val(r_pre) + carry_pre * pow2(64 * i as nat) == val(a@.take(i as int)) + val(
                        b@.take(i as int),
                    ),
                    val(a@.take(i + 1 as int)) == val(a@.take(i as int)) + a@[i as int] * pow2(
                        64 * i as nat,
                    ),
                    val(b@.take(i + 1 as int)) == val(b@.take(i as int)) + b@[i as int] * pow2(
                        64 * i as nat,
                    ),
                    (a@[i as int] as nat) + b@[i as int] + carry_pre == low + 0x10000000000000000
                        * carry,
                    pow2(64 * (i + 1) as nat) == pow2(64 * i as nat) * pow2(64),
                    pow2(64) == 0x10000000000000000,
            ;
        }
        i = i + 1;
    }
    let ghost r_pre = r@;
    let ghost carry_last = carry;
    r.push(carry);
    proof {
        assert(a@.take(a@.len() as int) =~= a@);
        assert(b@.take(b@.len() as int) =~= b@);
        lemma_val_push(r_pre, carry_last);
    }
    r
}

/// Compares two equal-width magnitudes: `val(a) <= val(b)`.
pub fn big_le(a: &Vec<u64>, b: &Vec<u64>) -> (r: bool)
    requires
        a@.len() == b@.len(),
    ensures
        r == (val(a@) <= val(b@)),
{
    let mut i: usize = a.len();
    while i > 0
        invariant
            i <= a@.len(),
            a@.len() == b@.len(),
            forall|j: int| i <= j < a@.len() ==> a@[j] == b@[j],
        decreases i,
    {
        i = i - 1;
        if a[i] < b[i] {
            proof {
                lemma_val_lt_at(a@, b@, i as int);
            }
            return true;
        }
        if a[i] > b[i] {
            proof {
                lemma_val_lt_at(b@, a@, i as int);
            }
            return false;
        }
    }
    proof {
        assert(a@ =~= b@);
    }
    true
}

/// If two equal-width magnitudes agree above position `k` and differ at `k`,
/// the one with the smaller limb at `k` has the smaller value.
proof fn lemma_val_lt_at(a: Seq<u64>, b: Seq<u64>, k: int)
    requires
        a.len() == b.len(),
        0 <= k < a.len(),
        a[k] < b[k],
        forall|j: int| k < j < a.len() ==> a[j] == b[j],
    ensures
        val(a) < val(b),
    decreases a.len(),
{
    if k == 0 {
        lemma_val_tail_mono(a, b);
    } else {
        assert(a.drop_first().len() == b.drop_first().len());
        lemma_val_lt_at(a.drop_first(), b.drop_first(), k - 1);
        assert(val(a) == a[0] + 0x10000000000000000 * val(a.drop_first()));
        assert(val(b) == b[0] + 0x10000000000000000 * val(b.drop_first()));
        assert(0x10000000000000000 * val(a.drop_first()) + 0x10000000000000000 <= 0x10000000000000000
            * val(b.drop_first())) by (nonlinear_arith)
            requires
                val(a.drop_first()) < val(b.drop_first()),
        ;
    }
}

/// If two equal-width magnitudes have the same tail and the first limb of
/// `a` is smaller, then `val(a) < val(b)`.
proof fn lemma_val_tail_mono(a: Seq<u64>, b: Seq<u64>)
    requires
        a.len() == b.len(),
        a.len() > 0,
        a[0] < b[0],
        forall|j: int| 0 < j < a.len() ==> a[j] == b[j],
    ensures
        val(a) < val(b),
{
    assert(a.drop_first() =~= b.drop_first());
}

} // verus!
