//! Wide unsigned arithmetic on little-endian 64-bit limbs.
//!
//! The scoring circuit multiplies three 128-bit values before dividing,
//! so its exact numerator needs up to 384 bits. These helpers carry such
//! values as vectors of limbs, with every operation proved against the
//! mathematical value of the limb sequence.

use vstd::prelude::*;

use vstd::arithmetic::div_mod::lemma_div_denominator;
use vstd::arithmetic::div_mod::lemma_fundamental_div_mod;
use vstd::arithmetic::div_mod::lemma_fundamental_div_mod_converse;
use vstd::arithmetic::power2::lemma2_to64;
use vstd::arithmetic::power2::lemma_pow2_adds;
use vstd::arithmetic::power2::lemma_pow2_pos;
use vstd::arithmetic::power2::lemma_pow2_strictly_increases;
use vstd::arithmetic::power2::pow2;

verus! {

/// The number a little-endian limb sequence stands for.
pub open spec fn limbs_val(s: Seq<u64>) -> int
    decreases s.len(),
{
    if s.len() == 0 {
        0
    } else {
        s[0] + pow2(64) * limbs_val(s.subrange(1, s.len() as int))
    }
}

proof fn lemma_limbs_nonneg(s: Seq<u64>)
    ensures
        limbs_val(s) >= 0,
    decreases s.len(),
{
    if s.len() > 0 {
        let t = s.subrange(1, s.len() as int);
        lemma_limbs_nonneg(t);
        lemma_pow2_pos(64);
        assert(pow2(64) * limbs_val(t) >= 0) by (nonlinear_arith)
            requires
                pow2(64) >= 1,
                limbs_val(t) >= 0,
        ;
    }
}

proof fn lemma_limbs_snoc(s: Seq<u64>, x: u64)
    ensures
        limbs_val(s.push(x)) == limbs_val(s) + pow2(64 * s.len()) * x,
    decreases s.len(),
{
    if s.len() == 0 {
        assert(s.push(x).subrange(1, 1) =~= Seq::<u64>::empty());
        assert(limbs_val(Seq::<u64>::empty()) == 0);
        assert(s.push(x)[0] == x);
        assert(limbs_val(s.push(x)) == x + pow2(64) * 0);
        assert(pow2(0) == 1) by {
            lemma2_to64();
        }
    } else {
        let t = s.subrange(1, s.len() as int);
        assert(s.push(x).subrange(1, s.len() as int + 1) =~= t.push(x));
        lemma_limbs_snoc(t, x);
        lemma_pow2_adds(64, 64 * t.len());
        assert(pow2(64) * (limbs_val(t) + pow2(64 * t.len()) * x) == pow2(64) * limbs_val(t) + (
        pow2(64) * pow2(64 * t.len())) * x) by (nonlinear_arith);
    }
}

proof fn lemma_limbs_bound(s: Seq<u64>)
    ensures
        limbs_val(s) < pow2(64 * s.len()),
    decreases s.len(),
{
    if s.len() == 0 {
        assert(pow2(0) == 1) by {
            lemma2_to64();
        }
    } else {
        let t = s.subrange(1, s.len() as int);
        lemma_limbs_bound(t);
        lemma_limbs_nonneg(t);
        lemma_pow2_adds(64, 64 * t.len());
        lemma2_to64();
        assert(s[0] + pow2(64) * limbs_val(t) < pow2(64) * pow2(64 * t.len()))
            by (nonlinear_arith)
            requires
                s[0] < pow2(64),
                0 <= limbs_val(t),
                limbs_val(t) < pow2(64 * t.len()),
                pow2(64) >= 1,
                1 <= pow2(64 * t.len()),
        ;
    }
}

/// A nonzero limb at index `i` puts the value at `pow2(64 * i)` or above.
proof fn lemma_limbs_lower(s: Seq<u64>, i: int)
    requires
        0 <= i < s.len(),
        s[i] >= 1,
    ensures
        limbs_val(s) >= pow2(64 * i as nat),
    decreases i,
{
    let t = s.subrange(1, s.len() as int);
    lemma_limbs_nonneg(t);
    lemma_pow2_pos(64);
    if i == 0 {
        assert(pow2(0) == 1) by {
            lemma2_to64();
        }
        assert(pow2(64) * limbs_val(t) >= 0) by (nonlinear_arith)
            requires
                pow2(64) >= 1,
                limbs_val(t) >= 0,
        ;
    } else {
        lemma_limbs_lower(t, i - 1);
        lemma_pow2_adds(64, 64 * (i - 1) as nat);
        assert(pow2(64) * limbs_val(t) >= pow2(64) * pow2(64 * (i - 1) as nat))
            by (nonlinear_arith)
            requires
                pow2(64) >= 1,
                limbs_val(t) >= pow2(64 * (i - 1) as nat),
        ;
    }
}

/// All limbs zero from index `k` on.
pub open spec fn high_zero(s: Seq<u64>, k: int) -> bool {
    forall|j: int| k <= j < s.len() ==> s[j] == 0
}

proof fn lemma_limbs_all_zero(s: Seq<u64>)
    requires
        high_zero(s, 0),
    ensures
        limbs_val(s) == 0,
    decreases s.len(),
{
    if s.len() > 0 {
        let t = s.subrange(1, s.len() as int);
        lemma_limbs_all_zero(t);
    }
}

/// With every limb above the second equal to zero, the value is just the
/// first two limbs.
proof fn lemma_limbs_two(s: Seq<u64>)
    requires
        s.len() >= 2,
        high_zero(s, 2),
    ensures
        limbs_val(s) == s[0] + pow2(64) * s[1],
        0 <= limbs_val(s) <= u128::MAX,
{
    let t = s.subrange(1, s.len() as int);
    let t2 = t.subrange(1, t.len() as int);
    lemma_limbs_all_zero(t2);
    assert(limbs_val(t) == t[0] + pow2(64) * 0);
    lemma2_to64();
    assert(s[0] + pow2(64) * s[1] <= u128::MAX) by (nonlinear_arith)
        requires
            s[0] <= 0xffffffffffffffffu64,
            s[1] <= 0xffffffffffffffffu64,
            pow2(64) == 0x10000000000000000,
    ;
    assert(s[0] + pow2(64) * s[1] >= 0) by (nonlinear_arith)
        requires
            s[0] >= 0,
            s[1] >= 0,
            pow2(64) == 0x10000000000000000,
    ;
}

/// A vector of `l` zero limbs.
pub(crate) fn limbs_zero(l: usize) -> (r: Vec<u64>)
    ensures
        r@.len() == l,
        limbs_val(r@) == 0,
        high_zero(r@, 0),
{
    let mut r: Vec<u64> = Vec::new();
    let mut i: usize = 0;
    while i < l
        invariant
            i <= l,
            r@.len() == i,
            limbs_val(r@) == 0,
            high_zero(r@, 0),
        decreases l - i,
    {
        proof {
            lemma_limbs_snoc(r@, 0u64);
        }
        r.push(0);
        i += 1;
    }
    r
}

/// A 128-bit value as `l` limbs (`l >= 2`).
pub(crate) fn limbs_of_u128(x: u128, l: usize) -> (r: Vec<u64>)
    requires
        l >= 2,
    ensures
        r@.len() == l,
        limbs_val(r@) == x,
{
    let lo: u64 = (x % 0x10000000000000000) as u64;
    proof {
        lemma2_to64();
        lemma_pow2_adds(64, 64);
        lemma_fundamental_div_mod(x as int, 0x10000000000000000);
        lemma_fundamental_div_mod_converse(
            0xffffffffffffffffffffffffffffffff,
            0x10000000000000000,
            0xffffffffffffffff,
            0xffffffffffffffff,
        );
        vstd::arithmetic::div_mod::lemma_div_is_ordered(
            x as int,
            0xffffffffffffffffffffffffffffffff,
            0x10000000000000000,
        );
    }
    let hi: u64 = (x / 0x10000000000000000) as u64;
    let mut r: Vec<u64> = Vec::new();
    r.push(lo);
    r.push(hi);
    proof {
        let s1 = r@.subrange(1, 2);
        assert(s1.len() == 1 && s1[0] == hi);
        assert(s1.subrange(1, 1) =~= Seq::<u64>::empty());
        assert(limbs_val(s1.subrange(1, 1)) == 0);
        assert(limbs_val(s1) == hi + pow2(64) * 0);
        assert(limbs_val(r@) == lo + pow2(64) * limbs_val(s1));
        assert(limbs_val(r@) == lo + pow2(64) * hi);
        assert(lo + pow2(64) * hi == x);
    }
    let mut i: usize = 2;
    while i < l
        invariant
            2 <= i <= l,
            r@.len() == i,
            limbs_val(r@) == x,
        decreases l - i,
    {
        proof {
            lemma_limbs_snoc(r@, 0u64);
        }
        r.push(0);
        i += 1;
    }
    r
}

/// Limb-wise sum of two equally long numbers whose sum still fits.
pub(crate) fn limbs_add(a: &Vec<u64>, b: &Vec<u64>) -> (r: Vec<u64>)
    requires
        a@.len() == b@.len(),
        limbs_val(a@) + limbs_val(b@) < pow2(64 * a@.len()),
    ensures
        r@.len() == a@.len(),
        limbs_val(r@) == limbs_val(a@) + limbs_val(b@),
{
    let n = a.len();
    let mut r: Vec<u64> = Vec::new();
    let mut carry: u64 = 0;
    let mut i: usize = 0;
    while i < n
        invariant
            i <= n,
            n == a@.len() == b@.len(),
            r@.len() == i,
            carry <= 1,
            limbs_val(r@) + pow2(64 * i as nat) * carry == limbs_val(a@.subrange(0, i as int))
                + limbs_val(b@.subrange(0, i as int)),
        decreases n - i,
    {
        let t: u128 = a[i] as u128 + b[i] as u128 + carry as u128;
        let limb: u64 = (t % 0x10000000000000000) as u64;
        let c2: u64 = if t >= 0x10000000000000000 { 1 } else { 0 };
        proof {
            lemma2_to64();
            lemma_fundamental_div_mod(t as int, 0x10000000000000000);
            lemma_fundamental_div_mod_converse(
                t as int,
                0x10000000000000000,
                c2 as int,
                t - c2 * 0x10000000000000000,
            );
            assert(limb + pow2(64) * c2 == t);
            lemma_limbs_snoc(r@, limb);
            assert(a@.subrange(0, i + 1) =~= a@.subrange(0, i as int).push(a@[i as int]));
            assert(b@.subrange(0, i + 1) =~= b@.subrange(0, i as int).push(b@[i as int]));
            lemma_limbs_snoc(a@.subrange(0, i as int), a@[i as int]);
            lemma_limbs_snoc(b@.subrange(0, i as int), b@[i as int]);
            lemma_pow2_adds(64 * i as nat, 64);
            let p = pow2(64 * i as nat) as int;
            assert(p * limb + (p * pow2(64)) * c2 == p * (limb + pow2(64) * c2))
                by (nonlinear_arith);
            assert(p * (limb + pow2(64) * c2) == p * (a@[i as int] + b@[i as int] + carry))
                by (nonlinear_arith)
                requires
                    limb + pow2(64) * c2 == a@[i as int] + b@[i as int] + carry,
            ;
            assert(p * (a@[i as int] + b@[i as int] + carry) == p * a@[i as int] + p * b@[
                i as int
            ] + p * carry) by (nonlinear_arith);
        }
        r.push(limb);
        carry = c2;
        i += 1;
    }
    proof {
        assert(a@.subrange(0, n as int) =~= a@);
        assert(b@.subrange(0, n as int) =~= b@);
        if carry == 1 {
            lemma_limbs_nonneg(r@);
            assert(false);
        }
    }
    r
}

/// Limb-wise difference when the first number is at least the second;
/// reports `None` when it is smaller, changing nothing.
pub(crate) fn limbs_try_sub(a: &Vec<u64>, b: &Vec<u64>) -> (r: Option<Vec<u64>>)
    requires
        a@.len() == b@.len(),
    ensures
        match r {
            Some(d) => {
                &&& d@.len() == a@.len()
                &&& limbs_val(d@) == limbs_val(a@) - limbs_val(b@)
            },
            None => limbs_val(a@) < limbs_val(b@),
        },
{
    let n = a.len();
    let mut r: Vec<u64> = Vec::new();
    let mut borrow: u64 = 0;
    let mut i: usize = 0;
    while i < n
        invariant
            i <= n,
            n == a@.len() == b@.len(),
            r@.len() == i,
            borrow <= 1,
            limbs_val(r@) == limbs_val(a@.subrange(0, i as int)) - limbs_val(
                b@.subrange(0, i as int),
            ) + pow2(64 * i as nat) * borrow,
        decreases n - i,
    {
        let t: u128 = 0x10000000000000000u128 + a[i] as u128 - b[i] as u128 - borrow as u128;
        let limb: u64 = (t % 0x10000000000000000) as u64;
        let b2: u64 = if t >= 0x10000000000000000 { 0 } else { 1 };
        proof {
            lemma2_to64();
            lemma_fundamental_div_mod_converse(
                t as int,
                0x10000000000000000,
                1 - b2 as int,
                t - (1 - b2 as int) * 0x10000000000000000,
            );
            assert(limb == t - (1 - b2 as int) * 0x10000000000000000);
            assert(limb == a@[i as int] - b@[i as int] - borrow + pow2(64) * b2);
            lemma_limbs_snoc(r@, limb);
            assert(a@.subrange(0, i + 1) =~= a@.subrange(0, i as int).push(a@[i as int]));
            assert(b@.subrange(0, i + 1) =~= b@.subrange(0, i as int).push(b@[i as int]));
            lemma_limbs_snoc(a@.subrange(0, i as int), a@[i as int]);
            lemma_limbs_snoc(b@.subrange(0, i as int), b@[i as int]);
            lemma_pow2_adds(64 * i as nat, 64);
            let p = pow2(64 * i as nat) as int;
            assert(p * limb == p * (a@[i as int] - b@[i as int] - borrow) + (p * pow2(64)) * b2)
                by (nonlinear_arith)
                requires
                    limb == a@[i as int] - b@[i as int] - borrow + pow2(64) * b2,
            ;
            assert(p * (a@[i as int] - b@[i as int] - borrow) == p * a@[i as int] - p * b@[
                i as int
            ] - p * borrow) by (nonlinear_arith);
        }
        r.push(limb);
        borrow = b2;
        i += 1;
    }
    proof {
        assert(a@.subrange(0, n as int) =~= a@);
        assert(b@.subrange(0, n as int) =~= b@);
        if borrow == 1 {
            lemma_limbs_bound(r@);
        }
    }
    if borrow == 1 {
        None
    } else {
        Some(r)
    }
}

/// The product of a limb number and a 128-bit factor, by binary
/// decomposition of the factor; the number must have 128 bits of
/// headroom.
pub(crate) fn limbs_mul_u128(a: &Vec<u64>, m: u128) -> (r: Vec<u64>)
    requires
        limbs_val(a@) * pow2(128) < pow2(64 * a@.len()),
        a@.len() >= 2,
    ensures
        r@.len() == a@.len(),
        limbs_val(r@) == limbs_val(a@) * m,
{
    let n = a.len();
    let mut acc: Vec<u64> = limbs_zero(n);
    let mut cur: Vec<u64> = limbs_copy(a);
    let mut mm: u128 = m;
    let mut jjj: Ghost<nat> = Ghost(0nat);
    proof {
        assert(pow2(0) == 1) by {
            lemma2_to64();
        }
        lemma_limbs_nonneg(a@);
        vstd::arithmetic::div_mod::lemma_div_by_multiple(m as int, 1);
        assert(limbs_val(cur@) == limbs_val(a@) * pow2(0)) by (nonlinear_arith)
            requires
                limbs_val(cur@) == limbs_val(a@),
                pow2(0) == 1,
        ;
        assert(limbs_val(acc@) + limbs_val(cur@) * (m as int) == limbs_val(a@) * (m as int))
            by (nonlinear_arith)
            requires
                limbs_val(acc@) == 0,
                limbs_val(cur@) == limbs_val(a@),
        ;
    }
    while mm > 0
        invariant
            n == a@.len() >= 2,
            acc@.len() == n,
            cur@.len() == n,
            limbs_val(a@) >= 0,
            limbs_val(a@) * pow2(128) < pow2(64 * n as nat),
            mm == m as int / pow2(jjj@) as int,
            limbs_val(cur@) == limbs_val(a@) * pow2(jjj@),
            limbs_val(acc@) + limbs_val(cur@) * (mm as int) == limbs_val(a@) * (m as int),
            limbs_val(acc@) >= 0,
            limbs_val(cur@) >= 0,
        decreases mm,
    {
        let ghost j = jjj@;
        let ghost acc0 = limbs_val(acc@);
        let ghost cur0 = limbs_val(cur@);
        let ghost mm0 = mm as int;
        proof {
            // mm >= 1 forces pow2(j) <= m < pow2(128), hence j < 128
            lemma_pow2_pos(j);
            lemma2_to64();
            lemma_pow2_adds(64, 64);
            assert(m < pow2(128));
            if j >= 128 {
                if j > 128 {
                    lemma_pow2_strictly_increases(128, j);
                }
                assert(m < pow2(j));
                vstd::arithmetic::div_mod::lemma_basic_div_specific_divisor(pow2(j) as int);
                assert(false);
            }
            lemma_pow2_adds(j, 1);
            assert(pow2(1) == 2);
            if j + 1 < 128 {
                lemma_pow2_strictly_increases((j + 1) as nat, 128);
            }
            assert(pow2((j + 1) as nat) <= pow2(128));
            // m * a stays under the width bound
            assert(limbs_val(a@) * (m as int) <= limbs_val(a@) * pow2(128)) by (nonlinear_arith)
                requires
                    m <= pow2(128),
                    limbs_val(a@) >= 0,
            ;
            // headroom for the doubling
            assert(limbs_val(cur@) * 2 <= limbs_val(a@) * pow2(128)) by (nonlinear_arith)
                requires
                    limbs_val(cur@) == limbs_val(a@) * pow2(j),
                    pow2(j) * 2 == pow2((j + 1) as nat),
                    pow2((j + 1) as nat) <= pow2(128),
                    limbs_val(a@) >= 0,
            ;
        }
        let bit_set = mm % 2 == 1;
        if bit_set {
            proof {
                assert(acc0 + cur0 <= acc0 + cur0 * mm0) by (nonlinear_arith)
                    requires
                        mm0 >= 1,
                        cur0 >= 0,
                ;
            }
            acc = limbs_add(&acc, &cur);
        }
        let ghost acc1 = limbs_val(acc@);
        cur = limbs_add(&cur, &cur);
        mm = mm / 2;
        jjj = Ghost((jjj@ + 1) as nat);
        proof {
            lemma_fundamental_div_mod(mm0, 2);
            lemma_div_denominator(m as int, pow2(j) as int, 2);
            assert(acc1 == acc0 + (if bit_set { cur0 } else { 0 }));
            assert(mm0 == 2 * (mm as int) + (if bit_set { 1int } else { 0int }));
            assert(limbs_val(cur@) == limbs_val(a@) * pow2(jjj@)) by (nonlinear_arith)
                requires
                    limbs_val(cur@) == cur0 + cur0,
                    cur0 == limbs_val(a@) * pow2(j),
                    pow2(jjj@) == pow2(j) * 2,
            ;
            assert(acc1 + (cur0 + cur0) * (mm as int) == limbs_val(a@) * (m as int))
                by (nonlinear_arith)
                requires
                    acc0 + cur0 * mm0 == limbs_val(a@) * (m as int),
                    mm0 == 2 * (mm as int) + (if bit_set { 1int } else { 0int }),
                    acc1 == acc0 + (if bit_set { cur0 } else { 0 }),
            ;
            lemma_limbs_nonneg(acc@);
            lemma_limbs_nonneg(cur@);
        }
    }
    proof {
        assert(limbs_val(acc@) == limbs_val(a@) * (m as int)) by (nonlinear_arith)
            requires
                limbs_val(acc@) + limbs_val(cur@) * 0 == limbs_val(a@) * (m as int),
        ;
    }
    acc
}

/// The same number over `l >= len` limbs.
pub(crate) fn limbs_resize(a: &Vec<u64>, l: usize) -> (r: Vec<u64>)
    requires
        a@.len() <= l,
    ensures
        r@.len() == l,
        limbs_val(r@) == limbs_val(a@),
{
    let mut r = limbs_copy(a);
    let mut i: usize = a.len();
    while i < l
        invariant
            a@.len() <= i <= l,
            r@.len() == i,
            limbs_val(r@) == limbs_val(a@),
        decreases l - i,
    {
        proof {
            lemma_limbs_snoc(r@, 0u64);
        }
        r.push(0);
        i += 1;
    }
    r
}

/// The number scaled by `pow2(k)`, by `k` doublings, within its width.
pub(crate) fn limbs_shift(d: &Vec<u64>, k: usize) -> (r: Vec<u64>)
    requires
        limbs_val(d@) * pow2(k as nat) < pow2(64 * d@.len()),
    ensures
        r@.len() == d@.len(),
        limbs_val(r@) == limbs_val(d@) * pow2(k as nat),
{
    let mut s = limbs_copy(d);
    let mut j: usize = 0;
    proof {
        lemma_limbs_nonneg(d@);
        assert(pow2(0) == 1) by {
            lemma2_to64();
        }
        assert(limbs_val(s@) == limbs_val(d@) * pow2(0)) by (nonlinear_arith)
            requires
                limbs_val(s@) == limbs_val(d@),
                pow2(0) == 1,
        ;
    }
    while j < k
        invariant
            j <= k,
            s@.len() == d@.len(),
            limbs_val(d@) >= 0,
            limbs_val(s@) == limbs_val(d@) * pow2(j as nat),
            limbs_val(d@) * pow2(k as nat) < pow2(64 * d@.len()),
        decreases k - j,
    {
        proof {
            lemma_pow2_adds(j as nat, 1);
            assert(pow2(1) == 2) by {
                lemma2_to64();
            }
            if j + 1 < k {
                lemma_pow2_strictly_increases((j + 1) as nat, k as nat);
            }
            assert(pow2((j + 1) as nat) <= pow2(k as nat));
            assert(limbs_val(s@) + limbs_val(s@) == limbs_val(d@) * pow2((j + 1) as nat))
                by (nonlinear_arith)
                requires
                    limbs_val(s@) == limbs_val(d@) * pow2(j as nat),
                    pow2((j + 1) as nat) == pow2(j as nat) * 2,
            ;
            assert(limbs_val(d@) * pow2((j + 1) as nat) <= limbs_val(d@) * pow2(k as nat))
                by (nonlinear_arith)
                requires
                    limbs_val(d@) >= 0,
                    pow2((j + 1) as nat) <= pow2(k as nat),
            ;
        }
        s = limbs_add(&s, &s);
        j += 1;
    }
    s
}

/// The quotient of a limb number by a nonzero 128-bit divisor, by
/// restoring long division over the number's bits.
pub(crate) fn limbs_div_u128(n: &Vec<u64>, d: u128) -> (q: Vec<u64>)
    requires
        d >= 1,
        2 <= n@.len() <= 1000,
    ensures
        q@.len() == n@.len() + 2,
        limbs_val(q@) == limbs_val(n@) / d as int,
{
    let l: usize = n.len() + 2;
    let k_total: usize = 64 * n.len();
    let dv = limbs_of_u128(d, l);
    let mut r = limbs_resize(n, l);
    let mut q = limbs_zero(l);
    let one = limbs_of_u128(1, l);
    let mut kk: usize = k_total;
    proof {
        lemma_limbs_bound(n@);
        lemma_limbs_nonneg(n@);
        lemma2_to64();
        lemma_pow2_adds(64, 64);
        lemma_pow2_pos(kk as nat);
        assert(limbs_val(q@) * ((d as int) * pow2(kk as nat)) == 0) by (nonlinear_arith)
            requires
                limbs_val(q@) == 0,
        ;
        assert(limbs_val(n@) < (d as int) * pow2(kk as nat)) by (nonlinear_arith)
            requires
                d >= 1,
                limbs_val(n@) < pow2(kk as nat),
                pow2(kk as nat) >= 1,
        ;
    }
    while kk > 0
        invariant
            2 <= n@.len() <= 1000,
            l == n@.len() + 2,
            k_total == 64 * n@.len(),
            kk <= k_total,
            d >= 1,
            d < pow2(128),
            pow2(128) == 0x100000000000000000000000000000000,
            limbs_val(dv@) == d,
            dv@.len() == l,
            limbs_val(one@) == 1,
            one@.len() == l,
            q@.len() == l,
            r@.len() == l,
            limbs_val(n@) >= 0,
            limbs_val(n@) < pow2(64 * n@.len()),
            limbs_val(q@) >= 0,
            limbs_val(r@) >= 0,
            limbs_val(q@) <= limbs_val(n@),
            limbs_val(q@) * ((d as int) * pow2(kk as nat)) + limbs_val(r@) == limbs_val(n@),
            limbs_val(r@) < (d as int) * pow2(kk as nat),
        decreases kk,
    {
        kk -= 1;
        let ghost q0 = limbs_val(q@);
        let ghost r0 = limbs_val(r@);
        proof {
            // width bound for the shifted divisor
            lemma_pow2_adds(128, kk as nat);
            lemma_pow2_pos(kk as nat);
            assert(128 + kk < 64 * l) by (nonlinear_arith)
                requires
                    kk < k_total,
                    k_total == 64 * n@.len(),
                    l == n@.len() + 2,
            ;
            lemma_pow2_strictly_increases((128 + kk) as nat, 64 * l as nat);
            assert((d as int) * pow2(kk as nat) < pow2(128) * pow2(kk as nat))
                by (nonlinear_arith)
                requires
                    d < pow2(128),
                    pow2(kk as nat) >= 1,
            ;
            // headroom to double the quotient (and add one)
            assert(pow2(1) == 2) by {
                lemma2_to64();
            }
            lemma_pow2_adds(64 * n@.len() as nat, 1);
            lemma_pow2_strictly_increases((64 * n@.len() + 1) as nat, 64 * l as nat);
            assert(limbs_val(q@) + limbs_val(q@) + 1 < pow2(64 * l as nat)) by (nonlinear_arith)
                requires
                    limbs_val(q@) <= limbs_val(n@),
                    limbs_val(n@) < pow2(64 * n@.len()),
                    pow2((64 * n@.len() + 1) as nat) == pow2(64 * n@.len()) * 2,
                    pow2((64 * n@.len() + 1) as nat) < pow2(64 * l as nat),
            ;
        }
        let s = limbs_shift(&dv, kk);
        q = limbs_add(&q, &q);
        proof {
            lemma_pow2_adds(kk as nat, 1);
            assert(pow2(1) == 2) by {
                lemma2_to64();
            }
            assert((d as int) * pow2((kk + 1) as nat) == 2 * ((d as int) * pow2(kk as nat)))
                by (nonlinear_arith)
                requires
                    pow2((kk + 1) as nat) == pow2(kk as nat) * 2,
            ;
        }
        match limbs_try_sub(&r, &s) {
            Some(r2) => {
                r = r2;
                q = limbs_add(&q, &one);
                proof {
                    assert((2 * q0 + 1) * ((d as int) * pow2(kk as nat)) + (r0 - (d as int)
                        * pow2(kk as nat)) == q0 * (2 * ((d as int) * pow2(kk as nat))) + r0)
                        by (nonlinear_arith);
                    lemma_pow2_pos(kk as nat);
                    assert(limbs_val(q@) <= limbs_val(q@) * ((d as int) * pow2(kk as nat)))
                        by (nonlinear_arith)
                        requires
                            limbs_val(q@) >= 0,
                            d >= 1,
                            pow2(kk as nat) >= 1,
                    ;
                }
            },
            None => {
                proof {
                    assert((2 * q0) * ((d as int) * pow2(kk as nat)) + r0 == q0 * (2 * ((
                    d as int) * pow2(kk as nat))) + r0) by (nonlinear_arith);
                    lemma_pow2_pos(kk as nat);
                    assert(limbs_val(q@) <= limbs_val(q@) * ((d as int) * pow2(kk as nat)))
                        by (nonlinear_arith)
                        requires
                            limbs_val(q@) >= 0,
                            d >= 1,
                            pow2(kk as nat) >= 1,
                    ;
                }
            },
        }
        proof {
            lemma_limbs_nonneg(r@);
        }
    }
    proof {
        assert(pow2(0) == 1);
        assert(limbs_val(q@) * ((d as int) * 1) + limbs_val(r@) == limbs_val(n@));
        assert(limbs_val(q@) * (d as int) == limbs_val(q@) * ((d as int) * 1)) by (nonlinear_arith);
        lemma_fundamental_div_mod_converse(
            limbs_val(n@),
            d as int,
            limbs_val(q@),
            limbs_val(r@),
        );
    }
    q
}

/// The number as a 128-bit value, or `None` when it does not fit.
pub(crate) fn limbs_to_u128(q: &Vec<u64>) -> (r: Option<u128>)
    requires
        q@.len() >= 2,
    ensures
        match r {
            Some(x) => x == limbs_val(q@),
            None => limbs_val(q@) > u128::MAX,
        },
{
    let mut i: usize = 2;
    while i < q.len()
        invariant
            2 <= i <= q@.len(),
            forall|j: int| 2 <= j < i ==> q@[j] == 0,
        decreases q@.len() - i,
    {
        if q[i] != 0 {
            proof {
                lemma_limbs_lower(q@, i as int);
                lemma2_to64();
                lemma_pow2_adds(64, 64);
                if 128 < 64 * i {
                    lemma_pow2_strictly_increases(128, 64 * i as nat);
                }
                assert(pow2(64 * i as nat) >= pow2(128));
            }
            return None;
        }
        i += 1;
    }
    proof {
        lemma_limbs_two(q@);
        lemma2_to64();
    }
    let x: u128 = q[0] as u128 + (q[1] as u128) * 0x10000000000000000u128;
    Some(x)
}

/// A copy of a limb vector.
pub(crate) fn limbs_copy(a: &Vec<u64>) -> (r: Vec<u64>)
    ensures
        r@ == a@,
{
    let mut r: Vec<u64> = Vec::new();
    let mut i: usize = 0;
    while i < a.len()
        invariant
            i <= a@.len(),
            r@ == a@.subrange(0, i as int),
        decreases a@.len() - i,
    {
        r.push(a[i]);
        proof {
            assert(a@.subrange(0, i + 1) =~= a@.subrange(0, i as int).push(a@[i as int]));
        }
        i += 1;
    }
    proof {
        assert(a@.subrange(0, a@.len() as int) =~= a@);
    }
    r
}

} // verus!
