//! Least common multiple through prime factorization.
use super::gcd::{
    all_positive, find_value, gcd_value, lcm_value, lemma_common_remaining_split, lemma_factors_positive,
    lemma_product_positive, lemma_remove_one_absent, lemma_remove_one_at, lemma_remove_one_positive,
    remaining_factors, remove_one,
};
use super::prime::{prime_factors, product, PrimeFactorizable};
use vstd::prelude::*;

verus! {

/// `t` less one occurrence of each element of `s`, with its product.
fn remaining_product(t: &Vec<u32>, s: &Vec<u32>) -> (r: u64)
    requires
        all_positive(t@),
        product(t@) <= u32::MAX,
    ensures
        r as int == product(remaining_factors(t@, s@)),
        1 <= r <= product(t@),
{
    let mut rest: Vec<u32> = Vec::new();
    let mut k: usize = 0;
    while k < t.len()
        invariant
            k <= t@.len(),
            rest@ == t@.subrange(0, k as int),
        decreases t@.len() - k,
    {
        rest.push(t[k]);
        k += 1;
        assert(rest@ =~= t@.subrange(0, k as int));
    }
    assert(rest@ =~= t@);
    let mut i: usize = 0;
    assert(s@.subrange(0, s@.len() as int) =~= s@);
    while i < s.len()
        invariant
            i <= s@.len(),
            all_positive(rest@),
            product(rest@) <= product(t@),
            remaining_factors(rest@, s@.subrange(i as int, s@.len() as int)) == remaining_factors(t@, s@),
        decreases s@.len() - i,
    {
        let x = s[i];
        let ghost tail = s@.subrange(i as int, s@.len() as int);
        assert(tail[0] == x);
        assert(tail.drop_first() =~= s@.subrange(i as int + 1, s@.len() as int));
        proof {
            lemma_remove_one_positive(rest@, x);
        }
        match find_value(&rest, x) {
            Some(j) => {
                proof {
                    lemma_remove_one_at(rest@, x, j as int);
                }
                rest.remove(j);
            },
            None => {
                proof {
                    lemma_remove_one_absent(rest@, x);
                }
            },
        }
        i += 1;
    }
    assert(s@.subrange(s@.len() as int, s@.len() as int) =~= Seq::<u32>::empty());
    let mut acc: u64 = 1;
    let mut m: usize = 0;
    proof {
        lemma_product_positive(rest@);
        assert(rest@.subrange(0, rest@.len() as int) =~= rest@);
    }
    while m < rest.len()
        invariant
            m <= rest@.len(),
            all_positive(rest@),
            acc >= 1,
            acc as int * product(rest@.subrange(m as int, rest@.len() as int)) == product(rest@),
            product(rest@) <= u32::MAX,
        decreases rest@.len() - m,
    {
        let ghost tail = rest@.subrange(m as int, rest@.len() as int);
        let ghost next = rest@.subrange(m as int + 1, rest@.len() as int);
        assert(tail.drop_first() =~= next);
        assert(tail[0] == rest@[m as int]);
        proof {
            assert(all_positive(next));
            lemma_product_positive(next);
            let a = acc as int;
            let x = rest@[m as int] as int;
            let pn = product(next);
            assert(a * (x * pn) == (a * x) * pn) by (nonlinear_arith);
            assert(a * x <= (a * x) * pn) by (nonlinear_arith)
                requires
                    a >= 1,
                    x >= 1,
                    pn >= 1,
            ;
            assert(a * x >= 1) by (nonlinear_arith)
                requires
                    a >= 1,
                    x >= 1,
            ;
        }
        acc = acc * rest[m] as u64;
        m += 1;
    }
    assert(rest@.subrange(rest@.len() as int, rest@.len() as int) =~= Seq::<u32>::empty());
    acc
}

/// The least common multiple of `a` and `b`, exactly.
pub(crate) fn lcm_wide(a: u32, b: u32) -> (r: u64)
    requires
        a >= 1,
        b >= 1,
    ensures
        r as int == lcm_value(a as int, b as int),
        a <= r <= a as int * b as int,
{
    let fa = a.prime_factorize();
    let fb = b.prime_factorize();
    proof {
        lemma_factors_positive(a as int);
        lemma_factors_positive(b as int);
    }
    let rest = remaining_product(&fb, &fa);
    let ghost pr = rest as int;
    assert(a as int * pr <= a as int * b as int) by (nonlinear_arith)
        requires
            pr <= b,
            a >= 1,
    ;
    assert(a as int <= a as int * pr) by (nonlinear_arith)
        requires
            pr >= 1,
            a >= 1,
    ;
    assert(a as int * b as int <= 0xffff_fffe_0000_0001) by (nonlinear_arith)
        requires
            a <= 0xffff_ffffu32,
            b <= 0xffff_ffffu32,
    ;
    a as u64 * rest
}

/// Gets the least common multiple of two integers: the product of the prime
/// factors either holds, each with the larger multiplicity. A result above
/// `i32::MAX` wraps around, as `u32` to `i32` does.
pub fn lcm(a: u32, b: u32) -> (r: i32)
    requires
        a >= 1,
        b >= 1,
        lcm_value(a as int, b as int) <= u32::MAX,
    ensures
        lcm_value(a as int, b as int) <= i32::MAX ==> r as int == lcm_value(a as int, b as int),
        lcm_value(a as int, b as int) > i32::MAX ==> r as int == lcm_value(a as int, b as int) - 0x1_0000_0000,
{
    let l = lcm_wide(a, b);
    if l <= 0x7fff_ffff {
        l as i32
    } else {
        (l as i64 - 0x1_0000_0000i64) as i32
    }
}

/// For all positive `a` and `b`, the gcd times the lcm is the product `a * b`.
pub proof fn lemma_gcd_times_lcm(a: int, b: int)
    requires
        1 <= a <= u32::MAX,
        1 <= b <= u32::MAX,
    ensures
        gcd_value(a, b) * lcm_value(a, b) == a * b,
{
    let fa = prime_factors(a);
    let fb = prime_factors(b);
    lemma_factors_positive(a);
    lemma_factors_positive(b);
    lemma_common_remaining_split(fa, fb);
    let g = product(crate::math::gcd::common_factors(fa, fb));
    let r = product(remaining_factors(fb, fa));
    assert(g * (a * r) == a * (g * r)) by (nonlinear_arith);
}

} // verus!
