//! Greatest common divisor through prime factorization.
use super::prime::{is_prime_number, lemma_prime_factors, prime_factors, product, PrimeFactorizable};
use vstd::arithmetic::power::pow;
use vstd::arithmetic::div_mod::lemma_mul_mod_noop_left;
use vstd::prelude::*;

verus! {

/// `t` with its first occurrence of `x` taken out (unchanged when there is none).
pub open spec fn remove_one(t: Seq<u32>, x: u32) -> Seq<u32>
    decreases t.len(),
{
    if t.len() == 0 {
        t
    } else if t[0] == x {
        t.drop_first()
    } else {
        seq![t[0]] + remove_one(t.drop_first(), x)
    }
}

/// The elements that `s` and `t` have in common, each as often as it occurs in
/// both (the smaller multiplicity), in the order of `s`.
pub open spec fn common_factors(s: Seq<u32>, t: Seq<u32>) -> Seq<u32>
    decreases s.len(),
{
    if s.len() == 0 {
        seq![]
    } else if t.contains(s[0]) {
        seq![s[0]] + common_factors(s.drop_first(), remove_one(t, s[0]))
    } else {
        common_factors(s.drop_first(), t)
    }
}

/// `t` with one occurrence taken out for each element of `s`.
pub open spec fn remaining_factors(t: Seq<u32>, s: Seq<u32>) -> Seq<u32>
    decreases s.len(),
{
    if s.len() == 0 {
        t
    } else {
        remaining_factors(remove_one(t, s[0]), s.drop_first())
    }
}

/// The greatest common divisor of `a` and `b`: the product of the primes that
/// both factorizations hold, each with the smaller exponent.
pub open spec fn gcd_value(a: int, b: int) -> int {
    product(common_factors(prime_factors(a), prime_factors(b)))
}

/// The least common multiple of `a` and `b`: the product of the primes that
/// either factorization holds, each with the larger exponent.
pub open spec fn lcm_value(a: int, b: int) -> int {
    product(prime_factors(a)) * product(remaining_factors(prime_factors(b), prime_factors(a)))
}

/// Every element of `s` is at least one.
pub open spec fn all_positive(s: Seq<u32>) -> bool {
    forall|i: int| 0 <= i < s.len() ==> #[trigger] s[i] >= 1
}

/// How often `v` occurs in `s`.
pub open spec fn occurrences(s: Seq<u32>, v: u32) -> nat
    decreases s.len(),
{
    if s.len() == 0 {
        0
    } else {
        occurrences(s.drop_last(), v) + if s.last() == v {
            1nat
        } else {
            0nat
        }
    }
}

/// The distinct elements of `s`, in the order of their first occurrence.
pub open spec fn distinct_values(s: Seq<u32>) -> Seq<u32>
    decreases s.len(),
{
    if s.len() == 0 {
        seq![]
    } else if s.drop_last().contains(s.last()) {
        distinct_values(s.drop_last())
    } else {
        distinct_values(s.drop_last()).push(s.last())
    }
}

/// A product of positive numbers is positive.
pub proof fn lemma_product_positive(s: Seq<u32>)
    requires
        all_positive(s),
    ensures
        product(s) >= 1,
    decreases s.len(),
{
    if s.len() > 0 {
        assert(all_positive(s.drop_first()));
        lemma_product_positive(s.drop_first());
        let x = s[0] as int;
        let p = product(s.drop_first());
        assert(x * p >= 1) by (nonlinear_arith)
            requires
                x >= 1,
                p >= 1,
        ;
    }
}

/// Taking out one occurrence of `x` divides the product by `x`.
pub proof fn lemma_remove_one_product(t: Seq<u32>, x: u32)
    requires
        t.contains(x),
    ensures
        product(t) == x as int * product(remove_one(t, x)),
        remove_one(t, x).len() == t.len() - 1,
        forall|v: u32| #[trigger] remove_one(t, x).contains(v) ==> t.contains(v),
    decreases t.len(),
{
    if t[0] != x {
        let rest = t.drop_first();
        let i = choose|i: int| 0 <= i < t.len() && t[i] == x;
        assert(rest[i - 1] == x);
        lemma_remove_one_product(rest, x);
        let r = remove_one(rest, x);
        let u = seq![t[0]] + r;
        assert(u.drop_first() =~= r);
        let a = t[0] as int;
        let pr = product(r);
        assert(product(t) == a * product(rest));
        assert(product(u) == a * pr);
        assert(a * (x as int * pr) == x as int * (a * pr)) by (nonlinear_arith);
        assert forall|v: u32| #[trigger] u.contains(v) implies t.contains(v) by {
            let k = choose|k: int| 0 <= k < u.len() && u[k] == v;
            if k == 0 {
                assert(t[0] == v);
            } else {
                assert(r[k - 1] == v);
                assert(r.contains(v));
                let m = choose|m: int| 0 <= m < rest.len() && rest[m] == v;
                assert(t[m + 1] == v);
            }
        }
    } else {
        assert forall|v: u32| #[trigger] t.drop_first().contains(v) implies t.contains(v) by {
            let m = choose|m: int| 0 <= m < t.drop_first().len() && t.drop_first()[m] == v;
            assert(t[m + 1] == v);
        }
    }
}

/// Taking out an element that does not occur changes nothing.
pub proof fn lemma_remove_one_absent(t: Seq<u32>, x: u32)
    requires
        !t.contains(x),
    ensures
        remove_one(t, x) == t,
    decreases t.len(),
{
    if t.len() > 0 {
        assert(t[0] != x);
        let rest = t.drop_first();
        assert forall|k: int| 0 <= k < rest.len() implies rest[k] != x by {
            assert(t[k + 1] == rest[k]);
        }
        lemma_remove_one_absent(rest, x);
        assert(seq![t[0]] + rest =~= t);
    }
}

/// Taking out the first occurrence at index `j` is `remove(j)`.
pub proof fn lemma_remove_one_at(t: Seq<u32>, x: u32, j: int)
    requires
        0 <= j < t.len(),
        t[j] == x,
        forall|k: int| 0 <= k < j ==> t[k] != x,
    ensures
        remove_one(t, x) == t.remove(j),
    decreases t.len(),
{
    if j == 0 {
        assert(t.drop_first() =~= t.remove(0));
    } else {
        let rest = t.drop_first();
        assert forall|k: int| 0 <= k < j - 1 implies rest[k] != x by {
            assert(rest[k] == t[k + 1]);
        }
        lemma_remove_one_at(rest, x, j - 1);
        assert(seq![t[0]] + rest.remove(j - 1) =~= t.remove(j));
    }
}

/// A sequence of positive numbers keeps only positive numbers when one is taken out.
pub proof fn lemma_remove_one_positive(t: Seq<u32>, x: u32)
    requires
        all_positive(t),
    ensures
        all_positive(remove_one(t, x)),
        product(remove_one(t, x)) <= product(t),
{
    if t.contains(x) {
        lemma_remove_one_product(t, x);
        assert forall|i: int| 0 <= i < remove_one(t, x).len() implies #[trigger] remove_one(t, x)[i] >= 1 by {
            let v = remove_one(t, x)[i];
            assert(remove_one(t, x).contains(v));
            assert(t.contains(v));
        }
        lemma_product_positive(remove_one(t, x));
        let x1 = x as int;
        let p = product(remove_one(t, x));
        let i = choose|i: int| 0 <= i < t.len() && t[i] == x;
        assert(t[i] >= 1);
        assert(p <= x1 * p) by (nonlinear_arith)
            requires
                x1 >= 1,
                p >= 1,
        ;
    } else {
        lemma_remove_one_absent(t, x);
    }
}

/// The product of `t` splits into the part shared with `s` and the rest.
pub proof fn lemma_common_remaining_split(s: Seq<u32>, t: Seq<u32>)
    ensures
        product(t) == product(common_factors(s, t)) * product(remaining_factors(t, s)),
    decreases s.len(),
{
    if s.len() > 0 {
        let x = s[0];
        let s1 = s.drop_first();
        if t.contains(x) {
            let t1 = remove_one(t, x);
            lemma_remove_one_product(t, x);
            lemma_common_remaining_split(s1, t1);
            let c = common_factors(s1, t1);
            assert((seq![x] + c).drop_first() =~= c);
            let pc = product(c);
            let pr = product(remaining_factors(t1, s1));
            assert(x as int * (pc * pr) == (x as int * pc) * pr) by (nonlinear_arith);
        } else {
            lemma_remove_one_absent(t, x);
            lemma_common_remaining_split(s1, t);
        }
    }
}

/// The common part of `s` and `t` multiplies to no more than `s` does.
pub proof fn lemma_common_factors_bound(s: Seq<u32>, t: Seq<u32>)
    requires
        all_positive(s),
    ensures
        1 <= product(common_factors(s, t)) <= product(s),
    decreases s.len(),
{
    if s.len() > 0 {
        let x = s[0];
        let s1 = s.drop_first();
        assert(all_positive(s1));
        assert(s[0] >= 1);
        lemma_product_positive(s1);
        if t.contains(x) {
            lemma_common_factors_bound(s1, remove_one(t, x));
            let c = common_factors(s1, remove_one(t, x));
            assert((seq![x] + c).drop_first() =~= c);
            let pc = product(c);
            let ps = product(s1);
            assert(x as int * pc <= x as int * ps) by (nonlinear_arith)
                requires
                    pc <= ps,
                    x >= 1,
            ;
            assert(x as int * pc >= 1) by (nonlinear_arith)
                requires
                    pc >= 1,
                    x >= 1,
            ;
        } else {
            lemma_common_factors_bound(s1, t);
            let pc = product(common_factors(s1, t));
            let ps = product(s1);
            assert(pc <= x as int * ps) by (nonlinear_arith)
                requires
                    pc <= ps,
                    x >= 1,
                    ps >= 1,
            ;
        }
    }
}

/// The first index of `x` in `t`, if any.
pub(crate) fn find_value(t: &Vec<u32>, x: u32) -> (r: Option<usize>)
    ensures
        match r {
            Some(j) => j < t@.len() && t@[j as int] == x && forall|k: int| 0 <= k < j ==> t@[k] != x,
            None => !t@.contains(x),
        },
{
    let mut j: usize = 0;
    while j < t.len()
        invariant
            j <= t@.len(),
            forall|k: int| 0 <= k < j ==> t@[k] != x,
        decreases t@.len() - j,
    {
        if t[j] == x {
            return Some(j);
        }
        j += 1;
    }
    None
}

/// A copy of `t`.
fn copy_values(t: &Vec<u32>) -> (r: Vec<u32>)
    ensures
        r@ == t@,
{
    let mut r: Vec<u32> = Vec::new();
    let mut i: usize = 0;
    while i < t.len()
        invariant
            i <= t@.len(),
            r@ == t@.subrange(0, i as int),
        decreases t@.len() - i,
    {
        r.push(t[i]);
        i += 1;
        assert(r@ =~= t@.subrange(0, i as int));
    }
    assert(r@ =~= t@);
    r
}

/// The product of the elements that `s` and `t` have in common.
fn common_product(s: &Vec<u32>, t: &Vec<u32>) -> (r: u32)
    requires
        all_positive(s@),
        product(s@) <= u32::MAX,
    ensures
        r as int == product(common_factors(s@, t@)),
{
    let mut rest = copy_values(t);
    let mut acc: u32 = 1;
    let mut i: usize = 0;
    proof {
        lemma_common_factors_bound(s@, t@);
        assert(s@.subrange(0, s@.len() as int) =~= s@);
    }
    while i < s.len()
        invariant
            i <= s@.len(),
            all_positive(s@),
            acc >= 1,
            acc as int * product(common_factors(s@.subrange(i as int, s@.len() as int), rest@))
                == product(common_factors(s@, t@)),
            product(common_factors(s@, t@)) <= u32::MAX,
        decreases s@.len() - i,
    {
        let x = s[i];
        let ghost tail = s@.subrange(i as int, s@.len() as int);
        let ghost next = s@.subrange(i as int + 1, s@.len() as int);
        assert(tail[0] == x);
        assert(tail.drop_first() =~= next);
        proof {
            assert(all_positive(next));
        }
        match find_value(&rest, x) {
            Some(j) => {
                proof {
                    lemma_remove_one_at(rest@, x, j as int);
                    lemma_common_factors_bound(next, remove_one(rest@, x));
                    let c = common_factors(next, remove_one(rest@, x));
                    assert((seq![x] + c).drop_first() =~= c);
                    let pc = product(c);
                    assert(acc as int * (x as int * pc) == (acc as int * x as int) * pc) by (nonlinear_arith);
                    assert(acc as int * x as int <= (acc as int * x as int) * pc) by (nonlinear_arith)
                        requires
                            acc as int * x as int >= 0,
                            pc >= 1,
                    ;
                    assert(acc as int * x as int >= 1) by (nonlinear_arith)
                        requires
                            acc >= 1,
                            x >= 1,
                    ;
                }
                rest.remove(j);
                acc = acc * x;
            },
            None => {},
        }
        i += 1;
    }
    proof {
        assert(s@.subrange(s@.len() as int, s@.len() as int) =~= Seq::<u32>::empty());
    }
    acc
}

/// Gets the gcd of two integers: the product of the prime factors the two
/// share, each with the smaller multiplicity. A gcd above `i32::MAX` wraps
/// around, as `u32` to `i32` does.
pub fn gcd(a: u32, b: u32) -> (r: i32)
    requires
        a >= 1,
        b >= 1,
    ensures
        gcd_value(a as int, b as int) <= i32::MAX ==> r as int == gcd_value(a as int, b as int),
        gcd_value(a as int, b as int) > i32::MAX ==> r as int == gcd_value(a as int, b as int) - 0x1_0000_0000,
        1 <= gcd_value(a as int, b as int) <= a,
{
    let fa = a.prime_factorize();
    let fb = b.prime_factorize();
    proof {
        lemma_factors_positive(a as int);
    }
    let g = common_product(&fa, &fb);
    proof {
        lemma_common_factors_bound(fa@, fb@);
    }
    if g <= 0x7fff_ffff {
        g as i32
    } else {
        (g as i64 - 0x1_0000_0000i64) as i32
    }
}

/// The prime factors of `1 <= n <= u32::MAX` are positive and multiply to `n`.
pub proof fn lemma_factors_positive(n: int)
    requires
        1 <= n <= u32::MAX,
    ensures
        all_positive(prime_factors(n)),
        product(prime_factors(n)) == n,
{
    lemma_prime_factors(n);
    assert forall|i: int| 0 <= i < prime_factors(n).len() implies #[trigger] prime_factors(n)[i] >= 1 by {
        assert(is_prime_number(prime_factors(n)[i] as int));
    }
}

/// Raise something to a power.
pub trait Powerable {
    /// Raise it to a power
    fn power(&self) -> u32;
}

impl Powerable for (u32, u32) {
    /// The first raised to the second, modulo 2^32.
    fn power(&self) -> (r: u32)
        ensures
            r as int == pow(self.0 as int, self.1 as nat) % 0x1_0000_0000,
    {
        let mut acc: u32 = 1;
        let mut i: u32 = 0;
        proof {
            reveal(pow);
        }
        while i < self.1
            invariant
                i <= self.1,
                acc as int == pow(self.0 as int, i as nat) % 0x1_0000_0000,
            decreases self.1 - i,
        {
            proof {
                reveal(pow);
                lemma_mul_mod_noop_left(pow(self.0 as int, i as nat), self.0 as int, 0x1_0000_0000);
                assert(pow(self.0 as int, (i + 1) as nat) == self.0 as int * pow(self.0 as int, i as nat));
                assert(self.0 as int * pow(self.0 as int, i as nat) == pow(self.0 as int, i as nat) * self.0 as int) by (nonlinear_arith);
            }
            acc = acc.wrapping_mul(self.0);
            i += 1;
        }
        acc
    }
}

/// Generate powers.
pub trait Powers {
    /// Each distinct value with the number of times it occurs
    fn generate_powers(&self) -> Vec<(u32, u32)>;
}

/// How often `v` occurs in `s`, counted.
fn count_value(s: &Vec<u32>, v: u32) -> (r: usize)
    ensures
        r as nat == occurrences(s@, v),
{
    let mut n: usize = 0;
    let mut i: usize = 0;
    while i < s.len()
        invariant
            i <= s@.len(),
            n as nat == occurrences(s@.subrange(0, i as int), v),
            n <= i,
        decreases s@.len() - i,
    {
        proof {
            assert(s@.subrange(0, i as int + 1).drop_last() =~= s@.subrange(0, i as int));
        }
        if s[i] == v {
            n += 1;
        }
        i += 1;
    }
    assert(s@.subrange(0, s@.len() as int) =~= s@);
    n
}

impl Powers for Vec<u32> {
    /// Pairs each distinct value, in the order it first occurs, with its count.
    fn generate_powers(&self) -> (r: Vec<(u32, u32)>)
        ensures
            r@.map_values(|p: (u32, u32)| p.0) == distinct_values(self@),
            self@.len() <= u32::MAX ==> forall|i: int| 0 <= i < r@.len() ==> #[trigger] r@[i].1 as nat == occurrences(self@, r@[i].0),
    {
        let mut powers: Vec<(u32, u32)> = Vec::new();
        let mut i: usize = 0;
        while i < self.len()
            invariant
                i <= self@.len(),
                powers@.map_values(|p: (u32, u32)| p.0) == distinct_values(self@.subrange(0, i as int)),
                self@.len() <= u32::MAX ==> forall|k: int| 0 <= k < powers@.len() ==> #[trigger] powers@[k].1 as nat == occurrences(self@, powers@[k].0),
            decreases self@.len() - i,
        {
            let val = self[i];
            let ghost pre = self@.subrange(0, i as int);
            let ghost firsts = powers@.map_values(|p: (u32, u32)| p.0);
            proof {
                assert(self@.subrange(0, i as int + 1).drop_last() =~= pre);
                lemma_distinct_values_contains(pre);
            }
            let mut seen = false;
            let mut k: usize = 0;
            while k < powers.len()
                invariant
                    k <= powers@.len(),
                    firsts == powers@.map_values(|p: (u32, u32)| p.0),
                    seen == exists|m: int| 0 <= m < k && powers@[m].0 == val,
                decreases powers@.len() - k,
            {
                if powers[k].0 == val {
                    seen = true;
                }
                k += 1;
            }
            proof {
                if seen {
                    let m = choose|m: int| 0 <= m < k && powers@[m].0 == val;
                    assert(firsts[m] == val);
                    assert(firsts.contains(val));
                } else {
                    assert forall|m: int| 0 <= m < firsts.len() implies firsts[m] != val by {
                        assert(firsts[m] == powers@[m].0);
                    }
                }
                let s1 = self@.subrange(0, i as int + 1);
                assert(s1.last() == val);
                assert(s1.drop_last() =~= pre);
                assert(firsts == distinct_values(pre));
                assert(distinct_values(pre).contains(val) == pre.contains(val));
                assert(seen == pre.contains(val));
            }
            if !seen {
                let count = count_value(self, val);
                proof {
                    assert(count <= self@.len()) by {
                        lemma_occurrences_bound(self@, val);
                    }
                }
                powers.push((val, #[verifier::truncate] (count as u32)));
                proof {
                    assert(powers@.map_values(|p: (u32, u32)| p.0) =~= firsts.push(val));
                }
            }
            i += 1;
        }
        assert(self@.subrange(0, self@.len() as int) =~= self@);
        powers
    }
}

/// A value occurs in `distinct_values(s)` exactly when it occurs in `s`.
pub proof fn lemma_distinct_values_contains(s: Seq<u32>)
    ensures
        forall|v: u32| #[trigger] distinct_values(s).contains(v) <==> s.contains(v),
    decreases s.len(),
{
    if s.len() > 0 {
        let d = s.drop_last();
        lemma_distinct_values_contains(d);
        assert forall|v: u32| #[trigger] distinct_values(s).contains(v) <==> s.contains(v) by {
            if s.contains(v) {
                let k = choose|k: int| 0 <= k < s.len() && s[k] == v;
                if k < d.len() {
                    assert(d[k] == v);
                    assert(d.contains(v));
                }
            }
            if d.contains(v) {
                let k = choose|k: int| 0 <= k < d.len() && d[k] == v;
                assert(s[k] == v);
            }
            if !d.contains(s.last()) {
                let e = distinct_values(d);
                assert(e.push(s.last())[e.len() as int] == s.last());
                if e.push(s.last()).contains(v) {
                    let k = choose|k: int| 0 <= k < e.len() + 1 && e.push(s.last())[k] == v;
                    if k < e.len() {
                        assert(e[k] == v);
                    }
                }
                if e.contains(v) {
                    let k = choose|k: int| 0 <= k < e.len() && e[k] == v;
                    assert(e.push(s.last())[k] == v);
                }
            }
        }
    }
}

/// A value occurs no more often than the sequence is long.
pub proof fn lemma_occurrences_bound(s: Seq<u32>, v: u32)
    ensures
        occurrences(s, v) <= s.len(),
    decreases s.len(),
{
    if s.len() > 0 {
        lemma_occurrences_bound(s.drop_last(), v);
    }
}

} // verus!
