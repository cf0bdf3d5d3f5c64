//! Prime numbers and prime factorization.
use vstd::arithmetic::div_mod::{lemma_div_decreases, lemma_fundamental_div_mod, lemma_mod_multiples_basic};
use vstd::prelude::*;

verus! {

/// `p` is prime: at least two, and no divisor strictly between one and itself.
pub open spec fn is_prime_number(p: int) -> bool {
    p >= 2 && forall|d: int| 2 <= d < p ==> #[trigger] (p % d) != 0
}

/// The least divisor of `n` that is at least `d`, or `n` itself when there is none below it.
pub open spec fn least_divisor_from(n: int, d: int) -> int
    decreases n - d,
{
    if d >= n {
        n
    } else if n % d == 0 {
        d
    } else {
        least_divisor_from(n, d + 1)
    }
}

/// The smallest prime factor of `n >= 2`.
pub open spec fn least_prime_factor(n: int) -> int {
    least_divisor_from(n, 2)
}

/// The prime factors of `n`, smallest first, each as often as it divides `n`;
/// empty for `n <= 1`.
pub open spec fn prime_factors(n: int) -> Seq<u32>
    decreases n,
    via prime_factors_decreases
{
    if n <= 1 {
        seq![]
    } else {
        let p = least_prime_factor(n);
        seq![p as u32] + prime_factors(n / p)
    }
}

#[via_fn]
proof fn prime_factors_decreases(n: int) {
    if n > 1 {
        lemma_least_divisor(n, 2);
        lemma_div_decreases(n, least_prime_factor(n));
    }
}

/// The product of the elements of `s`.
pub open spec fn product(s: Seq<u32>) -> int
    decreases s.len(),
{
    if s.len() == 0 {
        1
    } else {
        s[0] as int * product(s.drop_first())
    }
}

/// Each element of `s` is no greater than the next.
pub open spec fn non_decreasing(s: Seq<u32>) -> bool {
    forall|i: int, j: int| 0 <= i <= j < s.len() ==> s[i] <= s[j]
}

/// `n % k == 0` follows from `n % m == 0` and `m % k == 0`.
pub proof fn lemma_divides_trans(k: int, m: int, n: int)
    requires
        k > 0,
        m > 0,
        m % k == 0,
        n % m == 0,
    ensures
        n % k == 0,
{
    lemma_fundamental_div_mod(m, k);
    lemma_fundamental_div_mod(n, m);
    let a = m / k;
    let b = n / m;
    assert(n == k * (a * b)) by (nonlinear_arith)
        requires
            n == m * b,
            m == k * a,
    ;
    assert((a * b) * k == k * (a * b)) by (nonlinear_arith);
    lemma_mod_multiples_basic(a * b, k);
}

/// What `least_divisor_from` returns: a divisor of `n` no smaller than `d`, with
/// no divisor between `d` and it.
pub proof fn lemma_least_divisor(n: int, d: int)
    requires
        2 <= d <= n,
    ensures
        d <= least_divisor_from(n, d) <= n,
        n % least_divisor_from(n, d) == 0,
        forall|k: int| d <= k < least_divisor_from(n, d) ==> #[trigger] (n % k) != 0,
    decreases n - d,
{
    if d < n && n % d != 0 {
        lemma_least_divisor(n, d + 1);
    } else if d >= n {
        assert(n % n == 0) by (nonlinear_arith)
            requires
                n > 0,
        ;
    }
}

/// The least prime factor of `n >= 2` is prime, divides `n`, and when it is
/// not `n` itself its square is at most `n`.
pub proof fn lemma_least_prime_factor(n: int)
    requires
        n >= 2,
    ensures
        is_prime_number(least_prime_factor(n)),
        n % least_prime_factor(n) == 0,
        2 <= least_prime_factor(n) <= n,
        forall|k: int| 2 <= k < least_prime_factor(n) ==> #[trigger] (n % k) != 0,
        least_prime_factor(n) < n ==> least_prime_factor(n) * least_prime_factor(n) <= n,
{
    let m = least_prime_factor(n);
    lemma_least_divisor(n, 2);
    assert forall|k: int| 2 <= k < m implies #[trigger] (m % k) != 0 by {
        if m % k == 0 {
            lemma_divides_trans(k, m, n);
        }
    }
    if m < n {
        lemma_fundamental_div_mod(n, m);
        let c = n / m;
        assert(n == m * c);
        assert(c >= 2) by (nonlinear_arith)
            requires
                n == m * c,
                m < n,
                m >= 2,
        ;
        assert(c < n) by (nonlinear_arith)
            requires
                n == m * c,
                m >= 2,
                c >= 2,
        ;
        assert(c * m == n) by (nonlinear_arith)
            requires
                n == m * c,
        ;
        lemma_mod_multiples_basic(m, c);
        assert(n % c == 0);
        assert(c >= m);
        assert(m * m <= n) by (nonlinear_arith)
            requires
                n == m * c,
                c >= m,
                m >= 2,
        ;
    }
}

/// A number `n >= 2` that no prime `q` with `q * q <= n` divides is prime.
pub proof fn lemma_prime_by_trial(n: int)
    requires
        n >= 2,
        forall|q: int| is_prime_number(q) && q * q <= n ==> #[trigger] (n % q) != 0,
    ensures
        is_prime_number(n),
{
    lemma_least_prime_factor(n);
    let m = least_prime_factor(n);
    if m < n {
        assert(n % m != 0);
    }
}

/// The factors of `n` are prime, smallest first, and multiply to `n`.
pub proof fn lemma_prime_factors(n: int)
    requires
        1 <= n <= u32::MAX,
    ensures
        forall|i: int| 0 <= i < prime_factors(n).len() ==> is_prime_number(#[trigger] prime_factors(n)[i] as int),
        forall|i: int| 0 <= i < prime_factors(n).len() ==> prime_factors(n)[0] <= #[trigger] prime_factors(n)[i],
        non_decreasing(prime_factors(n)),
        product(prime_factors(n)) == n,
    decreases n,
{
    if n > 1 {
        lemma_least_prime_factor(n);
        let p = least_prime_factor(n);
        let c = n / p;
        lemma_fundamental_div_mod(n, p);
        assert(n == p * c);
        assert(c >= 1) by (nonlinear_arith)
            requires
                n == p * c,
                n >= 2,
                p >= 2,
        ;
        lemma_div_decreases(n, p);
        lemma_prime_factors(c);
        let rest = prime_factors(c);
        let s = prime_factors(n);
        assert(s == seq![p as u32] + rest);
        assert(s.drop_first() =~= rest);
        if c > 1 {
            // every factor of the rest is at least p: the least one divides n
            lemma_least_prime_factor(c);
            let q = least_prime_factor(c);
            assert(rest[0] == q as u32);
            lemma_mod_multiples_basic(p, c);
            lemma_divides_trans(q, c, n);
            assert(q >= p);
        }
        assert forall|i: int, j: int| 0 <= i <= j < s.len() implies s[i] <= s[j] by {
            if i > 0 {
                assert(s[i] == rest[i - 1]);
                assert(s[j] == rest[j - 1]);
            } else if j > 0 {
                assert(s[j] == rest[j - 1]);
                assert(rest[0] <= rest[j - 1]);
            }
        }
        assert forall|i: int| 0 <= i < s.len() implies is_prime_number(#[trigger] s[i] as int) by {
            if i > 0 {
                assert(s[i] == rest[i - 1]);
            }
        }
    }
}

/// A generator of the primes in increasing order, keeping those it has handed out.
#[derive(Debug)]
pub struct PrimeMachine {
    /// The primes handed out so far, in increasing order
    cache: Vec<u32>,
}

impl PrimeMachine {
    /// The primes handed out so far.
    pub closed spec fn primes(&self) -> Seq<u32> {
        self.cache@
    }

    /// The last prime handed out, or 1 before the first.
    pub open spec fn last(&self) -> int {
        if self.primes().len() == 0 {
            1
        } else {
            self.primes().last() as int
        }
    }

    /// The primes handed out are all the primes up to the last one, in increasing order.
    pub open spec fn wf(&self) -> bool {
        &&& forall|i: int| 0 <= i < self.primes().len() ==> is_prime_number(#[trigger] self.primes()[i] as int)
        &&& forall|i: int, j: int| 0 <= i < j < self.primes().len() ==> self.primes()[i] < self.primes()[j]
        &&& forall|q: int| is_prime_number(q) && q <= self.last() ==> exists|i: int| 0 <= i < self.primes().len() && #[trigger] self.primes()[i] as int == q
    }

    /// A generator that has handed out nothing yet.
    pub fn new() -> (r: Self)
        ensures
            r.wf(),
            r.primes().len() == 0,
    {
        PrimeMachine { cache: Vec::new() }
    }

    /// Whether some prime handed out so far divides `n`.
    fn has_divisor_of(&self, n: u32) -> (r: bool)
        requires
            self.wf(),
        ensures
            r == exists|i: int| 0 <= i < self.primes().len() && n % #[trigger] self.primes()[i] == 0,
    {
        let mut i: usize = 0;
        while i < self.cache.len()
            invariant
                self.wf(),
                i <= self.cache@.len(),
                forall|k: int| 0 <= k < i ==> n % #[trigger] self.cache@[k] != 0,
            decreases self.cache@.len() - i,
        {
            assert(is_prime_number(self.primes()[i as int] as int));
            if n % self.cache[i] == 0 {
                return true;
            }
            i += 1;
        }
        false
    }

    /// Hands out the next prime: the smallest prime above the last one.
    /// `None` when no prime above the last one fits in a `u32`.
    pub fn next(&mut self) -> (r: Option<u32>)
        requires
            old(self).wf(),
        ensures
            final(self).wf(),
            match r {
                Some(p) => {
                    &&& is_prime_number(p as int)
                    &&& old(self).last() < p
                    &&& forall|q: int| old(self).last() < q < p ==> !is_prime_number(q)
                    &&& final(self).primes() == old(self).primes().push(p)
                },
                None => {
                    &&& final(self).primes() == old(self).primes()
                    &&& forall|q: int| old(self).last() < q <= u32::MAX ==> !is_prime_number(q)
                },
            },
    {
        let len = self.cache.len();
        if len == 0 {
            self.cache.push(2);
            assert(self.primes()[0] == 2);
            return Some(2);
        }
        let last = self.cache[len - 1];
        assert(last as int == self.last());
        assert(is_prime_number(self.primes()[len - 1] as int));
        if last == u32::MAX {
            return None;
        }
        let mut curr: u32 = last + 1;
        loop
            invariant
                self.wf(),
                self.primes() == old(self).primes(),
                len == self.primes().len(),
                len > 0,
                last == self.primes()[len - 1],
                last as int == self.last(),
                last >= 2,
                last < curr,
                forall|q: int| last < q < curr ==> !is_prime_number(q),
            decreases u32::MAX - curr,
        {
            let divisible = self.has_divisor_of(curr);
            if !divisible {
                proof {
                    lemma_least_prime_factor(curr as int);
                    let m = least_prime_factor(curr as int);
                    if m < curr {
                        assert(m <= last);
                        let i = choose|i: int| 0 <= i < self.primes().len() && #[trigger] self.primes()[i] as int == m;
                        assert(curr % self.primes()[i] == 0);
                    }
                }
                let ghost before = self.primes();
                self.cache.push(curr);
                proof {
                    assert(self.primes() == before.push(curr));
                    assert forall|q: int| is_prime_number(q) && q <= self.last() implies exists|i: int|
                        0 <= i < self.primes().len() && #[trigger] self.primes()[i] as int == q by {
                        if q == curr {
                            assert(self.primes()[before.len() as int] as int == q);
                        } else {
                            let i = choose|i: int| 0 <= i < before.len() && #[trigger] before[i] as int == q;
                            assert(self.primes()[i] as int == q);
                        }
                    }
                }
                return Some(curr);
            }
            proof {
                let i = choose|i: int| 0 <= i < self.primes().len() && curr % #[trigger] self.primes()[i] == 0;
                let v = self.primes()[i] as int;
                if i < len - 1 {
                    assert(self.primes()[i] < self.primes()[len - 1]);
                }
                assert(2 <= v < curr);
            }
            if curr == u32::MAX {
                return None;
            }
            curr = curr + 1;
        }
    }
}

impl Default for PrimeMachine {
    fn default() -> (r: Self)
        ensures
            r.wf(),
            r.primes().len() == 0,
    {
        PrimeMachine::new()
    }
}

/// Checking whether a number is prime.
pub trait PrimeCheck {
    /// Trial division by the primes that `primes` hands out next.
    fn is_prime_with_machine(&self, primes: &mut PrimeMachine) -> (r: bool)
        requires
            old(primes).wf(),
        ensures
            final(primes).wf(),
    ;

    /// Trial division by the primes from two on.
    fn is_prime(&self) -> bool;
}

impl PrimeCheck for u32 {
    /// Divides by the primes that `primes` hands out, in increasing order, until
    /// one divides the number (`false`) or one's square exceeds it (`true`).
    fn is_prime_with_machine(&self, primes: &mut PrimeMachine) -> (r: bool)
        ensures
            r == forall|q: int|
                is_prime_number(q) && old(primes).last() < q && q * q <= *self as int ==> #[trigger] (*self as int % q) != 0,
    {
        let n = *self;
        let ghost start = primes.last();
        loop
            invariant
                n == *self,
                primes.wf(),
                start <= primes.last() <= u32::MAX,
                start == old(primes).last(),
                forall|q: int| is_prime_number(q) && start < q <= primes.last() && q * q <= n as int ==> #[trigger] (n as int % q) != 0,
            decreases u32::MAX - primes.last(),
        {
            let ghost before = primes.last();
            match primes.next() {
                None => {
                    proof {
                        assert forall|q: int| is_prime_number(q) && start < q && q * q <= n as int implies #[trigger] (n as int % q) != 0 by {
                            if q <= before {
                            } else if q <= u32::MAX {
                            } else {
                                assert(q * q > u32::MAX) by (nonlinear_arith)
                                    requires q > u32::MAX;
                            }
                        }
                    }
                    return true;
                },
                Some(p) => {
                    let p64 = p as u64;
                    assert(p64 * p64 <= 0xffff_fffe_0000_0001u64) by (nonlinear_arith)
                        requires p64 <= 0xffff_ffffu64;
                    if p64 * p64 > n as u64 {
                        proof {
                            assert forall|q: int| is_prime_number(q) && start < q && q * q <= n as int implies #[trigger] (n as int % q) != 0 by {
                                if q <= before {
                                } else if q < p {
                                } else {
                                    assert(q * q >= p * p) by (nonlinear_arith)
                                        requires q >= p, p >= 0;
                                }
                            }
                        }
                        return true;
                    }
                    if n % p == 0 {
                        assert(n as int % p as int == 0);
                        assert(!(is_prime_number(p as int) && start < p && p * p <= n as int ==> (n as int % p as int) != 0));
                        return false;
                    }
                    proof {
                        assert forall|q: int| is_prime_number(q) && start < q <= primes.last() && q * q <= n as int implies #[trigger] (n as int % q) != 0 by {
                            if q <= before {
                            } else if q < p {
                            } else {
                                assert(q == p);
                            }
                        }
                    }
                },
            }
        }
    }

    /// `true` exactly for the primes and for 0 and 1.
    fn is_prime(&self) -> (r: bool)
        ensures
            r == (*self < 2 || is_prime_number(*self as int)),
    {
        let mut primes = PrimeMachine::new();
        let r = self.is_prime_with_machine(&mut primes);
        proof {
            let n = *self as int;
            if n >= 2 {
                if r {
                    lemma_prime_by_trial(n);
                } else {
                    let q = choose|q: int| is_prime_number(q) && 1 < q && q * q <= n && #[trigger] (n % q) == 0;
                    assert(q < n) by (nonlinear_arith)
                        requires q * q <= n, q >= 2;
                }
            } else {
                assert forall|q: int| is_prime_number(q) && 1 < q && q * q <= n implies #[trigger] (n % q) != 0 by {
                    assert(q * q >= 4) by (nonlinear_arith)
                        requires q >= 2;
                }
            }
        }
        r
    }
}

/// Finds the smallest prime factor of `n`, dividing by the primes in turn.
fn least_prime_factor_of(n: u32) -> (p: u32)
    requires
        n >= 2,
    ensures
        p as int == least_prime_factor(n as int),
{
    let mut primes = PrimeMachine::new();
    proof {
        lemma_least_prime_factor(n as int);
    }
    let ghost m = least_prime_factor(n as int);
    loop
        invariant
            primes.wf(),
            1 <= primes.last() <= u32::MAX,
            m == least_prime_factor(n as int),
            is_prime_number(m),
            n as int % m == 0,
            2 <= m <= n,
            forall|k: int| 2 <= k < m ==> #[trigger] (n as int % k) != 0,
            m < n ==> m * m <= n,
            forall|q: int| is_prime_number(q) && q <= primes.last() ==> #[trigger] (n as int % q) != 0 || q == m,
            m <= primes.last() ==> false,
        decreases u32::MAX - primes.last(),
    {
        let ghost before = primes.last();
        match primes.next() {
            None => {
                proof {
                    if m < n {
                        assert(m < u32::MAX) by (nonlinear_arith)
                            requires m * m <= n, n <= u32::MAX, m >= 2;
                    }
                }
                return n;
            },
            Some(p) => {
                let p64 = p as u64;
                assert(p64 * p64 <= 0xffff_fffe_0000_0001u64) by (nonlinear_arith)
                    requires p64 <= 0xffff_ffffu64;
                if p64 * p64 > n as u64 {
                    proof {
                        if m < n {
                            if m >= p {
                                assert(m * m >= p * p) by (nonlinear_arith)
                                    requires m >= p, p >= 0;
                            }
                            assert(m < p);
                            assert(m <= before);
                        }
                    }
                    return n;
                }
                if n % p == 0 {
                    proof {
                        if m < p {
                            assert(m <= before);
                        }
                        assert(m <= p);
                    }
                    return p;
                }
            },
        }
    }
}

/// Anything that can be broken into prime factors.
pub trait PrimeFactorizable {
    /// The prime factors, smallest first, with multiplicity.
    fn prime_factorize(&self) -> Vec<u32>;
}

impl PrimeFactorizable for u32 {
    /// Divides out the smallest prime factor until one is left; empty for 0 and 1.
    fn prime_factorize(&self) -> (r: Vec<u32>)
        ensures
            r@ == prime_factors(*self as int),
            *self >= 1 ==> product(r@) == *self as int,
            non_decreasing(r@),
            forall|i: int| 0 <= i < r@.len() ==> is_prime_number(#[trigger] r@[i] as int),
    {
        let mut factors: Vec<u32> = Vec::new();
        let mut curr: u32 = *self;
        if curr == 0 {
            return factors;
        }
        while curr != 1
            invariant
                curr >= 1,
                factors@ + prime_factors(curr as int) == prime_factors(*self as int),
            decreases curr,
        {
            let p = least_prime_factor_of(curr);
            proof {
                lemma_least_prime_factor(curr as int);
                lemma_div_decreases(curr as int, p as int);
                assert(prime_factors(curr as int) == seq![p] + prime_factors(curr as int / p as int));
                assert(factors@.push(p) + prime_factors(curr as int / p as int) =~= factors@ + prime_factors(curr as int));
                lemma_fundamental_div_mod(curr as int, p as int);
                assert(curr as int / p as int >= 1) by (nonlinear_arith)
                    requires
                        curr as int == p * (curr as int / p as int),
                        curr >= 2,
                        p >= 2,
                ;
            }
            factors.push(p);
            curr = curr / p;
        }
        proof {
            assert(factors@ =~= prime_factors(*self as int));
            lemma_prime_factors(*self as int);
        }
        factors
    }
}

} // verus!
