//! Number theory: primes, prime factorization, gcd and lcm.
pub mod gcd;
pub mod lcm;
pub mod prime;
