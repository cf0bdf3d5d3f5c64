use chalk::math::gcd::{gcd, Powerable, Powers};
use chalk::math::lcm::lcm;
use chalk::math::prime::{PrimeCheck, PrimeFactorizable, PrimeMachine};

#[test]
fn powers_power_properly() {
    let factorization = 100.prime_factorize().generate_powers();
    assert_eq!(factorization, &[(2, 2), (5, 2)])
}

#[test]
fn test_gcd() {
    let gcd = gcd(8, 12);

    assert_eq!(gcd, 4)
}

#[test]
fn simple_lcm() {
    let lcm = lcm(12, 15);
    assert_eq!(lcm, 60)
}

#[test]
fn prime_factorization() {
    let factors = 8976986.prime_factorize();
    assert_eq!(factors, &[2, 17, 264029]);
}

#[test]
fn prime_numbers_factorize_to_themselves() {
    let factors = 3.prime_factorize();
    assert_eq!(factors, &[3]);
}

#[test]
fn prime_factorize_max_usize() {
    let factors = u32::MAX.prime_factorize();
    assert_eq!(factors, &[3, 5, 17, 257, 65537]);
}

#[test]
fn factorize_one_and_zero_is_empty() {
    assert!(1u32.prime_factorize().is_empty());
    assert!(0u32.prime_factorize().is_empty());
}

#[test]
fn factorize_prime_power() {
    assert_eq!(1024u32.prime_factorize(), vec![2; 10]);
    assert_eq!(360u32.prime_factorize(), &[2, 2, 2, 3, 3, 5]);
}

#[test]
fn gcd_and_lcm_of_worked_examples() {
    assert_eq!(gcd(15, 20), 5);
    assert_eq!(lcm(12, 15), 60);
    assert_eq!(gcd(7, 13), 1);
    assert_eq!(lcm(7, 13), 91);
    assert_eq!(gcd(1, 1), 1);
    assert_eq!(gcd(36, 36), 36);
}

#[test]
fn gcd_times_lcm_is_product() {
    for a in 1u32..40 {
        for b in 1u32..40 {
            let g = gcd(a, b) as u64;
            let l = lcm(a, b) as u64;
            assert_eq!(g * l, (a as u64) * (b as u64), "a = {a}, b = {b}");
        }
    }
}

#[test]
fn gcd_above_i32_wraps() {
    assert_eq!(gcd(u32::MAX, u32::MAX), -1);
}

#[test]
fn prime_check() {
    let primes: Vec<u32> = (0u32..30).filter(|n| n.is_prime()).collect();
    assert_eq!(primes, &[0, 1, 2, 3, 5, 7, 11, 13, 17, 19, 23, 29]);
    assert!(65537u32.is_prime());
    assert!(!u32::MAX.is_prime());
    assert!(4294967291u32.is_prime());
}

#[test]
fn prime_machine_hands_out_primes_in_order() {
    let mut machine = PrimeMachine::new();
    let first: Vec<u32> = (0..10).map(|_| machine.next().unwrap()).collect();
    assert_eq!(first, &[2, 3, 5, 7, 11, 13, 17, 19, 23, 29]);
}

#[test]
fn prime_check_with_used_machine_skips_handed_out_primes() {
    let mut machine = PrimeMachine::new();
    machine.next();
    // 2 was handed out already, so only 3, 5, ... divide 4 in the trial
    assert!(4u32.is_prime_with_machine(&mut machine));
    let mut fresh = PrimeMachine::default();
    assert!(!4u32.is_prime_with_machine(&mut fresh));
}

#[test]
fn power_of_pair() {
    assert_eq!((2u32, 10u32).power(), 1024);
    assert_eq!((7u32, 0u32).power(), 1);
    assert_eq!((2u32, 32u32).power(), 0);
}

#[test]
fn powers_in_first_occurrence_order() {
    let values: Vec<u32> = vec![5, 2, 5, 3, 2, 5];
    assert_eq!(values.generate_powers(), &[(5, 3), (2, 2), (3, 1)]);
    let empty: Vec<u32> = Vec::new();
    assert!(empty.generate_powers().is_empty());
}
