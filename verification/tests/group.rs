use chaum_pedersen::error::ProtocolError;
use chaum_pedersen::group::{
    accepts_generator, fails_sieve, find_generator, generate_parameters, generate_safe_prime,
    lies_in_subgroup, power_of_two, safe_prime_candidate, GroupParameters,
};
use chaum_pedersen::natural::Natural;
use is_prime::is_prime;
use num_bigint::BigUint;

fn n(v: u64) -> Natural {
    Natural::from_u64(v)
}

fn decimal(v: &Natural) -> String {
    BigUint::from_bytes_be(&v.to_bytes()).to_string()
}

fn toy_group() -> GroupParameters {
    GroupParameters::new(n(23), n(11), n(4), n(2)).unwrap()
}

#[test]
fn parameters_in_range_are_accepted() {
    let group = toy_group();
    assert_eq!(*group.p(), n(23));
    assert_eq!(*group.q(), n(11));
    assert_eq!(*group.g(), n(4));
    assert_eq!(*group.h(), n(2));
}

#[test]
fn parameters_out_of_range_are_malformed() {
    let bad: [(u64, u64, u64, u64); 9] = [
        (0, 0, 0, 0),
        (1, 1, 1, 1),
        (23, 0, 4, 2),
        (23, 23, 4, 2),
        (23, 11, 0, 2),
        (23, 11, 23, 2),
        (23, 11, 4, 0),
        (23, 11, 4, 23),
        (23, 11, 4, 24),
    ];
    for (p, q, g, h) in bad {
        let result = GroupParameters::new(n(p), n(q), n(g), n(h));
        assert!(matches!(result, Err(ProtocolError::MalformedInput)));
    }
    assert!(GroupParameters::new(n(2), n(1), n(1), n(1)).is_ok());
    assert!(GroupParameters::new(n(23), n(22), n(22), n(1)).is_ok());
}

#[test]
fn parameters_travel_as_minimal_bytes() {
    let group = GroupParameters::new(n(2039), n(1019), n(4), n(9)).unwrap();
    let encoded = group.to_bytes();
    assert_eq!(encoded.p, vec![7, 247]);
    assert_eq!(encoded.q, vec![3, 251]);
    assert_eq!(encoded.g, vec![4]);
    assert_eq!(encoded.h, vec![9]);
    let decoded =
        GroupParameters::from_bytes(&encoded.p, &encoded.q, &encoded.g, &encoded.h).unwrap();
    assert_eq!(*decoded.p(), n(2039));
    assert_eq!(*decoded.q(), n(1019));
    assert_eq!(*decoded.g(), n(4));
    assert_eq!(*decoded.h(), n(9));
}

#[test]
fn parameters_from_bytes_checks_ranges() {
    assert!(matches!(
        GroupParameters::from_bytes(&[], &[11], &[4], &[2]),
        Err(ProtocolError::MalformedInput)
    ));
    assert!(matches!(
        GroupParameters::from_bytes(&[23], &[], &[4], &[2]),
        Err(ProtocolError::MalformedInput)
    ));
    assert!(GroupParameters::from_bytes(&[0, 23], &[0, 11], &[4], &[2]).is_ok());
}

#[test]
fn clone_of_parameters_has_the_same_numbers() {
    let copy = toy_group().clone();
    assert_eq!(copy.to_bytes().p, vec![23]);
    assert_eq!(copy.to_bytes().q, vec![11]);
    assert_eq!(copy.to_bytes().g, vec![4]);
    assert_eq!(copy.to_bytes().h, vec![2]);
}

#[test]
fn subgroup_membership_of_the_generators() {
    assert!(toy_group().has_subgroup_generators());
    // 5 has order 22 modulo 23: 5^11 mod 23 = 22
    assert!(!GroupParameters::new(n(23), n(11), n(5), n(2)).unwrap().has_subgroup_generators());
    assert!(!GroupParameters::new(n(23), n(11), n(4), n(5)).unwrap().has_subgroup_generators());
}

#[test]
fn powers_of_two() {
    assert_eq!(power_of_two(0), n(1));
    assert_eq!(power_of_two(1), n(2));
    assert_eq!(power_of_two(10), n(1024));
    assert_eq!(power_of_two(63), n(1 << 63));
    assert_eq!(power_of_two(64).to_bytes(), vec![1, 0, 0, 0, 0, 0, 0, 0, 0]);
}

#[test]
fn candidate_is_made_odd_and_doubled() {
    let (q, p) = safe_prime_candidate(&n(10));
    assert_eq!((q, p), (n(11), n(23)));
    let (q, p) = safe_prime_candidate(&n(11));
    assert_eq!((q, p), (n(11), n(23)));
    let (q, p) = safe_prime_candidate(&n(0));
    assert_eq!((q, p), (n(1), n(3)));
}

#[test]
fn generator_test_rejects_orders_one_and_two() {
    // modulo 23 the elements 1 and 22 are the ones whose square is 1
    assert!(!accepts_generator(&n(1), &n(23), &n(11)));
    assert!(!accepts_generator(&n(22), &n(23), &n(11)));
    for g in 2..22u64 {
        assert!(accepts_generator(&n(g), &n(23), &n(11)));
    }
    assert!(!accepts_generator(&n(4), &n(0), &n(11)));
    assert!(!accepts_generator(&n(4), &n(23), &n(0)));
}

#[test]
fn generator_test_admits_elements_outside_the_subgroup() {
    // 5 passes the test, yet 5^11 mod 23 is 22 and not 1
    assert!(accepts_generator(&n(5), &n(23), &n(11)));
    assert_eq!(n(5).mod_pow(&n(11), &n(23)), Some(n(22)));
}

#[test]
fn found_generator_lies_in_range_and_passes_the_test() {
    for _ in 0..50 {
        let g = find_generator(&n(23), &n(11)).unwrap();
        assert!(!g.less_than(&n(2)));
        assert!(g.less_than(&n(23)));
        assert!(accepts_generator(&g, &n(23), &n(11)));
        assert!(lies_in_subgroup(&g, &n(23), &n(11)));
    }
}

#[test]
fn found_generator_has_order_q() {
    // the elements of order 11 modulo 23
    let residues: [u64; 10] = [2, 3, 4, 6, 8, 9, 12, 13, 16, 18];
    let mut seen = [false; 10];
    for _ in 0..400 {
        let g = find_generator(&n(23), &n(11)).unwrap();
        let index = residues.iter().position(|&r| n(r) == g);
        assert!(index.is_some());
        seen[index.unwrap()] = true;
        assert_eq!(g.mod_pow(&n(11), &n(23)), Some(n(1)));
    }
    assert!(seen.iter().all(|&s| s));
}

#[test]
fn subgroup_membership_of_single_elements() {
    assert!(lies_in_subgroup(&n(4), &n(23), &n(11)));
    assert!(lies_in_subgroup(&n(1), &n(23), &n(11)));
    assert!(!lies_in_subgroup(&n(5), &n(23), &n(11)));
    assert!(!lies_in_subgroup(&n(22), &n(23), &n(11)));
    assert!(!lies_in_subgroup(&n(0), &n(23), &n(11)));
    assert!(!lies_in_subgroup(&n(4), &n(0), &n(11)));
    assert!(!lies_in_subgroup(&n(4), &n(1), &n(11)));
}

#[test]
fn no_generator_without_a_range_to_search() {
    assert_eq!(find_generator(&n(2), &n(1)), Err(ProtocolError::MalformedInput));
    assert_eq!(find_generator(&n(0), &n(1)), Err(ProtocolError::MalformedInput));
    assert_eq!(find_generator(&n(23), &n(0)), Err(ProtocolError::MalformedInput));
}

#[test]
fn generator_search_gives_up_when_every_candidate_fails() {
    // modulo 3 the only candidate is 2, whose square is 1
    assert_eq!(find_generator(&n(3), &n(1)), Err(ProtocolError::SearchExhausted));
}

#[test]
fn safe_prime_has_the_requested_size() {
    for bits in [3usize, 4, 5, 8, 16, 32] {
        let p = generate_safe_prime(bits).unwrap();
        assert!(power_of_two(bits - 1).less_than(&p));
        assert!(p.less_than(&power_of_two(bits)));
        assert_eq!(p.checked_rem(&n(4)), Some(n(3)));
        let q = p.checked_sub(&n(1)).unwrap().checked_div(&n(2)).unwrap();
        assert!(is_prime(&decimal(&p)));
        assert!(is_prime(&decimal(&q)));
    }
}

#[test]
fn safe_prime_of_three_bits_is_seven() {
    assert_eq!(generate_safe_prime(3), Ok(n(7)));
}

#[test]
fn safe_prime_of_four_bits_is_eleven() {
    assert_eq!(generate_safe_prime(4), Ok(n(11)));
}

#[test]
fn no_safe_prime_below_three_bits() {
    for bits in 0..3usize {
        assert_eq!(generate_safe_prime(bits), Err(ProtocolError::MalformedInput));
    }
}

#[test]
fn generated_group_is_a_safe_prime_group() {
    let group = generate_parameters(48).unwrap();
    let p = group.p();
    let q = group.q();
    assert_eq!(q.add(q).add(&n(1)), *p);
    assert!(is_prime(&decimal(p)));
    assert!(is_prime(&decimal(q)));
    assert!(power_of_two(47).less_than(p));
    assert!(p.less_than(&power_of_two(48)));
    for generator in [group.g(), group.h()] {
        assert!(*generator != n(1));
        assert!(!generator.less_than(&n(2)));
        assert!(generator.less_than(p));
        assert!(accepts_generator(generator, p, q));
        assert_eq!(generator.mod_pow(q, p), Some(n(1)));
    }
    assert!(group.has_subgroup_generators());
}

#[test]
fn smallest_generated_group() {
    // 3 bits: p = 7, q = 3, and the elements of order 3 are 2 and 4
    for _ in 0..20 {
        let group = generate_parameters(3).unwrap();
        assert_eq!(*group.p(), n(7));
        assert_eq!(*group.q(), n(3));
        assert!(*group.g() == n(2) || *group.g() == n(4));
        assert!(*group.h() == n(2) || *group.h() == n(4));
    }
}

#[test]
fn group_of_too_few_bits_is_refused() {
    for bits in 0..3usize {
        assert!(matches!(generate_parameters(bits), Err(ProtocolError::MalformedInput)));
    }
}

#[test]
fn sieve_finds_small_factors_of_q_and_p() {
    // 53 and 2*53 + 1 = 107 are prime
    assert!(!fails_sieve(&n(53)));
    // 83 and 167, 89 and 179, 113 and 227 are the safe primes of 8 bits
    assert!(!fails_sieve(&n(83)));
    assert!(!fails_sieve(&n(89)));
    assert!(!fails_sieve(&n(113)));
    // 3 divides 57
    assert!(fails_sieve(&n(57)));
    // 61 is prime, 3 divides 123
    assert!(fails_sieve(&n(61)));
    // 47 divides 47 * 53, 5 divides 2 * 67 + 1
    assert!(fails_sieve(&n(47 * 53)));
    assert!(fails_sieve(&n(67)));
    // 59 and 61 are outside the sieve: 59 * 61 = 3599, 2 * 3599 + 1 = 7199 = 23 * 313
    assert!(fails_sieve(&n(3599)));
    // 53 * 59 = 3127 and 2 * 3127 + 1 = 6255 = 3^2 * 5 * 139
    assert!(fails_sieve(&n(3127)));
    // 59 * 67 = 3953 and 2 * 3953 + 1 = 7907, a prime
    assert!(!fails_sieve(&n(3953)));
}

#[test]
fn sieve_works_on_numbers_wider_than_a_word() {
    // 3 * 2^70 is a multiple of 3; 2^70 + 1 is a multiple of 5
    assert!(fails_sieve(&power_of_two(70).mul(&n(3))));
    assert!(fails_sieve(&power_of_two(70).add(&n(1))));
}
