use chaum_pedersen::algebra::{compute_response, recompute_commitment};
use chaum_pedersen::natural::Natural;

fn num(v: u64) -> Natural {
    Natural::from_u64(v)
}

#[test]
fn equality_and_order_go_by_value() {
    assert!(num(5).equals(&num(5)));
    assert!(!num(5).equals(&num(6)));
    assert!(num(5) == Natural::from_bytes(&[0, 5]));
    assert!(num(5) != num(1285));
    assert!(num(5).less_than(&num(6)));
    assert!(!num(6).less_than(&num(5)));
    assert!(!num(6).less_than(&num(6)));
    assert!(num(255).less_than(&num(256)));
    assert!(!num(256).less_than(&num(255)));
    assert!(num(0x0100).less_than(&num(0x0101)));
    assert!(num(0x01ff).less_than(&num(0x0200)));
    assert!(!num(0x0200).less_than(&num(0x01ff)));
    assert!(num(0).less_than(&num(1)));
    assert!(!num(0).less_than(&num(0)));
}

#[test]
fn addition_and_multiplication() {
    assert_eq!(num(255).add(&num(1)), num(256));
    assert_eq!(num(0).add(&num(0)), num(0));
    assert_eq!(num(u64::MAX).add(&num(1)).to_bytes(), vec![1, 0, 0, 0, 0, 0, 0, 0, 0]);
    assert_eq!(num(12).mul(&num(12)), num(144));
    assert_eq!(num(12).mul(&num(0)), num(0));
    assert_eq!(
        num(u64::MAX).mul(&num(u64::MAX)).to_bytes(),
        vec![255, 255, 255, 255, 255, 255, 255, 254, 0, 0, 0, 0, 0, 0, 0, 1]
    );
}

#[test]
fn subtraction_is_checked() {
    assert_eq!(num(256).checked_sub(&num(1)), Some(num(255)));
    assert_eq!(num(7).checked_sub(&num(7)), Some(num(0)));
    assert_eq!(num(7).checked_sub(&num(8)), None);
}

#[test]
fn division_and_remainder_are_checked() {
    assert_eq!(num(22).checked_div(&num(11)), Some(num(2)));
    assert_eq!(num(23).checked_div(&num(11)), Some(num(2)));
    assert_eq!(num(1000).checked_div(&num(7)), Some(num(142)));
    assert_eq!(num(5).checked_div(&num(0)), None);
    assert_eq!(num(1000).checked_rem(&num(7)), Some(num(6)));
    assert_eq!(num(36).checked_rem(&num(11)), Some(num(3)));
    assert_eq!(num(5).checked_rem(&num(0)), None);
}

#[test]
fn modular_exponentiation() {
    assert_eq!(num(4).mod_pow(&num(6), &num(23)), Some(num(2)));
    assert_eq!(num(2).mod_pow(&num(6), &num(23)), Some(num(18)));
    assert_eq!(num(4).mod_pow(&num(3), &num(23)), Some(num(18)));
    assert_eq!(num(2).mod_pow(&num(3), &num(23)), Some(num(8)));
    assert_eq!(num(2).mod_pow(&num(11), &num(23)), Some(num(1)));
    assert_eq!(num(5).mod_pow(&num(11), &num(23)), Some(num(22)));
    assert_eq!(num(7).mod_pow(&num(0), &num(23)), Some(num(1)));
    assert_eq!(num(7).mod_pow(&num(0), &num(1)), Some(num(0)));
    assert_eq!(num(3).mod_pow(&num(4), &num(10)), Some(num(1)));
    assert_eq!(num(7).mod_pow(&num(5), &num(0)), None);
}

#[test]
fn random_numbers_stay_in_their_range() {
    let low = num(10);
    let high = num(13);
    let mut seen = [false; 3];
    for _ in 0..200 {
        let v = Natural::random_in_range(&low, &high).unwrap();
        assert!(!v.less_than(&low));
        assert!(v.less_than(&high));
        let offset = v.checked_sub(&low).unwrap().to_bytes();
        let index = if offset.is_empty() { 0 } else { offset[0] as usize };
        seen[index] = true;
    }
    assert_eq!(seen, [true, true, true]);
}

#[test]
fn random_number_from_an_empty_range() {
    assert_eq!(Natural::random_in_range(&num(5), &num(5)), None);
    assert_eq!(Natural::random_in_range(&num(6), &num(5)), None);
    assert_eq!(Natural::random_in_range(&num(5), &num(6)), Some(num(5)));
}

#[test]
fn primality_of_small_numbers_is_exact() {
    assert!(!num(0).is_probable_prime());
    assert!(!num(1).is_probable_prime());
    assert!(num(2).is_probable_prime());
    assert!(num(3).is_probable_prime());
}

#[test]
fn numbers_with_a_small_factor_are_not_prime() {
    assert!(!num(4).is_probable_prime());
    assert!(!num(15).is_probable_prime());
    assert!(!num(1000).is_probable_prime());
    assert!(!num(3 * 17863).is_probable_prime());
}

#[test]
fn response_is_reduced_into_the_range_of_q() {
    // s = (k - c*x) mod q with k = 3, x = 6, q = 11
    let expected: [u64; 11] = [3, 8, 2, 7, 1, 6, 0, 5, 10, 4, 9];
    for c in 0..11u64 {
        let s = compute_response(&num(3), &num(c), &num(6), &num(11));
        assert_eq!(s, Some(num(expected[c as usize])));
    }
}

#[test]
fn response_reduces_every_operand() {
    // (25 - 40*17) mod 11 = (3 - 7*6) mod 11 = -39 mod 11 = 5
    assert_eq!(compute_response(&num(25), &num(40), &num(17), &num(11)), Some(num(5)));
    assert_eq!(compute_response(&num(3), &num(0), &num(6), &num(11)), Some(num(3)));
    assert_eq!(compute_response(&num(3), &num(2), &num(6), &num(0)), None);
    assert_eq!(compute_response(&num(3), &num(2), &num(6), &num(1)), Some(num(0)));
}

#[test]
fn recomputed_commitment_of_the_toy_group() {
    // (4^8 mod 23 * 2^1 mod 23) mod 23 = (9 * 2) mod 23 = 18
    assert_eq!(
        recompute_commitment(&num(4), &num(2), &num(8), &num(1), &num(23)),
        Some(num(18))
    );
    // (2^8 mod 23 * 18^1 mod 23) mod 23 = (3 * 18) mod 23 = 8
    assert_eq!(
        recompute_commitment(&num(2), &num(18), &num(8), &num(1), &num(23)),
        Some(num(8))
    );
    assert_eq!(recompute_commitment(&num(2), &num(18), &num(8), &num(1), &num(0)), None);
}

#[test]
fn conversion_to_a_word() {
    assert_eq!(num(0).to_u64(), Some(0));
    assert_eq!(num(1125).to_u64(), Some(1125));
    assert_eq!(num(u64::MAX).to_u64(), Some(u64::MAX));
    assert_eq!(num(u64::MAX).add(&num(1)).to_u64(), None);
    assert_eq!(Natural::from_bytes(&[0, 0, 0, 0, 0, 0, 0, 0, 0, 1, 2]).to_u64(), Some(258));
    assert_eq!(Natural::from_bytes(&[1, 0, 0, 0, 0, 0, 0, 0, 0, 0]).to_u64(), None);
}
