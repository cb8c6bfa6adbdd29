use zkp_chaum_pedersen::AuthError;
use zkp_chaum_pedersen::BigNat;
use zkp_chaum_pedersen::ZKP;

fn toy() -> ZKP {
    let alpha = BigNat::from(4_u32);
    let beta = BigNat::from(9_u32);
    let p = BigNat::from(23_u32);
    let q = BigNat::from(11_u32);
    ZKP::new(&alpha, &beta, &p, &q).unwrap()
}

fn draw_below(bound: &BigNat) -> BigNat {
    ZKP::generate_random_number_below(bound).unwrap()
}

#[test]
fn test_toy_example() {
    let alpha = BigNat::from(4_u32);
    let beta = BigNat::from(9_u32);
    let p = BigNat::from(23_u32);
    let q = BigNat::from(11_u32);
    let zkp = ZKP::new(&alpha, &beta, &p, &q).unwrap();

    let x = BigNat::from(6_u32);
    let k = BigNat::from(7_u32);

    let c = BigNat::from(4_u32);

    let (y1, y2) = zkp.compute_pair(&x);
    assert_eq!(y1, BigNat::from(2_u32));
    assert_eq!(y2, BigNat::from(3_u32));

    let (r1, r2) = zkp.compute_pair(&k);
    assert_eq!(r1, BigNat::from(8_u32));
    assert_eq!(r2, BigNat::from(4_u32));

    let s = zkp.solve(&k, &c, &x);
    assert_eq!(s, BigNat::from(5_u32));

    let result = zkp.verify(&r1, &r2, &y1, &y2, &c, &s);
    assert!(result);

    // fake secret
    let x_fake = BigNat::from(7_u32);
    let s_fake = zkp.solve(&k, &c, &x_fake);

    let result = zkp.verify(&r1, &r2, &y1, &y2, &c, &s_fake);
    assert!(!result);
}

#[test]
fn test_toy_example_with_random_numbers() {
    let alpha = BigNat::from(4_u32);
    let beta = BigNat::from(9_u32);
    let p = BigNat::from(23_u32);
    let q = BigNat::from(11_u32);
    let zkp = ZKP::new(&alpha, &beta, &p, &q).unwrap();

    let x = BigNat::from(6_u32);
    let k = ZKP::generate_random_number_below(&q).unwrap();
    let c = ZKP::generate_random_number_below(&q).unwrap();

    let (y1, y2) = zkp.compute_pair(&x);
    assert_eq!(y1, BigNat::from(2_u32));
    assert_eq!(y2, BigNat::from(3_u32));

    let (r1, r2) = zkp.compute_pair(&k);

    let s = zkp.solve(&k, &c, &x);

    let result = zkp.verify(&r1, &r2, &y1, &y2, &c, &s);
    assert!(result);
}

#[test]
fn test_1024_bits_constants() {
    let (alpha, beta, p, q) = ZKP::get_constants();
    let zkp = ZKP::new(&alpha, &beta, &p, &q).unwrap();

    let x = ZKP::generate_random_number_below(&q).unwrap();
    let k = ZKP::generate_random_number_below(&q).unwrap();
    let c = ZKP::generate_random_number_below(&q).unwrap();

    let (y1, y2) = zkp.compute_pair(&x);

    let (r1, r2) = zkp.compute_pair(&k);

    let s = zkp.solve(&k, &c, &x);

    let result = zkp.verify(&r1, &r2, &y1, &y2, &c, &s);
    assert!(result);
}

#[test]
fn test_2048_bits_constants() {
    //
    // Reference: https://www.rfc-editor.org/rfc/rfc5114#page-15

    let p = BigNat::from_bytes_be(&hex::decode(
        "AD107E1E9123A9D0D660FAA79559C51FA20D64E5683B9FD1B54B1597B61D0A75\
         E6FA141DF95A56DBAF9A3C407BA1DF15EB3D688A309C180E1DE6B85A1274A0A6\
         6D3F8152AD6AC2129037C9EDEFDA4DF8D91E8FEF55B7394B7AD5B7D0B6C12207\
         C9F98D11ED34DBF6C6BA0B2C8BBC27BE6A00E0A0B9C49708B3BF8A3170918836\
         81286130BC8985DB1602E714415D9330278273C7DE31EFDC7310F7121FD5A074\
         15987D9ADC0A486DCDF93ACC44328387315D75E198C641A480CD86A1B9E587E8\
         BE60E69CC928B2B9C52172E413042E9B23F10B0E16E79763C9B53DCF4BA80A29\
         E3FB73C16B8E75B97EF363E2FFA31F71CF9DE5384E71B81C0AC4DFFE0C10E64F").unwrap());
    let q = BigNat::from_bytes_be(&hex::decode(
        "801C0D34C58D93FE997177101F80535A4738CEBCBF389A99B36371EB").unwrap(),
    );

    let alpha = BigNat::from_bytes_be(&hex::decode(
        "AC4032EF4F2D9AE39DF30B5C8FFDAC506CDEBE7B89998CAF74866A08CFE4FFE3\
         A6824A4E10B9A6F0DD921F01A70C4AFAAB739D7700C29F52C57DB17C620A8652\
         BE5E9001A8D66AD7C17669101999024AF4D027275AC1348BB8A762D0521BC98A\
         E247150422EA1ED409939D54DA7460CDB5F6C6B250717CBEF180EB34118E98D1\
         19529A45D6F834566E3025E316A330EFBB77A86F0C1AB15B051AE3D428C8F8AC\
         B70A8137150B8EEB10E183EDD19963DDD9E263E4770589EF6AA21E7F5F2FF381\
         B539CCE3409D13CD566AFBB48D6C019181E1BCFE94B30269EDFE72FE9B6AA4BD\
         7B5A0F1C71CFFF4C19C418E1F6EC017981BC087F2A7065B384B890D3191F2BFA").unwrap(),
    );

    // beta = alpha^i is also a generator
    let beta = alpha.modpow(&ZKP::generate_random_number_below(&q).unwrap(), &p);

    let zkp = ZKP::new(&alpha, &beta, &p, &q).unwrap();

    let x = ZKP::generate_random_number_below(&q).unwrap();
    let k = ZKP::generate_random_number_below(&q).unwrap();
    let c = ZKP::generate_random_number_below(&q).unwrap();

    let (y1, y2) = zkp.compute_pair(&x);
    let (r1, r2) = zkp.compute_pair(&k);

    let s = zkp.solve(&k, &c, &x);

    let result = zkp.verify(&r1, &r2, &y1, &y2, &c, &s);
    assert!(result);
}

#[test]
fn tampered_challenge_is_rejected() {
    let zkp = toy();
    let x = BigNat::from(6_u32);
    let k = BigNat::from(7_u32);
    let c = BigNat::from(4_u32);
    let (y1, y2) = zkp.compute_pair(&x);
    let (r1, r2) = zkp.compute_pair(&k);
    let s = zkp.solve(&k, &c, &x);
    assert!(zkp.verify(&r1, &r2, &y1, &y2, &c, &s));
    let other = BigNat::from(999_u32);
    assert!(!zkp.verify(&r1, &r2, &y1, &y2, &other, &s));
}

#[test]
fn every_other_challenge_below_q_is_rejected() {
    let zkp = toy();
    let x = BigNat::from(6_u32);
    let k = BigNat::from(7_u32);
    let c = BigNat::from(4_u32);
    let (y1, y2) = zkp.compute_pair(&x);
    let (r1, r2) = zkp.compute_pair(&k);
    let s = zkp.solve(&k, &c, &x);
    for other in 0..11_u32 {
        let accepted = zkp.verify(&r1, &r2, &y1, &y2, &BigNat::from(other), &s);
        assert_eq!(accepted, other == 4);
    }
}

#[test]
fn challenge_shifted_by_the_order_is_accepted() {
    // y^(c + q) and y^c are the same residue, so the proof still holds
    let zkp = toy();
    let x = BigNat::from(6_u32);
    let k = BigNat::from(7_u32);
    let c = BigNat::from(4_u32);
    let (y1, y2) = zkp.compute_pair(&x);
    let (r1, r2) = zkp.compute_pair(&k);
    let s = zkp.solve(&k, &c, &x);
    assert!(zkp.verify(&r1, &r2, &y1, &y2, &BigNat::from(15_u32), &s));
}

#[test]
fn one_wrong_coordinate_is_a_failure() {
    let zkp = toy();
    let y1 = BigNat::from(2_u32);
    let y2 = BigNat::from(3_u32);
    let c = BigNat::from(4_u32);
    let s = BigNat::from(5_u32);
    assert!(zkp.verify(&BigNat::from(8_u32), &BigNat::from(4_u32), &y1, &y2, &c, &s));
    assert!(!zkp.verify(&BigNat::from(9_u32), &BigNat::from(4_u32), &y1, &y2, &c, &s));
    assert!(!zkp.verify(&BigNat::from(8_u32), &BigNat::from(5_u32), &y1, &y2, &c, &s));
    assert!(!zkp.verify(&BigNat::from(9_u32), &BigNat::from(5_u32), &y1, &y2, &c, &s));
}

#[test]
fn verify_compares_residues() {
    // 8 + 23 and 4 + 2 * 23 are congruent to 8 and 4
    let zkp = toy();
    let y1 = BigNat::from(2_u32);
    let y2 = BigNat::from(3_u32);
    let c = BigNat::from(4_u32);
    let s = BigNat::from(5_u32);
    assert!(zkp.verify(&BigNat::from(31_u32), &BigNat::from(50_u32), &y1, &y2, &c, &s));
}

#[test]
fn round_trip_for_every_toy_exponent() {
    let zkp = toy();
    for x in 0..11_u32 {
        for k in 0..11_u32 {
            for c in 0..11_u32 {
                let (x, k, c) = (BigNat::from(x), BigNat::from(k), BigNat::from(c));
                let (y1, y2) = zkp.compute_pair(&x);
                let (r1, r2) = zkp.compute_pair(&k);
                let s = zkp.solve(&k, &c, &x);
                assert!(zkp.verify(&r1, &r2, &y1, &y2, &c, &s));
            }
        }
    }
}

#[test]
fn round_trip_for_exponents_above_q() {
    let zkp = toy();
    let x = BigNat::from(1234_u32);
    let k = BigNat::from(77_u32);
    let c = BigNat::from(4321_u32);
    let (y1, y2) = zkp.compute_pair(&x);
    let (r1, r2) = zkp.compute_pair(&k);
    let s = zkp.solve(&k, &c, &x);
    assert!(zkp.verify(&r1, &r2, &y1, &y2, &c, &s));
}

#[test]
fn round_trip_over_random_exponents_1024() {
    let (alpha, beta, p, q) = ZKP::get_constants();
    let zkp = ZKP::new(&alpha, &beta, &p, &q).unwrap();
    for _ in 0..8 {
        let x = draw_below(&q);
        let k = draw_below(&q);
        let c = draw_below(&q);
        let (y1, y2) = zkp.compute_pair(&x);
        let (r1, r2) = zkp.compute_pair(&k);
        let s = zkp.solve(&k, &c, &x);
        assert!(zkp.verify(&r1, &r2, &y1, &y2, &c, &s));
    }
}

#[test]
fn compute_pair_does_not_need_a_reduced_exponent() {
    let zkp = toy();
    // 4^17 = 4^6 and 9^17 = 9^6 modulo 23, since 17 = 6 + 11
    let (g1, g2) = zkp.compute_pair(&BigNat::from(17_u32));
    assert_eq!(g1, BigNat::from(2_u32));
    assert_eq!(g2, BigNat::from(3_u32));
    let (g1, g2) = zkp.compute_pair(&BigNat::from(0_u32));
    assert_eq!(g1, BigNat::from(1_u32));
    assert_eq!(g2, BigNat::from(1_u32));
}

#[test]
fn solve_reduces_a_negative_difference() {
    let zkp = toy();
    // 7 - 4 * 6 = -17 = 5 (mod 11)
    let s = zkp.solve(&BigNat::from(7_u32), &BigNat::from(4_u32), &BigNat::from(6_u32));
    assert_eq!(s, BigNat::from(5_u32));
    // 7 - 4 * 7 = -21 = 1 (mod 11)
    let s = zkp.solve(&BigNat::from(7_u32), &BigNat::from(4_u32), &BigNat::from(7_u32));
    assert_eq!(s, BigNat::from(1_u32));
}

#[test]
fn solve_gives_zero_for_a_negative_multiple_of_q() {
    let zkp = toy();
    // 0 - 1 * 11 = -11 = 0 (mod 11)
    let s = zkp.solve(&BigNat::from(0_u32), &BigNat::from(1_u32), &BigNat::from(11_u32));
    assert_eq!(s, BigNat::from(0_u32));
    // 3 - 5 * 5 = -22 = 0 (mod 11)
    let s = zkp.solve(&BigNat::from(3_u32), &BigNat::from(5_u32), &BigNat::from(5_u32));
    assert_eq!(s, BigNat::from(0_u32));
}

#[test]
fn solve_reduces_a_positive_difference() {
    let zkp = toy();
    // 100 - 2 * 3 = 94 = 6 (mod 11)
    let s = zkp.solve(&BigNat::from(100_u32), &BigNat::from(2_u32), &BigNat::from(3_u32));
    assert_eq!(s, BigNat::from(6_u32));
    // 6 - 2 * 3 = 0
    let s = zkp.solve(&BigNat::from(6_u32), &BigNat::from(2_u32), &BigNat::from(3_u32));
    assert_eq!(s, BigNat::from(0_u32));
}

#[test]
fn solve_stays_below_q() {
    let zkp = toy();
    let q = BigNat::from(11_u32);
    for k in 0..11_u32 {
        for c in 0..11_u32 {
            for x in 0..11_u32 {
                let s = zkp.solve(&BigNat::from(k), &BigNat::from(c), &BigNat::from(x));
                assert!(!s.ge(&q));
                let expected = (k as i64 - (c as i64) * (x as i64)).rem_euclid(11) as u32;
                assert_eq!(s, BigNat::from(expected));
            }
        }
    }
}

#[test]
fn new_keeps_valid_parameters() {
    let zkp = toy();
    assert_eq!(*zkp.alpha(), BigNat::from(4_u32));
    assert_eq!(*zkp.beta(), BigNat::from(9_u32));
    assert_eq!(*zkp.p(), BigNat::from(23_u32));
    assert_eq!(*zkp.q(), BigNat::from(11_u32));
}

fn refused(alpha: u32, beta: u32, p: u32, q: u32) -> bool {
    let made = ZKP::new(
        &BigNat::from(alpha),
        &BigNat::from(beta),
        &BigNat::from(p),
        &BigNat::from(q),
    );
    matches!(made, Err(AuthError::InvalidParameters))
}

#[test]
fn new_refuses_invalid_parameters() {
    assert!(!refused(4, 9, 23, 11));
    // moduli and orders below two
    assert!(refused(4, 9, 0, 11));
    assert!(refused(4, 9, 1, 11));
    assert!(refused(4, 9, 23, 0));
    assert!(refused(4, 9, 23, 1));
    // generators that are no proper residues or the identity
    assert!(refused(0, 9, 23, 11));
    assert!(refused(1, 9, 23, 11));
    assert!(refused(23, 9, 23, 11));
    assert!(refused(27, 9, 23, 11));
    assert!(refused(4, 0, 23, 11));
    assert!(refused(4, 1, 23, 11));
    assert!(refused(4, 23, 23, 11));
    // 5^11 = 22 (mod 23): 5 is not in the subgroup of order 11
    assert!(refused(5, 9, 23, 11));
    assert!(refused(4, 5, 23, 11));
    // the arguments in the wrong order
    assert!(refused(23, 11, 4, 9));
}

#[test]
fn new_refuses_a_composite_modulus() {
    // 4^2 = 11^2 = 1 (mod 15), but 15 = 3 * 5
    assert!(refused(4, 11, 15, 2));
    // 10^2 = 23^2 = 1 (mod 33), but 33 = 3 * 11
    assert!(refused(10, 23, 33, 2));
    // 2^10 = 4^10 = 1 (mod 341), and 2^340 = 1 (mod 341), but 341 = 11 * 31
    assert!(refused(2, 4, 341, 10));
    assert!(refused(2, 4, 341, 5));
    // 560^2 = 188^2 = 1 (mod 561), and a^560 = 1 (mod 561) for every a
    // coprime to 561, but 561 = 3 * 11 * 17
    assert!(refused(560, 188, 561, 2));
}

#[test]
fn new_refuses_a_composite_order() {
    // 9^15 = 19^15 = 1 (mod 31), but 15 = 3 * 5
    assert!(refused(9, 19, 31, 15));
    // 2^4 = 4^4 = 1 (mod 5), but 4 = 2 * 2
    assert!(refused(2, 4, 5, 4));
    // every element has 22 as an exponent modulo 23, but 22 = 2 * 11
    assert!(refused(4, 9, 23, 22));
}

#[test]
fn new_refuses_a_composite_modulus_without_small_factors() {
    // 65537 * 65539 has no factor up to 65535; the strong test finds it out
    let p = BigNat::from_bytes_be(&[0x01, 0x00, 0x04, 0x00, 0x03]);
    let alpha = BigNat::from_bytes_be(&[0x01, 0x00, 0x04, 0x00, 0x02]);
    let beta = BigNat::from(65538_u32);
    let q = BigNat::from(2_u32);
    let one = BigNat::from(1_u32);
    assert_eq!(alpha.modpow(&q, &p), one);
    assert_eq!(beta.modpow(&q, &p), one);
    assert!(matches!(ZKP::new(&alpha, &beta, &p, &q), Err(AuthError::InvalidParameters)));
}

#[test]
fn new_keeps_small_prime_groups() {
    assert!(!refused(2, 2, 3, 2));
    assert!(!refused(4, 4, 5, 2));
    assert!(!refused(2, 4, 7, 3));
    assert!(!refused(6, 6, 7, 2));
    assert!(!refused(3, 9, 13, 3));
    // 2^16 = 1 (mod 65537): the order 2 has the generator 65536 only
    assert!(!refused(65536, 65536, 65537, 2));
}

#[test]
fn primality_test_tells_primes_from_composites() {
    for prime in [2_u32, 3, 5, 7, 11, 13, 23, 37, 41, 251, 257, 65521, 65537, 4294967291] {
        assert!(BigNat::from(prime).is_probable_prime(), "{}", prime);
    }
    for other in [0_u32, 1, 4, 6, 8, 9, 15, 21, 25, 49, 91, 341, 561, 1105, 65535, 4294967295] {
        assert!(!BigNat::from(other).is_probable_prime(), "{}", other);
    }
    // 65521^2, 65521 * 65537 and 65537 * 65539
    assert!(!BigNat::from(65521_u32).mul(&BigNat::from(65521_u32)).is_probable_prime());
    assert!(!BigNat::from(65521_u32).mul(&BigNat::from(65537_u32)).is_probable_prime());
    assert!(!BigNat::from(65537_u32).mul(&BigNat::from(65539_u32)).is_probable_prime());
    // 2^61 - 1 is prime
    let mersenne = BigNat::from_bytes_be(&[0x1f, 0xff, 0xff, 0xff, 0xff, 0xff, 0xff, 0xff]);
    assert!(mersenne.is_probable_prime());
}

#[test]
fn primality_test_refuses_pseudoprimes() {
    // strong pseudoprimes to the base 2, and to the bases 2, 3, 5 and 7, with small factors
    assert!(!BigNat::from(2047_u32).is_probable_prime());
    assert!(!BigNat::from(3215031751_u32).is_probable_prime());
    // 172243 * 688969: a strong pseudoprime to the bases 2, 3, 5 and 7 without small factors
    let n = BigNat::from(172243_u32).mul(&BigNat::from(688969_u32));
    assert_eq!(n.to_bytes_be(), vec![0x1b, 0xa1, 0x49, 0xd5, 0x2b]);
    assert!(!n.is_probable_prime());
    // 65851 * 131701 * 197551: a^(n - 1) = 1 (mod n) for every a coprime to n,
    // and no factor is small
    let n = BigNat::from(65851_u32).mul(&BigNat::from(131701_u32)).mul(&BigNat::from(197551_u32));
    assert_eq!(n.to_bytes_be(), vec![0x06, 0x16, 0x3a, 0x3a, 0xac, 0xf8, 0xd9]);
    assert_eq!(
        BigNat::from(2_u32).modpow(&n.sub(&BigNat::from(1_u32)), &n),
        BigNat::from(1_u32)
    );
    assert!(!n.is_probable_prime());
}

#[test]
fn primality_test_agrees_with_trial_division_on_small_numbers() {
    for n in 0..2000_u32 {
        let prime = n >= 2 && (2..n).all(|d| n % d != 0);
        assert_eq!(BigNat::from(n).is_probable_prime(), prime, "{}", n);
    }
}

#[test]
fn random_number_below_zero_is_refused() {
    let drawn = ZKP::generate_random_number_below(&BigNat::from(0_u32));
    assert_eq!(drawn, Err(AuthError::InvalidBound));
}

#[test]
fn random_number_stays_below_its_bound() {
    let one = BigNat::from(1_u32);
    for _ in 0..20 {
        assert_eq!(ZKP::generate_random_number_below(&one), Ok(BigNat::from(0_u32)));
    }
    let bound = BigNat::from(1000_u32);
    for _ in 0..200 {
        let n = draw_below(&bound);
        assert!(!n.ge(&bound));
    }
}

fn is_token(text: &str) -> bool {
    text.chars().all(|c| c.is_ascii_alphanumeric())
}

#[test]
fn random_string_has_the_length_asked_for() {
    for size in [0_usize, 1, 12, 100] {
        let token = ZKP::generate_random_string(size);
        assert_eq!(token.chars().count(), size);
        assert_eq!(token.len(), size);
        assert!(is_token(&token));
    }
}

#[test]
fn random_strings_differ() {
    let a = ZKP::generate_random_string(32);
    let b = ZKP::generate_random_string(32);
    assert_ne!(a, b);
}

#[test]
fn constants_are_those_of_the_rfc() {
    let (alpha, beta, p, q) = ZKP::get_constants();
    assert_eq!(q.to_bytes_be(), hex::decode("F518AA8781A8DF278ABA4E7D64B7CB9D49462353").unwrap());
    assert_eq!(p.to_bytes_be().len(), 128);
    assert_eq!(alpha.to_bytes_be().len(), 128);
    assert_eq!(p.to_bytes_be()[..4], [0xB1, 0x0B, 0x8F, 0x96]);
    assert_eq!(p.to_bytes_be()[124..], [0x2E, 0x4A, 0x43, 0x71]);
    assert_eq!(alpha.to_bytes_be()[..4], [0xA4, 0xD1, 0xCB, 0xD5]);
    assert_eq!(alpha.to_bytes_be()[124..], [0x22, 0xB3, 0xB2, 0xE5]);
    // alpha and beta generate the subgroup of order q
    let one = BigNat::from(1_u32);
    assert_eq!(alpha.modpow(&q, &p), one);
    assert_eq!(beta.modpow(&q, &p), one);
    assert!(!beta.ge(&p));
    assert!(beta.ge(&BigNat::from(2_u32)));
    assert_ne!(beta, alpha);
    // q divides p - 1
    assert_eq!(p.sub(&one).modpow(&one, &q), BigNat::from(0_u32));
    assert!(q.is_probable_prime());
    assert!(p.is_probable_prime());
}

#[test]
fn constants_are_the_same_on_every_call() {
    let (alpha, beta, p, q) = ZKP::get_constants();
    let (alpha_again, beta_again, p_again, q_again) = ZKP::get_constants();
    assert_eq!(alpha_again, alpha);
    assert_eq!(beta_again, beta);
    assert_eq!(p_again, p);
    assert_eq!(q_again, q);
    assert_eq!(
        beta.to_bytes_be(),
        hex::decode(
            "887F1296542A1A4355F185B0CD7241C4A7BD58EA664A1CEA1DE6DAFB91D4E34D7CEE4A1559534587561F08E5FEE601C5C0D04A2319DC3EB224ED7A5FD06D5845C35857DE883475D085A6A2D926C1E8EE9C79AE8701920071BD2BACC9BD33FC1A3C77520C4015ECAA297CF7D88FD104666C2B8A6FF21C93D10C1B97C63012F657"
        )
        .unwrap()
    );
}

#[test]
fn two_parties_agree_on_the_constants() {
    // the prover and the verifier each ask for the constants
    let (alpha, beta, p, q) = ZKP::get_constants();
    let prover = ZKP::new(&alpha, &beta, &p, &q).unwrap();
    let (alpha, beta, p, q) = ZKP::get_constants();
    let verifier = ZKP::new(&alpha, &beta, &p, &q).unwrap();
    let x = BigNat::from_bytes_be(b"a password");
    let k = draw_below(&q);
    let c = draw_below(&q);
    let (y1, y2) = prover.compute_pair(&x);
    let (r1, r2) = prover.compute_pair(&k);
    let s = prover.solve(&k, &c, &x);
    assert!(verifier.verify(&r1, &r2, &y1, &y2, &c, &s));
}

#[test]
fn constants_with_a_given_exponent() {
    let (alpha, beta, p, q) = ZKP::constants_with(&BigNat::from(1_u32));
    assert_eq!(beta, alpha);
    let (alpha_again, beta_squared, p_again, q_again) =
        ZKP::constants_with(&BigNat::from(2_u32));
    assert_eq!(alpha_again, alpha);
    assert_eq!(p_again, p);
    assert_eq!(q_again, q);
    assert_eq!(beta_squared, alpha.mul(&alpha).modpow(&BigNat::from(1_u32), &p));
    let (_, beta0, _, _) = ZKP::constants_with(&BigNat::from(0_u32));
    assert_eq!(beta0, BigNat::from(1_u32));
}
