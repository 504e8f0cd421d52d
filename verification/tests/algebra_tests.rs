use evolver::soul::algebra::{IdealClass, Quaternion};
use evolver::soul::governor::{is_prime, next_algebra_prime};

fn q(a: i64, b: i64, c: i64, d: i64) -> Quaternion {
    Quaternion::new(a, b, c, d)
}

#[test]
fn quaternion_constructors() {
    assert_eq!(Quaternion::zero(), q(0, 0, 0, 0));
    assert_eq!(Quaternion::identity(), q(1, 0, 0, 0));
    let x = q(1, -2, 3, -4);
    assert_eq!((x.a, x.b, x.c, x.d), (1, -2, 3, -4));
}

#[test]
fn norm_is_the_positive_definite_form() {
    // a^2 + b^2 + 37 c^2 + 37 d^2
    assert_eq!(q(1, 2, 3, 4).norm(), 1 + 4 + 37 * 9 + 37 * 16);
    assert_eq!(q(6, 1, 0, 0).norm(), 37);
    assert_eq!(Quaternion::zero().norm(), 0);
    assert_eq!(q(0, 0, 0, -1).norm(), 37);
}

#[test]
fn conjugate_negates_the_imaginary_part() {
    assert_eq!(q(1, 2, 3, 4).conjugate(), q(1, -2, -3, -4));
    assert_eq!(q(1, 2, 3, 4).conjugate().conjugate(), q(1, 2, 3, 4));
}

#[test]
fn add_and_sub_are_componentwise() {
    assert_eq!(q(1, 2, 3, 4) + q(10, 20, 30, 40), q(11, 22, 33, 44));
    assert_eq!(q(1, 2, 3, 4) - q(10, 20, 30, 40), q(-9, -18, -27, -36));
    assert_eq!((q(5, -6, 7, 8) + q(1, 1, 1, 1)) - q(1, 1, 1, 1), q(5, -6, 7, 8));
}

#[test]
fn multiplication_table_of_the_algebra() {
    let one = q(1, 0, 0, 0);
    let i = q(0, 1, 0, 0);
    let j = q(0, 0, 1, 0);
    let k = q(0, 0, 0, 1);
    // i^2 = A = -1, j^2 = B = -37, k^2 = -AB = -37
    assert_eq!(i * i, q(-1, 0, 0, 0));
    assert_eq!(j * j, q(-37, 0, 0, 0));
    assert_eq!(k * k, q(-37, 0, 0, 0));
    // ij = k, ji = -k
    assert_eq!(i * j, k);
    assert_eq!(j * i, q(0, 0, 0, -1));
    // jk = -Bi, kj = Bi, ki = -Aj, ik = Aj
    assert_eq!(j * k, q(0, 37, 0, 0));
    assert_eq!(k * j, q(0, -37, 0, 0));
    assert_eq!(k * i, q(0, 0, 1, 0));
    assert_eq!(i * k, q(0, 0, -1, 0));
    assert_eq!(one * k, k);
    assert_eq!(k * one, k);
}

#[test]
fn multiplication_is_not_commutative() {
    let x = q(1, 2, 0, 0);
    let y = q(0, 0, 1, 1);
    assert_ne!(x * y, y * x);
}

#[test]
fn multiplication_is_associative_on_examples() {
    let x = q(1, -2, 3, 0);
    let y = q(2, 1, -1, 1);
    let z = q(-3, 0, 2, 5);
    assert_eq!((x * y) * z, x * (y * z));
}

#[test]
fn norm_is_multiplicative_on_examples() {
    let x = q(1, -2, 3, 0);
    let y = q(2, 1, -1, 1);
    assert_eq!((x * y).norm(), x.norm() * y.norm());
    assert_eq!(x * x.conjugate(), q(x.norm() as i64, 0, 0, 0));
    assert_eq!((x * y).conjugate(), y.conjugate() * x.conjugate());
}

#[test]
fn identity_state() {
    let s = IdealClass::identity(37);
    assert_eq!(s.value, Quaternion::identity());
    assert_eq!(s.discriminator, 37);
}

#[test]
fn from_hash_cuts_the_sha256_digest() {
    let s = IdealClass::from_hash("hello", 37);
    assert_eq!(s.value, q(342, 702, 414, 52));
    assert_eq!(s.discriminator, 37);
    let t = IdealClass::from_hash("Prove 1+1=2", 41);
    assert_eq!(t.value, q(-50, 586, 947, 646));
    assert_eq!(t.discriminator, 41);
    assert_eq!(IdealClass::from_hash("", 5).value, q(-964, -332, 964, -587));
    assert_eq!(IdealClass::from_hash("hello", 37), s);
}

#[test]
fn from_digest_of_zero_words_is_the_identity() {
    let zeros = [0u8; 32];
    assert_eq!(IdealClass::from_digest(&zeros, 3).value, Quaternion::identity());
    let mut bytes = [0u8; 32];
    bytes[7] = 0xff;
    bytes[6] = 0x03; // 0x03ff = 1023 -> 23
    bytes[8] = 0xff; // negative word
    for b in bytes.iter_mut().take(16).skip(9) {
        *b = 0xff;
    } // -1 -> -1
    assert_eq!(IdealClass::from_digest(&bytes, 3).value, q(23, -1, 0, 0));
}

#[test]
fn apply_hecke_is_right_multiplication() {
    let s = IdealClass { value: q(1, 2, 3, 4), discriminator: 37 };
    let g = q(6, 1, 0, 0);
    let next = s.apply_hecke(&g);
    assert_eq!(next.value, q(1, 2, 3, 4) * g);
    assert_eq!(next.discriminator, 37);
    // the walk depends on the order of the generators
    let h = q(1, 6, 0, 0);
    assert_ne!(s.apply_hecke(&g).apply_hecke(&q(0, 0, 1, 0)), s.apply_hecke(&q(0, 0, 1, 0)).apply_hecke(&g));
    assert_eq!(s.apply_hecke(&g).apply_hecke(&h).value, s.value * (g * h));
}

#[test]
fn neighbors_are_the_five_hecke_moves() {
    let s = IdealClass { value: q(2, -1, 1, 0), discriminator: 37 };
    let moves = s.neighbors();
    assert_eq!(moves.len(), 5);
    let gens = [q(6, 1, 0, 0), q(6, -1, 0, 0), q(1, 6, 0, 0), q(1, -6, 0, 0), q(1, 0, 0, 0)];
    for (m, g) in moves.iter().zip(gens.iter()) {
        assert_eq!(m.value, s.value * *g);
        assert_eq!(m.discriminator, 37);
    }
    for m in moves.iter().take(4) {
        assert_eq!(m.value.norm(), 37 * s.value.norm());
    }
    assert_eq!(moves[4].value, s.value);
}

#[test]
fn primality() {
    let primes: Vec<u64> = (0..60).filter(|&n| is_prime(n)).collect();
    assert_eq!(primes, vec![2, 3, 5, 7, 11, 13, 17, 19, 23, 29, 31, 37, 41, 43, 47, 53, 59]);
    assert!(is_prime(7919));
    assert!(!is_prime(7917));
    assert!(!is_prime(25));
    assert!(!is_prime(49));
    assert!(is_prime(4294967291));
    assert!(!is_prime(4294967297));
}

#[test]
fn migration_goes_to_a_larger_prime_one_mod_four() {
    // 1.2 * 37 = 44.4: 53 is the first prime p' = 1 mod 4 above it
    assert_eq!(next_algebra_prime(37), Some(53));
    assert_eq!(next_algebra_prime(53), Some(73));
    assert_eq!(next_algebra_prime(5), Some(13));
    assert_eq!(next_algebra_prime(0), Some(5));
    assert_eq!(next_algebra_prime(u64::MAX), None);
}

#[test]
fn display_text_of_a_quaternion() {
    assert_eq!(q(1, -2, 30, -400).to_display_string(), "[1, -2, 30, -400]");
    assert_eq!(Quaternion::zero().to_display_string(), "[0, 0, 0, 0]");
    assert_eq!(q(i64::MIN, i64::MAX, 0, 7).to_display_string(), format!("[{}, {}, 0, 7]", i64::MIN, i64::MAX));
}

#[test]
fn can_mul_tells_when_the_product_fits() {
    assert!(q(1, 2, 3, 4).can_mul(&q(5, 6, 7, 8)));
    assert!(!q(i64::MAX, 0, 0, 0).can_mul(&q(2, 0, 0, 0)));
    // 37 * c overflows before the product is formed
    assert!(!q(0, 0, i64::MAX / 10, 0).can_mul(&q(0, 0, 1, 0)));
    assert!(q(0, 0, i64::MAX / 40, 0).can_mul(&q(0, 0, 1, 0)));
    assert!(q(0, 0, 0, 1).can_mul(&q(0, 0, 0, -1)));
}

#[test]
fn walk_norm_grows_by_p_per_move() {
    let mut s = IdealClass::from_hash("walk", 37);
    let start_norm = s.value.norm();
    let g = q(6, -1, 0, 0);
    for _ in 0..3 {
        s = s.apply_hecke(&g);
    }
    assert_eq!(s.value.norm(), start_norm * 37 * 37 * 37);
    assert_eq!(s.value, IdealClass::from_hash("walk", 37).value * (g * g * g));
}
