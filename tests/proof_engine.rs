use num_bigint::BigUint;
use zkp_chaum_pedersen::zkp::ZKP;

fn big(v: u32) -> Vec<u8> {
    BigUint::from(v).to_bytes_be()
}

fn value(b: &[u8]) -> BigUint {
    BigUint::from_bytes_be(b)
}

#[test]
fn test_toy_example() {
    let alpha = big(4);
    let beta = big(9);
    let p = big(23);
    let q = big(11);

    let zkp = ZKP {
        alpha: alpha.clone(),
        beta: beta.clone(),
        p: p.clone(),
        q: q.clone(),
    };

    let x = big(6);
    let k = big(7);
    let c = big(4);

    let y1 = ZKP::exponentiate(&alpha, &x, &p);
    let y2 = ZKP::exponentiate(&beta, &x, &p);
    assert_eq!(value(&y1), BigUint::from(2u32));
    assert_eq!(value(&y2), BigUint::from(3u32));

    let r1 = ZKP::exponentiate(&alpha, &k, &p);
    let r2 = ZKP::exponentiate(&beta, &k, &p);
    assert_eq!(value(&r1), BigUint::from(8u32));
    assert_eq!(value(&r2), BigUint::from(4u32));

    let s = zkp.solve(&k, &c, &x);
    assert_eq!(value(&s), BigUint::from(5u32));

    let result = zkp.verify(&r1, &r2, &y1, &y2, &s, &c);
    assert!(result);
}

#[test]
fn test_toy_example_with_rng() {
    let alpha = big(4);
    let beta = big(9);
    let p = big(23);
    let q = big(11);

    let zkp = ZKP {
        alpha: alpha.clone(),
        beta: beta.clone(),
        p: p.clone(),
        q: q.clone(),
    };
    let x = big(6);

    let k = ZKP::generate_random_number(&q);
    println!("randome number k {}", value(&k));

    let c = ZKP::generate_random_number(&q);
    println!("randome number c {}", value(&c));

    let y1 = ZKP::exponentiate(&alpha, &x, &p);
    let y2 = ZKP::exponentiate(&beta, &x, &p);
    assert_eq!(value(&y1), BigUint::from(2u32));
    assert_eq!(value(&y2), BigUint::from(3u32));

    let r1 = ZKP::exponentiate(&alpha, &k, &p);
    let r2 = ZKP::exponentiate(&beta, &k, &p);

    let s = zkp.solve(&k, &c, &x);

    let result = zkp.verify(&r1, &r2, &y1, &y2, &s, &c);
    assert!(result);
}

#[test]
fn test_1024_constants() {
    let p = hex::decode("B10B8F96A080E01DDE92DE5EAE5D54EC52C99FBCFB06A3C69A6A9DCA52D23B616073E28675A23D189838EF1E2EE652C013ECB4AEA906112324975C3CD49B83BFACCBDD7D90C4BD7098488E9C219A73724EFFD6FAE5644738FAA31A4FF55BCCC0A151AF5F0DC8B4BD45BF37DF365C1A65E68CFDA76D4DA708DF1FB2BC2E4A4371").unwrap();
    let q = hex::decode("F518AA8781A8DF278ABA4E7D64B7CB9D49462353").unwrap();
    let alpha = hex::decode("A4D1CBD5C3FD34126765A442EFB99905F8104DD258AC507FD6406CFF14266D31266FEA1E5C41564B777E690F5504F213160217B4B01B886A5E91547F9E2749F4D7FBD7D3B9A92EE1909D0D2263F80A76A6A24C087A091F531DBF0A0169B6A28AD662A4D18E73AFA32D779D5918D08BC8858F4DCEF97C2A24855E6EEB22B3B2E5").unwrap();
    // alpha^i is also a generator
    let beta = ZKP::exponentiate(&alpha, &ZKP::generate_random_number(&q), &p);

    let zkp = ZKP {
        alpha: alpha.clone(),
        beta: beta.clone(),
        p: p.clone(),
        q: q.clone(),
    };
    let x = ZKP::generate_random_number(&q);

    let k = ZKP::generate_random_number(&q);
    println!("randome number k {}", value(&k));

    let c = ZKP::generate_random_number(&q);
    println!("randome number c {}", value(&c));

    let y1 = ZKP::exponentiate(&alpha, &x, &p);
    let y2 = ZKP::exponentiate(&beta, &x, &p);

    let r1 = ZKP::exponentiate(&alpha, &k, &p);
    let r2 = ZKP::exponentiate(&beta, &k, &p);

    let s = zkp.solve(&k, &c, &x);

    let result = zkp.verify(&r1, &r2, &y1, &y2, &s, &c);
    assert!(result);
}

#[test]
fn corrupted_response_is_rejected() {
    let zkp = ZKP::toy();
    let (y1, y2, r1, r2, c) = (big(2), big(3), big(8), big(4), big(4));
    assert!(zkp.verify(&r1, &r2, &y1, &y2, &big(5), &c));
    for bad in [0u32, 1, 2, 3, 4, 6, 7, 8, 9, 10] {
        assert!(!zkp.verify(&r1, &r2, &y1, &y2, &big(bad), &c));
    }
}

#[test]
fn one_equation_alone_is_not_enough() {
    let zkp = ZKP::toy();
    // r1 is right for s = 5, r2 is not
    assert!(!zkp.verify(&big(8), &big(5), &big(2), &big(3), &big(5), &big(4)));
    // r2 is right, r1 is not
    assert!(!zkp.verify(&big(9), &big(4), &big(2), &big(3), &big(5), &big(4)));
}

#[test]
fn solve_without_underflow() {
    let zkp = ZKP::toy();
    // k = 30, c * x = 2 * 3 = 6: (30 - 6) mod 11 = 2
    assert_eq!(value(&zkp.solve(&big(30), &big(2), &big(3))), BigUint::from(2u32));
}

#[test]
fn solve_underflow_stays_below_q() {
    let zkp = ZKP::toy();
    // k = 1, c * x = 12: (1 - 12) mod 11 = 0, never q itself
    assert_eq!(value(&zkp.solve(&big(1), &big(3), &big(4))), BigUint::from(0u32));
    // k = 0, c * x = 1: (0 - 1) mod 11 = 10
    assert_eq!(value(&zkp.solve(&big(0), &big(1), &big(1))), BigUint::from(10u32));
    for k in 0u32..30 {
        for cx in 0u32..40 {
            let s = value(&zkp.solve(&big(k), &big(cx), &big(1)));
            let expected = ((k as i64 - cx as i64).rem_euclid(11)) as u32;
            assert_eq!(s, BigUint::from(expected));
        }
    }
}

#[test]
fn solve_large_operands() {
    let zkp = ZKP::get_constants();
    let q = value(&zkp.q);
    let c = &q - 1u32;
    let x = &q - 2u32;
    let k = BigUint::from(5u32);
    let s = value(&zkp.solve(&k.to_bytes_be(), &c.to_bytes_be(), &x.to_bytes_be()));
    // c = -1, x = -2 (mod q): k - c x = 5 - 2 = 3
    assert_eq!(s, BigUint::from(3u32));
}

#[test]
fn exponentiate_exact_values() {
    assert_eq!(value(&ZKP::exponentiate(&big(2), &big(10), &big(1000))), BigUint::from(24u32));
    assert_eq!(value(&ZKP::exponentiate(&big(5), &big(0), &big(7))), BigUint::from(1u32));
    assert_eq!(value(&ZKP::exponentiate(&big(5), &big(3), &big(1))), BigUint::from(0u32));
    // leading zero bytes do not change the value
    assert_eq!(value(&ZKP::exponentiate(&[0, 0, 3], &[0, 2], &[0, 100])), BigUint::from(9u32));
}

#[test]
fn random_number_stays_below_limit() {
    for _ in 0..200 {
        assert!(value(&ZKP::generate_random_number(&big(11))) < BigUint::from(11u32));
        assert_eq!(value(&ZKP::generate_random_number(&big(1))), BigUint::from(0u32));
    }
}

#[test]
fn random_string_is_alphanumeric() {
    let a = ZKP::generate_random_string(12);
    let b = ZKP::generate_random_string(12);
    assert_eq!(a.chars().count(), 12);
    assert!(a.chars().all(|ch| ch.is_ascii_alphanumeric()));
    assert_ne!(a, b);
    assert_eq!(ZKP::generate_random_string(0), "");
}

#[test]
fn toy_group_values() {
    let zkp = ZKP::toy();
    assert_eq!(value(&zkp.alpha), BigUint::from(4u32));
    assert_eq!(value(&zkp.beta), BigUint::from(9u32));
    assert_eq!(value(&zkp.p), BigUint::from(23u32));
    assert_eq!(value(&zkp.q), BigUint::from(11u32));
}

#[test]
fn standard_group_completes_a_proof() {
    let zkp = ZKP::get_constants();
    assert_eq!(
        zkp.p,
        hex::decode("B10B8F96A080E01DDE92DE5EAE5D54EC52C99FBCFB06A3C69A6A9DCA52D23B616073E28675A23D189838EF1E2EE652C013ECB4AEA906112324975C3CD49B83BFACCBDD7D90C4BD7098488E9C219A73724EFFD6FAE5644738FAA31A4FF55BCCC0A151AF5F0DC8B4BD45BF37DF365C1A65E68CFDA76D4DA708DF1FB2BC2E4A4371").unwrap()
    );
    assert_eq!(
        zkp.alpha,
        hex::decode("A4D1CBD5C3FD34126765A442EFB99905F8104DD258AC507FD6406CFF14266D31266FEA1E5C41564B777E690F5504F213160217B4B01B886A5E91547F9E2749F4D7FBD7D3B9A92EE1909D0D2263F80A76A6A24C087A091F531DBF0A0169B6A28AD662A4D18E73AFA32D779D5918D08BC8858F4DCEF97C2A24855E6EEB22B3B2E5").unwrap()
    );
    assert_eq!(
        value(&zkp.beta),
        value(&zkp.alpha).modpow(&BigUint::from_bytes_be(&hex::decode("266FEA1E5C41564B777E69").unwrap()), &value(&zkp.p))
    );
    assert_eq!(
        value(&zkp.q),
        BigUint::from_bytes_be(&hex::decode("F518AA8781A8DF278ABA4E7D64B7CB9D49462353").unwrap())
    );
    // both generators have order q
    let one = BigUint::from(1u32);
    assert_eq!(value(&ZKP::exponentiate(&zkp.alpha, &zkp.q, &zkp.p)), one);
    assert_eq!(value(&ZKP::exponentiate(&zkp.beta, &zkp.q, &zkp.p)), one);
    let x = ZKP::generate_random_number(&zkp.q);
    let k = ZKP::generate_random_number(&zkp.q);
    let c = ZKP::generate_random_number(&zkp.q);
    let y1 = ZKP::exponentiate(&zkp.alpha, &x, &zkp.p);
    let y2 = ZKP::exponentiate(&zkp.beta, &x, &zkp.p);
    let r1 = ZKP::exponentiate(&zkp.alpha, &k, &zkp.p);
    let r2 = ZKP::exponentiate(&zkp.beta, &k, &zkp.p);
    let s = zkp.solve(&k, &c, &x);
    assert!(value(&s) < value(&zkp.q));
    assert!(zkp.verify(&r1, &r2, &y1, &y2, &s, &c));
    let bad = (value(&s) + 1u32).to_bytes_be();
    assert!(!zkp.verify(&r1, &r2, &y1, &y2, &bad, &c));
}
