//! The Chaum-Pedersen proof engine: commitments, responses and the
//! verification equations over a group of prime order `q` modulo `p`.

use vstd::prelude::*;
use rand::distributions::DistString;
use vstd::arithmetic::power::*;
use vstd::arithmetic::div_mod::*;
use crate::bignum::{
    be_value, mod_pow_spec, big_mod_pow, big_mul, big_sub, big_ge, big_eq, big_random_below,
    mod_reduce,
};

verus! {

/// Group parameters: generators `alpha` and `beta` of the subgroup of order
/// `q` in the multiplicative group modulo `p`, all as big-endian bytes.
pub struct ZKP {
    pub alpha: Vec<u8>,
    pub beta: Vec<u8>,
    pub p: Vec<u8>,
    pub q: Vec<u8>,
}

/// The prover's response `(k - c * x) mod q`, taken over the integers and
/// brought into `[0, q)`.
pub open spec fn solve_spec(k: nat, c: nat, x: nat, q: nat) -> nat
    recommends
        q > 0,
{
    ((k - c * x) % (q as int)) as nat
}

/// Both verification equations:
/// `r1 == (alpha^s mod p * y1^c mod p) mod p` and
/// `r2 == (beta^s mod p * y2^c mod p) mod p`.
pub open spec fn verify_spec(
    alpha: nat,
    beta: nat,
    p: nat,
    r1: nat,
    r2: nat,
    y1: nat,
    y2: nat,
    s: nat,
    c: nat,
) -> bool
    recommends
        p > 0,
{
    &&& r1 == (mod_pow_spec(alpha, s, p) * mod_pow_spec(y1, c, p)) % p
    &&& r2 == (mod_pow_spec(beta, s, p) * mod_pow_spec(y2, c, p)) % p
}

/// `n` is prime.
pub open spec fn is_prime(n: nat) -> bool {
    n > 1 && forall|d: nat| 1 < d < n ==> #[trigger] (n % d) != 0
}

/// Valid group parameters: `q` is a prime dividing `p - 1`, and `alpha`
/// and `beta` are elements of order `q` modulo `p`.
pub open spec fn valid_group(alpha: nat, beta: nat, p: nat, q: nat) -> bool {
    &&& p > 1
    &&& is_prime(q)
    &&& (p - 1) % (q as int) == 0
    &&& 1 < alpha < p
    &&& 1 < beta < p
    &&& mod_pow_spec(alpha, q, p) == 1
    &&& mod_pow_spec(beta, q, p) == 1
}

/// Raising `g` to a multiple of its order gives one.
proof fn lemma_pow_order_multiple(g: nat, p: nat, q: nat, n: nat)
    requires
        p > 1,
        mod_pow_spec(g, q, p) == 1,
    ensures
        pow(g as int, q * n) % (p as int) == 1,
{
    lemma_pow_multiplies(g as int, q, n);
    lemma_pow_mod_noop(pow(g as int, q), n, p as int);
    lemma1_pow(n);
    lemma_small_mod(1, p);
}

/// Exponents that differ by a multiple of the order give the same power.
proof fn lemma_pow_shift(g: nat, p: nat, q: nat, e: nat, n: nat)
    requires
        p > 1,
        mod_pow_spec(g, q, p) == 1,
    ensures
        pow(g as int, e + q * n) % (p as int) == pow(g as int, e) % (p as int),
{
    let pi = p as int;
    lemma_pow_adds(g as int, e, q * n);
    lemma_pow_order_multiple(g, p, q, n);
    lemma_mul_mod_noop(pow(g as int, e), pow(g as int, q * n), pi);
    lemma_mod_twice(pow(g as int, e), pi);
}

/// One verification equation holds for an honest response.
proof fn lemma_equation_holds(g: nat, p: nat, q: nat, x: nat, k: nat, c: nat)
    requires
        p > 1,
        q > 0,
        mod_pow_spec(g, q, p) == 1,
    ensures
        mod_pow_spec(g, k, p) == (mod_pow_spec(g, solve_spec(k, c, x, q), p) * mod_pow_spec(
            mod_pow_spec(g, x, p),
            c,
            p,
        )) % p,
{
    let pi = p as int;
    let qi = q as int;
    let gi = g as int;
    let s = solve_spec(k, c, x, q);
    let diff = k - c * x;
    lemma_fundamental_div_mod(diff, qi);
    lemma_mod_bound(diff, qi);
    assert(s as int == diff % qi);
    lemma_equation_rhs(g, p, x, s, c);
    let f = diff / qi;
    assert(s + x * c == k - qi * f) by (nonlinear_arith)
        requires
            diff == qi * f + s,
            diff == k - c * x,
    ;
    if f <= 0 {
        let n = (-f) as nat;
        assert(s + x * c == k + q * n) by (nonlinear_arith)
            requires
                s + x * c == k - qi * f,
                n == -f,
                qi == q,
        ;
        lemma_pow_shift(g, p, q, k, n);
    } else {
        let n = f as nat;
        let e = (s + x * c) as nat;
        assert(k == e + q * n) by (nonlinear_arith)
            requires
                s + x * c == k - qi * f,
                n == f,
                e == s + x * c,
                qi == q,
        ;
        lemma_pow_shift(g, p, q, e, n);
    }
    lemma_mod_bound(pow(gi, k), pi);
}

/// An honest prover always convinces the verifier: for valid group
/// parameters, any secret `x`, nonce `k` and challenge `c < q`, the
/// commitments `alpha^k, beta^k`, the public values `alpha^x, beta^x` (all
/// modulo `p`) and the response `solve(k, c, x, q)` satisfy both
/// verification equations.
pub proof fn lemma_completeness(alpha: nat, beta: nat, p: nat, q: nat, x: nat, k: nat, c: nat)
    requires
        valid_group(alpha, beta, p, q),
        c < q,
    ensures
        verify_spec(
            alpha,
            beta,
            p,
            mod_pow_spec(alpha, k, p),
            mod_pow_spec(beta, k, p),
            mod_pow_spec(alpha, x, p),
            mod_pow_spec(beta, x, p),
            solve_spec(k, c, x, q),
            c,
        ),
{
    lemma_equation_holds(alpha, p, q, x, k, c);
    lemma_equation_holds(beta, p, q, x, k, c);
}

/// The 1024-bit prime modulus `p` of RFC 5114, section 2.1.
pub open spec fn rfc5114_p() -> Seq<u8> {
    seq![
        0xb1, 0x0b, 0x8f, 0x96, 0xa0, 0x80, 0xe0, 0x1d, 0xde, 0x92, 0xde, 0x5e,
        0xae, 0x5d, 0x54, 0xec, 0x52, 0xc9, 0x9f, 0xbc, 0xfb, 0x06, 0xa3, 0xc6,
        0x9a, 0x6a, 0x9d, 0xca, 0x52, 0xd2, 0x3b, 0x61, 0x60, 0x73, 0xe2, 0x86,
        0x75, 0xa2, 0x3d, 0x18, 0x98, 0x38, 0xef, 0x1e, 0x2e, 0xe6, 0x52, 0xc0,
        0x13, 0xec, 0xb4, 0xae, 0xa9, 0x06, 0x11, 0x23, 0x24, 0x97, 0x5c, 0x3c,
        0xd4, 0x9b, 0x83, 0xbf, 0xac, 0xcb, 0xdd, 0x7d, 0x90, 0xc4, 0xbd, 0x70,
        0x98, 0x48, 0x8e, 0x9c, 0x21, 0x9a, 0x73, 0x72, 0x4e, 0xff, 0xd6, 0xfa,
        0xe5, 0x64, 0x47, 0x38, 0xfa, 0xa3, 0x1a, 0x4f, 0xf5, 0x5b, 0xcc, 0xc0,
        0xa1, 0x51, 0xaf, 0x5f, 0x0d, 0xc8, 0xb4, 0xbd, 0x45, 0xbf, 0x37, 0xdf,
        0x36, 0x5c, 0x1a, 0x65, 0xe6, 0x8c, 0xfd, 0xa7, 0x6d, 0x4d, 0xa7, 0x08,
        0xdf, 0x1f, 0xb2, 0xbc, 0x2e, 0x4a, 0x43, 0x71,
    ]
}

/// The 160-bit prime order `q` of RFC 5114, section 2.1.
pub open spec fn rfc5114_q() -> Seq<u8> {
    seq![
        0xf5, 0x18, 0xaa, 0x87, 0x81, 0xa8, 0xdf, 0x27, 0x8a, 0xba, 0x4e, 0x7d,
        0x64, 0xb7, 0xcb, 0x9d, 0x49, 0x46, 0x23, 0x53,
    ]
}

/// The generator of RFC 5114, section 2.1.
pub open spec fn rfc5114_alpha() -> Seq<u8> {
    seq![
        0xa4, 0xd1, 0xcb, 0xd5, 0xc3, 0xfd, 0x34, 0x12, 0x67, 0x65, 0xa4, 0x42,
        0xef, 0xb9, 0x99, 0x05, 0xf8, 0x10, 0x4d, 0xd2, 0x58, 0xac, 0x50, 0x7f,
        0xd6, 0x40, 0x6c, 0xff, 0x14, 0x26, 0x6d, 0x31, 0x26, 0x6f, 0xea, 0x1e,
        0x5c, 0x41, 0x56, 0x4b, 0x77, 0x7e, 0x69, 0x0f, 0x55, 0x04, 0xf2, 0x13,
        0x16, 0x02, 0x17, 0xb4, 0xb0, 0x1b, 0x88, 0x6a, 0x5e, 0x91, 0x54, 0x7f,
        0x9e, 0x27, 0x49, 0xf4, 0xd7, 0xfb, 0xd7, 0xd3, 0xb9, 0xa9, 0x2e, 0xe1,
        0x90, 0x9d, 0x0d, 0x22, 0x63, 0xf8, 0x0a, 0x76, 0xa6, 0xa2, 0x4c, 0x08,
        0x7a, 0x09, 0x1f, 0x53, 0x1d, 0xbf, 0x0a, 0x01, 0x69, 0xb6, 0xa2, 0x8a,
        0xd6, 0x62, 0xa4, 0xd1, 0x8e, 0x73, 0xaf, 0xa3, 0x2d, 0x77, 0x9d, 0x59,
        0x18, 0xd0, 0x8b, 0xc8, 0x85, 0x8f, 0x4d, 0xce, 0xf9, 0x7c, 0x2a, 0x24,
        0x85, 0x5e, 0x6e, 0xeb, 0x22, 0xb3, 0xb2, 0xe5,
    ]
}

/// The fixed exponent `r` with `beta = alpha^r mod p` in the 1024-bit group.
pub open spec fn beta_exponent() -> Seq<u8> {
    seq![
        0x26, 0x6f, 0xea, 0x1e, 0x5c, 0x41, 0x56, 0x4b, 0x77, 0x7e, 0x69,
    ]
}

/// A non-empty byte string is worth at least its last byte.
proof fn lemma_be_value_at_least_last(b: Seq<u8>)
    requires
        b.len() > 0,
    ensures
        be_value(b) >= b.last() as nat,
{
    reveal_with_fuel(be_value, 1);
}

/// An ASCII letter or digit.
pub open spec fn is_alphanumeric(ch: char) -> bool {
    ('a' <= ch && ch <= 'z') || ('A' <= ch && ch <= 'Z') || ('0' <= ch && ch <= '9')
}

/// Relies on `DistString::sample_string` for rand's `Alphanumeric` with the
/// thread-local cryptographically secure generator: `len` characters, each
/// drawn from `A-Z`, `a-z` and `0-9`.
#[verifier::external_body]
fn random_alphanumeric(len: usize) -> (r: String)
    ensures
        r@.len() == len,
        forall|i: int| 0 <= i < r@.len() ==> is_alphanumeric(#[trigger] r@[i]),
{
    rand::distributions::Alphanumeric.sample_string(&mut rand::thread_rng(), len)
}

/// The toy group is valid: 11 is prime and divides 22, and 4 and 9 have
/// order 11 modulo 23.
proof fn lemma_toy_group_valid()
    ensures
        valid_group(4, 9, 23, 11),
{
    reveal_with_fuel(pow, 12);
    assert(pow(4, 11) % 23 == 1);
    assert(pow(9, 11) % 23 == 1);
    assert forall|d: nat| 1 < d < 11 implies #[trigger] (11nat % d) != 0 by {
        assert(d == 2 || d == 3 || d == 4 || d == 5 || d == 6 || d == 7 || d == 8 || d == 9 || d == 10);
    }
}

/// The right side of a verification equation is `g^(s + x c) mod p`.
proof fn lemma_equation_rhs(g: nat, p: nat, x: nat, s: nat, c: nat)
    requires
        p > 1,
    ensures
        (mod_pow_spec(g, s, p) * mod_pow_spec(mod_pow_spec(g, x, p), c, p)) % p == pow(
            g as int,
            s + x * c,
        ) % (p as int),
{
    let pi = p as int;
    let gi = g as int;
    lemma_pow_mod_noop(pow(gi, x), c, pi);
    lemma_pow_multiplies(gi, x, c);
    lemma_mul_mod_noop(pow(gi, s), pow(gi, x * c), pi);
    lemma_pow_adds(gi, s, x * c);
}

/// An element of prime order `q` is not sent to one by any exponent
/// strictly between zero and `q`.
proof fn lemma_no_smaller_order(g: nat, p: nat, q: nat, d: nat)
    requires
        p > 1,
        is_prime(q),
        1 < g < p,
        mod_pow_spec(g, q, p) == 1,
        0 < d < q,
    ensures
        pow(g as int, d) % (p as int) != 1,
    decreases d,
{
    let pi = p as int;
    if pow(g as int, d) % pi == 1 {
        if d == 1 {
            lemma_pow1(g as int);
            lemma_small_mod(g, p);
        } else {
            let t = q / d;
            let r = q % d;
            lemma_fundamental_div_mod(q as int, d as int);
            assert(q == r + d * t);
            lemma_pow_shift(g, p, d, r, t);
            assert(pow(g as int, r) % pi == 1);
            if r == 0 {
                assert(q % d != 0);
            } else {
                lemma_no_smaller_order(g, p, q, r);
            }
        }
    }
}

/// Exponents below the order give distinct powers.
proof fn lemma_exponents_distinct(g: nat, p: nat, q: nat, e: nat, d: nat)
    requires
        p > 1,
        is_prime(q),
        1 < g < p,
        mod_pow_spec(g, q, p) == 1,
        0 < d < q,
    ensures
        pow(g as int, e) % (p as int) != pow(g as int, e + d) % (p as int),
{
    let pi = p as int;
    let gi = g as int;
    let m = ((q - 1) * e) as nat;
    let w = pow(gi, m);
    if pow(gi, e) % pi == pow(gi, e + d) % pi {
        lemma_mul_mod_noop(pow(gi, e), w, pi);
        lemma_mul_mod_noop(pow(gi, e + d), w, pi);
        lemma_pow_adds(gi, e, m);
        lemma_pow_adds(gi, e + d, m);
        assert(e + m == q * e) by (nonlinear_arith)
            requires
                m == (q - 1) * e,
                q > 1,
        ;
        assert(e + d + m == d + q * e);
        lemma_pow_order_multiple(g, p, q, e);
        lemma_pow_shift(g, p, q, d, e);
        lemma_no_smaller_order(g, p, q, d);
    }
}

/// A wrong response is rejected: for valid group parameters, commitments
/// and public values made from any secret `x` and nonce `k`, and a
/// challenge `c < q`, no response below `q` other than `solve(k, c, x, q)`
/// satisfies the verification equations.
pub proof fn lemma_soundness(
    alpha: nat,
    beta: nat,
    p: nat,
    q: nat,
    x: nat,
    k: nat,
    c: nat,
    s2: nat,
)
    requires
        valid_group(alpha, beta, p, q),
        c < q,
        s2 < q,
        s2 != solve_spec(k, c, x, q),
    ensures
        !verify_spec(
            alpha,
            beta,
            p,
            mod_pow_spec(alpha, k, p),
            mod_pow_spec(beta, k, p),
            mod_pow_spec(alpha, x, p),
            mod_pow_spec(beta, x, p),
            s2,
            c,
        ),
{
    let s = solve_spec(k, c, x, q);
    lemma_mod_bound(k - c * x, q as int);
    lemma_equation_holds(alpha, p, q, x, k, c);
    lemma_equation_rhs(alpha, p, x, s, c);
    lemma_equation_rhs(alpha, p, x, s2, c);
    if s < s2 {
        lemma_exponents_distinct(alpha, p, q, s + x * c, (s2 - s) as nat);
        assert(s2 + x * c == (s + x * c) + (s2 - s));
    } else {
        lemma_exponents_distinct(alpha, p, q, s2 + x * c, (s - s2) as nat);
        assert(s + x * c == (s2 + x * c) + (s - s2));
    }
}

impl ZKP {
    pub open spec fn alpha_value(&self) -> nat {
        be_value(self.alpha@)
    }

    pub open spec fn beta_value(&self) -> nat {
        be_value(self.beta@)
    }

    pub open spec fn p_value(&self) -> nat {
        be_value(self.p@)
    }

    pub open spec fn q_value(&self) -> nat {
        be_value(self.q@)
    }

    /// The moduli are usable: `p > 1` and `q > 0`.
    pub open spec fn wf(&self) -> bool {
        self.p_value() > 1 && self.q_value() > 0
    }

    /// The toy group `alpha = 4, beta = 9, p = 23, q = 11`, for
    /// deterministic testing only.
    pub fn toy() -> (r: ZKP)
        ensures
            r.wf(),
            r.alpha_value() == 4,
            r.beta_value() == 9,
            r.p_value() == 23,
            r.q_value() == 11,
            valid_group(4, 9, 23, 11),
    {
        let r = ZKP { alpha: vec![4u8], beta: vec![9u8], p: vec![23u8], q: vec![11u8] };
        proof {
            reveal_with_fuel(be_value, 2);
            lemma_toy_group_valid();
        }
        r
    }

    /// The 1024-bit MODP group with a 160-bit prime-order subgroup
    /// (RFC 5114, section 2.1): `alpha` is its generator and `beta` is
    /// `alpha` raised to a fixed exponent modulo `p`.
    pub fn get_constants() -> (r: ZKP)
        ensures
            r.wf(),
            r.p@ == rfc5114_p(),
            r.q@ == rfc5114_q(),
            r.alpha@ == rfc5114_alpha(),
            r.beta_value() == mod_pow_spec(r.alpha_value(), be_value(beta_exponent()), r.p_value()),
    {
        let p: Vec<u8> = vec![
            0xb1, 0x0b, 0x8f, 0x96, 0xa0, 0x80, 0xe0, 0x1d, 0xde, 0x92, 0xde, 0x5e,
            0xae, 0x5d, 0x54, 0xec, 0x52, 0xc9, 0x9f, 0xbc, 0xfb, 0x06, 0xa3, 0xc6,
            0x9a, 0x6a, 0x9d, 0xca, 0x52, 0xd2, 0x3b, 0x61, 0x60, 0x73, 0xe2, 0x86,
            0x75, 0xa2, 0x3d, 0x18, 0x98, 0x38, 0xef, 0x1e, 0x2e, 0xe6, 0x52, 0xc0,
            0x13, 0xec, 0xb4, 0xae, 0xa9, 0x06, 0x11, 0x23, 0x24, 0x97, 0x5c, 0x3c,
            0xd4, 0x9b, 0x83, 0xbf, 0xac, 0xcb, 0xdd, 0x7d, 0x90, 0xc4, 0xbd, 0x70,
            0x98, 0x48, 0x8e, 0x9c, 0x21, 0x9a, 0x73, 0x72, 0x4e, 0xff, 0xd6, 0xfa,
            0xe5, 0x64, 0x47, 0x38, 0xfa, 0xa3, 0x1a, 0x4f, 0xf5, 0x5b, 0xcc, 0xc0,
            0xa1, 0x51, 0xaf, 0x5f, 0x0d, 0xc8, 0xb4, 0xbd, 0x45, 0xbf, 0x37, 0xdf,
            0x36, 0x5c, 0x1a, 0x65, 0xe6, 0x8c, 0xfd, 0xa7, 0x6d, 0x4d, 0xa7, 0x08,
            0xdf, 0x1f, 0xb2, 0xbc, 0x2e, 0x4a, 0x43, 0x71,
        ];
        let q: Vec<u8> = vec![
            0xf5, 0x18, 0xaa, 0x87, 0x81, 0xa8, 0xdf, 0x27, 0x8a, 0xba, 0x4e, 0x7d,
            0x64, 0xb7, 0xcb, 0x9d, 0x49, 0x46, 0x23, 0x53,
        ];
        let alpha: Vec<u8> = vec![
            0xa4, 0xd1, 0xcb, 0xd5, 0xc3, 0xfd, 0x34, 0x12, 0x67, 0x65, 0xa4, 0x42,
            0xef, 0xb9, 0x99, 0x05, 0xf8, 0x10, 0x4d, 0xd2, 0x58, 0xac, 0x50, 0x7f,
            0xd6, 0x40, 0x6c, 0xff, 0x14, 0x26, 0x6d, 0x31, 0x26, 0x6f, 0xea, 0x1e,
            0x5c, 0x41, 0x56, 0x4b, 0x77, 0x7e, 0x69, 0x0f, 0x55, 0x04, 0xf2, 0x13,
            0x16, 0x02, 0x17, 0xb4, 0xb0, 0x1b, 0x88, 0x6a, 0x5e, 0x91, 0x54, 0x7f,
            0x9e, 0x27, 0x49, 0xf4, 0xd7, 0xfb, 0xd7, 0xd3, 0xb9, 0xa9, 0x2e, 0xe1,
            0x90, 0x9d, 0x0d, 0x22, 0x63, 0xf8, 0x0a, 0x76, 0xa6, 0xa2, 0x4c, 0x08,
            0x7a, 0x09, 0x1f, 0x53, 0x1d, 0xbf, 0x0a, 0x01, 0x69, 0xb6, 0xa2, 0x8a,
            0xd6, 0x62, 0xa4, 0xd1, 0x8e, 0x73, 0xaf, 0xa3, 0x2d, 0x77, 0x9d, 0x59,
            0x18, 0xd0, 0x8b, 0xc8, 0x85, 0x8f, 0x4d, 0xce, 0xf9, 0x7c, 0x2a, 0x24,
            0x85, 0x5e, 0x6e, 0xeb, 0x22, 0xb3, 0xb2, 0xe5,
        ];
        let e: Vec<u8> = vec![
            0x26, 0x6f, 0xea, 0x1e, 0x5c, 0x41, 0x56, 0x4b, 0x77, 0x7e, 0x69,
        ];
        proof {
            assert(e@ == beta_exponent());
            assert(p@ == rfc5114_p());
            assert(q@ == rfc5114_q());
            assert(alpha@ == rfc5114_alpha());
            lemma_be_value_at_least_last(p@);
            lemma_be_value_at_least_last(q@);
        }
        let beta = big_mod_pow(alpha.as_slice(), e.as_slice(), p.as_slice());
        ZKP { alpha, beta, p, q }
    }

    /// `num ^ exponent mod modulus`, always in `[0, modulus)`.
    pub fn exponentiate(num: &[u8], exponent: &[u8], modulus: &[u8]) -> (r: Vec<u8>)
        requires
            be_value(modulus@) > 0,
        ensures
            be_value(r@) == mod_pow_spec(be_value(num@), be_value(exponent@), be_value(modulus@)),
            be_value(r@) < be_value(modulus@),
    {
        big_mod_pow(num, exponent, modulus)
    }

    /// The response `s = (k - c * x) mod q`; when `k < c * x` the negative
    /// difference is brought into `[0, q)`.
    pub fn solve(&self, k: &[u8], c: &[u8], x: &[u8]) -> (r: Vec<u8>)
        requires
            self.wf(),
        ensures
            be_value(r@) == solve_spec(be_value(k@), be_value(c@), be_value(x@), self.q_value()),
            be_value(r@) < self.q_value(),
    {
        let cx = big_mul(c, x);
        if big_ge(k, cx.as_slice()) {
            let d = big_sub(k, cx.as_slice());
            mod_reduce(d.as_slice(), self.q.as_slice())
        } else {
            let d = big_sub(cx.as_slice(), k);
            let dm = mod_reduce(d.as_slice(), self.q.as_slice());
            let t = big_sub(self.q.as_slice(), dm.as_slice());
            let r = mod_reduce(t.as_slice(), self.q.as_slice());
            proof {
                let q = self.q_value() as int;
                let dd = be_value(d@) as int;
                lemma_fundamental_div_mod(dd, q);
                lemma_mod_multiples_vanish(
                    1 + dd / q,
                    be_value(k@) - be_value(c@) * be_value(x@),
                    q,
                );
                assert(q - dd % q == q * (1 + dd / q) + (be_value(k@) - be_value(c@) * be_value(x@))) by (nonlinear_arith)
                    requires dd == q * (dd / q) + dd % q,
                        dd == be_value(c@) * be_value(x@) - be_value(k@);
            }
            r
        }
    }

    /// Whether both verification equations hold for the commitments
    /// `r1, r2`, the public values `y1, y2`, the response `s` and the
    /// challenge `c`.
    pub fn verify(
        &self,
        r1: &[u8],
        r2: &[u8],
        y1: &[u8],
        y2: &[u8],
        s: &[u8],
        c: &[u8],
    ) -> (r: bool)
        requires
            self.wf(),
        ensures
            r == verify_spec(
                self.alpha_value(),
                self.beta_value(),
                self.p_value(),
                be_value(r1@),
                be_value(r2@),
                be_value(y1@),
                be_value(y2@),
                be_value(s@),
                be_value(c@),
            ),
    {
        let p = self.p.as_slice();
        let a = big_mod_pow(self.alpha.as_slice(), s, p);
        let b = big_mod_pow(y1, c, p);
        let ab = big_mul(a.as_slice(), b.as_slice());
        let lhs1 = mod_reduce(ab.as_slice(), p);
        let cond1 = big_eq(r1, lhs1.as_slice());

        let a2 = big_mod_pow(self.beta.as_slice(), s, p);
        let b2 = big_mod_pow(y2, c, p);
        let ab2 = big_mul(a2.as_slice(), b2.as_slice());
        let lhs2 = mod_reduce(ab2.as_slice(), p);
        let cond2 = big_eq(r2, lhs2.as_slice());

        cond1 && cond2
    }

    /// A uniformly drawn value in `[0, limit)` from a cryptographically
    /// secure source.
    pub fn generate_random_number(limit: &[u8]) -> (r: Vec<u8>)
        requires
            be_value(limit@) > 0,
        ensures
            be_value(r@) < be_value(limit@),
    {
        big_random_below(limit)
    }

    /// An unpredictable token of `len` ASCII letters and digits, used as an
    /// authentication id and as a session id.
    pub fn generate_random_string(len: usize) -> (r: String)
        ensures
            r@.len() == len,
            forall|i: int| 0 <= i < r@.len() ==> is_alphanumeric(#[trigger] r@[i]),
    {
        random_alphanumeric(len)
    }
}

} // verus!
