//! Natural numbers of any size as big-endian bytes.

use crate::bytes;
use num_bigint::BigUint;
use vstd::arithmetic::div_mod;
use vstd::arithmetic::power;
use vstd::prelude::*;

verus! {

/// The shortest big-endian numeral of `n`; one zero byte for zero.
pub open spec fn natural(n: nat) -> Seq<u8>
    decreases n,
{
    if n < 256 {
        seq![n as u8]
    } else {
        natural(n / 256).push((n % 256) as u8)
    }
}

/// The shortest numeral reads back as the number it was made from.
pub proof fn law_natural_value(n: nat)
    ensures
        bytes::be_value(natural(n)) == n,
        natural(n).len() > 0,
        natural(n).len() > 1 ==> natural(n)[0] != 0,
    decreases n,
{
    if n < 256 {
        let s = natural(n);
        assert(s.drop_last().len() == 0);
        assert(bytes::be_value(s.drop_last()) == 0);
    } else {
        law_natural_value(n / 256);
        assert(natural(n).drop_last() =~= natural(n / 256));
        if natural(n / 256).len() == 1 {
            assert(natural(n / 256)[0] != 0) by {
                if n / 256 < 256 {
                    assert(natural(n / 256) =~= seq![(n / 256) as u8]);
                } else {
                    law_natural_value(n / 256 / 256);
                }
            }
        }
    }
}

proof fn lemma_natural_of_value(s: Seq<u8>)
    requires
        s.len() > 0,
        s.len() > 1 ==> s[0] != 0,
    ensures
        natural(bytes::be_value(s)) == s,
        s[0] != 0 ==> bytes::be_value(s) > 0,
    decreases s.len(),
{
    let front = s.drop_last();
    let v = bytes::be_value(s);
    if s.len() == 1 {
        assert(bytes::be_value(front) == 0);
        assert(natural(v) =~= s);
    } else {
        assert(front[0] == s[0]);
        lemma_natural_of_value(front);
        assert(v / 256 == bytes::be_value(front) && v % 256 == s.last());
        assert(v >= 256);
        assert(natural(v) =~= s);
    }
}

/// A numeral of two bytes or more without a leading zero is the shortest one of its number.
pub proof fn lemma_large(s: Seq<u8>)
    requires
        s.len() > 1,
        s[0] != 0,
    ensures
        bytes::be_value(s) >= 256,
        natural(bytes::be_value(s)) == s,
{
    lemma_natural_of_value(s);
    assert(s.drop_last()[0] == s[0]);
    lemma_natural_of_value(s.drop_last());
}

proof fn lemma_leading_zero(s: Seq<u8>)
    requires
        s.len() > 0,
        s[0] == 0,
    ensures
        bytes::be_value(s.skip(1)) == bytes::be_value(s),
{
    let z = s.take(1);
    assert(s =~= z + s.skip(1));
    bytes::lemma_be_value_split(z, s.skip(1));
    assert(z.drop_last().len() == 0);
    assert(bytes::be_value(z.drop_last()) == 0);
    assert(z.last() == 0);
    assert(bytes::be_value(z) == 0);
    let p = power::pow(256, s.skip(1).len()) as nat;
    assert(0 * p == 0);
}

/// The shortest numeral of the number that `b` spells.
pub fn to_natural(b: &[u8]) -> (r: Vec<u8>)
    ensures
        r@ == natural(bytes::be_value(b@)),
{
    if b.len() == 0 {
        let mut zero: Vec<u8> = Vec::new();
        zero.push(0u8);
        assert(zero@ =~= natural(0));
        return zero;
    }
    let mut i: usize = 0;
    assert(b@.skip(0) =~= b@);
    while i < b.len() - 1 && b[i] == 0
        invariant
            i < b@.len(),
            bytes::be_value(b@.skip(i as int)) == bytes::be_value(b@),
        decreases b.len() - i,
    {
        proof {
            lemma_leading_zero(b@.skip(i as int));
            assert(b@.skip(i as int).skip(1) =~= b@.skip(i + 1));
        }
        i += 1;
    }
    proof {
        lemma_natural_of_value(b@.skip(i as int));
        assert(b@.subrange(i as int, b@.len() as int) =~= b@.skip(i as int));
    }
    bytes::sub_vec(b, i, b.len())
}

/// Whether the number that `b` spells is zero.
pub fn is_zero(b: &[u8]) -> (r: bool)
    ensures
        r == (bytes::be_value(b@) == 0),
{
    let n = to_natural(b);
    let mut zero: Vec<u8> = Vec::new();
    zero.push(0u8);
    proof {
        law_natural_value(bytes::be_value(b@));
        assert(zero@ =~= natural(0));
        law_natural_value(0);
    }
    bytes::same_bytes(&n, &zero)
}

/// `num_bigint::BigUint::modpow`: the power modulo a number above one, as a shortest numeral.
/// The arguments go through `from_bytes_be` and the result through `to_bytes_be`.
#[verifier::external_body]
pub(crate) fn mod_pow(base: &[u8], exp: &[u8], modulus: &[u8]) -> (r: Vec<u8>)
    requires
        bytes::be_value(modulus@) > 1,
    ensures
        r@ == natural(
            (power::pow(bytes::be_value(base@) as int, bytes::be_value(exp@)) % bytes::be_value(
                modulus@,
            ) as int) as nat,
        ),
{
    let b = BigUint::from_bytes_be(base);
    let e = BigUint::from_bytes_be(exp);
    let m = BigUint::from_bytes_be(modulus);
    b.modpow(&e, &m).to_bytes_be()
}

/// `num_bigint::BigUint` multiplication: the product as a shortest numeral.
#[verifier::external_body]
pub(crate) fn product(a: &[u8], b: &[u8]) -> (r: Vec<u8>)
    ensures
        r@ == natural(bytes::be_value(a@) * bytes::be_value(b@)),
{
    (BigUint::from_bytes_be(a) * BigUint::from_bytes_be(b)).to_bytes_be()
}

/// `num_bigint::BigUint` addition: the sum as a shortest numeral.
#[verifier::external_body]
pub(crate) fn sum(a: &[u8], b: &[u8]) -> (r: Vec<u8>)
    ensures
        r@ == natural(bytes::be_value(a@) + bytes::be_value(b@)),
{
    (BigUint::from_bytes_be(a) + BigUint::from_bytes_be(b)).to_bytes_be()
}

/// `num_bigint::BigUint` subtraction of a number that is not larger: the difference as a
/// shortest numeral.
#[verifier::external_body]
pub(crate) fn difference(a: &[u8], b: &[u8]) -> (r: Vec<u8>)
    requires
        bytes::be_value(b@) <= bytes::be_value(a@),
    ensures
        r@ == natural((bytes::be_value(a@) - bytes::be_value(b@)) as nat),
{
    (BigUint::from_bytes_be(a) - BigUint::from_bytes_be(b)).to_bytes_be()
}

/// `num_bigint::BigUint` remainder by a positive number, as a shortest numeral.
#[verifier::external_body]
pub(crate) fn remainder(a: &[u8], n: &[u8]) -> (r: Vec<u8>)
    requires
        bytes::be_value(n@) > 0,
    ensures
        r@ == natural(bytes::be_value(a@) % bytes::be_value(n@)),
{
    (BigUint::from_bytes_be(a) % BigUint::from_bytes_be(n)).to_bytes_be()
}

/// `num_bigint::BigUint` order: whether `a` is at least `b`.
#[verifier::external_body]
pub(crate) fn at_least(a: &[u8], b: &[u8]) -> (r: bool)
    ensures
        r == (bytes::be_value(a@) >= bytes::be_value(b@)),
{
    BigUint::from_bytes_be(a) >= BigUint::from_bytes_be(b)
}

/// `base^e` modulo `n`.
pub open spec fn power_mod(base: nat, e: nat, n: nat) -> nat {
    (power::pow(base as int, e) % n as int) as nat
}

/// The public key of a server with the verifier of a secret `x` and its own secret `b`.
pub open spec fn server_key(g: nat, k: nat, x: nat, b: nat, n: nat) -> nat {
    (k * power_mod(g, x, n) + power_mod(g, b, n)) % n
}

/// The secret that a server reaches from a client's public key `a_pub`.
pub open spec fn server_secret(g: nat, a_pub: nat, x: nat, u: nat, b: nat, n: nat) -> nat {
    (power::pow(a_pub * power::pow(power_mod(g, x, n) as int, u), b) % n as int) as nat
}

/// A client with secret `a` that takes `k * g^x` from the server's public key and raises the rest
/// to `a + u * x` reaches the secret that the server reaches.
pub proof fn lemma_shared_secret(g: nat, k: nat, a: nat, b: nat, x: nat, u: nat, n: nat)
    requires
        n > 0,
    ensures
        ({
            let taken = k * power_mod(g, x, n) % n;
            let base = ((server_key(g, k, x, b, n) - taken) % n as int) as nat;
            power_mod(base, a + u * x, n) == server_secret(g, power_mod(g, a, n), x, u, b, n)
        }),
{
    let m = n as int;
    let gi = g as int;
    let v = power_mod(g, x, n);
    let kv = (k * v) as int;
    let gb = power_mod(g, b, n) as int;
    let base = (server_key(g, k, x, b, n) - (k * v) % n) % m;
    let e = a + u * x;
    div_mod::lemma_sub_mod_noop(kv + gb, kv, m);
    assert(base == power::pow(gi, b) % m) by {
        div_mod::lemma_mod_twice(power::pow(gi, b), m);
    }
    assert(power::pow(base, e) % m == power::pow(gi, b * e) % m) by {
        power::lemma_pow_mod_noop(power::pow(gi, b), e, m);
        power::lemma_pow_multiplies(gi, b, e);
    }
    let ap = power_mod(g, a, n) as int;
    let vu = power::pow(v as int, u);
    let whole = ap * vu;
    assert(whole % m == power::pow(gi, e) % m) by {
        power::lemma_pow_mod_noop(power::pow(gi, x), u, m);
        power::lemma_pow_multiplies(gi, x, u);
        assert(x * u == u * x) by (nonlinear_arith);
        div_mod::lemma_mul_mod_noop(ap, vu, m);
        div_mod::lemma_mul_mod_noop(power::pow(gi, a), power::pow(gi, u * x), m);
        div_mod::lemma_mod_twice(power::pow(gi, a), m);
        power::lemma_pow_adds(gi, a, u * x);
    }
    assert(power::pow(whole, b) % m == power::pow(gi, e * b) % m) by {
        power::lemma_pow_mod_noop(whole, b, m);
        power::lemma_pow_mod_noop(power::pow(gi, e), b, m);
        power::lemma_pow_multiplies(gi, e, b);
    }
    assert(b * e == e * b) by (nonlinear_arith);
}

} // verus!
