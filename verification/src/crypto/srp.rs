//! SRP-6a client of HomeKit pairing: a 3072-bit group with generator 5, and SHA-512.

use crate::bytes;
use crate::crypto::numeral;
use crate::crypto::primitives;
use crate::text;
use num_bigint::RandBigInt;
use vstd::arithmetic::power;
use vstd::arithmetic::power2;
use vstd::prelude::*;
use vstd::string::*;

verus! {

/// What a server keeps of a user.
#[derive(Debug, Clone)]
pub struct SrpCredentials {
    pub username: String,
    pub password: String,
    pub salt: Vec<u8>,
    pub verifier: Vec<u8>,
}

/// The generator.
pub const SRP_GENERATOR: [u8; 1] = [5u8];

proof fn lemma_generator()
    ensures
        bytes::be_value(SRP_GENERATOR@) == 5,
        numeral::natural(5) == SRP_GENERATOR@,
{
    assert(SRP_GENERATOR@.drop_last().len() == 0);
    assert(bytes::be_value(SRP_GENERATOR@.drop_last()) == 0);
    assert(SRP_GENERATOR@.last() == 5);
    assert(numeral::natural(5) =~= SRP_GENERATOR@);
}

/// The numeral of `n`, on the left filled up with zeros to at least 384 bytes.
pub open spec fn padded384(n: nat) -> Seq<u8> {
    let s = numeral::natural(n);
    if s.len() < 384 {
        bytes::zeros((384 - s.len()) as nat) + s
    } else {
        s
    }
}

/// The number that a hash spells.
pub open spec fn hash_value(data: Seq<u8>) -> nat {
    bytes::be_value(primitives::sha512(data))
}

/// The private value x of a user's PIN: the salted hash, hashed once more.
pub open spec fn srp_x(salt: Seq<u8>, username: Seq<char>, pin: Seq<char>) -> nat {
    hash_value(primitives::sha512(salt + primitives::sha512(text::utf8(username + ":"@ + pin))))
}

/// The scrambling value u of both public keys.
pub open spec fn srp_u(a_pub: nat, b_pub: nat) -> nat {
    hash_value(numeral::natural(a_pub) + numeral::natural(b_pub))
}

/// The multiplier k of the group.
pub open spec fn srp_k(n: nat) -> nat {
    hash_value(padded384(n) + padded384(5))
}

/// `base^e` modulo `n`.
pub open spec fn group_pow(base: nat, e: nat, n: nat) -> nat {
    (power::pow(base as int, e) % n as int) as nat
}

/// `k * g^x` modulo `n`.
pub open spec fn blinded(n: nat, x: nat) -> nat {
    srp_k(n) * group_pow(5, x, n) % n
}

/// The session secret S.
pub open spec fn srp_secret(n: nat, a: nat, b_pub: nat, x: nat, u: nat) -> nat {
    group_pow(((b_pub - blinded(n, x)) as nat) % n, a + u * x, n)
}

/// The session key.
pub open spec fn session_key_of(s: nat) -> Seq<u8> {
    primitives::sha512(padded384(s))
}

/// The client's proof.
pub open spec fn client_proof(
    n: nat,
    username: Seq<char>,
    salt: Seq<u8>,
    a_pub: nat,
    b_pub: nat,
    key: Seq<u8>,
) -> Seq<u8> {
    primitives::sha512(
        padded384(n) + padded384(5) + text::utf8(username) + salt + padded384(a_pub) + padded384(
            b_pub,
        ) + key,
    )
}

/// The server's proof.
pub open spec fn server_proof(a_pub: nat, proof_bytes: Seq<u8>, key: Seq<u8>) -> Seq<u8> {
    primitives::sha512(padded384(a_pub) + proof_bytes + key)
}

/// One side of a pairing with a PIN.
pub struct SrpClient {
    n: Vec<u8>,
    a: Vec<u8>,
    a_pub: Vec<u8>,
}

/// `num_bigint::RandBigInt::gen_biguint` on `rand::thread_rng()`: a numeral of at most `bits` bits;
/// no more is known of its value.
#[verifier::external_body]
fn random_numeral(bits: u64) -> (r: Vec<u8>)
    requires
        bits <= 65536,
    ensures
        bytes::be_value(r@) < power2::pow2(bits as nat),
{
    rand::thread_rng().gen_biguint(bits).to_bytes_be()
}

/// Left-pads a shortest numeral to at least 384 bytes.
fn pad_to_384(b: &[u8]) -> (r: Vec<u8>)
    requires
        b@ == numeral::natural(bytes::be_value(b@)),
    ensures
        r@ == padded384(bytes::be_value(b@)),
{
    if b.len() < 384 {
        let mut out = bytes::zero_vec(384 - b.len());
        bytes::extend(&mut out, b);
        out
    } else {
        bytes::to_vec(b)
    }
}

impl SrpClient {
    /// The modulus.
    pub closed spec fn modulus(&self) -> nat {
        bytes::be_value(self.n@)
    }

    /// The secret exponent.
    pub closed spec fn secret(&self) -> nat {
        bytes::be_value(self.a@)
    }

    /// The public key A.
    pub open spec fn public(&self) -> nat {
        group_pow(5, self.secret(), self.modulus())
    }

    /// The modulus is above one, and numerals are in their shortest form.
    pub closed spec fn wf(&self) -> bool {
        self.modulus() > 1 && self.n@ == numeral::natural(self.modulus()) && self.a_pub@
            == numeral::natural(self.public())
    }

    /// The session key that the challenge leads to.
    pub open spec fn key(&self, salt: Seq<u8>, b: nat, username: Seq<char>, pin: Seq<char>) -> Seq<
        u8,
    > {
        session_key_of(
            srp_secret(
                self.modulus(),
                self.secret(),
                b,
                srp_x(salt, username, pin),
                srp_u(self.public(), b),
            ),
        )
    }

    /// Whether a server's public key is large enough to take `k * g^x` from it.
    pub open spec fn usable(
        &self,
        salt: Seq<u8>,
        b: nat,
        username: Seq<char>,
        pin: Seq<char>,
    ) -> bool {
        b >= blinded(self.modulus(), srp_x(salt, username, pin))
    }

    /// A client with a given modulus and secret.
    pub fn with_secret(modulus: &[u8], secret: &[u8]) -> (r: Self)
        requires
            bytes::be_value(modulus@) > 1,
        ensures
            r.wf(),
            r.modulus() == bytes::be_value(modulus@),
            r.secret() == bytes::be_value(secret@),
    {
        proof {
            lemma_generator();
            numeral::law_natural_value(bytes::be_value(modulus@));
        }
        let n = numeral::to_natural(modulus);
        let a_pub = numeral::mod_pow(&SRP_GENERATOR, secret, &n);
        SrpClient { n, a: bytes::to_vec(secret), a_pub }
    }

    /// A client with a given modulus and a fresh secret of at most 256 bits.
    pub fn new(modulus: &[u8]) -> (r: Self)
        requires
            bytes::be_value(modulus@) > 1,
        ensures
            r.wf(),
            r.modulus() == bytes::be_value(modulus@),
            r.secret() < power2::pow2(256),
    {
        let secret = random_numeral(256);
        SrpClient::with_secret(modulus, &secret)
    }

    /// The public key A, padded.
    pub fn client_public(&self) -> (r: Vec<u8>)
        requires
            self.wf(),
        ensures
            r@ == padded384(self.public()),
    {
        proof {
            numeral::law_natural_value(self.public());
        }
        pad_to_384(&self.a_pub)
    }

    /// The client's and the server's proof for a challenge.
    pub fn process_challenge(
        &self,
        salt: &[u8],
        server_public: &[u8],
        username: &str,
        pin: &str,
    ) -> (r: (Vec<u8>, Vec<u8>))
        requires
            self.wf(),
            self.usable(salt@, bytes::be_value(server_public@), username@, pin@),
        ensures
            r.0@ == client_proof(
                self.modulus(),
                username@,
                salt@,
                self.public(),
                bytes::be_value(server_public@),
                self.key(salt@, bytes::be_value(server_public@), username@, pin@),
            ),
            r.1@ == server_proof(
                self.public(),
                r.0@,
                self.key(salt@, bytes::be_value(server_public@), username@, pin@),
            ),
    {
        let ghost bv = bytes::be_value(server_public@);
        proof {
            numeral::law_natural_value(bv);
            numeral::law_natural_value(self.public());
        }
        let b = numeral::to_natural(server_public);
        let u = compute_u(&self.a_pub, &b);
        let x = compute_x(salt, username, pin);
        let s = self.compute_session_key(&b, &x, &u);
        proof {
            numeral::law_natural_value(
                srp_secret(
                    self.modulus(),
                    self.secret(),
                    bv,
                    srp_x(salt@, username@, pin@),
                    srp_u(self.public(), bv),
                ),
            );
        }
        let key = primitives::sha512_digest(&pad_to_384(&s));
        let proof_bytes = self.compute_proof(username, salt, &b, &key);
        let verifier = self.compute_server_proof(&proof_bytes, &key);
        (proof_bytes, verifier)
    }

    /// The client's and the server's proof for a challenge; nothing where the server's public key
    /// is below `k * g^x`.
    pub fn try_process_challenge(
        &self,
        salt: &[u8],
        server_public: &[u8],
        username: &str,
        pin: &str,
    ) -> (r: Option<(Vec<u8>, Vec<u8>)>)
        requires
            self.wf(),
        ensures
            match r {
                Some((m1, m2)) => {
                    &&& self.usable(salt@, bytes::be_value(server_public@), username@, pin@)
                    &&& m1@ == client_proof(
                        self.modulus(),
                        username@,
                        salt@,
                        self.public(),
                        bytes::be_value(server_public@),
                        self.key(salt@, bytes::be_value(server_public@), username@, pin@),
                    )
                    &&& m2@ == server_proof(
                        self.public(),
                        m1@,
                        self.key(salt@, bytes::be_value(server_public@), username@, pin@),
                    )
                },
                None => !self.usable(salt@, bytes::be_value(server_public@), username@, pin@),
            },
    {
        let x = compute_x(salt, username, pin);
        let kgx = self.compute_blinded(&x);
        proof {
            numeral::law_natural_value(blinded(self.modulus(), bytes::be_value(x@)));
        }
        if numeral::at_least(server_public, &kgx) {
            Some(self.process_challenge(salt, server_public, username, pin))
        } else {
            None
        }
    }

    fn compute_blinded(&self, x: &[u8]) -> (r: Vec<u8>)
        requires
            self.wf(),
        ensures
            r@ == numeral::natural(blinded(self.modulus(), bytes::be_value(x@))),
    {
        proof {
            lemma_generator();
            numeral::law_natural_value(group_pow(5, bytes::be_value(x@), self.modulus()));
            numeral::law_natural_value(
                srp_k(self.modulus()) * group_pow(5, bytes::be_value(x@), self.modulus()),
            );
        }
        let k = self.compute_k();
        let gx = numeral::mod_pow(&SRP_GENERATOR, x, &self.n);
        let kgx = numeral::product(&k, &gx);
        numeral::remainder(&kgx, &self.n)
    }

    fn compute_k(&self) -> (r: Vec<u8>)
        requires
            self.wf(),
        ensures
            bytes::be_value(r@) == srp_k(self.modulus()),
    {
        proof {
            lemma_generator();
        }
        let data = bytes::concat(&pad_to_384(&self.n), &pad_to_384(&SRP_GENERATOR));
        primitives::sha512_digest(&data)
    }

    fn compute_session_key(&self, b: &[u8], x: &[u8], u: &[u8]) -> (r: Vec<u8>)
        requires
            self.wf(),
            bytes::be_value(b@) >= blinded(self.modulus(), bytes::be_value(x@)),
        ensures
            r@ == numeral::natural(
                srp_secret(
                    self.modulus(),
                    self.secret(),
                    bytes::be_value(b@),
                    bytes::be_value(x@),
                    bytes::be_value(u@),
                ),
            ),
    {
        let ghost n = self.modulus();
        let ghost bv = bytes::be_value(b@);
        let ghost xv = bytes::be_value(x@);
        let ghost kv = blinded(n, xv);
        let kgx = self.compute_blinded(x);
        proof {
            numeral::law_natural_value(kv);
        }
        let diff = numeral::difference(b, &kgx);
        proof {
            numeral::law_natural_value((bv - kv) as nat);
        }
        let raised = numeral::sum(&diff, &self.n);
        proof {
            numeral::law_natural_value((bv - kv + n) as nat);
            vstd::arithmetic::div_mod::lemma_mod_add_multiples_vanish(bv - kv, n as int);
        }
        let base = numeral::remainder(&raised, &self.n);
        proof {
            numeral::law_natural_value(((bv - kv) as nat) % n);
        }
        let ux = numeral::product(u, x);
        proof {
            numeral::law_natural_value(bytes::be_value(u@) * xv);
        }
        let exp = numeral::sum(&self.a, &ux);
        proof {
            numeral::law_natural_value(self.secret() + bytes::be_value(u@) * xv);
        }
        numeral::mod_pow(&base, &exp, &self.n)
    }

    fn compute_proof(&self, username: &str, salt: &[u8], b: &[u8], key: &[u8]) -> (r: Vec<u8>)
        requires
            self.wf(),
            b@ == numeral::natural(bytes::be_value(b@)),
        ensures
            r@ == client_proof(
                self.modulus(),
                username@,
                salt@,
                self.public(),
                bytes::be_value(b@),
                key@,
            ),
    {
        proof {
            lemma_generator();
            numeral::law_natural_value(self.public());
        }
        let mut data = pad_to_384(&self.n);
        bytes::extend(&mut data, &pad_to_384(&SRP_GENERATOR));
        bytes::extend(&mut data, username.as_bytes());
        bytes::extend(&mut data, salt);
        bytes::extend(&mut data, &pad_to_384(&self.a_pub));
        bytes::extend(&mut data, &pad_to_384(b));
        bytes::extend(&mut data, key);
        primitives::sha512_digest(&data)
    }

    fn compute_server_proof(&self, proof_bytes: &[u8], key: &[u8]) -> (r: Vec<u8>)
        requires
            self.wf(),
        ensures
            r@ == server_proof(self.public(), proof_bytes@, key@),
    {
        proof {
            numeral::law_natural_value(self.public());
        }
        let mut data = pad_to_384(&self.a_pub);
        bytes::extend(&mut data, proof_bytes);
        bytes::extend(&mut data, key);
        primitives::sha512_digest(&data)
    }
}

fn compute_u(a_pub: &[u8], b_pub: &[u8]) -> (r: Vec<u8>)
    requires
        a_pub@ == numeral::natural(bytes::be_value(a_pub@)),
        b_pub@ == numeral::natural(bytes::be_value(b_pub@)),
    ensures
        bytes::be_value(r@) == srp_u(bytes::be_value(a_pub@), bytes::be_value(b_pub@)),
{
    let data = bytes::concat(a_pub, b_pub);
    primitives::sha512_digest(&data)
}

fn compute_x(salt: &[u8], username: &str, pin: &str) -> (r: Vec<u8>)
    ensures
        bytes::be_value(r@) == srp_x(salt@, username@, pin@),
{
    let mut inner = text::owned(username);
    inner.append(":");
    inner.append(pin);
    let inner_hash = primitives::sha512_digest(inner.as_str().as_bytes());
    let data = bytes::concat(salt, &inner_hash);
    let outer_hash = primitives::sha512_digest(&data);
    primitives::sha512_digest(&outer_hash)
}

/// A fresh salt of sixteen bytes.
pub fn generate_salt() -> (r: Vec<u8>)
    ensures
        r@.len() == 16,
{
    primitives::random_bytes(16)
}

/// A client and a server agree: where the server's public key was made from the verifier of a
/// private value and a server secret `b`, and can be used, both sides reach the same secret.
pub proof fn law_client_and_server_agree(n: nat, a: nat, b: nat, x: nat, u: nat)
    requires
        n > 1,
        numeral::server_key(5, srp_k(n), x, b, n) >= blinded(n, x),
    ensures
        srp_secret(n, a, numeral::server_key(5, srp_k(n), x, b, n), x, u)
            == numeral::server_secret(5, group_pow(5, a, n), x, u, b, n),
{
    numeral::lemma_shared_secret(5, srp_k(n), a, b, x, u, n);
}

/// What is hashed in the exchange, and in what order.
pub proof fn law_hashes_of_the_exchange(
    n: nat,
    salt: Seq<u8>,
    username: Seq<char>,
    pin: Seq<char>,
    a_pub: nat,
    b_pub: nat,
    s: nat,
)
    ensures
        srp_x(salt, username, pin) == bytes::be_value(
            primitives::sha512(
                primitives::sha512(
                    salt + primitives::sha512(
                        vstd::utf8::encode_utf8(username + seq![':'] + pin),
                    ),
                ),
            ),
        ),
        srp_u(a_pub, b_pub) == bytes::be_value(
            primitives::sha512(numeral::natural(a_pub) + numeral::natural(b_pub)),
        ),
        srp_k(n) == bytes::be_value(
            primitives::sha512(padded384(n) + bytes::zeros(383).push(5u8)),
        ),
        session_key_of(s) == primitives::sha512(padded384(s)),
        ({
            let key = session_key_of(s);
            let m1 = client_proof(n, username, salt, a_pub, b_pub, key);
            &&& m1 == primitives::sha512(
                padded384(n) + bytes::zeros(383).push(5u8) + vstd::utf8::encode_utf8(username) + salt
                    + padded384(a_pub) + padded384(b_pub) + key,
            )
            &&& server_proof(a_pub, m1, key) == primitives::sha512(padded384(a_pub) + m1 + key)
        }),
{
    reveal_strlit(":");
    assert(":"@ =~= seq![':']);
    lemma_generator();
    assert(SRP_GENERATOR@ =~= seq![5u8]);
    assert(bytes::zeros(383) + seq![5u8] =~= bytes::zeros(383).push(5u8));
}

/// The hashed inputs of two different PINs differ.
pub proof fn law_pins_are_told_apart(
    salt: Seq<u8>,
    username: Seq<char>,
    pin: Seq<char>,
    other: Seq<char>,
) -> (inputs: (Seq<u8>, Seq<u8>))
    requires
        pin != other,
    ensures
        inputs.0 != inputs.1,
        vstd::utf8::decode_utf8(inputs.0) == username + seq![':'] + pin,
        vstd::utf8::decode_utf8(inputs.1) == username + seq![':'] + other,
        srp_x(salt, username, pin) == bytes::be_value(
            primitives::sha512(primitives::sha512(salt + primitives::sha512(inputs.0))),
        ),
        srp_x(salt, username, other) == bytes::be_value(
            primitives::sha512(primitives::sha512(salt + primitives::sha512(inputs.1))),
        ),
{
    reveal_strlit(":");
    assert(":"@ =~= seq![':']);
    let a = username + seq![':'] + pin;
    let b = username + seq![':'] + other;
    vstd::utf8::encode_utf8_decode_utf8(a);
    vstd::utf8::encode_utf8_decode_utf8(b);
    assert(a.skip((username.len() + 1) as int) =~= pin);
    assert(b.skip((username.len() + 1) as int) =~= other);
    (vstd::utf8::encode_utf8(a), vstd::utf8::encode_utf8(b))
}

/// The secret of the client is what `(B - k * g^x)^(a + u * x)` leaves modulo `N`, where `k * g^x`
/// is taken modulo `N` first.
pub proof fn law_secret_of_the_client(n: nat, a: nat, b_pub: nat, x: nat, u: nat)
    requires
        n > 1,
        b_pub >= blinded(n, x),
    ensures
        blinded(n, x) == (srp_k(n) * power::pow(5, x)) % n as int,
        srp_secret(n, a, b_pub, x, u) == power::pow(
            (b_pub - srp_k(n) * power::pow(5, x)) % n as int,
            a + u * x,
        ) % n as int,
{
    let k = srp_k(n) as int;
    let g = power::pow(5, x);
    let m = n as int;
    vstd::arithmetic::power::lemma_pow_positive(5, x);
    vstd::arithmetic::div_mod::lemma_mul_mod_noop_right(k, g, m);
    assert(blinded(n, x) == (k * g) % m);
    vstd::arithmetic::div_mod::lemma_sub_mod_noop_right(b_pub as int, k * g, m);
    assert((b_pub - blinded(n, x)) % m == (b_pub - k * g) % m);
}

/// A number that is brought to 384 bytes keeps its value, with zeros in front.
pub proof fn law_padding_keeps_value(n: nat)
    ensures
        bytes::be_value(padded384(n)) == n,
        padded384(n).len() >= 384,
        padded384(n).len() > 384 ==> padded384(n)[0] != 0,
{
    numeral::law_natural_value(n);
    let s = numeral::natural(n);
    if s.len() < 384 {
        let z = bytes::zeros((384 - s.len()) as nat);
        bytes::lemma_be_value_split(z, s);
        lemma_zeros_are_nothing((384 - s.len()) as nat);
        assert(0 * power::pow(256, s.len()) as nat == 0) by (nonlinear_arith);
    }
}

proof fn lemma_zeros_are_nothing(len: nat)
    ensures
        bytes::be_value(bytes::zeros(len)) == 0,
    decreases len,
{
    if len > 0 {
        lemma_zeros_are_nothing((len - 1) as nat);
        assert(bytes::zeros(len).drop_last() =~= bytes::zeros((len - 1) as nat));
    }
}
} // verus!
