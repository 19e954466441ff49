//! SRP client of pair-setup-pin: the 2048-bit group with generator 2, and SHA-1.

use crate::bytes;
use crate::crypto::numeral;
use crate::crypto::primitives;
use crate::text;
use vstd::arithmetic::power;
use vstd::arithmetic::power2;
use vstd::prelude::*;
use vstd::string::*;

verus! {

/// The 2048-bit modulus, big-endian.
pub const NG_2048: [u8; 256] = [
    0xacu8, 0x6b, 0xdb, 0x41, 0x32, 0x4a, 0x9a, 0x9b, 0xf1, 0x66, 0xde, 0x5e,
    0x13, 0x89, 0x58, 0x2f, 0xaf, 0x72, 0xb6, 0x65, 0x19, 0x87, 0xee, 0x07,
    0xfc, 0x31, 0x92, 0x94, 0x3d, 0xb5, 0x60, 0x50, 0xa3, 0x73, 0x29, 0xcb,
    0xb4, 0xa0, 0x99, 0xed, 0x81, 0x93, 0xe0, 0x75, 0x77, 0x67, 0xa1, 0x3d,
    0xd5, 0x23, 0x12, 0xab, 0x4b, 0x03, 0x31, 0x0d, 0xcd, 0x7f, 0x48, 0xa9,
    0xda, 0x04, 0xfd, 0x50, 0xe8, 0x08, 0x39, 0x69, 0xed, 0xb7, 0x67, 0xb0,
    0xcf, 0x60, 0x95, 0x17, 0x9a, 0x16, 0x3a, 0xb3, 0x66, 0x1a, 0x05, 0xfb,
    0xd5, 0xfa, 0xaa, 0xe8, 0x29, 0x18, 0xa9, 0x96, 0x2f, 0x0b, 0x93, 0xb8,
    0x55, 0xf9, 0x79, 0x93, 0xec, 0x97, 0x5e, 0xea, 0xa8, 0x0d, 0x74, 0x0a,
    0xdb, 0xf4, 0xff, 0x74, 0x73, 0x59, 0xd0, 0x41, 0xd5, 0xc3, 0x3e, 0xa7,
    0x1d, 0x28, 0x1e, 0x44, 0x6b, 0x14, 0x77, 0x3b, 0xca, 0x97, 0xb4, 0x3a,
    0x23, 0xfb, 0x80, 0x16, 0x76, 0xbd, 0x20, 0x7a, 0x43, 0x6c, 0x64, 0x81,
    0xf1, 0xd2, 0xb9, 0x07, 0x87, 0x17, 0x46, 0x1a, 0x5b, 0x9d, 0x32, 0xe6,
    0x88, 0xf8, 0x77, 0x48, 0x54, 0x45, 0x23, 0xb5, 0x24, 0xb0, 0xd5, 0x7d,
    0x5e, 0xa7, 0x7a, 0x27, 0x75, 0xd2, 0xec, 0xfa, 0x03, 0x2c, 0xfb, 0xdb,
    0xf5, 0x2f, 0xb3, 0x78, 0x61, 0x60, 0x27, 0x90, 0x04, 0xe5, 0x7a, 0xe6,
    0xaf, 0x87, 0x4e, 0x73, 0x03, 0xce, 0x53, 0x29, 0x9c, 0xcc, 0x04, 0x1c,
    0x7b, 0xc3, 0x08, 0xd8, 0x2a, 0x56, 0x98, 0xf3, 0xa8, 0xd0, 0xc3, 0x82,
    0x71, 0xae, 0x35, 0xf8, 0xe9, 0xdb, 0xfb, 0xb6, 0x94, 0xb5, 0xc8, 0x03,
    0xd8, 0x9f, 0x7a, 0xe4, 0x35, 0xde, 0x23, 0x6d, 0x52, 0x5f, 0x54, 0x75,
    0x9b, 0x65, 0xe3, 0x72, 0xfc, 0xd6, 0x8e, 0xf2, 0x0f, 0xa7, 0x11, 0x1f,
    0x9e, 0x4a, 0xff, 0x73,
];

/// The modulus as a number.
pub open spec fn modulus() -> nat {
    bytes::be_value(NG_2048@)
}

/// The generator.
pub const GENERATOR: [u8; 1] = [2u8];

proof fn lemma_modulus()
    ensures
        modulus() > 1,
        numeral::natural(modulus()) == NG_2048@,
        bytes::be_value(GENERATOR@) == 2,
        numeral::natural(2) == GENERATOR@,
{
    assert(NG_2048@[0] == 0xac);
    numeral::lemma_large(NG_2048@);
    assert(GENERATOR@.drop_last().len() == 0);
    assert(bytes::be_value(GENERATOR@.drop_last()) == 0);
    assert(GENERATOR@.last() == 2);
    assert(numeral::natural(2) =~= GENERATOR@);
}

/// `s` on the left filled up with zeros to 256 bytes, or its last 256 bytes.
pub open spec fn padded256(s: Seq<u8>) -> Seq<u8> {
    if s.len() <= 256 {
        bytes::zeros((256 - s.len()) as nat) + s
    } else {
        s.skip(s.len() - 256)
    }
}

/// The private value x of a user's PIN.
pub open spec fn srp_x(salt: Seq<u8>, username: Seq<char>, pin: Seq<char>) -> nat {
    bytes::be_value(
        primitives::sha1(salt + primitives::sha1(text::utf8(username + ":"@ + pin))),
    )
}

/// The scrambling value u of both public keys.
pub open spec fn srp_u(a_nat: Seq<u8>, b_nat: Seq<u8>) -> nat {
    bytes::be_value(primitives::sha1(a_nat + b_nat))
}

/// The multiplier k of the group.
pub open spec fn srp_k() -> nat {
    bytes::be_value(
        primitives::sha1(padded256(NG_2048@) + padded256(GENERATOR@)),
    )
}

/// `g^e` modulo the modulus.
pub open spec fn group_pow(base: nat, e: nat) -> nat {
    (power::pow(base as int, e) % modulus() as int) as nat
}

/// `B - k * g^x` modulo the modulus.
pub open spec fn srp_base(x: nat, b: nat) -> nat {
    ((b - srp_k() * group_pow(2, x) % modulus()) % modulus() as int) as nat
}

/// The session secret S.
pub open spec fn srp_secret(a: nat, b: nat, x: nat, u: nat) -> nat {
    group_pow(srp_base(x, b), a + u * x)
}

/// The session key: two hashes of the secret, numbered.
pub open spec fn session_key_of(s: nat) -> Seq<u8> {
    primitives::sha1(numeral::natural(s) + seq![0u8, 0, 0, 0]) + primitives::sha1(
        numeral::natural(s) + seq![0u8, 0, 0, 1],
    )
}

/// The client's proof M1.
pub open spec fn client_proof(
    username: Seq<char>,
    salt: Seq<u8>,
    a_nat: Seq<u8>,
    b_nat: Seq<u8>,
    key: Seq<u8>,
) -> Seq<u8> {
    primitives::sha1(
        bytes::xor_bytes(primitives::sha1(NG_2048@), primitives::sha1(GENERATOR@))
            + primitives::sha1(text::utf8(username)) + salt + a_nat + b_nat + key,
    )
}

/// The server's proof M2.
pub open spec fn server_proof(a_nat: Seq<u8>, m1: Seq<u8>, key: Seq<u8>) -> Seq<u8> {
    primitives::sha1(a_nat + m1 + key)
}

/// The modulus.
pub fn ng_2048() -> (r: [u8; 256])
    ensures
        r == NG_2048,
{
    NG_2048
}

fn pad_to_256(b: &[u8]) -> (r: Vec<u8>)
    ensures
        r@ == padded256(b@),
{
    if b.len() <= 256 {
        let mut out = bytes::zero_vec(256 - b.len());
        bytes::extend(&mut out, b);
        out
    } else {
        assert(b@.subrange(b@.len() - 256, b@.len() as int) =~= b@.skip(b@.len() - 256));
        bytes::sub_vec(b, b.len() - 256, b.len())
    }
}

/// One side of a pairing with a PIN.
pub struct LegacySrpClient {
    a: Vec<u8>,
    a_nat: Vec<u8>,
    b_nat: Vec<u8>,
    username: String,
    salt: Vec<u8>,
    session_key: Option<Vec<u8>>,
}

/// The parts of a client that its messages are made of.
pub struct SrpView {
    pub secret: nat,
    pub server_public: nat,
    pub username: Seq<char>,
    pub salt: Seq<u8>,
    pub session_key: Option<Seq<u8>>,
}

impl SrpView {
    /// The client's public key A, in its shortest form.
    pub open spec fn a_nat(&self) -> Seq<u8> {
        numeral::natural(group_pow(2, self.secret))
    }

    /// The server's public key B, in its shortest form.
    pub open spec fn b_nat(&self) -> Seq<u8> {
        numeral::natural(self.server_public)
    }

    pub open spec fn x(&self, pin: Seq<char>) -> nat {
        srp_x(self.salt, self.username, pin)
    }

    /// The session key for a PIN.
    pub open spec fn key(&self, pin: Seq<char>) -> Seq<u8> {
        session_key_of(
            srp_secret(
                self.secret,
                self.server_public,
                self.x(pin),
                srp_u(self.a_nat(), self.b_nat()),
            ),
        )
    }

    /// The client's proof for a PIN.
    pub open spec fn m1(&self, pin: Seq<char>) -> Seq<u8> {
        client_proof(self.username, self.salt, self.a_nat(), self.b_nat(), self.key(pin))
    }

    /// The server's proof for a PIN.
    pub open spec fn m2(&self, pin: Seq<char>) -> Seq<u8> {
        server_proof(self.a_nat(), self.m1(pin), self.key(pin))
    }

    /// Whether the server's public key can be used with a PIN.
    pub open spec fn usable(&self, pin: Seq<char>) -> bool {
        srp_base(self.x(pin), self.server_public) != 0
    }
}

impl View for LegacySrpClient {
    type V = SrpView;

    closed spec fn view(&self) -> SrpView {
        SrpView {
            secret: bytes::be_value(self.a@),
            server_public: bytes::be_value(self.b_nat@),
            username: self.username@,
            salt: self.salt@,
            session_key: bytes::view_opt(self.session_key),
        }
    }
}

impl LegacySrpClient {
    /// The public keys are kept in their shortest form.
    pub closed spec fn wf(&self) -> bool {
        self.a_nat@ == self@.a_nat() && self.b_nat@ == self@.b_nat()
    }

    /// A client with a given secret.
    pub fn with_secret(secret: &[u8], salt: &[u8], server_pk: &[u8], username: &str) -> (r: Self)
        ensures
            r.wf(),
            r@ == (SrpView {
                secret: bytes::be_value(secret@),
                server_public: bytes::be_value(server_pk@),
                username: username@,
                salt: salt@,
                session_key: None,
            }),
    {
        proof {
            lemma_modulus();
            numeral::law_natural_value(bytes::be_value(server_pk@));
        }
        let a_nat = numeral::mod_pow(&GENERATOR, secret, &NG_2048);
        let b_nat = numeral::to_natural(server_pk);
        LegacySrpClient {
            a: bytes::to_vec(secret),
            a_nat,
            b_nat,
            username: text::owned(username),
            salt: bytes::to_vec(salt),
            session_key: None,
        }
    }

    /// A client with a fresh secret of at most 256 bits.
    pub fn new(salt: &[u8], server_pk: &[u8], username: &str) -> (r: Self)
        ensures
            r.wf(),
            r@ == (SrpView {
                secret: r@.secret,
                server_public: bytes::be_value(server_pk@),
                username: username@,
                salt: salt@,
                session_key: None,
            }),
            r@.secret < power2::pow2(256),
    {
        let secret = primitives::random_bytes(32);
        proof {
            bytes::lemma_be_value_bound(secret@);
            power2::lemma_pow2(8);
            power2::lemma2_to64();
            power2::lemma_pow2(256);
            power::lemma_pow_multiplies(2, 8, 32);
        }
        LegacySrpClient::with_secret(&secret, salt, server_pk, username)
    }

    /// The client's public key A in its shortest form.
    pub fn client_public(&self) -> (r: Vec<u8>)
        requires
            self.wf(),
        ensures
            r@ == self@.a_nat(),
    {
        bytes::to_vec(&self.a_nat)
    }

    /// Computes the client's and the server's proof for a PIN, and keeps the session key. It
    /// fails where the server's public key is congruent to `k * g^x`.
    pub fn authenticate(&mut self, pin: &str) -> (r: Result<(Vec<u8>, Vec<u8>), String>)
        requires
            old(self).wf(),
        ensures
            final(self).wf(),
            match r {
                Ok((m1, m2)) => {
                    &&& old(self)@.usable(pin@)
                    &&& m1@ == old(self)@.m1(pin@)
                    &&& m2@ == old(self)@.m2(pin@)
                    &&& final(self)@ == (SrpView {
                        session_key: Some(old(self)@.key(pin@)),
                        ..old(self)@
                    })
                },
                Err(e) => {
                    &&& !old(self)@.usable(pin@)
                    &&& e@ == "invalid server public key"@
                    &&& final(self)@ == old(self)@
                },
            },
    {
        let ghost before = self@;
        let x = self.compute_x(pin);
        let u = self.compute_u();
        let k = compute_k_multiplier();
        let s = match self.compute_session_s(&x, &u, &k) {
            Ok(s) => s,
            Err(e) => return Err(e),
        };
        let session_key = apple_session_key_hash(&s);
        let m1 = self.compute_m1(&session_key);
        let m2 = self.compute_m2(&m1, &session_key);
        self.session_key = Some(session_key);
        Ok((m1, m2))
    }

    /// The session key, once a PIN has been tried.
    pub fn session_key_hash(&self) -> (r: Option<&[u8]>)
        ensures
            match r {
                Some(k) => self@.session_key == Some(k@),
                None => self@.session_key is None,
            },
    {
        match &self.session_key {
            Some(k) => Some(k.as_slice()),
            None => None,
        }
    }

    fn compute_x(&self, pin: &str) -> (r: Vec<u8>)
        ensures
            bytes::be_value(r@) == self@.x(pin@),
            r@ == primitives::sha1(
                self@.salt + primitives::sha1(
                    vstd::utf8::encode_utf8(self@.username + seq![':'] + pin@),
                ),
            ),
    {
        let mut inner = text::owned(self.username.as_str());
        inner.append(":");
        inner.append(pin);
        proof {
            reveal_strlit(":");
            assert(":"@ =~= seq![':']);
        }
        let inner_hash = primitives::sha1_digest(inner.as_str().as_bytes());
        let data = bytes::concat(&self.salt, &inner_hash);
        primitives::sha1_digest(&data)
    }

    fn compute_u(&self) -> (r: Vec<u8>)
        requires
            self.wf(),
        ensures
            bytes::be_value(r@) == srp_u(self@.a_nat(), self@.b_nat()),
    {
        let data = bytes::concat(&self.a_nat, &self.b_nat);
        primitives::sha1_digest(&data)
    }

    fn compute_session_s(&self, x: &[u8], u: &[u8], k: &[u8]) -> (r: Result<Vec<u8>, String>)
        requires
            self.wf(),
            bytes::be_value(k@) == srp_k(),
        ensures
            match r {
                Ok(s) => srp_base(bytes::be_value(x@), self@.server_public) != 0 && s@
                    == numeral::natural(
                    srp_secret(
                        self@.secret,
                        self@.server_public,
                        bytes::be_value(x@),
                        bytes::be_value(u@),
                    ),
                ),
                Err(e) => srp_base(bytes::be_value(x@), self@.server_public) == 0 && e@
                    == "invalid server public key"@,
            },
    {
        let ghost n = modulus();
        let ghost b = self@.server_public;
        let ghost xv = bytes::be_value(x@);
        proof {
            lemma_modulus();
        }
        let gx = numeral::mod_pow(&GENERATOR, x, &NG_2048);
        proof {
            numeral::law_natural_value(group_pow(2, xv));
        }
        let kgx_full = numeral::product(k, &gx);
        proof {
            numeral::law_natural_value(srp_k() * group_pow(2, xv));
        }
        let kgx = numeral::remainder(&kgx_full, &NG_2048);
        let ghost kv = srp_k() * group_pow(2, xv) % n;
        proof {
            numeral::law_natural_value(kv);
        }
        let diff: Vec<u8>;
        if numeral::at_least(&self.b_nat, &kgx) {
            diff = numeral::difference(&self.b_nat, &kgx);
            proof {
                numeral::law_natural_value((b - kv) as nat);
            }
        } else {
            let raised = numeral::sum(&self.b_nat, &NG_2048);
            proof {
                numeral::law_natural_value(b + n);
            }
            diff = numeral::difference(&raised, &kgx);
            proof {
                numeral::law_natural_value((b + n - kv) as nat);
                vstd::arithmetic::div_mod::lemma_mod_add_multiples_vanish(b - kv, n as int);
            }
        }
        let base = numeral::remainder(&diff, &NG_2048);
        proof {
            numeral::law_natural_value(srp_base(xv, b));
        }
        if numeral::is_zero(&base) {
            return Err(text::owned("invalid server public key"));
        }
        let ux = numeral::product(u, x);
        proof {
            numeral::law_natural_value(bytes::be_value(u@) * xv);
        }
        let exp = numeral::sum(&self.a, &ux);
        proof {
            numeral::law_natural_value(self@.secret + bytes::be_value(u@) * xv);
        }
        Ok(numeral::mod_pow(&base, &exp, &NG_2048))
    }

    fn compute_m1(&self, session_key: &[u8]) -> (r: Vec<u8>)
        requires
            self.wf(),
        ensures
            r@ == client_proof(
                self@.username,
                self@.salt,
                self@.a_nat(),
                self@.b_nat(),
                session_key@,
            ),
    {
        let hn = primitives::sha1_digest(&NG_2048);
        let hg = primitives::sha1_digest(&GENERATOR);
        let mut data = bytes::xor_vec(&hn, &hg);
        bytes::extend(&mut data, &primitives::sha1_digest(self.username.as_str().as_bytes()));
        bytes::extend(&mut data, &self.salt);
        bytes::extend(&mut data, &self.a_nat);
        bytes::extend(&mut data, &self.b_nat);
        bytes::extend(&mut data, session_key);
        primitives::sha1_digest(&data)
    }

    fn compute_m2(&self, m1: &[u8], session_key: &[u8]) -> (r: Vec<u8>)
        requires
            self.wf(),
        ensures
            r@ == server_proof(self@.a_nat(), m1@, session_key@),
    {
        let mut data = bytes::concat(&self.a_nat, m1);
        bytes::extend(&mut data, session_key);
        primitives::sha1_digest(&data)
    }
}

fn compute_k_multiplier() -> (r: Vec<u8>)
    ensures
        bytes::be_value(r@) == srp_k(),
{
    let data = bytes::concat(&pad_to_256(&NG_2048), &pad_to_256(&GENERATOR));
    primitives::sha1_digest(&data)
}

fn apple_session_key_hash(s: &[u8]) -> (r: Vec<u8>)
    ensures
        r@ == primitives::sha1(s@ + seq![0u8, 0, 0, 0]) + primitives::sha1(
            s@ + seq![0u8, 0, 0, 1],
        ),
{
    let zero: [u8; 4] = [0u8, 0, 0, 0];
    let one: [u8; 4] = [0u8, 0, 0, 1];
    assert(zero@ =~= seq![0u8, 0, 0, 0]);
    assert(one@ =~= seq![0u8, 0, 0, 1]);
    let k1 = primitives::sha1_digest(&bytes::concat(s, &zero));
    let k2 = primitives::sha1_digest(&bytes::concat(s, &one));
    bytes::concat(&k1, &k2)
}

/// A client and a server agree: where the server's public key was made from the verifier of the
/// right PIN and a server secret `b`, the client's session key for that PIN is the one that the
/// server makes of the secret on its side.
pub proof fn law_client_and_server_agree(client: SrpView, pin: Seq<char>, b: nat)
    requires
        client.server_public == numeral::server_key(2, srp_k(), client.x(pin), b, modulus()),
    ensures
        client.key(pin) == session_key_of(
            numeral::server_secret(
                2,
                group_pow(2, client.secret),
                client.x(pin),
                srp_u(client.a_nat(), client.b_nat()),
                b,
                modulus(),
            ),
        ),
{
    lemma_modulus();
    numeral::lemma_shared_secret(
        2,
        srp_k(),
        client.secret,
        b,
        client.x(pin),
        srp_u(client.a_nat(), client.b_nat()),
        modulus(),
    );
}

/// For one user and one salt, the private values of two PINs that differ in any character are
/// hashed from inputs that differ, and each input is the user, a colon and all of the PIN: `0123`
/// and `123` are two PINs.
pub proof fn law_pins_are_told_apart(
    client: SrpView,
    pin: Seq<char>,
    other: Seq<char>,
) -> (inputs: (Seq<u8>, Seq<u8>))
    requires
        pin != other,
    ensures
        inputs.0 != inputs.1,
        vstd::utf8::decode_utf8(inputs.0) == client.username + seq![':'] + pin,
        vstd::utf8::decode_utf8(inputs.1) == client.username + seq![':'] + other,
        client.x(pin) == bytes::be_value(
            primitives::sha1(client.salt + primitives::sha1(inputs.0)),
        ),
        client.x(other) == bytes::be_value(
            primitives::sha1(client.salt + primitives::sha1(inputs.1)),
        ),
{
    reveal_strlit(":");
    assert(":"@ =~= seq![':']);
    let a = client.username + seq![':'] + pin;
    let b = client.username + seq![':'] + other;
    vstd::utf8::encode_utf8_decode_utf8(a);
    vstd::utf8::encode_utf8_decode_utf8(b);
    if a == b {
        let n = (client.username.len() + 1) as int;
        assert(a.skip(n) =~= pin);
        assert(b.skip(n) =~= other);
    }
    (vstd::utf8::encode_utf8(a), vstd::utf8::encode_utf8(b))
}
/// What is hashed in the exchange, and in what order: the two public keys for `u`; the modulus and
/// the generator, both at full length, for `k`; the shared secret with the numbers 0 and 1 for the
/// two halves of the session key; for the client's proof the digests of the group and of the name,
/// the salt, both public keys and the session key; for the server's proof the client's public key,
/// the client's proof and the session key.
pub proof fn law_hashes_of_the_exchange(client: SrpView, pin: Seq<char>, s: nat)
    ensures
        srp_u(client.a_nat(), client.b_nat()) == bytes::be_value(
            primitives::sha1(client.a_nat() + client.b_nat()),
        ),
        srp_k() == bytes::be_value(primitives::sha1(NG_2048@ + bytes::zeros(255).push(2u8))),
        session_key_of(s) == primitives::sha1(numeral::natural(s) + seq![0u8, 0, 0, 0])
            + primitives::sha1(numeral::natural(s) + seq![0u8, 0, 0, 1]),
        client.m1(pin) == primitives::sha1(
            bytes::xor_bytes(primitives::sha1(NG_2048@), primitives::sha1(seq![2u8]))
                + primitives::sha1(vstd::utf8::encode_utf8(client.username)) + client.salt
                + client.a_nat() + client.b_nat() + client.key(pin),
        ),
        client.m2(pin) == primitives::sha1(client.a_nat() + client.m1(pin) + client.key(pin)),
        bytes::be_value(client.a_nat()) == power::pow(2, client.secret) % bytes::be_value(
            NG_2048@,
        ) as int,
        bytes::be_value(client.b_nat()) == client.server_public,
{
    assert(GENERATOR@ =~= seq![2u8]);
    assert(bytes::zeros(0) + NG_2048@ =~= NG_2048@);
    assert(bytes::zeros(255) + seq![2u8] =~= bytes::zeros(255).push(2u8));
    lemma_modulus();
    numeral::law_natural_value(group_pow(2, client.secret));
    numeral::law_natural_value(client.server_public);
}

/// The secret of the client: its square and multiply steps apart, what `(B - k * g^x)^(a + u * x)`
/// leaves modulo `N`, and the exchange is refused exactly where `N` divides `B - k * g^x`.
pub proof fn law_secret_of_the_client(client: SrpView, pin: Seq<char>)
    ensures
        ({
            let n = bytes::be_value(NG_2048@) as int;
            let x = client.x(pin);
            let u = srp_u(client.a_nat(), client.b_nat());
            let base = (client.server_public - srp_k() * power::pow(2, x)) % n;
            &&& client.usable(pin) <==> base != 0
            &&& client.key(pin) == session_key_of(
                (power::pow(base, client.secret + u * x) % n) as nat,
            )
        }),
{
    lemma_modulus();
    let n = modulus() as int;
    let x = client.x(pin);
    let k = srp_k() as int;
    let g = power::pow(2, x);
    let b = client.server_public as int;
    let small = k * (g % n);
    vstd::arithmetic::power::lemma_pow_positive(2, x);
    vstd::arithmetic::div_mod::lemma_mul_mod_noop_right(k, g, n);
    assert(small % n == (k * g) % n);
    vstd::arithmetic::div_mod::lemma_sub_mod_noop_right(b, k * g, n);
    assert(group_pow(2, x) == g % n);
    assert(srp_base(x, client.server_public) == (b - small % n) % n);
}

/// A key that is brought to 256 bytes has the same value, and zeros in front.
pub proof fn law_padding_keeps_value(s: Seq<u8>)
    requires
        s.len() <= 256,
    ensures
        padded256(s).len() == 256,
        padded256(s).skip(256 - s.len()) == s,
        forall|i: int| 0 <= i < 256 - s.len() ==> #[trigger] padded256(s)[i] == 0,
{
    assert(padded256(s).skip(256 - s.len()) =~= s);
}
/// Of more than 256 bytes the last 256 are kept.
pub proof fn law_padding_keeps_last(s: Seq<u8>, i: int)
    requires
        s.len() > 256,
        0 <= i < 256,
    ensures
        padded256(s).len() == 256,
        padded256(s)[i] == s[s.len() - 256 + i],
{
}
} // verus!
