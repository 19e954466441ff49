//! Byte strings: fixed-width integers in either byte order, and copies of parts
//! of a slice.

use vstd::prelude::*;

verus! {

/// The number that `bytes` spells in base 256, most significant byte first.
pub open spec fn be_value(bytes: Seq<u8>) -> nat
    decreases bytes.len(),
{
    if bytes.len() == 0 {
        0
    } else {
        be_value(bytes.drop_last()) * 256 + bytes.last() as nat
    }
}

/// The low `len` base-256 digits of `value`, most significant first.
pub open spec fn be_bytes(value: nat, len: nat) -> Seq<u8>
    decreases len,
{
    if len == 0 {
        Seq::empty()
    } else {
        be_bytes(value / 256, (len - 1) as nat).push((value % 256) as u8)
    }
}

/// The low `len` base-256 digits of `value`, least significant first.
pub open spec fn le_bytes(value: nat, len: nat) -> Seq<u8>
    decreases len,
{
    if len == 0 {
        Seq::empty()
    } else {
        seq![(value % 256) as u8] + le_bytes(value / 256, (len - 1) as nat)
    }
}

/// `len` zero bytes.
pub open spec fn zeros(len: nat) -> Seq<u8> {
    Seq::new(len, |i: int| 0u8)
}

/// The bitwise exclusive or of two byte strings, as long as the first.
pub open spec fn xor_bytes(a: Seq<u8>, b: Seq<u8>) -> Seq<u8> {
    Seq::new(a.len(), |i: int| a[i] ^ b[i])
}

pub proof fn lemma_be_bytes_len(value: nat, len: nat)
    ensures
        be_bytes(value, len).len() == len,
    decreases len,
{
    if len > 0 {
        lemma_be_bytes_len(value / 256, (len - 1) as nat);
    }
}

pub proof fn lemma_le_bytes_len(value: nat, len: nat)
    ensures
        le_bytes(value, len).len() == len,
    decreases len,
{
    if len > 0 {
        lemma_le_bytes_len(value / 256, (len - 1) as nat);
    }
}

/// Reading back big-endian digits gives the number modulo the width.
pub proof fn lemma_be_value_of_be_bytes(value: nat, len: nat)
    ensures
        be_value(be_bytes(value, len)) == value % vstd::arithmetic::power::pow(256, len) as nat,
        vstd::arithmetic::power::pow(256, len) > 0,
    decreases len,
{
    let p = vstd::arithmetic::power::pow(256, len);
    vstd::arithmetic::power::lemma_pow_positive(256, len);
    if len == 0 {
        vstd::arithmetic::power::lemma_pow0(256);
        assert(value % 1 == 0);
    } else {
        let n = (len - 1) as nat;
        lemma_be_value_of_be_bytes(value / 256, n);
        let q = vstd::arithmetic::power::pow(256, n);
        assert(p == 256 * q) by {
            reveal(vstd::arithmetic::power::pow);
        }
        assert(be_bytes(value, len).drop_last() =~= be_bytes(value / 256, n));
        assert(value as int % (256 * q) == 256 * ((value as int / 256) % q) + value as int % 256) by {
            vstd::arithmetic::div_mod::lemma_mod_breakdown(value as int, 256, q);
        }
    }
}

/// The first byte of a big-endian numeral has weight `256^(len - 1)`.
pub proof fn lemma_be_value_split(a: Seq<u8>, b: Seq<u8>)
    ensures
        be_value(a + b) == be_value(a) * vstd::arithmetic::power::pow(256, b.len()) as nat + be_value(b),
        vstd::arithmetic::power::pow(256, b.len()) > 0,
    decreases b.len(),
{
    vstd::arithmetic::power::lemma_pow_positive(256, b.len());
    if b.len() == 0 {
        vstd::arithmetic::power::lemma_pow0(256);
        assert(a + b =~= a);
        assert(be_value(a) * 1 == be_value(a));
    } else {
        let n = (b.len() - 1) as nat;
        lemma_be_value_split(a, b.drop_last());
        assert((a + b).drop_last() =~= a + b.drop_last());
        assert((a + b).last() == b.last());
        let q = vstd::arithmetic::power::pow(256, n);
        assert(vstd::arithmetic::power::pow(256, b.len()) == 256 * q) by {
            reveal(vstd::arithmetic::power::pow);
        }
        let va = be_value(a) as int;
        let vb = be_value(b.drop_last()) as int;
        assert((va * q + vb) * 256 == va * (256 * q) + vb * 256) by (nonlinear_arith);
    }
}

/// A numeral of `len` bytes is below `256^len`.
pub proof fn lemma_be_value_bound(bytes: Seq<u8>)
    ensures
        be_value(bytes) < vstd::arithmetic::power::pow(256, bytes.len()),
    decreases bytes.len(),
{
    if bytes.len() == 0 {
        vstd::arithmetic::power::lemma_pow0(256);
    } else {
        lemma_be_value_bound(bytes.drop_last());
        reveal(vstd::arithmetic::power::pow);
    }
}

/// Copies `bytes[from..to]`.
pub fn sub_vec(bytes: &[u8], from: usize, to: usize) -> (r: Vec<u8>)
    requires
        from <= to <= bytes@.len(),
    ensures
        r@ == bytes@.subrange(from as int, to as int),
{
    let mut out: Vec<u8> = Vec::new();
    let mut i: usize = from;
    while i < to
        invariant
            from <= i <= to <= bytes@.len(),
            out@ == bytes@.subrange(from as int, i as int),
        decreases to - i,
    {
        out.push(bytes[i]);
        i += 1;
        assert(out@ =~= bytes@.subrange(from as int, i as int));
    }
    out
}

/// Copies the whole slice.
pub fn to_vec(bytes: &[u8]) -> (r: Vec<u8>)
    ensures
        r@ == bytes@,
{
    let out = sub_vec(bytes, 0, bytes.len());
    assert(out@ =~= bytes@);
    out
}

/// Appends `more` to `out`.
pub fn extend(out: &mut Vec<u8>, more: &[u8])
    ensures
        final(out)@ == old(out)@ + more@,
{
    let ghost start = out@;
    let mut i: usize = 0;
    while i < more.len()
        invariant
            i <= more@.len(),
            out@ == start + more@.take(i as int),
        decreases more.len() - i,
    {
        out.push(more[i]);
        i += 1;
        assert(out@ =~= start + more@.take(i as int));
    }
    assert(more@.take(i as int) =~= more@);
}

/// `a` followed by `b`.
pub fn concat(a: &[u8], b: &[u8]) -> (r: Vec<u8>)
    ensures
        r@ == a@ + b@,
{
    let mut out = to_vec(a);
    extend(&mut out, b);
    out
}

/// Whether two byte strings are equal.
pub fn same_bytes(a: &[u8], b: &[u8]) -> (r: bool)
    ensures
        r == (a@ == b@),
{
    if a.len() != b.len() {
        return false;
    }
    let mut i: usize = 0;
    while i < a.len()
        invariant
            i <= a@.len(),
            a@.len() == b@.len(),
            forall|j: int| 0 <= j < i ==> a@[j] == b@[j],
        decreases a.len() - i,
    {
        if a[i] != b[i] {
            assert(a@[i as int] != b@[i as int]);
            return false;
        }
        i += 1;
    }
    assert(a@ =~= b@);
    true
}

/// `len` zero bytes.
pub fn zero_vec(len: usize) -> (r: Vec<u8>)
    ensures
        r@ == zeros(len as nat),
{
    let mut out: Vec<u8> = Vec::new();
    let mut i: usize = 0;
    while i < len
        invariant
            i <= len,
            out@ == zeros(i as nat),
        decreases len - i,
    {
        out.push(0u8);
        i += 1;
        assert(out@ =~= zeros(i as nat));
    }
    out
}

/// The byte-wise exclusive or of two strings of one length.
pub fn xor_vec(a: &[u8], b: &[u8]) -> (r: Vec<u8>)
    requires
        a@.len() == b@.len(),
    ensures
        r@ == xor_bytes(a@, b@),
{
    let mut out: Vec<u8> = Vec::new();
    let mut i: usize = 0;
    while i < a.len()
        invariant
            i <= a@.len(),
            a@.len() == b@.len(),
            out@ == xor_bytes(a@, b@).take(i as int),
        decreases a.len() - i,
    {
        out.push(a[i] ^ b[i]);
        i += 1;
        assert(out@ =~= xor_bytes(a@, b@).take(i as int));
    }
    assert(out@ =~= xor_bytes(a@, b@));
    out
}

/// The first sixteen bytes as an array.
pub fn array16(bytes: &[u8]) -> (r: [u8; 16])
    requires
        bytes@.len() >= 16,
    ensures
        r@ == bytes@.take(16),
{
    let mut a: [u8; 16] = [0u8; 16];
    let mut i: usize = 0;
    while i < 16
        invariant
            i <= 16,
            bytes@.len() >= 16,
            forall|j: int| 0 <= j < i ==> a@[j] == bytes@[j],
        decreases 16 - i,
    {
        a[i] = bytes[i];
        i += 1;
    }
    assert(a@ =~= bytes@.take(16));
    a
}

/// The first thirty-two bytes as an array.
pub fn array32(bytes: &[u8]) -> (r: [u8; 32])
    requires
        bytes@.len() >= 32,
    ensures
        r@ == bytes@.take(32),
{
    let mut a: [u8; 32] = [0u8; 32];
    let mut i: usize = 0;
    while i < 32
        invariant
            i <= 32,
            bytes@.len() >= 32,
            forall|j: int| 0 <= j < i ==> a@[j] == bytes@[j],
        decreases 32 - i,
    {
        a[i] = bytes[i];
        i += 1;
    }
    assert(a@ =~= bytes@.take(32));
    a
}

/// The first twenty bytes as an array.
pub fn array20(bytes: &[u8]) -> (r: [u8; 20])
    requires
        bytes@.len() >= 20,
    ensures
        r@ == bytes@.take(20),
{
    let mut a: [u8; 20] = [0u8; 20];
    let mut i: usize = 0;
    while i < 20
        invariant
            i <= 20,
            bytes@.len() >= 20,
            forall|j: int| 0 <= j < i ==> a@[j] == bytes@[j],
        decreases 20 - i,
    {
        a[i] = bytes[i];
        i += 1;
    }
    assert(a@ =~= bytes@.take(20));
    a
}

/// The first sixty-four bytes as an array.
pub fn array64(bytes: &[u8]) -> (r: [u8; 64])
    requires
        bytes@.len() >= 64,
    ensures
        r@ == bytes@.take(64),
{
    let mut a: [u8; 64] = [0u8; 64];
    let mut i: usize = 0;
    while i < 64
        invariant
            i <= 64,
            bytes@.len() >= 64,
            forall|j: int| 0 <= j < i ==> a@[j] == bytes@[j],
        decreases 64 - i,
    {
        a[i] = bytes[i];
        i += 1;
    }
    assert(a@ =~= bytes@.take(64));
    a
}

/// The first sixty-eight bytes as an array.
pub fn array68(bytes: &[u8]) -> (r: [u8; 68])
    requires
        bytes@.len() >= 68,
    ensures
        r@ == bytes@.take(68),
{
    let mut a: [u8; 68] = [0u8; 68];
    let mut i: usize = 0;
    while i < 68
        invariant
            i <= 68,
            bytes@.len() >= 68,
            forall|j: int| 0 <= j < i ==> a@[j] == bytes@[j],
        decreases 68 - i,
    {
        a[i] = bytes[i];
        i += 1;
    }
    assert(a@ =~= bytes@.take(68));
    a
}

/// The first seventy-two bytes as an array.
pub fn array72(bytes: &[u8]) -> (r: [u8; 72])
    requires
        bytes@.len() >= 72,
    ensures
        r@ == bytes@.take(72),
{
    let mut a: [u8; 72] = [0u8; 72];
    let mut i: usize = 0;
    while i < 72
        invariant
            i <= 72,
            bytes@.len() >= 72,
            forall|j: int| 0 <= j < i ==> a@[j] == bytes@[j],
        decreases 72 - i,
    {
        a[i] = bytes[i];
        i += 1;
    }
    assert(a@ =~= bytes@.take(72));
    a
}

/// The first 164 bytes as an array.
pub fn array164(bytes: &[u8]) -> (r: [u8; 164])
    requires
        bytes@.len() >= 164,
    ensures
        r@ == bytes@.take(164),
{
    let mut a: [u8; 164] = [0u8; 164];
    let mut i: usize = 0;
    while i < 164
        invariant
            i <= 164,
            bytes@.len() >= 164,
            forall|j: int| 0 <= j < i ==> a@[j] == bytes@[j],
        decreases 164 - i,
    {
        a[i] = bytes[i];
        i += 1;
    }
    assert(a@ =~= bytes@.take(164));
    a
}

pub proof fn lemma_be_bytes2(v: nat)
    ensures
        be_bytes(v, 2) == seq![(v / 256 % 256) as u8, (v % 256) as u8],
{
    assert(be_bytes(v / 256 / 256, 0) =~= Seq::<u8>::empty());
    assert(be_bytes(v / 256, 1) =~= seq![(v / 256 % 256) as u8]);
}

pub proof fn lemma_be_bytes4(v: nat)
    ensures
        be_bytes(v, 4) == seq![
            (v / 16777216 % 256) as u8,
            (v / 65536 % 256) as u8,
            (v / 256 % 256) as u8,
            (v % 256) as u8,
        ],
{
    assert(v / 256 / 256 == v / 65536);
    assert(v / 65536 / 256 == v / 16777216);
    assert(be_bytes(v / 16777216 / 256, 0) =~= Seq::<u8>::empty());
    assert(be_bytes(v / 16777216, 1) =~= seq![(v / 16777216 % 256) as u8]);
    assert(be_bytes(v / 65536, 2) =~= seq![(v / 16777216 % 256) as u8, (v / 65536 % 256) as u8]);
    assert(be_bytes(v / 256, 3) =~= seq![
        (v / 16777216 % 256) as u8,
        (v / 65536 % 256) as u8,
        (v / 256 % 256) as u8,
    ]);
}

pub proof fn lemma_le_bytes4(v: nat)
    ensures
        le_bytes(v, 4) == seq![
            (v % 256) as u8,
            (v / 256 % 256) as u8,
            (v / 65536 % 256) as u8,
            (v / 16777216 % 256) as u8,
        ],
{
    assert(v / 256 / 256 == v / 65536);
    assert(v / 65536 / 256 == v / 16777216);
    assert(le_bytes(v / 16777216 / 256, 0) =~= Seq::<u8>::empty());
    assert(le_bytes(v / 16777216, 1) =~= seq![(v / 16777216 % 256) as u8]);
    assert(le_bytes(v / 65536, 2) =~= seq![(v / 65536 % 256) as u8, (v / 16777216 % 256) as u8]);
    assert(le_bytes(v / 256, 3) =~= seq![
        (v / 256 % 256) as u8,
        (v / 65536 % 256) as u8,
        (v / 16777216 % 256) as u8,
    ]);
}

/// The low digits follow the high ones.
pub proof fn lemma_be_bytes8(v: nat)
    ensures
        be_bytes(v, 8) == be_bytes(v / 4294967296, 4) + be_bytes(v, 4),
{
    lemma_be_bytes4(v);
    let h = be_bytes(v / 4294967296, 4);
    assert(v / 256 / 256 == v / 65536);
    assert(v / 65536 / 256 == v / 16777216);
    assert(v / 16777216 / 256 == v / 4294967296);
    assert(be_bytes(v / 16777216, 5) == h.push((v / 16777216 % 256) as u8));
    assert(be_bytes(v / 65536, 6) == be_bytes(v / 16777216, 5).push((v / 65536 % 256) as u8));
    assert(be_bytes(v / 256, 7) == be_bytes(v / 65536, 6).push((v / 256 % 256) as u8));
    assert(be_bytes(v, 8) == be_bytes(v / 256, 7).push((v % 256) as u8));
    assert(be_bytes(v, 8) =~= h + be_bytes(v, 4));
}

/// The high digits follow the low ones.
pub proof fn lemma_le_bytes8(v: nat)
    ensures
        le_bytes(v, 8) == le_bytes(v, 4) + le_bytes(v / 4294967296, 4),
{
    lemma_le_bytes4(v);
    let h = le_bytes(v / 4294967296, 4);
    assert(v / 256 / 256 == v / 65536);
    assert(v / 65536 / 256 == v / 16777216);
    assert(v / 16777216 / 256 == v / 4294967296);
    assert(le_bytes(v / 16777216, 5) == seq![(v / 16777216 % 256) as u8] + h);
    assert(le_bytes(v / 65536, 6) == seq![(v / 65536 % 256) as u8] + le_bytes(v / 16777216, 5));
    assert(le_bytes(v / 256, 7) == seq![(v / 256 % 256) as u8] + le_bytes(v / 65536, 6));
    assert(le_bytes(v, 8) == seq![(v % 256) as u8] + le_bytes(v / 256, 7));
    assert(le_bytes(v, 8) =~= le_bytes(v, 4) + h);
}

/// Big-endian bytes of a 16-bit number.
pub fn u16_be(v: u16) -> (r: [u8; 2])
    ensures
        r@ == be_bytes(v as nat, 2),
{
    let r: [u8; 2] = [(v / 256) as u8, (v % 256) as u8];
    proof {
        lemma_be_bytes2(v as nat);
        assert(r@ =~= be_bytes(v as nat, 2));
    }
    r
}

/// Big-endian bytes of a 32-bit number.
pub fn u32_be(v: u32) -> (r: [u8; 4])
    ensures
        r@ == be_bytes(v as nat, 4),
{
    let r: [u8; 4] = [
        (v / 16777216) as u8,
        (v / 65536 % 256) as u8,
        (v / 256 % 256) as u8,
        (v % 256) as u8,
    ];
    proof {
        lemma_be_bytes4(v as nat);
        assert(r@ =~= be_bytes(v as nat, 4));
    }
    r
}

/// Big-endian bytes of a 64-bit number.
pub fn u64_be(v: u64) -> (r: [u8; 8])
    ensures
        r@ == be_bytes(v as nat, 8),
{
    let r: [u8; 8] = [
        (v / 72057594037927936) as u8,
        (v / 281474976710656 % 256) as u8,
        (v / 1099511627776 % 256) as u8,
        (v / 4294967296 % 256) as u8,
        (v / 16777216 % 256) as u8,
        (v / 65536 % 256) as u8,
        (v / 256 % 256) as u8,
        (v % 256) as u8,
    ];
    proof {
        let w = v as nat;
        lemma_be_bytes8(w);
        lemma_be_bytes4(w);
        lemma_be_bytes4(w / 4294967296);
        assert(w / 4294967296 / 256 == w / 1099511627776);
        assert(w / 4294967296 / 65536 == w / 281474976710656);
        assert(w / 4294967296 / 16777216 == w / 72057594037927936);
        assert(r@ =~= be_bytes(w, 8));
    }
    r
}

/// Little-endian bytes of a 32-bit number.
pub fn u32_le(v: u32) -> (r: [u8; 4])
    ensures
        r@ == le_bytes(v as nat, 4),
{
    let r: [u8; 4] = [
        (v % 256) as u8,
        (v / 256 % 256) as u8,
        (v / 65536 % 256) as u8,
        (v / 16777216) as u8,
    ];
    proof {
        lemma_le_bytes4(v as nat);
        assert(r@ =~= le_bytes(v as nat, 4));
    }
    r
}

/// Little-endian bytes of a 64-bit number.
pub fn u64_le(v: u64) -> (r: [u8; 8])
    ensures
        r@ == le_bytes(v as nat, 8),
{
    let r: [u8; 8] = [
        (v % 256) as u8,
        (v / 256 % 256) as u8,
        (v / 65536 % 256) as u8,
        (v / 16777216 % 256) as u8,
        (v / 4294967296 % 256) as u8,
        (v / 1099511627776 % 256) as u8,
        (v / 281474976710656 % 256) as u8,
        (v / 72057594037927936) as u8,
    ];
    proof {
        let w = v as nat;
        lemma_le_bytes8(w);
        lemma_le_bytes4(w);
        lemma_le_bytes4(w / 4294967296);
        assert(w / 4294967296 / 256 == w / 1099511627776);
        assert(w / 4294967296 / 65536 == w / 281474976710656);
        assert(w / 4294967296 / 16777216 == w / 72057594037927936);
        assert(r@ =~= le_bytes(w, 8));
    }
    r
}

proof fn lemma_low_digits(w: nat)
    ensures
        w % 4294967296 / 16777216 % 256 == w / 16777216 % 256,
        w % 4294967296 / 65536 % 256 == w / 65536 % 256,
        w % 4294967296 / 256 % 256 == w / 256 % 256,
        w % 4294967296 % 256 == w % 256,
{
    let q = w / 4294967296;
    let m = w % 4294967296;
    assert(w == q * 4294967296 + m);
    assert(w / 16777216 == q * 256 + m / 16777216);
    assert(w / 65536 == q * 65536 + m / 65536);
    assert(w / 256 == q * 16777216 + m / 256);
}

/// The low 32 bits of a length, big-endian.
pub fn len_be32(len: usize) -> (r: [u8; 4])
    ensures
        r@ == be_bytes(len as nat, 4),
{
    let v: u32 = (len as u64 % 4294967296) as u32;
    let r = u32_be(v);
    proof {
        lemma_be_bytes4(v as nat);
        lemma_be_bytes4(len as nat);
        lemma_low_digits(len as nat);
    }
    r
}

/// The low 32 bits of a length, little-endian.
pub fn len_le32(len: usize) -> (r: [u8; 4])
    ensures
        r@ == le_bytes(len as nat, 4),
{
    let v: u32 = (len as u64 % 4294967296) as u32;
    let r = u32_le(v);
    proof {
        lemma_le_bytes4(v as nat);
        lemma_le_bytes4(len as nat);
        lemma_low_digits(len as nat);
    }
    r
}

/// The low 16 bits of a length, big-endian.
pub fn len_be16(len: usize) -> (r: [u8; 2])
    ensures
        r@ == be_bytes(len as nat, 2),
{
    let v: u16 = (len as u64 % 65536) as u16;
    let r = u16_be(v);
    proof {
        let w = len as nat;
        let q = w / 65536;
        assert(w == q * 65536 + v);
        assert(w / 256 == q * 256 + v as nat / 256);
        lemma_be_bytes2(v as nat);
        lemma_be_bytes2(w);
    }
    r
}

/// The contents of each vector.
pub open spec fn views(v: Seq<Vec<u8>>) -> Seq<Seq<u8>> {
    v.map_values(|b: Vec<u8>| b@)
}

/// The contents of an optional vector.
pub open spec fn view_opt(v: Option<Vec<u8>>) -> Option<Seq<u8>> {
    match v {
        None => None,
        Some(b) => Some(b@),
    }
}

/// The 32-bit number in the four big-endian bytes at `at`.
pub fn u32_from_be(bytes: &[u8], at: usize) -> (r: u32)
    requires
        at + 4 <= bytes@.len(),
    ensures
        r == be_value(bytes@.subrange(at as int, at + 4)),
{
    let r: u32 = bytes[at] as u32 * 16777216 + bytes[at + 1] as u32 * 65536 + bytes[at + 2] as u32
        * 256 + bytes[at + 3] as u32;
    proof {
        let s = bytes@.subrange(at as int, at + 4);
        reveal_with_fuel(be_value, 5);
        assert(s.drop_last().drop_last().drop_last().drop_last().len() == 0);
        assert(s[0] == bytes@[at as int] && s[1] == bytes@[at + 1] && s[2] == bytes@[at + 2] && s[3]
            == bytes@[at + 3]);
    }
    r
}

proof fn lemma_next_place(value: nat, i: nat)
    ensures
        value / 256 / (vstd::arithmetic::power::pow(256, i) as nat) == value / (
        vstd::arithmetic::power::pow(256, i + 1) as nat),
{
    let p = vstd::arithmetic::power::pow(256, i);
    vstd::arithmetic::power::lemma_pow_positive(256, i);
    assert(vstd::arithmetic::power::pow(256, i + 1) == 256 * p) by {
        reveal(vstd::arithmetic::power::pow);
    }
    vstd::arithmetic::div_mod::lemma_div_denominator(value as int, 256, p);
}

/// Byte `i` of a little-endian number has the weight `256^i`.
pub proof fn law_le_digits(value: nat, len: nat)
    ensures
        le_bytes(value, len).len() == len,
        forall|i: int|
            0 <= i < len ==> #[trigger] le_bytes(value, len)[i] == value / (
            vstd::arithmetic::power::pow(256, i as nat) as nat) % 256,
    decreases len,
{
    lemma_le_bytes_len(value, len);
    if len > 0 {
        let n = (len - 1) as nat;
        law_le_digits(value / 256, n);
        vstd::arithmetic::power::lemma_pow0(256);
        let all = le_bytes(value, len);
        let rest = le_bytes(value / 256, n);
        assert forall|i: int| 0 <= i < len implies #[trigger] all[i] == value / (
        vstd::arithmetic::power::pow(256, i as nat) as nat) % 256 by {
            if i > 0 {
                assert(all[i] == rest[i - 1]);
                lemma_next_place(value, (i - 1) as nat);
                assert((i - 1) as nat + 1 == i as nat);
            } else {
                assert(all[0] == (value % 256) as u8);
                assert(value / 1 == value);
            }
        }
    }
}

/// Byte `i` of a big-endian number of `len` bytes has the weight `256^(len - 1 - i)`.
pub proof fn law_be_digits(value: nat, len: nat)
    ensures
        be_bytes(value, len).len() == len,
        forall|i: int|
            0 <= i < len ==> #[trigger] be_bytes(value, len)[i] == value / (
            vstd::arithmetic::power::pow(256, (len - 1 - i) as nat) as nat) % 256,
    decreases len,
{
    lemma_be_bytes_len(value, len);
    if len > 0 {
        let n = (len - 1) as nat;
        law_be_digits(value / 256, n);
        vstd::arithmetic::power::lemma_pow0(256);
        let all = be_bytes(value, len);
        let rest = be_bytes(value / 256, n);
        assert forall|i: int| 0 <= i < len implies #[trigger] all[i] == value / (
        vstd::arithmetic::power::pow(256, (len - 1 - i) as nat) as nat) % 256 by {
            if i < n {
                assert(all[i] == rest[i]);
                lemma_next_place(value, (n - 1 - i) as nat);
                assert((n - 1 - i) as nat + 1 == (len - 1 - i) as nat);
            } else {
                assert(all[i] == (value % 256) as u8);
                assert(value / 1 == value);
            }
        }
    }
}

/// One byte more makes a big-endian number 256 times as large, and adds that byte; no bytes
/// at all spell zero.
pub proof fn law_be_value_grows(bytes: Seq<u8>, b: u8)
    ensures
        be_value(Seq::empty()) == 0,
        be_value(bytes.push(b)) == be_value(bytes) * 256 + b,
{
    assert(bytes.push(b).drop_last() =~= bytes);
}

/// Zeros are zeros, as many as were asked for; and to combine with a byte string twice by exclusive
/// or undoes itself.
pub proof fn law_zeros_and_xor(len: nat, a: Seq<u8>, b: Seq<u8>)
    requires
        a.len() == b.len(),
    ensures
        zeros(len).len() == len,
        forall|i: int| 0 <= i < len ==> #[trigger] zeros(len)[i] == 0,
        xor_bytes(a, zeros(a.len())) == a,
        xor_bytes(xor_bytes(a, b), b) == a,
        forall|i: int| 0 <= i < a.len() ==> #[trigger] xor_bytes(a, b)[i] == a[i] ^ b[i],
{
    assert forall|i: int| 0 <= i < a.len() implies #[trigger] xor_bytes(a, zeros(a.len()))[i]
        == a[i] by {
        let x = a[i];
        assert(x ^ 0 == x) by (bit_vector);
    }
    assert(xor_bytes(a, zeros(a.len())) =~= a);
    assert forall|i: int| 0 <= i < a.len() implies #[trigger] xor_bytes(xor_bytes(a, b), b)[i]
        == a[i] by {
        let (x, y) = (a[i], b[i]);
        assert((x ^ y) ^ y == x) by (bit_vector);
    }
    assert(xor_bytes(xor_bytes(a, b), b) =~= a);
}
} // verus!
