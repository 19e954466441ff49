//! Type-length-value records of HomeKit pairing.

use crate::bytes;
use std::collections::HashMap;
use vstd::prelude::*;

verus! {

broadcast use vstd::std_specs::hash::group_hash_axioms;

/// Record types.
#[derive(Debug, Clone, Copy, PartialEq, Eq, Hash, Structural)]
pub enum TlvType {
    Method,
    Identifier,
    Salt,
    PublicKey,
    Proof,
    EncryptedData,
    State,
    Error,
    RetryDelay,
    Certificate,
    Signature,
    Permissions,
    FragmentData,
    FragmentLast,
    Separator,
}

impl TlvType {
    /// The number that stands for the type.
    pub open spec fn code_spec(self) -> u8 {
        match self {
            TlvType::Method => 0x00,
            TlvType::Identifier => 0x01,
            TlvType::Salt => 0x02,
            TlvType::PublicKey => 0x03,
            TlvType::Proof => 0x04,
            TlvType::EncryptedData => 0x05,
            TlvType::State => 0x06,
            TlvType::Error => 0x07,
            TlvType::RetryDelay => 0x08,
            TlvType::Certificate => 0x09,
            TlvType::Signature => 0x0A,
            TlvType::Permissions => 0x0B,
            TlvType::FragmentData => 0x0C,
            TlvType::FragmentLast => 0x0D,
            TlvType::Separator => 0xFF,
        }
    }

    /// The number that stands for the type.
    pub fn code(self) -> (r: u8)
        ensures
            r == self.code_spec(),
    {
        match self {
            TlvType::Method => 0x00,
            TlvType::Identifier => 0x01,
            TlvType::Salt => 0x02,
            TlvType::PublicKey => 0x03,
            TlvType::Proof => 0x04,
            TlvType::EncryptedData => 0x05,
            TlvType::State => 0x06,
            TlvType::Error => 0x07,
            TlvType::RetryDelay => 0x08,
            TlvType::Certificate => 0x09,
            TlvType::Signature => 0x0A,
            TlvType::Permissions => 0x0B,
            TlvType::FragmentData => 0x0C,
            TlvType::FragmentLast => 0x0D,
            TlvType::Separator => 0xFF,
        }
    }
}

impl vstd::std_specs::convert::FromSpecImpl<TlvType> for u8 {
    open spec fn obeys_from_spec() -> bool {
        true
    }

    open spec fn from_spec(t: TlvType) -> u8 {
        t.code_spec()
    }
}

impl From<TlvType> for u8 {
    fn from(t: TlvType) -> u8 {
        t.code()
    }
}

/// The records of one value: pieces of at most 255 bytes, each behind its type and length. An
/// empty value has none.
pub open spec fn fragments(t: u8, value: Seq<u8>) -> Seq<u8>
    decreases value.len(),
{
    if value.len() == 0 {
        Seq::empty()
    } else if value.len() <= 255 {
        seq![t, value.len() as u8] + value
    } else {
        seq![t, 255u8] + value.take(255) + fragments(t, value.skip(255))
    }
}

/// The records of a list of values.
pub open spec fn encoded(entries: Seq<(TlvType, Seq<u8>)>) -> Seq<u8>
    decreases entries.len(),
{
    if entries.len() == 0 {
        Seq::empty()
    } else {
        encoded(entries.drop_last()) + fragments(
            entries.last().0.code_spec(),
            entries.last().1,
        )
    }
}

/// A list of values by its contents.
pub open spec fn view_entries(entries: Seq<(TlvType, &[u8])>) -> Seq<(TlvType, Seq<u8>)> {
    entries.map_values(|e: (TlvType, &[u8])| (e.0, e.1@))
}

fn push_fragments(out: &mut Vec<u8>, t: u8, value: &[u8])
    ensures
        final(out)@ == old(out)@ + fragments(t, value@),
{
    let ghost start = out@;
    let mut from: usize = 0;
    assert(value@.skip(0) =~= value@);
    while from < value.len()
        invariant
            from <= value@.len(),
            out@ + fragments(t, value@.skip(from as int)) == start + fragments(t, value@),
        decreases value.len() - from,
    {
        let ghost rest = value@.skip(from as int);
        let ghost before = out@;
        let left: usize = value.len() - from;
        let n: usize = if left > 255 {
            255
        } else {
            left
        };
        out.push(t);
        out.push(n as u8);
        let chunk = bytes::sub_vec(value, from, from + n);
        bytes::extend(out, &chunk);
        proof {
            let piece = seq![t, n as u8] + rest.take(n as int);
            assert(chunk@ =~= rest.take(n as int));
            assert(out@ =~= before + piece);
            assert(rest.skip(n as int) =~= value@.skip(from + n));
            if left <= 255 {
                assert(rest.take(n as int) =~= rest);
                assert(fragments(t, value@.skip(from + n)) =~= Seq::<u8>::empty());
            }
            assert(fragments(t, rest) =~= piece + fragments(t, rest.skip(n as int)));
            assert(out@ + fragments(t, rest.skip(n as int)) =~= before + fragments(t, rest));
        }
        from = from + n;
    }
    assert(fragments(t, value@.skip(from as int)) =~= Seq::<u8>::empty());
    assert(out@ + fragments(t, value@.skip(from as int)) =~= out@);
}

/// Encodes a list of values.
pub fn encode(entries: &[(TlvType, &[u8])]) -> (r: Vec<u8>)
    ensures
        r@ == encoded(view_entries(entries@)),
{
    let mut out: Vec<u8> = Vec::new();
    let mut i: usize = 0;
    let ghost all = view_entries(entries@);
    while i < entries.len()
        invariant
            i <= entries@.len(),
            all == view_entries(entries@),
            out@ == encoded(all.take(i as int)),
        decreases entries.len() - i,
    {
        push_fragments(&mut out, entries[i].0.code(), entries[i].1);
        i += 1;
        proof {
            assert(all.take(i as int).drop_last() =~= all.take(i - 1));
            assert(all.take(i as int).last() == all[i - 1]);
        }
    }
    assert(all.take(i as int) =~= all);
    out
}

/// The values with a piece put behind what its type has.
pub open spec fn appended(m: Map<u8, Seq<u8>>, t: u8, piece: Seq<u8>) -> Map<u8, Seq<u8>> {
    m.insert(
        t,
        if m.dom().contains(t) {
            m[t] + piece
        } else {
            piece
        },
    )
}

/// Reads records on top of `m`, up to the first that is cut short.
pub open spec fn read_records(data: Seq<u8>, m: Map<u8, Seq<u8>>) -> Map<u8, Seq<u8>>
    decreases data.len(),
{
    if data.len() < 2 || 2 + data[1] > data.len() {
        m
    } else {
        read_records(
            data.skip(2 + data[1] as int),
            appended(m, data[0], data.subrange(2, 2 + data[1] as int)),
        )
    }
}

/// The values that records spell, each type's pieces joined.
pub open spec fn decoded(data: Seq<u8>) -> Map<u8, Seq<u8>> {
    read_records(data, Map::empty())
}

/// A map of values by its contents.
pub open spec fn view_values(m: Map<u8, Vec<u8>>) -> Map<u8, Seq<u8>> {
    m.map_values(|v: Vec<u8>| v@)
}

/// Decodes records; pieces of one type are joined.
pub fn decode(data: &[u8]) -> (r: HashMap<u8, Vec<u8>>)
    ensures
        view_values(r@) == decoded(data@),
{
    let mut map: HashMap<u8, Vec<u8>> = HashMap::new();
    let mut i: usize = 0;
    assert(data@.skip(0) =~= data@);
    assert(view_values(map@) =~= Map::<u8, Seq<u8>>::empty());
    while data.len() - i >= 2
        invariant_except_break
            i <= data@.len(),
            read_records(data@.skip(i as int), view_values(map@)) == decoded(data@),
        ensures
            view_values(map@) == decoded(data@),
        decreases data.len() - i,
    {
        let ghost rest = data@.skip(i as int);
        let t: u8 = data[i];
        let len: usize = data[i + 1] as usize;
        if len > data.len() - i - 2 {
            break ;
        }
        let piece = bytes::sub_vec(data, i + 2, i + 2 + len);
        let ghost before = map@;
        let mut value: Vec<u8> = match map.remove(&t) {
            Some(v) => v,
            None => Vec::new(),
        };
        bytes::extend(&mut value, &piece);
        map.insert(t, value);
        proof {
            assert(rest.subrange(2, 2 + len as int) =~= piece@);
            assert(rest.skip(2 + len as int) =~= data@.skip(i + 2 + len));
            assert(view_values(map@) =~= appended(view_values(before), t, piece@));
        }
        i = i + 2 + len;
        if data.len() - i < 2 {
            assert(data@.skip(i as int).len() < 2);
        }
    }
    map
}

/// The values of a list, each type's joined; empty values leave no trace.
pub open spec fn gathered(entries: Seq<(TlvType, Seq<u8>)>) -> Map<u8, Seq<u8>>
    decreases entries.len(),
{
    if entries.len() == 0 {
        Map::empty()
    } else {
        let m = gathered(entries.drop_last());
        if entries.last().1.len() == 0 {
            m
        } else {
            appended(m, entries.last().0.code_spec(), entries.last().1)
        }
    }
}

proof fn lemma_read_fragments(t: u8, value: Seq<u8>, rest: Seq<u8>, m: Map<u8, Seq<u8>>)
    ensures
        read_records(fragments(t, value) + rest, m) == read_records(
            rest,
            if value.len() == 0 {
                m
            } else {
                appended(m, t, value)
            },
        ),
    decreases value.len(),
{
    let data = fragments(t, value) + rest;
    if value.len() == 0 {
        assert(data =~= rest);
    } else if value.len() <= 255 {
        assert(data[0] == t && data[1] == value.len());
        assert(data.subrange(2, 2 + data[1] as int) =~= value);
        assert(data.skip(2 + data[1] as int) =~= rest);
    } else {
        let head = value.take(255);
        let tail = value.skip(255);
        assert(data[0] == t && data[1] == 255);
        assert(data.subrange(2, 2 + data[1] as int) =~= head);
        assert(data.skip(2 + data[1] as int) =~= fragments(t, tail) + rest);
        lemma_read_fragments(t, tail, rest, appended(m, t, head));
        let one = appended(appended(m, t, head), t, tail);
        let two = appended(m, t, value);
        assert(head + tail =~= value);
        if m.dom().contains(t) {
            assert(m[t] + head + tail =~= m[t] + value);
        }
        assert(one =~= two);
    }
}

proof fn lemma_read_encoded(entries: Seq<(TlvType, Seq<u8>)>, rest: Seq<u8>)
    ensures
        read_records(encoded(entries) + rest, Map::empty()) == read_records(rest, gathered(entries)),
    decreases entries.len(),
{
    if entries.len() == 0 {
        assert(encoded(entries) + rest =~= rest);
    } else {
        let front = entries.drop_last();
        let frag = fragments(entries.last().0.code_spec(), entries.last().1);
        assert(encoded(entries) + rest =~= encoded(front) + (frag + rest));
        lemma_read_encoded(front, frag + rest);
        lemma_read_fragments(
            entries.last().0.code_spec(),
            entries.last().1,
            rest,
            gathered(front),
        );
    }
}

/// Decoding what was encoded gives back the values, whatever their lengths; values of one type
/// come back joined, and empty ones not at all.
pub proof fn law_tlv_roundtrip(entries: Seq<(TlvType, Seq<u8>)>)
    ensures
        decoded(encoded(entries)) == gathered(entries),
{
    lemma_read_encoded(entries, Seq::empty());
    assert(encoded(entries) + Seq::<u8>::empty() =~= encoded(entries));
    assert(read_records(Seq::empty(), gathered(entries)) == gathered(entries));
}

/// The codes of the types.
pub proof fn law_codes()
    ensures
        TlvType::Method.code_spec() == 0,
        TlvType::Identifier.code_spec() == 1,
        TlvType::Salt.code_spec() == 2,
        TlvType::PublicKey.code_spec() == 3,
        TlvType::Proof.code_spec() == 4,
        TlvType::EncryptedData.code_spec() == 5,
        TlvType::State.code_spec() == 6,
        TlvType::Error.code_spec() == 7,
        forall|a: TlvType, b: TlvType| #[trigger]
            a.code_spec() == #[trigger] b.code_spec() ==> a == b,
{
}

/// A value of up to 255 bytes is its code, its length and itself; of a longer one the first 255
/// bytes make a record, and the others follow in the same way under the same code.
pub proof fn law_records(t: TlvType, value: Seq<u8>)
    requires
        value.len() > 0,
    ensures
        value.len() <= 255 ==> encoded(seq![(t, value)]) == seq![t.code_spec(), value.len() as u8]
            + value,
        value.len() > 255 ==> encoded(seq![(t, value)]) == seq![t.code_spec(), 255u8] + value.take(
            255,
        ) + encoded(seq![(t, value.skip(255))]),
{
    let e = seq![(t, value)];
    assert(e.drop_last() =~= Seq::empty());
    assert(encoded(e.drop_last()).len() == 0);
    assert(encoded(e) =~= fragments(t.code_spec(), value));
    let rest = seq![(t, value.skip(255))];
    assert(rest.drop_last() =~= Seq::empty());
    assert(encoded(rest.drop_last()).len() == 0);
    assert(encoded(rest) =~= fragments(t.code_spec(), value.skip(255)));
}

/// Records stand one behind the other.
pub proof fn law_records_follow(
    entries: Seq<(TlvType, Seq<u8>)>,
    t: TlvType,
    value: Seq<u8>,
)
    ensures
        encoded(Seq::empty()).len() == 0,
        encoded(entries.push((t, value))) == encoded(entries) + encoded(seq![(t, value)]),
{
    let e = seq![(t, value)];
    assert(e.drop_last() =~= Seq::empty());
    assert(encoded(e.drop_last()).len() == 0);
    assert(encoded(e) =~= fragments(t.code_spec(), value));
    assert(entries.push((t, value)).drop_last() =~= entries);
}

/// A value that is the only one of its type comes back as it was, whatever stands before and
/// behind it; nothing comes back under a code that no value has.
pub proof fn law_value_comes_back(entries: Seq<(TlvType, Seq<u8>)>, i: int)
    requires
        0 <= i < entries.len(),
        entries[i].1.len() > 0,
        forall|k: int| 0 <= k < entries.len() && k != i ==> (#[trigger] entries[k]).0 != entries[i].0,
    ensures
        decoded(encoded(entries)).dom().contains(entries[i].0.code_spec()),
        decoded(encoded(entries))[entries[i].0.code_spec()] == entries[i].1,
{
    law_tlv_roundtrip(entries);
    lemma_gathered_one(entries, i);
}

/// Nothing comes back under the code of a type that no value has.
pub proof fn law_no_value_comes_back(entries: Seq<(TlvType, Seq<u8>)>, t: TlvType)
    requires
        forall|k: int| 0 <= k < entries.len() ==> (#[trigger] entries[k]).0 != t,
    ensures
        !decoded(encoded(entries)).dom().contains(t.code_spec()),
{
    law_tlv_roundtrip(entries);
    lemma_gathered_none(entries, t);
}

proof fn lemma_gathered_none(entries: Seq<(TlvType, Seq<u8>)>, t: TlvType)
    requires
        forall|k: int| 0 <= k < entries.len() ==> (#[trigger] entries[k]).0 != t,
    ensures
        !gathered(entries).dom().contains(t.code_spec()),
    decreases entries.len(),
{
    if entries.len() > 0 {
        let front = entries.drop_last();
        assert forall|k: int| 0 <= k < front.len() implies (#[trigger] front[k]).0 != t by {
            assert(front[k] == entries[k]);
        }
        lemma_gathered_none(front, t);
        assert(entries[entries.len() - 1].0 != t);
    }
}

proof fn lemma_gathered_one(entries: Seq<(TlvType, Seq<u8>)>, i: int)
    requires
        0 <= i < entries.len(),
        entries[i].1.len() > 0,
        forall|k: int| 0 <= k < entries.len() && k != i ==> (#[trigger] entries[k]).0 != entries[i].0,
    ensures
        gathered(entries).dom().contains(entries[i].0.code_spec()),
        gathered(entries)[entries[i].0.code_spec()] == entries[i].1,
    decreases entries.len(),
{
    let front = entries.drop_last();
    let t = entries[i].0;
    if i == entries.len() - 1 {
        assert forall|k: int| 0 <= k < front.len() implies (#[trigger] front[k]).0 != t by {
            assert(front[k] == entries[k]);
        }
        lemma_gathered_none(front, t);
    } else {
        assert forall|k: int| 0 <= k < front.len() && k != i implies (#[trigger] front[k]).0
            != front[i].0 by {
            assert(front[k] == entries[k]);
        }
        assert(front[i] == entries[i]);
        lemma_gathered_one(front, i);
        assert(entries[entries.len() - 1].0 != t);
    }
}

/// What is cut short is left out: a record that is not whole adds nothing.
pub proof fn law_cut_record_is_left_out(data: Seq<u8>)
    requires
        data.len() < 2 || 2 + data[1] > data.len(),
    ensures
        decoded(data) == Map::<u8, Seq<u8>>::empty(),
{
}
/// An empty value leaves nothing behind.
pub proof fn law_empty_value_is_left_out(entries: Seq<(TlvType, Seq<u8>)>, t: TlvType)
    ensures
        encoded(entries.push((t, Seq::empty()))) == encoded(entries),
{
    assert(entries.push((t, Seq::<u8>::empty())).drop_last() =~= entries);
    assert(encoded(entries) + Seq::<u8>::empty() =~= encoded(entries));
}
} // verus!
