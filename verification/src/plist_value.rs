//! Property lists.

use crate::bytes;
use crate::codec;
use crate::plist_dates;
use crate::text;
use plist::Value;
use std::time::{SystemTime, UNIX_EPOCH};
use vstd::prelude::*;

verus! {

/// A property list.
#[derive(Debug)]
pub enum Plist {
    Text(String),
    Data(Vec<u8>),
    Integer(i128),
    /// A real number, by its bits.
    Real(u64),
    Boolean(bool),
    /// A time, by its distance from the Unix epoch.
    Date { before_epoch: bool, secs: u64, nanos: u32 },
    Array(Vec<Plist>),
    Dict(Vec<(String, Plist)>),
    Other,
}

/// A property list by its contents.
pub enum PlistView {
    Text(Seq<char>),
    Data(Seq<u8>),
    Integer(int),
    Real(u64),
    Boolean(bool),
    Date { before_epoch: bool, secs: nat, nanos: nat },
    Array(Seq<PlistView>),
    Dict(Seq<(Seq<char>, PlistView)>),
    Other,
}

/// The contents of a property list.
pub open spec fn contents(p: Plist) -> PlistView
    decreases p,
{
    match p {
        Plist::Text(s) => PlistView::Text(s@),
        Plist::Data(d) => PlistView::Data(d@),
        Plist::Integer(i) => PlistView::Integer(i as int),
        Plist::Real(b) => PlistView::Real(b),
        Plist::Boolean(b) => PlistView::Boolean(b),
        Plist::Date { before_epoch, secs, nanos } => PlistView::Date {
            before_epoch,
            secs: secs as nat,
            nanos: nanos as nat,
        },
        Plist::Array(v) => PlistView::Array(
            Seq::new(
                v@.len(),
                |i: int|
                    if 0 <= i < v@.len() {
                        contents(v@[i])
                    } else {
                        PlistView::Other
                    },
            ),
        ),
        Plist::Dict(v) => PlistView::Dict(
            Seq::new(
                v@.len(),
                |i: int|
                    if 0 <= i < v@.len() {
                        (v@[i].0@, contents(v@[i].1))
                    } else {
                        (Seq::empty(), PlistView::Other)
                    },
            ),
        ),
        Plist::Other => PlistView::Other,
    }
}

impl View for Plist {
    type V = PlistView;

    open spec fn view(&self) -> PlistView {
        contents(*self)
    }
}

/// What reading a property list gives: the list, or the text of the error.
pub uninterp spec fn parsed_plist(data: Seq<u8>) -> Result<PlistView, Seq<char>>;

/// The contents of a result.
pub open spec fn view_parsed(r: Result<Plist, String>) -> Result<PlistView, Seq<char>> {
    match r {
        Ok(p) => Ok(p@),
        Err(e) => Err(e@),
    }
}

/// `plist::Value`, which is opaque.
#[verifier::external_type_specification]
#[verifier::external_body]
pub struct ExValue(plist::Value);

/// `plist::Date`, which is opaque.
#[verifier::external_type_specification]
#[verifier::external_body]
pub struct ExDate(plist::Date);

/// Turns a `plist::Date` into a `Plist`, by the distance of its `SystemTime` from the Unix epoch.
#[verifier::external_body]
fn from_date(d: plist::Date) -> (r: Plist) {
    let (before_epoch, t) = match SystemTime::from(d).duration_since(UNIX_EPOCH) {
        Ok(t) => (false, t),
        Err(e) => (true, e.duration()),
    };
    Plist::Date { before_epoch, secs: t.as_secs(), nanos: t.subsec_nanos() }
}

/// Turns a `plist::Value` into a `Plist`, variant by variant.
#[verifier::external_body]
fn from_value(v: Value) -> (r: Plist) {
    match v {
        Value::String(s) => Plist::Text(s),
        Value::Data(d) => Plist::Data(d),
        Value::Boolean(b) => Plist::Boolean(b),
        Value::Real(x) => Plist::Real(x.to_bits()),
        Value::Integer(i) => Plist::Integer(
            i.as_signed().map(i128::from).or(i.as_unsigned().map(i128::from)).unwrap_or_default(),
        ),
        Value::Date(d) => from_date(d),
        Value::Array(a) => Plist::Array(a.into_iter().map(from_value).collect()),
        Value::Dictionary(d) => Plist::Dict(
            d.into_iter().map(|(k, v)| (k, from_value(v))).collect(),
        ),
        _ => Plist::Other,
    }
}

/// Whether the data begins as a binary property list does, with `bplist00`.
pub open spec fn is_binary(data: Seq<u8>) -> bool {
    &&& data.len() >= 8
    &&& data[0] == 98 && data[1] == 112 && data[2] == 108 && data[3] == 105
    &&& data[4] == 115 && data[5] == 116 && data[6] == 48 && data[7] == 48
}

/// Whether a property list can be read without a date that no clock reaches: a binary list always
/// can, and any other where its dates are in range.
pub open spec fn readable(data: Seq<u8>) -> bool {
    is_binary(data) || plist_dates::dates_in_range(data)
}

/// What `read_plist` gives of the data.
pub open spec fn read_outcome(data: Seq<u8>) -> Result<PlistView, Seq<char>> {
    if readable(data) {
        parsed_plist(data)
    } else {
        Err("unsupported date"@)
    }
}

/// `plist::Value::from_reader` on the bytes: a function of the bytes.
///
/// A date in an XML list is turned to UTC, which panics behind the year 9999, and then into a
/// `SystemTime`, which may panic before 1601, where the clock of Windows begins. So a list with
/// such a date is left out. In a binary list a date out of range is an error.
#[verifier::external_body]
pub(crate) fn parse_plist(data: &[u8]) -> (r: Result<Plist, String>)
    requires
        readable(data@),
    ensures
        view_parsed(r) == parsed_plist(data@),
{
    plist::Value::from_reader(std::io::Cursor::new(data)).map(from_value).map_err(|e| e.to_string())
}

/// Whether the data begins with `bplist00`.
fn begins_binary(data: &[u8]) -> (r: bool)
    ensures
        r == is_binary(data@),
{
    data.len() >= 8 && data[0] == 98 && data[1] == 112 && data[2] == 108 && data[3] == 105
        && data[4] == 115 && data[5] == 116 && data[6] == 48 && data[7] == 48
}

/// Whether a property list has no date out of range.
pub fn is_readable(data: &[u8]) -> (r: bool)
    ensures
        r == readable(data@),
{
    begins_binary(data) || plist_dates::all_dates_in_range(data)
}

/// Reads a property list, binary or in text. One with a date out of range is refused.
pub fn read_plist(data: &[u8]) -> (r: Result<Plist, String>)
    ensures
        view_parsed(r) == read_outcome(data@),
{
    if is_readable(data) {
        parse_plist(data)
    } else {
        Err(text::owned("unsupported date"))
    }
}

/// An entry of a dictionary to be written.
#[derive(Debug)]
pub enum PlistField {
    Text(String),
    Data(Vec<u8>),
    Integer(i64),
    /// A list of dictionaries of texts.
    TextDicts(Vec<Vec<(String, String)>>),
}

/// An entry by its contents.
pub enum FieldView {
    Text(Seq<char>),
    Data(Seq<u8>),
    Integer(int),
    TextDicts(Seq<Seq<(Seq<char>, Seq<char>)>>),
}

/// A dictionary of texts by its contents.
pub open spec fn text_dict(d: Seq<(String, String)>) -> Seq<(Seq<char>, Seq<char>)> {
    d.map_values(|e: (String, String)| (e.0@, e.1@))
}

/// A list of dictionaries of texts by its contents.
pub open spec fn text_dicts(l: Seq<Vec<(String, String)>>) -> Seq<Seq<(Seq<char>, Seq<char>)>> {
    Seq::new(l.len(), |i: int| text_dict(l[i]@))
}

impl View for PlistField {
    type V = FieldView;

    open spec fn view(&self) -> FieldView {
        match self {
            PlistField::Text(s) => FieldView::Text(s@),
            PlistField::Data(d) => FieldView::Data(d@),
            PlistField::Integer(i) => FieldView::Integer(*i as int),
            PlistField::TextDicts(l) => FieldView::TextDicts(text_dicts(l@)),
        }
    }
}

/// The entries of a dictionary by their contents.
pub open spec fn view_fields(entries: Seq<(String, PlistField)>) -> Seq<(Seq<char>, FieldView)> {
    entries.map_values(|e: (String, PlistField)| (e.0@, e.1@))
}

/// What writing a dictionary gives: a binary property list, or the text of the error.
pub uninterp spec fn written_plist(entries: Seq<(Seq<char>, FieldView)>) -> Result<
    Seq<u8>,
    Seq<char>,
>;

/// `plist::to_writer_binary` of a dictionary with the given entries: a function of the entries.
#[verifier::external_body]
pub(crate) fn write_plist(entries: &[(String, PlistField)]) -> (r: Result<Vec<u8>, String>)
    ensures
        codec::view_result(r) == written_plist(view_fields(entries@)),
{
    let mut dict = plist::Dictionary::new();
    for (key, field) in entries {
        let value = match field {
            PlistField::Text(s) => plist::Value::String(s.clone()),
            PlistField::Data(d) => plist::Value::Data(d.clone()),
            PlistField::Integer(i) => plist::Value::Integer((*i).into()),
            PlistField::TextDicts(l) => plist::Value::Array(
                l.iter().map(|d| plist::Value::Dictionary(d.iter().cloned().collect())).collect(),
            ),
        };
        dict.insert(key.clone(), value);
    }
    let mut out = Vec::new();
    plist::to_writer_binary(&mut out, &dict).map(|_| out).map_err(|e| e.to_string())
}

/// The entry of a dictionary under `key`.
pub open spec fn entry(p: PlistView, key: Seq<char>) -> Option<PlistView> {
    match p {
        PlistView::Dict(d) => first_under(d, key),
        _ => None,
    }
}

/// The first entry under `key`.
pub open spec fn first_under(d: Seq<(Seq<char>, PlistView)>, key: Seq<char>) -> Option<PlistView>
    decreases d.len(),
{
    if d.len() == 0 {
        None
    } else if d[0].0 == key {
        Some(d[0].1)
    } else {
        first_under(d.skip(1), key)
    }
}

/// The contents of an optional property list.
pub open spec fn view_entry(r: Option<&Plist>) -> Option<PlistView> {
    match r {
        Some(p) => Some(p@),
        None => None,
    }
}

impl Plist {
    /// The entry of a dictionary under `key`.
    pub fn get(&self, key: &str) -> (r: Option<&Plist>)
        ensures
            view_entry(r) == entry(self@, key@),
    {
        match self {
            Plist::Dict(d) => {
                let ghost all = self@->Dict_0;
                let mut i: usize = 0;
                assert(all.skip(0) =~= all);
                while i < d.len()
                    invariant
                        i <= d@.len(),
                        self@ == PlistView::Dict(all),
                        all.len() == d@.len(),
                        forall|k: int|
                            0 <= k < d@.len() ==> #[trigger] all[k] == (d@[k].0@, d@[k].1@),
                        first_under(all, key@) == first_under(all.skip(i as int), key@),
                    decreases d.len() - i,
                {
                    assert(all.skip(i as int)[0] == all[i as int]);
                    if text::same_text(d[i].0.as_str(), key) {
                        return Some(&d[i].1);
                    }
                    assert(all.skip(i as int).skip(1) =~= all.skip(i + 1));
                    i += 1;
                }
                None
            },
            _ => None,
        }
    }
}

/// Whether every date in a property list can be written out: those of the years 0 to 9999.
pub open spec fn printable(p: PlistView) -> bool
    decreases p,
{
    match p {
        PlistView::Date { before_epoch, secs, nanos } => if before_epoch {
            secs < 62167219200 || (secs == 62167219200 && nanos == 0)
        } else {
            secs < 253402300800
        },
        PlistView::Array(a) => forall|i: int| 0 <= i < a.len() ==> printable(#[trigger] a[i]),
        PlistView::Dict(d) => forall|i: int| 0 <= i < d.len() ==> printable((#[trigger] d[i]).1),
        _ => true,
    }
}

proof fn lemma_unprintable_item(a: Seq<PlistView>, i: int)
    requires
        0 <= i < a.len(),
        !printable(a[i]),
    ensures
        !printable(PlistView::Array(a)),
{
    reveal_with_fuel(printable, 2);
    let p = PlistView::Array(a);
    if printable(p) {
        assert(p->Array_0[i] == a[i]);
    }
}

proof fn lemma_unprintable_entry(d: Seq<(Seq<char>, PlistView)>, i: int)
    requires
        0 <= i < d.len(),
        !printable(d[i].1),
    ensures
        !printable(PlistView::Dict(d)),
{
    reveal_with_fuel(printable, 2);
    let p = PlistView::Dict(d);
    if printable(p) {
        assert(p->Dict_0[i] == d[i]);
    }
}

/// Whether every date in a property list can be written out.
pub fn is_printable(p: &Plist) -> (r: bool)
    ensures
        r == printable(p@),
    decreases p,
{
    match p {
        Plist::Date { before_epoch, secs, nanos } => if *before_epoch {
            *secs < 62167219200 || (*secs == 62167219200 && *nanos == 0)
        } else {
            *secs < 253402300800
        },
        Plist::Array(v) => {
            let ghost all = p@->Array_0;
            let mut i: usize = 0;
            while i < v.len()
                invariant
                    i <= v@.len(),
                    p@ == PlistView::Array(all),
                    all.len() == v@.len(),
                    *p == Plist::Array(*v),
                    forall|k: int| 0 <= k < v@.len() ==> #[trigger] all[k] == v@[k]@,
                    forall|k: int| 0 <= k < i ==> printable(#[trigger] all[k]),
                decreases v.len() - i,
            {
                assert(all[i as int] == v@[i as int]@);
                if !is_printable(&v[i]) {
                    proof {
                        lemma_unprintable_item(all, i as int);
                    }
                    return false;
                }
                i += 1;
            }
            true
        },
        Plist::Dict(v) => {
            let ghost all = p@->Dict_0;
            let mut i: usize = 0;
            while i < v.len()
                invariant
                    i <= v@.len(),
                    p@ == PlistView::Dict(all),
                    all.len() == v@.len(),
                    *p == Plist::Dict(*v),
                    forall|k: int|
                        0 <= k < v@.len() ==> #[trigger] all[k] == (v@[k].0@, v@[k].1@),
                    forall|k: int| 0 <= k < i ==> printable((#[trigger] all[k]).1),
                decreases v.len() - i,
            {
                assert(all[i as int] == (v@[i as int].0@, v@[i as int].1@));
                if !is_printable(&v[i].1) {
                    proof {
                        lemma_unprintable_entry(all, i as int);
                    }
                    return false;
                }
                i += 1;
            }
            true
        },
        _ => true,
    }
}

/// Entry `key` of item `i` of the list under `list`.
pub open spec fn item_entry(p: PlistView, list: Seq<char>, i: int, key: Seq<char>) -> Option<
    PlistView,
> {
    match entry(p, list) {
        Some(PlistView::Array(a)) => if 0 <= i < a.len() {
            entry(a[i], key)
        } else {
            None
        },
        _ => None,
    }
}

/// The debug text of the entry under `key` of the dictionary that the data holds.
pub uninterp spec fn entry_debug(data: Seq<u8>, key: Seq<char>) -> Option<Seq<char>>;

/// The debug text of entry `key` of item `i` of the list under `list`.
pub uninterp spec fn item_debug(data: Seq<u8>, list: Seq<char>, i: nat, key: Seq<char>) -> Option<
    Seq<char>,
>;

/// `plist::Dictionary::get` on what `plist::Value::from_reader` reads, and the `Debug` of
/// `plist::Value`: a function of the bytes and the key, with a text where there is an entry. A date
/// outside the years 0 to 9999 cannot be written out.
#[verifier::external_body]
pub(crate) fn show_entry(data: &[u8], key: &str) -> (r: Option<String>)
    requires
        readable(data@),
        parsed_plist(data@) matches Ok(p) ==> (entry(p, key@) matches Some(v) ==> printable(v)),
    ensures
        text::view_text(r) == entry_debug(data@, key@),
        r is Some <==> (parsed_plist(data@) matches Ok(p) && entry(p, key@) is Some),
{
    let root = plist::Value::from_reader(std::io::Cursor::new(data)).ok()?;
    root.as_dictionary()?.get(key).map(|v| format!("{v:?}"))
}

/// As `show_entry`, for an entry of an item of a list in the dictionary.
#[verifier::external_body]
pub(crate) fn show_item(data: &[u8], list: &str, i: usize, key: &str) -> (r: Option<String>)
    requires
        readable(data@),
        parsed_plist(data@) matches Ok(p) ==> (item_entry(p, list@, i as int, key@) matches Some(v)
            ==> printable(v)),
    ensures
        text::view_text(r) == item_debug(data@, list@, i as nat, key@),
        r is Some <==> (parsed_plist(data@) matches Ok(p) && item_entry(
            p,
            list@,
            i as int,
            key@,
        ) is Some),
{
    let root = plist::Value::from_reader(std::io::Cursor::new(data)).ok()?;
    let item = root.as_dictionary()?.get(list)?.as_array()?.get(i)?;
    item.as_dictionary()?.get(key).map(|v| format!("{v:?}"))
}

/// The bytes of a data entry under `key`.
pub open spec fn data_entry(p: PlistView, key: Seq<char>) -> Option<Seq<u8>> {
    match entry(p, key) {
        Some(PlistView::Data(d)) => Some(d),
        _ => None,
    }
}

/// The bytes of a data entry under `key`.
pub fn plist_bytes(dict: &Plist, key: &str) -> (r: Option<Vec<u8>>)
    ensures
        bytes::view_opt(r) == data_entry(dict@, key@),
{
    match dict.get(key) {
        Some(Plist::Data(d)) => Some(bytes::to_vec(d)),
        _ => None,
    }
}

/// Whether a value is the first of those that a dictionary holds under a key.
pub open spec fn stands_under(p: PlistView, key: Seq<char>, v: PlistView) -> bool {
    p matches PlistView::Dict(d) && exists|i: int|
        0 <= i < d.len() && #[trigger] d[i] == (key, v) && forall|k: int|
            0 <= k < i ==> (#[trigger] d[k]).0 != key
}

/// Looking a key up finds the first value that the dictionary holds under exactly this key, and
/// finds nothing where no entry has the key, or where there is no dictionary.
pub proof fn law_entry_is_first_of_its_key(p: PlistView, key: Seq<char>)
    ensures
        forall|v: PlistView| #[trigger] stands_under(p, key, v) <==> entry(p, key) == Some(v),
        entry(p, key) is None <==> (p matches PlistView::Dict(d) ==> forall|k: int|
            0 <= k < d.len() ==> (#[trigger] d[k]).0 != key),
{
    if let PlistView::Dict(d) = p {
        lemma_first_under(d, key);
        assert forall|v: PlistView| #[trigger] stands_under(p, key, v) implies entry(p, key)
            == Some(v) by {
            let i = choose|i: int|
                0 <= i < d.len() && #[trigger] d[i] == (key, v) && forall|k: int|
                    0 <= k < i ==> (#[trigger] d[k]).0 != key;
            assert(d[i].0 == key);
            let j = lemma_first_under(d, key);
            assert(i == j) by {
                if i < j {
                    assert(d[i].0 != key);
                }
                if j < i {
                    assert(d[j].0 != key);
                }
            }
        }
        if first_under(d, key) is Some {
            let j = lemma_first_under(d, key);
            assert(d[j] == (key, entry(p, key)->0));
            assert(d[j].0 == key);
            assert(stands_under(p, key, entry(p, key)->0));
        }
    }
}

proof fn lemma_first_under(d: Seq<(Seq<char>, PlistView)>, key: Seq<char>) -> (at: int)
    ensures
        0 <= at <= d.len(),
        forall|k: int| 0 <= k < at ==> (#[trigger] d[k]).0 != key,
        at < d.len() ==> d[at].0 == key && first_under(d, key) == Some(d[at].1),
        at == d.len() ==> first_under(d, key) is None,
    decreases d.len(),
{
    if d.len() == 0 {
        0
    } else if d[0].0 == key {
        0
    } else {
        let rest = d.skip(1);
        let at = lemma_first_under(rest, key) + 1;
        assert forall|k: int| 0 <= k < at implies (#[trigger] d[k]).0 != key by {
            if k > 0 {
                assert(d[k] == rest[k - 1]);
            }
        }
        at
    }
}
/// The contents of a list are those of its items, one for one and in order, and those of a
/// dictionary its keys with the contents of their values; a single value is what it holds.
pub proof fn law_contents_are_kept(v: Vec<Plist>, d: Vec<(String, Plist)>, t: String, b: Vec<u8>, n: i128)
    ensures
        Plist::Array(v)@ matches PlistView::Array(a) && a.len() == v@.len() && forall|i: int|
            0 <= i < v@.len() ==> #[trigger] a[i] == v@[i]@,
        Plist::Dict(d)@ matches PlistView::Dict(e) && e.len() == d@.len() && forall|i: int|
            0 <= i < d@.len() ==> #[trigger] e[i] == (d@[i].0@, d@[i].1@),
        Plist::Text(t)@ == PlistView::Text(t@),
        Plist::Data(b)@ == PlistView::Data(b@),
        Plist::Integer(n)@ == PlistView::Integer(n as int),
{
    reveal_with_fuel(contents, 2);
    assert forall|i: int| 0 <= i < v@.len() implies #[trigger] (Plist::Array(v)@->Array_0)[i]
        == v@[i]@ by {}
    assert forall|i: int| 0 <= i < d@.len() implies #[trigger] (Plist::Dict(d)@->Dict_0)[i] == (
        d@[i].0@,
        d@[i].1@,
    ) by {}
}

/// A list that begins with the mark of binary lists is read as it is, whatever dates seem to stand
/// in it; in any other, one date out of range has it refused.
pub proof fn law_binary_lists_are_read(rest: Seq<u8>)
    ensures
        read_outcome(seq![98u8, 112, 108, 105, 115, 116, 48, 48] + rest) == parsed_plist(
            seq![98u8, 112, 108, 105, 115, 116, 48, 48] + rest,
        ),
        !is_binary(rest) && !plist_dates::dates_in_range(rest) ==> read_outcome(rest) == Err::<
            PlistView,
            Seq<char>,
        >("unsupported date"@),
        plist_dates::dates_in_range(rest) ==> read_outcome(rest) == parsed_plist(rest),
{
}

/// A date can be written out from the start of the year 0 to the end of the year 9999: 719528 days
/// before and 2932897 days after the start of 1970.
pub proof fn law_dates_are_written_out(before_epoch: bool, secs: nat, nanos: nat)
    ensures
        printable(PlistView::Date { before_epoch, secs, nanos }) <==> (if before_epoch {
            secs < 719528 * 86400 || secs == 719528 * 86400 && nanos == 0
        } else {
            secs < 2932897 * 86400
        }),
{
}
} // verus!
