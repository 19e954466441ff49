//! Hexadecimal and base64 text, text from bytes, and blank space.

use crate::text;
use base64::engine::general_purpose::STANDARD;
use base64::Engine;
use vstd::prelude::*;

verus! {

/// The contents of a result.
pub open spec fn view_result(r: Result<Vec<u8>, String>) -> Result<Seq<u8>, Seq<char>> {
    match r {
        Ok(v) => Ok(v@),
        Err(e) => Err(e@),
    }
}

/// The small hexadecimal digit of `v`.
pub open spec fn hex_char(v: int) -> char {
    if v < 10 {
        (48 + v) as char
    } else {
        (87 + v) as char
    }
}

/// Two small hexadecimal digits for each byte.
pub open spec fn hex_text(data: Seq<u8>) -> Seq<char> {
    Seq::new(
        data.len() * 2,
        |i: int|
            hex_char(
                if i % 2 == 0 {
                    data[i / 2] as int / 16
                } else {
                    data[i / 2] as int % 16
                },
            ),
    )
}

/// An even number of hexadecimal digits.
pub open spec fn is_hex(s: Seq<char>) -> bool {
    s.len() % 2 == 0 && text::all_hex_digits(s)
}

/// The bytes that hexadecimal digits spell.
pub open spec fn hex_data(s: Seq<char>) -> Seq<u8> {
    Seq::new(
        s.len() / 2,
        |i: int| (text::hex_value_of(s[2 * i]) * 16 + text::hex_value_of(s[2 * i + 1])) as u8,
    )
}

/// What is wrong with a text that is not hexadecimal.
pub uninterp spec fn hex_fault(s: Seq<char>) -> Seq<char>;

/// `hex::encode`: two small digits for each byte.
#[verifier::external_body]
pub(crate) fn hex_encode(data: &[u8]) -> (r: String)
    ensures
        r@ == hex_text(data@),
{
    hex::encode(data)
}

/// `hex::decode`: the bytes that an even number of digits spell, else the error's text, a
/// function of the text.
#[verifier::external_body]
pub(crate) fn hex_decode(s: &str) -> (r: Result<Vec<u8>, String>)
    ensures
        view_result(r) == (if is_hex(s@) {
            Ok(hex_data(s@))
        } else {
            Err(hex_fault(s@))
        }),
{
    hex::decode(s).map_err(|e| e.to_string())
}

/// The base64 digit of `v`.
pub open spec fn base64_char(v: int) -> char {
    if v < 26 {
        (65 + v) as char
    } else if v < 52 {
        (71 + v) as char
    } else if v < 62 {
        (v - 4) as char
    } else if v == 62 {
        '+'
    } else {
        '/'
    }
}

/// Base64 with padding: four digits for each three bytes.
pub open spec fn base64_text(data: Seq<u8>) -> Seq<char>
    decreases data.len(),
{
    if data.len() == 0 {
        Seq::empty()
    } else {
        let a = data[0] as int;
        let b = if data.len() > 1 {
            data[1] as int
        } else {
            0
        };
        let c = if data.len() > 2 {
            data[2] as int
        } else {
            0
        };
        let quad = seq![
            base64_char(a / 4),
            base64_char(a % 4 * 16 + b / 16),
            if data.len() > 1 {
                base64_char(b % 16 * 4 + c / 64)
            } else {
                '='
            },
            if data.len() > 2 {
                base64_char(c % 64)
            } else {
                '='
            },
        ];
        if data.len() <= 3 {
            quad
        } else {
            quad + base64_text(data.skip(3))
        }
    }
}

proof fn lemma_base64_char(v: int, w: int)
    requires
        0 <= v < 64,
        0 <= w < 64,
    ensures
        base64_char(v) != '=',
        base64_char(v) == base64_char(w) ==> v == w,
{
}

/// No two byte strings have the same base64.
pub proof fn law_base64_injective(a: Seq<u8>, b: Seq<u8>)
    requires
        base64_text(a) == base64_text(b),
    ensures
        a == b,
    decreases a.len(),
{
    let s = base64_text(a);
    let t = base64_text(b);
    if a.len() == 0 {
        if b.len() > 0 {
            assert(t.len() >= 4);
        }
        assert(a =~= b);
    } else {
        assert(s.len() >= 4);
        assert(b.len() > 0);
        let (a0, b0) = (a[0] as int, b[0] as int);
        let a1 = if a.len() > 1 {
            a[1] as int
        } else {
            0
        };
        let b1 = if b.len() > 1 {
            b[1] as int
        } else {
            0
        };
        let a2 = if a.len() > 2 {
            a[2] as int
        } else {
            0
        };
        let b2 = if b.len() > 2 {
            b[2] as int
        } else {
            0
        };
        assert(s[0] == base64_char(a0 / 4) && t[0] == base64_char(b0 / 4));
        assert(s[1] == base64_char(a0 % 4 * 16 + a1 / 16) && t[1] == base64_char(
            b0 % 4 * 16 + b1 / 16,
        ));
        lemma_base64_char(a0 / 4, b0 / 4);
        lemma_base64_char(a0 % 4 * 16 + a1 / 16, b0 % 4 * 16 + b1 / 16);
        assert(a0 == b0);
        lemma_base64_char(a1 % 16 * 4 + a2 / 64, b1 % 16 * 4 + b2 / 64);
        lemma_base64_char(a2 % 64, b2 % 64);
        assert(s[2] == (if a.len() > 1 {
            base64_char(a1 % 16 * 4 + a2 / 64)
        } else {
            '='
        }));
        assert(t[2] == (if b.len() > 1 {
            base64_char(b1 % 16 * 4 + b2 / 64)
        } else {
            '='
        }));
        lemma_base64_char(b1 % 16 * 4 + b2 / 64, 0);
        lemma_base64_char(b2 % 64, 0);
        assert((a.len() > 1) == (b.len() > 1));
        assert(s[3] == (if a.len() > 2 {
            base64_char(a2 % 64)
        } else {
            '='
        }));
        assert(t[3] == (if b.len() > 2 {
            base64_char(b2 % 64)
        } else {
            '='
        }));
        assert((a.len() > 2) == (b.len() > 2));
        assert(a1 == b1);
        assert(a2 == b2);
        if a.len() > 3 {
            assert(s.skip(4) =~= base64_text(a.skip(3)));
            if b.len() <= 3 {
                assert(t.len() == 4);
                assert(base64_text(a.skip(3)).len() >= 4);
            }
            assert(t.skip(4) =~= base64_text(b.skip(3)));
            law_base64_injective(a.skip(3), b.skip(3));
            assert(a =~= seq![a[0], a[1], a[2]] + a.skip(3));
            assert(b =~= seq![b[0], b[1], b[2]] + b.skip(3));
        } else {
            if b.len() > 3 {
                assert(s.len() == 4);
                assert(base64_text(b.skip(3)).len() >= 4);
            }
            assert(a =~= b);
        }
    }
}

/// Whether `decoded` is the data whose base64 is `s`, or nothing where there is no such data.
pub open spec fn is_base64_of(s: Seq<char>, decoded: Option<Seq<u8>>) -> bool {
    match decoded {
        Some(v) => base64_text(v) == s,
        None => forall|v: Seq<u8>| base64_text(v) != s,
    }
}

/// `base64` standard engine, `encode`: base64 with padding.
#[verifier::external_body]
pub(crate) fn base64_encode(data: &[u8]) -> (r: String)
    ensures
        r@ == base64_text(data@),
{
    STANDARD.encode(data)
}

/// `base64` standard engine, `decode`: the data that encodes to the text. The engine wants
/// padding as it writes it and no stray bits, so no other text has the same data.
#[verifier::external_body]
pub(crate) fn base64_decode(s: &str) -> (r: Option<Vec<u8>>)
    ensures
        is_base64_of(s@, crate::bytes::view_opt(r)),
{
    STANDARD.decode(s).ok()
}

/// The text of bytes, with a replacement character for each fault.
pub uninterp spec fn lossy_text(data: Seq<u8>) -> Seq<char>;

/// `String::from_utf8_lossy`: a function of the bytes; valid UTF-8 becomes the text that it
/// encodes.
#[verifier::external_body]
pub(crate) fn text_lossy(data: &[u8]) -> (r: String)
    ensures
        r@ == lossy_text(data@),
        vstd::utf8::valid_utf8(data@) ==> vstd::utf8::encode_utf8(r@) == data@,
{
    String::from_utf8_lossy(data).into_owned()
}

/// Whether a character is blank space: the characters with the Unicode property `White_Space`.
pub open spec fn whitespace(c: char) -> bool {
    ||| '\u{9}' <= c && c <= '\u{d}'
    ||| c == '\u{20}'
    ||| c == '\u{85}'
    ||| c == '\u{a0}'
    ||| c == '\u{1680}'
    ||| '\u{2000}' <= c && c <= '\u{200a}'
    ||| c == '\u{2028}'
    ||| c == '\u{2029}'
    ||| c == '\u{202f}'
    ||| c == '\u{205f}'
    ||| c == '\u{3000}'
}

/// Whether a character is blank space.
pub fn is_whitespace(c: char) -> (r: bool)
    ensures
        r == whitespace(c),
{
    ('\u{9}' <= c && c <= '\u{d}') || c == '\u{20}' || c == '\u{85}' || c == '\u{a0}' || c
        == '\u{1680}' || ('\u{2000}' <= c && c <= '\u{200a}') || c == '\u{2028}' || c == '\u{2029}'
        || c == '\u{202f}' || c == '\u{205f}' || c == '\u{3000}'
}

/// `s` without blank space in front.
pub open spec fn trim_front(s: Seq<char>) -> Seq<char>
    decreases s.len(),
{
    if s.len() > 0 && whitespace(s[0]) {
        trim_front(s.skip(1))
    } else {
        s
    }
}

/// `s` without blank space behind.
pub open spec fn trim_back(s: Seq<char>) -> Seq<char>
    decreases s.len(),
{
    if s.len() > 0 && whitespace(s.last()) {
        trim_back(s.drop_last())
    } else {
        s
    }
}

/// `s` without blank space around it.
pub open spec fn trimmed(s: Seq<char>) -> Seq<char> {
    trim_back(trim_front(s))
}

/// The characters without blank space around them.
pub fn trim_chars(s: &[char]) -> (r: Vec<char>)
    ensures
        r@ == trimmed(s@),
{
    let mut from: usize = 0;
    assert(s@.skip(0) =~= s@);
    while from < s.len() && is_whitespace(s[from])
        invariant
            from <= s@.len(),
            trim_front(s@) == trim_front(s@.skip(from as int)),
        decreases s.len() - from,
    {
        assert(s@.skip(from as int).skip(1) =~= s@.skip(from + 1));
        from += 1;
    }
    let ghost front = s@.skip(from as int);
    assert(trim_front(s@) == front);
    let mut to: usize = s.len();
    assert(s@.subrange(from as int, to as int) =~= front);
    while to > from && is_whitespace(s[to - 1])
        invariant
            from <= to <= s@.len(),
            trim_back(front) == trim_back(s@.subrange(from as int, to as int)),
        decreases to,
    {
        assert(s@.subrange(from as int, to as int).drop_last() =~= s@.subrange(
            from as int,
            to - 1,
        ));
        to -= 1;
    }
    let mut out: Vec<char> = Vec::new();
    let mut i: usize = from;
    while i < to
        invariant
            from <= i <= to <= s@.len(),
            out@ == s@.subrange(from as int, i as int),
        decreases to - i,
    {
        out.push(s[i]);
        i += 1;
        assert(out@ =~= s@.subrange(from as int, i as int));
    }
    out
}

/// The text without blank space around it.
pub fn trim(s: &str) -> (r: String)
    ensures
        r@ == trimmed(s@),
{
    let chars = text::chars_of(s);
    let kept = trim_chars(&chars);
    text::string_of(&kept)
}

/// Whether a character of an identifier is the one that its place asks for: hyphens after eight,
/// twelve, sixteen and twenty digits, the version 4 and the variant, and small hexadecimal digits
/// elsewhere.
pub open spec fn fits_uuid(c: char, i: int) -> bool {
    if i == 8 || i == 13 || i == 18 || i == 23 {
        c == '-'
    } else if i == 14 {
        c == '4'
    } else if i == 19 {
        c == '8' || c == '9' || c == 'a' || c == 'b'
    } else {
        ('0' <= c && c <= '9') || ('a' <= c && c <= 'f')
    }
}

/// Whether a text is a random identifier in its usual form.
pub open spec fn is_uuid_v4(s: Seq<char>) -> bool {
    s.len() == 36 && forall|i: int| 0 <= i < 36 ==> fits_uuid(#[trigger] s[i], i)
}

/// `uuid::Uuid::new_v4` as text: a random identifier in its usual form; no more is known of it.
#[verifier::external_body]
pub(crate) fn random_uuid() -> (r: String)
    ensures
        is_uuid_v4(r@),
{
    uuid::Uuid::new_v4().to_string()
}

/// Bytes that were written in hexadecimal read back, and every byte has two digits of its own.
pub proof fn law_hex_reads_back(data: Seq<u8>)
    ensures
        hex_text(data).len() == 2 * data.len(),
        is_hex(hex_text(data)),
        hex_data(hex_text(data)) == data,
        forall|i: int|
            0 <= i < data.len() ==> text::numeral_value(
                #[trigger] hex_text(data).subrange(2 * i, 2 * i + 2),
                16,
            ) == data[i],
{
    lemma_hex_digits(data);
    lemma_hex_data(data);
    assert forall|i: int| 0 <= i < data.len() implies text::numeral_value(
        #[trigger] hex_text(data).subrange(2 * i, 2 * i + 2),
        16,
    ) == data[i] by {
        lemma_hex_pair_value(data, i);
    }
}

proof fn lemma_hex_digits(data: Seq<u8>)
    ensures
        is_hex(hex_text(data)),
{
    let t = hex_text(data);
    assert forall|k: int| 0 <= k < t.len() implies text::is_hex_digit(#[trigger] t[k]) by {
        let i = k / 2;
        lemma_hex_pair(data, i);
        assert(k == 2 * i || k == 2 * i + 1);
    }
}

proof fn lemma_hex_data(data: Seq<u8>)
    ensures
        hex_data(hex_text(data)) == data,
{
    let t = hex_text(data);
    let back = hex_data(t);
    assert(t.len() / 2 == data.len());
    assert forall|i: int| 0 <= i < data.len() implies #[trigger] back[i] == data[i] by {
        lemma_hex_pair(data, i);
    }
    assert(back =~= data);
}

proof fn lemma_hex_pair_value(data: Seq<u8>, i: int)
    requires
        0 <= i < data.len(),
    ensures
        text::numeral_value(hex_text(data).subrange(2 * i, 2 * i + 2), 16) == data[i],
{
    let t = hex_text(data);
    lemma_hex_pair(data, i);
    let (a, b) = (t[2 * i], t[2 * i + 1]);
    let one = Seq::empty().push(a);
    assert(t.subrange(2 * i, 2 * i + 2) =~= one.push(b));
    text::law_numeral_grows(Seq::empty(), a);
    text::law_numeral_grows(one, b);
}

proof fn lemma_hex_pair(data: Seq<u8>, i: int)
    requires
        0 <= i < data.len(),
    ensures
        text::is_hex_digit(hex_text(data)[2 * i]),
        text::is_hex_digit(hex_text(data)[2 * i + 1]),
        text::hex_value_of(hex_text(data)[2 * i]) == data[i] as int / 16,
        text::hex_value_of(hex_text(data)[2 * i + 1]) == data[i] as int % 16,
{
    lemma_hex_char(data[i] as int / 16);
    lemma_hex_char(data[i] as int % 16);
    assert((2 * i) / 2 == i && (2 * i + 1) / 2 == i && (2 * i) % 2 == 0 && (2 * i + 1) % 2 == 1);
    assert(hex_text(data)[2 * i] == hex_char(data[i] as int / 16));
    assert(hex_text(data)[2 * i + 1] == hex_char(data[i] as int % 16));
}

proof fn lemma_hex_char(v: int)
    requires
        0 <= v < 16,
    ensures
        text::is_hex_digit(hex_char(v)),
        text::hex_value_of(hex_char(v)) == v,
{
}

/// A trimmed text begins and ends with no white space, and only white space is gone, at either
/// end.
pub proof fn law_trimmed(s: Seq<char>) -> (ends: (int, int))
    ensures
        0 <= ends.0 <= ends.1 <= s.len(),
        trimmed(s) == s.subrange(ends.0, ends.1),
        forall|k: int| 0 <= k < ends.0 || ends.1 <= k < s.len() ==> whitespace(#[trigger] s[k]),
        trimmed(s).len() > 0 ==> !whitespace(trimmed(s)[0]) && !whitespace(trimmed(s).last()),
{
    let from = lemma_trim_front(s);
    let rest = s.skip(from);
    let to = lemma_trim_back(rest);
    assert(s.subrange(from, from + to) =~= rest.take(to));
    assert forall|k: int| 0 <= k < from || from + to <= k < s.len() implies whitespace(
        #[trigger] s[k],
    ) by {
        if k >= from + to {
            assert(rest[k - from] == s[k]);
        }
    }
    if to > 0 {
        assert(rest.take(to)[0] == rest[0]);
    }
    (from, from + to)
}

proof fn lemma_trim_front(s: Seq<char>) -> (n: int)
    ensures
        0 <= n <= s.len(),
        trim_front(s) == s.skip(n),
        forall|k: int| 0 <= k < n ==> whitespace(#[trigger] s[k]),
        n < s.len() ==> !whitespace(s[n]),
    decreases s.len(),
{
    if s.len() > 0 && whitespace(s[0]) {
        let rest = s.skip(1);
        let n = lemma_trim_front(rest);
        assert(rest.skip(n) =~= s.skip(n + 1));
        assert forall|k: int| 0 <= k < n + 1 implies whitespace(#[trigger] s[k]) by {
            if k > 0 {
                assert(rest[k - 1] == s[k]);
            }
        }
        n + 1
    } else {
        assert(s.skip(0) =~= s);
        0
    }
}

proof fn lemma_trim_back(s: Seq<char>) -> (n: int)
    ensures
        0 <= n <= s.len(),
        trim_back(s) == s.take(n),
        forall|k: int| n <= k < s.len() ==> whitespace(#[trigger] s[k]),
        n > 0 ==> !whitespace(s[n - 1]),
    decreases s.len(),
{
    if s.len() > 0 && whitespace(s.last()) {
        let rest = s.drop_last();
        let n = lemma_trim_back(rest);
        assert(rest.take(n) =~= s.take(n));
        assert forall|k: int| n <= k < s.len() implies whitespace(#[trigger] s[k]) by {
            if k < rest.len() {
                assert(rest[k] == s[k]);
            }
        }
        n
    } else {
        assert(s.take(s.len() as int) =~= s);
        s.len() as int
    }
}
/// Every three bytes make four characters in base 64, and what is left over makes four too.
pub proof fn law_base64_length(data: Seq<u8>)
    ensures
        base64_text(data).len() == (data.len() + 2) / 3 * 4,
    decreases data.len(),
{
    if data.len() > 3 {
        law_base64_length(data.skip(3));
    }
}
/// White space: the five controls from tab to return, the blank and the next line, and the blanks
/// of other widths and scripts.
pub proof fn law_white_space(c: char)
    ensures
        whitespace(c) <==> {
            let n = c as int;
            9 <= n <= 13 || n == 32 || n == 133 || n == 160 || n == 5760 || 8192 <= n <= 8202 || n
                == 8232 || n == 8233 || n == 8239 || n == 8287 || n == 12288
        },
{
}
} // verus!
