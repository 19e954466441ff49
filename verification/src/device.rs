//! Receivers.

use crate::text;
use vstd::prelude::*;

verus! {

/// Capabilities that a receiver announces.
#[derive(Debug, Clone, Copy, PartialEq, Eq, Structural)]
pub struct DeviceFeatures {
    pub raw: u64,
}

impl Default for DeviceFeatures {
    fn default() -> (r: Self)
        ensures
            r.raw == 0,
    {
        DeviceFeatures { raw: 0 }
    }
}

/// A hexadecimal word behind `0x`.
pub open spec fn hex_word(s: Seq<char>, max: nat) -> Option<nat> {
    if text::starts_with_text(s, "0x"@) {
        text::parse_hex_spec(s.skip(2), max)
    } else {
        None
    }
}

/// The capabilities that a text announces: one word of 64 bits, or the low and the high 32 bits
/// with a comma between; none where the text is neither.
pub open spec fn announced(s: Seq<char>) -> nat {
    let comma = text::first_index(s, ',');
    if comma >= s.len() {
        match hex_word(s, u64::MAX as nat) {
            Some(v) => v,
            None => 0,
        }
    } else {
        match (hex_word(s.take(comma), u32::MAX as nat), hex_word(
            s.skip(comma + 1),
            u32::MAX as nat,
        )) {
            (Some(low), Some(high)) => high * 0x1_0000_0000 + low,
            _ => 0,
        }
    }
}

fn read_word(s: &[char], from: usize, to: usize, max: u64) -> (r: Option<u64>)
    requires
        from <= to <= s@.len(),
    ensures
        match r {
            Some(v) => hex_word(s@.subrange(from as int, to as int), max as nat) == Some(v as nat),
            None => hex_word(s@.subrange(from as int, to as int), max as nat) is None,
        },
{
    let ghost t = s@.subrange(from as int, to as int);
    proof {
        reveal_strlit("0x");
        if t.len() >= 2 {
            assert(t.take(2) =~= seq![t[0], t[1]]);
            assert("0x"@ =~= seq!['0', 'x']);
            assert(t.skip(2) =~= s@.subrange(from + 2, to as int));
            if t.take(2) == "0x"@ {
                assert(t.take(2)[0] == '0' && t.take(2)[1] == 'x');
            }
        }
    }
    if to - from >= 2 && s[from] == '0' && s[from + 1] == 'x' {
        text::parse_hex(s, from + 2, to, max)
    } else {
        None
    }
}

impl DeviceFeatures {
    /// The capabilities that a text announces.
    pub fn from_hex(s: &str) -> (r: Self)
        ensures
            r.raw == announced(s@),
    {
        let chars = text::chars_of(s);
        let n: usize = chars.len();
        let comma: usize = text::index_of_char(&chars, ',');
        if comma >= n {
            assert(chars@.subrange(0, n as int) =~= s@);
            let raw: u64 = match read_word(&chars, 0, n, 0xffff_ffff_ffff_ffff) {
                Some(v) => v,
                None => 0,
            };
            return DeviceFeatures { raw };
        }
        proof {
            assert(chars@.subrange(0, comma as int) =~= s@.take(comma as int));
            assert(chars@.subrange(comma + 1, n as int) =~= s@.skip(comma + 1));
        }
        let low = read_word(&chars, 0, comma, 0xffff_ffff);
        let high = read_word(&chars, comma + 1, n, 0xffff_ffff);
        match (low, high) {
            (Some(l), Some(h)) => DeviceFeatures { raw: h * 0x1_0000_0000 + l },
            _ => DeviceFeatures { raw: 0 },
        }
    }
}

/// A receiver that can be mirrored to.
#[derive(Debug, Clone)]
pub struct AirPlayDevice {
    pub name: String,
    pub host: String,
    pub port: u16,
    pub device_id: String,
    pub model: Option<String>,
    pub features: DeviceFeatures,
    pub display_width: Option<u32>,
    pub display_height: Option<u32>,
    pub pi: Option<String>,
    pub pk: Option<String>,
}

/// A receiver by its contents.
pub struct DeviceView {
    pub name: Seq<char>,
    pub host: Seq<char>,
    pub port: u16,
    pub device_id: Seq<char>,
    pub model: Option<Seq<char>>,
    pub features: DeviceFeatures,
    pub display_width: Option<u32>,
    pub display_height: Option<u32>,
    pub pi: Option<Seq<char>>,
    pub pk: Option<Seq<char>>,
}

impl View for AirPlayDevice {
    type V = DeviceView;

    open spec fn view(&self) -> DeviceView {
        DeviceView {
            name: self.name@,
            host: self.host@,
            port: self.port,
            device_id: self.device_id@,
            model: text::view_text(self.model),
            features: self.features,
            display_width: self.display_width,
            display_height: self.display_height,
            pi: text::view_text(self.pi),
            pk: text::view_text(self.pk),
        }
    }
}

/// A word of hexadecimal digits behind `0x` is taken for what it spells, as long as it fits 64
/// bits.
pub proof fn law_one_word_is_read(digits: Seq<char>)
    requires
        digits.len() > 0,
        text::all_hex_digits(digits),
        text::numeral_value(digits, 16) <= 0xffff_ffff_ffff_ffff,
    ensures
        announced("0x"@ + digits) == text::numeral_value(digits, 16),
{
    reveal_strlit("0x");
    let s = "0x"@ + digits;
    lemma_no_comma(digits);
    text::law_first_index(s, ',');
    let i = text::first_index(s, ',');
    if i < s.len() {
        if i >= 2 {
            assert(s[i] == digits[i - 2]);
        }
    }
    lemma_word(digits, u64::MAX as nat);
}

/// Two words with a comma between are the lower and the upper 32 bits.
pub proof fn law_two_words_are_read(low: Seq<char>, high: Seq<char>)
    requires
        low.len() > 0,
        high.len() > 0,
        text::all_hex_digits(low),
        text::all_hex_digits(high),
        text::numeral_value(low, 16) <= 0xffff_ffff,
        text::numeral_value(high, 16) <= 0xffff_ffff,
    ensures
        announced("0x"@ + low + seq![','] + "0x"@ + high) == text::numeral_value(high, 16)
            * 4294967296 + text::numeral_value(low, 16),
{
    reveal_strlit("0x");
    let a = "0x"@ + low;
    let b = "0x"@ + high;
    let s = "0x"@ + low + seq![','] + "0x"@ + high;
    let n = a.len() as int;
    lemma_no_comma(low);
    text::law_first_index(s, ',');
    let i = text::first_index(s, ',');
    assert(s[n] == ',');
    if i < n && i >= 2 {
        assert(s[i] == low[i - 2]);
    }
    if n < i {
        assert(s[n] != ',');
    }
    assert(i == n);
    assert(s.take(n) =~= a);
    assert(s.skip(n + 1) =~= b);
    lemma_word(low, u32::MAX as nat);
    lemma_word(high, u32::MAX as nat);
}

/// A text that does not begin with `0x` announces nothing.
pub proof fn law_other_texts_announce_nothing(s: Seq<char>)
    requires
        s.len() < 2 || s[0] != '0' || s[1] != 'x',
    ensures
        announced(s) == 0,
{
    reveal_strlit("0x");
    text::law_first_index(s, ',');
    let i = text::first_index(s, ',');
    let t = if i < s.len() {
        s.take(i)
    } else {
        s
    };
    if text::starts_with_text(t, "0x"@) {
        assert(t.take(2)[0] == t[0] && t.take(2)[1] == t[1]);
        assert("0x"@[0] == '0' && "0x"@[1] == 'x');
    }
}

proof fn lemma_no_comma(digits: Seq<char>)
    requires
        text::all_hex_digits(digits),
    ensures
        forall|k: int| 0 <= k < digits.len() ==> #[trigger] digits[k] != ',',
{
    assert forall|k: int| 0 <= k < digits.len() implies #[trigger] digits[k] != ',' by {
        assert(text::is_hex_digit(digits[k]));
    }
}

proof fn lemma_word(digits: Seq<char>, max: nat)
    requires
        digits.len() > 0,
        text::all_hex_digits(digits),
        text::numeral_value(digits, 16) <= max,
    ensures
        hex_word("0x"@ + digits, max) == Some(text::numeral_value(digits, 16)),
{
    reveal_strlit("0x");
    assert(("0x"@ + digits).take(2) =~= "0x"@);
    assert(("0x"@ + digits).skip(2) =~= digits);
}
} // verus!
