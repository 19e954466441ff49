//! Text as sequences of characters: numerals, filters, searches and trims.

use vstd::prelude::*;
use vstd::string::*;

verus! {

/// The decimal digit of value `d`, for `d` below ten.
pub open spec fn digit_char(d: nat) -> char {
    (48 + d) as char
}

/// The decimal numeral of `n`, without leading zeros.
pub open spec fn decimal(n: nat) -> Seq<char>
    decreases n,
{
    if n < 10 {
        seq![digit_char(n)]
    } else {
        decimal(n / 10).push(digit_char(n % 10))
    }
}

pub open spec fn is_digit(c: char) -> bool {
    '0' <= c && c <= '9'
}

pub open spec fn is_hex_digit(c: char) -> bool {
    is_digit(c) || ('a' <= c && c <= 'f') || ('A' <= c && c <= 'F')
}

/// The value of a hexadecimal digit; zero for any other character.
pub open spec fn hex_value_of(c: char) -> nat {
    if is_digit(c) {
        (c as nat - 48) as nat
    } else if 'a' <= c && c <= 'f' {
        (c as nat - 87) as nat
    } else if 'A' <= c && c <= 'F' {
        (c as nat - 55) as nat
    } else {
        0
    }
}

/// The hexadecimal digits of `s`, in order.
pub open spec fn hex_digits_of(s: Seq<char>) -> Seq<char> {
    s.filter(|c: char| is_hex_digit(c))
}

/// The decimal digits of `s`, in order.
pub open spec fn digits_of(s: Seq<char>) -> Seq<char> {
    s.filter(|c: char| is_digit(c))
}

/// The number that the digits of `s` spell in `radix`.
pub open spec fn numeral_value(s: Seq<char>, radix: nat) -> nat
    decreases s.len(),
{
    if s.len() == 0 {
        0
    } else {
        numeral_value(s.drop_last(), radix) * radix + hex_value_of(s.last())
    }
}

pub open spec fn all_digits(s: Seq<char>) -> bool {
    forall|i: int| 0 <= i < s.len() ==> is_digit(#[trigger] s[i])
}

pub open spec fn all_hex_digits(s: Seq<char>) -> bool {
    forall|i: int| 0 <= i < s.len() ==> is_hex_digit(#[trigger] s[i])
}

/// `s` without one leading plus sign.
pub open spec fn strip_plus(s: Seq<char>) -> Seq<char> {
    if s.len() > 0 && s[0] == '+' {
        s.skip(1)
    } else {
        s
    }
}

/// Reading an unsigned decimal number no greater than `max`: one leading plus sign is
/// allowed, and at least one digit must follow.
pub open spec fn parse_decimal_spec(s: Seq<char>, max: nat) -> Option<nat> {
    let d = strip_plus(s);
    if d.len() > 0 && all_digits(d) && numeral_value(d, 10) <= max {
        Some(numeral_value(d, 10))
    } else {
        None
    }
}

/// ASCII lower case of one character.
pub open spec fn lower_char(c: char) -> char {
    if 'A' <= c && c <= 'Z' {
        (c as nat + 32) as char
    } else {
        c
    }
}

/// ASCII lower case of a text.
pub open spec fn ascii_lower(s: Seq<char>) -> Seq<char> {
    Seq::new(s.len(), |i: int| lower_char(s[i]))
}

/// `needle` stands in `s` at position `i`.
pub open spec fn occurs_at(s: Seq<char>, needle: Seq<char>, i: int) -> bool {
    0 <= i && i + needle.len() <= s.len() && s.subrange(i, i + needle.len()) == needle
}

/// `needle` stands somewhere in `s`.
pub open spec fn contains_text(s: Seq<char>, needle: Seq<char>) -> bool {
    exists|i: int| occurs_at(s, needle, i)
}

pub open spec fn starts_with_text(s: Seq<char>, prefix: Seq<char>) -> bool {
    prefix.len() <= s.len() && s.take(prefix.len() as int) == prefix
}

pub open spec fn ends_with_text(s: Seq<char>, suffix: Seq<char>) -> bool {
    suffix.len() <= s.len() && s.skip(s.len() - suffix.len()) == suffix
}

/// `s` without the run of `c` at its end.
pub open spec fn trim_end_char(s: Seq<char>, c: char) -> Seq<char>
    decreases s.len(),
{
    if s.len() > 0 && s.last() == c {
        trim_end_char(s.drop_last(), c)
    } else {
        s
    }
}

/// `s` without the copies of `suffix` at its end.
pub open spec fn trim_end_text(s: Seq<char>, suffix: Seq<char>) -> Seq<char>
    decreases s.len(),
{
    if suffix.len() > 0 && ends_with_text(s, suffix) {
        trim_end_text(s.take(s.len() - suffix.len()), suffix)
    } else {
        s
    }
}

/// Position of the first `c` in `s`, or the length of `s` when there is none.
pub open spec fn first_index(s: Seq<char>, c: char) -> int
    decreases s.len(),
{
    if s.len() == 0 || s[0] == c {
        0
    } else {
        1 + first_index(s.skip(1), c)
    }
}

/// Lexicographic order on texts by code point.
pub open spec fn text_le(a: Seq<char>, b: Seq<char>) -> bool
    decreases a.len(),
{
    if a.len() == 0 {
        true
    } else if b.len() == 0 {
        false
    } else if a[0] == b[0] {
        text_le(a.skip(1), b.skip(1))
    } else {
        a[0] < b[0]
    }
}

/// `String::push`: appends one character.
pub assume_specification[ String::push ](s: &mut String, ch: char)
    ensures
        final(s)@ == old(s)@.push(ch),
;

/// The characters of `s`.
pub fn chars_of(s: &str) -> (r: Vec<char>)
    ensures
        r@ == s@,
{
    let mut out: Vec<char> = Vec::new();
    for c in it: s.chars()
        invariant
            out@ == s@.take(it.index()),
            it.seq() == s@,
    {
        out.push(c);
        assert(out@ =~= s@.take(it.index() + 1));
    }
    assert(out@ =~= s@);
    out
}

/// Appends the characters of `more` to `out`.
pub fn push_chars(out: &mut String, more: &[char])
    ensures
        final(out)@ == old(out)@ + more@,
{
    let ghost start = out@;
    let mut i: usize = 0;
    while i < more.len()
        invariant
            i <= more@.len(),
            out@ == start + more@.take(i as int),
        decreases more.len() - i,
    {
        out.push(more[i]);
        i += 1;
        assert(out@ =~= start + more@.take(i as int));
    }
    assert(more@.take(i as int) =~= more@);
}

/// The text made of `chars`.
pub fn string_of(chars: &[char]) -> (r: String)
    ensures
        r@ == chars@,
{
    let mut out = String::new();
    push_chars(&mut out, chars);
    assert(out@ =~= chars@);
    out
}

/// Copies `chars[from..to]` to a text.
pub fn sub_string(chars: &[char], from: usize, to: usize) -> (r: String)
    requires
        from <= to <= chars@.len(),
    ensures
        r@ == chars@.subrange(from as int, to as int),
{
    let mut out = String::new();
    let mut i: usize = from;
    while i < to
        invariant
            from <= i <= to <= chars@.len(),
            out@ == chars@.subrange(from as int, i as int),
        decreases to - i,
    {
        out.push(chars[i]);
        i += 1;
        assert(out@ =~= chars@.subrange(from as int, i as int));
    }
    out
}

/// An owned copy of `s`.
pub fn owned(s: &str) -> (r: String)
    ensures
        r@ == s@,
{
    String::from_str(s)
}

/// Whether two character sequences are equal.
pub fn same_chars(a: &[char], b: &[char]) -> (r: bool)
    ensures
        r == (a@ == b@),
{
    if a.len() != b.len() {
        return false;
    }
    let mut i: usize = 0;
    while i < a.len()
        invariant
            i <= a@.len(),
            a@.len() == b@.len(),
            forall|j: int| 0 <= j < i ==> a@[j] == b@[j],
        decreases a.len() - i,
    {
        if a[i] != b[i] {
            assert(a@[i as int] != b@[i as int]);
            return false;
        }
        i += 1;
    }
    assert(a@ =~= b@);
    true
}

/// Whether two texts are equal.
pub fn same_text(a: &str, b: &str) -> (r: bool)
    ensures
        r == (a@ == b@),
{
    let x = chars_of(a);
    let y = chars_of(b);
    same_chars(x.as_slice(), y.as_slice())
}

/// The decimal numeral of `n`.
pub fn decimal_text(n: u64) -> (r: String)
    ensures
        r@ == decimal(n as nat),
    decreases n,
{
    let d: u8 = (n % 10) as u8;
    let c: char = (48u8 + d) as char;
    if n < 10 {
        let mut out = String::new();
        out.push(c);
        assert(out@ =~= seq![digit_char(n as nat)]);
        out
    } else {
        let mut out = decimal_text(n / 10);
        out.push(c);
        out
    }
}

/// Appends the decimal numeral of `n`.
pub fn push_decimal(out: &mut String, n: u64)
    ensures
        final(out)@ == old(out)@ + decimal(n as nat),
{
    let d = decimal_text(n);
    out.append(d.as_str());
}

pub fn is_digit_char(c: char) -> (r: bool)
    ensures
        r == is_digit(c),
{
    '0' <= c && c <= '9'
}

pub fn is_hex_char(c: char) -> (r: bool)
    ensures
        r == is_hex_digit(c),
{
    is_digit_char(c) || ('a' <= c && c <= 'f') || ('A' <= c && c <= 'F')
}

/// The value of a hexadecimal digit; zero for any other character.
pub fn hex_char_value(c: char) -> (r: u8)
    ensures
        r == hex_value_of(c),
        r < 16,
{
    if is_digit_char(c) {
        (c as u32 - 48) as u8
    } else if 'a' <= c && c <= 'f' {
        (c as u32 - 87) as u8
    } else if 'A' <= c && c <= 'F' {
        (c as u32 - 55) as u8
    } else {
        0
    }
}

/// The hexadecimal digits of `s`, in order.
pub fn keep_hex_digits(s: &str) -> (r: Vec<char>)
    ensures
        r@ == hex_digits_of(s@),
        all_hex_digits(r@),
{
    let chars = chars_of(s);
    let mut out: Vec<char> = Vec::new();
    let mut i: usize = 0;
    proof {
        reveal(Seq::filter);
    }
    while i < chars.len()
        invariant
            i <= chars@.len(),
            out@ == hex_digits_of(chars@.take(i as int)),
            all_hex_digits(out@),
        decreases chars.len() - i,
    {
        let c = chars[i];
        if is_hex_char(c) {
            out.push(c);
        }
        i += 1;
        proof {
            reveal(Seq::filter);
            assert(chars@.take(i as int).drop_last() =~= chars@.take(i - 1));
        }
    }
    assert(chars@.take(i as int) =~= chars@);
    out
}

/// The decimal digits of `s`, in order.
pub fn keep_digits(s: &str) -> (r: Vec<char>)
    ensures
        r@ == digits_of(s@),
        all_digits(r@),
{
    let chars = chars_of(s);
    let mut out: Vec<char> = Vec::new();
    let mut i: usize = 0;
    proof {
        reveal(Seq::filter);
    }
    while i < chars.len()
        invariant
            i <= chars@.len(),
            out@ == digits_of(chars@.take(i as int)),
            all_digits(out@),
        decreases chars.len() - i,
    {
        let c = chars[i];
        if is_digit_char(c) {
            out.push(c);
        }
        i += 1;
        proof {
            reveal(Seq::filter);
            assert(chars@.take(i as int).drop_last() =~= chars@.take(i - 1));
        }
    }
    assert(chars@.take(i as int) =~= chars@);
    out
}

proof fn lemma_numeral_prefix_le(s: Seq<char>, i: int, radix: nat)
    requires
        0 <= i <= s.len(),
        radix >= 1,
    ensures
        numeral_value(s.take(i), radix) <= numeral_value(s, radix),
    decreases s.len() - i,
{
    if i == s.len() {
        assert(s.take(i) =~= s);
    } else {
        lemma_numeral_prefix_le(s, i + 1, radix);
        assert(s.take(i + 1).drop_last() =~= s.take(i));
        let v = numeral_value(s.take(i), radix) as int;
        let r = radix as int;
        assert(v * r >= v) by (nonlinear_arith)
            requires
                v >= 0,
                r >= 1,
        ;
    }
}

/// Reads an unsigned decimal number no greater than `max`.
pub fn parse_decimal(s: &[char], max: u64) -> (r: Option<u64>)
    ensures
        match r {
            Some(v) => parse_decimal_spec(s@, max as nat) == Some(v as nat),
            None => parse_decimal_spec(s@, max as nat) is None,
        },
{
    let mut i: usize = 0;
    if s.len() > 0 && s[0] == '+' {
        i = 1;
    }
    let start: usize = i;
    let ghost d = strip_plus(s@);
    assert(d =~= s@.skip(start as int));
    if i >= s.len() {
        return None;
    }
    let mut acc: u64 = 0;
    while i < s.len()
        invariant
            start <= i <= s@.len(),
            d == s@.skip(start as int),
            d == strip_plus(s@),
            d.len() > 0,
            forall|j: int| 0 <= j < i - start ==> is_digit(#[trigger] d[j]),
            acc == numeral_value(d.take(i - start), 10),
            acc <= max,
        decreases s.len() - i,
    {
        let c = s[i];
        assert(d[i - start] == c);
        if !is_digit_char(c) {
            return None;
        }
        let v: u8 = hex_char_value(c);
        let ghost k = i - start;
        proof {
            assert(d.take(k + 1).drop_last() =~= d.take(k));
            assert(d.take(k + 1).last() == c);
            lemma_numeral_prefix_le(d, k + 1, 10);
        }
        let next: u128 = acc as u128 * 10 + v as u128;
        if next > max as u128 {
            return None;
        }
        acc = next as u64;
        i += 1;
    }
    assert(d.take(i - start) =~= d);
    Some(acc)
}

/// Reading a hexadecimal number no greater than `max`, of digits alone.
pub open spec fn parse_hex_spec(s: Seq<char>, max: nat) -> Option<nat> {
    if s.len() > 0 && all_hex_digits(s) && numeral_value(s, 16) <= max {
        Some(numeral_value(s, 16))
    } else {
        None
    }
}

/// Reads the characters from `from` to `to` as a hexadecimal number no greater than `max`.
pub fn parse_hex(s: &[char], from: usize, to: usize, max: u64) -> (r: Option<u64>)
    requires
        from <= to <= s@.len(),
    ensures
        match r {
            Some(v) => parse_hex_spec(s@.subrange(from as int, to as int), max as nat) == Some(
                v as nat,
            ),
            None => parse_hex_spec(s@.subrange(from as int, to as int), max as nat) is None,
        },
{
    let ghost d = s@.subrange(from as int, to as int);
    if from == to {
        return None;
    }
    let mut acc: u64 = 0;
    let mut i: usize = from;
    while i < to
        invariant
            from <= i <= to <= s@.len(),
            d == s@.subrange(from as int, to as int),
            d.len() > 0,
            forall|j: int| 0 <= j < i - from ==> is_hex_digit(#[trigger] d[j]),
            acc == numeral_value(d.take(i - from), 16),
            acc <= max,
        decreases to - i,
    {
        let c = s[i];
        assert(d[i - from] == c);
        if !is_hex_char(c) {
            return None;
        }
        let v: u8 = hex_char_value(c);
        let ghost k = i - from;
        proof {
            assert(d.take(k + 1).drop_last() =~= d.take(k));
            assert(d.take(k + 1).last() == c);
            lemma_numeral_prefix_le(d, k + 1, 16);
        }
        let next: u128 = acc as u128 * 16 + v as u128;
        if next > max as u128 {
            return None;
        }
        acc = next as u64;
        i += 1;
    }
    assert(d.take(i - from) =~= d);
    Some(acc)
}

/// Whether `needle` stands in `s` at position `at`.
pub fn stands_at(s: &[char], needle: &[char], at: usize) -> (r: bool)
    requires
        at <= s@.len(),
    ensures
        r == occurs_at(s@, needle@, at as int),
{
    if needle.len() > s.len() - at {
        return false;
    }
    let mut j: usize = 0;
    while j < needle.len()
        invariant
            j <= needle@.len(),
            at + needle@.len() <= s.len(),
            forall|k: int| 0 <= k < j ==> s@[at + k] == needle@[k],
        decreases needle.len() - j,
    {
        if s[at + j] != needle[j] {
            assert(s@.subrange(at as int, at + needle@.len())[j as int] != needle@[j as int]);
            return false;
        }
        j += 1;
    }
    assert(s@.subrange(at as int, at + needle@.len()) =~= needle@);
    true
}

/// Whether `needle` stands somewhere in `s`.
pub fn has_text(s: &[char], needle: &[char]) -> (r: bool)
    ensures
        r == contains_text(s@, needle@),
{
    let mut i: usize = 0;
    while i < s.len()
        invariant
            i <= s@.len(),
            forall|k: int| 0 <= k < i ==> !occurs_at(s@, needle@, k),
        decreases s.len() - i,
    {
        if stands_at(s, needle, i) {
            assert(occurs_at(s@, needle@, i as int));
            return true;
        }
        i += 1;
    }
    let last = stands_at(s, needle, i);
    assert(last ==> occurs_at(s@, needle@, i as int));
    last
}

pub fn has_suffix(s: &[char], suffix: &[char]) -> (r: bool)
    ensures
        r == ends_with_text(s@, suffix@),
{
    if suffix.len() > s.len() {
        return false;
    }
    let at: usize = s.len() - suffix.len();
    let r = stands_at(s, suffix, at);
    assert(s@.skip(at as int) =~= s@.subrange(at as int, at + suffix@.len()));
    r
}

/// ASCII lower case of one character.
pub fn to_lower_char(c: char) -> (r: char)
    ensures
        r == lower_char(c),
{
    if 'A' <= c && c <= 'Z' {
        let b: u8 = (c as u32) as u8;
        (b + 32) as char
    } else {
        c
    }
}

/// ASCII lower case of a text.
pub fn to_ascii_lower(s: &[char]) -> (r: Vec<char>)
    ensures
        r@ == ascii_lower(s@),
{
    let mut out: Vec<char> = Vec::new();
    let mut i: usize = 0;
    while i < s.len()
        invariant
            i <= s@.len(),
            out@ == ascii_lower(s@).take(i as int),
        decreases s.len() - i,
    {
        out.push(to_lower_char(s[i]));
        i += 1;
        assert(out@ =~= ascii_lower(s@).take(i as int));
    }
    assert(out@ =~= ascii_lower(s@));
    out
}

/// Length of `s` without the run of `c` at its end.
pub fn trimmed_len(s: &[char], c: char) -> (r: usize)
    ensures
        r <= s@.len(),
        s@.take(r as int) == trim_end_char(s@, c),
{
    let mut n: usize = s.len();
    assert(s@.take(n as int) =~= s@);
    while n > 0 && s[n - 1] == c
        invariant
            n <= s@.len(),
            trim_end_char(s@.take(n as int), c) == trim_end_char(s@, c),
        decreases n,
    {
        assert(s@.take(n as int).drop_last() =~= s@.take(n - 1));
        assert(s@.take(n as int).last() == c);
        n -= 1;
    }
    n
}

/// Length of `s` without the copies of `suffix` at its end.
pub fn trimmed_len_text(s: &[char], suffix: &[char]) -> (r: usize)
    ensures
        r <= s@.len(),
        s@.take(r as int) == trim_end_text(s@, suffix@),
{
    let mut n: usize = s.len();
    let k: usize = suffix.len();
    assert(s@.take(n as int) =~= s@);
    if k == 0 {
        return n;
    }
    while n >= k && ends_here(s, suffix, n)
        invariant
            k == suffix@.len(),
            k > 0,
            n <= s@.len(),
            trim_end_text(s@.take(n as int), suffix@) == trim_end_text(s@, suffix@),
        decreases n,
    {
        proof {
            let t = s@.take(n as int);
            assert(t.skip(n - k) =~= s@.subrange(n - k, n as int));
            assert(t.take(t.len() - k) =~= s@.take(n - k));
        }
        n -= k;
    }
    proof {
        let t = s@.take(n as int);
        if n >= k {
            assert(t.skip(n - k) =~= s@.subrange(n - k, n as int));
        }
    }
    n
}

fn ends_here(s: &[char], suffix: &[char], n: usize) -> (r: bool)
    requires
        suffix@.len() <= n <= s@.len(),
    ensures
        r == ends_with_text(s@.take(n as int), suffix@),
{
    let r = stands_at(s, suffix, n - suffix.len());
    proof {
        let t = s@.take(n as int);
        assert(t.skip(n - suffix@.len()) =~= s@.subrange(n - suffix@.len(), n as int));
    }
    r
}

/// Position of the first `c` in `s`, or the length of `s` when there is none.
pub fn index_of_char(s: &[char], c: char) -> (r: usize)
    ensures
        r == first_index(s@, c),
        r <= s@.len(),
        r < s@.len() ==> s@[r as int] == c,
        forall|j: int| 0 <= j < r ==> s@[j] != c,
{
    let mut i: usize = 0;
    assert(s@.skip(0) =~= s@);
    while i < s.len() && s[i] != c
        invariant
            i <= s@.len(),
            first_index(s@, c) == i + first_index(s@.skip(i as int), c),
            forall|j: int| 0 <= j < i ==> s@[j] != c,
        decreases s.len() - i,
    {
        assert(s@.skip(i as int).skip(1) =~= s@.skip(i + 1));
        i += 1;
    }
    i
}

/// Whether `a` comes before or equals `b` in code point order.
pub fn text_not_after(a: &[char], b: &[char]) -> (r: bool)
    ensures
        r == text_le(a@, b@),
{
    let mut i: usize = 0;
    assert(a@.skip(0) =~= a@);
    assert(b@.skip(0) =~= b@);
    while i < a.len()
        invariant
            i <= a@.len(),
            i <= b@.len(),
            text_le(a@, b@) == text_le(a@.skip(i as int), b@.skip(i as int)),
        decreases a.len() - i,
    {
        if i >= b.len() {
            return false;
        }
        if a[i] != b[i] {
            return a[i] < b[i];
        }
        assert(a@.skip(i as int).skip(1) =~= a@.skip(i + 1));
        assert(b@.skip(i as int).skip(1) =~= b@.skip(i + 1));
        i += 1;
    }
    true
}

/// The order on texts is total.
pub proof fn lemma_text_le_total(a: Seq<char>, b: Seq<char>)
    ensures
        text_le(a, b) || text_le(b, a),
    decreases a.len(),
{
    if a.len() > 0 && b.len() > 0 && a[0] == b[0] {
        lemma_text_le_total(a.skip(1), b.skip(1));
    }
}

/// The order on texts is transitive.
pub proof fn lemma_text_le_transitive(a: Seq<char>, b: Seq<char>, c: Seq<char>)
    requires
        text_le(a, b),
        text_le(b, c),
    ensures
        text_le(a, c),
    decreases a.len(),
{
    if a.len() > 0 && b.len() > 0 && c.len() > 0 && a[0] == b[0] && b[0] == c[0] {
        lemma_text_le_transitive(a.skip(1), b.skip(1), c.skip(1));
    }
}

/// The characters of an optional text.
pub open spec fn view_text(s: Option<String>) -> Option<Seq<char>> {
    match s {
        Some(t) => Some(t@),
        None => None,
    }
}

/// A copy of an optional text.
pub fn owned_opt(s: &Option<String>) -> (r: Option<String>)
    ensures
        view_text(r) == view_text(*s),
{
    match s {
        Some(t) => Some(owned(t.as_str())),
        None => None,
    }
}

/// Prefixes no numeral with a zero: a numeral longer than one digit starts with another digit.
pub proof fn lemma_decimal_digits(n: nat)
    ensures
        decimal(n).len() >= 1,
        all_digits(decimal(n)),
        numeral_value(decimal(n), 10) == n,
    decreases n,
{
    reveal_with_fuel(numeral_value, 2);
    if n >= 10 {
        lemma_decimal_digits(n / 10);
        assert(decimal(n).drop_last() =~= decimal(n / 10));
    } else {
        assert(decimal(n).drop_last() =~= Seq::<char>::empty());
    }
}

proof fn lemma_hex_bound(s: Seq<char>)
    ensures
        numeral_value(s, 16) < vstd::arithmetic::power::pow(16, s.len()),
    decreases s.len(),
{
    if s.len() == 0 {
        vstd::arithmetic::power::lemma_pow0(16);
    } else {
        lemma_hex_bound(s.drop_last());
        reveal(vstd::arithmetic::power::pow);
    }
}

proof fn lemma_pow16(n: nat)
    requires
        n <= 12,
    ensures
        vstd::arithmetic::power::pow(16, n) <= 281474976710656,
        n <= 8 ==> vstd::arithmetic::power::pow(16, n) <= 4294967296,
{
    reveal_with_fuel(vstd::arithmetic::power::pow, 13);
}

/// The number that the first `n` characters spell in hexadecimal, for up to twelve of them.
pub fn hex_number(s: &[char], n: usize) -> (r: u64)
    requires
        n <= s@.len(),
        n <= 12,
    ensures
        r == numeral_value(s@.take(n as int), 16),
        r < 281474976710656,
        n <= 8 ==> r < 4294967296,
{
    let mut v: u64 = 0;
    let mut i: usize = 0;
    while i < n
        invariant
            i <= n <= s@.len(),
            n <= 12,
            v == numeral_value(s@.take(i as int), 16),
        decreases n - i,
    {
        proof {
            lemma_hex_bound(s@.take(i as int));
            lemma_pow16(i as nat);
            assert(s@.take(i + 1).drop_last() =~= s@.take(i as int));
        }
        v = v * 16 + hex_char_value(s[i]) as u64;
        i += 1;
    }
    proof {
        lemma_hex_bound(s@.take(n as int));
        lemma_pow16(n as nat);
    }
    v
}

/// A text with its ASCII letters small.
pub fn lowered(s: &str) -> (r: String)
    ensures
        r@ == ascii_lower(s@),
{
    let chars = chars_of(s);
    string_of(&to_ascii_lower(&chars))
}

/// The UTF-8 bytes of a text.
pub open spec fn utf8(s: Seq<char>) -> Seq<u8> {
    vstd::utf8::encode_utf8(s)
}

/// The UTF-8 bytes of a text.
pub fn utf8_bytes(s: &str) -> (r: Vec<u8>)
    ensures
        r@ == utf8(s@),
{
    crate::bytes::to_vec(s.as_bytes())
}

/// `label` followed by the decimal numeral of `n`.
pub fn numbered(label: &str, n: u64) -> (r: String)
    ensures
        r@ == label@ + decimal(n as nat),
{
    let mut s = owned(label);
    push_decimal(&mut s, n);
    s
}

/// A number that was written in digits reads back, with or without a plus sign before it, where
/// the limit admits it; a larger one does not read.
pub proof fn law_decimal_reads_back(n: nat, max: nat)
    ensures
        n <= max ==> parse_decimal_spec(decimal(n), max) == Some(n),
        n <= max ==> parse_decimal_spec(seq!['+'] + decimal(n), max) == Some(n),
        n > max ==> parse_decimal_spec(decimal(n), max) is None,
{
    lemma_decimal_digits(n);
    let d = decimal(n);
    assert(is_digit(d[0]));
    assert(strip_plus(d) == d);
    assert((seq!['+'] + d).skip(1) =~= d);
}

/// A digit more makes the number ten times, or sixteen times, as large and adds the digit.
pub proof fn law_numeral_grows(s: Seq<char>, c: char)
    ensures
        numeral_value(Seq::empty(), 10) == 0,
        numeral_value(Seq::empty(), 16) == 0,
        '0' <= c && c <= '9' ==> numeral_value(s.push(c), 10) == numeral_value(s, 10) * 10 + (c as int
            - 48),
        '0' <= c && c <= '9' ==> numeral_value(s.push(c), 16) == numeral_value(s, 16) * 16 + (c as int
            - 48),
        'a' <= c && c <= 'f' ==> numeral_value(s.push(c), 16) == numeral_value(s, 16) * 16 + 10 + (
        c as int - 97),
        'A' <= c && c <= 'F' ==> numeral_value(s.push(c), 16) == numeral_value(s, 16) * 16 + 10 + (
        c as int - 65),
{
    assert(s.push(c).drop_last() =~= s);
}

/// Nothing but digits reads as a number: a text with any other character does not, save a plus
/// sign in front of a decimal one, and neither does an empty text.
pub proof fn law_only_digits_read(s: Seq<char>, i: int, max: nat)
    requires
        0 <= i < s.len(),
    ensures
        parse_decimal_spec(Seq::empty(), max) is None,
        parse_hex_spec(Seq::empty(), max) is None,
        !('0' <= s[i] && s[i] <= '9') && !(i == 0 && s[0] == '+') ==> parse_decimal_spec(
            s,
            max,
        ) is None,
        !('0' <= s[i] && s[i] <= '9') && !('a' <= s[i] && s[i] <= 'f') && !('A' <= s[i] && s[i]
            <= 'F') ==> parse_hex_spec(s, max) is None,
{
    let d = strip_plus(s);
    if s[0] == '+' && i > 0 {
        assert(d[i - 1] == s[i]);
    } else if s[0] != '+' {
        assert(d[i] == s[i]);
    }
}

/// Small letters: each of the letters A to Z becomes the one that is 32 further on, every other
/// character stays, and nothing changes a second time.
pub proof fn law_small_letters(s: Seq<char>)
    ensures
        ascii_lower(s).len() == s.len(),
        forall|i: int|
            0 <= i < s.len() ==> (#[trigger] ascii_lower(s)[i]) as int == s[i] as int + (if 65
                <= s[i] as int <= 90 {
                32int
            } else {
                0
            }),
        ascii_lower(ascii_lower(s)) == ascii_lower(s),
{
    assert(ascii_lower(ascii_lower(s)) =~= ascii_lower(s));
}

/// A text is found wherever it stands in another, is a prefix of what is put behind it and a
/// suffix of what is put before it; what is found stands there character by character.
pub proof fn law_texts_are_found(before: Seq<char>, needle: Seq<char>, behind: Seq<char>)
    ensures
        contains_text(before + needle + behind, needle),
        starts_with_text(needle + behind, needle),
        ends_with_text(before + needle, needle),
        starts_with_text(before, needle) <==> needle.len() <= before.len() && forall|k: int|
            0 <= k < needle.len() ==> #[trigger] before[k] == needle[k],
        ends_with_text(before, needle) <==> needle.len() <= before.len() && forall|k: int|
            0 <= k < needle.len() ==> #[trigger] needle[k] == before[before.len() - needle.len()
                + k],
        contains_text(before, needle) ==> exists|a: Seq<char>, b: Seq<char>|
            before == #[trigger] (a + needle + b),
{
    let all = before + needle + behind;
    assert(all.subrange(before.len() as int, (before.len() + needle.len()) as int) =~= needle);
    assert(occurs_at(all, needle, before.len() as int));
    assert((needle + behind).take(needle.len() as int) =~= needle);
    assert((before + needle).skip(before.len() as int) =~= needle);
    if needle.len() <= before.len() {
        let head = before.take(needle.len() as int);
        let tail = before.skip(before.len() - needle.len());
        if head == needle {
            assert forall|k: int| 0 <= k < needle.len() implies #[trigger] before[k] == needle[k] by {
                assert(head[k] == before[k]);
            }
        }
        if forall|k: int| 0 <= k < needle.len() ==> #[trigger] before[k] == needle[k] {
            assert(head =~= needle);
        }
        if tail == needle {
            assert forall|k: int| 0 <= k < needle.len() implies #[trigger] needle[k]
                == before[before.len() - needle.len() + k] by {
                assert(tail[k] == needle[k]);
            }
        }
        if forall|k: int|
            0 <= k < needle.len() ==> #[trigger] needle[k] == before[before.len() - needle.len()
                + k] {
            assert(tail =~= needle);
        }
    }
    if contains_text(before, needle) {
        let i = choose|i: int| occurs_at(before, needle, i);
        let (a, b) = (before.take(i), before.skip(i + needle.len()));
        let found = before.subrange(i, i + needle.len());
        assert(before =~= a + found + b);
        assert(before == a + needle + b);
    }
}

/// What is left of a text without its final characters `c` does not end in `c`, and is the text
/// but for those.
pub proof fn law_final_characters_go(s: Seq<char>, c: char)
    ensures
        ({
            let r = trim_end_char(s, c);
            &&& r.len() <= s.len()
            &&& r == s.take(r.len() as int)
            &&& r.len() > 0 ==> r.last() != c
            &&& forall|k: int| r.len() <= k < s.len() ==> #[trigger] s[k] == c
        }),
    decreases s.len(),
{
    if s.len() > 0 && s.last() == c {
        let rest = s.drop_last();
        law_final_characters_go(rest, c);
        let r = trim_end_char(s, c);
        assert(r =~= s.take(r.len() as int));
        assert forall|k: int| r.len() <= k < s.len() implies #[trigger] s[k] == c by {
            if k < rest.len() {
                assert(rest[k] == s[k]);
            }
        }
    } else {
        assert(s.take(s.len() as int) =~= s);
    }
}

/// A final text goes as often as it stands there: once where what is before it does not end in it.
pub proof fn law_final_text_goes(s: Seq<char>, suffix: Seq<char>)
    requires
        suffix.len() > 0,
    ensures
        trim_end_text(s + suffix, suffix) == trim_end_text(s, suffix),
        !ends_with_text(s, suffix) ==> trim_end_text(s, suffix) == s,
{
    assert((s + suffix).skip(s.len() as int) =~= suffix);
    assert((s + suffix).take(s.len() as int) =~= s);
}

/// The first of a character is where it stands and where none stands before.
pub proof fn law_first_index(s: Seq<char>, c: char)
    ensures
        0 <= first_index(s, c) <= s.len(),
        first_index(s, c) < s.len() ==> s[first_index(s, c)] == c,
        forall|k: int| 0 <= k < first_index(s, c) ==> #[trigger] s[k] != c,
    decreases s.len(),
{
    if s.len() > 0 && s[0] != c {
        let rest = s.skip(1);
        law_first_index(rest, c);
        assert(first_index(s, c) < s.len() ==> s[first_index(s, c)] == rest[first_index(rest, c)]);
        assert forall|k: int| 0 <= k < first_index(s, c) implies #[trigger] s[k] != c by {
            if k > 0 {
                assert(rest[k - 1] == s[k]);
            }
        }
    }
}

/// Of a character more, the digits are kept and everything else is left out, in order.
pub proof fn law_digits_are_kept(s: Seq<char>, c: char)
    ensures
        digits_of(Seq::empty()).len() == 0,
        hex_digits_of(Seq::empty()).len() == 0,
        '0' <= c && c <= '9' ==> digits_of(s.push(c)) == digits_of(s).push(c),
        !('0' <= c && c <= '9') ==> digits_of(s.push(c)) == digits_of(s),
        ('0' <= c && c <= '9') || ('a' <= c && c <= 'f') || ('A' <= c && c <= 'F')
            ==> hex_digits_of(s.push(c)) == hex_digits_of(s).push(c),
        !('0' <= c && c <= '9') && !('a' <= c && c <= 'f') && !('A' <= c && c <= 'F')
            ==> hex_digits_of(s.push(c)) == hex_digits_of(s),
{
    reveal(Seq::filter);
    assert(s.push(c).drop_last() =~= s);
}

/// The order of texts: two texts that are not after each other are the same, a text is not after
/// what begins with it, and the first difference decides.
pub proof fn law_order_of_texts(a: Seq<char>, b: Seq<char>, head: Seq<char>)
    ensures
        text_le(a, b) && text_le(b, a) ==> a == b,
        text_le(head, head + a),
        text_le(head + a, head + b) == text_le(a, b),
        a.len() > 0 && b.len() > 0 && a[0] != b[0] ==> text_le(a, b) == (a[0] < b[0]),
        a.len() > 0 ==> !text_le(a, Seq::empty()),
    decreases a.len() + head.len(),
{
    if a.len() > 0 && b.len() > 0 && a[0] == b[0] {
        law_order_of_texts(a.skip(1), b.skip(1), Seq::empty());
        if text_le(a, b) && text_le(b, a) {
            assert(a =~= seq![a[0]] + a.skip(1));
            assert(b =~= seq![b[0]] + b.skip(1));
        }
    } else if text_le(a, b) && text_le(b, a) {
        assert(a =~= b);
    }
    if head.len() == 0 {
        assert(head + a =~= a);
        assert(head + b =~= b);
    } else {
        law_order_of_texts(a, b, head.skip(1));
        assert((head + a).skip(1) =~= head.skip(1) + a);
        assert((head + b).skip(1) =~= head.skip(1) + b);
        assert((head + a)[0] == head[0] && (head + b)[0] == head[0]);
    }
}
/// Every text of nothing but digits reads as the number that it spells, whatever zeros it begins
/// with, where the limit admits it.
pub proof fn law_digits_read(s: Seq<char>, max: nat)
    requires
        s.len() > 0,
    ensures
        (forall|k: int| 0 <= k < s.len() ==> '0' <= #[trigger] s[k] && s[k] <= '9')
            && numeral_value(s, 10) <= max ==> parse_decimal_spec(s, max) == Some(
            numeral_value(s, 10),
        ),
        (forall|k: int|
            0 <= k < s.len() ==> ('0' <= #[trigger] s[k] && s[k] <= '9') || ('a' <= s[k] && s[k]
                <= 'f') || ('A' <= s[k] && s[k] <= 'F')) && numeral_value(s, 16) <= max
            ==> parse_hex_spec(s, max) == Some(numeral_value(s, 16)),
        numeral_value(s, 16) > max ==> parse_hex_spec(s, max) is None,
{
    if forall|k: int| 0 <= k < s.len() ==> '0' <= #[trigger] s[k] && s[k] <= '9' {
        assert(s[0] != '+');
        assert(all_digits(s));
    }
    if forall|k: int|
        0 <= k < s.len() ==> ('0' <= #[trigger] s[k] && s[k] <= '9') || ('a' <= s[k] && s[k] <= 'f')
            || ('A' <= s[k] && s[k] <= 'F') {
        assert(all_hex_digits(s));
    }
}
} // verus!
