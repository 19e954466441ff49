//! The text form of IPv6 addresses.

use crate::text;
use vstd::prelude::*;

verus! {

/// A group of an address: one to four hexadecimal digits.
pub open spec fn is_group(s: Seq<char>) -> bool {
    1 <= s.len() <= 4 && forall|i: int| 0 <= i < s.len() ==> text::is_hex_digit(#[trigger] s[i])
}

/// A byte of an IPv4 address: a decimal number up to 255 without a zero in front.
pub open spec fn is_octet(s: Seq<char>) -> bool {
    &&& 1 <= s.len() <= 3
    &&& forall|i: int| 0 <= i < s.len() ==> text::is_digit(#[trigger] s[i])
    &&& s[0] == '0' ==> s.len() == 1
    &&& s.len() == 3 ==> (s[0] as int - 48) * 100 + (s[1] as int - 48) * 10 + (s[2] as int - 48)
        <= 255
}

/// `n` bytes of an IPv4 address with dots between them.
pub open spec fn is_dotted(s: Seq<char>, n: nat) -> bool
    decreases n,
{
    let dot = text::first_index(s, '.');
    if n == 0 {
        false
    } else if n == 1 {
        is_octet(s)
    } else {
        dot < s.len() && is_octet(s.take(dot as int)) && is_dotted(
            s.skip(dot + 1),
            (n - 1) as nat,
        )
    }
}

/// The number of groups of a list with colons between them, up to `most`: an IPv4 address, which
/// may stand last where `dotted` says so, counts as two.
pub open spec fn group_count(s: Seq<char>, dotted: bool, most: nat) -> Option<nat>
    decreases most,
{
    let colon = text::first_index(s, ':');
    if most == 0 {
        None
    } else if colon >= s.len() {
        if is_group(s) {
            Some(1)
        } else if dotted && most >= 2 && is_dotted(s, 4) {
            Some(2)
        } else {
            None
        }
    } else if is_group(s.take(colon as int)) {
        match group_count(s.skip(colon + 1), dotted, (most - 1) as nat) {
            Some(n) => Some(n + 1),
            None => None,
        }
    } else {
        None
    }
}

/// As `group_count`, where the list may be empty.
pub open spec fn side_count(s: Seq<char>, dotted: bool) -> Option<nat> {
    if s.len() == 0 {
        Some(0)
    } else {
        group_count(s, dotted, 7)
    }
}

/// Whether a double colon stands at `k` for at least one group of zeros.
pub open spec fn is_shortened(s: Seq<char>, k: int) -> bool {
    &&& 0 <= k && k + 2 <= s.len()
    &&& s[k] == ':' && s[k + 1] == ':'
    &&& side_count(s.take(k), false) matches Some(a) && side_count(s.skip(k + 2), true) matches Some(
        b,
    ) && a + b <= 7
}

/// Whether a text is an IPv6 address: eight groups, or fewer with a double colon between them.
pub open spec fn is_ipv6(s: Seq<char>) -> bool {
    group_count(s, true, 8) == Some(8nat) || exists|k: int| #[trigger] is_shortened(s, k)
}

fn part(s: &[char], from: usize, to: usize) -> (r: Vec<char>)
    requires
        from <= to <= s@.len(),
    ensures
        r@ == s@.subrange(from as int, to as int),
{
    let mut out: Vec<char> = Vec::new();
    let mut i: usize = from;
    while i < to
        invariant
            from <= i <= to <= s@.len(),
            out@ == s@.subrange(from as int, i as int),
        decreases to - i,
    {
        out.push(s[i]);
        i += 1;
        assert(out@ =~= s@.subrange(from as int, i as int));
    }
    out
}

fn group_ok(s: &[char]) -> (r: bool)
    ensures
        r == is_group(s@),
{
    if s.len() < 1 || s.len() > 4 {
        return false;
    }
    let mut i: usize = 0;
    while i < s.len()
        invariant
            i <= s@.len(),
            forall|j: int| 0 <= j < i ==> text::is_hex_digit(#[trigger] s@[j]),
        decreases s.len() - i,
    {
        if !text::is_hex_char(s[i]) {
            return false;
        }
        i += 1;
    }
    true
}

fn octet_ok(s: &[char]) -> (r: bool)
    ensures
        r == is_octet(s@),
{
    if s.len() < 1 || s.len() > 3 {
        return false;
    }
    let mut value: u32 = 0;
    let mut i: usize = 0;
    while i < s.len()
        invariant
            i <= s@.len() <= 3,
            forall|j: int| 0 <= j < i ==> text::is_digit(#[trigger] s@[j]),
            i == 0 ==> value == 0,
            i == 1 ==> value == s@[0] as int - 48,
            i == 2 ==> value == (s@[0] as int - 48) * 10 + (s@[1] as int - 48),
            i == 3 ==> value == (s@[0] as int - 48) * 100 + (s@[1] as int - 48) * 10 + (
            s@[2] as int - 48),
            value <= 999,
            i == 1 ==> value <= 9,
            i == 2 ==> value <= 99,
        decreases s.len() - i,
    {
        let c = s[i];
        if !text::is_digit_char(c) {
            return false;
        }
        value = value * 10 + (c as u32 - 48);
        i += 1;
    }
    (s[0] != '0' || s.len() == 1) && value <= 255
}

fn dotted_ok(s: &[char], n: u8) -> (r: bool)
    ensures
        r == is_dotted(s@, n as nat),
    decreases n,
{
    if n == 0 {
        return false;
    }
    if n == 1 {
        return octet_ok(s);
    }
    let dot: usize = text::index_of_char(s, '.');
    if dot >= s.len() {
        return false;
    }
    let front = part(s, 0, dot);
    let back = part(s, dot + 1, s.len());
    assert(front@ =~= s@.take(dot as int));
    assert(back@ =~= s@.skip(dot + 1));
    octet_ok(&front) && dotted_ok(&back, n - 1)
}

fn count_groups(s: &[char], dotted: bool, most: u8) -> (r: Option<u8>)
    ensures
        (match r {
            Some(n) => Some(n as nat),
            None => None,
        }) == group_count(s@, dotted, most as nat),
        r matches Some(n) ==> n <= most,
    decreases most,
{
    if most == 0 {
        return None;
    }
    let colon: usize = text::index_of_char(s, ':');
    if colon >= s.len() {
        if group_ok(s) {
            return Some(1);
        }
        if dotted && most >= 2 && dotted_ok(s, 4) {
            return Some(2);
        }
        return None;
    }
    let front = part(s, 0, colon);
    assert(front@ =~= s@.take(colon as int));
    if !group_ok(&front) {
        return None;
    }
    let back = part(s, colon + 1, s.len());
    assert(back@ =~= s@.skip(colon + 1));
    match count_groups(&back, dotted, most - 1) {
        Some(n) => Some(n + 1),
        None => None,
    }
}

fn count_side(s: &[char], dotted: bool) -> (r: Option<u8>)
    ensures
        (match r {
            Some(n) => Some(n as nat),
            None => None,
        }) == side_count(s@, dotted),
        r matches Some(n) ==> n <= 7,
{
    if s.len() == 0 {
        Some(0)
    } else {
        count_groups(s, dotted, 7)
    }
}

fn shortened_at(s: &[char], k: usize) -> (r: bool)
    requires
        k < s@.len(),
    ensures
        r == is_shortened(s@, k as int),
{
    if s.len() - k < 2 || s[k] != ':' || s[k + 1] != ':' {
        return false;
    }
    let front = part(s, 0, k);
    let back = part(s, k + 2, s.len());
    assert(front@ =~= s@.take(k as int));
    assert(back@ =~= s@.skip(k + 2));
    match (count_side(&front, false), count_side(&back, true)) {
        (Some(a), Some(b)) => a + b <= 7,
        _ => false,
    }
}

/// Whether a text is an IPv6 address.
pub fn reads_as_ipv6(s: &[char]) -> (r: bool)
    ensures
        r == is_ipv6(s@),
{
    if let Some(8) = count_groups(s, true, 8) {
        return true;
    }
    let mut k: usize = 0;
    while k < s.len()
        invariant
            k <= s@.len(),
            group_count(s@, true, 8) != Some(8nat),
            forall|j: int| j < k ==> !#[trigger] is_shortened(s@, j),
        decreases s.len() - k,
    {
        if shortened_at(s, k) {
            assert(is_shortened(s@, k as int));
            return true;
        }
        k += 1;
    }
    false
}

/// Eight groups with colons between them are an IPv6 address.
pub proof fn law_eight_groups(groups: Seq<Seq<char>>)
    requires
        groups.len() == 8,
        forall|k: int| 0 <= k < groups.len() ==> is_group(#[trigger] groups[k]),
    ensures
        is_ipv6(joined(groups)),
{
    lemma_joined(groups, true, 8);
}

/// Groups around two colons, seven at most, are an IPv6 address.
pub proof fn law_groups_around_two_colons(front: Seq<Seq<char>>, back: Seq<Seq<char>>)
    requires
        front.len() + back.len() <= 7,
        forall|k: int| 0 <= k < front.len() ==> is_group(#[trigger] front[k]),
        forall|k: int| 0 <= k < back.len() ==> is_group(#[trigger] back[k]),
    ensures
        is_ipv6(joined(front) + seq![':', ':'] + joined(back)),
{
    let a = joined(front);
    let b = joined(back);
    let s = a + seq![':', ':'] + b;
    let k = a.len() as int;
    assert(s.take(k) =~= a);
    assert(s.skip(k + 2) =~= b);
    lemma_joined_len(front);
    lemma_joined_len(back);
    if front.len() > 0 {
        lemma_joined(front, false, 7);
    }
    if back.len() > 0 {
        lemma_joined(back, true, 7);
    }
    assert(is_shortened(s, k));
}

/// A text with a character that is no hexadecimal digit, no colon and no dot is no IPv6 address.
pub proof fn law_foreign_characters(s: Seq<char>, i: int)
    requires
        0 <= i < s.len(),
        !text::is_hex_digit(s[i]),
        s[i] != ':',
        s[i] != '.',
    ensures
        !is_ipv6(s),
{
    lemma_foreign(s, i, true, 8);
    assert forall|k: int| !(#[trigger] is_shortened(s, k)) by {
        if is_shortened(s, k) {
            if i < k {
                assert(s.take(k)[i] == s[i]);
                lemma_foreign(s.take(k), i, false, 7);
            } else {
                assert(i >= k + 2);
                assert(s.skip(k + 2)[i - k - 2] == s[i]);
                lemma_foreign(s.skip(k + 2), i - k - 2, true, 7);
            }
        }
    }
}

/// Groups with colons between them.
pub open spec fn joined(groups: Seq<Seq<char>>) -> Seq<char>
    decreases groups.len(),
{
    if groups.len() == 0 {
        Seq::empty()
    } else if groups.len() == 1 {
        groups[0]
    } else {
        groups[0] + seq![':'] + joined(groups.skip(1))
    }
}

proof fn lemma_joined_len(groups: Seq<Seq<char>>)
    requires
        forall|k: int| 0 <= k < groups.len() ==> is_group(#[trigger] groups[k]),
    ensures
        (joined(groups).len() == 0) == (groups.len() == 0),
{
    if groups.len() > 0 {
        assert(is_group(groups[0]));
    }
}

proof fn lemma_joined(groups: Seq<Seq<char>>, dotted: bool, most: nat)
    requires
        0 < groups.len() <= most,
        forall|k: int| 0 <= k < groups.len() ==> is_group(#[trigger] groups[k]),
    ensures
        group_count(joined(groups), dotted, most) == Some(groups.len()),
    decreases groups.len(),
{
    let s = joined(groups);
    let g = groups[0];
    assert(is_group(g));
    text::law_first_index(s, ':');
    let i = text::first_index(s, ':');
    let n = g.len() as int;
    assert forall|k: int| 0 <= k < n implies s[k] != ':' by {
        assert(s[k] == g[k]);
        assert(text::is_hex_digit(g[k]));
    }
    if groups.len() == 1 {
        if i < s.len() {
            assert(s[i] != ':');
        }
    } else {
        let rest = groups.skip(1);
        assert(s[n] == ':');
        if n < i {
            assert(s[n] != ':');
        }
        if i < n {
            assert(s[i] != ':');
        }
        assert(s.take(n) =~= g);
        assert(s.skip(n + 1) =~= joined(rest));
        assert forall|k: int| 0 <= k < rest.len() implies is_group(#[trigger] rest[k]) by {
            assert(rest[k] == groups[k + 1]);
        }
        lemma_joined(rest, dotted, (most - 1) as nat);
    }
}

proof fn lemma_foreign_dotted(s: Seq<char>, i: int, n: nat)
    requires
        0 <= i < s.len(),
        !text::is_digit(s[i]),
        s[i] != '.',
    ensures
        !is_dotted(s, n),
    decreases n,
{
    text::law_first_index(s, '.');
    let d = text::first_index(s, '.');
    if n == 1 {
        if is_octet(s) {
            assert(text::is_digit(s[i]));
        }
    } else if n > 1 && d < s.len() {
        if i < d {
            if is_octet(s.take(d)) {
                assert(text::is_digit(s.take(d)[i]));
            }
        } else {
            assert(s.skip(d + 1)[i - d - 1] == s[i]);
            lemma_foreign_dotted(s.skip(d + 1), i - d - 1, (n - 1) as nat);
        }
    }
}

proof fn lemma_foreign(s: Seq<char>, i: int, dotted: bool, most: nat)
    requires
        0 <= i < s.len(),
        !text::is_hex_digit(s[i]),
        s[i] != ':',
        s[i] != '.',
    ensures
        group_count(s, dotted, most) is None,
    decreases most,
{
    text::law_first_index(s, ':');
    let c = text::first_index(s, ':');
    if most > 0 {
        if c >= s.len() {
            if is_group(s) {
                assert(text::is_hex_digit(s[i]));
            }
            lemma_foreign_dotted(s, i, 4);
        } else if i < c {
            if is_group(s.take(c)) {
                assert(text::is_hex_digit(s.take(c)[i]));
            }
        } else {
            assert(s.skip(c + 1)[i - c - 1] == s[i]);
            lemma_foreign(s.skip(c + 1), i - c - 1, dotted, (most - 1) as nat);
        }
    }
}
/// A number from 0 to 255, written without zeros in front, is one of the four of an IPv4 address,
/// and no larger one is.
pub proof fn law_octets(n: nat)
    ensures
        n <= 255 ==> is_octet(text::decimal(n)),
        255 < n < 1000 ==> !is_octet(text::decimal(n)),
{
    reveal_with_fuel(text::decimal, 4);
    let s = text::decimal(n);
    if n < 10 {
        assert(s =~= seq![text::digit_char(n)]);
    } else if n < 100 {
        assert(s =~= seq![text::digit_char(n / 10), text::digit_char(n % 10)]);
    } else if n < 1000 {
        assert(s =~= seq![
            text::digit_char(n / 100),
            text::digit_char(n / 10 % 10),
            text::digit_char(n % 10),
        ]);
        assert((n / 100) * 100 + (n / 10 % 10) * 10 + n % 10 == n);
    }
}

/// Four such numbers with dots between them may stand in place of the last two groups.
pub proof fn law_ends_in_four_numbers(
    groups: Seq<Seq<char>>,
    a: nat,
    b: nat,
    c: nat,
    d: nat,
)
    requires
        0 < groups.len() <= 5,
        forall|k: int| 0 <= k < groups.len() ==> is_group(#[trigger] groups[k]),
        a <= 255,
        b <= 255,
        c <= 255,
        d <= 255,
    ensures
        is_ipv6(
            seq![':', ':'] + joined(groups) + seq![':'] + text::decimal(a) + seq!['.']
                + text::decimal(b) + seq!['.'] + text::decimal(c) + seq!['.'] + text::decimal(d),
        ),
{
    let quad = text::decimal(a) + seq!['.'] + text::decimal(b) + seq!['.'] + text::decimal(c) + seq![
        '.',
    ] + text::decimal(d);
    let rest = joined(groups) + seq![':'] + quad;
    let s = seq![':', ':'] + joined(groups) + seq![':'] + text::decimal(a) + seq!['.']
        + text::decimal(b) + seq!['.'] + text::decimal(c) + seq!['.'] + text::decimal(d);
    assert(s =~= seq![':', ':'] + rest);
    assert(s.skip(2) =~= rest);
    assert(s.take(0) =~= Seq::empty());
    lemma_four_numbers(a, b, c, d);
    lemma_joined_quad(groups, quad, 7);
    assert(is_shortened(s, 0));
}

proof fn lemma_number_and_dot(n: nat, rest: Seq<char>, k: nat)
    requires
        n <= 255,
        k >= 2,
        is_dotted(rest, (k - 1) as nat),
    ensures
        is_dotted(text::decimal(n) + seq!['.'] + rest, k),
{
    law_octets(n);
    let x = text::decimal(n);
    text::lemma_decimal_digits(n);
    let s = x + seq!['.'] + rest;
    let m = x.len() as int;
    text::law_first_index(s, '.');
    let i = text::first_index(s, '.');
    assert(s[m] == '.');
    if i < m {
        assert(s[i] == x[i]);
        assert(text::is_digit(x[i]));
    }
    if m < i {
        assert(s[m] != '.');
    }
    assert(s.take(m) =~= x);
    assert(s.skip(m + 1) =~= rest);
}

proof fn lemma_four_numbers(a: nat, b: nat, c: nat, d: nat)
    requires
        a <= 255,
        b <= 255,
        c <= 255,
        d <= 255,
    ensures
        ({
            let q = text::decimal(a) + seq!['.'] + text::decimal(b) + seq!['.'] + text::decimal(c)
                + seq!['.'] + text::decimal(d);
            &&& is_dotted(q, 4)
            &&& !is_group(q)
            &&& q.len() > 0
            &&& forall|k: int| 0 <= k < q.len() ==> #[trigger] q[k] != ':'
        }),
{
    law_octets(d);
    text::lemma_decimal_digits(a);
    text::lemma_decimal_digits(b);
    text::lemma_decimal_digits(c);
    text::lemma_decimal_digits(d);
    let (w, x, y, z) = (text::decimal(a), text::decimal(b), text::decimal(c), text::decimal(d));
    let q3 = z;
    let q2 = y + seq!['.'] + q3;
    let q1 = x + seq!['.'] + q2;
    let q = w + seq!['.'] + x + seq!['.'] + y + seq!['.'] + z;
    lemma_number_and_dot(c, q3, 2);
    lemma_number_and_dot(b, q2, 3);
    lemma_number_and_dot(a, q1, 4);
    assert(q =~= w + seq!['.'] + q1);
    let n = w.len() as int;
    assert(q[n] == '.');
    assert(!text::is_hex_digit(q[n]));
    assert forall|k: int| 0 <= k < q.len() implies #[trigger] q[k] != ':' by {
        lemma_digit_or_dot(w, q1, k);
        if k > n {
            assert(q[k] == q1[k - n - 1]);
            let m = x.len() as int;
            lemma_digit_or_dot(x, q2, k - n - 1);
            if k - n - 1 > m {
                assert(q1[k - n - 1] == q2[k - n - 2 - m]);
                let l = y.len() as int;
                lemma_digit_or_dot(y, q3, k - n - 2 - m);
                if k - n - 2 - m > l {
                    assert(q2[k - n - 2 - m] == z[k - n - 3 - m - l]);
                    assert(text::is_digit(z[k - n - 3 - m - l]));
                }
            }
        }
    }
}

proof fn lemma_digit_or_dot(x: Seq<char>, rest: Seq<char>, k: int)
    requires
        text::all_digits(x),
        0 <= k < x.len() + 1 + rest.len(),
    ensures
        k <= x.len() ==> (x + seq!['.'] + rest)[k] != ':',
{
    if k < x.len() {
        assert((x + seq!['.'] + rest)[k] == x[k]);
        assert(text::is_digit(x[k]));
    }
}

proof fn lemma_joined_quad(groups: Seq<Seq<char>>, quad: Seq<char>, most: nat)
    requires
        0 < groups.len(),
        groups.len() + 2 <= most,
        forall|k: int| 0 <= k < groups.len() ==> is_group(#[trigger] groups[k]),
        is_dotted(quad, 4),
        !is_group(quad),
        forall|k: int| 0 <= k < quad.len() ==> #[trigger] quad[k] != ':',
    ensures
        group_count(joined(groups) + seq![':'] + quad, true, most) == Some(groups.len() + 2),
    decreases groups.len(),
{
    let s = joined(groups) + seq![':'] + quad;
    let g = groups[0];
    assert(is_group(g));
    let n = g.len() as int;
    text::law_first_index(s, ':');
    let i = text::first_index(s, ':');
    assert forall|k: int| 0 <= k < n implies s[k] != ':' by {
        assert(s[k] == g[k]);
        assert(text::is_hex_digit(g[k]));
    }
    assert(s[n] == ':');
    if n < i {
        assert(s[n] != ':');
    }
    if i < n {
        assert(s[i] != ':');
    }
    assert(s.take(n) =~= g);
    if groups.len() == 1 {
        assert(s.skip(n + 1) =~= quad);
        text::law_first_index(quad, ':');
        let j = text::first_index(quad, ':');
        if j < quad.len() {
            assert(quad[j] != ':');
        }
        assert(group_count(quad, true, (most - 1) as nat) == Some(2nat));
    } else {
        let rest = groups.skip(1);
        assert(s.skip(n + 1) =~= joined(rest) + seq![':'] + quad);
        assert forall|k: int| 0 <= k < rest.len() implies is_group(#[trigger] rest[k]) by {
            assert(rest[k] == groups[k + 1]);
        }
        lemma_joined_quad(rest, quad, (most - 1) as nat);
    }
}
} // verus!
