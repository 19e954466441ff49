//! Dates in property lists that are written as XML, and whether every clock can hold them.

use vstd::prelude::*;

verus! {

/// Blank space of XML.
pub open spec fn is_blank(b: u8) -> bool {
    b == 32 || b == 9 || b == 10 || b == 13
}

/// Whether a byte is a decimal digit.
pub open spec fn is_digit(b: u8) -> bool {
    48 <= b <= 57
}

/// Where the tag that is read at `j` closes: at the first `>` outside quotes. `quote` is the
/// quotation mark that is open, or zero.
pub open spec fn tag_close(data: Seq<u8>, j: int, quote: u8) -> int
    decreases data.len() - j,
{
    if j < 0 || j >= data.len() {
        data.len() as int
    } else if quote != 0 {
        tag_close(
            data,
            j + 1,
            if data[j] == quote {
                0
            } else {
                quote
            },
        )
    } else if data[j] == 62 {
        j
    } else {
        tag_close(
            data,
            j + 1,
            if data[j] == 34 || data[j] == 39 {
                data[j]
            } else {
                0
            },
        )
    }
}

/// The first blank from `j` on and below `end`, or `end`.
pub open spec fn word_end(data: Seq<u8>, j: int, end: int) -> int
    decreases end - j,
{
    if j >= end || is_blank(data[j]) {
        if j < end {
            j
        } else {
            end
        }
    } else {
        word_end(data, j + 1, end)
    }
}

/// Where a name without its prefix begins: behind the first `:` from `j` on and below `end`, or at
/// `all` where there is none.
pub open spec fn local_start(data: Seq<u8>, j: int, end: int, all: int) -> int
    decreases end - j,
{
    if j >= end {
        all
    } else if data[j] == 58 {
        j + 1
    } else {
        local_start(data, j + 1, end, all)
    }
}

/// The end of the name of the tag that opens at `i` and closes at `c`.
pub open spec fn name_end(data: Seq<u8>, i: int, c: int) -> int {
    let w = word_end(data, i + 1, c);
    if w == c && w > i + 1 && data[w - 1] == 47 {
        w - 1
    } else {
        w
    }
}

/// Whether `date` stands at `s`.
pub open spec fn spells_date(data: Seq<u8>, s: int) -> bool {
    &&& 0 <= s && s + 4 <= data.len()
    &&& data[s] == 100 && data[s + 1] == 97 && data[s + 2] == 116 && data[s + 3] == 101
}

/// Whether the tag of a date element opens at `i`.
pub open spec fn is_date_tag(data: Seq<u8>, i: int) -> bool {
    let c = tag_close(data, i + 1, 0);
    let e = name_end(data, i, c);
    let s = local_start(data, i + 1, e, i + 1);
    &&& 0 <= i && i + 1 < data.len()
    &&& data[i] == 60 && data[i + 1] != 33 && data[i + 1] != 47 && data[i + 1] != 63
    &&& c < data.len()
    &&& e == s + 4 && spells_date(data, s)
}

/// The first `>` from `p` on that `x` stands before, and before that `y` where `y` is not zero.
pub open spec fn closing(data: Seq<u8>, p: int, x: u8, y: u8) -> int
    decreases data.len() - p,
{
    if p < 2 || p >= data.len() {
        data.len() as int
    } else if data[p] == 62 && data[p - 1] == x && (y == 0 || data[p - 2] == y) {
        p
    } else {
        closing(data, p + 1, x, y)
    }
}

/// The first `;`, `&` or `<` from `p` on.
pub open spec fn reference_end(data: Seq<u8>, p: int) -> int
    decreases data.len() - p,
{
    if p < 0 || p >= data.len() {
        data.len() as int
    } else if data[p] == 59 || data[p] == 38 || data[p] == 60 {
        p
    } else {
        reference_end(data, p + 1)
    }
}

/// The value of a digit in base ten or sixteen.
pub open spec fn digit_value(b: u8, hex: bool) -> Option<nat> {
    if is_digit(b) {
        Some((b - 48) as nat)
    } else if hex && 97 <= b <= 102 {
        Some((b - 87) as nat)
    } else if hex && 65 <= b <= 70 {
        Some((b - 55) as nat)
    } else {
        None
    }
}

/// A number with one more digit behind it.
pub open spec fn longer(n: nat, hex: bool, d: nat) -> nat {
    if hex {
        n * 16 + d
    } else {
        n * 10 + d
    }
}

/// The number that the digits below `end` go on to write from `p` on, after `so_far`.
pub open spec fn number_from(data: Seq<u8>, p: int, end: int, hex: bool, so_far: nat) -> Option<nat>
    decreases end - p,
{
    if p >= end {
        Some(so_far)
    } else {
        match digit_value(data[p], hex) {
            Some(d) => number_from(
                data,
                p + 1,
                end,
                hex,
                longer(so_far, hex, d),
            ),
            None => None,
        }
    }
}

/// Whether `word` stands from `p` up to `end`.
pub open spec fn is_word(data: Seq<u8>, p: int, end: int, word: Seq<u8>) -> bool {
    0 <= p <= end <= data.len() && data.subrange(p, end) == word
}

/// What the reference between `p` and `end` stands for: an ASCII character by its number or by one
/// of the five names, and nothing by any other name. `None` for what no date can hold.
pub open spec fn referred(data: Seq<u8>, p: int, end: int) -> Option<Seq<u8>> {
    if p < end && data[p] == 35 {
        let hex = p + 1 < end && data[p + 1] == 120;
        let from = if hex {
            p + 2
        } else {
            p + 1
        };
        if from >= end {
            None
        } else {
            match number_from(data, from, end, hex, 0) {
                Some(n) => if 0 < n < 128 {
                    Some(seq![n as u8])
                } else {
                    None
                },
                None => None,
            }
        }
    } else if is_word(data, p, end, seq![108u8, 116]) {
        Some(seq![60u8])
    } else if is_word(data, p, end, seq![103u8, 116]) {
        Some(seq![62u8])
    } else if is_word(data, p, end, seq![97u8, 109, 112]) {
        Some(seq![38u8])
    } else if is_word(data, p, end, seq![97u8, 112, 111, 115]) {
        Some(seq![39u8])
    } else if is_word(data, p, end, seq![113u8, 117, 111, 116]) {
        Some(seq![34u8])
    } else {
        Some(Seq::empty())
    }
}

/// The text of a date element.
pub enum DateText {
    /// No date can come of it.
    Broken,
    /// A document type stands in it, behind which it is not read.
    Unread,
    Text(Seq<u8>),
}

/// A text with `front` before it.
pub open spec fn behind(front: Seq<u8>, t: DateText) -> DateText {
    match t {
        DateText::Text(s) => DateText::Text(front + s),
        _ => t,
    }
}

/// Whether a comment opens at `j`.
pub open spec fn opens_comment(data: Seq<u8>, j: int) -> bool {
    0 <= j && j + 4 <= data.len() && data[j] == 60 && data[j + 1] == 33 && data[j + 2] == 45
        && data[j + 3] == 45
}

/// Whether a CDATA section opens at `j`.
pub open spec fn opens_cdata(data: Seq<u8>, j: int) -> bool {
    &&& 0 <= j && j + 9 <= data.len()
    &&& data[j] == 60 && data[j + 1] == 33 && data[j + 2] == 91 && data[j + 3] == 67
    &&& data[j + 4] == 68 && data[j + 5] == 65 && data[j + 6] == 84 && data[j + 7] == 65
    &&& data[j + 8] == 91
}

/// Where the comment, CDATA section or instruction that opens at `j` closes.
pub open spec fn skipped_to(data: Seq<u8>, j: int) -> int {
    if opens_comment(data, j) {
        closing(data, j + 6, 45, 45)
    } else if opens_cdata(data, j) {
        closing(data, j + 11, 93, 93)
    } else {
        closing(data, j + 3, 63, 0)
    }
}

/// Whether what opens at `j` is skipped when a text is read.
pub open spec fn is_skipped(data: Seq<u8>, j: int) -> bool {
    opens_comment(data, j) || opens_cdata(data, j) || (j + 1 < data.len() && data[j] == 60
        && data[j + 1] == 63)
}

pub proof fn lemma_closing(data: Seq<u8>, p: int, x: u8, y: u8)
    requires
        0 <= p,
    ensures
        p <= closing(data, p, x, y) || closing(data, p, x, y) == data.len(),
        closing(data, p, x, y) <= data.len(),
    decreases data.len() - p,
{
    if 2 <= p < data.len() {
        lemma_closing(data, p + 1, x, y);
    }
}

pub proof fn lemma_reference_end(data: Seq<u8>, p: int)
    requires
        0 <= p <= data.len(),
    ensures
        p <= reference_end(data, p) <= data.len(),
    decreases data.len() - p,
{
    if p < data.len() {
        lemma_reference_end(data, p + 1);
    }
}

/// The text of an element that is read from `j` on, up to its closing tag.
pub open spec fn date_text(data: Seq<u8>, j: int) -> DateText
    decreases data.len() - j,
{
    if j < 0 || j >= data.len() {
        DateText::Broken
    } else if data[j] == 60 {
        if is_skipped(data, j) {
            proof {
                lemma_closing(data, j + 6, 45, 45);
                lemma_closing(data, j + 11, 93, 93);
                lemma_closing(data, j + 3, 63, 0);
            }
            if skipped_to(data, j) < data.len() {
                date_text(data, skipped_to(data, j) + 1)
            } else {
                DateText::Broken
            }
        } else if j + 1 < data.len() && data[j + 1] == 47 {
            DateText::Text(Seq::empty())
        } else if j + 1 < data.len() && data[j + 1] == 33 {
            DateText::Unread
        } else {
            DateText::Broken
        }
    } else if data[j] == 38 {
        proof {
            lemma_reference_end(data, j + 1);
        }
        let q = reference_end(data, j + 1);
        if q < data.len() && data[q] == 59 {
            match referred(data, j + 1, q) {
                Some(b) => behind(b, date_text(data, q + 1)),
                None => DateText::Broken,
            }
        } else {
            DateText::Broken
        }
    } else {
        behind(seq![data[j]], date_text(data, j + 1))
    }
}

/// The number that two digits at `i` write.
pub open spec fn two_at(t: Seq<u8>, i: int) -> int {
    (t[i] - 48) * 10 + (t[i + 1] - 48)
}

/// Whether two digits stand at `i`.
pub open spec fn digits_at(t: Seq<u8>, i: int) -> bool {
    is_digit(t[i]) && is_digit(t[i + 1])
}

/// The number that the four digits at the front write.
pub open spec fn year_of(t: Seq<u8>) -> int {
    two_at(t, 0) * 100 + two_at(t, 2)
}

/// Whether a text has the places of a date with an offset from UTC: year, month and day, hour and
/// minute, and at the end a sign, hours and minutes.
pub open spec fn has_offset(t: Seq<u8>) -> bool {
    let n = t.len() as int;
    &&& n >= 22
    &&& digits_at(t, 11) && digits_at(t, 14) && digits_at(t, n - 5) && digits_at(t, n - 2)
    &&& t[n - 6] == 43 || t[n - 6] == 45
}

/// Minutes of the day in UTC, from the hour, the minute and the offset of a text.
pub open spec fn utc_minutes(t: Seq<u8>) -> int {
    let n = t.len() as int;
    let offset = two_at(t, n - 5) * 60 + two_at(t, n - 2);
    two_at(t, 11) * 60 + two_at(t, 14) + (if t[n - 6] == 45 {
        offset
    } else {
        -offset
    })
}

/// Whether a text begins with a year and a `-`.
pub open spec fn has_year(t: Seq<u8>) -> bool {
    t.len() >= 5 && digits_at(t, 0) && digits_at(t, 2) && t[4] == 45
}

/// Whether the month and the day of a text are these.
pub open spec fn is_day(t: Seq<u8>, month: int, day: int) -> bool {
    t.len() >= 10 && digits_at(t, 5) && digits_at(t, 8) && two_at(t, 5) == month && two_at(t, 8)
        == day
}

/// Whether a text is no date, or one from the years 1601 to 9999 in UTC.
pub open spec fn in_range(t: Seq<u8>) -> bool {
    if !has_year(t) || 1601 < year_of(t) < 9999 {
        true
    } else if year_of(t) == 1601 {
        is_day(t, 1, 1) && has_offset(t) ==> utc_minutes(t) >= 0
    } else if year_of(t) == 9999 {
        is_day(t, 12, 31) && has_offset(t) ==> utc_minutes(t) < 1440
    } else {
        false
    }
}

/// Whether a text of an element can be read as a date without leaving the range.
pub open spec fn is_harmless(t: DateText) -> bool {
    match t {
        DateText::Broken => true,
        DateText::Unread => false,
        DateText::Text(s) => in_range(s),
    }
}

/// Whether the date element whose tag opens at `i` is in range; an empty element has no text.
pub open spec fn is_dated(data: Seq<u8>, i: int) -> bool {
    let c = tag_close(data, i + 1, 0);
    data[c - 1] == 47 || is_harmless(date_text(data, c + 1))
}

/// Whether the first byte from `j` on that is no blank space begins neither markup nor a
/// reference: then the data is no XML.
pub open spec fn begins_plain(data: Seq<u8>, j: int) -> bool
    decreases data.len() - j,
{
    if j < 0 || j >= data.len() {
        false
    } else if data[j] == 32 || 9 <= data[j] <= 13 {
        begins_plain(data, j + 1)
    } else {
        33 <= data[j] <= 126 && data[j] != 60 && data[j] != 38
    }
}

/// Whether no date of a list in text is out of range.
pub open spec fn dates_in_range(data: Seq<u8>) -> bool {
    begins_plain(data, 0) || forall|i: int| #[trigger] is_date_tag(data, i) ==> is_dated(data, i)
}

fn find_close(data: &[u8], from: usize) -> (r: usize)
    requires
        from <= data@.len(),
    ensures
        r == tag_close(data@, from as int, 0),
        from <= r <= data@.len(),
{
    let mut j: usize = from;
    let mut quote: u8 = 0;
    while j < data.len()
        invariant
            from <= j <= data@.len(),
            tag_close(data@, j as int, quote) == tag_close(data@, from as int, 0),
        decreases data.len() - j,
    {
        let b: u8 = data[j];
        if quote != 0 {
            if b == quote {
                quote = 0;
            }
        } else if b == 62 {
            return j;
        } else if b == 34 || b == 39 {
            quote = b;
        }
        j += 1;
    }
    j
}

fn find_name_end(data: &[u8], i: usize, c: usize) -> (r: usize)
    requires
        i < c <= data@.len(),
    ensures
        r == name_end(data@, i as int, c as int),
        i < r <= c,
{
    let mut j: usize = i + 1;
    while j < c && !(data[j] == 32 || data[j] == 9 || data[j] == 10 || data[j] == 13)
        invariant
            i < j <= c <= data@.len(),
            word_end(data@, j as int, c as int) == word_end(data@, i + 1, c as int),
        decreases c - j,
    {
        j += 1;
    }
    if j == c && j > i + 1 && data[j - 1] == 47 {
        j - 1
    } else {
        j
    }
}

fn find_local(data: &[u8], from: usize, end: usize) -> (r: usize)
    requires
        from <= end <= data@.len(),
    ensures
        r == local_start(data@, from as int, end as int, from as int),
        from <= r <= end,
{
    let mut j: usize = from;
    while j < end
        invariant
            from <= j <= end <= data@.len(),
            local_start(data@, j as int, end as int, from as int) == local_start(
                data@,
                from as int,
                end as int,
                from as int,
            ),
        decreases end - j,
    {
        if data[j] == 58 {
            return j + 1;
        }
        j += 1;
    }
    from
}

/// Where the tag of a date element that opens at `i` closes.
fn date_tag_at(data: &[u8], i: usize) -> (r: Option<usize>)
    requires
        i < data@.len(),
    ensures
        r is Some == is_date_tag(data@, i as int),
        r matches Some(c) ==> c == tag_close(data@, i + 1, 0) && i < c < data@.len(),
{
    if data.len() - i < 2 || data[i] != 60 || data[i + 1] == 33 || data[i + 1] == 47 || data[i + 1]
        == 63 {
        return None;
    }
    let c: usize = find_close(data, i + 1);
    if c >= data.len() {
        return None;
    }
    let e: usize = find_name_end(data, i, c);
    let s: usize = find_local(data, i + 1, e);
    if e - s == 4 && data[s] == 100 && data[s + 1] == 97 && data[s + 2] == 116 && data[s + 3]
        == 101 {
        Some(c)
    } else {
        None
    }
}

fn find_closing(data: &[u8], from: usize, x: u8, y: u8) -> (r: usize)
    requires
        2 <= from <= data@.len(),
    ensures
        r == closing(data@, from as int, x, y),
        from <= r <= data@.len(),
{
    let mut p: usize = from;
    while p < data.len()
        invariant
            2 <= from <= p <= data@.len(),
            closing(data@, p as int, x, y) == closing(data@, from as int, x, y),
        decreases data.len() - p,
    {
        if data[p] == 62 && data[p - 1] == x && (y == 0 || data[p - 2] == y) {
            return p;
        }
        p += 1;
    }
    p
}

fn find_reference_end(data: &[u8], from: usize) -> (r: usize)
    requires
        from <= data@.len(),
    ensures
        r == reference_end(data@, from as int),
        from <= r <= data@.len(),
{
    let mut p: usize = from;
    while p < data.len()
        invariant
            from <= p <= data@.len(),
            reference_end(data@, p as int) == reference_end(data@, from as int),
        decreases data.len() - p,
    {
        if data[p] == 59 || data[p] == 38 || data[p] == 60 {
            return p;
        }
        p += 1;
    }
    p
}

proof fn lemma_number_grows(data: Seq<u8>, p: int, end: int, hex: bool, so_far: nat)
    ensures
        number_from(data, p, end, hex, so_far) matches Some(n) ==> n >= so_far,
    decreases end - p,
{
    if p < end {
        match digit_value(data[p], hex) {
            Some(d) => {
                lemma_number_grows(
                    data,
                    p + 1,
                    end,
                    hex,
                    longer(so_far, hex, d),
                );
            },
            None => {},
        }
    }
}

/// The ASCII character of a number in digits.
fn ascii_number(data: &[u8], from: usize, end: usize, hex: bool) -> (r: Option<u8>)
    requires
        from <= end <= data@.len(),
    ensures
        r == (match number_from(data@, from as int, end as int, hex, 0) {
            Some(n) => if 0 < n < 128 {
                Some(n as u8)
            } else {
                None
            },
            None => None,
        }),
{
    let mut value: u32 = 0;
    let mut p: usize = from;
    while p < end
        invariant
            from <= p <= end <= data@.len(),
            value < 128,
            number_from(data@, p as int, end as int, hex, value as nat) == number_from(
                data@,
                from as int,
                end as int,
                hex,
                0,
            ),
        decreases end - p,
    {
        let b: u8 = data[p];
        let d: u32 = if 48 <= b && b <= 57 {
            (b - 48) as u32
        } else if hex && 97 <= b && b <= 102 {
            (b - 87) as u32
        } else if hex && 65 <= b && b <= 70 {
            (b - 55) as u32
        } else {
            return None;
        };
        let base: u32 = if hex {
            16
        } else {
            10
        };
        let next: u32 = value * base + d;
        if next >= 128 {
            proof {
                lemma_number_grows(data@, p + 1, end as int, hex, next as nat);
            }
            return None;
        }
        value = next;
        p += 1;
    }
    if value > 0 {
        Some(value as u8)
    } else {
        None
    }
}

fn word_stands(data: &[u8], p: usize, end: usize, word: &[u8]) -> (r: bool)
    requires
        p <= end <= data@.len(),
    ensures
        r == is_word(data@, p as int, end as int, word@),
{
    if end - p != word.len() {
        return false;
    }
    let mut i: usize = 0;
    while i < word.len()
        invariant
            i <= word@.len(),
            p <= end <= data@.len(),
            end - p == word@.len(),
            forall|k: int| 0 <= k < i ==> data@[p + k] == word@[k],
        decreases word.len() - i,
    {
        if data[p + i] != word[i] {
            assert(data@.subrange(p as int, end as int)[i as int] != word@[i as int]);
            return false;
        }
        i += 1;
    }
    assert(data@.subrange(p as int, end as int) =~= word@);
    true
}

fn push_referred(out: &mut Vec<u8>, data: &[u8], p: usize, end: usize) -> (r: bool)
    requires
        p <= end <= data@.len(),
    ensures
        r == (referred(data@, p as int, end as int) is Some),
        r ==> final(out)@ == old(out)@ + referred(data@, p as int, end as int)->0,
{
    let ghost before = out@;
    if p < end && data[p] == 35 {
        let hex: bool = end - p >= 2 && data[p + 1] == 120;
        let from: usize = if hex {
            p + 2
        } else {
            p + 1
        };
        if from >= end {
            return false;
        }
        match ascii_number(data, from, end, hex) {
            Some(b) => {
                out.push(b);
                assert(out@ =~= before + seq![b]);
                true
            },
            None => false,
        }
    } else {
        let lt: [u8; 2] = [108, 116];
        let gt: [u8; 2] = [103, 116];
        let amp: [u8; 3] = [97, 109, 112];
        let apos: [u8; 4] = [97, 112, 111, 115];
        let quot: [u8; 4] = [113, 117, 111, 116];
        assert(lt@ =~= seq![108u8, 116] && gt@ =~= seq![103u8, 116]);
        assert(amp@ =~= seq![97u8, 109, 112]);
        assert(apos@ =~= seq![97u8, 112, 111, 115] && quot@ =~= seq![113u8, 117, 111, 116]);
        if word_stands(data, p, end, &lt) {
            out.push(60);
            assert(out@ =~= before + seq![60u8]);
        } else if word_stands(data, p, end, &gt) {
            out.push(62);
            assert(out@ =~= before + seq![62u8]);
        } else if word_stands(data, p, end, &amp) {
            out.push(38);
            assert(out@ =~= before + seq![38u8]);
        } else if word_stands(data, p, end, &apos) {
            out.push(39);
            assert(out@ =~= before + seq![39u8]);
        } else if word_stands(data, p, end, &quot) {
            out.push(34);
            assert(out@ =~= before + seq![34u8]);
        } else {
            assert(out@ =~= before + Seq::<u8>::empty());
        }
        true
    }
}

/// Where what is skipped at `j` closes, where anything is.
fn find_skipped(data: &[u8], j: usize) -> (r: Option<usize>)
    requires
        j < data@.len(),
        data@[j as int] == 60,
    ensures
        r is Some == is_skipped(data@, j as int),
        r matches Some(q) ==> (q < data@.len() ==> q == skipped_to(data@, j as int) && q > j) && (
        q >= data@.len() ==> skipped_to(data@, j as int) >= data@.len()),
{
    let left: usize = data.len() - j;
    if left < 2 {
        return None;
    }
    let (far, x, y): (usize, u8, u8) = if left >= 4 && data[j + 1] == 33 && data[j + 2] == 45
        && data[j + 3] == 45 {
        (6, 45, 45)
    } else if left >= 9 && data[j + 1] == 33 && data[j + 2] == 91 && data[j + 3] == 67 && data[j
        + 4] == 68 && data[j + 5] == 65 && data[j + 6] == 84 && data[j + 7] == 65 && data[j + 8]
        == 91 {
        (11, 93, 93)
    } else if data[j + 1] == 63 {
        (3, 63, 0)
    } else {
        return None;
    };
    if left < far {
        return Some(data.len());
    }
    Some(find_closing(data, j + far, x, y))
}

/// Whether the text that is read from `from` on can be read as a date.
fn harmless_from(data: &[u8], from: usize) -> (r: bool)
    requires
        from <= data@.len(),
    ensures
        r == is_harmless(date_text(data@, from as int)),
{
    let mut out: Vec<u8> = Vec::new();
    let mut j: usize = from;
    assert(behind(out@, date_text(data@, from as int)) == date_text(data@, from as int)) by {
        match date_text(data@, from as int) {
            DateText::Text(s) => {
                assert(out@ + s =~= s);
            },
            _ => {},
        }
    }
    while j < data.len()
        invariant
            from <= j <= data@.len(),
            behind(out@, date_text(data@, j as int)) == date_text(data@, from as int),
        decreases data.len() - j,
    {
        let ghost before = out@;
        if data[j] == 60 {
            match find_skipped(data, j) {
                Some(q) => {
                    if q >= data.len() {
                        return true;
                    }
                    j = q + 1;
                },
                None => {
                    if data.len() - j >= 2 && data[j + 1] == 47 {
                        assert(out@ + Seq::<u8>::empty() =~= out@);
                        return text_in_range(&out);
                    }
                    return !(data.len() - j >= 2 && data[j + 1] == 33);
                },
            }
        } else if data[j] == 38 {
            let q: usize = find_reference_end(data, j + 1);
            if q >= data.len() || data[q] != 59 {
                return true;
            }
            if !push_referred(&mut out, data, j + 1, q) {
                return true;
            }
            proof {
                lemma_behind(before, referred(data@, j + 1, q as int)->0, date_text(data@, q + 1));
            }
            j = q + 1;
        } else {
            out.push(data[j]);
            proof {
                assert(out@ =~= before + seq![data@[j as int]]);
                lemma_behind(before, seq![data@[j as int]], date_text(data@, j + 1));
            }
            j += 1;
        }
    }
    true
}

proof fn lemma_behind(a: Seq<u8>, b: Seq<u8>, t: DateText)
    ensures
        behind(a + b, t) == behind(a, behind(b, t)),
{
    match t {
        DateText::Text(s) => {
            assert(a + b + s =~= a + (b + s));
        },
        _ => {},
    }
}

fn digits_stand(t: &[u8], i: usize) -> (r: bool)
    requires
        i + 2 <= t@.len(),
    ensures
        r == digits_at(t@, i as int),
{
    48 <= t[i] && t[i] <= 57 && 48 <= t[i + 1] && t[i + 1] <= 57
}

fn two_digits(t: &[u8], i: usize) -> (r: i32)
    requires
        i + 2 <= t@.len(),
        digits_at(t@, i as int),
    ensures
        r == two_at(t@, i as int),
        0 <= r <= 99,
{
    (t[i] as i32 - 48) * 10 + (t[i + 1] as i32 - 48)
}

fn day_is(t: &[u8], month: i32, day: i32) -> (r: bool)
    ensures
        r == is_day(t@, month as int, day as int),
{
    t.len() >= 10 && digits_stand(t, 5) && digits_stand(t, 8) && two_digits(t, 5) == month
        && two_digits(t, 8) == day
}

/// Minutes of the day in UTC, where the text has an offset.
fn minutes_in_utc(t: &[u8]) -> (r: Option<i32>)
    ensures
        r is Some == has_offset(t@),
        r matches Some(m) ==> m == utc_minutes(t@),
{
    let n: usize = t.len();
    if n < 22 || !digits_stand(t, 11) || !digits_stand(t, 14) || !digits_stand(t, n - 5)
        || !digits_stand(t, n - 2) {
        return None;
    }
    let minutes: i32 = two_digits(t, 11) * 60 + two_digits(t, 14);
    let offset: i32 = two_digits(t, n - 5) * 60 + two_digits(t, n - 2);
    if t[n - 6] == 45 {
        Some(minutes + offset)
    } else if t[n - 6] == 43 {
        Some(minutes - offset)
    } else {
        None
    }
}

fn text_in_range(t: &[u8]) -> (r: bool)
    ensures
        r == in_range(t@),
{
    if t.len() < 5 || !digits_stand(t, 0) || !digits_stand(t, 2) || t[4] != 45 {
        return true;
    }
    let year: i32 = two_digits(t, 0) * 100 + two_digits(t, 2);
    if 1601 < year && year < 9999 {
        true
    } else if year == 1601 {
        if !day_is(t, 1, 1) {
            return true;
        }
        match minutes_in_utc(t) {
            Some(m) => m >= 0,
            None => true,
        }
    } else if year == 9999 {
        if !day_is(t, 12, 31) {
            return true;
        }
        match minutes_in_utc(t) {
            Some(m) => m < 1440,
            None => true,
        }
    } else {
        false
    }
}

fn plain_start(data: &[u8]) -> (r: bool)
    ensures
        r == begins_plain(data@, 0),
{
    let mut j: usize = 0;
    while j < data.len() && (data[j] == 32 || (9 <= data[j] && data[j] <= 13))
        invariant
            j <= data@.len(),
            begins_plain(data@, j as int) == begins_plain(data@, 0),
        decreases data.len() - j,
    {
        j += 1;
    }
    j < data.len() && 33 <= data[j] && data[j] <= 126 && data[j] != 60 && data[j] != 38
}

/// Whether no date of a list in text is out of range.
pub fn all_dates_in_range(data: &[u8]) -> (r: bool)
    ensures
        r == dates_in_range(data@),
{
    if plain_start(data) {
        return true;
    }
    let mut i: usize = 0;
    while i < data.len()
        invariant
            i <= data@.len(),
            !begins_plain(data@, 0),
            forall|k: int| k < i && #[trigger] is_date_tag(data@, k) ==> is_dated(data@, k),
        decreases data.len() - i,
    {
        if let Some(c) = date_tag_at(data, i) {
            if data[c - 1] != 47 && !harmless_from(data, c + 1) {
                assert(is_date_tag(data@, i as int) && !is_dated(data@, i as int));
                return false;
            }
        }
        i += 1;
    }
    true
}

/// The year decides about a date: all of 1602 to 9998 are in range, and none before 1601.
pub proof fn law_year_decides(t: Seq<u8>)
    requires
        t.len() >= 5,
        48 <= t[0] <= 57,
        48 <= t[1] <= 57,
        48 <= t[2] <= 57,
        48 <= t[3] <= 57,
        t[4] == 45,
    ensures
        ({
            let year = (t[0] - 48) * 1000 + (t[1] - 48) * 100 + (t[2] - 48) * 10 + (t[3] - 48);
            &&& 1602 <= year <= 9998 ==> in_range(t)
            &&& year <= 1600 ==> !in_range(t)
        }),
{
}

/// The hours of a day and its offset are brought to universal time before they decide.
pub proof fn law_offset_counts(t: Seq<u8>)
    requires
        has_offset(t),
        has_year(t),
        year_of(t) == 9999 && is_day(t, 12, 31) || year_of(t) == 1601 && is_day(t, 1, 1),
    ensures
        ({
            let n = t.len() as int;
            let local = ((t[11] - 48) * 10 + (t[12] - 48)) * 60 + (t[14] - 48) * 10 + (t[15] - 48);
            let offset = ((t[n - 5] - 48) * 10 + (t[n - 4] - 48)) * 60 + (t[n - 2] - 48) * 10 + (
            t[n - 1] - 48);
            let utc = if t[n - 6] == 43 {
                local - offset
            } else {
                local + offset
            };
            in_range(t) <==> (if year_of(t) == 9999 {
                utc < 1440
            } else {
                utc >= 0
            })
        }),
{
}

/// A date that is written in a document is found there and decides, whatever stands around it.
pub proof fn law_date_is_found(before: Seq<u8>, t: Seq<u8>, behind: Seq<u8>)
    requires
        forall|k: int| 0 <= k < t.len() ==> #[trigger] t[k] != 60 && t[k] != 38,
        before.len() > 0,
        before[0] == 60,
        !in_range(t),
    ensures
        !dates_in_range(
            before + seq![60u8, 100, 97, 116, 101, 62] + t + seq![60u8, 47] + behind,
        ),
{
    let data = before + seq![60u8, 100, 97, 116, 101, 62] + t + seq![60u8, 47] + behind;
    let i = before.len() as int;
    assert(data[i] == 60 && data[i + 1] == 100 && data[i + 2] == 97 && data[i + 3] == 116 && data[i
        + 4] == 101 && data[i + 5] == 62);
    reveal_with_fuel(tag_close, 6);
    reveal_with_fuel(word_end, 6);
    reveal_with_fuel(local_start, 6);
    assert(tag_close(data, i + 1, 0) == i + 5);
    assert(word_end(data, i + 1, i + 5) == i + 5);
    assert(local_start(data, i + 1, i + 5, i + 1) == i + 1);
    assert(is_date_tag(data, i));
    let from = i + 6;
    let n = t.len() as int;
    assert(data.subrange(from, from + n) =~= t);
    assert(data[from + n] == 60 && data[from + n + 1] == 47);
    lemma_plain_text(data, from, t);
    assert(!is_dated(data, i));
    assert(data[0] == 60);
    assert(!begins_plain(data, 0));
}

proof fn lemma_plain_text(data: Seq<u8>, j: int, t: Seq<u8>)
    requires
        0 <= j,
        j + t.len() + 1 < data.len(),
        data.subrange(j, j + t.len()) == t,
        data[j + t.len()] == 60,
        data[j + t.len() + 1] == 47,
        forall|k: int| 0 <= k < t.len() ==> #[trigger] t[k] != 60 && t[k] != 38,
    ensures
        date_text(data, j) == DateText::Text(t),
    decreases t.len(),
{
    if t.len() == 0 {
        assert(!is_skipped(data, j));
        assert(t =~= Seq::empty());
    } else {
        let rest = t.skip(1);
        assert(t[0] == data.subrange(j, j + t.len())[0]);
        assert(data[j] == t[0]);
        assert(data.subrange(j + 1, j + 1 + rest.len()) =~= rest) by {
            assert forall|k: int| 0 <= k < rest.len() implies data[j + 1 + k] == rest[k] by {
                assert(data.subrange(j, j + t.len())[k + 1] == t[k + 1]);
            }
        }
        assert forall|k: int| 0 <= k < rest.len() implies #[trigger] rest[k] != 60 && rest[k] != 38 by {
            assert(rest[k] == t[k + 1]);
        }
        lemma_plain_text(data, j + 1, rest);
        assert(seq![data[j]] + rest =~= t);
    }
}
proof fn lemma_tag_close(data: Seq<u8>, j: int, c: int)
    requires
        0 <= j <= c < data.len(),
        data[c] == 62,
        forall|k: int| j <= k < c ==> #[trigger] data[k] != 62 && data[k] != 34 && data[k] != 39,
    ensures
        tag_close(data, j, 0) == c,
    decreases c - j,
{
    if j < c {
        assert(data[j] != 62 && data[j] != 34 && data[j] != 39);
        lemma_tag_close(data, j + 1, c);
    }
}

proof fn lemma_word_end(data: Seq<u8>, j: int, w: int, end: int)
    requires
        0 <= j <= w <= end <= data.len(),
        w < end ==> is_blank(data[w]),
        forall|k: int| j <= k < w ==> !is_blank(#[trigger] data[k]),
    ensures
        word_end(data, j, end) == w,
    decreases w - j,
{
    if j < w {
        assert(!is_blank(data[j]));
        lemma_word_end(data, j + 1, w, end);
    }
}

proof fn lemma_local_start(data: Seq<u8>, j: int, colon: int, end: int, all: int)
    requires
        0 <= j <= colon < end <= data.len(),
        data[colon] == 58,
        forall|k: int| j <= k < colon ==> #[trigger] data[k] != 58,
    ensures
        local_start(data, j, end, all) == colon + 1,
    decreases colon - j,
{
    if j < colon {
        assert(data[j] != 58);
        lemma_local_start(data, j + 1, colon, end, all);
    }
}

/// A tag is one of a date by its name alone: whatever attributes stand behind the name, after a
/// blank of any kind, and whatever prefix stands before it.
pub proof fn law_tag_is_known_by_name(
    before: Seq<u8>,
    prefix: Seq<u8>,
    blank: u8,
    attributes: Seq<u8>,
    behind: Seq<u8>,
)
    requires
        blank == 32 || blank == 9 || blank == 10 || blank == 13,
        forall|k: int|
            0 <= k < attributes.len() ==> #[trigger] attributes[k] != 62 && attributes[k] != 34
                && attributes[k] != 39,
        prefix.len() > 0,
        prefix[0] != 33 && prefix[0] != 47 && prefix[0] != 63,
        forall|k: int|
            0 <= k < prefix.len() ==> #[trigger] prefix[k] != 62 && prefix[k] != 34 && prefix[k]
                != 39 && prefix[k] != 58 && !is_blank(prefix[k]),
    ensures
        is_date_tag(
            before + seq![60u8, 100, 97, 116, 101, blank] + attributes + seq![62u8] + behind,
            before.len() as int,
        ),
        is_date_tag(
            before + seq![60u8] + prefix + seq![58u8, 100, 97, 116, 101, 62] + behind,
            before.len() as int,
        ),
{
    let i = before.len() as int;
    let data = before + seq![60u8, 100, 97, 116, 101, blank] + attributes + seq![62u8] + behind;
    let c = i + 6 + attributes.len();
    assert(data[i] == 60 && data[i + 1] == 100 && data[i + 2] == 97 && data[i + 3] == 116 && data[i
        + 4] == 101 && data[i + 5] == blank && data[c] == 62);
    assert forall|k: int| i + 1 <= k < c implies #[trigger] data[k] != 62 && data[k] != 34 && data[k]
        != 39 by {
        if k >= i + 6 {
            assert(data[k] == attributes[k - i - 6]);
        }
    }
    lemma_tag_close(data, i + 1, c);
    lemma_word_end(data, i + 1, i + 5, c);
    reveal_with_fuel(local_start, 6);
    assert(local_start(data, i + 1, i + 5, i + 1) == i + 1);
    assert(is_date_tag(data, i));
    let named = before + seq![60u8] + prefix + seq![58u8, 100, 97, 116, 101, 62] + behind;
    let p = i + 1 + prefix.len();
    assert(named[i] == 60 && named[i + 1] == prefix[0]);
    assert(named[p] == 58 && named[p + 1] == 100 && named[p + 2] == 97 && named[p + 3] == 116
        && named[p + 4] == 101 && named[p + 5] == 62);
    assert forall|k: int| i + 1 <= k < p + 5 implies #[trigger] named[k] != 62 && named[k] != 34
        && named[k] != 39 && !is_blank(named[k]) by {
        if k < p {
            assert(named[k] == prefix[k - i - 1]);
        }
    }
    assert forall|k: int| i + 1 <= k < p implies #[trigger] named[k] != 58 by {
        assert(named[k] == prefix[k - i - 1]);
    }
    lemma_tag_close(named, i + 1, p + 5);
    lemma_word_end(named, i + 1, p + 5, p + 5);
    lemma_local_start(named, i + 1, p, p + 5, i + 1);
    assert(is_date_tag(named, i));
}

/// A comment in a date is passed over, and a character that is written by its number, or by the
/// name of the ampersand, stands for itself.
pub proof fn law_text_of_date(data: Seq<u8>, j: int, comment: Seq<u8>, tens: u8, ones: u8)
    requires
        0 <= j < data.len(),
        forall|k: int| 0 <= k < comment.len() ==> #[trigger] comment[k] != 62,
        49 <= tens <= 57,
        48 <= ones <= 57,
    ensures
        j + 7 + comment.len() <= data.len() && data.subrange(j, j + 7 + comment.len()) == seq![
            60u8,
            33,
            45,
            45,
        ] + comment + seq![45u8, 45, 62] ==> date_text(data, j) == date_text(
            data,
            j + 7 + comment.len(),
        ),
        j + 5 <= data.len() && data.subrange(j, j + 5) == seq![38u8, 35, tens, ones, 59]
            ==> date_text(data, j) == behind(
            seq![((tens - 48) * 10 + (ones - 48)) as u8],
            date_text(data, j + 5),
        ),
        j + 5 <= data.len() && data.subrange(j, j + 5) == seq![38u8, 97, 109, 112, 59]
            ==> date_text(data, j) == behind(seq![38u8], date_text(data, j + 5)),
{
    let n = comment.len() as int;
    let whole = seq![60u8, 33, 45, 45] + comment + seq![45u8, 45, 62];
    if j + 7 + n <= data.len() && data.subrange(j, j + 7 + n) == whole {
        assert forall|k: int| 0 <= k < 7 + n implies data[j + k] == #[trigger] whole[k] by {
            assert(data.subrange(j, j + 7 + n)[k] == whole[k]);
        }
        assert(whole[0] == 60 && whole[1] == 33 && whole[2] == 45 && whole[3] == 45);
        assert(whole[4 + n] == 45 && whole[5 + n] == 45 && whole[6 + n] == 62);
        assert forall|k: int| j + 6 <= k < j + 6 + n implies #[trigger] data[k] != 62 by {
            assert(data[j + (k - j)] == whole[k - j]);
            if k - j < 4 + n {
                assert(whole[k - j] == comment[k - j - 4]);
            }
        }
        lemma_closing_at(data, j + 6, j + 6 + n);
    }
    let number = seq![38u8, 35, tens, ones, 59];
    if j + 5 <= data.len() && data.subrange(j, j + 5) == number {
        let five = data.subrange(j, j + 5);
        assert(five[0] == 38 && five[1] == 35 && five[2] == tens && five[3] == ones && five[4] == 59);
        assert(data[j] == 38 && data[j + 1] == 35 && data[j + 2] == tens && data[j + 3] == ones
            && data[j + 4] == 59);
        reveal_with_fuel(reference_end, 5);
        assert(reference_end(data, j + 1) == j + 4);
        reveal_with_fuel(number_from, 4);
        assert(number_from(data, j + 2, j + 4, false, 0) == Some(
            ((tens - 48) * 10 + (ones - 48)) as nat,
        ));
    }
    let amp = seq![38u8, 97, 109, 112, 59];
    if j + 5 <= data.len() && data.subrange(j, j + 5) == amp {
        let five = data.subrange(j, j + 5);
        assert(five[0] == 38 && five[1] == 97 && five[2] == 109 && five[3] == 112 && five[4] == 59);
        assert(data[j] == 38 && data[j + 1] == 97 && data[j + 2] == 109 && data[j + 3] == 112
            && data[j + 4] == 59);
        reveal_with_fuel(reference_end, 5);
        assert(reference_end(data, j + 1) == j + 4);
        assert(data.subrange(j + 1, j + 4) =~= seq![97u8, 109, 112]);
        let w = data.subrange(j + 1, j + 4);
        assert(w.len() == 3 && w[0] == 97);
        assert(w != seq![108u8, 116] && w != seq![103u8, 116]);
    }
}

proof fn lemma_closing_at(data: Seq<u8>, p: int, q: int)
    requires
        2 <= p <= q < data.len(),
        data[q] == 62,
        data[q - 1] == 45,
        data[q - 2] == 45,
        forall|k: int| p <= k < q ==> #[trigger] data[k] != 62,
    ensures
        closing(data, p, 45, 45) == q,
    decreases q - p,
{
    if p < q {
        assert(data[p] != 62);
        lemma_closing_at(data, p + 1, q);
    }
}
} // verus!
