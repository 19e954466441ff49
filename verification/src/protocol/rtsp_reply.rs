//! Reading RTSP replies as they arrive.

use crate::bytes;
use crate::codec;
use crate::error::{self, ErrorView, RottenError};
use crate::text;
use vstd::prelude::*;

verus! {

/// Longest head of a reply, with what was read along with it.
pub const MAX_HEAD_LEN: usize = 65536;

/// The lines of a text; a line end is a line feed with an optional carriage return before it.
pub open spec fn lines(s: Seq<char>) -> Seq<Seq<char>>
    decreases s.len(),
{
    if s.len() == 0 {
        Seq::empty()
    } else {
        let i = text::first_index(s, '\n');
        if 0 <= i < s.len() {
            seq![without_return(s.take(i))] + lines(s.skip(i + 1))
        } else {
            seq![s]
        }
    }
}

/// A line without one carriage return at its end.
pub open spec fn without_return(line: Seq<char>) -> Seq<char> {
    if line.len() > 0 && line.last() == '\r' {
        line.drop_last()
    } else {
        line
    }
}

/// Texts by their characters.
pub open spec fn view_lines(v: Seq<Vec<char>>) -> Seq<Seq<char>> {
    v.map_values(|l: Vec<char>| l@)
}

fn sub_chars(s: &[char], from: usize, to: usize) -> (r: Vec<char>)
    requires
        from <= to <= s@.len(),
    ensures
        r@ == s@.subrange(from as int, to as int),
{
    let mut out: Vec<char> = Vec::new();
    let mut i: usize = from;
    while i < to
        invariant
            from <= i <= to <= s@.len(),
            out@ == s@.subrange(from as int, i as int),
        decreases to - i,
    {
        out.push(s[i]);
        i += 1;
        assert(out@ =~= s@.subrange(from as int, i as int));
    }
    out
}

/// The lines of a text.
pub fn lines_of(s: &[char]) -> (r: Vec<Vec<char>>)
    ensures
        view_lines(r@) == lines(s@),
{
    let mut out: Vec<Vec<char>> = Vec::new();
    let mut from: usize = 0;
    assert(s@.skip(0) =~= s@);
    assert(view_lines(out@) + lines(s@) =~= lines(s@));
    while from < s.len()
        invariant
            from <= s@.len(),
            view_lines(out@) + lines(s@.skip(from as int)) == lines(s@),
        decreases s.len() - from,
    {
        let ghost rest = s@.skip(from as int);
        let tail = sub_chars(s, from, s.len());
        assert(tail@ =~= rest);
        let n: usize = text::index_of_char(&tail, '\n');
        let ghost before = out@;
        if n < tail.len() {
            let end: usize = if n > 0 && tail[n - 1] == '\r' {
                n - 1
            } else {
                n
            };
            let line = sub_chars(&tail, 0, end);
            proof {
                assert(rest.take(n as int).len() == n);
                assert(line@ =~= without_return(rest.take(n as int)));
                assert(rest.skip(n + 1) =~= s@.skip(from + n + 1));
            }
            out.push(line);
            from = from + n + 1;
            proof {
                let more = lines(s@.skip(from as int));
                assert(view_lines(out@) =~= view_lines(before).push(line@));
                assert(view_lines(out@) + more =~= view_lines(before) + (seq![line@] + more));
            }
        } else {
            out.push(tail);
            from = s.len();
            proof {
                assert(lines(s@.skip(from as int)) =~= Seq::<Seq<char>>::empty());
                assert(view_lines(out@) =~= view_lines(before).push(rest));
                assert(view_lines(out@) + lines(s@.skip(from as int)) =~= view_lines(before) + seq![
                    rest,
                ]);
            }
        }
    }
    assert(view_lines(out@) + lines(s@.skip(from as int)) =~= view_lines(out@));
    out
}

/// Length of the word that `s` begins with.
pub open spec fn word_len(s: Seq<char>) -> nat
    decreases s.len(),
{
    if s.len() == 0 || codec::whitespace(s[0]) {
        0
    } else {
        1 + word_len(s.skip(1))
    }
}

proof fn lemma_word_len(s: Seq<char>)
    ensures
        word_len(s) <= s.len(),
    decreases s.len(),
{
    if s.len() > 0 {
        lemma_word_len(s.skip(1));
    }
}

/// The second of the words that blank space separates.
pub open spec fn second_word(s: Seq<char>) -> Option<Seq<char>> {
    let a = codec::trim_front(s);
    let b = codec::trim_front(a.skip(word_len(a) as int));
    if b.len() == 0 {
        None
    } else {
        Some(b.take(word_len(b) as int))
    }
}

fn skip_blank(s: &[char], from: usize) -> (r: usize)
    requires
        from <= s@.len(),
    ensures
        from <= r <= s@.len(),
        s@.skip(r as int) == codec::trim_front(s@.skip(from as int)),
{
    let mut i: usize = from;
    while i < s.len() && codec::is_whitespace(s[i])
        invariant
            from <= i <= s@.len(),
            codec::trim_front(s@.skip(i as int)) == codec::trim_front(s@.skip(from as int)),
        decreases s.len() - i,
    {
        assert(s@.skip(i as int).skip(1) =~= s@.skip(i + 1));
        i += 1;
    }
    i
}

fn skip_word(s: &[char], from: usize) -> (r: usize)
    requires
        from <= s@.len(),
    ensures
        from <= r <= s@.len(),
        r == from + word_len(s@.skip(from as int)),
{
    let mut i: usize = from;
    while i < s.len() && !codec::is_whitespace(s[i])
        invariant
            from <= i <= s@.len(),
            word_len(s@.skip(from as int)) == i - from + word_len(s@.skip(i as int)),
        decreases s.len() - i,
    {
        assert(s@.skip(i as int).skip(1) =~= s@.skip(i + 1));
        i += 1;
    }
    i
}

fn second_word_of(s: &[char]) -> (r: Option<Vec<char>>)
    ensures
        match r {
            Some(w) => second_word(s@) == Some(w@),
            None => second_word(s@) is None,
        },
{
    assert(s@.skip(0) =~= s@);
    let a: usize = skip_blank(s, 0);
    let a_end: usize = skip_word(s, a);
    assert(s@.skip(a as int).skip(word_len(s@.skip(a as int)) as int) =~= s@.skip(a_end as int));
    let b: usize = skip_blank(s, a_end);
    let b_end: usize = skip_word(s, b);
    if b >= s.len() {
        return None;
    }
    let w = sub_chars(s, b, b_end);
    assert(w@ =~= s@.skip(b as int).take(b_end - b));
    Some(w)
}

/// The status of a reply, or what is wrong with its first line.
pub open spec fn status_outcome(head: Seq<char>) -> Result<nat, ErrorView> {
    let all = lines(head);
    if all.len() == 0 {
        Err(ErrorView::Protocol("RTSP empty response"@))
    } else {
        match second_word(all[0]) {
            None => Err(ErrorView::Protocol("RTSP bad status line: "@ + all[0])),
            Some(w) => match text::parse_decimal_spec(w, 65535) {
                None => Err(ErrorView::Protocol("RTSP bad status code: "@ + all[0])),
                Some(v) => Ok(v),
            },
        }
    }
}

/// The contents of an outcome.
pub open spec fn view_status(r: Result<u16, RottenError>) -> Result<nat, ErrorView> {
    match r {
        Ok(v) => Ok(v as nat),
        Err(e) => Err(e@),
    }
}

fn line_error(label: &str, line: &[char]) -> (r: RottenError)
    ensures
        r@ == ErrorView::Protocol(label@ + line@),
{
    let mut s = text::owned(label);
    text::push_chars(&mut s, line);
    RottenError::Protocol(s)
}

/// The status in the first line of a head.
pub fn parse_status(head: &str) -> (r: Result<u16, RottenError>)
    ensures
        view_status(r) == status_outcome(head@),
{
    let chars = text::chars_of(head);
    let all = lines_of(&chars);
    if all.len() == 0 {
        return Err(error::protocol_error("RTSP empty response"));
    }
    assert(lines(head@)[0] == all@[0]@);
    match second_word_of(&all[0]) {
        None => Err(line_error("RTSP bad status line: ", &all[0])),
        Some(w) => match text::parse_decimal(&w, 65535) {
            None => Err(line_error("RTSP bad status code: ", &all[0])),
            Some(v) => Ok(v as u16),
        },
    }
}

/// Name and value of a header line: split at the first colon, trimmed, the name in lower case.
pub open spec fn header_of(line: Seq<char>) -> Option<(Seq<char>, Seq<char>)> {
    let i = text::first_index(line, ':');
    if 0 <= i < line.len() {
        Some(
            (
                text::ascii_lower(codec::trimmed(line.take(i))),
                codec::trimmed(line.skip(i + 1)),
            ),
        )
    } else {
        None
    }
}

/// The headers among the first `n` lines after the first.
pub open spec fn headers_upto(all: Seq<Seq<char>>, n: int) -> Seq<(Seq<char>, Seq<char>)>
    decreases n,
{
    if n <= 1 {
        Seq::empty()
    } else {
        let front = headers_upto(all, n - 1);
        match header_of(all[n - 1]) {
            Some(h) => front.push(h),
            None => front,
        }
    }
}

/// The headers in a head, in order.
pub open spec fn headers(head: Seq<char>) -> Seq<(Seq<char>, Seq<char>)> {
    headers_upto(lines(head), lines(head).len() as int)
}

/// Headers by their contents.
pub open spec fn view_headers(h: Seq<(String, String)>) -> Seq<(Seq<char>, Seq<char>)> {
    h.map_values(|e: (String, String)| (e.0@, e.1@))
}

/// The headers in a head.
pub fn parse_headers(head: &str) -> (r: Vec<(String, String)>)
    ensures
        view_headers(r@) == headers(head@),
{
    let chars = text::chars_of(head);
    let all = lines_of(&chars);
    let ghost ls = lines(head@);
    let mut out: Vec<(String, String)> = Vec::new();
    let mut i: usize = 1;
    assert(view_headers(out@) =~= headers_upto(ls, 1));
    if all.len() == 0 {
        assert(headers_upto(ls, 0) =~= Seq::<(Seq<char>, Seq<char>)>::empty());
        return out;
    }
    while i < all.len()
        invariant
            1 <= i <= all@.len(),
            ls == view_lines(all@),
            view_headers(out@) == headers_upto(ls, i as int),
        decreases all.len() - i,
    {
        let line = &all[i];
        assert(ls[i as int] == line@);
        let n: usize = text::index_of_char(line, ':');
        let ghost before = out@;
        if n < line.len() {
            let name = sub_chars(line, 0, n);
            let value = sub_chars(line, n + 1, line.len());
            assert(name@ =~= line@.take(n as int));
            assert(value@ =~= line@.skip(n + 1));
            let lower = text::to_ascii_lower(&codec::trim_chars(&name));
            out.push((text::string_of(&lower), text::string_of(&codec::trim_chars(&value))));
            assert(view_headers(out@) =~= view_headers(before).push(header_of(line@)->0));
        }
        i += 1;
    }
    out
}

/// The value of the last header of a name.
pub open spec fn header_value(h: Seq<(Seq<char>, Seq<char>)>, name: Seq<char>) -> Option<Seq<char>>
    decreases h.len(),
{
    if h.len() == 0 {
        None
    } else if h.last().0 == name {
        Some(h.last().1)
    } else {
        header_value(h.drop_last(), name)
    }
}

/// The number in a header, from zero to `max`.
pub open spec fn header_number(h: Seq<(Seq<char>, Seq<char>)>, name: Seq<char>, max: nat) -> Option<
    nat,
> {
    match header_value(h, name) {
        Some(v) => text::parse_decimal_spec(v, max),
        None => None,
    }
}

fn number_in(h: &[(String, String)], name: &str, max: u64) -> (r: Option<u64>)
    ensures
        match r {
            Some(v) => header_number(view_headers(h@), name@, max as nat) == Some(v as nat),
            None => header_number(view_headers(h@), name@, max as nat) is None,
        },
{
    let ghost all = view_headers(h@);
    let mut i: usize = h.len();
    assert(all.take(i as int) =~= all);
    while i > 0
        invariant
            i <= h@.len(),
            all == view_headers(h@),
            header_value(all, name@) == header_value(all.take(i as int), name@),
        decreases i,
    {
        assert(all.take(i as int).last() == (h@[i - 1].0@, h@[i - 1].1@));
        assert(all.take(i as int).drop_last() =~= all.take(i - 1));
        if text::same_text(h[i - 1].0.as_str(), name) {
            let chars = text::chars_of(h[i - 1].1.as_str());
            return text::parse_decimal(&chars, max);
        }
        i -= 1;
    }
    None
}

/// A reply.
#[derive(Debug)]
pub struct RtspReply {
    pub status: u16,
    pub headers: Vec<(String, String)>,
    pub body: Vec<u8>,
}

/// A reply by its contents.
pub struct ReplyView {
    pub status: nat,
    pub headers: Seq<(Seq<char>, Seq<char>)>,
    pub body: Seq<u8>,
}

impl View for RtspReply {
    type V = ReplyView;

    open spec fn view(&self) -> ReplyView {
        ReplyView {
            status: self.status as nat,
            headers: view_headers(self.headers@),
            body: self.body@,
        }
    }
}

impl RtspReply {
    /// The audio latency in samples that a reply to RECORD gives, if it is above zero.
    pub fn audio_latency(&self) -> (r: Option<u32>)
        ensures
            match r {
                Some(v) => v > 0 && header_number(self@.headers, "audio-latency"@, u32::MAX as nat)
                    == Some(v as nat),
                None => match header_number(self@.headers, "audio-latency"@, u32::MAX as nat) {
                    Some(v) => v == 0,
                    None => true,
                },
            },
    {
        match number_in(&self.headers, "audio-latency", 0xffff_ffff) {
            Some(v) => if v > 0 {
                Some(v as u32)
            } else {
                None
            },
            None => None,
        }
    }
}

/// Position behind the first empty line from `i` on, if there is one.
pub open spec fn head_end(b: Seq<u8>, i: int) -> Option<int>
    decreases b.len() - i,
{
    if i < 0 || i + 4 > b.len() {
        None
    } else if b[i] == 13 && b[i + 1] == 10 && b[i + 2] == 13 && b[i + 3] == 10 {
        Some(i + 4)
    } else {
        head_end(b, i + 1)
    }
}

fn find_head_end(b: &[u8]) -> (r: Option<usize>)
    ensures
        match r {
            Some(n) => head_end(b@, 0) == Some(n as int) && 4 <= n <= b@.len(),
            None => head_end(b@, 0) is None,
        },
{
    let mut i: usize = 0;
    while i < b.len() && b.len() - i >= 4
        invariant
            i <= b@.len(),
            head_end(b@, 0) == head_end(b@, i as int),
        decreases b.len() - i,
    {
        if b[i] == 13 && b[i + 1] == 10 && b[i + 2] == 13 && b[i + 3] == 10 {
            return Some(i + 4);
        }
        i += 1;
    }
    None
}

/// Where the reading of a reply stands.
pub enum Progress {
    /// The head is not complete.
    Head(Seq<u8>),
    /// The body is not complete.
    Body { status: nat, headers: Seq<(Seq<char>, Seq<char>)>, body: Seq<u8>, want: nat },
    Done(ReplyView),
    Failed(ErrorView),
}

/// Length of the body that the headers announce.
pub open spec fn announced(h: Seq<(Seq<char>, Seq<char>)>) -> nat {
    match header_number(h, "content-length"@, usize::MAX as nat) {
        Some(v) => v,
        None => 0,
    }
}

/// The reading of a body of which `body` has arrived.
pub open spec fn body_progress(
    status: nat,
    headers: Seq<(Seq<char>, Seq<char>)>,
    body: Seq<u8>,
    want: nat,
) -> Progress {
    if body.len() >= want {
        Progress::Done(ReplyView { status, headers, body: body.take(want as int) })
    } else {
        Progress::Body { status, headers, body, want }
    }
}

/// The reading of a reply whose head ends at `end`.
pub open spec fn after_head(b: Seq<u8>, end: int) -> Progress {
    let head = codec::lossy_text(b.take(end));
    match status_outcome(head) {
        Err(e) => Progress::Failed(e),
        Ok(status) => body_progress(
            status,
            headers(head),
            b.skip(end),
            announced(headers(head)),
        ),
    }
}

/// What arrives next; nothing means that the connection was closed.
pub open spec fn advance(p: Progress, data: Seq<u8>) -> Progress {
    match p {
        Progress::Head(buf) => {
            let b = buf + data;
            if data.len() == 0 {
                Progress::Failed(ErrorView::Protocol("RTSP connection closed"@))
            } else if b.len() > MAX_HEAD_LEN {
                Progress::Failed(ErrorView::Protocol("RTSP response headers too large"@))
            } else {
                match head_end(b, 0) {
                    Some(end) => after_head(b, end),
                    None => Progress::Head(b),
                }
            }
        },
        Progress::Body { status, headers, body, want } => if data.len() == 0 {
            Progress::Done(ReplyView { status, headers, body })
        } else {
            body_progress(status, headers, body + data, want)
        },
        Progress::Done(r) => Progress::Done(r),
        Progress::Failed(e) => Progress::Failed(e),
    }
}

/// A reply that is being read.
pub enum RtspReader {
    Head(Vec<u8>),
    Body { status: u16, headers: Vec<(String, String)>, body: Vec<u8>, want: usize },
    Done(RtspReply),
    Failed(RottenError),
}

impl View for RtspReader {
    type V = Progress;

    open spec fn view(&self) -> Progress {
        match self {
            RtspReader::Head(b) => Progress::Head(b@),
            RtspReader::Body { status, headers, body, want } => Progress::Body {
                status: *status as nat,
                headers: view_headers(headers@),
                body: body@,
                want: *want as nat,
            },
            RtspReader::Done(r) => Progress::Done(r@),
            RtspReader::Failed(e) => Progress::Failed(e@),
        }
    }
}

fn with_body(status: u16, headers: Vec<(String, String)>, body: Vec<u8>, want: usize) -> (r:
    RtspReader)
    ensures
        r@ == body_progress(status as nat, view_headers(headers@), body@, want as nat),
{
    if body.len() >= want {
        let kept = bytes::sub_vec(&body, 0, want);
        assert(kept@ =~= body@.take(want as int));
        RtspReader::Done(RtspReply { status, headers, body: kept })
    } else {
        RtspReader::Body { status, headers, body, want }
    }
}

fn with_head(b: &[u8], end: usize) -> (r: RtspReader)
    requires
        end <= b@.len(),
    ensures
        r@ == after_head(b@, end as int),
{
    let part = bytes::sub_vec(b, 0, end);
    assert(part@ =~= b@.take(end as int));
    let head = codec::text_lossy(&part);
    match parse_status(head.as_str()) {
        Err(e) => RtspReader::Failed(e),
        Ok(status) => {
            let headers = parse_headers(head.as_str());
            let body = bytes::sub_vec(b, end, b.len());
            assert(body@ =~= b@.skip(end as int));
            let want: usize = match number_in(&headers, "content-length", usize::MAX as u64) {
                Some(v) => v as usize,
                None => 0,
            };
            with_body(status, headers, body, want)
        },
    }
}

impl RtspReader {
    /// Nothing has been read.
    pub fn new() -> (r: Self)
        ensures
            r@ == Progress::Head(Seq::empty()),
    {
        let b: Vec<u8> = Vec::new();
        assert(b@ =~= Seq::<u8>::empty());
        RtspReader::Head(b)
    }

    /// Takes what was read from the connection; nothing means that it was closed.
    pub fn feed(self, data: &[u8]) -> (r: Self)
        ensures
            r@ == advance(self@, data@),
    {
        match self {
            RtspReader::Head(buf) => {
                let mut b = buf;
                if data.len() == 0 {
                    return RtspReader::Failed(error::protocol_error("RTSP connection closed"));
                }
                bytes::extend(&mut b, data);
                if b.len() > MAX_HEAD_LEN {
                    return RtspReader::Failed(
                        error::protocol_error("RTSP response headers too large"),
                    );
                }
                match find_head_end(&b) {
                    Some(end) => with_head(&b, end),
                    None => RtspReader::Head(b),
                }
            },
            RtspReader::Body { status, headers, body, want } => {
                if data.len() == 0 {
                    return RtspReader::Done(RtspReply { status, headers, body });
                }
                let mut more = body;
                bytes::extend(&mut more, data);
                with_body(status, headers, more, want)
            },
            RtspReader::Done(r) => RtspReader::Done(r),
            RtspReader::Failed(e) => RtspReader::Failed(e),
        }
    }
}

proof fn lemma_head_end_bounds(b: Seq<u8>, i: int)
    requires
        0 <= i,
    ensures
        head_end(b, i) is Some ==> i + 4 <= head_end(b, i)->0 <= b.len(),
    decreases b.len() - i,
{
    if i + 4 <= b.len() {
        lemma_head_end_bounds(b, i + 1);
    }
}

proof fn lemma_head_end_extends(a: Seq<u8>, b: Seq<u8>, i: int)
    requires
        0 <= i,
        head_end(a, i) is Some,
    ensures
        head_end(a + b, i) == head_end(a, i),
    decreases a.len() - i,
{
    if i + 4 <= a.len() {
        assert((a + b)[i] == a[i] && (a + b)[i + 1] == a[i + 1] && (a + b)[i + 2] == a[i + 2] && (a
            + b)[i + 3] == a[i + 3]);
        if !(a[i] == 13 && a[i + 1] == 10 && a[i + 2] == 13 && a[i + 3] == 10) {
            lemma_head_end_extends(a, b, i + 1);
        }
    }
}

/// It does not matter how the bytes of a reply are split up on their way: as long as the first
/// part leaves the reply incomplete, and both together are within the limit on heads, reading
/// one part after the other is reading both at once.
pub proof fn law_split_reads(p: Progress, first: Seq<u8>, second: Seq<u8>)
    requires
        first.len() > 0,
        second.len() > 0,
        p matches Progress::Head(buf) ==> buf.len() + first.len() + second.len()
            <= MAX_HEAD_LEN,
        advance(p, first) is Head || advance(p, first) is Body,
    ensures
        advance(advance(p, first), second) == advance(p, first + second),
{
    match p {
        Progress::Head(buf) => {
            let a = buf + first;
            assert(a + second =~= buf + (first + second));
            match head_end(a, 0) {
                None => {},
                Some(end) => {
                    lemma_head_end_bounds(a, 0);
                    lemma_head_end_extends(a, second, 0);
                    assert((a + second).take(end) =~= a.take(end));
                    assert((a + second).skip(end) =~= a.skip(end) + second);
                },
            }
        },
        Progress::Body { status, headers, body, want } => {
            assert(body + first + second =~= body + (first + second));
        },
        _ => {},
    }
}

/// A line ends at the first line feed, and a return right before it is no part of the line; what is
/// behind gives the other lines.
pub proof fn law_line_ends(line: Seq<char>, rest: Seq<char>)
    requires
        forall|k: int| 0 <= k < line.len() ==> #[trigger] line[k] != '\n',
    ensures
        lines(line + seq!['\r', '\n'] + rest) == seq![line] + lines(rest),
        (line.len() > 0 ==> line.last() != '\r') ==> lines(line + seq!['\n'] + rest) == seq![line]
            + lines(rest),
        line.len() > 0 ==> lines(line) == seq![line],
        lines(Seq::empty()).len() == 0,
{
    let long = line + seq!['\r', '\n'] + rest;
    let n = line.len() as int;
    lemma_first_feed(long, n + 1);
    assert(long.take(n + 1) =~= line.push('\r'));
    assert(line.push('\r').drop_last() =~= line);
    assert(long.skip(n + 2) =~= rest);
    let short = line + seq!['\n'] + rest;
    lemma_first_feed(short, n);
    assert(short.take(n) =~= line);
    assert(short.skip(n + 1) =~= rest);
    if line.len() > 0 {
        text::law_first_index(line, '\n');
    }
}

proof fn lemma_first_feed(s: Seq<char>, n: int)
    requires
        0 <= n < s.len(),
        s[n] == '\n',
        forall|k: int| 0 <= k < n ==> #[trigger] s[k] != '\n',
    ensures
        text::first_index(s, '\n') == n,
{
    text::law_first_index(s, '\n');
    let i = text::first_index(s, '\n');
    if i < n {
        assert(s[i] != '\n');
    }
    if n < i {
        assert(s[n] != '\n');
    }
}

/// The status of a reply is the number behind the protocol in its first line, whatever its reason
/// and the rest of the head.
pub proof fn law_status_is_read(protocol: Seq<char>, status: nat, tail: Seq<char>, rest: Seq<char>)
    requires
        protocol.len() > 0,
        forall|k: int| 0 <= k < protocol.len() ==> !codec::whitespace(#[trigger] protocol[k]),
        tail.len() > 0 ==> codec::whitespace(tail[0]),
        forall|k: int| 0 <= k < tail.len() ==> #[trigger] tail[k] != '\n',
        status <= 65535,
    ensures
        status_outcome(
            protocol + seq![' '] + text::decimal(status) + tail + seq!['\r', '\n'] + rest,
        ) == Ok::<nat, ErrorView>(status),
{
    let number = text::decimal(status);
    let line = protocol + seq![' '] + number + tail;
    text::lemma_decimal_digits(status);
    text::law_decimal_reads_back(status, 65535);
    let n = protocol.len() as int;
    let m = number.len() as int;
    assert forall|k: int| 0 <= k < line.len() implies #[trigger] line[k] != '\n' by {
        if k < n {
            assert(line[k] == protocol[k]);
            assert(!codec::whitespace(protocol[k]));
        } else if k > n && k < n + 1 + m {
            assert(line[k] == number[k - n - 1]);
            assert(text::is_digit(number[k - n - 1]));
        } else if k > n {
            assert(line[k] == tail[k - n - 1 - m]);
        }
    }
    law_line_ends(line, rest);
    assert(protocol + seq![' '] + number + tail + seq!['\r', '\n'] + rest =~= line + seq!['\r', '\n']
        + rest);
    assert(line[0] == protocol[0]);
    assert(!codec::whitespace(protocol[0]));
    assert(codec::trim_front(line) == line);
    assert forall|k: int| 0 <= k < n implies !codec::whitespace(#[trigger] line[k]) by {
        assert(line[k] == protocol[k]);
    }
    lemma_word_at(line, n);
    let after = line.skip(n);
    assert(after[0] == ' ');
    let b = number + tail;
    assert(after.skip(1) =~= b);
    assert(b[0] == number[0]);
    assert(text::is_digit(number[0]));
    assert(codec::trim_front(after) == codec::trim_front(b));
    assert(codec::trim_front(b) == b);
    assert forall|k: int| 0 <= k < m implies !codec::whitespace(#[trigger] b[k]) by {
        assert(b[k] == number[k]);
        assert(text::is_digit(number[k]));
    }
    if tail.len() > 0 {
        assert(b[m] == tail[0]);
    }
    lemma_word_at(b, m);
    assert(b.take(m) =~= number);
}

proof fn lemma_word_at(s: Seq<char>, n: int)
    requires
        0 <= n <= s.len(),
        forall|k: int| 0 <= k < n ==> !codec::whitespace(#[trigger] s[k]),
        n < s.len() ==> codec::whitespace(s[n]),
    ensures
        word_len(s) == n,
    decreases n,
{
    if n > 0 {
        let rest = s.skip(1);
        assert(!codec::whitespace(s[0]));
        assert forall|k: int| 0 <= k < n - 1 implies !codec::whitespace(#[trigger] rest[k]) by {
            assert(rest[k] == s[k + 1]);
        }
        if n < s.len() {
            assert(rest[n - 1] == s[n]);
        }
        lemma_word_at(rest, n - 1);
    }
}

/// A header is a name, a colon and a value; the case of the name and the blanks around both do not
/// matter, and a line without a colon is none.
pub proof fn law_header_is_read(name: Seq<char>, value: Seq<char>)
    requires
        forall|k: int| 0 <= k < name.len() ==> #[trigger] name[k] != ':',
    ensures
        header_of(name + seq![':'] + value) == Some(
            (text::ascii_lower(codec::trimmed(name)), codec::trimmed(value)),
        ),
        header_of(name) is None,
{
    let line = name + seq![':'] + value;
    let n = name.len() as int;
    text::law_first_index(line, ':');
    text::law_first_index(name, ':');
    let i = text::first_index(line, ':');
    if i < n {
        assert(line[i] == name[i]);
    }
    if n < i {
        assert(line[n] == ':');
    }
    assert(line.take(n) =~= name);
    assert(line.skip(n + 1) =~= value);
}

/// Of two headers of one name the later one counts, and a header of another name changes nothing.
pub proof fn law_last_header_counts(
    h: Seq<(Seq<char>, Seq<char>)>,
    name: Seq<char>,
    value: Seq<char>,
    other: Seq<char>,
)
    ensures
        header_value(Seq::empty(), name) is None,
        header_value(h.push((name, value)), name) == Some(value),
        other != name ==> header_value(h.push((name, value)), other) == header_value(h, other),
{
    assert(h.push((name, value)).drop_last() =~= h);
}

/// A head ends behind the first empty line: two returns with their line feeds.
pub proof fn law_head_ends_at_first_empty_line(b: Seq<u8>, from: int)
    requires
        0 <= from,
    ensures
        match head_end(b, from) {
            Some(end) => from + 4 <= end <= b.len() && b.subrange(end - 4, end) == seq![
                13u8,
                10,
                13,
                10,
            ] && forall|k: int|
                from <= k < end - 4 ==> #[trigger] b.subrange(k, k + 4) != seq![13u8, 10, 13, 10],
            None => forall|k: int|
                from <= k && k + 4 <= b.len() ==> #[trigger] b.subrange(k, k + 4) != seq![
                    13u8,
                    10,
                    13,
                    10,
                ],
        },
    decreases b.len() - from,
{
    if from + 4 <= b.len() {
        let four = b.subrange(from, from + 4);
        assert(four[0] == b[from] && four[1] == b[from + 1] && four[2] == b[from + 2] && four[3]
            == b[from + 3]);
        if b[from] == 13 && b[from + 1] == 10 && b[from + 2] == 13 && b[from + 3] == 10 {
            assert(four =~= seq![13u8, 10, 13, 10]);
        } else {
            assert(four != seq![13u8, 10, 13, 10]) by {
                let e = seq![13u8, 10, 13, 10];
                assert(e[0] == 13 && e[1] == 10 && e[2] == 13 && e[3] == 10);
            }
            law_head_ends_at_first_empty_line(b, from + 1);
        }
    }
}

/// A reply is read to the announced length: it is whole as soon as that many bytes are there, is
/// handed out with exactly these, and one byte less is not enough. A head may have 65536 bytes.
pub proof fn law_body_is_read_whole(
    status: nat,
    h: Seq<(Seq<char>, Seq<char>)>,
    body: Seq<u8>,
    data: Seq<u8>,
    want: nat,
)
    requires
        data.len() > 0,
        body.len() < want,
    ensures
        body.len() + data.len() >= want ==> (advance(
            Progress::Body { status, headers: h, body, want },
            data,
        ) matches Progress::Done(r) && r.status == status && r.headers == h && r.body.len() == want
            && r.body == (body + data).take(want as int)),
        body.len() + data.len() < want ==> advance(
            Progress::Body { status, headers: h, body, want },
            data,
        ) == (Progress::Body { status, headers: h, body: body + data, want }),
        data.len() <= 65536 && head_end(data, 0) is None ==> advance(
            Progress::Head(Seq::empty()),
            data,
        ) == Progress::Head(data),
        data.len() <= 65536 && head_end(data, 0) is Some ==> advance(
            Progress::Head(Seq::empty()),
            data,
        ) == after_head(data, head_end(data, 0)->0),
        data.len() > 65536 ==> advance(Progress::Head(Seq::empty()), data) is Failed,
{
    assert(Seq::<u8>::empty() + data =~= data);
}
/// Every line behind the first gives a header where it is one, in order.
pub proof fn law_lines_give_headers(all: Seq<Seq<char>>, n: int)
    requires
        1 <= n < all.len(),
    ensures
        headers_upto(all, 1).len() == 0,
        header_of(all[n]) is None ==> headers_upto(all, n + 1) == headers_upto(all, n),
        header_of(all[n]) matches Some(h) ==> headers_upto(all, n + 1) == headers_upto(all, n).push(h),
{
}

/// The announced length is the number in the header for it, and zero without a number.
pub proof fn law_length_is_announced(h: Seq<(Seq<char>, Seq<char>)>, n: nat)
    requires
        n <= usize::MAX,
    ensures
        announced(h.push(("content-length"@, text::decimal(n)))) == n,
        header_value(h, "content-length"@) is None ==> announced(h) == 0,
{
    law_last_header_counts(h, "content-length"@, text::decimal(n), "content-length"@);
    text::law_decimal_reads_back(n, usize::MAX as nat);
}
} // verus!
