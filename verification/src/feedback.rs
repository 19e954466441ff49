//! What a receiver says of a mirror session, in short.

use crate::plist_value::{self, Plist, PlistView};
use crate::text;
use vstd::prelude::*;

verus! {

/// A value of a report: data only by its length, and lists, dictionaries and dates by their debug
/// text.
#[derive(Debug)]
pub enum ReportValue {
    Text(String),
    Boolean(bool),
    Integer(i64),
    /// A real number, by its bits.
    Real(u64),
    DataLen(usize),
    Debug(String),
    /// A value with a date that cannot be written out.
    Unwritten,
}

/// A value of a report by its contents.
pub enum ReportView {
    Text(Seq<char>),
    Boolean(bool),
    Integer(int),
    Real(u64),
    DataLen(nat),
    Debug(Seq<char>),
    Unwritten,
}

impl View for ReportValue {
    type V = ReportView;

    open spec fn view(&self) -> ReportView {
        match *self {
            ReportValue::Text(s) => ReportView::Text(s@),
            ReportValue::Boolean(b) => ReportView::Boolean(b),
            ReportValue::Integer(i) => ReportView::Integer(i as int),
            ReportValue::Real(b) => ReportView::Real(b),
            ReportValue::DataLen(n) => ReportView::DataLen(n as nat),
            ReportValue::Debug(s) => ReportView::Debug(s@),
            ReportValue::Unwritten => ReportView::Unwritten,
        }
    }
}

/// The value as it is reported, given its debug text. An integer above the signed range is
/// reported as zero.
pub open spec fn reported(p: PlistView, debug: Option<Seq<char>>) -> ReportView {
    match p {
        PlistView::Text(s) => ReportView::Text(s),
        PlistView::Boolean(b) => ReportView::Boolean(b),
        PlistView::Integer(i) => ReportView::Integer(
            if i64::MIN <= i <= i64::MAX {
                i
            } else {
                0
            },
        ),
        PlistView::Real(b) => ReportView::Real(b),
        PlistView::Data(d) => ReportView::DataLen(d.len()),
        _ => match debug {
            Some(s) => ReportView::Debug(s),
            None => ReportView::Unwritten,
        },
    }
}

/// Whether a value is reported by its debug text.
pub open spec fn by_debug(p: PlistView) -> bool {
    p is Array || p is Dict || p is Date || p is Other
}

/// Whether a value is reported by its debug text and has one.
fn has_debug(p: &Plist) -> (r: bool)
    ensures
        r == (by_debug(p@) && plist_value::printable(p@)),
{
    match p {
        Plist::Array(_) | Plist::Dict(_) | Plist::Date { .. } | Plist::Other => {
            plist_value::is_printable(p)
        },
        _ => false,
    }
}

/// The value as it is reported, given its debug text.
pub fn report_value(p: &Plist, debug: Option<String>) -> (r: ReportValue)
    ensures
        r@ == reported(p@, text::view_text(debug)),
{
    match p {
        Plist::Text(s) => ReportValue::Text(text::owned(s.as_str())),
        Plist::Boolean(b) => ReportValue::Boolean(*b),
        Plist::Integer(i) => if -0x8000_0000_0000_0000 <= *i && *i <= 0x7fff_ffff_ffff_ffff {
            ReportValue::Integer(*i as i64)
        } else {
            ReportValue::Integer(0)
        },
        Plist::Real(b) => ReportValue::Real(*b),
        Plist::Data(d) => ReportValue::DataLen(d.len()),
        _ => match debug {
            Some(s) => ReportValue::Debug(s),
            None => ReportValue::Unwritten,
        },
    }
}

/// What is reported of one stream.
#[derive(Debug)]
pub struct StreamReport {
    pub kind: Option<i64>,
    pub buffered: Option<bool>,
    pub playing: Option<bool>,
    pub ready: Option<bool>,
    pub state: Option<ReportValue>,
}

/// What is reported of one stream, by its contents.
pub struct StreamReportView {
    pub kind: Option<int>,
    pub buffered: Option<bool>,
    pub playing: Option<bool>,
    pub ready: Option<bool>,
    pub state: Option<ReportView>,
}

impl View for StreamReport {
    type V = StreamReportView;

    open spec fn view(&self) -> StreamReportView {
        StreamReportView {
            kind: match self.kind {
                Some(k) => Some(k as int),
                None => None,
            },
            buffered: self.buffered,
            playing: self.playing,
            ready: self.ready,
            state: match self.state {
                Some(s) => Some(s@),
                None => None,
            },
        }
    }
}

/// The truth value under a key, where there is one.
pub open spec fn flag_under(p: PlistView, key: Seq<char>) -> Option<bool> {
    match plist_value::entry(p, key) {
        Some(PlistView::Boolean(b)) => Some(b),
        _ => None,
    }
}

/// What is reported of the stream of a dictionary, given the debug text of its state.
pub open spec fn stream_report(p: PlistView, debug: Option<Seq<char>>) -> StreamReportView {
    StreamReportView {
        kind: match plist_value::entry(p, "type"@) {
            Some(PlistView::Integer(i)) => if i64::MIN <= i <= i64::MAX {
                Some(i)
            } else {
                None
            },
            _ => None,
        },
        buffered: flag_under(p, "buffered"@),
        playing: flag_under(p, "playing"@),
        ready: flag_under(p, "ready"@),
        state: match plist_value::entry(p, "state"@) {
            Some(v) => Some(reported(v, debug)),
            None => None,
        },
    }
}

fn flag_of(p: &Plist, key: &str) -> (r: Option<bool>)
    ensures
        r == flag_under(p@, key@),
{
    match p.get(key) {
        Some(Plist::Boolean(b)) => Some(*b),
        _ => None,
    }
}

/// What is reported of the stream of a dictionary, given the debug text of its state.
pub fn report_stream(p: &Plist, debug: Option<String>) -> (r: StreamReport)
    ensures
        r@ == stream_report(p@, text::view_text(debug)),
{
    let kind = match p.get("type") {
        Some(Plist::Integer(i)) => if -0x8000_0000_0000_0000 <= *i && *i <= 0x7fff_ffff_ffff_ffff {
            Some(*i as i64)
        } else {
            None
        },
        _ => None,
    };
    let state = match p.get("state") {
        Some(v) => Some(report_value(v, debug)),
        None => None,
    };
    StreamReport {
        kind,
        buffered: flag_of(p, "buffered"),
        playing: flag_of(p, "playing"),
        ready: flag_of(p, "ready"),
        state,
    }
}

/// The debug text of the state of stream `i`, where it has one.
pub open spec fn state_debug(data: Seq<u8>, stream: PlistView, i: nat) -> Option<Seq<char>> {
    match plist_value::entry(stream, "state"@) {
        Some(v) => if plist_value::printable(v) {
            plist_value::item_debug(data, "streams"@, i, "state"@)
        } else {
            None
        },
        None => None,
    }
}

/// What is reported of the dictionaries among the first `n` items of the list of streams, in their
/// order.
pub open spec fn stream_reports(data: Seq<u8>, list: Seq<PlistView>, n: nat) -> Seq<
    StreamReportView,
>
    decreases n,
{
    if n == 0 {
        Seq::empty()
    } else {
        let i = (n - 1) as nat;
        let before = stream_reports(data, list, i);
        let stream = list[i as int];
        if stream is Dict {
            before.push(stream_report(stream, state_debug(data, stream, i)))
        } else {
            before
        }
    }
}

/// The reports of streams, by their contents.
pub open spec fn view_streams(v: Seq<StreamReport>) -> Seq<StreamReportView> {
    v.map_values(|s: StreamReport| s@)
}

fn report_streams(body: &[u8], root: &Plist) -> (r: Option<Vec<StreamReport>>)
    requires
        plist_value::read_outcome(body@) == Ok::<PlistView, Seq<char>>(root@),
    ensures
        match plist_value::entry(root@, "streams"@) {
            Some(PlistView::Array(a)) => r matches Some(v) && view_streams(v@) == stream_reports(
                body@,
                a,
                a.len(),
            ),
            _ => r is None,
        },
{
    let items = match root.get("streams") {
        Some(Plist::Array(items)) => items,
        _ => return None,
    };
    let ghost all = plist_value::entry(root@, "streams"@)->Some_0->Array_0;
    let mut out: Vec<StreamReport> = Vec::new();
    let mut i: usize = 0;
    assert(view_streams(out@) =~= stream_reports(body@, all, 0));
    while i < items.len()
        invariant
            i <= items@.len(),
            plist_value::read_outcome(body@) == Ok::<PlistView, Seq<char>>(root@),
            plist_value::entry(root@, "streams"@) == Some(PlistView::Array(all)),
            all.len() == items@.len(),
            forall|k: int| 0 <= k < items@.len() ==> #[trigger] all[k] == items@[k]@,
            view_streams(out@) == stream_reports(body@, all, i as nat),
        decreases items.len() - i,
    {
        let ghost before = out@;
        assert(all[i as int] == items@[i as int]@);
        match &items[i] {
            Plist::Dict(_) => {
                let debug = debug_of_state(body, root, &items[i], i);
                let s = report_stream(&items[i], debug);
                assert(s@ == stream_report(
                    all[i as int],
                    state_debug(body@, all[i as int], i as nat),
                ));
                out.push(s);
                assert(view_streams(out@) =~= view_streams(before).push(s@));
            },
            _ => {},
        }
        i += 1;
    }
    Some(out)
}

/// The debug text of the state of stream `i`, where it is reported by one.
fn debug_of_state(body: &[u8], root: &Plist, stream: &Plist, i: usize) -> (r: Option<String>)
    requires
        plist_value::read_outcome(body@) == Ok::<PlistView, Seq<char>>(root@),
        plist_value::entry(root@, "streams"@) matches Some(PlistView::Array(a)) && i < a.len()
            && a[i as int] == stream@,
    ensures
        stream_report(stream@, text::view_text(r)) == stream_report(
            stream@,
            state_debug(body@, stream@, i as nat),
        ),
{
    match stream.get("state") {
        Some(v) => if has_debug(v) {
            plist_value::show_item(body, "streams", i, "state")
        } else {
            None
        },
        None => None,
    }
}

/// A report on a session.
#[derive(Debug)]
pub enum FeedbackSummary {
    /// The reply is no property list.
    Unread,
    /// The reply is a property list, but no dictionary.
    NotADict,
    Dict {
        /// All keys of the reply, in their order.
        keys: Vec<String>,
        values: Vec<(String, ReportValue)>,
        streams: Option<Vec<StreamReport>>,
    },
}

/// A report on a session by its contents.
pub enum SummaryView {
    Unread,
    NotADict,
    Dict {
        keys: Seq<Seq<char>>,
        values: Seq<(Seq<char>, ReportView)>,
        streams: Option<Seq<StreamReportView>>,
    },
}

/// Texts by their contents.
pub open spec fn view_keys(keys: Seq<String>) -> Seq<Seq<char>> {
    keys.map_values(|k: String| k@)
}

/// Reported values by their contents.
pub open spec fn view_values(values: Seq<(String, ReportValue)>) -> Seq<(Seq<char>, ReportView)> {
    values.map_values(|v: (String, ReportValue)| (v.0@, v.1@))
}

impl View for FeedbackSummary {
    type V = SummaryView;

    open spec fn view(&self) -> SummaryView {
        match *self {
            FeedbackSummary::Unread => SummaryView::Unread,
            FeedbackSummary::NotADict => SummaryView::NotADict,
            FeedbackSummary::Dict { keys, values, streams } => SummaryView::Dict {
                keys: view_keys(keys@),
                values: view_values(values@),
                streams: match streams {
                    Some(s) => Some(view_streams(s@)),
                    None => None,
                },
            },
        }
    }
}

/// The values so far and, where the dictionary has the key, what is reported of its value.
pub open spec fn noted(
    values: Seq<(Seq<char>, ReportView)>,
    data: Seq<u8>,
    p: PlistView,
    key: Seq<char>,
) -> Seq<(Seq<char>, ReportView)> {
    match plist_value::entry(p, key) {
        Some(v) => values.push(
            (
                key,
                reported(
                    v,
                    if plist_value::printable(v) {
                        plist_value::entry_debug(data, key)
                    } else {
                        None
                    },
                ),
            ),
        ),
        None => values,
    }
}

/// What is reported of the keys that tell of the session.
pub open spec fn noted_values(data: Seq<u8>, p: PlistView) -> Seq<(Seq<char>, ReportView)> {
    let v = noted(Seq::empty(), data, p, "status"@);
    let v = noted(v, data, p, "statusFlags"@);
    let v = noted(v, data, p, "error"@);
    let v = noted(v, data, p, "mirroring"@);
    let v = noted(v, data, p, "video"@);
    let v = noted(v, data, p, "audio"@);
    noted(v, data, p, "reason"@)
}

/// The report on a reply.
pub open spec fn summary_of(data: Seq<u8>) -> SummaryView {
    match plist_value::read_outcome(data) {
        Err(_) => SummaryView::Unread,
        Ok(p) => match p {
            PlistView::Dict(d) => SummaryView::Dict {
                keys: d.map_values(|e: (Seq<char>, PlistView)| e.0),
                values: noted_values(data, p),
                streams: match plist_value::entry(p, "streams"@) {
                    Some(PlistView::Array(a)) => Some(stream_reports(data, a, a.len())),
                    _ => None,
                },
            },
            _ => SummaryView::NotADict,
        },
    }
}

fn note(values: &mut Vec<(String, ReportValue)>, body: &[u8], p: &Plist, key: &str)
    requires
        plist_value::read_outcome(body@) == Ok::<PlistView, Seq<char>>(p@),
    ensures
        view_values(final(values)@) == noted(view_values(old(values)@), body@, p@, key@),
{
    if let Some(v) = p.get(key) {
        let debug = if has_debug(v) {
            plist_value::show_entry(body, key)
        } else {
            None
        };
        let entry = (text::owned(key), report_value(v, debug));
        let ghost before = values@;
        values.push(entry);
        assert(view_values(values@) =~= view_values(before).push((key@, entry.1@)));
    }
}

fn keys_of(p: &Plist, entries: &Vec<(String, Plist)>) -> (r: Vec<String>)
    requires
        *p == Plist::Dict(*entries),
    ensures
        p@ matches PlistView::Dict(d) && view_keys(r@) == d.map_values(
            |e: (Seq<char>, PlistView)| e.0,
        ),
{
    let ghost d = p@->Dict_0;
    let mut out: Vec<String> = Vec::new();
    let mut i: usize = 0;
    while i < entries.len()
        invariant
            i <= entries@.len(),
            out@.len() == i,
            forall|k: int| 0 <= k < i ==> (#[trigger] out@[k])@ == entries@[k].0@,
        decreases entries.len() - i,
    {
        out.push(text::owned(entries[i].0.as_str()));
        i += 1;
    }
    assert(view_keys(out@) =~= d.map_values(|e: (Seq<char>, PlistView)| e.0));
    out
}

/// The report on a reply to a feedback request.
pub fn feedback_plist_summary(body: &[u8]) -> (r: FeedbackSummary)
    ensures
        r@ == summary_of(body@),
{
    let p = match plist_value::read_plist(body) {
        Ok(p) => p,
        Err(_) => {
            return FeedbackSummary::Unread;
        },
    };
    match &p {
        Plist::Dict(entries) => {
            let keys = keys_of(&p, entries);
            let mut values: Vec<(String, ReportValue)> = Vec::new();
            assert(view_values(values@) =~= Seq::empty());
            note(&mut values, body, &p, "status");
            note(&mut values, body, &p, "statusFlags");
            note(&mut values, body, &p, "error");
            note(&mut values, body, &p, "mirroring");
            note(&mut values, body, &p, "video");
            note(&mut values, body, &p, "audio");
            note(&mut values, body, &p, "reason");
            let streams = report_streams(body, &p);
            FeedbackSummary::Dict { keys, values, streams }
        },
        _ => FeedbackSummary::NotADict,
    }
}

/// A value of a noted key is reported under its key, as what it is: texts, truth values and numbers
/// as they stand, and data by its length.
pub proof fn law_noted_value_is_reported(
    data: Seq<u8>,
    p: PlistView,
    key: Seq<char>,
    v: PlistView,
)
    requires
        key == "status"@ || key == "statusFlags"@ || key == "error"@ || key == "mirroring"@ || key
            == "video"@ || key == "audio"@ || key == "reason"@,
        plist_value::stands_under(p, key, v),
    ensures
        v matches PlistView::Text(s) ==> noted_values(data, p).contains((key, ReportView::Text(s))),
        v matches PlistView::Boolean(b) ==> noted_values(data, p).contains(
            (key, ReportView::Boolean(b)),
        ),
        v matches PlistView::Integer(i) ==> (-0x8000_0000_0000_0000 <= i < 0x8000_0000_0000_0000
            ==> noted_values(data, p).contains((key, ReportView::Integer(i)))),
        v matches PlistView::Data(d) ==> noted_values(data, p).contains(
            (key, ReportView::DataLen(d.len())),
        ),
{
    plist_value::law_entry_is_first_of_its_key(p, key);
    let a = noted(Seq::empty(), data, p, "status"@);
    let b = noted(a, data, p, "statusFlags"@);
    let c = noted(b, data, p, "error"@);
    let d = noted(c, data, p, "mirroring"@);
    let e = noted(d, data, p, "video"@);
    let f = noted(e, data, p, "audio"@);
    let g = noted(f, data, p, "reason"@);
    let debug = if plist_value::printable(v) {
        plist_value::entry_debug(data, key)
    } else {
        None
    };
    let x = (key, reported(v, debug));
    lemma_noted(Seq::empty(), data, p, "status"@, x);
    lemma_noted(a, data, p, "statusFlags"@, x);
    lemma_noted(b, data, p, "error"@, x);
    lemma_noted(c, data, p, "mirroring"@, x);
    lemma_noted(d, data, p, "video"@, x);
    lemma_noted(e, data, p, "audio"@, x);
    lemma_noted(f, data, p, "reason"@, x);
    assert(g.contains(x));
}

proof fn lemma_noted(
    values: Seq<(Seq<char>, ReportView)>,
    data: Seq<u8>,
    p: PlistView,
    key: Seq<char>,
    x: (Seq<char>, ReportView),
)
    ensures
        values.contains(x) ==> noted(values, data, p, key).contains(x),
        (plist_value::entry(p, key) matches Some(v) && x == (
            key,
            reported(
                v,
                if plist_value::printable(v) {
                    plist_value::entry_debug(data, key)
                } else {
                    None
                },
            ),
        )) ==> noted(values, data, p, key).contains(x),
{
    let r = noted(values, data, p, key);
    if values.contains(x) {
        let i = choose|i: int| 0 <= i < values.len() && values[i] == x;
        assert(r[i] == x);
    }
    if plist_value::entry(p, key) is Some {
        assert(r.last() == r[r.len() - 1]);
    }
}

/// A stream is reported by its type, its three flags and its state, as they stand under their keys.
pub proof fn law_stream_is_reported(p: PlistView, debug: Option<Seq<char>>, i: int, b: bool)
    ensures
        plist_value::stands_under(p, "type"@, PlistView::Integer(i)) && -0x8000_0000_0000_0000 <= i
            < 0x8000_0000_0000_0000 ==> stream_report(p, debug).kind == Some(i),
        plist_value::stands_under(p, "buffered"@, PlistView::Boolean(b)) <==> stream_report(
            p,
            debug,
        ).buffered == Some(b),
        plist_value::stands_under(p, "playing"@, PlistView::Boolean(b)) <==> stream_report(
            p,
            debug,
        ).playing == Some(b),
        plist_value::stands_under(p, "ready"@, PlistView::Boolean(b)) <==> stream_report(
            p,
            debug,
        ).ready == Some(b),
        plist_value::stands_under(p, "state"@, PlistView::Integer(i)) && -0x8000_0000_0000_0000 <= i
            < 0x8000_0000_0000_0000 ==> stream_report(p, debug).state == Some(
            ReportView::Integer(i),
        ),
{
    plist_value::law_entry_is_first_of_its_key(p, "type"@);
    plist_value::law_entry_is_first_of_its_key(p, "buffered"@);
    plist_value::law_entry_is_first_of_its_key(p, "playing"@);
    plist_value::law_entry_is_first_of_its_key(p, "ready"@);
    plist_value::law_entry_is_first_of_its_key(p, "state"@);
}
/// One stream more adds a report exactly where it is a dictionary, behind the others.
pub proof fn law_streams_are_reported(data: Seq<u8>, list: Seq<PlistView>, n: nat)
    requires
        n < list.len(),
    ensures
        stream_reports(data, list, 0).len() == 0,
        !(list[n as int] is Dict) ==> stream_reports(data, list, n + 1) == stream_reports(
            data,
            list,
            n,
        ),
        list[n as int] is Dict ==> stream_reports(data, list, n + 1).len() == stream_reports(
            data,
            list,
            n,
        ).len() + 1 && stream_reports(data, list, n + 1).drop_last() == stream_reports(
            data,
            list,
            n,
        ) && stream_reports(data, list, n + 1).last().buffered == flag_under(
            list[n as int],
            "buffered"@,
        ),
{
    let before = stream_reports(data, list, n);
    let all = stream_reports(data, list, n + 1);
    if list[n as int] is Dict {
        assert(all.drop_last() =~= before);
    }
}
/// Every kind of value is reported as what it is: a real number by its bits, and what has no short
/// form by its long one where there is one.
pub proof fn law_kinds_are_reported(bits: u64, p: PlistView, debug: Option<Seq<char>>)
    ensures
        reported(PlistView::Real(bits), debug) == ReportView::Real(bits),
        p is Array || p is Dict || p is Date || p is Other ==> (debug matches Some(s) ==> reported(
            p,
            debug,
        ) == ReportView::Debug(s)),
        p is Array || p is Dict || p is Date || p is Other ==> reported(p, None)
            == ReportView::Unwritten,
{
}
/// The summary of a dictionary names all its keys, in order.
pub proof fn law_keys_are_named(data: Seq<u8>, d: Seq<(Seq<char>, PlistView)>)
    requires
        plist_value::read_outcome(data) == Ok::<PlistView, Seq<char>>(PlistView::Dict(d)),
    ensures
        summary_of(data) matches SummaryView::Dict { keys, values, streams } && keys.len() == d.len()
            && (forall|i: int| 0 <= i < d.len() ==> #[trigger] keys[i] == d[i].0) && values
            == noted_values(data, PlistView::Dict(d)),
{
}
} // verus!
