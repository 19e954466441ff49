//! RTSP requests on the persistent control connection.

use crate::bytes;
use crate::text;
use vstd::prelude::*;
use vstd::string::*;

verus! {

pub const AIRPLAY_USER_AGENT: &'static str = "AirPlay/320.20";

/// Extra header lines.
pub open spec fn extra_lines(extra: Seq<(Seq<char>, Seq<char>)>) -> Seq<char>
    decreases extra.len(),
{
    if extra.len() == 0 {
        Seq::empty()
    } else {
        extra_lines(extra.drop_last()) + extra.last().0 + ": "@ + extra.last().1 + "\r\n"@
    }
}

/// Header lines by their contents.
pub open spec fn view_extra(extra: Seq<(&str, &str)>) -> Seq<(Seq<char>, Seq<char>)> {
    extra.map_values(|e: (&str, &str)| (e.0@, e.1@))
}

/// The first lines of a request.
pub open spec fn request_start(
    method: Seq<char>,
    uri: Seq<char>,
    seq: nat,
    extra: Seq<(Seq<char>, Seq<char>)>,
) -> Seq<char> {
    method + " "@ + uri + " RTSP/1.0\r\nCSeq: "@ + text::decimal(seq) + "\r\nUser-Agent: "@
        + "AirPlay/320.20"@ + "\r\n"@ + extra_lines(extra)
}

/// The head of an RTSP request. The content type is left out where there is no content, and a
/// RECORD request says where it starts.
pub open spec fn rtsp_head(
    method: Seq<char>,
    uri: Seq<char>,
    seq: nat,
    content_type: Seq<char>,
    body_len: nat,
    extra: Seq<(Seq<char>, Seq<char>)>,
) -> Seq<char> {
    request_start(method, uri, seq, extra) + (if content_type.len() > 0 && body_len > 0 {
        "Content-Type: "@ + content_type + "\r\n"@
    } else {
        Seq::empty()
    }) + (if method == "RECORD"@ {
        "Range: npt=0-\r\n"@ + "RTP-Info: seq=0;rtptime=0\r\n"@
    } else {
        Seq::empty()
    }) + "Content-Length: "@ + text::decimal(body_len) + "\r\n\r\n"@
}

/// The head of a POST request.
pub open spec fn post_head(
    path: Seq<char>,
    seq: nat,
    content_type: Seq<char>,
    body_len: nat,
    extra: Seq<(Seq<char>, Seq<char>)>,
) -> Seq<char> {
    request_start("POST"@, path, seq, extra) + "Content-Type: "@ + content_type
        + "\r\nContent-Length: "@ + text::decimal(body_len) + "\r\n\r\n"@
}

fn start_text(method: &str, uri: &str, seq: u32, extra: &[(&str, &str)]) -> (r: String)
    ensures
        r@ == request_start(method@, uri@, seq as nat, view_extra(extra@)),
{
    let mut s = text::owned(method);
    s.append(" ");
    s.append(uri);
    s.append(" RTSP/1.0\r\nCSeq: ");
    text::push_decimal(&mut s, seq as u64);
    s.append("\r\nUser-Agent: ");
    s.append(AIRPLAY_USER_AGENT);
    s.append("\r\n");
    let ghost start = s@;
    let ghost all = view_extra(extra@);
    let mut i: usize = 0;
    assert(s@ =~= start + extra_lines(all.take(0)));
    while i < extra.len()
        invariant
            i <= extra@.len(),
            all == view_extra(extra@),
            s@ == start + extra_lines(all.take(i as int)),
        decreases extra.len() - i,
    {
        let ghost before = s@;
        s.append(extra[i].0);
        s.append(": ");
        s.append(extra[i].1);
        s.append("\r\n");
        proof {
            assert(all.take(i + 1).drop_last() =~= all.take(i as int));
            assert(all.take(i + 1).last() == all[i as int]);
            assert(s@ =~= start + extra_lines(all.take(i + 1)));
        }
        i += 1;
    }
    assert(all.take(i as int) =~= all);
    s
}

fn rtsp_head_text(
    method: &str,
    uri: &str,
    seq: u32,
    content_type: &str,
    body_len: usize,
    extra: &[(&str, &str)],
) -> (r: String)
    ensures
        r@ == rtsp_head(
            method@,
            uri@,
            seq as nat,
            content_type@,
            body_len as nat,
            view_extra(extra@),
        ),
{
    let mut s = start_text(method, uri, seq, extra);
    let ghost start = s@;
    if !content_type.is_empty() && body_len > 0 {
        s.append("Content-Type: ");
        s.append(content_type);
        s.append("\r\n");
        assert(s@ =~= start + ("Content-Type: "@ + content_type@ + "\r\n"@));
    } else {
        assert(s@ =~= start + Seq::<char>::empty());
    }
    let ghost middle = s@;
    if text::same_text(method, "RECORD") {
        s.append("Range: npt=0-\r\n");
        s.append("RTP-Info: seq=0;rtptime=0\r\n");
        assert(s@ =~= middle + ("Range: npt=0-\r\n"@ + "RTP-Info: seq=0;rtptime=0\r\n"@));
    } else {
        assert(s@ =~= middle + Seq::<char>::empty());
    }
    s.append("Content-Length: ");
    text::push_decimal(&mut s, body_len as u64);
    s.append("\r\n\r\n");
    s
}

fn post_head_text(
    path: &str,
    seq: u32,
    content_type: &str,
    body_len: usize,
    extra: &[(&str, &str)],
) -> (r: String)
    ensures
        r@ == post_head(path@, seq as nat, content_type@, body_len as nat, view_extra(extra@)),
{
    let mut s = start_text("POST", path, seq, extra);
    s.append("Content-Type: ");
    s.append(content_type);
    s.append("\r\nContent-Length: ");
    text::push_decimal(&mut s, body_len as u64);
    s.append("\r\n\r\n");
    s
}

/// The numbering of requests on one connection.
pub struct AirPlayRtspConn {
    cseq: u32,
}

/// A request as it goes over the wire.
pub open spec fn wire(head: Seq<char>, body: Seq<u8>) -> Seq<u8> {
    text::utf8(head) + body
}

impl AirPlayRtspConn {
    /// Number of the last request.
    pub closed spec fn cseq(&self) -> nat {
        self.cseq as nat
    }

    /// A connection on which nothing was sent.
    pub fn connect() -> (r: Self)
        ensures
            r.cseq() == 0,
    {
        AirPlayRtspConn { cseq: 0 }
    }

    /// Whether another request can be numbered.
    pub fn has_room(&self) -> (r: bool)
        ensures
            r == (self.cseq() < u32::MAX),
    {
        self.cseq < 0xffff_ffff
    }

    fn rtsp_request(
        &mut self,
        method: &str,
        uri: &str,
        content_type: &str,
        body: &[u8],
        extra: &[(&str, &str)],
    ) -> (r: Vec<u8>)
        requires
            old(self).cseq() < u32::MAX,
        ensures
            final(self).cseq() == old(self).cseq() + 1,
            r@ == wire(
                rtsp_head(
                    method@,
                    uri@,
                    final(self).cseq(),
                    content_type@,
                    body@.len(),
                    view_extra(extra@),
                ),
                body@,
            ),
    {
        self.cseq += 1;
        let head = rtsp_head_text(method, uri, self.cseq, content_type, body.len(), extra);
        bytes::concat(head.as_str().as_bytes(), body)
    }

    fn post(
        &mut self,
        path: &str,
        content_type: &str,
        body: &[u8],
        extra: &[(&str, &str)],
    ) -> (r: Vec<u8>)
        requires
            old(self).cseq() < u32::MAX,
        ensures
            final(self).cseq() == old(self).cseq() + 1,
            r@ == wire(
                post_head(
                    path@,
                    final(self).cseq(),
                    content_type@,
                    body@.len(),
                    view_extra(extra@),
                ),
                body@,
            ),
    {
        self.cseq += 1;
        let head = post_head_text(path, self.cseq, content_type, body.len(), extra);
        bytes::concat(head.as_str().as_bytes(), body)
    }

    /// A pair-verify request.
    pub fn post_pair_verify(&mut self, path: &str, body: &[u8]) -> (r: Vec<u8>)
        requires
            old(self).cseq() < u32::MAX,
        ensures
            final(self).cseq() == old(self).cseq() + 1,
            r@ == wire(
                post_head(
                    path@,
                    final(self).cseq(),
                    "application/octet-stream"@,
                    body@.len(),
                    seq![("X-Apple-ProtocolVersion"@, "1"@)],
                ),
                body@,
            ),
    {
        let extra: [(&str, &str); 1] = [("X-Apple-ProtocolVersion", "1")];
        assert(view_extra(extra@) =~= seq![("X-Apple-ProtocolVersion"@, "1"@)]);
        self.post(path, "application/octet-stream", body, &extra)
    }

    /// A FairPlay set-up request.
    pub fn post_fp_setup(&mut self, body: &[u8]) -> (r: Vec<u8>)
        requires
            old(self).cseq() < u32::MAX,
        ensures
            final(self).cseq() == old(self).cseq() + 1,
            r@ == wire(
                post_head(
                    "/fp-setup"@,
                    final(self).cseq(),
                    "application/octet-stream"@,
                    body@.len(),
                    seq![("X-Apple-ET"@, "32"@)],
                ),
                body@,
            ),
    {
        let extra: [(&str, &str); 1] = [("X-Apple-ET", "32")];
        assert(view_extra(extra@) =~= seq![("X-Apple-ET"@, "32"@)]);
        self.post("/fp-setup", "application/octet-stream", body, &extra)
    }

    /// A SETUP request with a binary property list.
    pub fn rtsp_setup(&mut self, uri: &str, body: &[u8], dacp_id: &str, active_remote: u32) -> (r:
        Vec<u8>)
        requires
            old(self).cseq() < u32::MAX,
        ensures
            final(self).cseq() == old(self).cseq() + 1,
            r@ == wire(
                rtsp_head(
                    "SETUP"@,
                    uri@,
                    final(self).cseq(),
                    "application/x-apple-binary-plist"@,
                    body@.len(),
                    seq![
                        ("DACP-ID"@, dacp_id@),
                        ("Active-Remote"@, text::decimal(active_remote as nat)),
                    ],
                ),
                body@,
            ),
    {
        let remote = text::decimal_text(active_remote as u64);
        let extra: [(&str, &str); 2] = [
            ("DACP-ID", dacp_id),
            ("Active-Remote", remote.as_str()),
        ];
        assert(view_extra(extra@) =~= seq![
            ("DACP-ID"@, dacp_id@),
            ("Active-Remote"@, text::decimal(active_remote as nat)),
        ]);
        self.rtsp_request("SETUP", uri, "application/x-apple-binary-plist", body, &extra)
    }

    /// A RECORD request.
    pub fn rtsp_record(
        &mut self,
        uri: &str,
        session_uuid: &str,
        dacp_id: &str,
        active_remote: u32,
    ) -> (r: Vec<u8>)
        requires
            old(self).cseq() < u32::MAX,
        ensures
            final(self).cseq() == old(self).cseq() + 1,
            r@ == wire(
                rtsp_head(
                    "RECORD"@,
                    uri@,
                    final(self).cseq(),
                    ""@,
                    0,
                    seq![
                        ("Session"@, session_uuid@),
                        ("DACP-ID"@, dacp_id@),
                        ("Active-Remote"@, text::decimal(active_remote as nat)),
                    ],
                ),
                Seq::empty(),
            ),
    {
        let remote = text::decimal_text(active_remote as u64);
        let extra: [(&str, &str); 3] = [
            ("Session", session_uuid),
            ("DACP-ID", dacp_id),
            ("Active-Remote", remote.as_str()),
        ];
        assert(view_extra(extra@) =~= seq![
            ("Session"@, session_uuid@),
            ("DACP-ID"@, dacp_id@),
            ("Active-Remote"@, text::decimal(active_remote as nat)),
        ]);
        let nothing: Vec<u8> = Vec::new();
        self.rtsp_request("RECORD", uri, "", &nothing, &extra)
    }

    /// A SET_PARAMETER request.
    pub fn rtsp_set_parameter(&mut self, uri: &str, session_uuid: &str, body: &[u8]) -> (r: Vec<
        u8,
    >)
        requires
            old(self).cseq() < u32::MAX,
        ensures
            final(self).cseq() == old(self).cseq() + 1,
            r@ == wire(
                rtsp_head(
                    "SET_PARAMETER"@,
                    uri@,
                    final(self).cseq(),
                    "text/parameters"@,
                    body@.len(),
                    seq![("Session"@, session_uuid@)],
                ),
                body@,
            ),
    {
        let extra: [(&str, &str); 1] = [("Session", session_uuid)];
        assert(view_extra(extra@) =~= seq![("Session"@, session_uuid@)]);
        self.rtsp_request("SET_PARAMETER", uri, "text/parameters", body, &extra)
    }

    /// A feedback request.
    pub fn rtsp_post_feedback(&mut self) -> (r: Vec<u8>)
        requires
            old(self).cseq() < u32::MAX,
        ensures
            final(self).cseq() == old(self).cseq() + 1,
            r@ == wire(
                post_head(
                    "/feedback"@,
                    final(self).cseq(),
                    "application/octet-stream"@,
                    0,
                    Seq::empty(),
                ),
                Seq::empty(),
            ),
    {
        let extra: [(&str, &str); 0] = [];
        assert(view_extra(extra@) =~= Seq::empty());
        let nothing: Vec<u8> = Vec::new();
        self.post("/feedback", "application/octet-stream", &nothing, &extra)
    }

    /// A GET_PARAMETER request, to keep the connection alive.
    pub fn rtsp_get_parameter(&mut self, uri: &str, session_uuid: &str) -> (r: Vec<u8>)
        requires
            old(self).cseq() < u32::MAX,
        ensures
            final(self).cseq() == old(self).cseq() + 1,
            r@ == wire(
                rtsp_head(
                    "GET_PARAMETER"@,
                    uri@,
                    final(self).cseq(),
                    ""@,
                    0,
                    seq![("Session"@, session_uuid@)],
                ),
                Seq::empty(),
            ),
    {
        let extra: [(&str, &str); 1] = [("Session", session_uuid)];
        assert(view_extra(extra@) =~= seq![("Session"@, session_uuid@)]);
        let nothing: Vec<u8> = Vec::new();
        self.rtsp_request("GET_PARAMETER", uri, "", &nothing, &extra)
    }
}

/// The lines of a request: its method, target and number come first, then who sends it; each extra
/// header has a line of its own, in order; the length of the body comes last, before the empty
/// line.
pub proof fn law_request_lines(
    method: Seq<char>,
    uri: Seq<char>,
    seq: nat,
    content_type: Seq<char>,
    body_len: nat,
    extra: Seq<(Seq<char>, Seq<char>)>,
)
    ensures
        ({
            let first = method + " "@ + uri + " RTSP/1.0\r\nCSeq: "@ + text::decimal(seq)
                + "\r\nUser-Agent: AirPlay/320.20\r\n"@;
            let last = "Content-Length: "@ + text::decimal(body_len) + "\r\n\r\n"@;
            let kind = "Content-Type: "@ + content_type + "\r\n"@;
            let play = "Range: npt=0-\r\nRTP-Info: seq=0;rtptime=0\r\n"@;
            let head = rtsp_head(method, uri, seq, content_type, body_len, extra);
            &&& content_type.len() > 0 && body_len > 0 && method != "RECORD"@ ==> head == first
                + extra_lines(extra) + kind + last
            &&& (content_type.len() == 0 || body_len == 0) && method != "RECORD"@ ==> head == first
                + extra_lines(extra) + last
            &&& (content_type.len() == 0 || body_len == 0) && method == "RECORD"@ ==> head == first
                + extra_lines(extra) + play + last
        }),
{
    reveal_strlit("\r\nUser-Agent: AirPlay/320.20\r\n");
    reveal_strlit("\r\nUser-Agent: ");
    reveal_strlit("AirPlay/320.20");
    reveal_strlit("\r\n");
    assert("\r\nUser-Agent: "@ + "AirPlay/320.20"@ + "\r\n"@
        =~= "\r\nUser-Agent: AirPlay/320.20\r\n"@);
    reveal_strlit("Range: npt=0-\r\nRTP-Info: seq=0;rtptime=0\r\n");
    reveal_strlit("Range: npt=0-\r\n");
    reveal_strlit("RTP-Info: seq=0;rtptime=0\r\n");
    assert("Range: npt=0-\r\n"@ + "RTP-Info: seq=0;rtptime=0\r\n"@
        =~= "Range: npt=0-\r\nRTP-Info: seq=0;rtptime=0\r\n"@);
    let first = method + " "@ + uri + " RTSP/1.0\r\nCSeq: "@ + text::decimal(seq)
        + "\r\nUser-Agent: AirPlay/320.20\r\n"@;
    assert(request_start(method, uri, seq, extra) =~= first + extra_lines(extra));
    let head = rtsp_head(method, uri, seq, content_type, body_len, extra);
    let last = "Content-Length: "@ + text::decimal(body_len) + "\r\n\r\n"@;
    let kind = "Content-Type: "@ + content_type + "\r\n"@;
    let play = "Range: npt=0-\r\nRTP-Info: seq=0;rtptime=0\r\n"@;
    if content_type.len() > 0 && body_len > 0 && method != "RECORD"@ {
        assert(head =~= first + extra_lines(extra) + kind + last);
    } else if (content_type.len() == 0 || body_len == 0) && method != "RECORD"@ {
        assert(head =~= first + extra_lines(extra) + last);
    } else if content_type.len() == 0 || body_len == 0 {
        assert(head =~= first + extra_lines(extra) + play + last);
    }
}

/// An extra header adds a line of its own behind the others.
pub proof fn law_extra_header_adds_a_line(
    extra: Seq<(Seq<char>, Seq<char>)>,
    name: Seq<char>,
    value: Seq<char>,
)
    ensures
        extra_lines(Seq::empty()).len() == 0,
        extra_lines(extra.push((name, value))) == extra_lines(extra) + name + ": "@ + value
            + "\r\n"@,
{
    assert(extra.push((name, value)).drop_last() =~= extra);
}

/// The body follows its head byte for byte.
pub proof fn law_body_follows_head(head: Seq<char>, body: Seq<u8>)
    ensures
        wire(head, body).len() == vstd::utf8::encode_utf8(head).len() + body.len(),
        wire(head, body).skip(vstd::utf8::encode_utf8(head).len() as int) == body,
        vstd::utf8::decode_utf8(wire(head, body).take(vstd::utf8::encode_utf8(head).len() as int))
            == head,
{
    let h = vstd::utf8::encode_utf8(head);
    vstd::utf8::encode_utf8_decode_utf8(head);
    assert(wire(head, body).skip(h.len() as int) =~= body);
    assert(wire(head, body).take(h.len() as int) =~= h);
}
/// The lines of a request that posts something.
pub proof fn law_post_lines(
    path: Seq<char>,
    seq: nat,
    content_type: Seq<char>,
    body_len: nat,
    extra: Seq<(Seq<char>, Seq<char>)>,
)
    ensures
        post_head(path, seq, content_type, body_len, extra) == "POST "@ + path
            + " RTSP/1.0\r\nCSeq: "@ + text::decimal(seq)
            + "\r\nUser-Agent: AirPlay/320.20\r\n"@ + extra_lines(extra) + "Content-Type: "@
            + content_type + "\r\nContent-Length: "@ + text::decimal(body_len) + "\r\n\r\n"@,
{
    reveal_strlit("POST ");
    reveal_strlit("POST");
    reveal_strlit(" ");
    assert("POST"@ + " "@ =~= "POST "@);
    reveal_strlit("\r\nUser-Agent: AirPlay/320.20\r\n");
    reveal_strlit("\r\nUser-Agent: ");
    reveal_strlit("AirPlay/320.20");
    reveal_strlit("\r\n");
    assert("\r\nUser-Agent: "@ + "AirPlay/320.20"@ + "\r\n"@
        =~= "\r\nUser-Agent: AirPlay/320.20\r\n"@);
    let first = "POST "@ + path + " RTSP/1.0\r\nCSeq: "@ + text::decimal(seq);
    let agent = "\r\nUser-Agent: AirPlay/320.20\r\n"@;
    assert(request_start("POST"@, path, seq, extra) =~= first + agent + extra_lines(extra));
}
} // verus!
