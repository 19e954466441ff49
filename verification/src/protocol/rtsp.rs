//! RTSP session over HTTP.

use crate::config::StreamConfig;
use crate::protocol::http::MirrorSetupResult;
use crate::text;
use vstd::prelude::*;
use vstd::string::*;

verus! {

/// An RTSP session and the number of its next request.
pub struct RtspSession {
    session_url: String,
    cseq: u32,
}

/// The session description for a stream.
pub open spec fn sdp_text(fps: nat, width: nat, height: nat) -> Seq<char> {
    "v=0\r\no=RottingApple 0 0 IN IP4 0.0.0.0\r\ns=RottingApple\r\nc=IN IP4 0.0.0.0\r\nt=0 0\r\nm=video 0 RTP/AVP 96\r\na=rtpmap:96 H264/90000\r\na=fmtp:96 packetization-mode=1;profile-level-id=42E01F;sprop-parameter-sets=\r\na=framerate:"@
        + text::decimal(fps) + "\r\na=x-dimensions:"@ + text::decimal(width) + ","@
        + text::decimal(height) + "\r\n"@
}

/// `s` without the copies of `prefix` at its start.
pub open spec fn trim_start_text(s: Seq<char>, prefix: Seq<char>) -> Seq<char>
    decreases s.len(),
{
    if prefix.len() > 0 && text::starts_with_text(s, prefix) {
        trim_start_text(s.skip(prefix.len() as int), prefix)
    } else {
        s
    }
}

/// `s` up to its first slash.
pub open spec fn before_slash(s: Seq<char>) -> Seq<char> {
    s.take(text::first_index(s, '/'))
}

/// Where the requests of a session are posted.
pub open spec fn tunnel_url_text(session_url: Seq<char>) -> Seq<char> {
    "http://"@ + before_slash(trim_start_text(session_url, "rtsp://"@)) + ":7000/"@
}

impl RtspSession {
    /// URL of the session.
    pub closed spec fn url(&self) -> Seq<char> {
        self.session_url@
    }

    /// Number of the next request.
    pub closed spec fn cseq(&self) -> nat {
        self.cseq as nat
    }

    /// A session with a receiver.
    pub fn setup(host: &str, port: u16) -> (r: Self)
        ensures
            r.url() == "rtsp://"@ + host@ + ":"@ + text::decimal(port as nat) + "/"@,
            r.cseq() == 1,
    {
        let mut s = text::owned("rtsp://");
        s.append(host);
        s.append(":");
        text::push_decimal(&mut s, port as u64);
        s.append("/");
        RtspSession { session_url: s, cseq: 1 }
    }

    /// Asks for what the receiver can do.
    pub fn options(&mut self) -> (r: String)
        requires
            old(self).cseq() < u32::MAX,
        ensures
            r@ == "OPTIONS * RTSP/1.0\r\nCSeq: "@ + text::decimal(old(self).cseq())
                + "\r\nUser-Agent: MediaControl/1.0\r\n\r\n"@,
            final(self).cseq() == old(self).cseq() + 1,
            final(self).url() == old(self).url(),
    {
        let mut s = text::numbered("OPTIONS * RTSP/1.0\r\nCSeq: ", self.cseq as u64);
        s.append("\r\nUser-Agent: MediaControl/1.0\r\n\r\n");
        self.cseq += 1;
        s
    }

    /// Announces the stream.
    pub fn announce(&mut self, config: &StreamConfig) -> (r: String)
        requires
            old(self).cseq() < u32::MAX,
        ensures
            ({
                let sdp = sdp_text(
                    config.fps as nat,
                    config.width as nat,
                    config.height as nat,
                );
                r@ == "ANNOUNCE "@ + old(self).url() + " RTSP/1.0\r\nCSeq: "@ + text::decimal(
                    old(self).cseq(),
                ) + "\r\nContent-Type: application/sdp\r\nContent-Length: "@ + text::decimal(
                    text::utf8(sdp).len(),
                ) + "\r\n\r\n"@ + sdp
            }),
            final(self).cseq() == old(self).cseq() + 1,
            final(self).url() == old(self).url(),
    {
        let mut sdp = text::owned(
            "v=0\r\no=RottingApple 0 0 IN IP4 0.0.0.0\r\ns=RottingApple\r\nc=IN IP4 0.0.0.0\r\nt=0 0\r\nm=video 0 RTP/AVP 96\r\na=rtpmap:96 H264/90000\r\na=fmtp:96 packetization-mode=1;profile-level-id=42E01F;sprop-parameter-sets=\r\na=framerate:",
        );
        text::push_decimal(&mut sdp, config.fps as u64);
        sdp.append("\r\na=x-dimensions:");
        text::push_decimal(&mut sdp, config.width as u64);
        sdp.append(",");
        text::push_decimal(&mut sdp, config.height as u64);
        sdp.append("\r\n");
        let mut s = text::owned("ANNOUNCE ");
        s.append(self.session_url.as_str());
        s.append(" RTSP/1.0\r\nCSeq: ");
        text::push_decimal(&mut s, self.cseq as u64);
        s.append("\r\nContent-Type: application/sdp\r\nContent-Length: ");
        let len: usize = sdp.as_str().as_bytes().len();
        text::push_decimal(&mut s, len as u64);
        s.append("\r\n\r\n");
        s.append(sdp.as_str());
        self.cseq += 1;
        s
    }

    /// Sets up the transport of the stream; ports that are not known have defaults.
    pub fn setup_stream(&mut self, setup: &MirrorSetupResult) -> (r: String)
        requires
            old(self).cseq() < u32::MAX,
        ensures
            ({
                let control: nat = match setup.event_port {
                    Some(p) => p as nat,
                    None => 7001,
                };
                let timing: nat = match setup.timing_port {
                    Some(p) => p as nat,
                    None => 7011,
                };
                r@ == "SETUP "@ + old(self).url() + " RTSP/1.0\r\nCSeq: "@ + text::decimal(
                    old(self).cseq(),
                ) + "\r\nTransport: RTP/AVP/UDP;unicast;mode=record;control_port="@
                    + text::decimal(control) + ";timing_port="@ + text::decimal(timing)
                    + "\r\n\r\n"@
            }),
            final(self).cseq() == old(self).cseq() + 1,
            final(self).url() == old(self).url(),
    {
        let control: u16 = match setup.event_port {
            Some(p) => p,
            None => 7001,
        };
        let timing: u16 = match setup.timing_port {
            Some(p) => p,
            None => 7011,
        };
        let mut s = text::owned("SETUP ");
        s.append(self.session_url.as_str());
        s.append(" RTSP/1.0\r\nCSeq: ");
        text::push_decimal(&mut s, self.cseq as u64);
        s.append("\r\nTransport: RTP/AVP/UDP;unicast;mode=record;control_port=");
        text::push_decimal(&mut s, control as u64);
        s.append(";timing_port=");
        text::push_decimal(&mut s, timing as u64);
        s.append("\r\n\r\n");
        self.cseq += 1;
        s
    }

    /// Starts the stream.
    pub fn record(&mut self) -> (r: String)
        requires
            old(self).cseq() < u32::MAX,
        ensures
            r@ == "RECORD "@ + old(self).url() + " RTSP/1.0\r\nCSeq: "@ + text::decimal(
                old(self).cseq(),
            ) + "\r\nRange: npt=0-\r\n\r\n"@,
            final(self).cseq() == old(self).cseq() + 1,
            final(self).url() == old(self).url(),
    {
        let mut s = text::owned("RECORD ");
        s.append(self.session_url.as_str());
        s.append(" RTSP/1.0\r\nCSeq: ");
        text::push_decimal(&mut s, self.cseq as u64);
        s.append("\r\nRange: npt=0-\r\n\r\n");
        self.cseq += 1;
        s
    }

    /// Ends the stream.
    pub fn teardown(&self) -> (r: String)
        ensures
            r@ == "TEARDOWN "@ + self.url() + " RTSP/1.0\r\nCSeq: 99\r\n\r\n"@,
    {
        let mut s = text::owned("TEARDOWN ");
        s.append(self.session_url.as_str());
        s.append(" RTSP/1.0\r\nCSeq: 99\r\n\r\n");
        s
    }

    /// Where the requests of the session are posted.
    pub fn tunnel_url(&self) -> (r: String)
        ensures
            r@ == tunnel_url_text(self.url()),
    {
        let chars = text::chars_of(self.session_url.as_str());
        let prefix = text::chars_of("rtsp://");
        let mut from: usize = 0;
        proof {
            reveal_strlit("rtsp://");
        }
        assert(chars@.skip(0) =~= chars@);
        while text::stands_at(&chars, &prefix, from)
            invariant
                from <= chars@.len(),
                prefix@.len() == 7,
                trim_start_text(chars@, prefix@) == trim_start_text(
                    chars@.skip(from as int),
                    prefix@,
                ),
            decreases chars.len() - from,
        {
            proof {
                let rest = chars@.skip(from as int);
                assert(rest.take(7) =~= chars@.subrange(from as int, from + 7));
                assert(rest.skip(7) =~= chars@.skip(from + 7));
            }
            from = from + prefix.len();
        }
        proof {
            let rest = chars@.skip(from as int);
            if text::starts_with_text(rest, prefix@) {
                assert(rest.take(7) =~= chars@.subrange(from as int, from + 7));
            }
        }
        let rest = text::sub_string(&chars, from, chars.len());
        assert(rest@ =~= chars@.skip(from as int));
        let rest_chars = text::chars_of(rest.as_str());
        let n: usize = text::index_of_char(&rest_chars, '/');
        let authority = text::sub_string(&rest_chars, 0, n);
        assert(authority@ =~= before_slash(rest@));
        let mut s = text::owned("http://");
        s.append(authority.as_str());
        s.append(":7000/");
        s
    }
}

/// The tunnel goes to the host of the session, at port 7000 and without the path of the session.
pub proof fn law_tunnel_goes_to_host(host: Seq<char>, path: Seq<char>)
    requires
        !text::starts_with_text(host + seq!['/'] + path, "rtsp://"@),
        forall|k: int| 0 <= k < host.len() ==> #[trigger] host[k] != '/',
    ensures
        tunnel_url_text("rtsp://"@ + host + seq!['/'] + path) == "http://"@ + host + ":7000/"@,
{
    reveal_strlit("rtsp://");
    let rest = host + seq!['/'] + path;
    let url = "rtsp://"@ + host + seq!['/'] + path;
    assert(url =~= "rtsp://"@ + rest);
    assert(url.take(7) =~= "rtsp://"@);
    assert(url.skip(7) =~= rest);
    assert(trim_start_text(url, "rtsp://"@) == trim_start_text(rest, "rtsp://"@));
    assert(trim_start_text(rest, "rtsp://"@) == rest);
    text::law_first_index(rest, '/');
    let i = text::first_index(rest, '/');
    let n = host.len() as int;
    if i < n {
        assert(rest[i] == host[i]);
    }
    if n < i {
        assert(rest[n] == '/');
    }
    assert(rest.take(n) =~= host);
}
/// The description of a stream ends in its rate, its width and its height.
pub proof fn law_description_tells_size(fps: nat, width: nat, height: nat)
    ensures
        text::ends_with_text(
            sdp_text(fps, width, height),
            text::decimal(fps) + "\r\na=x-dimensions:"@ + text::decimal(width) + ","@ + text::decimal(
                height,
            ) + "\r\n"@,
        ),
{
    let tail = text::decimal(fps) + "\r\na=x-dimensions:"@ + text::decimal(width) + ","@
        + text::decimal(height) + "\r\n"@;
    let all = sdp_text(fps, width, height);
    let n = all.len() - tail.len();
    assert(all.skip(n) =~= tail);
}

} // verus!
