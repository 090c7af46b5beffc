//! RTSP method dispatch for one client connection.

use vstd::prelude::*;

use crate::config::ServerConfig;
use crate::packetizer::Packetizer;
use crate::h264::string_views;
use crate::mount::{
    mount_at, opt_string, resolve_spec, subscribed_at, unsubscribed_everywhere, Mount,
    MountRegistry,
};
use crate::request::{header_lookup, header_views, HeaderView, RequestView, RtspRequest};
use crate::response::{opt_text, RtspResponse, SERVER_AGENT};
use crate::sdp::{crlf_lines, generate_sdp, sdp_head};
use crate::session::{
    has_id, port_step, session_id_text, state_set, Session, SessionManager, SessionState,
    DEFAULT_SESSION_TIMEOUT_SECS,
};
use crate::text::{
    append_str, char_views, chars_equal, chars_of, contains, contains_chars, dec, decimal, has_prefix,
    lemma_find_from, matches_at, occurs_at, slice_chars, split_chars, split_on, string_of, trim, trim_range,
};
use crate::transport::{client_ports, Transport, TransportHeader};

verus! {

/// Methods listed in the `Public` header of an OPTIONS response.
pub const PUBLIC_METHODS: &'static str = "OPTIONS, DESCRIBE, SETUP, PLAY, PAUSE, TEARDOWN, GET_PARAMETER";

/// Hint sent with a 461 response to a request for interleaved TCP.
pub const UNSUPPORTED_TRANSPORT_HINT: &'static str =
    "RTP/AVP/TCP (interleaved) not supported; use RTP/AVP (UDP), e.g. ffplay -rtsp_transport udp <url>";

/// Status, reason, headers and body of a response.
pub type ResponseView = (u16, Seq<char>, Seq<HeaderView>, Option<Seq<char>>);

/// The view of a response.
pub open spec fn response_view(r: RtspResponse) -> ResponseView {
    (r.status_code, r.status_text@, header_views(r.headers@), opt_text(r.body))
}

/// The `CSeq` that a response echoes: the request's, or `0`.
pub open spec fn cseq_of(hs: Seq<HeaderView>) -> Seq<char> {
    match header_lookup(hs, "CSeq"@) {
        Some(v) => v,
        None => "0"@,
    }
}

/// A bodiless response with the `Server` and `CSeq` headers followed by
/// `extra`.
pub open spec fn plain(code: u16, reason: Seq<char>, cseq: Seq<char>, extra: Seq<HeaderView>) -> ResponseView {
    (code, reason, seq![("Server"@, SERVER_AGENT@), ("CSeq"@, cseq)] + extra, None)
}

/// The session ID a request names: its `Session` header up to the first
/// `;`, trimmed.
pub open spec fn session_id_of(hs: Seq<HeaderView>) -> Option<Seq<char>> {
    match header_lookup(hs, "Session"@) {
        Some(v) => Some(trim(split_on(v, ';')[0])),
        None => None,
    }
}

/// The host that a description advertises: the configured public host;
/// else the host of an `rtsp://` or `rtsps://` URI, if not empty; else the
/// client's address.
pub open spec fn host_of(public_host: Option<Seq<char>>, uri: Seq<char>, client_ip: Seq<char>) -> Seq<char> {
    match public_host {
        Some(h) => h,
        None => if has_prefix(uri, "rtsp://"@) || has_prefix(uri, "rtsps://"@) {
            let k = if has_prefix(uri, "rtsp://"@) { "rtsp://"@.len() } else { "rtsps://"@.len() };
            let after = uri.subrange(k as int, uri.len() as int);
            let host = trim(split_on(split_on(after, '/')[0], ':')[0]);
            if host.len() > 0 {
                host
            } else {
                client_ip
            }
        } else {
            client_ip
        },
    }
}

/// The `Transport` header of a SETUP response.
pub open spec fn transport_reply(a: u16, b: u16, ports: (u16, u16)) -> Seq<char> {
    "RTP/AVP;unicast;client_port="@ + dec(a as nat) + "-"@ + dec(b as nat) + ";server_port="@ + dec(
        ports.0 as nat,
    ) + "-"@ + dec(ports.1 as nat)
}

/// The `Session` header naming session `id` with the default timeout.
pub open spec fn session_reply(id: Seq<char>) -> Seq<char> {
    id + ";timeout="@ + dec(DEFAULT_SESSION_TIMEOUT_SECS as nat)
}

/// The `RTP-Info` header of a PLAY response.
pub open spec fn rtp_info<P: Packetizer>(uri: Seq<char>, m: Mount<P>) -> Seq<char> {
    "url="@ + uri + ";seq="@ + dec(m.packetizer.seq_spec() as nat) + ";rtptime="@ + dec(m.packetizer.ts_spec() as nat)
}

/// The session of `ss` with ID `id`.
pub open spec fn session_with_id(ss: Seq<Session>, id: Seq<char>) -> Session {
    choose|s: Session| ss.contains(s) && s.id@ == id
}

/// What a SETUP request does, checked in order: 404 when no mount serves
/// the URI; 400 without a `Transport` header; 461 for interleaved TCP; 400
/// when the header names no client ports; 500 once session IDs are spent;
/// else a new Ready session with the negotiated transport, subscribed to
/// the mount, remembered by the connection, and a 200 carrying the
/// `Transport` and `Session` headers. Only a 200 changes the mounts, and
/// only a 200 or the last 500 changes the sessions.
pub open spec fn setup_outcome<P: Packetizer>(
    sm0: SessionManager,
    sm1: SessionManager,
    ms0: Seq<Mount<P>>,
    ms1: Seq<Mount<P>>,
    default_path: Option<Seq<char>>,
    ids0: Seq<Seq<char>>,
    ids1: Seq<Seq<char>>,
    client_ip: Seq<char>,
    req: RequestView,
    cs: Seq<char>,
    resp: ResponseView,
) -> bool {
    let hs = req.3;
    let unchanged = sm1 == sm0 && ms1 == ms0 && ids1 == ids0;
    match resolve_spec(ms0, default_path, req.1) {
        None => resp == plain(404, "Not Found"@, cs, seq![]) && unchanged,
        Some(p) => match header_lookup(hs, "Transport"@) {
            None => resp == plain(400, "Bad Request"@, cs, seq![]) && unchanged,
            Some(t) => if contains(t, "RTP/AVP/TCP"@) || contains(t, "interleaved="@) {
                resp == plain(461, "Unsupported Transport"@, cs, seq![("Unsupported"@, UNSUPPORTED_TRANSPORT_HINT@)])
                    && unchanged
            } else {
                match client_ports(t) {
                    None => resp == plain(400, "Bad Request"@, cs, seq![]) && unchanged,
                    Some((a, b)) => {
                        let ports = port_step(sm0.next_server_port).0;
                        let id = session_id_text(sm0.next_id as nat);
                        &&& sm1.next_server_port == port_step(sm0.next_server_port).1
                        &&& if sm0.next_id == u64::MAX {
                            &&& resp == plain(500, "Internal Server Error"@, cs, seq![])
                            &&& sm1.sessions@ == sm0.sessions@
                            &&& ms1 == ms0
                            &&& ids1 == ids0
                        } else {
                            &&& resp == plain(
                                200,
                                "OK"@,
                                cs,
                                seq![("Transport"@, transport_reply(a, b, ports)), ("Session"@, session_reply(id))],
                            )
                            &&& sm1.sessions@.len() == sm0.sessions@.len() + 1
                            &&& sm1.sessions@.drop_last() == sm0.sessions@
                            &&& sm1.sessions@.last().id@ == id
                            &&& sm1.sessions@.last().uri@ == req.1
                            &&& sm1.sessions@.last().state == SessionState::Ready
                            &&& sm1.sessions@.last().timeout_secs == DEFAULT_SESSION_TIMEOUT_SECS
                            &&& sm1.sessions@.last().transport matches Some(tr) && tr.client_rtp_port == a
                                && tr.client_rtcp_port == b && tr.server_rtp_port == ports.0
                                && tr.server_rtcp_port == ports.1 && tr.client_ip@ == client_ip
                            &&& subscribed_at(ms0, ms1, p, id)
                            &&& ids1 == ids0.push(id)
                        }
                    },
                }
            },
        },
    }
}

/// The response to DESCRIBE `uri`: the session description of the mount
/// that serves it, or 404.
pub open spec fn describe_response<P: Packetizer>(
    ms: Seq<Mount<P>>,
    default_path: Option<Seq<char>>,
    config: ServerConfig,
    client_ip: Seq<char>,
    uri: Seq<char>,
    cs: Seq<char>,
) -> ResponseView {
    match resolve_spec(ms, default_path, uri) {
        None => plain(404, "Not Found"@, cs, seq![]),
        Some(p) => (
            200u16,
            "OK"@,
            seq![
                ("Server"@, SERVER_AGENT@),
                ("CSeq"@, cs),
                ("Content-Type"@, "application/sdp"@),
                ("Content-Base"@, uri),
            ],
            Some(crlf_lines(
                sdp_head(
                    host_of(opt_string(config.public_host), uri, client_ip),
                    config.sdp_session_id@,
                    config.sdp_session_version@,
                    config.sdp_username@,
                    config.sdp_session_name@,
                    mount_at(ms, p).packetizer.pt_spec(),
                ) + mount_at(ms, p).packetizer.attrs_spec(),
            )),
        ),
    }
}

/// The response to PLAY (`play`) or PAUSE (`!play`) of session `id` when
/// it is registered.
pub open spec fn resume_response<P: Packetizer>(
    ss: Seq<Session>,
    ms: Seq<Mount<P>>,
    default_path: Option<Seq<char>>,
    id: Seq<char>,
    cs: Seq<char>,
    play: bool,
) -> ResponseView {
    let s = session_with_id(ss, id);
    let session = ("Session"@, s.id@ + ";timeout="@ + dec(s.timeout_secs as nat));
    if play {
        plain(
            200,
            "OK"@,
            cs,
            seq![session, ("Range"@, "npt=0.000-"@)] + match resolve_spec(ms, default_path, s.uri@) {
                Some(p) => seq![("RTP-Info"@, rtp_info(s.uri@, mount_at(ms, p)))],
                None => seq![],
            },
        )
    } else {
        plain(200, "OK"@, cs, seq![session])
    }
}

/// What PLAY (`play`) or PAUSE (`!play`) does: 454 unless the request
/// names a registered session; else that session becomes Playing or
/// Paused and the response carries its `Session` header (and for PLAY the
/// range and RTP-Info).
pub open spec fn resume_outcome<P: Packetizer>(
    sm0: SessionManager,
    sm1: SessionManager,
    ms: Seq<Mount<P>>,
    default_path: Option<Seq<char>>,
    req: RequestView,
    cs: Seq<char>,
    play: bool,
    resp: ResponseView,
) -> bool {
    match session_id_of(req.3) {
        Some(id) => if has_id(sm0.sessions@, id) {
            &&& resp == resume_response(sm0.sessions@, ms, default_path, id, cs, play)
            &&& state_set(sm0.sessions@, sm1.sessions@, id, if play { SessionState::Playing } else { SessionState::Paused })
            &&& sm1.next_id == sm0.next_id
            &&& sm1.next_server_port == sm0.next_server_port
        } else {
            resp == plain(454, "Session Not Found"@, cs, seq![]) && sm1 == sm0
        },
        None => resp == plain(454, "Session Not Found"@, cs, seq![]) && sm1 == sm0,
    }
}

/// What TEARDOWN does: 454 unless the request names a registered session;
/// else the session is removed, unsubscribed from every mount, dropped from
/// the connection's list, and the response is 200.
pub open spec fn teardown_outcome<P: Packetizer>(
    sm0: SessionManager,
    sm1: SessionManager,
    ms0: Seq<Mount<P>>,
    ms1: Seq<Mount<P>>,
    ids0: Seq<Seq<char>>,
    ids1: Seq<Seq<char>>,
    req: RequestView,
    cs: Seq<char>,
    resp: ResponseView,
) -> bool {
    match session_id_of(req.3) {
        Some(id) => if has_id(sm0.sessions@, id) {
            &&& resp == plain(200, "OK"@, cs, seq![])
            &&& exists|i: int|
                0 <= i < sm0.sessions@.len() && (#[trigger] sm0.sessions@[i]).id@ == id && sm1.sessions@
                    == sm0.sessions@.remove(i)
            &&& sm1.next_id == sm0.next_id
            &&& sm1.next_server_port == sm0.next_server_port
            &&& unsubscribed_everywhere(ms0, ms1, id)
            &&& ids1 == without(ids0, id)
        } else {
            resp == plain(454, "Session Not Found"@, cs, seq![]) && sm1.sessions@ == sm0.sessions@
                && sm1.next_id == sm0.next_id && sm1.next_server_port == sm0.next_server_port && ms1 == ms0
                && ids1 == ids0
        },
        None => resp == plain(454, "Session Not Found"@, cs, seq![]) && sm1 == sm0 && ms1 == ms0 && ids1 == ids0,
    }
}

/// `ids` without the occurrences of `id`.
pub open spec fn without(ids: Seq<Seq<char>>, id: Seq<char>) -> Seq<Seq<char>>
    decreases ids.len(),
{
    if ids.len() == 0 {
        ids
    } else if ids.last() != id {
        without(ids.drop_last(), id).push(ids.last())
    } else {
        without(ids.drop_last(), id)
    }
}

/// Dropping `id` from `s` then appending `e` is dropping it from `s.push(e)`.
pub proof fn lemma_without_push(s: Seq<Seq<char>>, e: Seq<char>, id: Seq<char>)
    ensures
        without(s.push(e), id) == if e != id {
            without(s, id).push(e)
        } else {
            without(s, id)
        },
{
    assert(s.push(e).drop_last() =~= s);
}

/// The response to GET_PARAMETER: 200, with the `Session` header echoed
/// when it names a registered session.
pub open spec fn get_parameter_response(ss: Seq<Session>, req: RequestView, cs: Seq<char>) -> ResponseView {
    match session_id_of(req.3) {
        Some(id) => if has_id(ss, id) {
            plain(200, "OK"@, cs, seq![("Session"@, id)])
        } else {
            plain(200, "OK"@, cs, seq![])
        },
        None => plain(200, "OK"@, cs, seq![]),
    }
}

/// What a request does to the sessions, the mounts, the connection's
/// session list, and which response it gets, by method.
pub open spec fn handled<P: Packetizer>(
    sm0: SessionManager,
    sm1: SessionManager,
    reg0: MountRegistry<P>,
    reg1: MountRegistry<P>,
    ids0: Seq<Seq<char>>,
    ids1: Seq<Seq<char>>,
    config: ServerConfig,
    client_ip: Seq<char>,
    req: RequestView,
    resp: ResponseView,
) -> bool {
    let cs = cseq_of(req.3);
    let m = req.0;
    let ms0 = reg0.mounts@;
    let ms1 = reg1.mounts@;
    let dp = opt_string(reg0.default_path);
    let unchanged = sm1 == sm0 && ms1 == ms0 && ids1 == ids0;
    if m == "OPTIONS"@ {
        resp == plain(200, "OK"@, cs, seq![("Public"@, PUBLIC_METHODS@)]) && unchanged
    } else if m == "DESCRIBE"@ {
        resp == describe_response(ms0, dp, config, client_ip, req.1, cs) && unchanged
    } else if m == "SETUP"@ {
        setup_outcome(sm0, sm1, ms0, ms1, dp, ids0, ids1, client_ip, req, cs, resp)
    } else if m == "PLAY"@ {
        resume_outcome(sm0, sm1, ms0, dp, req, cs, true, resp) && ms1 == ms0 && ids1 == ids0
    } else if m == "PAUSE"@ {
        resume_outcome(sm0, sm1, ms0, dp, req, cs, false, resp) && ms1 == ms0 && ids1 == ids0
    } else if m == "TEARDOWN"@ {
        teardown_outcome(sm0, sm1, ms0, ms1, ids0, ids1, req, cs, resp)
    } else if m == "GET_PARAMETER"@ {
        resp == get_parameter_response(sm0.sessions@, req, cs) && unchanged
    } else {
        resp == plain(501, "Not Implemented"@, cs, seq![]) && unchanged
    }
}

/// Handles the RTSP requests of one connection and remembers the sessions
/// it created.
#[derive(Debug)]
pub struct MethodHandler {
    /// The client's IP address, in text.
    pub client_ip: String,
    /// Server configuration.
    pub config: ServerConfig,
    /// IDs of the sessions created on this connection.
    pub session_ids: Vec<String>,
}

/// Whether the string holds exactly the characters of `lit`.
fn is_method(s: &String, lit: &str) -> (r: bool)
    ensures
        r == (s@ == lit@),
{
    let a = chars_of(s.as_str());
    let b = chars_of(lit);
    chars_equal(&a, &b)
}

impl MethodHandler {
    /// A handler for a client at `client_ip`, with no sessions yet.
    pub fn new(client_ip: &str, config: ServerConfig) -> (r: Self)
        ensures
            r.client_ip@ == client_ip@,
            r.config == config,
            r.session_ids@.len() == 0,
    {
        MethodHandler { client_ip: String::from_str(client_ip), config, session_ids: Vec::new() }
    }

    /// IDs of the sessions created on this connection and not torn down.
    pub fn session_ids(&self) -> (r: &[String])
        ensures
            r@ == self.session_ids@,
    {
        self.session_ids.as_slice()
    }

    /// The host to advertise in a description for `uri`.
    fn host_from_uri_or_client(&self, uri: &str) -> (r: String)
        ensures
            r@ == host_of(opt_string(self.config.public_host), uri@, self.client_ip@),
    {
        match &self.config.public_host {
            Some(h) => {
                return h.clone();
            },
            None => {},
        }
        let v = chars_of(uri);
        let p1 = chars_of("rtsp://");
        let p2 = chars_of("rtsps://");
        let m1 = matches_at(&v, &p1, 0);
        let m2 = matches_at(&v, &p2, 0);
        proof {
            assert(m1 == has_prefix(uri@, "rtsp://"@)) by {
                if has_prefix(uri@, "rtsp://"@) {
                    assert(occurs_at(v@, p1@, 0));
                }
            }
            assert(m2 == has_prefix(uri@, "rtsps://"@)) by {
                if has_prefix(uri@, "rtsps://"@) {
                    assert(occurs_at(v@, p2@, 0));
                }
            }
        }
        if m1 || m2 {
            let k = if m1 { p1.len() } else { p2.len() };
            let after = slice_chars(&v, k, v.len());
            let pieces = split_chars(&after, '/');
            proof {
                reveal_with_fuel(crate::text::split_from, 2);
                lemma_find_from(after@, '/', 0);
            }
            assert(char_views(pieces@).len() > 0);
            let first = &pieces[0];
            assert(first@ == split_on(after@, '/')[0]);
            let parts = split_chars(first, ':');
            proof {
                reveal_with_fuel(crate::text::split_from, 2);
                lemma_find_from(first@, ':', 0);
            }
            assert(char_views(parts@).len() > 0);
            let hp = &parts[0];
            assert(hp@ == split_on(first@, ':')[0]);
            let (a, b) = trim_range(hp, 0, hp.len());
            assert(hp@.subrange(0, hp@.len() as int) =~= hp@);
            if a < b {
                return string_of(hp, a, b);
            }
        }
        self.client_ip.clone()
    }

    /// SETUP: resolves the mount, checks the `Transport` header, allocates
    /// server ports, creates a Ready session with the negotiated transport,
    /// subscribes it to the mount, and remembers its ID.
    fn handle_setup<P: Packetizer>(
        &mut self,
        sessions: &mut SessionManager,
        mounts: &mut MountRegistry<P>,
        cseq: &str,
        request: &RtspRequest,
    ) -> (r: RtspResponse)
        requires
            old(sessions).wf(),
            old(mounts).wf(),
        ensures
            final(sessions).wf(),
            final(mounts).wf(),
            final(self).client_ip == old(self).client_ip,
            final(self).config == old(self).config,
            final(mounts).default_path == old(mounts).default_path,
            setup_outcome(
                *old(sessions),
                *final(sessions),
                old(mounts).mounts@,
                final(mounts).mounts@,
                opt_string(old(mounts).default_path),
                string_views(old(self).session_ids@),
                string_views(final(self).session_ids@),
                old(self).client_ip@,
                request.view(),
                cseq@,
                response_view(r),
            ),
    {
        let mount_path = match mounts.resolve_from_uri(request.uri.as_str()) {
            None => {
                let r = RtspResponse::not_found().add_header("CSeq", cseq);
                assert(header_views(r.headers@) =~= seq![("Server"@, SERVER_AGENT@), ("CSeq"@, cseq@)] + seq![]);
                return r;
            },
            Some(m) => m.path.clone(),
        };
        let ghost p = mount_path@;
        let transport_header = match request.get_header("Transport") {
            None => {
                let r = RtspResponse::bad_request().add_header("CSeq", cseq);
                assert(header_views(r.headers@) =~= seq![("Server"@, SERVER_AGENT@), ("CSeq"@, cseq@)] + seq![]);
                return r;
            },
            Some(t) => t,
        };
        let tv = chars_of(transport_header);
        let tcp = chars_of("RTP/AVP/TCP");
        let interleaved = chars_of("interleaved=");
        if contains_chars(&tv, &tcp) || contains_chars(&tv, &interleaved) {
            let r = RtspResponse::new(461, "Unsupported Transport")
                .add_header("CSeq", cseq)
                .add_header("Unsupported", UNSUPPORTED_TRANSPORT_HINT);
            assert(header_views(r.headers@) =~= seq![("Server"@, SERVER_AGENT@), ("CSeq"@, cseq@)] + seq![("Unsupported"@, UNSUPPORTED_TRANSPORT_HINT@)]);
            return r;
        }
        let client = match TransportHeader::parse(transport_header) {
            None => {
                let r = RtspResponse::bad_request().add_header("CSeq", cseq);
                assert(header_views(r.headers@) =~= seq![("Server"@, SERVER_AGENT@), ("CSeq"@, cseq@)] + seq![]);
                return r;
            },
            Some(t) => t,
        };
        let (server_rtp_port, server_rtcp_port) = match sessions.allocate_server_ports() {
            Ok(ports) => ports,
            Err(_) => {
                let r = RtspResponse::new(500, "Internal Server Error").add_header("CSeq", cseq);
                assert(header_views(r.headers@) =~= seq![("Server"@, SERVER_AGENT@), ("CSeq"@, cseq@)] + seq![]);
                return r;
            },
        };
        let ghost allocated = *sessions;
        let session_id = match sessions.create_session(request.uri.as_str()) {
            None => {
                let r = RtspResponse::new(500, "Internal Server Error").add_header("CSeq", cseq);
                assert(header_views(r.headers@) =~= seq![("Server"@, SERVER_AGENT@), ("CSeq"@, cseq@)] + seq![]);
                return r;
            },
            Some(id) => id,
        };
        let ghost created = *sessions;
        let transport = Transport {
            client_rtp_port: client.client_rtp_port,
            client_rtcp_port: client.client_rtcp_port,
            server_rtp_port,
            server_rtcp_port,
            client_ip: self.client_ip.clone(),
        };
        let ghost tr = transport;
        sessions.set_session_transport(session_id.as_str(), transport);
        proof {
            let n = allocated.sessions@.len() as int;
            assert(created.sessions@[n].id@ == session_id@);
            assert forall|i: int| 0 <= i < n implies created.sessions@[i].id@ != session_id@ by {
                assert(created.sessions@[i].id@ != created.sessions@[n].id@);
            }
            assert(sessions.sessions@.drop_last() =~= allocated.sessions@);
        }
        mounts.subscribe(mount_path.as_str(), session_id.as_str());
        let ghost before_ids = string_views(self.session_ids@);
        self.session_ids.push(session_id.clone());
        assert(string_views(self.session_ids@) =~= before_ids.push(session_id@));
        let mut treply = String::from_str("RTP/AVP;unicast;client_port=");
        let a = decimal(client.client_rtp_port as u64);
        append_str(&mut treply, a.as_str());
        append_str(&mut treply, "-");
        let b = decimal(client.client_rtcp_port as u64);
        append_str(&mut treply, b.as_str());
        append_str(&mut treply, ";server_port=");
        let c = decimal(server_rtp_port as u64);
        append_str(&mut treply, c.as_str());
        append_str(&mut treply, "-");
        let d = decimal(server_rtcp_port as u64);
        append_str(&mut treply, d.as_str());
        let mut sreply = session_id.clone();
        append_str(&mut sreply, ";timeout=");
        let t = decimal(DEFAULT_SESSION_TIMEOUT_SECS);
        append_str(&mut sreply, t.as_str());
        let r = RtspResponse::ok()
            .add_header("CSeq", cseq)
            .add_header("Transport", treply.as_str())
            .add_header("Session", sreply.as_str());
        assert(header_views(r.headers@) =~= seq![("Server"@, SERVER_AGENT@), ("CSeq"@, cseq@)] + seq![
            ("Transport"@, treply@),
            ("Session"@, sreply@),
        ]);
        r
    }

    /// The session ID that the request's `Session` header names, up to the
    /// first `;`, trimmed.
    fn extract_session_id(&self, request: &RtspRequest) -> (r: Option<String>)
        ensures
            opt_string(r) == session_id_of(header_views(request.headers@)),
    {
        match request.get_header("Session") {
            None => None,
            Some(v) => {
                let chars = chars_of(v);
                let pieces = split_chars(&chars, ';');
                proof {
                    reveal_with_fuel(crate::text::split_from, 2);
                    lemma_find_from(chars@, ';', 0);
                }
                assert(char_views(pieces@).len() > 0);
                let first = &pieces[0];
                assert(first@ == split_on(chars@, ';')[0]);
                let (a, b) = trim_range(first, 0, first.len());
                assert(first@.subrange(0, first@.len() as int) =~= first@);
                Some(string_of(first, a, b))
            },
        }
    }

    /// PLAY (`play`) or PAUSE (`!play`) of the session the request names.
    fn handle_resume<P: Packetizer>(
        &self,
        sessions: &mut SessionManager,
        mounts: &MountRegistry<P>,
        cseq: &str,
        request: &RtspRequest,
        play: bool,
    ) -> (r: RtspResponse)
        requires
            old(sessions).wf(),
            mounts.wf(),
        ensures
            final(sessions).wf(),
            resume_outcome(
                *old(sessions),
                *final(sessions),
                mounts.mounts@,
                opt_string(mounts.default_path),
                request.view(),
                cseq@,
                play,
                response_view(r),
            ),
    {
        let id = match self.extract_session_id(request) {
            None => {
                let r = RtspResponse::new(454, "Session Not Found").add_header("CSeq", cseq);
                assert(header_views(r.headers@) =~= seq![("Server"@, SERVER_AGENT@), ("CSeq"@, cseq@)] + seq![]);
                return r;
            },
            Some(id) => id,
        };
        let (header_value, uri) = match sessions.get_session(id.as_str()) {
            None => {
                let r = RtspResponse::new(454, "Session Not Found").add_header("CSeq", cseq);
                assert(header_views(r.headers@) =~= seq![("Server"@, SERVER_AGENT@), ("CSeq"@, cseq@)] + seq![]);
                return r;
            },
            Some(s) => {
                proof {
                    assert(sessions.sessions@.contains(*s));
                    crate::session::lemma_unique_session(sessions, *s, id@);
                }
                (s.session_header_value(), s.uri.clone())
            },
        };
        let state = if play { SessionState::Playing } else { SessionState::Paused };
        sessions.set_session_state(id.as_str(), state);
        let mut r = RtspResponse::ok().add_header("CSeq", cseq).add_header("Session", header_value.as_str());
        let ghost session = ("Session"@, header_value@);
        assert(header_views(r.headers@) =~= seq![("Server"@, SERVER_AGENT@), ("CSeq"@, cseq@)] + seq![session]);
        if play {
            r = r.add_header("Range", "npt=0.000-");
            let ghost before = header_views(r.headers@);
            assert(before =~= seq![("Server"@, SERVER_AGENT@), ("CSeq"@, cseq@)] + seq![session, ("Range"@, "npt=0.000-"@)]);
            match mounts.resolve_from_uri(uri.as_str()) {
                Some(m) => {
                    let ghost p = resolve_spec(mounts.mounts@, opt_string(mounts.default_path), uri@)->Some_0;
                    proof {
                        crate::mount::lemma_unique_path(mounts, *m, p);
                    }
                    let mut info = String::from_str("url=");
                    append_str(&mut info, uri.as_str());
                    append_str(&mut info, ";seq=");
                    let sq = decimal(m.next_sequence() as u64);
                    append_str(&mut info, sq.as_str());
                    append_str(&mut info, ";rtptime=");
                    let ts = decimal(m.next_rtp_timestamp() as u64);
                    append_str(&mut info, ts.as_str());
                    r = r.add_header("RTP-Info", info.as_str());
                    assert(header_views(r.headers@) =~= seq![("Server"@, SERVER_AGENT@), ("CSeq"@, cseq@)] + (seq![session, ("Range"@, "npt=0.000-"@)] + seq![("RTP-Info"@, info@)]));
                },
                None => {
                    assert(header_views(r.headers@) =~= seq![("Server"@, SERVER_AGENT@), ("CSeq"@, cseq@)] + (seq![session, ("Range"@, "npt=0.000-"@)] + Seq::<HeaderView>::empty()));
                },
            }
        }
        r
    }

    /// PLAY of the session the request names.
    fn handle_play<P: Packetizer>(&self, sessions: &mut SessionManager, mounts: &MountRegistry<P>, cseq: &str, request: &RtspRequest) -> (r: RtspResponse)
        requires
            old(sessions).wf(),
            mounts.wf(),
        ensures
            final(sessions).wf(),
            resume_outcome(
                *old(sessions),
                *final(sessions),
                mounts.mounts@,
                opt_string(mounts.default_path),
                request.view(),
                cseq@,
                true,
                response_view(r),
            ),
    {
        self.handle_resume(sessions, mounts, cseq, request, true)
    }

    /// PAUSE of the session the request names.
    fn handle_pause<P: Packetizer>(&self, sessions: &mut SessionManager, mounts: &MountRegistry<P>, cseq: &str, request: &RtspRequest) -> (r: RtspResponse)
        requires
            old(sessions).wf(),
            mounts.wf(),
        ensures
            final(sessions).wf(),
            resume_outcome(
                *old(sessions),
                *final(sessions),
                mounts.mounts@,
                opt_string(mounts.default_path),
                request.view(),
                cseq@,
                false,
                response_view(r),
            ),
    {
        self.handle_resume(sessions, mounts, cseq, request, false)
    }

    /// TEARDOWN of the session the request names.
    fn handle_teardown<P: Packetizer>(
        &mut self,
        sessions: &mut SessionManager,
        mounts: &mut MountRegistry<P>,
        cseq: &str,
        request: &RtspRequest,
    ) -> (r: RtspResponse)
        requires
            old(sessions).wf(),
            old(mounts).wf(),
        ensures
            final(sessions).wf(),
            final(mounts).wf(),
            final(self).client_ip == old(self).client_ip,
            final(self).config == old(self).config,
            final(mounts).default_path == old(mounts).default_path,
            teardown_outcome(
                *old(sessions),
                *final(sessions),
                old(mounts).mounts@,
                final(mounts).mounts@,
                string_views(old(self).session_ids@),
                string_views(final(self).session_ids@),
                request.view(),
                cseq@,
                response_view(r),
            ),
    {
        let id = match self.extract_session_id(request) {
            None => {
                let r = RtspResponse::new(454, "Session Not Found").add_header("CSeq", cseq);
                assert(header_views(r.headers@) =~= seq![("Server"@, SERVER_AGENT@), ("CSeq"@, cseq@)] + seq![]);
                return r;
            },
            Some(id) => id,
        };
        let ghost sm0 = *sessions;
        let removed = sessions.remove_session(id.as_str());
        match removed {
            None => {
                let r = RtspResponse::new(454, "Session Not Found").add_header("CSeq", cseq);
                assert(header_views(r.headers@) =~= seq![("Server"@, SERVER_AGENT@), ("CSeq"@, cseq@)] + seq![]);
                return r;
            },
            Some(s) => {
                proof {
                    let i = choose|i: int|
                        0 <= i < sm0.sessions@.len() && sm0.sessions@[i] == s && sessions.sessions@ == sm0.sessions@.remove(i);
                    assert(sm0.sessions@[i].id@ == id@);
                    assert(has_id(sm0.sessions@, id@));
                    assert(exists|i: int|
                        0 <= i < sm0.sessions@.len() && (#[trigger] sm0.sessions@[i]).id@ == id@ && sessions.sessions@
                            == sm0.sessions@.remove(i));
                }
            },
        }
        mounts.unsubscribe_all(id.as_str());
        let target = chars_of(id.as_str());
        let ghost ids0 = string_views(self.session_ids@);
        let mut kept: Vec<String> = Vec::new();
        let mut i: usize = 0;
        while i < self.session_ids.len()
            invariant
                target@ == id@,
                ids0 == string_views(self.session_ids@),
                i <= ids0.len(),
                string_views(kept@) == without(ids0.take(i as int), id@),
            decreases ids0.len() - i,
        {
            let c = chars_of(self.session_ids[i].as_str());
            assert(ids0.take(i + 1) =~= ids0.take(i as int).push(ids0[i as int]));
            proof {
                lemma_without_push(ids0.take(i as int), ids0[i as int], id@);
            }
            if !chars_equal(&c, &target) {
                let ghost before = string_views(kept@);
                kept.push(self.session_ids[i].clone());
                assert(string_views(kept@) =~= before.push(ids0[i as int]));
            }
            i = i + 1;
        }
        assert(ids0.take(i as int) =~= ids0);
        self.session_ids = kept;
        let r = RtspResponse::ok().add_header("CSeq", cseq);
        assert(header_views(r.headers@) =~= seq![("Server"@, SERVER_AGENT@), ("CSeq"@, cseq@)] + seq![]);
        r
    }

    /// GET_PARAMETER, a keepalive.
    fn handle_get_parameter(&self, sessions: &SessionManager, cseq: &str, request: &RtspRequest) -> (r: RtspResponse)
        ensures
            response_view(r) == get_parameter_response(sessions.sessions@, request.view(), cseq@),
    {
        let r = RtspResponse::ok().add_header("CSeq", cseq);
        match self.extract_session_id(request) {
            Some(id) => {
                if sessions.get_session(id.as_str()).is_some() {
                    let r = r.add_header("Session", id.as_str());
                    assert(header_views(r.headers@) =~= seq![("Server"@, SERVER_AGENT@), ("CSeq"@, cseq@)] + seq![("Session"@, id@)]);
                    return r;
                }
            },
            None => {},
        }
        assert(header_views(r.headers@) =~= seq![("Server"@, SERVER_AGENT@), ("CSeq"@, cseq@)] + seq![]);
        r
    }

    /// Answers one request: dispatch by method, echoing the request's
    /// `CSeq` (or `0`) in every response.
    pub fn handle<P: Packetizer>(
        &mut self,
        sessions: &mut SessionManager,
        mounts: &mut MountRegistry<P>,
        request: &RtspRequest,
    ) -> (r: RtspResponse)
        requires
            old(sessions).wf(),
            old(mounts).wf(),
        ensures
            final(sessions).wf(),
            final(mounts).wf(),
            final(self).client_ip == old(self).client_ip,
            final(self).config == old(self).config,
            final(mounts).default_path == old(mounts).default_path,
            handled(
                *old(sessions),
                *final(sessions),
                *old(mounts),
                *final(mounts),
                string_views(old(self).session_ids@),
                string_views(final(self).session_ids@),
                old(self).config,
                old(self).client_ip@,
                request.view(),
                response_view(r),
            ),
    {
        let cseq: &str = match request.cseq() {
            Some(c) => c,
            None => "0",
        };
        let m = &request.method;
        if is_method(m, "OPTIONS") {
            self.handle_options(cseq)
        } else if is_method(m, "DESCRIBE") {
            self.handle_describe(mounts, cseq, request.uri.as_str())
        } else if is_method(m, "SETUP") {
            self.handle_setup(sessions, mounts, cseq, request)
        } else if is_method(m, "PLAY") {
            self.handle_play(sessions, mounts, cseq, request)
        } else if is_method(m, "PAUSE") {
            self.handle_pause(sessions, mounts, cseq, request)
        } else if is_method(m, "TEARDOWN") {
            self.handle_teardown(sessions, mounts, cseq, request)
        } else if is_method(m, "GET_PARAMETER") {
            self.handle_get_parameter(sessions, cseq, request)
        } else {
            let r = RtspResponse::new(501, "Not Implemented").add_header("CSeq", cseq);
            assert(header_views(r.headers@) =~= seq![("Server"@, SERVER_AGENT@), ("CSeq"@, cseq@)] + seq![]);
            r
        }
    }

    /// Cleanup when the connection ends: every session created here is
    /// unsubscribed from every mount, then removed from the registry.
    /// Returns how many sessions were removed.
    pub fn cleanup<P: Packetizer>(&self, sessions: &mut SessionManager, mounts: &mut MountRegistry<P>) -> (r: usize)
        requires
            old(sessions).wf(),
            old(mounts).wf(),
        ensures
            final(sessions).wf(),
            final(mounts).wf(),
            final(mounts).default_path == old(mounts).default_path,
            final(mounts).mounts@.len() == old(mounts).mounts@.len(),
            r == old(sessions).sessions@.len() - final(sessions).sessions@.len(),
            forall|k: int|
                0 <= k < self.session_ids@.len() ==> {
                    &&& !has_id(final(sessions).sessions@, (#[trigger] self.session_ids@[k])@)
                    &&& forall|i: int|
                        0 <= i < final(mounts).mounts@.len() ==> !(#[trigger] final(mounts).mounts@[i]).subscribers().contains(
                            self.session_ids@[k]@,
                        )
                },
            forall|i: int|
                0 <= i < final(mounts).mounts@.len() ==> (#[trigger] final(mounts).mounts@[i]).path == old(mounts).mounts@[i].path
                    && final(mounts).mounts@[i].packetizer == old(mounts).mounts@[i].packetizer,
            forall|i: int, x: Seq<char>|
                0 <= i < final(mounts).mounts@.len() ==> ((#[trigger] final(mounts).mounts@[i].subscribers().contains(x))
                    <==> (old(mounts).mounts@[i].subscribers().contains(x) && !string_views(self.session_ids@).contains(x))),
            forall|s: Session| #[trigger] final(sessions).sessions@.contains(s) ==> old(sessions).sessions@.contains(s),
            forall|s: Session|
                #[trigger] old(sessions).sessions@.contains(s) && !string_views(self.session_ids@).contains(s.id@)
                    ==> final(sessions).sessions@.contains(s),
            final(sessions).next_id == old(sessions).next_id,
            final(sessions).next_server_port == old(sessions).next_server_port,
    {
        let ghost ids = string_views(self.session_ids@);
        let n = self.session_ids.len();
        let mut k: usize = 0;
        while k < n
            invariant
                n == self.session_ids@.len(),
                k <= n,
                mounts.wf(),
                mounts.default_path == old(mounts).default_path,
                mounts.mounts@.len() == old(mounts).mounts@.len(),
                forall|j: int|
                    0 <= j < k ==> forall|i: int|
                        0 <= i < mounts.mounts@.len() ==> !(#[trigger] mounts.mounts@[i]).subscribers().contains(
                            (#[trigger] self.session_ids@[j])@,
                        ),
                forall|i: int|
                    0 <= i < mounts.mounts@.len() ==> (#[trigger] mounts.mounts@[i]).path == old(mounts).mounts@[i].path
                        && mounts.mounts@[i].packetizer == old(mounts).mounts@[i].packetizer,
                ids == string_views(self.session_ids@),
                forall|i: int, x: Seq<char>|
                    0 <= i < mounts.mounts@.len() ==> ((#[trigger] mounts.mounts@[i].subscribers().contains(x))
                        <==> (old(mounts).mounts@[i].subscribers().contains(x) && !ids.take(k as int).contains(x))),
            decreases n - k,
        {
            let ghost before = mounts.mounts@;
            mounts.unsubscribe_all(self.session_ids[k].as_str());
            proof {
                let id = self.session_ids@[k as int]@;
                assert(ids[k as int] == id);
                assert forall|i: int, x: Seq<char>|
                    0 <= i < mounts.mounts@.len() implies ((#[trigger] mounts.mounts@[i].subscribers().contains(x))
                        <==> (old(mounts).mounts@[i].subscribers().contains(x) && !ids.take(k + 1).contains(x))) by {
                    assert(mounts.mounts@[i].subscribers().to_set() == before[i].subscribers().to_set().remove(id));
                    assert(mounts.mounts@[i].subscribers().contains(x) == mounts.mounts@[i].subscribers().to_set().contains(x));
                    assert(before[i].subscribers().contains(x) == before[i].subscribers().to_set().contains(x));
                    assert(ids.take(k + 1) =~= ids.take(k as int).push(id));
                    if ids.take(k + 1).contains(x) && x != id {
                        let j = choose|j: int| 0 <= j < k + 1 && #[trigger] ids.take(k + 1)[j] == x;
                        assert(ids.take(k as int)[j] == x);
                    }
                    if ids.take(k as int).contains(x) {
                        let j = choose|j: int| 0 <= j < k && #[trigger] ids.take(k as int)[j] == x;
                        assert(ids.take(k + 1)[j] == x);
                    }
                    if x == id {
                        assert(ids.take(k + 1)[k as int] == x);
                    }
                }
                assert forall|j: int, i: int|
                    0 <= j < k + 1 && 0 <= i < mounts.mounts@.len() implies !(#[trigger] mounts.mounts@[i]).subscribers().contains(
                        (#[trigger] self.session_ids@[j])@,
                    ) by {
                    if j < k {
                        let x = self.session_ids@[j]@;
                        assert(!before[i].subscribers().contains(x));
                        if mounts.mounts@[i].subscribers().contains(x) {
                            assert(mounts.mounts@[i].subscribers().to_set().contains(x));
                            assert(before[i].subscribers().to_set().contains(x));
                        }
                    }
                }
            }
            k = k + 1;
        }
        assert(ids.take(n as int) =~= ids);
        let r = sessions.remove_sessions(self.session_ids.as_slice());
        assert forall|s: Session|
            #[trigger] old(sessions).sessions@.contains(s) && !ids.contains(s.id@) implies sessions.sessions@.contains(s) by {
            assert forall|j: int| 0 <= j < self.session_ids@.len() implies self.session_ids@[j]@ != s.id@ by {
                assert(ids[j] == self.session_ids@[j]@);
            }
        }
        r
    }

    /// OPTIONS: 200 listing the supported methods.
    fn handle_options(&self, cseq: &str) -> (r: RtspResponse)
        ensures
            response_view(r) == plain(200, "OK"@, cseq@, seq![("Public"@, PUBLIC_METHODS@)]),
    {
        let r = RtspResponse::ok().add_header("CSeq", cseq).add_header("Public", PUBLIC_METHODS);
        assert(header_views(r.headers@) =~= seq![("Server"@, SERVER_AGENT@), ("CSeq"@, cseq@)] + seq![("Public"@, PUBLIC_METHODS@)]);
        r
    }

    /// DESCRIBE: the session description of the mount that serves `uri`,
    /// or 404.
    fn handle_describe<P: Packetizer>(&self, mounts: &MountRegistry<P>, cseq: &str, uri: &str) -> (r: RtspResponse)
        requires
            mounts.wf(),
        ensures
            response_view(r) == describe_response(mounts.mounts@, opt_string(mounts.default_path), self.config, self.client_ip@, uri@, cseq@),
    {
        match mounts.resolve_from_uri(uri) {
            None => {
                let r = RtspResponse::not_found().add_header("CSeq", cseq);
                assert(header_views(r.headers@) =~= seq![("Server"@, SERVER_AGENT@), ("CSeq"@, cseq@)] + seq![]);
                r
            },
            Some(mount) => {
                let ghost p = resolve_spec(mounts.mounts@, opt_string(mounts.default_path), uri@)->Some_0;
                proof {
                    crate::mount::lemma_unique_path(mounts, *mount, p);
                }
                let host = self.host_from_uri_or_client(uri);
                let sdp = generate_sdp(
                    mount,
                    host.as_str(),
                    self.config.sdp_session_id.as_str(),
                    self.config.sdp_session_version.as_str(),
                    self.config.sdp_username.as_str(),
                    self.config.sdp_session_name.as_str(),
                );
                let r = RtspResponse::ok()
                    .add_header("CSeq", cseq)
                    .add_header("Content-Type", "application/sdp")
                    .add_header("Content-Base", uri)
                    .with_body(sdp);
                assert(header_views(r.headers@) =~= seq![
                    ("Server"@, SERVER_AGENT@),
                    ("CSeq"@, cseq@),
                    ("Content-Type"@, "application/sdp"@),
                    ("Content-Base"@, uri@),
                ]);
                r
            },
        }
    }
}

} // verus!
