//! Choosing where RTP goes: fan-out of a frame to a mount's playing
//! subscribers, delivery to one session, and the list of viewers.

use vstd::prelude::*;

use crate::error::RtspError;
use crate::session::{has_id, lemma_unique_session, Session, SessionManager, SessionState};
use crate::text::{append_str, chars_of, contains, contains_chars, dec, decimal};

verus! {

/// Where the RTP of one session goes.
#[derive(Debug)]
pub struct Destination {
    /// The session's ID.
    pub session_id: String,
    /// The client's IP address, in text.
    pub ip: String,
    /// The client's RTP port.
    pub port: u16,
}

/// A client that is receiving media.
#[derive(Debug)]
pub struct Viewer {
    /// The session's ID.
    pub session_id: String,
    /// The URI the session was set up for.
    pub uri: String,
    /// The client's RTP address, `ip:port` (IPv6 in brackets).
    pub client_addr: String,
    /// The client's RTP port.
    pub client_rtp_port: u16,
}

/// A client that is receiving media, under its other name.
pub type ClientInfo = Viewer;

/// The session of `ss` with ID `id`.
pub open spec fn session_by_id(ss: Seq<Session>, id: Seq<char>) -> Session {
    choose|s: Session| ss.contains(s) && s.id@ == id
}

/// The destination of session `id`, if it is registered, playing, and has
/// a transport.
pub open spec fn target_of(ss: Seq<Session>, id: Seq<char>) -> Option<(Seq<char>, Seq<char>, u16)> {
    if has_id(ss, id) {
        let s = session_by_id(ss, id);
        if s.state == SessionState::Playing {
            match s.transport {
                Some(t) => Some((id, t.client_ip@, t.client_rtp_port)),
                None => None,
            }
        } else {
            None
        }
    } else {
        None
    }
}

/// The destinations of the subscribers `ids`, in order, skipping those
/// that are not registered, not playing, or without transport.
pub open spec fn destinations(ss: Seq<Session>, ids: Seq<Seq<char>>) -> Seq<(Seq<char>, Seq<char>, u16)>
    decreases ids.len(),
{
    if ids.len() == 0 {
        Seq::empty()
    } else {
        match target_of(ss, ids.last()) {
            Some(d) => destinations(ss, ids.drop_last()).push(d),
            None => destinations(ss, ids.drop_last()),
        }
    }
}

/// The views of destinations.
pub open spec fn destination_views(v: Seq<Destination>) -> Seq<(Seq<char>, Seq<char>, u16)> {
    v.map_values(|d: Destination| (d.session_id@, d.ip@, d.port))
}

/// The text of a socket address: `ip:port`, an IPv6 address in brackets.
pub open spec fn socket_text(ip: Seq<char>, port: u16) -> Seq<char> {
    if contains(ip, seq![':']) {
        "["@ + ip + "]:"@ + dec(port as nat)
    } else {
        ip + ":"@ + dec(port as nat)
    }
}

/// Viewer `v` describes session `s`, which is playing with a transport.
pub open spec fn viewer_matches(v: Viewer, s: Session) -> bool {
    &&& s.state == SessionState::Playing
    &&& s.transport matches Some(t) && v.client_rtp_port == t.client_rtp_port && v.client_addr@ == socket_text(
        t.client_ip@,
        t.client_rtp_port,
    )
    &&& v.session_id@ == s.id@
    &&& v.uri@ == s.uri@
}

/// Viewer `v` describes one of the sessions `ss`.
pub open spec fn viewer_of_some(v: Viewer, ss: Seq<Session>) -> bool {
    exists|i: int| 0 <= i < ss.len() && viewer_matches(v, #[trigger] ss[i])
}

impl SessionManager {
    /// Where the RTP of session `id` goes, or why it cannot be sent:
    /// not registered, not playing, or without transport.
    pub fn delivery_target(&self, session_id: &str) -> (r: Result<Destination, RtspError>)
        requires
            self.wf(),
        ensures
            !has_id(self.sessions@, session_id@) ==> (r matches Err(RtspError::SessionNotFound(x)) && x@ == session_id@),
            has_id(self.sessions@, session_id@) && session_by_id(self.sessions@, session_id@).state
                != SessionState::Playing ==> (r matches Err(RtspError::SessionNotPlaying(x)) && x@ == session_id@),
            has_id(self.sessions@, session_id@) && session_by_id(self.sessions@, session_id@).state
                == SessionState::Playing && session_by_id(self.sessions@, session_id@).transport is None
                ==> (r matches Err(RtspError::TransportNotConfigured(x)) && x@ == session_id@),
            match target_of(self.sessions@, session_id@) {
                Some(d) => r matches Ok(x) && (x.session_id@, x.ip@, x.port) == d,
                None => r is Err,
            },
    {
        match self.get_session(session_id) {
            None => Err(RtspError::SessionNotFound(String::from_str(session_id))),
            Some(s) => {
                proof {
                    assert(self.sessions@.contains(*s));
                    lemma_unique_session(self, *s, session_id@);
                }
                if !s.is_playing() {
                    return Err(RtspError::SessionNotPlaying(String::from_str(session_id)));
                }
                match &s.transport {
                    None => Err(RtspError::TransportNotConfigured(String::from_str(session_id))),
                    Some(t) => Ok(Destination {
                        session_id: String::from_str(session_id),
                        ip: t.client_ip.clone(),
                        port: t.client_rtp_port,
                    }),
                }
            },
        }
    }

    /// The destinations of the subscribers `ids` that are playing and have
    /// a transport, in order.
    pub fn frame_destinations(&self, ids: &Vec<String>) -> (r: Vec<Destination>)
        requires
            self.wf(),
        ensures
            destination_views(r@) == destinations(self.sessions@, crate::h264::string_views(ids@)),
    {
        let ghost iv = crate::h264::string_views(ids@);
        let mut r: Vec<Destination> = Vec::new();
        let mut i: usize = 0;
        while i < ids.len()
            invariant
                self.wf(),
                iv == crate::h264::string_views(ids@),
                i <= ids@.len(),
                destination_views(r@) == destinations(self.sessions@, iv.take(i as int)),
            decreases ids@.len() - i,
        {
            assert(iv.take(i + 1).drop_last() =~= iv.take(i as int));
            assert(iv.take(i + 1).last() == iv[i as int]);
            let ghost before = destination_views(r@);
            match self.delivery_target(ids[i].as_str()) {
                Ok(d) => {
                    r.push(d);
                    assert(destination_views(r@) =~= before.push((d.session_id@, d.ip@, d.port)));
                },
                Err(_) => {},
            }
            i = i + 1;
        }
        assert(iv.take(i as int) =~= iv);
        r
    }

    /// The clients receiving media: playing sessions with a transport, in
    /// registry order.
    pub fn viewers(&self) -> (r: Vec<Viewer>)
        ensures
            r@.len() <= self.sessions@.len(),
            forall|k: int| 0 <= k < r@.len() ==> viewer_of_some(#[trigger] r@[k], self.sessions@),
            forall|i: int|
                0 <= i < self.sessions@.len() && (#[trigger] self.sessions@[i]).state == SessionState::Playing
                    && self.sessions@[i].transport is Some ==> exists|k: int|
                    0 <= k < r@.len() && r@[k].session_id@ == self.sessions@[i].id@,
    {
        let mut r: Vec<Viewer> = Vec::new();
        let colon = chars_of(":");
        proof {
            reveal_strlit(":");
            assert(colon@ =~= seq![':']);
        }
        let mut i: usize = 0;
        let ghost mut src: Seq<int> = Seq::empty();
        while i < self.sessions.len()
            invariant
                colon@ == seq![':'],
                i <= self.sessions@.len(),
                r@.len() <= i,
                src.len() == r@.len(),
                forall|k: int|
                    0 <= k < r@.len() ==> 0 <= #[trigger] src[k] < i && viewer_matches(r@[k], self.sessions@[src[k]]),
                forall|j: int|
                    0 <= j < i && (#[trigger] self.sessions@[j]).state == SessionState::Playing
                        && self.sessions@[j].transport is Some ==> exists|k: int|
                        0 <= k < r@.len() && r@[k].session_id@ == self.sessions@[j].id@,
            decreases self.sessions@.len() - i,
        {
            let s = &self.sessions[i];
            if s.is_playing() {
                match &s.transport {
                    Some(t) => {
                        let ipc = chars_of(t.client_ip.as_str());
                        let mut addr = String::new();
                        let port = decimal(t.client_rtp_port as u64);
                        if contains_chars(&ipc, &colon) {
                            append_str(&mut addr, "[");
                            append_str(&mut addr, t.client_ip.as_str());
                            append_str(&mut addr, "]:");
                        } else {
                            append_str(&mut addr, t.client_ip.as_str());
                            append_str(&mut addr, ":");
                        }
                        append_str(&mut addr, port.as_str());
                        let ghost before = r@;
                        r.push(Viewer {
                            session_id: s.id.clone(),
                            uri: s.uri.clone(),
                            client_addr: addr,
                            client_rtp_port: t.client_rtp_port,
                        });
                        proof {
                            let n = before.len() as int;
                            assert(r@[n].session_id@ == self.sessions@[i as int].id@);
                            src = src.push(i as int);
                            assert forall|k: int| 0 <= k < r@.len() implies 0 <= #[trigger] src[k] < i + 1
                                && viewer_matches(r@[k], self.sessions@[src[k]]) by {
                                if k < n {
                                    assert(r@[k] == before[k]);
                                } else {
                                    assert(self.sessions@[i as int] == *s);
                                }
                            }
                            assert forall|j: int|
                                0 <= j < i + 1 && (#[trigger] self.sessions@[j]).state == SessionState::Playing
                                    && self.sessions@[j].transport is Some implies exists|k: int|
                                    0 <= k < r@.len() && r@[k].session_id@ == self.sessions@[j].id@ by {
                                if j < i {
                                    let k = choose|k: int| 0 <= k < before.len() && before[k].session_id@ == self.sessions@[j].id@;
                                    assert(r@[k] == before[k]);
                                } else {
                                    assert(r@[n].session_id@ == self.sessions@[j].id@);
                                }
                            }
                        }
                    },
                    None => {},
                }
            }
            i = i + 1;
        }
        assert forall|k: int| 0 <= k < r@.len() implies viewer_of_some(#[trigger] r@[k], self.sessions@) by {
            let j = src[k];
            assert(0 <= j < self.sessions@.len() && viewer_matches(r@[k], self.sessions@[j]));
        }
        r
    }
}

} // verus!
