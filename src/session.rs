//! Sessions, their registry, and the server-port allocator.

use vstd::prelude::*;

use crate::error::RtspError;
use crate::text::{append_str, chars_of, decimal, dec, hex_pad, hex_padded, lemma_hex_pad_injective, pow16};
use crate::transport::Transport;

verus! {

/// Default session timeout in seconds.
pub const DEFAULT_SESSION_TIMEOUT_SECS: u64 = 60;

/// First server RTP port handed out.
pub const SERVER_PORT_MIN: u64 = 5000;

/// Largest server RTP port handed out.
pub const SERVER_PORT_MAX: u64 = 65534;

/// Playback state of a session.
#[derive(Debug, Clone, Copy, PartialEq, Eq, Structural)]
pub enum SessionState {
    /// Set up, not yet playing.
    Ready,
    /// Media is delivered.
    Playing,
    /// Delivery is suspended.
    Paused,
}

/// The playback state, under its other name.
pub type PlaybackState = SessionState;

/// The session ID made from counter value `n`: sixteen uppercase
/// hexadecimal digits.
pub open spec fn session_id_text(n: nat) -> Seq<char> {
    hex_pad(n, 16, true)
}

/// One RTSP session.
#[derive(Debug)]
pub struct Session {
    /// Session identifier.
    pub id: String,
    /// The URI of the SETUP request that made it.
    pub uri: String,
    /// Negotiated transport, once set.
    pub transport: Option<Transport>,
    /// Playback state.
    pub state: SessionState,
    /// Timeout announced to the client, in seconds.
    pub timeout_secs: u64,
}

impl Session {
    /// A fresh session, Ready, without transport, with the ID made from
    /// counter value `n`.
    pub fn new(n: u64, uri: &str) -> (r: Self)
        ensures
            r.id@ == session_id_text(n as nat),
            r.uri@ == uri@,
            r.transport is None,
            r.state == SessionState::Ready,
            r.timeout_secs == DEFAULT_SESSION_TIMEOUT_SECS,
    {
        Session {
            id: hex_padded(n, 16, true),
            uri: String::from_str(uri),
            transport: None,
            state: SessionState::Ready,
            timeout_secs: DEFAULT_SESSION_TIMEOUT_SECS,
        }
    }

    /// A copy of this session.
    pub fn duplicate(&self) -> (r: Self)
        ensures
            r == *self,
    {
        Session {
            id: self.id.clone(),
            uri: self.uri.clone(),
            transport: match &self.transport {
                Some(t) => Some(t.duplicate()),
                None => None,
            },
            state: self.state,
            timeout_secs: self.timeout_secs,
        }
    }

    /// Records the negotiated transport.
    pub fn set_transport(&mut self, transport: Transport)
        ensures
            final(self).transport == Some(transport),
            final(self).id == old(self).id,
            final(self).uri == old(self).uri,
            final(self).state == old(self).state,
            final(self).timeout_secs == old(self).timeout_secs,
    {
        self.transport = Some(transport);
    }

    /// A copy of the negotiated transport, if any.
    pub fn get_transport(&self) -> (r: Option<Transport>)
        ensures
            r == self.transport,
    {
        match &self.transport {
            Some(t) => Some(t.duplicate()),
            None => None,
        }
    }

    /// Moves to `state`.
    pub fn set_state(&mut self, state: SessionState)
        ensures
            final(self).state == state,
            final(self).id == old(self).id,
            final(self).uri == old(self).uri,
            final(self).transport == old(self).transport,
            final(self).timeout_secs == old(self).timeout_secs,
    {
        self.state = state;
    }

    /// The playback state.
    pub fn get_state(&self) -> (r: SessionState)
        ensures
            r == self.state,
    {
        self.state
    }

    /// Whether media is being delivered.
    pub fn is_playing(&self) -> (r: bool)
        ensures
            r == (self.state == SessionState::Playing),
    {
        self.state == SessionState::Playing
    }

    /// The `Session` response header value: `<id>;timeout=<seconds>`.
    pub fn session_header_value(&self) -> (r: String)
        ensures
            r@ == self.id@ + ";timeout="@ + dec(self.timeout_secs as nat),
    {
        let mut r = self.id.clone();
        append_str(&mut r, ";timeout=");
        let t = decimal(self.timeout_secs);
        append_str(&mut r, t.as_str());
        r
    }
}

/// The playing sessions of `ss`, in order.
pub open spec fn playing(ss: Seq<Session>) -> Seq<Session> {
    ss.filter(|s: Session| s.state == SessionState::Playing)
}

/// Session IDs are distinct, each made from a counter value below `next_id`.
pub open spec fn ids_wf(ss: Seq<Session>, next_id: u64) -> bool {
    &&& forall|i: int, j: int| 0 <= i < j < ss.len() ==> (#[trigger] ss[i]).id@ != (#[trigger] ss[j]).id@
    &&& forall|i: int|
        0 <= i < ss.len() ==> exists|n: nat| n < next_id && (#[trigger] ss[i]).id@ == #[trigger] session_id_text(n)
}

/// `after` is `before` with the state of the session `id` set to `st`.
pub open spec fn state_set(before: Seq<Session>, after: Seq<Session>, id: Seq<char>, st: SessionState) -> bool {
    &&& after.len() == before.len()
    &&& forall|i: int|
        0 <= i < before.len() ==> if before[i].id@ == id {
            &&& (#[trigger] after[i]).state == st
            &&& after[i].id == before[i].id
            &&& after[i].uri == before[i].uri
            &&& after[i].transport == before[i].transport
            &&& after[i].timeout_secs == before[i].timeout_secs
        } else {
            after[i] == before[i]
        }
}

/// `after` is `before` with the transport of the session `id` set to `t`.
pub open spec fn transport_set(before: Seq<Session>, after: Seq<Session>, id: Seq<char>, t: Transport) -> bool {
    &&& after.len() == before.len()
    &&& forall|i: int|
        0 <= i < before.len() ==> if before[i].id@ == id {
            &&& (#[trigger] after[i]).transport == Some(t)
            &&& after[i].id == before[i].id
            &&& after[i].uri == before[i].uri
            &&& after[i].state == before[i].state
            &&& after[i].timeout_secs == before[i].timeout_secs
        } else {
            after[i] == before[i]
        }
}

/// The IDs of a sequence of sessions.
pub open spec fn session_ids(ss: Seq<Session>) -> Seq<Seq<char>> {
    ss.map_values(|s: Session| s.id@)
}

/// Some session of `ss` has ID `id`.
pub open spec fn has_id(ss: Seq<Session>, id: Seq<char>) -> bool {
    exists|i: int| 0 <= i < ss.len() && (#[trigger] ss[i]).id@ == id
}

/// The port pair that the allocator hands out with counter `c`, and the
/// counter after.
pub open spec fn port_step(c: u64) -> ((u16, u16), u64) {
    if c > SERVER_PORT_MAX {
        ((SERVER_PORT_MIN as u16, (SERVER_PORT_MIN + 1) as u16), (SERVER_PORT_MIN + 2) as u64)
    } else {
        ((c as u16, (c + 1) as u16), (c + 2) as u64)
    }
}

/// Registry of live sessions and the server-port allocator.
#[derive(Debug)]
pub struct SessionManager {
    /// Live sessions, IDs pairwise distinct.
    pub sessions: Vec<Session>,
    /// Counter from which the next session ID is made.
    pub next_id: u64,
    /// Next server RTP port to hand out.
    pub next_server_port: u64,
}

impl SessionManager {
    /// Session IDs are distinct, each made from a counter value already
    /// used; the port counter is even and within range.
    pub open spec fn wf(&self) -> bool {
        &&& ids_wf(self.sessions@, self.next_id)
        &&& SERVER_PORT_MIN <= self.next_server_port <= SERVER_PORT_MAX + 2
        &&& self.next_server_port % 2 == 0
    }

    /// An empty registry; ports start at 5000.
    pub fn new() -> (r: Self)
        ensures
            r.wf(),
            r.sessions@.len() == 0,
            r.next_server_port == SERVER_PORT_MIN,
    {
        SessionManager { sessions: Vec::new(), next_id: 0, next_server_port: SERVER_PORT_MIN }
    }

    /// Registers a new Ready session for `uri` and returns its ID, made
    /// from the ID counter; `None` once the counter is spent.
    pub fn create_session(&mut self, uri: &str) -> (r: Option<String>)
        requires
            old(self).wf(),
        ensures
            final(self).wf(),
            final(self).next_server_port == old(self).next_server_port,
            old(self).next_id == u64::MAX ==> r is None && final(self).sessions@ == old(self).sessions@,
            old(self).next_id < u64::MAX ==> {
                &&& r matches Some(id) && id@ == session_id_text(old(self).next_id as nat)
                &&& final(self).sessions@.len() == old(self).sessions@.len() + 1
                &&& final(self).sessions@.drop_last() == old(self).sessions@
                &&& final(self).sessions@.last().id@ == session_id_text(old(self).next_id as nat)
                &&& final(self).sessions@.last().uri@ == uri@
                &&& final(self).sessions@.last().transport is None
                &&& final(self).sessions@.last().state == SessionState::Ready
                &&& final(self).sessions@.last().timeout_secs == DEFAULT_SESSION_TIMEOUT_SECS
            },
    {
        if self.next_id == u64::MAX {
            return None;
        }
        let n = self.next_id;
        let session = Session::new(n, uri);
        let id = session.id.clone();
        proof {
            reveal_with_fuel(pow16, 17);
            assert(pow16(16) == 0x1_0000_0000_0000_0000);
            assert forall|i: int| 0 <= i < self.sessions@.len() implies (#[trigger] self.sessions@[i]).id@
                != session.id@ by {
                let m = choose|m: nat| m < self.next_id && self.sessions@[i].id@ == #[trigger] session_id_text(m);
                if self.sessions@[i].id@ == session.id@ {
                    lemma_hex_pad_injective(m, n as nat, 16, true);
                }
            }
        }
        let ghost before = self.sessions@;
        self.sessions.push(session);
        self.next_id = n + 1;
        proof {
            assert forall|i: int|
                0 <= i < self.sessions@.len() implies exists|k: nat|
                    k < self.next_id && (#[trigger] self.sessions@[i]).id@ == #[trigger] session_id_text(k) by {
                if i < before.len() {
                    assert(self.sessions@[i] == before[i]);
                    let m = choose|m: nat| m < n && before[i].id@ == #[trigger] session_id_text(m);
                    assert(m < self.next_id && self.sessions@[i].id@ == session_id_text(m));
                } else {
                    assert(self.sessions@[i].id@ == session_id_text(n as nat));
                }
            }
            assert(self.sessions@.drop_last() =~= before);
        }
        Some(id)
    }

    /// Index of the session with ID `id`, if any.
    fn find(&self, id: &str) -> (r: Option<usize>)
        ensures
            match r {
                Some(i) => i < self.sessions@.len() && self.sessions@[i as int].id@ == id@,
                None => !has_id(self.sessions@, id@),
            },
    {
        let target = chars_of(id);
        let mut i: usize = 0;
        while i < self.sessions.len()
            invariant
                target@ == id@,
                i <= self.sessions@.len(),
                forall|j: int| 0 <= j < i ==> (#[trigger] self.sessions@[j]).id@ != id@,
            decreases self.sessions@.len() - i,
        {
            let sid = chars_of(self.sessions[i].id.as_str());
            if crate::text::chars_equal(&sid, &target) {
                return Some(i);
            }
            i = i + 1;
        }
        None
    }

    /// The session with ID `id`, if one is registered.
    pub fn get_session(&self, id: &str) -> (r: Option<&Session>)
        ensures
            match r {
                Some(s) => s.id@ == id@ && exists|i: int| 0 <= i < self.sessions@.len() && self.sessions@[i] == *s,
                None => !has_id(self.sessions@, id@),
            },
    {
        match self.find(id) {
            Some(i) => Some(&self.sessions[i]),
            None => None,
        }
    }

    /// Sets the state of the session with ID `id`; false if there is none.
    pub fn set_session_state(&mut self, id: &str, state: SessionState) -> (r: bool)
        requires
            old(self).wf(),
        ensures
            final(self).wf(),
            r == has_id(old(self).sessions@, id@),
            final(self).next_id == old(self).next_id,
            final(self).next_server_port == old(self).next_server_port,
            final(self).sessions@.len() == old(self).sessions@.len(),
            state_set(old(self).sessions@, final(self).sessions@, id@, state),
    {
        match self.find(id) {
            Some(i) => {
                let mut s = self.sessions.remove(i);
                s.set_state(state);
                self.sessions.insert(i, s);
                proof {
                    assert forall|j: int| 0 <= j < old(self).sessions@.len() && j != i implies self.sessions@[j]
                        == old(self).sessions@[j] by {}
                    assert forall|a: int, b: int|
                        0 <= a < b < self.sessions@.len() implies (#[trigger] self.sessions@[a]).id@
                            != (#[trigger] self.sessions@[b]).id@ by {
                        assert(self.sessions@[a].id == old(self).sessions@[a].id);
                        assert(self.sessions@[b].id == old(self).sessions@[b].id);
                    }
                    assert forall|j: int|
                        0 <= j < self.sessions@.len() implies exists|k: nat|
                            k < self.next_id && (#[trigger] self.sessions@[j]).id@ == #[trigger] session_id_text(k) by {
                        assert(self.sessions@[j].id == old(self).sessions@[j].id);
                        let m = choose|m: nat| m < self.next_id && old(self).sessions@[j].id@ == #[trigger] session_id_text(m);
                        assert(self.sessions@[j].id@ == session_id_text(m));
                    }
                }
                true
            },
            None => false,
        }
    }

    /// Sets the transport of the session with ID `id`; false if there is
    /// none.
    pub fn set_session_transport(&mut self, id: &str, transport: Transport) -> (r: bool)
        requires
            old(self).wf(),
        ensures
            final(self).wf(),
            r == has_id(old(self).sessions@, id@),
            final(self).next_id == old(self).next_id,
            final(self).next_server_port == old(self).next_server_port,
            final(self).sessions@.len() == old(self).sessions@.len(),
            transport_set(old(self).sessions@, final(self).sessions@, id@, transport),
    {
        match self.find(id) {
            Some(i) => {
                let mut s = self.sessions.remove(i);
                s.set_transport(transport);
                self.sessions.insert(i, s);
                proof {
                    assert forall|j: int| 0 <= j < old(self).sessions@.len() && j != i implies self.sessions@[j]
                        == old(self).sessions@[j] by {}
                    assert forall|a: int, b: int|
                        0 <= a < b < self.sessions@.len() implies (#[trigger] self.sessions@[a]).id@
                            != (#[trigger] self.sessions@[b]).id@ by {
                        assert(self.sessions@[a].id == old(self).sessions@[a].id);
                        assert(self.sessions@[b].id == old(self).sessions@[b].id);
                    }
                    assert forall|j: int|
                        0 <= j < self.sessions@.len() implies exists|k: nat|
                            k < self.next_id && (#[trigger] self.sessions@[j]).id@ == #[trigger] session_id_text(k) by {
                        assert(self.sessions@[j].id == old(self).sessions@[j].id);
                        let m = choose|m: nat| m < self.next_id && old(self).sessions@[j].id@ == #[trigger] session_id_text(m);
                        assert(self.sessions@[j].id@ == session_id_text(m));
                    }
                }
                true
            },
            None => false,
        }
    }

    /// Removes the session with ID `id` and returns it, if there is one.
    pub fn remove_session(&mut self, id: &str) -> (r: Option<Session>)
        requires
            old(self).wf(),
        ensures
            final(self).wf(),
            final(self).next_id == old(self).next_id,
            final(self).next_server_port == old(self).next_server_port,
            !has_id(final(self).sessions@, id@),
            match r {
                Some(s) => s.id@ == id@ && exists|i: int|
                    0 <= i < old(self).sessions@.len() && old(self).sessions@[i] == s
                        && final(self).sessions@ == old(self).sessions@.remove(i),
                None => !has_id(old(self).sessions@, id@) && final(self).sessions@ == old(self).sessions@,
            },
    {
        match self.find(id) {
            Some(i) => {
                let ghost before = self.sessions@;
                let s = self.sessions.remove(i);
                proof {
                    assert forall|a: int, b: int|
                        0 <= a < b < self.sessions@.len() implies (#[trigger] self.sessions@[a]).id@
                            != (#[trigger] self.sessions@[b]).id@ by {
                        let a0 = if a < i { a } else { a + 1 };
                        let b0 = if b < i { b } else { b + 1 };
                        assert(self.sessions@[a] == before[a0]);
                        assert(self.sessions@[b] == before[b0]);
                    }
                    assert forall|j: int|
                        0 <= j < self.sessions@.len() implies exists|k: nat|
                            k < self.next_id && (#[trigger] self.sessions@[j]).id@ == #[trigger] session_id_text(k) by {
                        let j0 = if j < i { j } else { j + 1 };
                        assert(self.sessions@[j] == before[j0]);
                        let m = choose|m: nat| m < self.next_id && before[j0].id@ == #[trigger] session_id_text(m);
                    }
                    assert forall|j: int| 0 <= j < self.sessions@.len() implies (#[trigger] self.sessions@[j]).id@ != id@ by {
                        let j0 = if j < i { j } else { j + 1 };
                        assert(self.sessions@[j] == before[j0]);
                        assert(before[i as int].id@ == id@);
                    }
                }
                Some(s)
            },
            None => None,
        }
    }

    /// Removes every session whose ID is in `ids`; returns how many were
    /// removed.
    pub fn remove_sessions(&mut self, ids: &[String]) -> (r: usize)
        requires
            old(self).wf(),
        ensures
            final(self).wf(),
            final(self).next_id == old(self).next_id,
            final(self).next_server_port == old(self).next_server_port,
            r == old(self).sessions@.len() - final(self).sessions@.len(),
            forall|k: int| 0 <= k < ids@.len() ==> !has_id(final(self).sessions@, (#[trigger] ids@[k])@),
            forall|s: Session| #[trigger] final(self).sessions@.contains(s) ==> old(self).sessions@.contains(s),
            forall|s: Session|
                #[trigger] old(self).sessions@.contains(s) && (forall|k: int| 0 <= k < ids@.len() ==> ids@[k]@ != s.id@)
                    ==> final(self).sessions@.contains(s),
    {
        let total = self.sessions.len();
        let mut removed: usize = 0;
        let mut k: usize = 0;
        while k < ids.len()
            invariant
                total == old(self).sessions@.len(),
                self.wf(),
                self.next_id == old(self).next_id,
                self.next_server_port == old(self).next_server_port,
                k <= ids@.len(),
                removed == old(self).sessions@.len() - self.sessions@.len(),
                self.sessions@.len() <= old(self).sessions@.len(),
                forall|j: int| 0 <= j < k ==> !has_id(self.sessions@, (#[trigger] ids@[j])@),
                forall|s: Session| #[trigger] self.sessions@.contains(s) ==> old(self).sessions@.contains(s),
                forall|s: Session|
                    #[trigger] old(self).sessions@.contains(s) && (forall|j: int| 0 <= j < k ==> ids@[j]@ != s.id@)
                        ==> self.sessions@.contains(s),
            decreases ids@.len() - k,
        {
            let ghost before = self.sessions@;
            let r = self.remove_session(ids[k].as_str());
            proof {
                let cur = self.sessions@;
                match &r {
                    Some(s) => {
                        let s = *s;
                        let i = choose|i: int| 0 <= i < before.len() && before[i] == s && cur == before.remove(i);
                        assert(cur.len() + 1 == before.len());
                        assert forall|t: Session| #[trigger] cur.contains(t) implies before.contains(t) by {
                            let j = choose|j: int| 0 <= j < cur.len() && cur[j] == t;
                            let j0 = if j < i { j } else { j + 1 };
                            assert(before[j0] == t);
                        }
                        assert forall|t: Session|
                            #[trigger] old(self).sessions@.contains(t) && (forall|j: int| 0 <= j < k + 1 ==> ids@[j]@ != t.id@)
                                implies cur.contains(t) by {
                            assert(ids@[k as int]@ != t.id@);
                            assert(before.contains(t));
                            let j = choose|j: int| 0 <= j < before.len() && before[j] == t;
                            assert(j != i);
                            let j1 = if j < i { j } else { j - 1 };
                            assert(cur[j1] == t);
                        }
                        assert forall|j: int| 0 <= j < k + 1 implies !has_id(cur, (#[trigger] ids@[j])@) by {
                            if j < k {
                                if has_id(cur, ids@[j]@) {
                                    let x = choose|x: int| 0 <= x < cur.len() && (#[trigger] cur[x]).id@ == ids@[j]@;
                                    let x0 = if x < i { x } else { x + 1 };
                                    assert(before[x0] == cur[x]);
                                }
                            }
                        }
                    },
                    None => {
                        assert forall|t: Session|
                            #[trigger] old(self).sessions@.contains(t) && (forall|j: int| 0 <= j < k + 1 ==> ids@[j]@ != t.id@)
                                implies cur.contains(t) by {
                            assert(forall|j: int| 0 <= j < k ==> ids@[j]@ != t.id@);
                        }
                    },
                }
            }
            if r.is_some() {
                removed = removed + 1;
            }
            k = k + 1;
        }
        removed
    }

    /// The next server port pair, RTP even and RTCP one above; after 65534
    /// the allocator starts again at 5000.
    pub fn allocate_server_ports(&mut self) -> (r: Result<(u16, u16), RtspError>)
        requires
            old(self).wf(),
        ensures
            final(self).wf(),
            r matches Ok(p) && p == port_step(old(self).next_server_port).0,
            final(self).next_server_port == port_step(old(self).next_server_port).1,
            final(self).sessions == old(self).sessions,
            final(self).next_id == old(self).next_id,
    {
        let rtp = self.next_server_port;
        self.next_server_port = rtp + 2;
        if rtp > SERVER_PORT_MAX {
            self.next_server_port = SERVER_PORT_MIN;
            let rtp2 = self.next_server_port;
            self.next_server_port = rtp2 + 2;
            if rtp2 > SERVER_PORT_MAX {
                return Err(RtspError::PortRangeExhausted);
            }
            return Ok((rtp2 as u16, (rtp2 + 1) as u16));
        }
        Ok((rtp as u16, (rtp + 1) as u16))
    }

    /// Copies of the sessions that are playing, in registry order.
    pub fn get_playing_sessions(&self) -> (r: Vec<Session>)
        ensures
            r@ == playing(self.sessions@),
    {
        let mut r: Vec<Session> = Vec::new();
        let mut i: usize = 0;
        while i < self.sessions.len()
            invariant
                i <= self.sessions@.len(),
                r@ == playing(self.sessions@.take(i as int)),
            decreases self.sessions@.len() - i,
        {
            assert(self.sessions@.take(i + 1) =~= self.sessions@.take(i as int).push(self.sessions@[i as int]));
            proof {
                self.sessions@.take(i as int).lemma_filter_push(self.sessions@[i as int], |s: Session| s.state == SessionState::Playing);
            }
            if self.sessions[i].is_playing() {
                r.push(self.sessions[i].duplicate());
            }
            i = i + 1;
        }
        assert(self.sessions@.take(i as int) =~= self.sessions@);
        r
    }
}

/// In a well-formed registry, a registered session with ID `id` is the one
/// that `choose` picks among those with that ID.
pub proof fn lemma_unique_session(sm: &SessionManager, s: Session, id: Seq<char>)
    requires
        sm.wf(),
        sm.sessions@.contains(s),
        s.id@ == id,
    ensures
        (choose|x: Session| sm.sessions@.contains(x) && x.id@ == id) == s,
{
    let x = choose|x: Session| sm.sessions@.contains(x) && x.id@ == id;
    let i = choose|i: int| 0 <= i < sm.sessions@.len() && sm.sessions@[i] == s;
    let j = choose|j: int| 0 <= j < sm.sessions@.len() && sm.sessions@[j] == x;
    if i != j {
        if i < j {
            assert(sm.sessions@[i].id@ != sm.sessions@[j].id@);
        } else {
            assert(sm.sessions@[j].id@ != sm.sessions@[i].id@);
        }
    }
}

/// No two live sessions of a well-formed registry share an ID.
pub proof fn lemma_session_ids_unique(sm: &SessionManager, i: int, j: int)
    requires
        sm.wf(),
        0 <= i < sm.sessions@.len(),
        0 <= j < sm.sessions@.len(),
        i != j,
    ensures
        sm.sessions@[i].id@ != sm.sessions@[j].id@,
{
    if i > j {
        assert(sm.sessions@[j].id@ != sm.sessions@[i].id@);
    }
}

} // verus!
