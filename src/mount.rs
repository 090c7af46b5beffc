//! Mounts (named stream endpoints) and their registry.

use vstd::prelude::*;

use crate::h264::string_views;
use crate::packetizer::{packetized, Packetizer};
use crate::rtp::seq_after;
use crate::text::{chars_equal, chars_of, find_from, has_prefix, lemma_find_from, matches_at, occurs_at, find_char};

verus! {

/// Path served when a URI names none.
pub const DEFAULT_MOUNT_PATH: &'static str = "/stream";

/// The last offset at or below `i` where `needle` occurs in `hay`.
pub open spec fn rfind_from(hay: Seq<char>, needle: Seq<char>, i: int) -> Option<int>
    decreases i + 1,
{
    if i < 0 {
        None
    } else if occurs_at(hay, needle, i) {
        Some(i)
    } else {
        rfind_from(hay, needle, i - 1)
    }
}

/// The path part of a URI before track stripping: after `rtsp://` or
/// `rtsps://`, from the first `/` on (the default path if there is none);
/// a path beginning with `/` as it is; anything else the default path.
pub open spec fn raw_mount_path(uri: Seq<char>) -> Seq<char> {
    if has_prefix(uri, "rtsp://"@) || has_prefix(uri, "rtsps://"@) {
        let k = if has_prefix(uri, "rtsp://"@) { "rtsp://"@.len() } else { "rtsps://"@.len() };
        let after = uri.subrange(k as int, uri.len() as int);
        let p = find_from(after, '/', 0);
        if p < after.len() {
            after.subrange(p, after.len() as int)
        } else {
            DEFAULT_MOUNT_PATH@
        }
    } else if uri.len() > 0 && uri[0] == '/' {
        uri
    } else {
        DEFAULT_MOUNT_PATH@
    }
}

/// The mount path named by a URI: its path part, cut before the last
/// `/track` if there is one.
pub open spec fn mount_path_of(uri: Seq<char>) -> Seq<char> {
    let path = raw_mount_path(uri);
    match rfind_from(path, "/track"@, path.len() - "/track"@.len()) {
        Some(pos) => path.subrange(0, pos),
        None => path,
    }
}

/// Last offset where `needle` occurs in `hay`.
fn rfind_chars(hay: &Vec<char>, needle: &Vec<char>) -> (r: Option<usize>)
    ensures
        match rfind_from(hay@, needle@, hay@.len() - needle@.len()) {
            Some(p) => r == Some(p as usize) && 0 <= p <= hay@.len(),
            None => r is None,
        },
{
    if needle.len() > hay.len() {
        assert(rfind_from(hay@, needle@, hay@.len() - needle@.len()) is None);
        return None;
    }
    let mut i: usize = hay.len() - needle.len();
    loop
        invariant
            i + needle@.len() <= hay@.len(),
            rfind_from(hay@, needle@, hay@.len() - needle@.len()) == rfind_from(hay@, needle@, i as int),
        decreases i,
    {
        if matches_at(hay, needle, i) {
            return Some(i);
        }
        if i == 0 {
            assert(rfind_from(hay@, needle@, -1) is None);
            return None;
        }
        i = i - 1;
    }
}

/// The mount path named by `uri`.
pub fn extract_mount_path<'a>(uri: &'a str) -> (r: &'a str)
    ensures
        r@ == mount_path_of(uri@),
{
    let v = chars_of(uri);
    let p1 = chars_of("rtsp://");
    let p2 = chars_of("rtsps://");
    let m1 = matches_at(&v, &p1, 0);
    let m2 = matches_at(&v, &p2, 0);
    proof {
        assert(m1 == has_prefix(uri@, "rtsp://"@)) by {
            if has_prefix(uri@, "rtsp://"@) {
                assert(occurs_at(v@, p1@, 0));
            }
        }
        assert(m2 == has_prefix(uri@, "rtsps://"@)) by {
            if has_prefix(uri@, "rtsps://"@) {
                assert(occurs_at(v@, p2@, 0));
            }
        }
    }
    let (src, start): (&'a str, usize) = if m1 || m2 {
        let k = if m1 { p1.len() } else { p2.len() };
        let after = crate::text::slice_chars(&v, k, v.len());
        let p = find_char(&after, '/', 0);
        proof {
            lemma_find_from(after@, '/', 0);
        }
        if p < after.len() {
            assert(after@.subrange(p as int, after@.len() as int) =~= v@.subrange(k + p, v@.len() as int));
            (uri, k + p)
        } else {
            (DEFAULT_MOUNT_PATH, 0)
        }
    } else if v.len() > 0 && v[0] == '/' {
        assert(v@.subrange(0, v@.len() as int) =~= v@);
        (uri, 0)
    } else {
        (DEFAULT_MOUNT_PATH, 0)
    };
    let sv = chars_of(src);
    assert(start <= sv@.len());
    let path = crate::text::slice_chars(&sv, start, sv.len());
    assert(path@ == raw_mount_path(uri@)) by {
        if !(m1 || m2) && !(v@.len() > 0 && v@[0] == '/') {
            assert(sv@.subrange(0, sv@.len() as int) =~= sv@);
        }
        if (m1 || m2) && src@ != uri@ {
            assert(sv@.subrange(0, sv@.len() as int) =~= sv@);
        }
    }
    let track = chars_of("/track");
    match rfind_chars(&path, &track) {
        Some(pos) => {
            assert(path@.subrange(0, pos as int) =~= sv@.subrange(start as int, start + pos));
            src.substring_char(start, start + pos)
        },
        None => src.substring_char(start, sv.len()),
    }
}

/// Subscribers after subscribing `id`: unchanged if present, else `id`
/// added at the end.
pub open spec fn subscribe_spec(subs: Seq<Seq<char>>, id: Seq<char>) -> Seq<Seq<char>> {
    if subs.contains(id) {
        subs
    } else {
        subs.push(id)
    }
}

/// A named stream endpoint: its packetizer and the IDs of the sessions
/// subscribed to it.
#[derive(Debug)]
pub struct Mount<P: Packetizer> {
    /// The mount's path, such as `/stream`.
    pub path: String,
    /// The packetizer of the mount's codec.
    pub packetizer: P,
    /// IDs of the subscribed sessions, each once.
    pub session_ids: Vec<String>,
}

impl<P: Packetizer> Mount<P> {
    /// The IDs of the subscribed sessions.
    pub open spec fn subscribers(&self) -> Seq<Seq<char>> {
        string_views(self.session_ids@)
    }

    /// The packetizer can take frames; no subscriber is listed twice.
    pub open spec fn wf(&self) -> bool {
        self.packetizer.ready() && self.subscribers().no_duplicates()
    }

    /// A mount at `path` with no subscribers.
    pub fn new(path: &str, packetizer: P) -> (r: Self)
        requires
            packetizer.ready(),
        ensures
            r.wf(),
            r.path@ == path@,
            r.packetizer == packetizer,
            r.subscribers().len() == 0,
    {
        let r = Mount { path: String::from_str(path), packetizer, session_ids: Vec::new() };
        assert(r.subscribers() =~= Seq::<Seq<char>>::empty());
        r
    }

    /// The mount's path.
    pub fn path(&self) -> (r: &str)
        ensures
            r@ == self.path@,
    {
        self.path.as_str()
    }

    /// Packetizes one frame with this mount's packetizer.
    pub fn packetize(&mut self, data: &[u8], timestamp_increment: u32) -> (r: Vec<Vec<u8>>)
        requires
            old(self).wf(),
        ensures
            final(self).wf(),
            old(self).packetizer.frame_spec(data@, timestamp_increment, final(self).packetizer, r@),
            packetized(old(self).packetizer, final(self).packetizer, r@),
            final(self).path == old(self).path,
            final(self).session_ids == old(self).session_ids,
    {
        self.packetizer.packetize(data, timestamp_increment)
    }

    /// RTP payload type.
    pub fn payload_type(&self) -> (r: u8)
        ensures
            r == self.packetizer.pt_spec(),
    {
        self.packetizer.payload_type()
    }

    /// SDP media attributes of the packetizer.
    pub fn sdp_attributes(&self) -> (r: Vec<String>)
        ensures
            string_views(r@) == self.packetizer.attrs_spec(),
    {
        self.packetizer.sdp_attributes()
    }

    /// RTP clock rate.
    pub fn clock_rate(&self) -> (r: u32)
        ensures
            r == self.packetizer.clock_spec(),
    {
        self.packetizer.clock_rate()
    }

    /// Sequence number of the next packet.
    pub fn next_sequence(&self) -> (r: u16)
        ensures
            r == self.packetizer.seq_spec(),
    {
        self.packetizer.next_sequence()
    }

    /// Low 32 bits of the current timestamp.
    pub fn next_rtp_timestamp(&self) -> (r: u32)
        ensures
            r == self.packetizer.ts_spec(),
    {
        self.packetizer.next_rtp_timestamp()
    }

    /// Index of subscriber `id`, if subscribed.
    fn position(&self, id: &str) -> (r: Option<usize>)
        ensures
            match r {
                Some(i) => i < self.subscribers().len() && self.subscribers()[i as int] == id@,
                None => !self.subscribers().contains(id@),
            },
    {
        let target = chars_of(id);
        let mut i: usize = 0;
        while i < self.session_ids.len()
            invariant
                target@ == id@,
                i <= self.session_ids@.len(),
                forall|j: int| 0 <= j < i ==> self.subscribers()[j] != id@,
            decreases self.session_ids@.len() - i,
        {
            let s = chars_of(self.session_ids[i].as_str());
            if chars_equal(&s, &target) {
                return Some(i);
            }
            i = i + 1;
        }
        None
    }

    /// Subscribes session `id`; subscribing it again changes nothing.
    pub fn subscribe(&mut self, session_id: &str)
        requires
            old(self).wf(),
        ensures
            final(self).wf(),
            final(self).subscribers() == subscribe_spec(old(self).subscribers(), session_id@),
            final(self).path == old(self).path,
            final(self).packetizer == old(self).packetizer,
    {
        match self.position(session_id) {
            Some(_) => {},
            None => {
                let ghost before = self.subscribers();
                self.session_ids.push(String::from_str(session_id));
                assert(self.subscribers() =~= before.push(session_id@));
                proof {
                    assert forall|a: int, b: int| 0 <= a < b < self.subscribers().len() implies self.subscribers()[a]
                        != self.subscribers()[b] by {
                        if b == before.len() {
                            assert(before[a] != session_id@);
                        }
                    }
                }
            },
        }
    }

    /// Unsubscribes session `id` (the last subscriber takes its place);
    /// nothing changes if it is not subscribed.
    pub fn unsubscribe(&mut self, session_id: &str)
        requires
            old(self).wf(),
        ensures
            final(self).wf(),
            !final(self).subscribers().contains(session_id@),
            !old(self).subscribers().contains(session_id@) ==> final(self).subscribers() == old(self).subscribers(),
            final(self).subscribers().to_set() == old(self).subscribers().to_set().remove(session_id@),
            final(self).path == old(self).path,
            final(self).packetizer == old(self).packetizer,
    {
        let ghost before = self.subscribers();
        match self.position(session_id) {
            Some(pos) => {
                self.session_ids.swap_remove(pos);
                let ghost last = before.last();
                proof {
                    let after = self.subscribers();
                    assert(after =~= before.update(pos as int, last).drop_last());
                    assert forall|a: int, b: int| 0 <= a < b < after.len() implies after[a] != after[b] by {
                        let a0 = if a == pos { before.len() - 1 } else { a };
                        let b0 = if b == pos { before.len() - 1 } else { b };
                        assert(after[a] == before[a0]);
                        assert(after[b] == before[b0]);
                    }
                    assert forall|x: Seq<char>| after.contains(x) <==> before.contains(x) && x != session_id@ by {
                        if after.contains(x) {
                            let j = choose|j: int| 0 <= j < after.len() && after[j] == x;
                            let j0 = if j == pos { before.len() - 1 } else { j };
                            assert(before[j0] == x);
                        }
                        if before.contains(x) && x != session_id@ {
                            let j = choose|j: int| 0 <= j < before.len() && before[j] == x;
                            if j == before.len() - 1 {
                                if pos as int != j {
                                    assert(after[pos as int] == x);
                                }
                            } else {
                                assert(j != pos);
                                assert(after[j] == x);
                            }
                        }
                    }
                    assert(after.to_set() =~= before.to_set().remove(session_id@));
                }
            },
            None => {
                assert(self.subscribers().to_set() =~= before.to_set().remove(session_id@));
            },
        }
    }

    /// A copy of the subscribed session IDs.
    pub fn subscribed_session_ids(&self) -> (r: Vec<String>)
        ensures
            string_views(r@) == self.subscribers(),
    {
        let mut r: Vec<String> = Vec::new();
        let mut i: usize = 0;
        while i < self.session_ids.len()
            invariant
                i <= self.session_ids@.len(),
                string_views(r@) == self.subscribers().take(i as int),
            decreases self.session_ids@.len() - i,
        {
            let c = self.session_ids[i].clone();
            let ghost before = string_views(r@);
            r.push(c);
            assert(string_views(r@) =~= before.push(c@));
            assert(c@ == self.subscribers()[i as int]);
            i = i + 1;
            assert(string_views(r@) =~= self.subscribers().take(i as int));
        }
        assert(self.subscribers().take(i as int) =~= self.subscribers());
        r
    }
}

/// Subscribing twice leaves one subscription, as subscribing once does;
/// unsubscribing an absent ID changes nothing.
pub proof fn lemma_subscription_idempotent(subs: Seq<Seq<char>>, id: Seq<char>)
    requires
        subs.no_duplicates(),
    ensures
        subscribe_spec(subscribe_spec(subs, id), id) == subscribe_spec(subs, id),
        subscribe_spec(subs, id).contains(id),
        subscribe_spec(subs, id).no_duplicates(),
{
    if !subs.contains(id) {
        assert(subs.push(id)[subs.len() as int] == id);
        assert forall|a: int, b: int| 0 <= a < b < subs.push(id).len() implies subs.push(id)[a] != subs.push(id)[b] by {
            if b == subs.len() {
                assert(subs[a] != id);
            }
        }
    }
}

/// Some mount of `ms` is at `path`.
pub open spec fn has_path<P: Packetizer>(ms: Seq<Mount<P>>, path: Seq<char>) -> bool {
    exists|i: int| 0 <= i < ms.len() && (#[trigger] ms[i]).path@ == path
}

/// The path of the mount that serves `uri`: the mount named by the URI if
/// registered, else the default mount if one is set and registered.
pub open spec fn resolve_spec<P: Packetizer>(ms: Seq<Mount<P>>, default_path: Option<Seq<char>>, uri: Seq<char>) -> Option<Seq<char>> {
    let p = mount_path_of(uri);
    if has_path(ms, p) {
        Some(p)
    } else {
        match default_path {
            Some(d) => if has_path(ms, d) {
                Some(d)
            } else {
                None
            },
            None => None,
        }
    }
}

/// The view of an optional string.
pub open spec fn opt_string(o: Option<String>) -> Option<Seq<char>> {
    match o {
        Some(s) => Some(s@),
        None => None,
    }
}

/// `after` is `before` with session `id` subscribed to the mount at `path`.
pub open spec fn subscribed_at<P: Packetizer>(before: Seq<Mount<P>>, after: Seq<Mount<P>>, path: Seq<char>, id: Seq<char>) -> bool {
    &&& after.len() == before.len()
    &&& forall|i: int|
        0 <= i < before.len() ==> if before[i].path@ == path {
            &&& (#[trigger] after[i]).subscribers() == subscribe_spec(before[i].subscribers(), id)
            &&& after[i].path == before[i].path
            &&& after[i].packetizer == before[i].packetizer
        } else {
            after[i] == before[i]
        }
}

/// `after` is `before` with session `id` unsubscribed from every mount.
pub open spec fn unsubscribed_everywhere<P: Packetizer>(before: Seq<Mount<P>>, after: Seq<Mount<P>>, id: Seq<char>) -> bool {
    &&& after.len() == before.len()
    &&& forall|i: int|
        0 <= i < after.len() ==> {
            &&& !(#[trigger] after[i]).subscribers().contains(id)
            &&& after[i].subscribers().to_set() == before[i].subscribers().to_set().remove(id)
            &&& after[i].path == before[i].path
            &&& after[i].packetizer == before[i].packetizer
        }
}

/// Mounts keyed by path, with an optional default mount for URIs that name
/// no registered path.
#[derive(Debug)]
pub struct MountRegistry<P: Packetizer> {
    /// Registered mounts, paths distinct.
    pub mounts: Vec<Mount<P>>,
    /// Path of the mount that serves URIs naming no registered path.
    pub default_path: Option<String>,
}

impl<P: Packetizer> MountRegistry<P> {
    /// Every mount is well formed, paths are distinct, and the default, if
    /// set, names a registered mount.
    pub open spec fn wf(&self) -> bool {
        &&& forall|i: int| 0 <= i < self.mounts@.len() ==> (#[trigger] self.mounts@[i]).wf()
        &&& forall|i: int, j: int|
            0 <= i < j < self.mounts@.len() ==> (#[trigger] self.mounts@[i]).path@ != (#[trigger] self.mounts@[j]).path@
        &&& match self.default_path {
            Some(d) => has_path(self.mounts@, d@),
            None => true,
        }
    }

    /// An empty registry without a default.
    pub fn new() -> (r: Self)
        ensures
            r.wf(),
            r.mounts@.len() == 0,
            r.default_path is None,
    {
        MountRegistry { mounts: Vec::new(), default_path: None }
    }

    /// Index of the mount at `path`, if any.
    fn index_of(&self, path: &str) -> (r: Option<usize>)
        ensures
            match r {
                Some(i) => i < self.mounts@.len() && self.mounts@[i as int].path@ == path@,
                None => !has_path(self.mounts@, path@),
            },
    {
        let target = chars_of(path);
        let mut i: usize = 0;
        while i < self.mounts.len()
            invariant
                target@ == path@,
                i <= self.mounts@.len(),
                forall|j: int| 0 <= j < i ==> (#[trigger] self.mounts@[j]).path@ != path@,
            decreases self.mounts@.len() - i,
        {
            let p = chars_of(self.mounts[i].path.as_str());
            if chars_equal(&p, &target) {
                return Some(i);
            }
            i = i + 1;
        }
        None
    }

    /// Registers a mount at `path` with `packetizer` and no subscribers,
    /// replacing any mount already there.
    pub fn add(&mut self, path: &str, packetizer: P)
        requires
            old(self).wf(),
            packetizer.ready(),
        ensures
            final(self).wf(),
            final(self).default_path == old(self).default_path,
            exists|i: int|
                0 <= i < final(self).mounts@.len() && (#[trigger] final(self).mounts@[i]).path@ == path@
                    && final(self).mounts@[i].packetizer == packetizer
                    && final(self).mounts@[i].subscribers().len() == 0,
            forall|m: Mount<P>| #[trigger] old(self).mounts@.contains(m) && m.path@ != path@ ==> final(self).mounts@.contains(m),
            forall|m: Mount<P>| #[trigger] final(self).mounts@.contains(m) && m.path@ != path@ ==> old(self).mounts@.contains(m),
            has_path(old(self).mounts@, path@) ==> final(self).mounts@.len() == old(self).mounts@.len(),
            !has_path(old(self).mounts@, path@) ==> final(self).mounts@.len() == old(self).mounts@.len() + 1,
    {
        let m = Mount::new(path, packetizer);
        let ghost before = self.mounts@;
        match self.index_of(path) {
            Some(i) => {
                self.mounts.set(i, m);
                proof {
                    let after = self.mounts@;
                    assert(after[i as int].path@ == path@);
                    assert forall|x: Mount<P>| #[trigger] before.contains(x) && x.path@ != path@ implies after.contains(x) by {
                        let j = choose|j: int| 0 <= j < before.len() && before[j] == x;
                        assert(j != i);
                        assert(after[j] == x);
                    }
                    assert forall|x: Mount<P>| #[trigger] after.contains(x) && x.path@ != path@ implies before.contains(x) by {
                        let j = choose|j: int| 0 <= j < after.len() && after[j] == x;
                        assert(j != i);
                        assert(before[j] == x);
                    }
                    assert forall|a: int, b: int| 0 <= a < b < after.len() implies (#[trigger] after[a]).path@ != (#[trigger] after[b]).path@ by {
                        if a != i && b != i {
                            assert(after[a] == before[a] && after[b] == before[b]);
                        } else if a == i {
                            assert(after[b] == before[b]);
                            assert(before[b].path@ != before[a].path@);
                        } else {
                            assert(after[a] == before[a]);
                            assert(before[a].path@ != before[b].path@);
                        }
                    }
                    match opt_string(self.default_path) {
                        Some(d) => {
                            let j = choose|j: int| 0 <= j < before.len() && (#[trigger] before[j]).path@ == d;
                            if j == i {
                                assert(after[i as int].path@ == d);
                            } else {
                                assert(after[j] == before[j]);
                            }
                        },
                        None => {},
                    }
                }
            },
            None => {
                self.mounts.push(m);
                proof {
                    let after = self.mounts@;
                    let n = before.len() as int;
                    assert(after[n].path@ == path@);
                    assert forall|x: Mount<P>| #[trigger] before.contains(x) implies after.contains(x) by {
                        let j = choose|j: int| 0 <= j < before.len() && before[j] == x;
                        assert(after[j] == x);
                    }
                    assert forall|x: Mount<P>| #[trigger] after.contains(x) && x.path@ != path@ implies before.contains(x) by {
                        let j = choose|j: int| 0 <= j < after.len() && after[j] == x;
                        assert(j != n);
                        assert(before[j] == x);
                    }
                    assert forall|a: int, b: int| 0 <= a < b < after.len() implies (#[trigger] after[a]).path@ != (#[trigger] after[b]).path@ by {
                        if b == n {
                            assert(after[a] == before[a]);
                        } else {
                            assert(after[a] == before[a] && after[b] == before[b]);
                        }
                    }
                    match opt_string(self.default_path) {
                        Some(d) => {
                            let j = choose|j: int| 0 <= j < before.len() && (#[trigger] before[j]).path@ == d;
                            assert(after[j] == before[j]);
                        },
                        None => {},
                    }
                }
            },
        }
    }

    /// Makes the mount at `path` the default.
    pub fn set_default(&mut self, path: &str)
        requires
            old(self).wf(),
            has_path(old(self).mounts@, path@),
        ensures
            final(self).wf(),
            final(self).mounts == old(self).mounts,
            opt_string(final(self).default_path) == Some(path@),
    {
        self.default_path = Some(String::from_str(path));
    }

    /// The mount at `path`, if registered.
    pub fn get(&self, path: &str) -> (r: Option<&Mount<P>>)
        ensures
            match r {
                Some(m) => m.path@ == path@ && self.mounts@.contains(*m),
                None => !has_path(self.mounts@, path@),
            },
    {
        match self.index_of(path) {
            Some(i) => Some(&self.mounts[i]),
            None => None,
        }
    }

    /// The mount that serves `uri`: exact match on its mount path, else
    /// the default mount.
    pub fn resolve_from_uri(&self, uri: &str) -> (r: Option<&Mount<P>>)
        requires
            self.wf(),
        ensures
            match resolve_spec(self.mounts@, opt_string(self.default_path), uri@) {
                Some(p) => r matches Some(m) && m.path@ == p && self.mounts@.contains(*m),
                None => r is None,
            },
    {
        let path = extract_mount_path(uri);
        match self.get(path) {
            Some(m) => Some(m),
            None => match &self.default_path {
                Some(d) => self.get(d.as_str()),
                None => None,
            },
        }
    }

    /// Subscribes session `session_id` to the mount at `path`; false if
    /// there is none.
    pub fn subscribe(&mut self, path: &str, session_id: &str) -> (r: bool)
        requires
            old(self).wf(),
        ensures
            final(self).wf(),
            r == has_path(old(self).mounts@, path@),
            final(self).default_path == old(self).default_path,
            final(self).mounts@.len() == old(self).mounts@.len(),
            subscribed_at(old(self).mounts@, final(self).mounts@, path@, session_id@),
    {
        match self.index_of(path) {
            Some(i) => {
                let ghost before = self.mounts@;
                let mut m = self.mounts.remove(i);
                m.subscribe(session_id);
                self.mounts.insert(i, m);
                proof {
                    let after = self.mounts@;
                    assert forall|j: int| 0 <= j < before.len() && j != i implies after[j] == before[j] by {}
                    assert forall|a: int, b: int| 0 <= a < b < after.len() implies (#[trigger] after[a]).path@ != (#[trigger] after[b]).path@ by {
                        assert(after[a].path == before[a].path && after[b].path == before[b].path);
                    }
                    match opt_string(self.default_path) {
                        Some(d) => {
                            let j = choose|j: int| 0 <= j < before.len() && (#[trigger] before[j]).path@ == d;
                            assert(after[j].path == before[j].path);
                        },
                        None => {},
                    }
                    assert forall|j: int| 0 <= j < before.len() && before[j].path@ == path@ implies j == i by {
                        if j != i {
                            assert(before[j].path@ != before[i as int].path@);
                        }
                    }
                }
                true
            },
            None => false,
        }
    }

    /// Packetizes one frame with the mount at `path`; `None` if there is
    /// none.
    pub fn packetize(&mut self, path: &str, data: &[u8], timestamp_increment: u32) -> (r: Option<Vec<Vec<u8>>>)
        requires
            old(self).wf(),
        ensures
            final(self).wf(),
            final(self).default_path == old(self).default_path,
            final(self).mounts@.len() == old(self).mounts@.len(),
            !has_path(old(self).mounts@, path@) ==> r is None && final(self).mounts == old(self).mounts,
            has_path(old(self).mounts@, path@) ==> r is Some && exists|i: int|
                {
                    &&& 0 <= i < old(self).mounts@.len()
                    &&& (#[trigger] old(self).mounts@[i]).path@ == path@
                    &&& old(self).mounts@[i].packetizer.frame_spec(
                        data@,
                        timestamp_increment,
                        final(self).mounts@[i].packetizer,
                        r->Some_0@,
                    )
                    &&& packetized(old(self).mounts@[i].packetizer, final(self).mounts@[i].packetizer, r->Some_0@)
                    &&& final(self).mounts@[i].path == old(self).mounts@[i].path
                    &&& final(self).mounts@[i].session_ids == old(self).mounts@[i].session_ids
                    &&& forall|j: int| 0 <= j < old(self).mounts@.len() && j != i ==> final(self).mounts@[j] == old(self).mounts@[j]
                },
    {
        match self.index_of(path) {
            Some(i) => {
                let ghost before = self.mounts@;
                let mut m = self.mounts.remove(i);
                let ps = m.packetize(data, timestamp_increment);
                self.mounts.insert(i, m);
                proof {
                    let after = self.mounts@;
                    assert forall|j: int| 0 <= j < before.len() && j != i implies after[j] == before[j] by {}
                    assert forall|a: int, b: int| 0 <= a < b < after.len() implies (#[trigger] after[a]).path@ != (#[trigger] after[b]).path@ by {
                        assert(after[a].path == before[a].path && after[b].path == before[b].path);
                    }
                    match opt_string(self.default_path) {
                        Some(d) => {
                            let j = choose|j: int| 0 <= j < before.len() && (#[trigger] before[j]).path@ == d;
                            assert(after[j].path == before[j].path);
                        },
                        None => {},
                    }
                }
                Some(ps)
            },
            None => None,
        }
    }

    /// Unsubscribes session `session_id` from every mount.
    pub fn unsubscribe_all(&mut self, session_id: &str)
        requires
            old(self).wf(),
        ensures
            final(self).wf(),
            final(self).default_path == old(self).default_path,
            unsubscribed_everywhere(old(self).mounts@, final(self).mounts@, session_id@),
    {
        let n = self.mounts.len();
        let mut i: usize = 0;
        while i < n
            invariant
                n == self.mounts@.len(),
                n == old(self).mounts@.len(),
                i <= n,
                self.wf(),
                self.default_path == old(self).default_path,
                forall|j: int|
                    0 <= j < n ==> (#[trigger] self.mounts@[j]).path == old(self).mounts@[j].path,
                forall|j: int|
                    0 <= j < i ==> {
                        &&& !(#[trigger] self.mounts@[j]).subscribers().contains(session_id@)
                        &&& self.mounts@[j].subscribers().to_set() == old(self).mounts@[j].subscribers().to_set().remove(
                            session_id@,
                        )
                        &&& self.mounts@[j].packetizer == old(self).mounts@[j].packetizer
                    },
                forall|j: int| i <= j < n ==> self.mounts@[j] == old(self).mounts@[j],
            decreases n - i,
        {
            let ghost before = self.mounts@;
            let mut m = self.mounts.remove(i);
            m.unsubscribe(session_id);
            self.mounts.insert(i, m);
            proof {
                let after = self.mounts@;
                assert forall|j: int| 0 <= j < n && j != i implies after[j] == before[j] by {}
                assert forall|a: int, b: int| 0 <= a < b < after.len() implies (#[trigger] after[a]).path@ != (#[trigger] after[b]).path@ by {
                    assert(after[a].path == before[a].path && after[b].path == before[b].path);
                }
                match opt_string(self.default_path) {
                    Some(d) => {
                        let j = choose|j: int| 0 <= j < before.len() && (#[trigger] before[j]).path@ == d;
                        assert(after[j].path == before[j].path);
                    },
                    None => {},
                }
            }
            i = i + 1;
        }
    }
}

/// With a default mount set, every URI resolves to a mount; without one,
/// a URI whose mount path is not registered resolves to none.
pub proof fn lemma_mount_fallback<P: Packetizer>(reg: &MountRegistry<P>, uri: Seq<char>)
    requires
        reg.wf(),
    ensures
        reg.default_path is Some ==> resolve_spec(reg.mounts@, opt_string(reg.default_path), uri) is Some,
        reg.default_path is None && !has_path(reg.mounts@, mount_path_of(uri)) ==> resolve_spec(
            reg.mounts@,
            opt_string(reg.default_path),
            uri,
        ) is None,
{
}

/// The registered mount at `path`.
pub open spec fn mount_at<P: Packetizer>(ms: Seq<Mount<P>>, path: Seq<char>) -> Mount<P> {
    choose|m: Mount<P>| ms.contains(m) && m.path@ == path
}

/// A registered mount at `path` is the one that `mount_at` picks.
pub proof fn lemma_unique_path<P: Packetizer>(reg: &MountRegistry<P>, m: Mount<P>, path: Seq<char>)
    requires
        reg.wf(),
        reg.mounts@.contains(m),
        m.path@ == path,
    ensures
        mount_at(reg.mounts@, path) == m,
{
    let x = choose|x: Mount<P>| reg.mounts@.contains(x) && x.path@ == path;
    let i = choose|i: int| 0 <= i < reg.mounts@.len() && reg.mounts@[i] == m;
    let j = choose|j: int| 0 <= j < reg.mounts@.len() && reg.mounts@[j] == x;
    if i != j {
        if i < j {
            assert(reg.mounts@[i].path@ != reg.mounts@[j].path@);
        } else {
            assert(reg.mounts@[j].path@ != reg.mounts@[i].path@);
        }
    }
}

} // verus!
