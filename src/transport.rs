//! Transport negotiation: the client's `Transport` header and the
//! negotiated port pairs of a session.

use vstd::prelude::*;

use crate::text::{
    char_views, chars_of, has_prefix, matches_at, occurs_at, parse_u16, parse_u16_spec, slice_chars,
    split_chars, split_on, trim, trim_range,
};

verus! {

/// Negotiated RTP/RTCP ports of a session and the client's address.
#[derive(Debug)]
pub struct Transport {
    /// Client's RTP receive port.
    pub client_rtp_port: u16,
    /// Client's RTCP receive port.
    pub client_rtcp_port: u16,
    /// Server RTP port advertised to the client.
    pub server_rtp_port: u16,
    /// Server RTCP port advertised to the client.
    pub server_rtcp_port: u16,
    /// The client's IP address, in text; RTP goes to it at
    /// `client_rtp_port`.
    pub client_ip: String,
}

impl Transport {
    /// A copy of this record.
    pub fn duplicate(&self) -> (r: Self)
        ensures
            r == *self,
    {
        Transport {
            client_rtp_port: self.client_rtp_port,
            client_rtcp_port: self.client_rtcp_port,
            server_rtp_port: self.server_rtp_port,
            server_rtcp_port: self.server_rtcp_port,
            client_ip: self.client_ip.clone(),
        }
    }
}

/// The client ports requested in a `Transport` header.
#[derive(Debug, Clone, Copy, PartialEq, Eq, Structural)]
pub struct TransportHeader {
    /// Client's requested RTP port.
    pub client_rtp_port: u16,
    /// Client's requested RTCP port.
    pub client_rtcp_port: u16,
}

/// The ports of the first `client_port=A-B` parameter (after trimming)
/// whose value has exactly one `-`, scanning parameters `k..`; `None` if
/// there is none or if its two numbers are not both `u16`.
pub open spec fn client_ports_from(parts: Seq<Seq<char>>, k: int) -> Option<(u16, u16)>
    decreases parts.len() - k,
{
    if k < 0 || k >= parts.len() {
        None
    } else {
        let p = trim(parts[k]);
        let pre = "client_port="@;
        if has_prefix(p, pre) && split_on(p.subrange(pre.len() as int, p.len() as int), '-').len() == 2 {
            let pp = split_on(p.subrange(pre.len() as int, p.len() as int), '-');
            match (parse_u16_spec(pp[0]), parse_u16_spec(pp[1])) {
                (Some(a), Some(b)) => Some((a, b)),
                _ => None,
            }
        } else {
            client_ports_from(parts, k + 1)
        }
    }
}

/// The client ports that a `Transport` header value requests.
pub open spec fn client_ports(header: Seq<char>) -> Option<(u16, u16)> {
    client_ports_from(split_on(header, ';'), 0)
}

impl TransportHeader {
    /// Reads the `client_port=RTP-RTCP` parameter of a `Transport` header
    /// value; its parameters are separated by `;`.
    pub fn parse(header: &str) -> (r: Option<Self>)
        ensures
            match client_ports(header@) {
                Some((a, b)) => r == Some(TransportHeader { client_rtp_port: a, client_rtcp_port: b }),
                None => r is None,
            },
    {
        let v = chars_of(header);
        let parts = split_chars(&v, ';');
        let ghost pv = char_views(parts@);
        let pre = chars_of("client_port=");
        let n = parts.len();
        let mut k: usize = 0;
        while k < n
            invariant
                n == parts@.len(),
                pv == char_views(parts@),
                pv == split_on(header@, ';'),
                pre@ == "client_port="@,
                k <= n,
                client_ports(header@) == client_ports_from(pv, k as int),
            decreases n - k,
        {
            let part = &parts[k];
            assert(part@ == pv[k as int]);
            let (a, b) = trim_range(part, 0, part.len());
            assert(part@.subrange(0, part@.len() as int) =~= part@);
            let p = slice_chars(part, a, b);
            if matches_at(&p, &pre, 0) {
                assert(has_prefix(p@, pre@));
                let ports = slice_chars(&p, pre.len(), p.len());
                let pp = split_chars(&ports, '-');
                if pp.len() == 2 {
                    assert(pp@[0]@ == char_views(pp@)[0] && pp@[1]@ == char_views(pp@)[1]);
                    assert(pp@[0]@.subrange(0, pp@[0]@.len() as int) =~= pp@[0]@);
                    assert(pp@[1]@.subrange(0, pp@[1]@.len() as int) =~= pp@[1]@);
                    let rtp = parse_u16(&pp[0], 0, pp[0].len());
                    let rtcp = parse_u16(&pp[1], 0, pp[1].len());
                    match (rtp, rtcp) {
                        (Some(x), Some(y)) => {
                            return Some(TransportHeader { client_rtp_port: x, client_rtcp_port: y });
                        },
                        _ => {
                            return None;
                        },
                    }
                }
            } else {
                assert(!has_prefix(p@, pre@)) by {
                    if has_prefix(p@, pre@) {
                        assert(occurs_at(p@, pre@, 0));
                    }
                }
            }
            k = k + 1;
        }
        None
    }
}

/// Reads the client ports of a `Transport` header value, as
/// `TransportHeader::parse` does.
pub fn parse_transport_header(header: &str) -> (r: Option<TransportHeader>)
    ensures
        match client_ports(header@) {
            Some((a, b)) => r == Some(TransportHeader { client_rtp_port: a, client_rtcp_port: b }),
            None => r is None,
        },
{
    TransportHeader::parse(header)
}

} // verus!
