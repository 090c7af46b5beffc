//! Session descriptions for DESCRIBE responses.

use vstd::prelude::*;

use crate::h264::string_views;
use crate::mount::Mount;
use crate::packetizer::Packetizer;
use crate::text::{append_str, dec, decimal};

verus! {

/// Each line followed by CRLF.
pub open spec fn crlf_lines(ls: Seq<Seq<char>>) -> Seq<char>
    decreases ls.len(),
{
    if ls.len() == 0 {
        Seq::empty()
    } else {
        crlf_lines(ls.drop_last()) + ls.last() + "\r\n"@
    }
}

/// The session-level lines and the media line of a description.
pub open spec fn sdp_head(
    ip: Seq<char>,
    session_id: Seq<char>,
    session_version: Seq<char>,
    username: Seq<char>,
    session_name: Seq<char>,
    pt: u8,
) -> Seq<Seq<char>> {
    seq![
        "v=0"@,
        "o="@ + username + " "@ + session_id + " "@ + session_version + " IN IP4 "@ + ip,
        "s="@ + session_name,
        "c=IN IP4 "@ + ip,
        "t=0 0"@,
        "a=tool:rtsp-rs"@,
        "a=sendonly"@,
        "m=video 0 RTP/AVP "@ + dec(pt as nat),
    ]
}

/// Appends `line` and CRLF.
fn push_line(out: &mut String, line: &str)
    ensures
        final(out)@ == old(out)@ + line@ + "\r\n"@,
{
    append_str(out, line);
    append_str(out, "\r\n");
}

/// The session description of `mount`: session-level lines, the video
/// media line, then the packetizer's attributes in their order, each line
/// ended by CRLF.
pub fn generate_sdp<P: Packetizer>(
    mount: &Mount<P>,
    ip: &str,
    session_id: &str,
    session_version: &str,
    username: &str,
    session_name: &str,
) -> (r: String)
    ensures
        r@ == crlf_lines(
            sdp_head(ip@, session_id@, session_version@, username@, session_name@, mount.packetizer.pt_spec())
                + mount.packetizer.attrs_spec(),
        ),
{
    let ghost pt = mount.packetizer.pt_spec();
    let ghost head = sdp_head(ip@, session_id@, session_version@, username@, session_name@, pt);
    let mut out = String::new();
    push_line(&mut out, "v=0");
    let mut o = String::from_str("o=");
    append_str(&mut o, username);
    append_str(&mut o, " ");
    append_str(&mut o, session_id);
    append_str(&mut o, " ");
    append_str(&mut o, session_version);
    append_str(&mut o, " IN IP4 ");
    append_str(&mut o, ip);
    push_line(&mut out, o.as_str());
    let mut s = String::from_str("s=");
    append_str(&mut s, session_name);
    push_line(&mut out, s.as_str());
    let mut c = String::from_str("c=IN IP4 ");
    append_str(&mut c, ip);
    push_line(&mut out, c.as_str());
    push_line(&mut out, "t=0 0");
    push_line(&mut out, "a=tool:rtsp-rs");
    push_line(&mut out, "a=sendonly");
    let mut m = String::from_str("m=video 0 RTP/AVP ");
    let d = decimal(mount.payload_type() as u64);
    append_str(&mut m, d.as_str());
    push_line(&mut out, m.as_str());
    proof {
        reveal_with_fuel(crlf_lines, 9);
        assert(head.drop_last().drop_last().drop_last().drop_last().drop_last().drop_last().drop_last().drop_last() =~= Seq::<Seq<char>>::empty());
        assert(out@ =~= crlf_lines(head));
    }
    let attrs = mount.sdp_attributes();
    let ghost av = string_views(attrs@);
    let mut i: usize = 0;
    assert(head + av.take(0) =~= head);
    while i < attrs.len()
        invariant
            av == string_views(attrs@),
            i <= av.len(),
            out@ == crlf_lines(head + av.take(i as int)),
        decreases av.len() - i,
    {
        push_line(&mut out, attrs[i].as_str());
        assert((head + av.take(i + 1)).drop_last() =~= head + av.take(i as int));
        assert((head + av.take(i + 1)).last() == av[i as int]);
        i = i + 1;
    }
    assert(av.take(i as int) =~= av);
    out
}

} // verus!
