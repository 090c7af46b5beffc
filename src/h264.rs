//! H.264 packetization: single NAL unit packets and FU-A fragmentation,
//! with SPS/PPS capture for the session description.

use base64::prelude::{Engine as _, BASE64_STANDARD};
use vstd::prelude::*;
use vstd::arithmetic::div_mod::lemma_add_mod_noop_right;

use crate::annexb::{copy_range, extract_nals, lemma_extract_nals_nonempty, scan_start_codes, start_entries, nal_end, nals_from, entry_views, byte_views, lemma_start_entries_bounds};
use crate::rtp::{header_bytes, seq_after, RtpHeader};
use crate::text::{append_str, dec, decimal, hex_pad, hex_padded};

verus! {

/// Largest RTP payload that a packet carries.
pub const DEFAULT_MTU: usize = 1400;

/// RTP clock rate of H.264 video.
pub const H264_CLOCK_RATE: u32 = 90000;

/// FU indicator: the NRI bits of the fragmented NAL header, type 28 (FU-A).
pub open spec fn fu_indicator(h: u8) -> u8 {
    (h & 0x60) | 28
}

/// FU header: start bit, end bit, and the fragmented unit's NAL type.
pub open spec fn fu_header(h: u8, start: bool, end: bool) -> u8 {
    (if start { 0x80u8 } else { 0u8 }) | (if end { 0x40u8 } else { 0u8 }) | (h & 0x1f)
}

/// `p` cut into consecutive pieces of `f` bytes, the last one shorter.
pub open spec fn fragments(p: Seq<u8>, f: int) -> Seq<Seq<u8>>
    decreases p.len(),
{
    if p.len() == 0 || f <= 0 {
        Seq::empty()
    } else if p.len() <= f {
        seq![p]
    } else {
        seq![p.subrange(0, f)] + fragments(p.subrange(f, p.len() as int), f)
    }
}

/// FU-A payloads of a NAL unit: indicator, header, then one fragment of
/// the bytes after the NAL header, each at most `mtu - 2` bytes.
pub open spec fn fu_payloads(nal: Seq<u8>, mtu: int) -> Seq<Seq<u8>> {
    let frags = fragments(nal.subrange(1, nal.len() as int), mtu - 2);
    Seq::new(
        frags.len(),
        |k: int|
            seq![fu_indicator(nal[0]), fu_header(nal[0], k == 0, k == frags.len() - 1)]
                + frags[k],
    )
}

/// RTP payloads that carry one NAL unit: none for an empty one, the unit
/// itself where it fits in `mtu` bytes, else its FU-A fragments.
pub open spec fn nal_payloads(nal: Seq<u8>, mtu: int) -> Seq<Seq<u8>> {
    if nal.len() == 0 {
        Seq::empty()
    } else if nal.len() <= mtu {
        seq![nal]
    } else {
        fu_payloads(nal, mtu)
    }
}

/// RTP payloads of a frame: those of its NAL units, in order.
pub open spec fn frame_payloads(nals: Seq<Seq<u8>>, mtu: int) -> Seq<Seq<u8>> {
    nals.map_values(|n: Seq<u8>| nal_payloads(n, mtu)).flatten()
}

/// The NAL type: the low five bits of the first byte.
pub open spec fn nal_type(n: Seq<u8>) -> u8 {
    n[0] & 0x1f
}

/// The first non-empty NAL unit of type `t`, if any.
pub open spec fn first_of_type(nals: Seq<Seq<u8>>, t: u8) -> Option<Seq<u8>>
    decreases nals.len(),
{
    if nals.len() == 0 {
        None
    } else {
        match first_of_type(nals.drop_last(), t) {
            Some(x) => Some(x),
            None => if nals.last().len() > 0 && nal_type(nals.last()) == t {
                Some(nals.last())
            } else {
                None
            },
        }
    }
}

/// A parameter set after a frame: kept if already set, else the first of
/// its type in the frame.
pub open spec fn captured(prev: Option<Seq<u8>>, nals: Seq<Seq<u8>>, t: u8) -> Option<Seq<u8>> {
    match prev {
        Some(x) => Some(x),
        None => first_of_type(nals, t),
    }
}

/// The view of an optional byte vector.
pub open spec fn opt_bytes(o: Option<Vec<u8>>) -> Option<Seq<u8>> {
    match o {
        Some(v) => Some(v@),
        None => None,
    }
}

/// Every fragment is non-empty and at most `f` bytes, and together they
/// give back `p`.
pub proof fn lemma_fragments(p: Seq<u8>, f: int)
    requires
        f > 0,
    ensures
        fragments(p, f).flatten() == p,
        forall|k: int|
            0 <= k < fragments(p, f).len() ==> 0 < (#[trigger] fragments(p, f)[k]).len() <= f,
        p.len() > 0 ==> fragments(p, f).len() >= 1,
    decreases p.len(),
{
    if p.len() == 0 {
    } else if p.len() <= f {
        seq![p].lemma_flatten_singleton();
    } else {
        let rest = p.subrange(f, p.len() as int);
        lemma_fragments(rest, f);
        let head = seq![p.subrange(0, f)];
        vstd::seq_lib::lemma_flatten_concat(head, fragments(rest, f));
        head.lemma_flatten_singleton();
        assert(p.subrange(0, f) + rest =~= p);
        let fr = fragments(p, f);
        assert(fr == head + fragments(rest, f));
        assert forall|k: int| 0 <= k < fr.len() implies 0 < (#[trigger] fr[k]).len() <= f by {
            if k > 0 {
                assert(fr[k] == fragments(rest, f)[k - 1]);
            }
        }
    }
}

/// Counting `a` then `b` packets on from `s` is counting `a + b`.
pub proof fn lemma_seq_after_add(s: u16, a: int, b: int)
    requires
        0 <= a,
        0 <= b,
    ensures
        seq_after(seq_after(s, a), b) == seq_after(s, a + b),
{
    lemma_add_mod_noop_right(b, s as int + a, 0x1_0000);
    assert(seq_after(s, a) as int == (s as int + a) % 0x1_0000);
}

/// A non-empty NAL unit is carried by at least one payload.
pub proof fn lemma_nal_payloads_nonempty(nal: Seq<u8>, mtu: int)
    requires
        mtu >= 3,
        nal.len() > 0,
    ensures
        nal_payloads(nal, mtu).len() >= 1,
{
    if nal.len() > mtu {
        lemma_fragments(nal.subrange(1, nal.len() as int), mtu - 2);
    }
}

/// The payloads of the first `i + 1` NAL units are those of the first `i`
/// followed by those of unit `i`.
pub proof fn lemma_frame_payloads_step(nals: Seq<Seq<u8>>, mtu: int, i: int)
    requires
        0 <= i < nals.len(),
    ensures
        frame_payloads(nals.take(i + 1), mtu) == frame_payloads(nals.take(i), mtu) + nal_payloads(nals[i], mtu),
{
    let f = |n: Seq<u8>| nal_payloads(n, mtu);
    assert(nals.take(i + 1).map_values(f) =~= nals.take(i).map_values(f).push(f(nals[i])));
    nals.take(i).map_values(f).lemma_flatten_push(f(nals[i]));
}

/// Where NAL units follow unit `i`, the payloads up to and including unit
/// `i` are fewer than those of the whole frame.
pub proof fn lemma_frame_payloads_prefix_shorter(nals: Seq<Seq<u8>>, mtu: int, i: int)
    requires
        0 <= i < nals.len() - 1,
        mtu >= 3,
        forall|j: int| 0 <= j < nals.len() ==> (#[trigger] nals[j]).len() > 0,
    ensures
        frame_payloads(nals.take(i + 1), mtu).len() < frame_payloads(nals, mtu).len(),
{
    let f = |n: Seq<u8>| nal_payloads(n, mtu);
    let a = nals.take(i + 1).map_values(f);
    let b = nals.skip(i + 1).map_values(f);
    assert(nals.map_values(f) =~= a + b);
    vstd::seq_lib::lemma_flatten_concat(a, b);
    lemma_nal_payloads_nonempty(nals[i + 1], mtu);
    assert(b[0] == nal_payloads(nals[i + 1], mtu));
    assert(b.flatten() == b.first() + b.drop_first().flatten());
}

/// Copies a byte vector.
fn copy_vec(v: &Vec<u8>) -> (r: Vec<u8>)
    ensures
        r@ == v@,
{
    let r = copy_range(v.as_slice(), 0, v.len());
    assert(v@.subrange(0, v@.len() as int) =~= v@);
    r
}

/// Copies a fixed header into a new vector.
fn header_vec(h: [u8; 12]) -> (r: Vec<u8>)
    ensures
        r@ == h@,
{
    let mut r: Vec<u8> = Vec::with_capacity(12);
    let mut i: usize = 0;
    while i < 12
        invariant
            i <= 12,
            r@ == h@.subrange(0, i as int),
        decreases 12 - i,
    {
        r.push(h[i]);
        i = i + 1;
        assert(r@ =~= h@.subrange(0, i as int));
    }
    assert(r@ =~= h@);
    r
}

/// Appends `src[s..e]` to `v`.
fn append_range(v: &mut Vec<u8>, src: &[u8], s: usize, e: usize)
    requires
        s <= e <= src@.len(),
    ensures
        final(v)@ == old(v)@ + src@.subrange(s as int, e as int),
{
    let mut i: usize = s;
    while i < e
        invariant
            s <= i <= e <= src@.len(),
            v@ == old(v)@ + src@.subrange(s as int, i as int),
        decreases e - i,
    {
        v.push(src[i]);
        i = i + 1;
        assert(v@ =~= old(v)@ + src@.subrange(s as int, i as int));
    }
}

/// What the standard base64 encoding (with padding) makes of `b`.
pub uninterp spec fn base64_of(b: Seq<u8>) -> Seq<char>;

/// Relies on base64's `BASE64_STANDARD.encode`: the standard-alphabet,
/// padded encoding, a function of the bytes alone, four characters for
/// each started group of three bytes.
#[verifier::external_body]
fn encode_base64(b: &[u8]) -> (r: String)
    ensures
        r@ == base64_of(b@),
        r@.len() == 4 * ((b@.len() + 2) / 3),
{
    BASE64_STANDARD.encode(b)
}

/// `profile-level-id`: lowercase hex of SPS bytes 1 to 3, given an SPS of
/// at least four bytes.
pub open spec fn profile_level_id_of(sps: Option<Seq<u8>>) -> Option<Seq<char>> {
    match sps {
        Some(s) => if s.len() >= 4 {
            Some(hex_pad(s[1] as nat, 2, false) + hex_pad(s[2] as nat, 2, false) + hex_pad(s[3] as nat, 2, false))
        } else {
            None
        },
        None => None,
    }
}

/// `sprop-parameter-sets`: base64 of the SPS, a comma, base64 of the PPS,
/// given both.
pub open spec fn sprop_of(sps: Option<Seq<u8>>, pps: Option<Seq<u8>>) -> Option<Seq<char>> {
    match (sps, pps) {
        (Some(s), Some(p)) => Some(base64_of(s) + ","@ + base64_of(p)),
        _ => None,
    }
}

/// The `a=rtpmap` line of payload type `pt`.
pub open spec fn rtpmap_line(pt: u8) -> Seq<char> {
    "a=rtpmap:"@ + dec(pt as nat) + " "@ + "H264"@ + "/"@ + dec(H264_CLOCK_RATE as nat)
}

/// The `a=fmtp` line of payload type `pt`, with the optional parameters
/// present only when given.
pub open spec fn fmtp_line(pt: u8, pl: Option<Seq<char>>, sprop: Option<Seq<char>>) -> Seq<char> {
    "a=fmtp:"@ + dec(pt as nat) + " packetization-mode=1"@ + match pl {
        Some(x) => ";profile-level-id="@ + x,
        None => Seq::empty(),
    } + match sprop {
        Some(x) => ";sprop-parameter-sets="@ + x,
        None => Seq::empty(),
    }
}

/// The views of a sequence of strings.
pub open spec fn string_views(v: Seq<String>) -> Seq<Seq<char>> {
    v.map_values(|x: String| x@)
}

/// The `a=fmtp` line for payload type `pt` from an already formatted
/// `profile-level-id` and `sprop-parameter-sets`, each optional.
pub fn fmtp_attribute(pt: u8, profile_level_id: Option<&str>, sprop: Option<&str>) -> (r: String)
    ensures
        r@ == fmtp_line(
            pt,
            match profile_level_id { Some(x) => Some(x@), None => None },
            match sprop { Some(x) => Some(x@), None => None },
        ),
{
    let mut f = String::new();
    append_str(&mut f, "a=fmtp:");
    let d = decimal(pt as u64);
    append_str(&mut f, d.as_str());
    append_str(&mut f, " packetization-mode=1");
    match profile_level_id {
        Some(pl) => {
            append_str(&mut f, ";profile-level-id=");
            append_str(&mut f, pl);
        },
        None => {},
    }
    match sprop {
        Some(sp) => {
            append_str(&mut f, ";sprop-parameter-sets=");
            append_str(&mut f, sp);
        },
        None => {},
    }
    assert(f@ =~= fmtp_line(
        pt,
        match profile_level_id { Some(x) => Some(x@), None => None },
        match sprop { Some(x) => Some(x@), None => None },
    ));
    f
}

/// The packets of one frame and the packetizer's state after it: each
/// packet is a fixed header followed by one payload of `frame_payloads`;
/// sequence numbers run on from the current one; the marker is set on the
/// last packet only; SPS and PPS not yet held are taken from the frame; the
/// timestamp moves on by `inc` once the frame is out.
pub open spec fn frame_packetized(
    before: H264Packetizer,
    after: H264Packetizer,
    data: Seq<u8>,
    inc: u32,
    r: Seq<Vec<u8>>,
) -> bool {
    let nals = extract_nals(data);
    let p = frame_payloads(nals, before.mtu as int);
    let h = before.header;
    &&& after.wf()
    &&& r.len() == p.len()
    &&& forall|j: int|
        0 <= j < p.len() ==> (#[trigger] r[j])@ == header_bytes(
            h.pt,
            j == p.len() - 1,
            seq_after(h.sequence, j),
            h.timestamp,
            h.ssrc,
        ) + p[j]
    &&& after.header.sequence == seq_after(h.sequence, p.len() as int)
    &&& opt_bytes(after.sps) == captured(opt_bytes(before.sps), nals, 7)
    &&& opt_bytes(after.pps) == captured(opt_bytes(before.pps), nals, 8)
    &&& after.header.timestamp == (h.timestamp as int + inc as int) % 0x1_0000_0000_0000_0000
    &&& after.header.pt == h.pt
    &&& after.header.ssrc == h.ssrc
    &&& after.mtu == before.mtu
}

/// Every packet of a frame starts with version 2 and the packetizer's
/// payload type, and packet `j` carries the sequence number `j` after the
/// packetizer's current one.
pub proof fn lemma_frame_headers(before: H264Packetizer, after: H264Packetizer, data: Seq<u8>, inc: u32, r: Seq<Vec<u8>>)
    requires
        frame_packetized(before, after, data, inc, r),
    ensures
        forall|j: int|
            0 <= j < r.len() ==> (#[trigger] r[j])@.len() >= 12 && r[j]@[0] == 0x80 && r[j]@[1] % 0x80
                == before.header.pt % 0x80 && packet_seq(r[j]@) == seq_after(before.header.sequence, j) as int,
{
    let p = frame_payloads(extract_nals(data), before.mtu as int);
    let h = before.header;
    assert forall|j: int| 0 <= j < r.len() implies (#[trigger] r[j])@.len() >= 12 && r[j]@[0] == 0x80
        && r[j]@[1] % 0x80 == before.header.pt % 0x80 && packet_seq(r[j]@) == seq_after(h.sequence, j) as int by {
        let hb = header_bytes(h.pt, j == p.len() - 1, seq_after(h.sequence, j), h.timestamp, h.ssrc);
        assert(r[j]@ == hb + p[j]);
        assert(r[j]@[0] == hb[0]);
        assert(r[j]@[1] == hb[1]);
        lemma_header_fields(h.pt, j == p.len() - 1, seq_after(h.sequence, j), h.timestamp, h.ssrc, p[j]);
    }
}

/// A non-empty NAL unit that fits in the MTU travels whole in one payload,
/// so in one packet of `12 + len` bytes.
pub proof fn lemma_single_nal(nal: Seq<u8>, mtu: int)
    requires
        0 < nal.len() <= mtu,
    ensures
        nal_payloads(nal, mtu) == seq![nal],
        (header_bytes(0, false, 0, 0, 0) + nal).len() == 12 + nal.len(),
{
}

/// The FU indicator keeps type 28 in its low five bits; the FU header
/// keeps the NAL type and carries the start and end bits as given.
pub proof fn lemma_fu_bits(h: u8, start: bool, end: bool)
    ensures
        fu_indicator(h) & 0x1f == 28,
        fu_header(h, start, end) & 0x1f == h & 0x1f,
        (fu_header(h, start, end) & 0x80 == 0x80) == start,
        (fu_header(h, start, end) & 0x40 == 0x40) == end,
{
    assert(((h & 0x60) | 28) & 0x1f == 28) by (bit_vector);
    let sb: u8 = if start { 0x80u8 } else { 0u8 };
    let eb: u8 = if end { 0x40u8 } else { 0u8 };
    assert((sb | eb | (h & 0x1f)) & 0x1f == h & 0x1f) by (bit_vector)
        requires
            sb == 0x80 || sb == 0,
            eb == 0x40 || eb == 0,
    ;
    assert(((sb | eb | (h & 0x1f)) & 0x80 == 0x80) == (sb == 0x80)) by (bit_vector)
        requires
            sb == 0x80 || sb == 0,
            eb == 0x40 || eb == 0,
    ;
    assert(((sb | eb | (h & 0x1f)) & 0x40 == 0x40) == (eb == 0x40)) by (bit_vector)
        requires
            sb == 0x80 || sb == 0,
            eb == 0x40 || eb == 0,
    ;
}

/// The bytes after the two FU-A bytes of each payload, in order.
pub open spec fn fragments_of(p: Seq<Seq<u8>>) -> Seq<u8>
    decreases p.len(),
{
    if p.len() == 0 {
        Seq::empty()
    } else {
        fragments_of(p.drop_last()) + p.last().subrange(2, p.last().len() as int)
    }
}

/// Payloads whose tails are the given pieces yield those pieces joined.
pub proof fn lemma_fragments_of(p: Seq<Seq<u8>>, frags: Seq<Seq<u8>>)
    requires
        p.len() == frags.len(),
        forall|k: int| 0 <= k < p.len() ==> (#[trigger] p[k]).subrange(2, p[k].len() as int) == frags[k],
    ensures
        fragments_of(p) == frags.flatten(),
    decreases p.len(),
{
    if p.len() > 0 {
        lemma_fragments_of(p.drop_last(), frags.drop_last());
        frags.drop_last().lemma_flatten_push(frags.last());
        assert(frags.drop_last().push(frags.last()) =~= frags);
    }
}

/// A NAL unit longer than the MTU is cut into at least two FU-A payloads,
/// each at most `mtu` bytes: the first with the start bit alone, the last
/// with the end bit alone, those between with neither; each indicator has
/// type 28 and each header the NAL's type; the fragments, put back
/// together, give the NAL unit without its first byte.
pub proof fn lemma_fu_fragmentation(nal: Seq<u8>, mtu: int)
    requires
        mtu >= 3,
        nal.len() > mtu,
    ensures
        ({
            let p = nal_payloads(nal, mtu);
            &&& p.len() >= 2
            &&& forall|k: int| 0 <= k < p.len() ==> 3 <= (#[trigger] p[k]).len() <= mtu
            &&& forall|k: int| 0 <= k < p.len() ==> #[trigger] p[k][0] & 0x1f == 28
            &&& forall|k: int| 0 <= k < p.len() ==> #[trigger] p[k][1] & 0x1f == nal[0] & 0x1f
            &&& forall|k: int|
                0 <= k < p.len() ==> ((#[trigger] p[k][1] & 0x80 == 0x80) == (k == 0)) && ((p[k][1] & 0x40
                    == 0x40) == (k == p.len() - 1))
            &&& fragments_of(p) == nal.subrange(1, nal.len() as int)
        }),
{
    let pl = nal.subrange(1, nal.len() as int);
    let f = mtu - 2;
    let frags = fragments(pl, f);
    lemma_fragments(pl, f);
    let p = nal_payloads(nal, mtu);
    assert(pl.len() > f);
    assert(frags == seq![pl.subrange(0, f)] + fragments(pl.subrange(f, pl.len() as int), f));
    lemma_fragments(pl.subrange(f, pl.len() as int), f);
    assert forall|k: int| 0 <= k < p.len() implies {
        &&& 3 <= (#[trigger] p[k]).len() <= mtu
        &&& p[k][0] & 0x1f == 28
        &&& p[k][1] & 0x1f == nal[0] & 0x1f
        &&& (p[k][1] & 0x80 == 0x80) == (k == 0)
        &&& (p[k][1] & 0x40 == 0x40) == (k == p.len() - 1)
    } by {
        lemma_fu_bits(nal[0], k == 0, k == frags.len() - 1);
        assert(p[k][0] == fu_indicator(nal[0]));
        assert(p[k][1] == fu_header(nal[0], k == 0, k == frags.len() - 1));
    }
    assert forall|k: int| 0 <= k < p.len() implies (#[trigger] p[k]).subrange(2, p[k].len() as int) == frags[k] by {
        assert(p[k].subrange(2, p[k].len() as int) =~= frags[k]);
    }
    lemma_fragments_of(p, frags);
}

/// An FU-A payload group put back together: the NAL header rebuilt from
/// the indicator's F and NRI bits and the header's type, then the
/// fragments; a single payload that is no FU-A is the NAL unit itself.
pub open spec fn reassemble(p: Seq<Seq<u8>>) -> Seq<u8> {
    if p.len() == 1 && p[0][0] & 0x1f != 28 {
        p[0]
    } else {
        seq![(p[0][0] & 0xe0) | (p[0][1] & 0x1f)] + fragments_of(p)
    }
}

/// Packetizing a NAL unit and reassembling its payloads gives it back,
/// for a unit that is not itself of type 28 and, when fragmented, has a
/// clear F bit (the FU indicator carries F and NRI only).
pub proof fn lemma_reassemble_nal(nal: Seq<u8>, mtu: int)
    requires
        mtu >= 3,
        nal.len() > 0,
        nal_type(nal) != 28,
        nal.len() > mtu ==> nal[0] & 0x80 == 0,
    ensures
        reassemble(nal_payloads(nal, mtu)) == nal,
{
    if nal.len() > mtu {
        lemma_fu_fragmentation(nal, mtu);
        let p = nal_payloads(nal, mtu);
        let h = nal[0];
        assert(p[0][0] == fu_indicator(h));
        assert(p[0][1] & 0x1f == h & 0x1f);
        let j = p[0][1];
        assert((((h & 0x60) | 28) & 0xe0) | (j & 0x1f) == h) by (bit_vector)
            requires
                j & 0x1f == h & 0x1f,
                h & 0x80 == 0,
        ;
        assert(seq![h] + nal.subrange(1, nal.len() as int) =~= nal);
    }
}

/// Extracting NAL units from any Annex-B stream, packetizing each, and
/// reassembling each payload group gives back the extracted units, for
/// units that are not of type 28 and, when longer than the MTU, have a
/// clear F bit.
pub proof fn lemma_extract_then_reassemble(data: Seq<u8>, mtu: int)
    requires
        mtu >= 3,
        forall|i: int|
            0 <= i < extract_nals(data).len() ==> nal_type(#[trigger] extract_nals(data)[i]) != 28 && (
            extract_nals(data)[i].len() > mtu ==> extract_nals(data)[i][0] & 0x80 == 0),
    ensures
        frame_payloads(extract_nals(data), mtu) == extract_nals(data).map_values(|n: Seq<u8>| nal_payloads(n, mtu)).flatten(),
        forall|i: int|
            0 <= i < extract_nals(data).len() ==> reassemble(nal_payloads(#[trigger] extract_nals(data)[i], mtu))
                == extract_nals(data)[i],
{
    lemma_extract_nals_nonempty(data);
    assert forall|i: int| 0 <= i < extract_nals(data).len() implies reassemble(
        nal_payloads(#[trigger] extract_nals(data)[i], mtu),
    ) == extract_nals(data)[i] by {
        lemma_reassemble_nal(extract_nals(data)[i], mtu);
    }
}

/// The sequence number carried in bytes 2 and 3 of a packet.
pub open spec fn packet_seq(p: Seq<u8>) -> int {
    p[2] as int * 0x100 + p[3] as int
}

/// A packet made of a fixed header and a payload shows version 2, the
/// payload type's low seven bits, and the sequence number.
pub proof fn lemma_header_fields(pt: u8, marker: bool, seq: u16, ts: u64, ssrc: u32, payload: Seq<u8>)
    ensures
        ({
            let v = header_bytes(pt, marker, seq, ts, ssrc) + payload;
            &&& v.len() >= 12
            &&& v[0] >> 6 == 2
            &&& v[1] & 0x7f == pt & 0x7f
            &&& packet_seq(v) == seq as int
        }),
{
    let hb = header_bytes(pt, marker, seq, ts, ssrc);
    let v = hb + payload;
    assert(v[0] == hb[0] && v[1] == hb[1] && v[2] == hb[2] && v[3] == hb[3]);
    let b1 = hb[1];
    assert(0x80u8 >> 6 == 2) by (bit_vector);
    assert(b1 & 0x7f == pt & 0x7f) by (bit_vector)
        requires
            b1 == pt % 0x80 || b1 == 0x80 + pt % 0x80,
    ;
}

/// Every packet of a frame starts with version 2 and the packetizer's
/// payload type, and each carries the sequence number after that of the
/// packet before it, modulo 2^16; the next frame goes on from there.
pub proof fn lemma_frame_sequence(before: H264Packetizer, after: H264Packetizer, data: Seq<u8>, inc: u32, r: Seq<Vec<u8>>)
    requires
        frame_packetized(before, after, data, inc, r),
    ensures
        forall|j: int|
            0 <= j < r.len() ==> (#[trigger] r[j])@.len() >= 12 && r[j]@[0] >> 6 == 2 && r[j]@[1] & 0x7f
                == before.header.pt & 0x7f,
        r.len() > 0 ==> packet_seq(r[0]@) == before.header.sequence,
        forall|j: int| 0 < j < r.len() ==> packet_seq((#[trigger] r[j])@) == (packet_seq(r[j - 1]@) + 1) % 0x1_0000,
        r.len() > 0 ==> after.header.sequence == (packet_seq(r[r.len() - 1]@) + 1) % 0x1_0000,
{
    let p = frame_payloads(extract_nals(data), before.mtu as int);
    let h = before.header;
    assert forall|j: int| 0 <= j < r.len() implies packet_seq((#[trigger] r[j])@) == seq_after(h.sequence, j) as int
        && r[j]@.len() >= 12 && r[j]@[0] >> 6 == 2 && r[j]@[1] & 0x7f == before.header.pt & 0x7f by {
        lemma_header_fields(h.pt, j == p.len() - 1, seq_after(h.sequence, j), h.timestamp, h.ssrc, p[j]);
    }
    assert forall|j: int| 0 < j < r.len() implies packet_seq((#[trigger] r[j])@) == (packet_seq(r[j - 1]@) + 1) % 0x1_0000 by {
        lemma_seq_after_add(h.sequence, j - 1, 1);
        assert(packet_seq(r[j - 1]@) == seq_after(h.sequence, j - 1) as int);
    }
    if r.len() > 0 {
        lemma_seq_after_add(h.sequence, r.len() - 1, 1);
        assert(packet_seq(r[r.len() - 1]@) == seq_after(h.sequence, r.len() - 1) as int);
        assert(seq_after(h.sequence, 0) == h.sequence) by {
            vstd::arithmetic::div_mod::lemma_small_mod(h.sequence as nat, 0x1_0000);
        }
        assert(packet_seq(r[0]@) == seq_after(h.sequence, 0) as int);
    }
}

/// The SDP media attributes of a packetizer, in order.
pub open spec fn sdp_attributes_of(p: H264Packetizer) -> Seq<Seq<char>> {
    seq![
        rtpmap_line(p.header.pt),
        fmtp_line(
            p.header.pt,
            profile_level_id_of(opt_bytes(p.sps)),
            sprop_of(opt_bytes(p.sps), opt_bytes(p.pps)),
        ),
        "a=control:track1"@,
    ]
}

/// Index of the first payload at or after `i` whose FU header carries the
/// end bit, or `ps.len()`.
pub open spec fn fu_end(ps: Seq<Seq<u8>>, i: int) -> int
    decreases ps.len() - i,
{
    if i < 0 || i >= ps.len() {
        ps.len() as int
    } else if ps[i][1] & 0x40 == 0x40 {
        i
    } else {
        fu_end(ps, i + 1)
    }
}

/// `fu_end` lands at or after `i`.
pub proof fn lemma_fu_end_bounds(ps: Seq<Seq<u8>>, i: int)
    requires
        0 <= i,
    ensures
        i <= fu_end(ps, i) <= ps.len() || (i > ps.len() && fu_end(ps, i) == ps.len()),
    decreases ps.len() - i,
{
    if i < ps.len() && ps[i][1] & 0x40 != 0x40 {
        lemma_fu_end_bounds(ps, i + 1);
    }
}

/// The NAL units carried by a run of RTP payloads, read in order: a
/// payload that is no FU-A is a unit; an FU-A run up to the payload with
/// the end bit is reassembled into one.
pub open spec fn depacketize(ps: Seq<Seq<u8>>) -> Seq<Seq<u8>>
    decreases ps.len() via depacketize_decreases
{
    if ps.len() == 0 {
        Seq::empty()
    } else if ps[0][0] & 0x1f != 28 {
        seq![ps[0]] + depacketize(ps.drop_first())
    } else if fu_end(ps, 0) < ps.len() {
        let e = fu_end(ps, 0);
        seq![reassemble(ps.take(e + 1))] + depacketize(ps.skip(e + 1))
    } else {
        seq![reassemble(ps)]
    }
}

#[via_fn]
proof fn depacketize_decreases(ps: Seq<Seq<u8>>) {
    lemma_fu_end_bounds(ps, 0);
}

/// In an FU-A group followed by anything, the first end bit is on the
/// group's last payload.
proof fn lemma_fu_end_of_group(p: Seq<Seq<u8>>, rest: Seq<Seq<u8>>, i: int)
    requires
        p.len() >= 1,
        0 <= i <= p.len() - 1,
        forall|k: int| 0 <= k < p.len() ==> ((#[trigger] p[k][1] & 0x40 == 0x40) == (k == p.len() - 1)),
    ensures
        fu_end(p + rest, i) == p.len() - 1,
    decreases p.len() - i,
{
    assert((p + rest)[i] == p[i]);
    if i < p.len() - 1 {
        lemma_fu_end_of_group(p, rest, i + 1);
    }
}

/// Reading back the payloads of one NAL unit followed by others yields
/// that unit followed by what the others yield.
pub proof fn lemma_depacketize_nal(nal: Seq<u8>, mtu: int, rest: Seq<Seq<u8>>)
    requires
        mtu >= 3,
        nal.len() > 0,
        nal_type(nal) != 28,
        nal.len() > mtu ==> nal[0] & 0x80 == 0,
    ensures
        depacketize(nal_payloads(nal, mtu) + rest) == seq![nal] + depacketize(rest),
{
    let p = nal_payloads(nal, mtu);
    let q = p + rest;
    if nal.len() <= mtu {
        assert(q[0] == nal);
        assert(q.drop_first() =~= rest);
    } else {
        lemma_fu_fragmentation(nal, mtu);
        lemma_reassemble_nal(nal, mtu);
        assert(q[0] == p[0]);
        lemma_fu_end_of_group(p, rest, 0);
        assert(q.take(p.len() as int) =~= p);
        assert(q.skip(p.len() as int) =~= rest);
    }
}

/// Reading back the payloads of a sequence of NAL units yields those units.
pub proof fn lemma_depacketize_frame(nals: Seq<Seq<u8>>, mtu: int)
    requires
        mtu >= 3,
        forall|i: int|
            0 <= i < nals.len() ==> (#[trigger] nals[i]).len() > 0 && nal_type(nals[i]) != 28 && (nals[i].len() > mtu
                ==> nals[i][0] & 0x80 == 0),
    ensures
        depacketize(frame_payloads(nals, mtu)) == nals,
    decreases nals.len(),
{
    if nals.len() > 0 {
        let f = |n: Seq<u8>| nal_payloads(n, mtu);
        let rest = nals.drop_first();
        assert forall|i: int| 0 <= i < rest.len() implies (#[trigger] rest[i]).len() > 0 && nal_type(rest[i]) != 28 && (
        rest[i].len() > mtu ==> rest[i][0] & 0x80 == 0) by {
            assert(rest[i] == nals[i + 1]);
        }
        lemma_depacketize_frame(rest, mtu);
        assert(nals.map_values(f).drop_first() =~= rest.map_values(f));
        assert(frame_payloads(nals, mtu) == nal_payloads(nals[0], mtu) + frame_payloads(rest, mtu));
        lemma_depacketize_nal(nals[0], mtu, frame_payloads(rest, mtu));
        assert(seq![nals[0]] + rest =~= nals);
    }
}

/// The RTP payloads of packets: each packet without its 12 header bytes.
pub open spec fn packet_payloads(r: Seq<Vec<u8>>) -> Seq<Seq<u8>>
    decreases r.len(),
{
    if r.len() == 0 {
        Seq::empty()
    } else {
        packet_payloads(r.drop_last()).push(r.last()@.subrange(12, r.last()@.len() as int))
    }
}

proof fn lemma_packet_payloads(r: Seq<Vec<u8>>, p: Seq<Seq<u8>>)
    requires
        r.len() == p.len(),
        forall|j: int| 0 <= j < r.len() ==> (#[trigger] r[j])@.subrange(12, r[j]@.len() as int) == p[j],
    ensures
        packet_payloads(r) == p,
    decreases r.len(),
{
    if r.len() > 0 {
        lemma_packet_payloads(r.drop_last(), p.drop_last());
        assert(p.drop_last().push(p.last()) =~= p);
    }
}

/// Extract then reassemble, over the packets of a frame: reading the
/// packets back in order yields the frame's NAL units, for units that are
/// not of type 28 and, when longer than the MTU, have a clear F bit.
pub proof fn lemma_frame_round_trip(before: H264Packetizer, after: H264Packetizer, data: Seq<u8>, inc: u32, r: Seq<Vec<u8>>)
    requires
        frame_packetized(before, after, data, inc, r),
        before.mtu >= 3,
        forall|i: int|
            0 <= i < extract_nals(data).len() ==> nal_type(#[trigger] extract_nals(data)[i]) != 28 && (
            extract_nals(data)[i].len() > before.mtu ==> extract_nals(data)[i][0] & 0x80 == 0),
    ensures
        depacketize(packet_payloads(r)) == extract_nals(data),
{
    let nals = extract_nals(data);
    let mtu = before.mtu as int;
    let p = frame_payloads(nals, mtu);
    let h = before.header;
    lemma_extract_nals_nonempty(data);
    assert forall|j: int| 0 <= j < r.len() implies (#[trigger] r[j])@.subrange(12, r[j]@.len() as int) == p[j] by {
        let hb = header_bytes(h.pt, j == p.len() - 1, seq_after(h.sequence, j), h.timestamp, h.ssrc);
        assert(r[j]@ == hb + p[j]);
        assert((hb + p[j]).subrange(12, (hb + p[j]).len() as int) =~= p[j]);
    }
    lemma_packet_payloads(r, p);
    lemma_depacketize_frame(nals, mtu);
}

/// H.264 packetizer: RTP header state, MTU, and the SPS and PPS captured
/// from the stream.
#[derive(Debug)]
pub struct H264Packetizer {
    /// RTP header state of the stream.
    pub header: RtpHeader,
    /// Largest RTP payload, in bytes.
    pub mtu: usize,
    /// The first SPS seen in the stream.
    pub sps: Option<Vec<u8>>,
    /// The first PPS seen in the stream.
    pub pps: Option<Vec<u8>>,
}

impl H264Packetizer {
    /// The MTU leaves room for the two FU-A bytes and a fragment byte.
    pub open spec fn wf(&self) -> bool {
        self.mtu >= 3
    }

    /// Packetizer with the given payload type and SSRC, default MTU, and no
    /// parameter sets yet.
    pub fn new(pt: u8, ssrc: u32) -> (r: Self)
        ensures
            r.wf(),
            r.header.pt == pt,
            r.header.ssrc == ssrc,
            r.header.sequence == 0,
            r.header.timestamp == 0,
            r.mtu == DEFAULT_MTU,
            r.sps is None,
            r.pps is None,
    {
        H264Packetizer { header: RtpHeader::new(pt, ssrc), mtu: DEFAULT_MTU, sps: None, pps: None }
    }

    /// Packetizer with a randomly drawn SSRC.
    pub fn with_random_ssrc(pt: u8) -> (r: Self)
        ensures
            r.wf(),
            r.header.pt == pt,
            r.header.sequence == 0,
            r.header.timestamp == 0,
            r.mtu == DEFAULT_MTU,
            r.sps is None,
            r.pps is None,
    {
        H264Packetizer {
            header: RtpHeader::with_random_ssrc(pt),
            mtu: DEFAULT_MTU,
            sps: None,
            pps: None,
        }
    }

    /// The NAL units of an Annex-B byte stream, start codes removed, empty
    /// ones skipped; 3- and 4-byte start codes may be mixed.
    pub fn extract_nal_units(data: &[u8]) -> (r: Vec<Vec<u8>>)
        ensures
            byte_views(r@) == extract_nals(data@),
    {
        let ghost d = data@;
        let entries = scan_start_codes(data);
        let ghost es = entry_views(entries@);
        proof {
            lemma_start_entries_bounds(d, 0);
        }
        let mut nal_units: Vec<Vec<u8>> = Vec::new();
        let n = entries.len();
        let mut idx: usize = 0;
        while idx < n
            invariant
                d == data@,
                n == entries@.len(),
                es == entry_views(entries@),
                es == start_entries(d, 0),
                idx <= n,
                forall|k: int|
                    0 <= k < es.len() ==> {
                        &&& (#[trigger] es[k].1 == 3 || es[k].1 == 4)
                        &&& 0 <= es[k].0 - es[k].1
                        &&& es[k].0 <= d.len()
                    },
                forall|k: int| 0 <= k < es.len() - 1 ==> #[trigger] es[k].0 <= es[k + 1].0 - es[k + 1].1,
                byte_views(nal_units@) + nals_from(d, es, idx as int) == nals_from(d, es, 0),
            decreases n - idx,
        {
            let ghost before = byte_views(nal_units@);
            let (start, _) = entries[idx];
            let end = if idx + 1 < n {
                let (next_start, next_len) = entries[idx + 1];
                assert(es[idx + 1] == (next_start as int, next_len as int));
                next_start - next_len
            } else {
                data.len()
            };
            assert(es[idx as int].0 == start as int);
            assert(end as int == nal_end(d, es, idx as int));
            if start < end {
                let nal = copy_range(data, start, end);
                nal_units.push(nal);
                assert(byte_views(nal_units@) =~= before.push(nal@));
                assert(nals_from(d, es, idx as int) == seq![d.subrange(start as int, end as int)] + nals_from(d, es, idx + 1));
            } else {
                assert(nals_from(d, es, idx as int) == nals_from(d, es, idx + 1));
            }
            idx = idx + 1;
            assert(byte_views(nal_units@) + nals_from(d, es, idx as int) =~= nals_from(d, es, 0));
        }
        assert(byte_views(nal_units@) =~= byte_views(nal_units@) + nals_from(d, es, idx as int));
        nal_units
    }

    /// Packetizes one frame given as an Annex-B byte stream. Each packet is
    /// a fixed header followed by one payload of `frame_payloads`; sequence
    /// numbers run on from the current one; the marker is set on the last
    /// packet of the frame. SPS and PPS not yet held are taken from the
    /// frame; the timestamp then moves on by `timestamp_increment`.
    pub fn packetize(&mut self, encoded_data: &[u8], timestamp_increment: u32) -> (r: Vec<Vec<u8>>)
        requires
            old(self).wf(),
        ensures
            frame_packetized(*old(self), *final(self), encoded_data@, timestamp_increment, r@),
    {
        let ghost h0 = self.header;
        let ghost mtu = self.mtu as int;
        let nal_units = Self::extract_nal_units(encoded_data);
        let ghost nals = extract_nals(encoded_data@);
        proof {
            lemma_extract_nals_nonempty(encoded_data@);
        }
        let n = nal_units.len();
        let mut i: usize = 0;
        while i < n
            invariant
                n == nal_units@.len(),
                byte_views(nal_units@) == nals,
                i <= n,
                self.header == h0,
                self.mtu == mtu,
                opt_bytes(self.sps) == captured(opt_bytes(old(self).sps), nals.take(i as int), 7),
                opt_bytes(self.pps) == captured(opt_bytes(old(self).pps), nals.take(i as int), 8),
            decreases n - i,
        {
            let nal = &nal_units[i];
            assert(nal@ == nals[i as int]);
            assert(nals.take(i + 1).drop_last() =~= nals.take(i as int));
            assert(nals.take(i + 1).last() == nals[i as int]);
            if nal.len() > 0 {
                let t = nal[0] & 0x1f;
                if t == 7 && self.sps.is_none() {
                    self.sps = Some(copy_vec(nal));
                } else if t == 8 && self.pps.is_none() {
                    self.pps = Some(copy_vec(nal));
                }
            }
            i = i + 1;
        }
        assert(nals.take(n as int) =~= nals);
        let mut packets: Vec<Vec<u8>> = Vec::new();
        let ghost total = frame_payloads(nals, mtu).len();
        let mut i: usize = 0;
        assert(nals.take(0).map_values(|n: Seq<u8>| nal_payloads(n, mtu)) =~= Seq::<Seq<Seq<u8>>>::empty());
        assert(frame_payloads(nals.take(0), mtu) =~= Seq::<Seq<u8>>::empty());
        assert(seq_after(h0.sequence, 0) == h0.sequence) by {
            vstd::arithmetic::div_mod::lemma_small_mod(h0.sequence as nat, 0x1_0000);
        }
        while i < n
            invariant
                n == nal_units@.len(),
                n == nals.len(),
                byte_views(nal_units@) == nals,
                forall|j: int| 0 <= j < nals.len() ==> (#[trigger] nals[j]).len() > 0,
                total == frame_payloads(nals, mtu).len(),
                i <= n,
                mtu >= 3,
                self.mtu == mtu,
                self.header.pt == h0.pt,
                self.header.ssrc == h0.ssrc,
                self.header.timestamp == h0.timestamp,
                opt_bytes(self.sps) == captured(opt_bytes(old(self).sps), nals, 7),
                opt_bytes(self.pps) == captured(opt_bytes(old(self).pps), nals, 8),
                packets@.len() == frame_payloads(nals.take(i as int), mtu).len(),
                self.header.sequence == seq_after(h0.sequence, packets@.len() as int),
                forall|j: int|
                    0 <= j < packets@.len() ==> (#[trigger] packets@[j])@ == header_bytes(
                        h0.pt,
                        j == total - 1,
                        seq_after(h0.sequence, j),
                        h0.timestamp,
                        h0.ssrc,
                    ) + frame_payloads(nals.take(i as int), mtu)[j],
            decreases n - i,
        {
            let ghost before = packets@;
            let ghost pb = frame_payloads(nals.take(i as int), mtu);
            let ghost s1 = self.header.sequence;
            let is_last = i == n - 1;
            assert(nal_units@[i as int]@ == nals[i as int]);
            let mut group = self.packetize_nal(nal_units[i].as_slice(), is_last);
            let ghost g = group@;
            let ghost np = nal_payloads(nals[i as int], mtu);
            proof {
                lemma_frame_payloads_step(nals, mtu, i as int);
                if !is_last {
                    lemma_frame_payloads_prefix_shorter(nals, mtu, i as int);
                } else {
                    assert(nals.take(i + 1) =~= nals);
                }
                lemma_seq_after_add(h0.sequence, pb.len() as int, np.len() as int);
            }
            packets.append(&mut group);
            proof {
                let pa = frame_payloads(nals.take(i + 1), mtu);
                assert(pa == pb + np);
                assert forall|j: int| 0 <= j < packets@.len() implies (#[trigger] packets@[j])@ == header_bytes(
                        h0.pt,
                        j == total - 1,
                        seq_after(h0.sequence, j),
                        h0.timestamp,
                        h0.ssrc,
                    ) + pa[j] by {
                    if j >= before.len() {
                        let k = j - before.len();
                        assert(packets@[j] == g[k]);
                        lemma_seq_after_add(h0.sequence, pb.len() as int, k);
                        assert(pa[j] == np[k]);
                    } else {
                        assert(packets@[j] == before[j]);
                        assert(pa[j] == pb[j]);
                    }
                }
            }
            i = i + 1;
        }
        assert(nals.take(n as int) =~= nals);
        self.header.advance_timestamp(timestamp_increment);
        packets
    }

    /// `profile-level-id` from the captured SPS: lowercase hex of its bytes
    /// 1 to 3; an error when no SPS is held or it is shorter than 4 bytes.
    pub fn get_profile_level_id(&self) -> (r: Result<String, String>)
        ensures
            match profile_level_id_of(opt_bytes(self.sps)) {
                Some(x) => r matches Ok(s) && s@ == x,
                None => r is Err,
            },
    {
        match &self.sps {
            None => Err(String::from_str("SPS not set")),
            Some(sps) => {
                if sps.len() < 4 {
                    return Err(String::from_str("SPS too short for profile-level-id"));
                }
                let mut r = hex_padded(sps[1] as u64, 2, false);
                let b = hex_padded(sps[2] as u64, 2, false);
                let c = hex_padded(sps[3] as u64, 2, false);
                append_str(&mut r, b.as_str());
                append_str(&mut r, c.as_str());
                Ok(r)
            },
        }
    }

    /// `sprop-parameter-sets` from the captured SPS and PPS: each in base64,
    /// joined by a comma; an error unless both are held.
    pub fn get_sprop_parameter_sets(&self) -> (r: Result<String, String>)
        ensures
            match sprop_of(opt_bytes(self.sps), opt_bytes(self.pps)) {
                Some(x) => r matches Ok(s) && s@ == x,
                None => r is Err,
            },
    {
        match (&self.sps, &self.pps) {
            (Some(sps), Some(pps)) => {
                let mut r = encode_base64(sps.as_slice());
                append_str(&mut r, ",");
                let p = encode_base64(pps.as_slice());
                append_str(&mut r, p.as_str());
                Ok(r)
            },
            (None, _) => Err(String::from_str("SPS not set")),
            _ => Err(String::from_str("PPS not set")),
        }
    }

    /// The codec name of the `a=rtpmap` line.
    pub fn codec_name(&self) -> (r: &'static str)
        ensures
            r@ == "H264"@,
    {
        "H264"
    }

    /// RTP clock rate of H.264 video, 90 kHz.
    pub fn clock_rate(&self) -> (r: u32)
        ensures
            r == H264_CLOCK_RATE,
    {
        H264_CLOCK_RATE
    }

    /// The RTP payload type.
    pub fn payload_type(&self) -> (r: u8)
        ensures
            r == self.header.pt,
    {
        self.header.pt
    }

    /// The SDP media attributes, in order: `a=rtpmap`, `a=fmtp` (with
    /// `profile-level-id` and `sprop-parameter-sets` once known), and
    /// `a=control:track1`.
    pub fn sdp_attributes(&self) -> (r: Vec<String>)
        ensures
            string_views(r@) == sdp_attributes_of(*self),
            string_views(r@) == seq![
                rtpmap_line(self.header.pt),
                fmtp_line(
                    self.header.pt,
                    profile_level_id_of(opt_bytes(self.sps)),
                    sprop_of(opt_bytes(self.sps), opt_bytes(self.pps)),
                ),
                "a=control:track1"@,
            ],
    {
        let pl = self.get_profile_level_id();
        let sp = self.get_sprop_parameter_sets();
        let fmtp = fmtp_attribute(
            self.header.pt,
            match &pl { Ok(x) => Some(x.as_str()), Err(_) => None },
            match &sp { Ok(x) => Some(x.as_str()), Err(_) => None },
        );
        let mut rtpmap = String::new();
        append_str(&mut rtpmap, "a=rtpmap:");
        let d = decimal(self.payload_type() as u64);
        append_str(&mut rtpmap, d.as_str());
        append_str(&mut rtpmap, " ");
        append_str(&mut rtpmap, self.codec_name());
        append_str(&mut rtpmap, "/");
        let c = decimal(self.clock_rate() as u64);
        append_str(&mut rtpmap, c.as_str());
        let mut r: Vec<String> = Vec::new();
        r.push(rtpmap);
        r.push(fmtp);
        r.push(String::from_str("a=control:track1"));
        assert(string_views(r@) =~= seq![
            rtpmap_line(self.header.pt),
            fmtp_line(
                self.header.pt,
                profile_level_id_of(opt_bytes(self.sps)),
                sprop_of(opt_bytes(self.sps), opt_bytes(self.pps)),
            ),
            "a=control:track1"@,
        ]);
        r
    }

    /// Sequence number of the next packet.
    pub fn next_sequence(&self) -> (r: u16)
        ensures
            r == self.header.sequence,
    {
        self.header.sequence()
    }

    /// Low 32 bits of the current timestamp.
    pub fn next_rtp_timestamp(&self) -> (r: u32)
        ensures
            r as int == self.header.timestamp as int % 0x1_0000_0000,
    {
        (self.header.timestamp() % 0x1_0000_0000) as u32
    }

    /// RTP packets for one NAL unit. Each is a fixed header followed by the
    /// payload of `nal_payloads`; sequence numbers run on from the current
    /// one; the marker is set on the last packet where `is_last_nal` holds.
    pub fn packetize_nal(&mut self, nal_unit: &[u8], is_last_nal: bool) -> (r: Vec<Vec<u8>>)
        requires
            old(self).wf(),
        ensures
            ({
                let p = nal_payloads(nal_unit@, old(self).mtu as int);
                let h = old(self).header;
                &&& r@.len() == p.len()
                &&& forall|k: int|
                    0 <= k < p.len() ==> (#[trigger] r@[k])@ == header_bytes(
                        h.pt,
                        is_last_nal && k == p.len() - 1,
                        seq_after(h.sequence, k),
                        h.timestamp,
                        h.ssrc,
                    ) + p[k]
                &&& final(self).header.sequence == seq_after(h.sequence, p.len() as int)
            }),
            final(self).header.pt == old(self).header.pt,
            final(self).header.ssrc == old(self).header.ssrc,
            final(self).header.timestamp == old(self).header.timestamp,
            final(self).mtu == old(self).mtu,
            final(self).sps == old(self).sps,
            final(self).pps == old(self).pps,
    {
        let ghost h0 = self.header;
        let ghost mtu = self.mtu as int;
        let mut packets: Vec<Vec<u8>> = Vec::new();
        let len = nal_unit.len();
        if len == 0 {
            assert(seq_after(h0.sequence, 0) == h0.sequence) by {
                vstd::arithmetic::div_mod::lemma_small_mod(h0.sequence as nat, 0x1_0000);
            }
            return packets;
        }
        if len <= self.mtu {
            let hdr = self.header.write(is_last_nal);
            let mut packet = header_vec(hdr);
            append_range(&mut packet, nal_unit, 0, len);
            packets.push(packet);
            assert(nal_unit@.subrange(0, len as int) =~= nal_unit@);
            assert(seq_after(h0.sequence, 0) == h0.sequence) by {
                vstd::arithmetic::div_mod::lemma_small_mod(h0.sequence as nat, 0x1_0000);
            }
        } else {
            let nal_header = nal_unit[0];
            let nal_type = nal_header & 0x1f;
            let fu_ind = (nal_header & 0x60) | 28;
            let max_fragment = self.mtu - 2;
            let ghost pl = nal_unit@.subrange(1, len as int);
            let ghost frags = fragments(pl, max_fragment as int);
            let ghost fp = fu_payloads(nal_unit@, mtu);
            proof {
                lemma_fragments(pl, max_fragment as int);
                assert(nal_unit@.subrange(1, len as int) =~= pl);
            }
            let mut offset: usize = 1;
            let mut first = true;
            while offset < len
                invariant
                    len == nal_unit@.len(),
                    len > mtu,
                    mtu >= 3,
                    max_fragment == mtu - 2,
                    nal_header == nal_unit@[0],
                    nal_type == nal_header & 0x1f,
                    fu_ind == (nal_header & 0x60) | 28,
                    pl == nal_unit@.subrange(1, len as int),
                    frags == fragments(pl, max_fragment as int),
                    fp == fu_payloads(nal_unit@, mtu),
                    1 <= offset <= len,
                    offset < len ==> packets@.len() < frags.len(),
                    offset == len ==> packets@.len() == frags.len(),
                    fragments(nal_unit@.subrange(offset as int, len as int), max_fragment as int)
                        == frags.subrange(packets@.len() as int, frags.len() as int),
                    first == (packets@.len() == 0),
                    self.header.sequence == seq_after(h0.sequence, packets@.len() as int),
                    self.header.pt == h0.pt,
                    self.header.ssrc == h0.ssrc,
                    self.header.timestamp == h0.timestamp,
                    self.mtu == mtu,
                    self.sps == old(self).sps,
                    self.pps == old(self).pps,
                    forall|k: int|
                        0 <= k < packets@.len() ==> (#[trigger] packets@[k])@ == header_bytes(
                            h0.pt,
                            is_last_nal && k == frags.len() - 1,
                            seq_after(h0.sequence, k),
                            h0.timestamp,
                            h0.ssrc,
                        ) + fp[k],
                decreases len - offset,
            {
                let ghost k = packets@.len() as int;
                let ghost rest = nal_unit@.subrange(offset as int, len as int);
                let remaining = len - offset;
                let last_fragment = remaining <= max_fragment;
                let chunk_size = if last_fragment { remaining } else { max_fragment };
                proof {
                    lemma_fragments(rest, max_fragment as int);
                    if !last_fragment {
                        let rest2 = rest.subrange(max_fragment as int, rest.len() as int);
                        lemma_fragments(rest2, max_fragment as int);
                        assert(fragments(rest, max_fragment as int) == seq![rest.subrange(0, max_fragment as int)] + fragments(rest2, max_fragment as int));
                        assert(rest2 =~= nal_unit@.subrange(offset + max_fragment, len as int));
                    }
                    assert(frags.subrange(k, frags.len() as int)[0] == frags[k]);
                    assert(frags[k] =~= nal_unit@.subrange(offset as int, offset + chunk_size));
                    assert(last_fragment == (k == frags.len() - 1));
                }
                let start_bit: u8 = if first { 0x80 } else { 0x00 };
                let end_bit: u8 = if last_fragment { 0x40 } else { 0x00 };
                let fu_hdr = start_bit | end_bit | nal_type;
                let marker = is_last_nal && last_fragment;
                let ghost seq_before = self.header.sequence;
                let hdr = self.header.write(marker);
                let mut packet = header_vec(hdr);
                packet.push(fu_ind);
                packet.push(fu_hdr);
                append_range(&mut packet, nal_unit, offset, offset + chunk_size);
                proof {
                    assert(fu_hdr == fu_header(nal_header, first, last_fragment));
                    assert(fp[k] == seq![fu_indicator(nal_header), fu_header(nal_header, k == 0, k == frags.len() - 1)] + frags[k]);
                    assert(packet@ =~= header_bytes(h0.pt, marker, seq_before, h0.timestamp, h0.ssrc) + fp[k]);
                    lemma_add_mod_noop_right(1, h0.sequence as int + k, 0x1_0000);
                }
                packets.push(packet);
                offset = offset + chunk_size;
                first = false;
                proof {
                    if offset < len {
                        let rest2 = rest.subrange(max_fragment as int, rest.len() as int);
                        assert(frags.subrange(k + 1, frags.len() as int) =~= frags.subrange(k, frags.len() as int).drop_first());
                    } else {
                        assert(k + 1 == frags.len());
                    }
                }
            }
        }
        packets
    }
}

} // verus!
