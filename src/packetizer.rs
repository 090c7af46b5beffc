//! The capability set shared by codec packetizers.

use vstd::prelude::*;

use crate::h264::{frame_packetized, packet_seq, sdp_attributes_of, string_views, H264Packetizer, H264_CLOCK_RATE};
use crate::rtp::seq_after;

verus! {

/// A codec's RTP packetizer: packetization, SDP attributes, and the RTP
/// state that a PLAY response reports.
pub trait Packetizer: Sized {
    /// The packetizer can take a frame.
    spec fn ready(&self) -> bool;

    /// The payload type its packets carry.
    spec fn pt_spec(&self) -> u8;

    /// The sequence number of the next packet.
    spec fn seq_spec(&self) -> u16;

    /// The low 32 bits of the current timestamp.
    spec fn ts_spec(&self) -> u32;

    /// The SDP media attribute lines, in order.
    spec fn attrs_spec(&self) -> Seq<Seq<char>>;

    /// The codec name of the `a=rtpmap` line.
    spec fn codec_spec(&self) -> Seq<char>;

    /// The RTP clock rate in Hz.
    spec fn clock_spec(&self) -> u32;

    /// What packetizing the frame `data`, then moving the timestamp on by
    /// `inc`, gives: the packets `r` and the packetizer `after`.
    spec fn frame_spec(&self, data: Seq<u8>, inc: u32, after: Self, r: Seq<Vec<u8>>) -> bool;

    /// The RTP packets of one encoded frame; the timestamp then moves on by
    /// `timestamp_increment`.
    fn packetize(&mut self, encoded_data: &[u8], timestamp_increment: u32) -> (r: Vec<Vec<u8>>)
        requires
            old(self).ready(),
        ensures
            old(self).frame_spec(encoded_data@, timestamp_increment, *final(self), r@),
            final(self).ready(),
            final(self).pt_spec() == old(self).pt_spec(),
            final(self).seq_spec() == seq_after(old(self).seq_spec(), r@.len() as int),
            forall|j: int|
                0 <= j < r@.len() ==> (#[trigger] r@[j])@.len() >= 12 && r@[j]@[0] == 0x80 && r@[j]@[1] % 0x80
                    == old(self).pt_spec() % 0x80 && packet_seq(r@[j]@) == seq_after(old(self).seq_spec(), j) as int,
    ;

    /// Codec name for the `a=rtpmap` line.
    fn codec_name(&self) -> (r: &'static str)
        ensures
            r@ == self.codec_spec(),
    ;

    /// RTP clock rate in Hz.
    fn clock_rate(&self) -> (r: u32)
        ensures
            r == self.clock_spec(),
    ;

    /// RTP payload type.
    fn payload_type(&self) -> (r: u8)
        ensures
            r == self.pt_spec(),
    ;

    /// SDP media attribute lines, each starting `a=`.
    fn sdp_attributes(&self) -> (r: Vec<String>)
        ensures
            string_views(r@) == self.attrs_spec(),
    ;

    /// Sequence number of the next packet.
    fn next_sequence(&self) -> (r: u16)
        ensures
            r == self.seq_spec(),
    ;

    /// Low 32 bits of the current timestamp.
    fn next_rtp_timestamp(&self) -> (r: u32)
        ensures
            r == self.ts_spec(),
    ;
}

/// What packetizing one frame guarantees of any codec: the packetizer
/// stays ready and keeps its payload type; every packet starts with
/// version 2 and that payload type; packet `j` carries the sequence number
/// `j` after the current one, and the next frame goes on from the last.
pub open spec fn packetized<P: Packetizer>(before: P, after: P, r: Seq<Vec<u8>>) -> bool {
    &&& after.ready()
    &&& after.pt_spec() == before.pt_spec()
    &&& after.seq_spec() == seq_after(before.seq_spec(), r.len() as int)
    &&& forall|j: int|
        0 <= j < r.len() ==> (#[trigger] r[j])@.len() >= 12 && r[j]@[0] == 0x80 && r[j]@[1] % 0x80
            == before.pt_spec() % 0x80 && packet_seq(r[j]@) == seq_after(before.seq_spec(), j) as int
}

impl Packetizer for H264Packetizer {
    open spec fn ready(&self) -> bool {
        self.wf()
    }

    open spec fn pt_spec(&self) -> u8 {
        self.header.pt
    }

    open spec fn seq_spec(&self) -> u16 {
        self.header.sequence
    }

    open spec fn ts_spec(&self) -> u32 {
        (self.header.timestamp as int % 0x1_0000_0000) as u32
    }

    open spec fn attrs_spec(&self) -> Seq<Seq<char>> {
        sdp_attributes_of(*self)
    }

    open spec fn codec_spec(&self) -> Seq<char> {
        "H264"@
    }

    open spec fn clock_spec(&self) -> u32 {
        H264_CLOCK_RATE
    }

    open spec fn frame_spec(&self, data: Seq<u8>, inc: u32, after: Self, r: Seq<Vec<u8>>) -> bool {
        frame_packetized(*self, after, data, inc, r)
    }

    fn packetize(&mut self, encoded_data: &[u8], timestamp_increment: u32) -> (r: Vec<Vec<u8>>) {
        let r = H264Packetizer::packetize(self, encoded_data, timestamp_increment);
        proof {
            crate::h264::lemma_frame_headers(*old(self), *self, encoded_data@, timestamp_increment, r@);
        }
        r
    }

    fn codec_name(&self) -> (r: &'static str) {
        H264Packetizer::codec_name(self)
    }

    fn clock_rate(&self) -> (r: u32) {
        H264Packetizer::clock_rate(self)
    }

    fn payload_type(&self) -> (r: u8) {
        H264Packetizer::payload_type(self)
    }

    fn sdp_attributes(&self) -> (r: Vec<String>) {
        H264Packetizer::sdp_attributes(self)
    }

    fn next_sequence(&self) -> (r: u16) {
        H264Packetizer::next_sequence(self)
    }

    fn next_rtp_timestamp(&self) -> (r: u32) {
        H264Packetizer::next_rtp_timestamp(self)
    }
}

} // verus!
