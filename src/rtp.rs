//! The 12-byte fixed RTP header and the per-stream sequence/timestamp state.

use rand::Rng;
use vstd::prelude::*;

verus! {

/// The wire form of a fixed RTP header: version 2, no padding, no
/// extension, no CSRC, the marker bit, a 7-bit payload type, then the
/// sequence number, the low 32 bits of the timestamp and the SSRC, each
/// big-endian.
pub open spec fn header_bytes(pt: u8, marker: bool, seq: u16, ts: u64, ssrc: u32) -> Seq<u8> {
    let t = ts as int % 0x1_0000_0000;
    seq![
        0x80u8,
        ((if marker { 0x80int } else { 0int }) + pt as int % 0x80) as u8,
        (seq as int / 0x100) as u8,
        (seq as int % 0x100) as u8,
        (t / 0x100_0000) as u8,
        (t / 0x1_0000 % 0x100) as u8,
        (t / 0x100 % 0x100) as u8,
        (t % 0x100) as u8,
        (ssrc as int / 0x100_0000) as u8,
        (ssrc as int / 0x1_0000 % 0x100) as u8,
        (ssrc as int / 0x100 % 0x100) as u8,
        (ssrc as int % 0x100) as u8,
    ]
}

/// The sequence number that follows `seq`, modulo 2^16.
pub open spec fn next_seq(seq: u16) -> u16 {
    ((seq as int + 1) % 0x1_0000) as u16
}

/// The sequence number `k` packets after `seq`, modulo 2^16.
pub open spec fn seq_after(seq: u16, k: int) -> u16 {
    ((seq as int + k) % 0x1_0000) as u16
}

/// Header state of one RTP stream.
#[derive(Debug)]
pub struct RtpHeader {
    /// Payload type; only its low 7 bits reach the wire.
    pub pt: u8,
    /// Synchronization source identifier.
    pub ssrc: u32,
    /// Sequence number of the next packet.
    pub sequence: u16,
    /// Media timestamp; the low 32 bits reach the wire.
    pub timestamp: u64,
}

/// Relies on rand's thread-local generator (`rand::rng().random::<u32>()`)
/// for a uniformly drawn 32-bit value; nothing is promised of the value.
#[verifier::external_body]
fn random_u32() -> (r: u32) {
    rand::rng().random::<u32>()
}

impl RtpHeader {
    /// Header state with the given payload type and SSRC, at sequence 0 and
    /// timestamp 0.
    pub fn new(pt: u8, ssrc: u32) -> (r: Self)
        ensures
            r.pt == pt,
            r.ssrc == ssrc,
            r.sequence == 0,
            r.timestamp == 0,
    {
        RtpHeader { pt, ssrc, sequence: 0, timestamp: 0 }
    }

    /// Header state with a randomly drawn SSRC.
    pub fn with_random_ssrc(pt: u8) -> (r: Self)
        ensures
            r.pt == pt,
            r.sequence == 0,
            r.timestamp == 0,
    {
        let ssrc = random_u32();
        Self::new(pt, ssrc)
    }

    /// Sequence number that the next `write` will use.
    pub fn sequence(&self) -> (r: u16)
        ensures
            r == self.sequence,
    {
        self.sequence
    }

    /// Current timestamp.
    pub fn timestamp(&self) -> (r: u64)
        ensures
            r == self.timestamp,
    {
        self.timestamp
    }

    /// Serializes the fixed header with the given marker bit, then moves the
    /// sequence number on by one (wrapping).
    pub fn write(&mut self, marker: bool) -> (r: [u8; 12])
        ensures
            r@ == header_bytes(old(self).pt, marker, old(self).sequence, old(self).timestamp, old(self).ssrc),
            final(self).sequence == next_seq(old(self).sequence),
            final(self).pt == old(self).pt,
            final(self).ssrc == old(self).ssrc,
            final(self).timestamp == old(self).timestamp,
    {
        let seq = self.sequence;
        let t = self.timestamp % 0x1_0000_0000;
        let ssrc = self.ssrc;
        let m: u8 = if marker { 0x80 } else { 0 };
        let header: [u8; 12] = [
            0x80u8,
            m + self.pt % 0x80,
            (seq / 0x100) as u8,
            (seq % 0x100) as u8,
            (t / 0x100_0000) as u8,
            (t / 0x1_0000 % 0x100) as u8,
            (t / 0x100 % 0x100) as u8,
            (t % 0x100) as u8,
            (ssrc / 0x100_0000) as u8,
            (ssrc / 0x1_0000 % 0x100) as u8,
            (ssrc / 0x100 % 0x100) as u8,
            (ssrc % 0x100) as u8,
        ];
        self.sequence = if seq == u16::MAX { 0 } else { seq + 1 };
        assert(header@ =~= header_bytes(self.pt, marker, seq, old(self).timestamp, ssrc));
        header
    }

    /// Moves the timestamp on by `increment` (wrapping at 2^64).
    pub fn advance_timestamp(&mut self, increment: u32)
        ensures
            final(self).timestamp == (old(self).timestamp as int + increment as int) % 0x1_0000_0000_0000_0000,
            final(self).pt == old(self).pt,
            final(self).ssrc == old(self).ssrc,
            final(self).sequence == old(self).sequence,
    {
        self.timestamp = self.timestamp.wrapping_add(increment as u64);
    }
}

} // verus!
