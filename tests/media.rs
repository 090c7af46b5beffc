use rtsp::{H264Packetizer, RtpHeader, DEFAULT_MTU};

fn make_packetizer() -> H264Packetizer {
    H264Packetizer::new(96, 0xAABBCCDD)
}

fn make_header() -> RtpHeader {
    RtpHeader::new(96, 0xAABBCCDD)
}

#[test]
fn extract_single_nal_4byte_sc() {
    let data = [0, 0, 0, 1, 0x65, 0xAA, 0xBB];
    let nals = H264Packetizer::extract_nal_units(&data);
    assert_eq!(nals.len(), 1);
    assert_eq!(nals[0], vec![0x65, 0xAA, 0xBB]);
}

#[test]
fn extract_single_nal_3byte_sc() {
    let data = [0, 0, 1, 0x67, 0x42, 0x00];
    let nals = H264Packetizer::extract_nal_units(&data);
    assert_eq!(nals.len(), 1);
    assert_eq!(nals[0], vec![0x67, 0x42, 0x00]);
}

#[test]
fn extract_two_nals_4byte_sc() {
    let mut data = vec![0, 0, 0, 1, 0x67, 0x42];
    data.extend_from_slice(&[0, 0, 0, 1, 0x68, 0xCE]);
    let nals = H264Packetizer::extract_nal_units(&data);
    assert_eq!(nals.len(), 2);
    assert_eq!(nals[0], vec![0x67, 0x42]);
    assert_eq!(nals[1], vec![0x68, 0xCE]);
}

#[test]
fn extract_mixed_start_codes() {
    let mut data = vec![0, 0, 0, 1, 0x67, 0x42];
    data.extend_from_slice(&[0, 0, 1, 0x68, 0xCE]);
    let nals = H264Packetizer::extract_nal_units(&data);
    assert_eq!(nals.len(), 2);
    assert_eq!(nals[0], vec![0x67, 0x42]);
    assert_eq!(nals[1], vec![0x68, 0xCE]);
}

#[test]
fn extract_empty_data() {
    assert!(H264Packetizer::extract_nal_units(&[]).is_empty());
}

#[test]
fn extract_no_start_code() {
    assert!(H264Packetizer::extract_nal_units(&[0xFF, 0xFE]).is_empty());
}

#[test]
fn extract_skips_empty_nal_between_start_codes() {
    let data = [0, 0, 0, 1, 0, 0, 1, 0x41, 0x9A];
    let nals = H264Packetizer::extract_nal_units(&data);
    assert_eq!(nals, vec![vec![0x41, 0x9A]]);
}

#[test]
fn small_nal_single_packet() {
    let mut p = make_packetizer();
    let nal = vec![0x65, 0xAA, 0xBB, 0xCC];
    let packets = p.packetize_nal(&nal, true);
    assert_eq!(packets.len(), 1);
    assert_eq!(packets[0].len(), 12 + 4);
    assert_eq!(packets[0][1] & 0x80, 0x80);
}

#[test]
fn large_nal_fragmented() {
    let mut p = H264Packetizer::new(96, 0x11223344);
    let mut nal = vec![0x65];
    nal.extend(vec![0xAA; DEFAULT_MTU + 500]);
    let packets = p.packetize_nal(&nal, true);
    assert!(packets.len() > 1);

    assert_eq!(packets[0][12] & 0x1f, 28);
    assert_eq!(packets[0][13] & 0x80, 0x80);

    let last = packets.last().unwrap();
    assert_eq!(last[13] & 0x40, 0x40);
    assert_eq!(last[1] & 0x80, 0x80);
}

#[test]
fn empty_nal_no_packets() {
    let mut p = make_packetizer();
    assert!(p.packetize_nal(&[], true).is_empty());
}

#[test]
fn packetize_trait_advances_timestamp() {
    let mut p = make_packetizer();
    let frame = [0, 0, 0, 1, 0x65, 0xAA, 0xBB];
    p.packetize(&frame, 3000);
    p.packetize(&frame, 3000);
    let packets = p.packetize(&frame, 3000);
    assert!(!packets.is_empty());
}

#[test]
fn packetize_timestamp_and_sequence_values() {
    let mut p = make_packetizer();
    let frame = [0, 0, 0, 1, 0x65, 0xAA, 0xBB];
    p.packetize(&frame, 3000);
    p.packetize(&frame, 3000);
    assert_eq!(p.next_rtp_timestamp(), 6000);
    assert_eq!(p.next_sequence(), 2);
    let packets = p.packetize(&frame, 3000);
    assert_eq!(&packets[0][4..8], &[0, 0, 0x17, 0x70]);
    assert_eq!(u16::from_be_bytes([packets[0][2], packets[0][3]]), 2);
}

#[test]
fn packetize_empty_frame_still_advances_timestamp() {
    let mut p = make_packetizer();
    assert!(p.packetize(&[], 3000).is_empty());
    assert_eq!(p.next_rtp_timestamp(), 3000);
    assert_eq!(p.next_sequence(), 0);
}

#[test]
fn sdp_attributes_include_packetization_mode() {
    let p = make_packetizer();
    let attrs = p.sdp_attributes();
    assert!(attrs.len() >= 1, "must include at least fmtp");
    assert!(
        attrs.iter().any(|a| a.contains("packetization-mode=1")),
        "must include packetization-mode=1"
    );
}

#[test]
fn sdp_attributes_exact_without_parameter_sets() {
    let p = make_packetizer();
    assert_eq!(
        p.sdp_attributes(),
        vec!["a=rtpmap:96 H264/90000", "a=fmtp:96 packetization-mode=1", "a=control:track1"]
    );
}

#[test]
fn codec_metadata() {
    let p = make_packetizer();
    assert_eq!(p.codec_name(), "H264");
    assert_eq!(p.clock_rate(), 90000);
    assert_eq!(p.payload_type(), 96);
}

#[test]
fn auto_capture_sps_pps_from_first_frame() {
    let mut p = H264Packetizer::new(96, 0xAABBCCDD);
    let sps_nal = vec![0x67, 0x42, 0x00, 0x1e];
    let pps_nal = vec![0x68, 0xce, 0x38, 0x80];
    let frame = [
        &[0u8, 0, 0, 1][..],
        sps_nal.as_slice(),
        &[0, 0, 0, 1][..],
        pps_nal.as_slice(),
        &[0, 0, 0, 1, 0x65, 0x88, 0x00][..],
    ]
    .concat();
    p.packetize(&frame, 3000);
    let attrs = p.sdp_attributes();
    let fmtp = attrs
        .iter()
        .find(|a| a.starts_with("a=fmtp:"))
        .expect("fmtp line");
    assert!(
        fmtp.contains("profile-level-id="),
        "SPS auto-captured, profile-level-id in SDP"
    );
    assert!(
        fmtp.contains("sprop-parameter-sets="),
        "SPS/PPS auto-captured, sprop-parameter-sets in SDP"
    );
}

#[test]
fn captured_parameter_sets_exact_fmtp() {
    let mut p = H264Packetizer::new(96, 1);
    let frame = [0u8, 0, 0, 1, 0x67, 0x42, 0x00, 0x1e, 0, 0, 0, 1, 0x68, 0xce, 0x38, 0x80];
    p.packetize(&frame, 3000);
    assert_eq!(p.get_profile_level_id().unwrap(), "42001e");
    assert_eq!(p.get_sprop_parameter_sets().unwrap(), "Z0IAHg==,aM44gA==");
    assert_eq!(
        p.sdp_attributes()[1],
        "a=fmtp:96 packetization-mode=1;profile-level-id=42001e;sprop-parameter-sets=Z0IAHg==,aM44gA=="
    );
    let later = [0u8, 0, 0, 1, 0x67, 0x4d, 0x00, 0x28];
    p.packetize(&later, 3000);
    assert_eq!(p.get_profile_level_id().unwrap(), "42001e");
}

#[test]
fn profile_level_id_needs_four_byte_sps() {
    let mut p = make_packetizer();
    assert!(p.get_profile_level_id().is_err());
    p.packetize(&[0, 0, 1, 0x67, 0x42], 3000);
    assert!(p.get_profile_level_id().is_err());
    assert!(p.get_sprop_parameter_sets().is_err());
}

#[test]
fn fragment_sizes_and_payload_union() {
    let mut p = H264Packetizer::new(96, 7);
    let mut nal = vec![0x65];
    nal.extend((0..(DEFAULT_MTU + 500)).map(|i| (i % 251) as u8));
    let packets = p.packetize_nal(&nal, false);
    assert_eq!(packets.len(), 2);
    let mut joined = Vec::new();
    for (k, pk) in packets.iter().enumerate() {
        assert!(pk.len() <= 12 + DEFAULT_MTU);
        assert_eq!(pk[12], 0x60 | 28);
        assert_eq!(pk[13] & 0x1f, 5);
        assert_eq!(pk[13] & 0x80 != 0, k == 0);
        assert_eq!(pk[13] & 0x40 != 0, k == packets.len() - 1);
        assert_eq!(pk[1] & 0x80, 0);
        joined.extend_from_slice(&pk[14..]);
    }
    assert_eq!(packets[0].len(), 12 + DEFAULT_MTU);
    assert_eq!(joined, nal[1..].to_vec());
}

#[test]
fn frame_marker_only_on_last_packet() {
    let mut p = make_packetizer();
    let frame = [0u8, 0, 0, 1, 0x67, 1, 2, 0, 0, 1, 0x65, 3, 4];
    let packets = p.packetize(&frame, 3000);
    assert_eq!(packets.len(), 2);
    assert_eq!(packets[0][1], 96);
    assert_eq!(packets[1][1], 0x80 | 96);
    assert_eq!(packets[0].len(), 12 + 3);
    assert_eq!(&packets[1][12..], &[0x65, 3, 4]);
}

#[test]
fn version_is_2() {
    let mut h = make_header();
    let buf = h.write(false);
    assert_eq!(buf[0] >> 6, 2);
}

#[test]
fn marker_bit() {
    let mut h = make_header();
    let no_marker = h.write(false);
    assert_eq!(no_marker[1] & 0x80, 0);

    let with_marker = h.write(true);
    assert_eq!(with_marker[1] & 0x80, 0x80);
}

#[test]
fn payload_type() {
    let mut h = make_header();
    let buf = h.write(false);
    assert_eq!(buf[1] & 0x7f, 96);
}

#[test]
fn sequence_increments() {
    let mut h = make_header();
    let b1 = h.write(false);
    let seq1 = u16::from_be_bytes([b1[2], b1[3]]);
    let b2 = h.write(false);
    let seq2 = u16::from_be_bytes([b2[2], b2[3]]);
    assert_eq!(seq2, seq1 + 1);
}

#[test]
fn sequence_wraps() {
    let mut h = make_header();
    h.sequence = u16::MAX;
    let buf = h.write(false);
    let seq = u16::from_be_bytes([buf[2], buf[3]]);
    assert_eq!(seq, u16::MAX);
    assert_eq!(h.sequence(), 0);
}

#[test]
fn ssrc_written() {
    let mut h = make_header();
    let buf = h.write(false);
    let ssrc = u32::from_be_bytes([buf[8], buf[9], buf[10], buf[11]]);
    assert_eq!(ssrc, 0xAABBCCDD);
}

#[test]
fn timestamp_advance() {
    let mut h = make_header();
    h.advance_timestamp(3000);
    assert_eq!(h.timestamp(), 3000);
    h.advance_timestamp(3000);
    assert_eq!(h.timestamp(), 6000);
}

#[test]
fn header_exact_bytes() {
    let mut h = RtpHeader::new(96, 0x01020304);
    h.sequence = 0x1234;
    h.advance_timestamp(0x0A0B0C0D);
    let buf = h.write(true);
    assert_eq!(buf, [0x80, 0xE0, 0x12, 0x34, 0x0A, 0x0B, 0x0C, 0x0D, 1, 2, 3, 4]);
}

#[test]
fn random_ssrc_differs() {
    let h1 = RtpHeader::with_random_ssrc(96);
    let h2 = RtpHeader::with_random_ssrc(96);
    assert_ne!(h1.ssrc, h2.ssrc);
}

#[test]
fn fu_a_fragmentation_in_frame() {
    let mut p = make_packetizer();
    let mut frame = vec![0, 0, 0, 1, 0x65];
    frame.extend(vec![0x11; DEFAULT_MTU + 499]);
    let packets = p.packetize(&frame, 3000);
    assert!(packets.len() >= 2);
    assert_eq!(packets[0][12] & 0x1f, 28);
    assert_eq!(packets[0][13] & 0x80, 0x80);
    let last = packets.last().unwrap();
    assert_eq!(last[13] & 0x40, 0x40);
    assert_eq!(last[1] & 0x80, 0x80);
    for w in packets.windows(2) {
        let a = u16::from_be_bytes([w[0][2], w[0][3]]);
        let b = u16::from_be_bytes([w[1][2], w[1][3]]);
        assert_eq!(b, a.wrapping_add(1));
    }
}

fn through_trait<P: rtsp::Packetizer>(p: &mut P) -> (usize, u16, u32, u8) {
    let n = p.packetize(&[0, 0, 1, 0x41, 0x01], 90).len();
    (n, p.next_sequence(), p.next_rtp_timestamp(), p.payload_type())
}

#[test]
fn packetizer_trait_reports_state() {
    let mut p = H264Packetizer::new(100, 5);
    assert_eq!(through_trait(&mut p), (1, 1, 90, 100));
    assert_eq!(rtsp::Packetizer::codec_name(&p), "H264");
    assert_eq!(rtsp::Packetizer::clock_rate(&p), 90000);
    assert_eq!(rtsp::Packetizer::sdp_attributes(&p).len(), 3);
}
