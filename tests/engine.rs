use rtsp::{
    extract_mount_path, generate_sdp, H264Packetizer, MethodHandler, Mount, MountRegistry, RtspError,
    RtspRequest, ServerConfig, SessionManager, SessionState, DEFAULT_MOUNT_PATH,
};

#[test]
fn extract_path_full_uri() {
    assert_eq!(extract_mount_path("rtsp://localhost:8554/stream"), "/stream");
}

#[test]
fn extract_path_with_track() {
    assert_eq!(extract_mount_path("rtsp://localhost:8554/stream/track1"), "/stream");
}

#[test]
fn extract_path_no_path() {
    assert_eq!(extract_mount_path("rtsp://localhost:8554"), DEFAULT_MOUNT_PATH);
}

#[test]
fn extract_path_star() {
    assert_eq!(extract_mount_path("*"), DEFAULT_MOUNT_PATH);
}

#[test]
fn extract_path_bare_path() {
    assert_eq!(extract_mount_path("/camera1"), "/camera1");
}

#[test]
fn extract_path_with_camera_track() {
    assert_eq!(extract_mount_path("rtsp://10.0.0.1:8554/camera1/track1"), "/camera1");
}

#[test]
fn extract_path_more_cases() {
    assert_eq!(extract_mount_path("rtsp://h/stream"), "/stream");
    assert_eq!(extract_mount_path(""), "/stream");
    assert_eq!(extract_mount_path("rtsps://h/live/track2"), "/live");
    assert_eq!(extract_mount_path("/a/track1/track2"), "/a/track1");
    assert_eq!(extract_mount_path("rtsp://h:8554/"), "/");
}

#[test]
fn subscribe_unsubscribe() {
    let mut mount = Mount::new("/test", H264Packetizer::new(96, 0x1234));
    mount.subscribe("session1");
    mount.subscribe("session2");
    assert_eq!(mount.subscribed_session_ids().len(), 2);

    mount.unsubscribe("session1");
    assert_eq!(mount.subscribed_session_ids(), vec!["session2"]);
}

#[test]
fn subscribe_idempotent() {
    let mut mount = Mount::new("/test", H264Packetizer::new(96, 0x1234));
    mount.subscribe("session1");
    mount.subscribe("session1");
    assert_eq!(mount.subscribed_session_ids().len(), 1);
}

#[test]
fn unsubscribe_absent_is_noop() {
    let mut mount = Mount::new("/test", H264Packetizer::new(96, 0x1234));
    mount.subscribe("a");
    mount.unsubscribe("b");
    assert_eq!(mount.subscribed_session_ids(), vec!["a"]);
}

#[test]
fn registry_add_and_get() {
    let mut registry = MountRegistry::new();
    let p = H264Packetizer::new(96, 0x1234);
    registry.add("/stream", p);

    assert!(registry.get("/stream").is_some());
    assert!(registry.get("/other").is_none());
}

#[test]
fn registry_add_replaces() {
    let mut registry = MountRegistry::new();
    registry.add("/stream", H264Packetizer::new(96, 1));
    registry.subscribe("/stream", "s");
    registry.add("/stream", H264Packetizer::new(97, 2));
    let m = registry.get("/stream").unwrap();
    assert_eq!(m.payload_type(), 97);
    assert!(m.subscribed_session_ids().is_empty());
    assert_eq!(registry.mounts.len(), 1);
}

#[test]
fn registry_resolve_from_uri() {
    let mut registry = MountRegistry::new();
    let p = H264Packetizer::new(96, 0x1234);
    registry.add("/stream", p);

    assert!(registry.resolve_from_uri("rtsp://localhost:8554/stream").is_some());
    assert!(registry.resolve_from_uri("rtsp://localhost:8554/stream/track1").is_some());
    assert!(registry.resolve_from_uri("rtsp://localhost:8554/other").is_none());
}

#[test]
fn registry_resolve_fallback_to_default() {
    let mut registry = MountRegistry::new();
    let p = H264Packetizer::new(96, 0x1234);
    registry.add("/stream", p);
    registry.set_default("/stream");

    let mount = registry.resolve_from_uri("rtsp://localhost:8554/stream").unwrap();
    assert_eq!(mount.path(), "/stream");

    let mount = registry.resolve_from_uri("rtsp://localhost:8554/test").unwrap();
    assert_eq!(mount.path(), "/stream");

    let mount = registry.resolve_from_uri("rtsp://localhost:8554/anything").unwrap();
    assert_eq!(mount.path(), "/stream");
}

#[test]
fn registry_unsubscribe_all() {
    let mut registry = MountRegistry::new();
    let p1 = H264Packetizer::new(96, 0x1234);
    let p2 = H264Packetizer::new(96, 0x5678);
    registry.add("/stream1", p1);
    registry.add("/stream2", p2);

    registry.subscribe("/stream1", "sess1");
    registry.subscribe("/stream2", "sess1");

    registry.unsubscribe_all("sess1");

    assert!(registry.get("/stream1").unwrap().subscribed_session_ids().is_empty());
    assert!(registry.get("/stream2").unwrap().subscribed_session_ids().is_empty());
}

#[test]
fn generates_h264_sdp() {
    let mount = Mount::new("/stream", H264Packetizer::new(96, 0x12345678));
    let sdp = generate_sdp(&mount, "192.168.1.100", "1234567890", "1", "server", "Test Session");
    assert!(sdp.contains("v=0\r\n"));
    assert!(sdp.contains("o=server 1234567890 1 IN IP4 192.168.1.100\r\n"));
    assert!(sdp.contains("s=Test Session\r\n"));
    assert!(sdp.contains("c=IN IP4 192.168.1.100\r\n"), "c= must use configured IP, not 0.0.0.0");
    assert!(sdp.contains("a=tool:rtsp-rs\r\n"), "SDP must include tool attribute");
    assert!(sdp.contains("a=sendonly\r\n"), "SDP must include sendonly direction");
    assert!(sdp.contains("a=rtpmap:96 H264/90000\r\n"), "SDP must include valid rtpmap");
    assert!(sdp.contains("a=fmtp:96 packetization-mode=1\r\n"));
    assert!(sdp.contains("a=control:track1\r\n"));

    let rtpmap_idx = sdp.find("a=rtpmap").expect("SDP must include rtpmap");
    let fmtp_idx = sdp.find("a=fmtp").expect("SDP must include fmtp");
    assert!(rtpmap_idx < fmtp_idx, "a=rtpmap must precede a=fmtp per RFC 6184");

    let sendonly_idx = sdp.find("a=sendonly").expect("SDP must include sendonly");
    let m_idx = sdp.find("m=video").expect("SDP must include media section");
    assert!(sendonly_idx < m_idx, "session-level attrs must precede m= line");

    assert!(fmtp_idx > m_idx, "media attributes must follow m=video");
    assert!(sdp.ends_with("\r\n"), "SDP must end with CRLF");
}

#[test]
fn generates_h264_sdp_with_sps_pps() {
    let mut mount = Mount::new("/stream", H264Packetizer::new(96, 0x12345678));
    let sps_nal = vec![0x67u8, 0x42, 0x00, 0x1e];
    let pps_nal = vec![0x68u8, 0xce, 0x38, 0x80];
    let frame = [
        &[0u8, 0, 0, 1][..],
        sps_nal.as_slice(),
        &[0, 0, 0, 1][..],
        pps_nal.as_slice(),
        &[0, 0, 0, 1, 0x65, 0x88, 0x00][..],
    ]
    .concat();
    mount.packetize(&frame, 3000);
    let sdp = generate_sdp(&mount, "192.168.1.100", "1234567890", "1", "server", "Test Session");
    assert!(
        sdp.contains("profile-level-id="),
        "full SDP must include profile-level-id after auto-capture"
    );
    assert!(
        sdp.contains("sprop-parameter-sets="),
        "full SDP must include sprop-parameter-sets after auto-capture"
    );
    assert!(sdp.contains("a=fmtp:96 packetization-mode=1;"));
}

#[test]
fn generates_exact_sdp() {
    let mount = Mount::new("/s", H264Packetizer::new(97, 1));
    let sdp = generate_sdp(&mount, "h", "1", "2", "u", "n");
    assert_eq!(
        sdp,
        "v=0\r\no=u 1 2 IN IP4 h\r\ns=n\r\nc=IN IP4 h\r\nt=0 0\r\na=tool:rtsp-rs\r\na=sendonly\r\n\
         m=video 0 RTP/AVP 97\r\na=rtpmap:97 H264/90000\r\na=fmtp:97 packetization-mode=1\r\na=control:track1\r\n"
    );
}

#[test]
fn port_allocator_sequence_and_wrap() {
    let mut sm = SessionManager::new();
    assert_eq!(sm.allocate_server_ports().unwrap(), (5000, 5001));
    assert_eq!(sm.allocate_server_ports().unwrap(), (5002, 5003));
    sm.next_server_port = 65534;
    assert_eq!(sm.allocate_server_ports().unwrap(), (65534, 65535));
    assert_eq!(sm.allocate_server_ports().unwrap(), (5000, 5001));
    assert_eq!(sm.allocate_server_ports().unwrap(), (5002, 5003));
}

#[test]
fn session_ids_distinct_and_hex() {
    let mut sm = SessionManager::new();
    let a = sm.create_session("rtsp://h/stream").unwrap();
    let b = sm.create_session("rtsp://h/stream").unwrap();
    assert_eq!(a, "0000000000000000");
    assert_eq!(b, "0000000000000001");
    assert_ne!(a, b);
    let s = sm.get_session(&a).unwrap();
    assert_eq!(s.get_state(), SessionState::Ready);
    assert_eq!(s.session_header_value(), "0000000000000000;timeout=60");
    sm.next_id = u64::MAX;
    assert!(sm.create_session("x").is_none());
}

#[test]
fn session_remove_and_playing() {
    let mut sm = SessionManager::new();
    let a = sm.create_session("u").unwrap();
    let b = sm.create_session("u").unwrap();
    assert!(sm.set_session_state(&b, SessionState::Playing));
    let playing = sm.get_playing_sessions();
    assert_eq!(playing.len(), 1);
    assert_eq!(playing[0].id, b);
    assert!(sm.remove_session(&a).is_some());
    assert!(sm.remove_session(&a).is_none());
    assert_eq!(sm.remove_sessions(&[a.clone(), b.clone()]), 1);
    assert!(sm.get_session(&b).is_none());
}

#[test]
fn delivery_target_errors() {
    let mut sm = SessionManager::new();
    assert!(matches!(sm.delivery_target("nope"), Err(RtspError::SessionNotFound(_))));
    let a = sm.create_session("u").unwrap();
    assert!(matches!(sm.delivery_target(&a), Err(RtspError::SessionNotPlaying(_))));
    sm.set_session_state(&a, SessionState::Playing);
    assert!(matches!(sm.delivery_target(&a), Err(RtspError::TransportNotConfigured(_))));
}

fn server_state() -> (SessionManager, MountRegistry<H264Packetizer>) {
    let mut mounts = MountRegistry::new();
    mounts.add("/stream", H264Packetizer::new(96, 0x1234));
    (SessionManager::new(), mounts)
}

fn ask(h: &mut MethodHandler, sm: &mut SessionManager, mr: &mut MountRegistry<H264Packetizer>, raw: &str) -> String {
    let req = RtspRequest::parse(raw).unwrap();
    h.handle(sm, mr, &req).serialize()
}

fn session_id_of(resp: &str) -> String {
    let line = resp.lines().find(|l| l.starts_with("Session:")).unwrap();
    line["Session:".len()..].trim().split(';').next().unwrap().to_string()
}

#[test]
fn handshake_options_describe_setup_play() {
    let (mut sm, mut mr) = server_state();
    mr.set_default("/stream");
    let mut h = MethodHandler::new("127.0.0.1", ServerConfig::default());
    let base = "rtsp://127.0.0.1:18554/stream";
    let r = ask(&mut h, &mut sm, &mut mr, &format!("OPTIONS {} RTSP/1.0\r\nCSeq:1\r\n\r\n", base));
    assert!(r.starts_with("RTSP/1.0 200 OK\r\n"));
    assert!(r.contains("Public: OPTIONS, DESCRIBE, SETUP, PLAY, PAUSE, TEARDOWN, GET_PARAMETER\r\n"));
    assert!(r.contains("CSeq: 1\r\n"));

    let r = ask(&mut h, &mut sm, &mut mr, &format!("DESCRIBE {} RTSP/1.0\r\nCSeq:2\r\n\r\n", base));
    assert!(r.starts_with("RTSP/1.0 200 OK\r\n"));
    assert!(r.contains("Content-Type: application/sdp\r\n"));
    assert!(r.contains(&format!("Content-Base: {}\r\n", base)));
    assert!(r.contains("v=0"));
    assert!(r.contains("c=IN IP4 127.0.0.1\r\n"));
    assert!(r.contains("m=video 0 RTP/AVP 96"));
    assert!(r.contains("a=rtpmap:96 H264/90000"));
    assert!(r.contains("a=fmtp:96 packetization-mode=1"));

    let r = ask(
        &mut h,
        &mut sm,
        &mut mr,
        &format!("SETUP {}/track1 RTSP/1.0\r\nCSeq:3\r\nTransport: RTP/AVP;unicast;client_port=5000-5001\r\n\r\n", base),
    );
    assert!(r.starts_with("RTSP/1.0 200 OK\r\n"));
    assert!(r.contains("Transport: RTP/AVP;unicast;client_port=5000-5001;server_port=5000-5001\r\n"));
    let id = session_id_of(&r);
    assert_eq!(id.len(), 16);
    assert!(id.chars().all(|c| c.is_ascii_hexdigit()));
    assert!(r.contains(&format!("Session: {};timeout=60\r\n", id)));
    assert_eq!(mr.get("/stream").unwrap().subscribed_session_ids(), vec![id.clone()]);
    assert_eq!(h.session_ids().to_vec(), vec![id.clone()]);

    let r = ask(&mut h, &mut sm, &mut mr, &format!("PLAY {} RTSP/1.0\r\nCSeq:4\r\nSession: {}\r\n\r\n", base, id));
    assert!(r.starts_with("RTSP/1.0 200 OK\r\n"));
    assert!(r.contains("Range: npt=0.000-\r\n"));
    assert!(r.contains(&format!("RTP-Info: url={}/track1;seq=0;rtptime=0\r\n", base)));
    assert!(sm.get_session(&id).unwrap().is_playing());
    let d = sm.delivery_target(&id).unwrap();
    assert_eq!((d.ip.as_str(), d.port), ("127.0.0.1", 5000));
    let viewers = sm.viewers();
    assert_eq!(viewers.len(), 1);
    assert_eq!(viewers[0].client_addr, "127.0.0.1:5000");

    let r = ask(&mut h, &mut sm, &mut mr, &format!("PAUSE {} RTSP/1.0\r\nCSeq:5\r\nSession: {}\r\n\r\n", base, id));
    assert!(r.starts_with("RTSP/1.0 200 OK\r\n"));
    assert_eq!(sm.get_session(&id).unwrap().get_state(), SessionState::Paused);

    let r = ask(&mut h, &mut sm, &mut mr, &format!("GET_PARAMETER {} RTSP/1.0\r\nCSeq:6\r\nSession: {}\r\n\r\n", base, id));
    assert!(r.contains(&format!("Session: {}\r\n", id)));

    let r = ask(&mut h, &mut sm, &mut mr, &format!("TEARDOWN {} RTSP/1.0\r\nCSeq:7\r\nSession: {}\r\n\r\n", base, id));
    assert!(r.starts_with("RTSP/1.0 200 OK\r\n"));
    assert!(sm.get_session(&id).is_none());
    assert!(mr.get("/stream").unwrap().subscribed_session_ids().is_empty());
    assert!(h.session_ids().is_empty());
}

#[test]
fn unknown_mount_without_default_is_404() {
    let (mut sm, mut mr) = server_state();
    let mut h = MethodHandler::new("10.0.0.2", ServerConfig::default());
    let r = ask(&mut h, &mut sm, &mut mr, "DESCRIBE rtsp://h/missing RTSP/1.0\r\nCSeq: 2\r\n\r\n");
    assert!(r.starts_with("RTSP/1.0 404 Not Found\r\n"));
    assert!(r.contains("CSeq: 2\r\n"));
}

#[test]
fn default_mount_serves_any_uri() {
    let (mut sm, mut mr) = server_state();
    mr.set_default("/stream");
    let mut h = MethodHandler::new("10.0.0.2", ServerConfig::default());
    let r = ask(&mut h, &mut sm, &mut mr, "DESCRIBE rtsp://h/anything RTSP/1.0\r\nCSeq: 2\r\n\r\n");
    assert!(r.starts_with("RTSP/1.0 200 OK\r\n"));
    assert!(r.contains("c=IN IP4 h\r\n"));
}

#[test]
fn interleaved_tcp_rejected_with_461() {
    let (mut sm, mut mr) = server_state();
    let mut h = MethodHandler::new("10.0.0.2", ServerConfig::default());
    let r = ask(
        &mut h,
        &mut sm,
        &mut mr,
        "SETUP rtsp://h/stream/track1 RTSP/1.0\r\nCSeq: 3\r\nTransport: RTP/AVP/TCP;unicast;interleaved=0-1\r\n\r\n",
    );
    assert!(r.starts_with("RTSP/1.0 461 Unsupported Transport\r\n"));
    assert!(r.contains("Unsupported: "));
    assert!(sm.sessions.is_empty());
}

#[test]
fn setup_without_transport_is_400_and_unknown_method_501() {
    let (mut sm, mut mr) = server_state();
    let mut h = MethodHandler::new("10.0.0.2", ServerConfig::default());
    let r = ask(&mut h, &mut sm, &mut mr, "SETUP rtsp://h/stream RTSP/1.0\r\nCSeq: 3\r\n\r\n");
    assert!(r.starts_with("RTSP/1.0 400 Bad Request\r\n"));
    let r = ask(&mut h, &mut sm, &mut mr, "RECORD rtsp://h/stream RTSP/1.0\r\n\r\n");
    assert!(r.starts_with("RTSP/1.0 501 Not Implemented\r\n"));
    assert!(r.contains("CSeq: 0\r\n"));
    let r = ask(&mut h, &mut sm, &mut mr, "PLAY rtsp://h/stream RTSP/1.0\r\nCSeq: 9\r\n\r\n");
    assert!(r.starts_with("RTSP/1.0 454 Session Not Found\r\n"));
}

#[test]
fn disconnect_cleanup_removes_sessions_and_subscriptions() {
    let (mut sm, mut mr) = server_state();
    let mut h = MethodHandler::new("10.0.0.2", ServerConfig::default());
    let r = ask(
        &mut h,
        &mut sm,
        &mut mr,
        "SETUP rtsp://h/stream/track1 RTSP/1.0\r\nCSeq: 3\r\nTransport: RTP/AVP;unicast;client_port=6000-6001\r\n\r\n",
    );
    let id = session_id_of(&r);
    assert_eq!(h.cleanup(&mut sm, &mut mr), 1);
    let mut h2 = MethodHandler::new("10.0.0.2", ServerConfig::default());
    let r = ask(&mut h2, &mut sm, &mut mr, &format!("PLAY rtsp://h/stream RTSP/1.0\r\nCSeq: 4\r\nSession: {}\r\n\r\n", id));
    assert!(r.starts_with("RTSP/1.0 454 Session Not Found\r\n"));
    assert!(mr.get("/stream").unwrap().subscribed_session_ids().is_empty());
}

#[test]
fn fanout_reaches_playing_subscribers_only() {
    let (mut sm, mut mr) = server_state();
    let mut h = MethodHandler::new("10.0.0.2", ServerConfig::default());
    let setup = "SETUP rtsp://h/stream RTSP/1.0\r\nCSeq: 1\r\nTransport: RTP/AVP;unicast;client_port=7000-7001\r\n\r\n";
    let a = session_id_of(&ask(&mut h, &mut sm, &mut mr, setup));
    let _b = session_id_of(&ask(&mut h, &mut sm, &mut mr, setup));
    ask(&mut h, &mut sm, &mut mr, &format!("PLAY rtsp://h/stream RTSP/1.0\r\nSession: {}\r\n\r\n", a));
    let packets = mr.packetize("/stream", &[0, 0, 0, 1, 0x65, 1, 2], 3000).unwrap();
    assert_eq!(packets.len(), 1);
    let ids = mr.get("/stream").unwrap().subscribed_session_ids();
    let dests = sm.frame_destinations(&ids);
    assert_eq!(dests.len(), 1);
    assert_eq!(dests[0].session_id, a);
    assert_eq!((dests[0].ip.as_str(), dests[0].port), ("10.0.0.2", 7000));
    assert!(mr.packetize("/none", &[], 0).is_none());
}

#[test]
fn public_host_overrides_sdp_host() {
    let (mut sm, mut mr) = server_state();
    let mut cfg = ServerConfig::default();
    cfg.public_host = Some("example.org".to_string());
    let mut h = MethodHandler::new("10.0.0.2", cfg);
    let r = ask(&mut h, &mut sm, &mut mr, "DESCRIBE rtsp://h:1/stream RTSP/1.0\r\nCSeq: 2\r\n\r\n");
    assert!(r.contains("o=- 0 0 IN IP4 example.org\r\n"));
    let mut h = MethodHandler::new("10.0.0.2", ServerConfig::default());
    let r = ask(&mut h, &mut sm, &mut mr, "DESCRIBE /stream RTSP/1.0\r\nCSeq: 2\r\n\r\n");
    assert!(r.contains("c=IN IP4 10.0.0.2\r\n"));
}
