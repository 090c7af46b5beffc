use rtsp::{
    parse_request, parse_transport_header, ParseErrorKind, RtspError, RtspRequest, RtspResponse,
    TransportHeader,
};

#[test]
fn parse_options_request() {
    let raw = "OPTIONS rtsp://localhost:8554/test RTSP/1.0\r\nCSeq: 1\r\n\r\n";
    let req = RtspRequest::parse(raw).unwrap();
    assert_eq!(req.method, "OPTIONS");
    assert_eq!(req.uri, "rtsp://localhost:8554/test");
    assert_eq!(req.version, "RTSP/1.0");
    assert_eq!(req.cseq(), Some("1"));
}

#[test]
fn parse_setup_with_transport() {
    let raw = "SETUP rtsp://localhost:8554/test/track1 RTSP/1.0\r\n\
               CSeq: 3\r\n\
               Transport: RTP/AVP;unicast;client_port=8000-8001\r\n\r\n";
    let req = RtspRequest::parse(raw).unwrap();
    assert_eq!(req.method, "SETUP");
    assert_eq!(req.cseq(), Some("3"));
    assert_eq!(
        req.get_header("Transport"),
        Some("RTP/AVP;unicast;client_port=8000-8001")
    );
}

#[test]
fn parse_empty_request() {
    assert!(RtspRequest::parse("").is_err());
}

#[test]
fn parse_invalid_request_line() {
    assert!(RtspRequest::parse("JUST_A_METHOD\r\n\r\n").is_err());
}

#[test]
fn header_lookup_case_insensitive() {
    let raw = "OPTIONS rtsp://localhost RTSP/1.0\r\ncseq: 42\r\n\r\n";
    let req = RtspRequest::parse(raw).unwrap();
    assert_eq!(req.get_header("CSeq"), Some("42"));
    assert_eq!(req.get_header("cseq"), Some("42"));
    assert_eq!(req.get_header("CSEQ"), Some("42"));
}

#[test]
fn parse_error_kinds() {
    assert!(matches!(
        RtspRequest::parse(""),
        Err(RtspError::Parse { kind: ParseErrorKind::EmptyRequest })
    ));
    assert!(matches!(
        RtspRequest::parse("A B\r\n\r\n"),
        Err(RtspError::Parse { kind: ParseErrorKind::InvalidRequestLine })
    ));
    assert!(matches!(
        RtspRequest::parse("A B C D\r\n"),
        Err(RtspError::Parse { kind: ParseErrorKind::InvalidRequestLine })
    ));
    assert!(matches!(
        RtspRequest::parse("OPTIONS * RTSP/1.0\r\nno colon here\r\n\r\n"),
        Err(RtspError::Parse { kind: ParseErrorKind::InvalidHeader })
    ));
    assert!(matches!(parse_request(""), Err(ParseErrorKind::EmptyRequest)));
}

#[test]
fn parse_stops_at_blank_line_and_trims() {
    let raw = "PLAY  rtsp://h/s   RTSP/2.0\r\n  Session :  ABC;timeout=60  \r\n\r\nnot a header\r\n";
    let req = parse_request(raw).unwrap();
    assert_eq!(req.method, "PLAY");
    assert_eq!(req.uri, "rtsp://h/s");
    assert_eq!(req.version, "RTSP/2.0");
    assert_eq!(req.headers, vec![("Session".to_string(), "ABC;timeout=60".to_string())]);
    assert_eq!(req.cseq(), None);
}

#[test]
fn parse_bare_newlines() {
    let req = parse_request("DESCRIBE rtsp://h/x RTSP/1.0\nCSeq: 2\n\n").unwrap();
    assert_eq!(req.cseq(), Some("2"));
}

#[test]
fn serialize_no_body() {
    let resp = RtspResponse::ok()
        .add_header("CSeq", "1")
        .add_header("Public", "OPTIONS");
    let s = resp.serialize();
    assert!(s.starts_with("RTSP/1.0 200 OK\r\n"));
    assert!(s.contains("Server: rtsp-rs/0.1\r\n"));
    assert!(s.contains("CSeq: 1\r\n"));
    assert!(s.contains("Public: OPTIONS\r\n"));
    assert!(s.ends_with("\r\n"));
}

#[test]
fn serialize_no_body_exact() {
    let s = RtspResponse::ok().add_header("CSeq", "1").serialize();
    assert_eq!(s, "RTSP/1.0 200 OK\r\nServer: rtsp-rs/0.1\r\nCSeq: 1\r\n\r\n");
}

#[test]
fn serialize_with_body() {
    let resp = RtspResponse::ok()
        .add_header("CSeq", "2")
        .with_body("v=0\r\n".to_string());
    let s = resp.serialize();
    assert!(s.contains("Server: rtsp-rs/0.1\r\n"));
    assert!(s.contains("Content-Length: 5\r\n"));
    assert!(s.ends_with("v=0\r\n"));
}

#[test]
fn content_length_counts_bytes() {
    let s = RtspResponse::ok().with_body("é".to_string()).serialize();
    assert_eq!(s, "RTSP/1.0 200 OK\r\nServer: rtsp-rs/0.1\r\nContent-Length: 2\r\n\r\né");
}

#[test]
fn not_found_response() {
    let resp = RtspResponse::not_found().add_header("CSeq", "5");
    assert_eq!(resp.status_code, 404);
    let s = resp.serialize();
    assert!(s.starts_with("RTSP/1.0 404 Not Found\r\n"));
    assert!(s.contains("Server: rtsp-rs/0.1\r\n"));
}

#[test]
fn bad_request_response() {
    let s = RtspResponse::bad_request().serialize();
    assert!(s.starts_with("RTSP/1.0 400 Bad Request\r\n"));
}

#[test]
fn parse_valid_transport() {
    let th = TransportHeader::parse("RTP/AVP;unicast;client_port=5000-5001").unwrap();
    assert_eq!(th.client_rtp_port, 5000);
    assert_eq!(th.client_rtcp_port, 5001);
}

#[test]
fn parse_no_client_port() {
    assert!(TransportHeader::parse("RTP/AVP;unicast").is_none());
}

#[test]
fn parse_transport_edge_cases() {
    assert_eq!(
        parse_transport_header(" client_port = 1-2;client_port=8000-8001"),
        Some(TransportHeader { client_rtp_port: 8000, client_rtcp_port: 8001 })
    );
    assert_eq!(parse_transport_header("client_port=70000-70001"), None);
    assert_eq!(parse_transport_header("client_port=1-2-3;client_port=+9-10"),
        Some(TransportHeader { client_rtp_port: 9, client_rtcp_port: 10 }));
    assert_eq!(parse_transport_header("client_port=x-1;client_port=3-4"), None);
    assert_eq!(parse_transport_header(""), None);
}
