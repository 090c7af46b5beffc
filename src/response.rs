//! RTSP responses: a builder and the wire text.

use vstd::prelude::*;
use vstd::utf8::encode_utf8;

use crate::request::{header_views, HeaderView};
use crate::text::{append_str, dec, decimal};

verus! {

/// Server identification sent in every response.
pub const SERVER_AGENT: &'static str = "rtsp-rs/0.1";

/// The number of bytes of the UTF-8 encoding of `s`.
pub open spec fn utf8_len(s: Seq<char>) -> nat {
    encode_utf8(s).len()
}

/// One `name: value` line per header, each ended by CRLF.
pub open spec fn header_lines(hs: Seq<HeaderView>) -> Seq<char>
    decreases hs.len(),
{
    if hs.len() == 0 {
        Seq::empty()
    } else {
        header_lines(hs.drop_last()) + hs.last().0 + ": "@ + hs.last().1 + "\r\n"@
    }
}

/// The wire text of a response: status line, header lines, then either
/// `Content-Length`, a blank line and the body, or a blank line alone.
pub open spec fn response_text(
    code: u16,
    reason: Seq<char>,
    hs: Seq<HeaderView>,
    body: Option<Seq<char>>,
) -> Seq<char> {
    "RTSP/1.0 "@ + dec(code as nat) + " "@ + reason + "\r\n"@ + header_lines(hs) + match body {
        Some(b) => "Content-Length: "@ + dec(utf8_len(b)) + "\r\n"@ + "\r\n"@ + b,
        None => "\r\n"@,
    }
}

/// The view of an optional string.
pub open spec fn opt_text(o: Option<String>) -> Option<Seq<char>> {
    match o {
        Some(s) => Some(s@),
        None => None,
    }
}

/// A response without a body still ends with a blank line: its text ends
/// with two CRLFs.
pub proof fn lemma_bodiless_response_ends_blank(code: u16, reason: Seq<char>, hs: Seq<HeaderView>)
    ensures
        exists|pre: Seq<char>| response_text(code, reason, hs, None) == pre + "\r\n"@ + "\r\n"@,
{
    let status = "RTSP/1.0 "@ + dec(code as nat) + " "@ + reason;
    if hs.len() == 0 {
        assert(response_text(code, reason, hs, None) =~= status + "\r\n"@ + "\r\n"@);
    } else {
        let h = header_lines(hs.drop_last()) + hs.last().0 + ": "@ + hs.last().1;
        assert(response_text(code, reason, hs, None) =~= (status + "\r\n"@ + h) + "\r\n"@ + "\r\n"@);
    }
}

/// A response with a body carries `Content-Length` equal to the body's
/// length in bytes, then a blank line, then the body.
pub proof fn lemma_body_framing(code: u16, reason: Seq<char>, hs: Seq<HeaderView>, body: Seq<char>)
    ensures
        response_text(code, reason, hs, Some(body)) == "RTSP/1.0 "@ + dec(code as nat) + " "@ + reason + "\r\n"@
            + header_lines(hs) + "Content-Length: "@ + dec(encode_utf8(body).len()) + "\r\n"@ + "\r\n"@ + body,
{
    assert(response_text(code, reason, hs, Some(body)) =~= "RTSP/1.0 "@ + dec(code as nat) + " "@ + reason + "\r\n"@
        + header_lines(hs) + "Content-Length: "@ + dec(encode_utf8(body).len()) + "\r\n"@ + "\r\n"@ + body);
}

/// An RTSP response under construction.
#[must_use]
pub struct RtspResponse {
    /// Status code, such as 200.
    pub status_code: u16,
    /// Reason phrase, such as `OK`.
    pub status_text: String,
    /// Headers in the order they are sent.
    pub headers: Vec<(String, String)>,
    /// Optional body.
    pub body: Option<String>,
}

impl RtspResponse {
    /// A response with the given status, a `Server` header, and no body.
    pub fn new(status_code: u16, status_text: &str) -> (r: Self)
        ensures
            r.status_code == status_code,
            r.status_text@ == status_text@,
            header_views(r.headers@) == seq![("Server"@, SERVER_AGENT@)],
            r.body is None,
    {
        let mut headers: Vec<(String, String)> = Vec::new();
        headers.push((String::from_str("Server"), String::from_str(SERVER_AGENT)));
        assert(header_views(headers@) =~= seq![("Server"@, SERVER_AGENT@)]);
        RtspResponse { status_code, status_text: String::from_str(status_text), headers, body: None }
    }

    /// 200 OK.
    pub fn ok() -> (r: Self)
        ensures
            r.status_code == 200,
            r.status_text@ == "OK"@,
            header_views(r.headers@) == seq![("Server"@, SERVER_AGENT@)],
            r.body is None,
    {
        Self::new(200, "OK")
    }

    /// 404 Not Found.
    pub fn not_found() -> (r: Self)
        ensures
            r.status_code == 404,
            r.status_text@ == "Not Found"@,
            header_views(r.headers@) == seq![("Server"@, SERVER_AGENT@)],
            r.body is None,
    {
        Self::new(404, "Not Found")
    }

    /// 400 Bad Request.
    pub fn bad_request() -> (r: Self)
        ensures
            r.status_code == 400,
            r.status_text@ == "Bad Request"@,
            header_views(r.headers@) == seq![("Server"@, SERVER_AGENT@)],
            r.body is None,
    {
        Self::new(400, "Bad Request")
    }

    /// The response with one more header at the end.
    pub fn add_header(self, name: &str, value: &str) -> (r: Self)
        ensures
            r.status_code == self.status_code,
            r.status_text@ == self.status_text@,
            header_views(r.headers@) == header_views(self.headers@).push((name@, value@)),
            opt_text(r.body) == opt_text(self.body),
    {
        let mut r = self;
        let ghost before = header_views(r.headers@);
        r.headers.push((String::from_str(name), String::from_str(value)));
        assert(header_views(r.headers@) =~= before.push((name@, value@)));
        r
    }

    /// The response with `body` as its body.
    pub fn with_body(self, body: String) -> (r: Self)
        ensures
            r.status_code == self.status_code,
            r.status_text@ == self.status_text@,
            header_views(r.headers@) == header_views(self.headers@),
            opt_text(r.body) == Some(body@),
    {
        let mut r = self;
        r.body = Some(body);
        r
    }

    /// The response's wire text; `Content-Length` is the body's length in
    /// bytes.
    pub fn serialize(&self) -> (r: String)
        ensures
            r@ == response_text(
                self.status_code,
                self.status_text@,
                header_views(self.headers@),
                opt_text(self.body),
            ),
    {
        let ghost hs = header_views(self.headers@);
        let mut r = String::new();
        append_str(&mut r, "RTSP/1.0 ");
        let code = decimal(self.status_code as u64);
        append_str(&mut r, code.as_str());
        append_str(&mut r, " ");
        append_str(&mut r, self.status_text.as_str());
        append_str(&mut r, "\r\n");
        let ghost head = r@;
        let mut i: usize = 0;
        assert(hs.take(0) =~= Seq::<HeaderView>::empty());
        assert(r@ =~= head + header_lines(hs.take(0)));
        while i < self.headers.len()
            invariant
                hs == header_views(self.headers@),
                i <= hs.len(),
                r@ == head + header_lines(hs.take(i as int)),
            decreases hs.len() - i,
        {
            let (name, value) = &self.headers[i];
            append_str(&mut r, name.as_str());
            append_str(&mut r, ": ");
            append_str(&mut r, value.as_str());
            append_str(&mut r, "\r\n");
            assert(hs.take(i + 1).drop_last() =~= hs.take(i as int));
            assert(hs.take(i + 1).last() == (name@, value@));
            i = i + 1;
            assert(r@ =~= head + header_lines(hs.take(i as int)));
        }
        assert(hs.take(i as int) =~= hs);
        match &self.body {
            Some(body) => {
                append_str(&mut r, "Content-Length: ");
                let bytes = body.as_str().as_bytes();
                let n = decimal(bytes.len() as u64);
                append_str(&mut r, n.as_str());
                append_str(&mut r, "\r\n");
                append_str(&mut r, "\r\n");
                append_str(&mut r, body.as_str());
            },
            None => {
                append_str(&mut r, "\r\n");
            },
        }
        assert(r@ =~= response_text(self.status_code, self.status_text@, hs, opt_text(self.body)));
        r
    }
}

} // verus!
