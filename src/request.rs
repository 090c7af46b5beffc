//! RTSP request parsing.

use vstd::prelude::*;

use crate::error::{ParseError, ParseErrorKind, RtspError};
use crate::text::{
    char_views, chars_eq_ignore_case, chars_of, eq_ignore_case, find_char, find_from, lines,
    split_lines, split_words, string_of, trim, trim_range, words,
};

verus! {

/// A header as a pair of character sequences.
pub type HeaderView = (Seq<char>, Seq<char>);

/// The views of `(name, value)` string pairs.
pub open spec fn header_views(hs: Seq<(String, String)>) -> Seq<HeaderView> {
    hs.map_values(|h: (String, String)| (h.0@, h.1@))
}

/// The header of one line: the text before the first colon and the text
/// after it, each trimmed.
pub open spec fn header_of_line(line: Seq<char>) -> HeaderView {
    let p = find_from(line, ':', 0);
    (trim(line.subrange(0, p)), trim(line.subrange(p + 1, line.len() as int)))
}

/// The headers in lines `k..` up to the first empty line, or `None` if one
/// of those lines has no colon.
pub open spec fn parse_headers(ls: Seq<Seq<char>>, k: int) -> Option<Seq<HeaderView>>
    decreases ls.len() - k,
{
    if k < 0 || k >= ls.len() || ls[k].len() == 0 {
        Some(Seq::empty())
    } else if find_from(ls[k], ':', 0) == ls[k].len() {
        None
    } else {
        match parse_headers(ls, k + 1) {
            None => None,
            Some(rest) => Some(seq![header_of_line(ls[k])] + rest),
        }
    }
}

/// Method, URI, version and headers of a request.
pub type RequestView = (Seq<char>, Seq<char>, Seq<char>, Seq<HeaderView>);

/// What a request text parses to: its first line must hold exactly three
/// words; each following line up to the first empty one must hold a colon.
pub open spec fn request_spec(raw: Seq<char>) -> Result<RequestView, ParseErrorKind> {
    let ls = lines(raw);
    if ls.len() == 0 {
        Err(ParseErrorKind::EmptyRequest)
    } else if words(ls[0]).len() != 3 {
        Err(ParseErrorKind::InvalidRequestLine)
    } else {
        match parse_headers(ls, 1) {
            None => Err(ParseErrorKind::InvalidHeader),
            Some(hs) => Ok((words(ls[0])[0], words(ls[0])[1], words(ls[0])[2], hs)),
        }
    }
}

/// The value of the first header whose name equals `name` up to ASCII case.
pub open spec fn header_lookup(hs: Seq<HeaderView>, name: Seq<char>) -> Option<Seq<char>>
    decreases hs.len(),
{
    if hs.len() == 0 {
        None
    } else if eq_ignore_case(hs[0].0, name) {
        Some(hs[0].1)
    } else {
        header_lookup(hs.drop_first(), name)
    }
}

/// A parsed RTSP request.
#[derive(Debug)]
pub struct RtspRequest {
    /// The method, such as `OPTIONS`.
    pub method: String,
    /// The request URI.
    pub uri: String,
    /// The protocol version, normally `RTSP/1.0`.
    pub version: String,
    /// Headers in order received, names as received.
    pub headers: Vec<(String, String)>,
}

impl RtspRequest {
    /// The request as method, URI, version and headers.
    pub open spec fn view(&self) -> RequestView {
        (self.method@, self.uri@, self.version@, header_views(self.headers@))
    }

    /// Parses a request: request line, header lines, blank line. A version
    /// other than `RTSP/1.0` is accepted.
    pub fn parse(raw: &str) -> (r: Result<Self, RtspError>)
        ensures
            match request_spec(raw@) {
                Ok(t) => r matches Ok(q) && q.view() == t,
                Err(k) => r == Err::<Self, RtspError>(RtspError::Parse { kind: k }),
            },
    {
        let v = chars_of(raw);
        let ls = split_lines(&v);
        let ghost lsv = char_views(ls@);
        if ls.len() == 0 {
            return Err(RtspError::Parse { kind: ParseErrorKind::EmptyRequest });
        }
        assert(ls@[0]@ == lsv[0]);
        let w = split_words(&ls[0]);
        if w.len() != 3 {
            return Err(RtspError::Parse { kind: ParseErrorKind::InvalidRequestLine });
        }
        assert(w@[0]@ == char_views(w@)[0] && w@[1]@ == char_views(w@)[1] && w@[2]@ == char_views(w@)[2]);
        let method = string_of(&w[0], 0, w[0].len());
        let uri = string_of(&w[1], 0, w[1].len());
        let version = string_of(&w[2], 0, w[2].len());
        assert(w@[0]@.subrange(0, w@[0]@.len() as int) =~= w@[0]@);
        assert(w@[1]@.subrange(0, w@[1]@.len() as int) =~= w@[1]@);
        assert(w@[2]@.subrange(0, w@[2]@.len() as int) =~= w@[2]@);
        let mut headers: Vec<(String, String)> = Vec::new();
        let mut k: usize = 1;
        while k < ls.len() && ls[k].len() > 0
            invariant
                lsv == char_views(ls@),
                lsv == lines(raw@),
                words(lsv[0]).len() == 3,
                1 <= k <= ls@.len(),
                parse_headers(lsv, 1) == match parse_headers(lsv, k as int) {
                    None => None,
                    Some(rest) => Some(header_views(headers@) + rest),
                },
            decreases ls@.len() - k,
        {
            let line = &ls[k];
            assert(line@ == lsv[k as int]);
            let p = find_char(line, ':', 0);
            if p == line.len() {
                assert(parse_headers(lsv, k as int) is None);
                return Err(RtspError::Parse { kind: ParseErrorKind::InvalidHeader });
            }
            proof {
                crate::text::lemma_find_from(line@, ':', 0);
            }
            let (a, b) = trim_range(line, 0, p);
            let (c, d) = trim_range(line, p + 1, line.len());
            let name = string_of(line, a, b);
            let value = string_of(line, c, d);
            let ghost before = header_views(headers@);
            headers.push((name, value));
            assert(header_views(headers@) =~= before.push(header_of_line(lsv[k as int])));
            k = k + 1;
            assert(parse_headers(lsv, 1) == match parse_headers(lsv, k as int) {
                None => None,
                Some(rest) => Some(header_views(headers@) + rest),
            }) by {
                match parse_headers(lsv, k as int) {
                    None => {},
                    Some(rest) => {
                        assert(before + (seq![header_of_line(lsv[k - 1])] + rest) =~= header_views(headers@) + rest);
                    },
                }
            }
        }
        assert(parse_headers(lsv, k as int) == Some(Seq::<HeaderView>::empty()));
        assert(header_views(headers@) + Seq::<HeaderView>::empty() =~= header_views(headers@));
        Ok(RtspRequest { method, uri, version, headers })
    }

    /// The value of the first header named `name`, compared without regard
    /// to ASCII case.
    pub fn get_header(&self, name: &str) -> (r: Option<&str>)
        ensures
            match header_lookup(header_views(self.headers@), name@) {
                Some(v) => r matches Some(s) && s@ == v,
                None => r is None,
            },
    {
        let n = chars_of(name);
        let ghost hs = header_views(self.headers@);
        let mut i: usize = 0;
        assert(hs.skip(0) =~= hs);
        while i < self.headers.len()
            invariant
                n@ == name@,
                hs == header_views(self.headers@),
                i <= hs.len(),
                header_lookup(hs, name@) == header_lookup(hs.skip(i as int), name@),
            decreases hs.len() - i,
        {
            let key = chars_of(self.headers[i].0.as_str());
            assert(hs.skip(i as int)[0] == hs[i as int]);
            if chars_eq_ignore_case(&key, &n) {
                return Some(self.headers[i].1.as_str());
            }
            assert(hs.skip(i as int).drop_first() =~= hs.skip(i + 1));
            i = i + 1;
        }
        None
    }

    /// The `CSeq` header's value.
    pub fn cseq(&self) -> (r: Option<&str>)
        ensures
            match header_lookup(header_views(self.headers@), "CSeq"@) {
                Some(v) => r matches Some(s) && s@ == v,
                None => r is None,
            },
    {
        self.get_header("CSeq")
    }
}

/// Parses a request as `RtspRequest::parse` does, reporting only the kind
/// of failure.
pub fn parse_request(raw: &str) -> (r: Result<RtspRequest, ParseError>)
    ensures
        match request_spec(raw@) {
            Ok(t) => r matches Ok(q) && q.view() == t,
            Err(k) => r == Err::<RtspRequest, ParseError>(k),
        },
{
    match RtspRequest::parse(raw) {
        Ok(q) => Ok(q),
        Err(RtspError::Parse { kind }) => Err(kind),
        Err(_) => Err(ParseErrorKind::InvalidRequestLine),
    }
}

} // verus!
