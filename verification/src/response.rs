use crate::decimal::{dec_digits, dec_string};
use crate::headers::HeaderMap;
use vstd::prelude::*;
use vstd::string::StrSliceExecFns;
use vstd::string::StringExecFns;
use vstd::string::StringSliceAdditionalSpecFns;
use vstd::utf8::encode_utf8;

verus! {

/// The reason phrase the status line carries for a code: a fixed table,
/// with "Unknown" for every code outside it.
pub open spec fn spec_reason(code: u16) -> Seq<char> {
    if code == 200 {
        "OK"@
    } else if code == 201 {
        "Created"@
    } else if code == 204 {
        "No Content"@
    } else if code == 400 {
        "Bad Request"@
    } else if code == 401 {
        "Unauthorized"@
    } else if code == 403 {
        "Forbidden"@
    } else if code == 404 {
        "Not Found"@
    } else if code == 500 {
        "Internal Server Error"@
    } else {
        "Unknown"@
    }
}

/// The status line of an encoded response.
pub open spec fn status_line_chars(code: u16) -> Seq<char> {
    "HTTP/1.1 "@ + dec_digits(code as nat) + " "@ + spec_reason(code) + "\r\n"@
}

/// One encoded header line.
pub open spec fn header_line_chars(e: (Seq<char>, Seq<char>)) -> Seq<char> {
    e.0 + ": "@ + e.1 + "\r\n"@
}

/// The encoded header block, one line per pair, in the order given.
pub open spec fn header_lines_bytes(es: Seq<(Seq<char>, Seq<char>)>) -> Seq<u8>
    decreases es.len(),
{
    if es.len() == 0 {
        Seq::empty()
    } else {
        header_lines_bytes(es.drop_last()) + encode_utf8(header_line_chars(es.last()))
    }
}

/// The full encoding of a response: status line, header block, blank line,
/// then the body bytes untouched.
pub open spec fn spec_http_bytes(code: u16, es: Seq<(Seq<char>, Seq<char>)>, body: Seq<u8>) -> Seq<
    u8,
> {
    encode_utf8(status_line_chars(code)) + header_lines_bytes(es) + encode_utf8("\r\n"@) + body
}

/// A response: a status code, a header mapping, and an opaque byte body.
#[derive(Debug)]
pub struct Response {
    status_code: u16,
    headers: HeaderMap,
    body: Vec<u8>,
}

impl Response {
    /// The status code.
    pub closed spec fn spec_status(&self) -> u16 {
        self.status_code
    }

    /// The header mapping.
    pub closed spec fn spec_headers(&self) -> Map<Seq<char>, Seq<char>> {
        self.headers@
    }

    /// The header pairs, in insertion order.
    pub closed spec fn spec_header_entries(&self) -> Seq<(Seq<char>, Seq<char>)> {
        self.headers.entries_spec()
    }

    /// The body bytes.
    pub closed spec fn spec_body(&self) -> Seq<u8> {
        self.body@
    }

    /// A response with the given status code, no headers and no body.
    pub fn new(status_code: u16) -> (r: Self)
        ensures
            r.spec_status() == status_code,
            r.spec_headers() == Map::<Seq<char>, Seq<char>>::empty(),
            r.spec_header_entries() == Seq::<(Seq<char>, Seq<char>)>::empty(),
            r.spec_body() == Seq::<u8>::empty(),
    {
        let r = Response { status_code, headers: HeaderMap::new(), body: Vec::new() };
        proof {
            assert(r.spec_body() =~= Seq::<u8>::empty());
        }
        r
    }

    /// A 200 response with no headers and no body.
    pub fn ok() -> (r: Self)
        ensures
            r.spec_status() == 200,
            r.spec_headers() == Map::<Seq<char>, Seq<char>>::empty(),
            r.spec_header_entries() == Seq::<(Seq<char>, Seq<char>)>::empty(),
            r.spec_body() == Seq::<u8>::empty(),
    {
        Self::new(200)
    }

    /// A 404 response carrying `message` as plain text.
    pub fn not_found(message: &str) -> (r: Self)
        ensures
            r.spec_status() == 404,
            r.spec_body() == message.spec_bytes(),
            r.spec_headers() == Map::<Seq<char>, Seq<char>>::empty().insert(
                "Content-Type"@,
                "text/plain; charset=utf-8"@,
            ).insert("Content-Length"@, dec_digits(message.spec_bytes().len() as nat)),
    {
        Self::new(404).with_text(message)
    }

    /// A 500 response carrying `message` as plain text.
    pub fn internal_error(message: &str) -> (r: Self)
        ensures
            r.spec_status() == 500,
            r.spec_body() == message.spec_bytes(),
            r.spec_headers() == Map::<Seq<char>, Seq<char>>::empty().insert(
                "Content-Type"@,
                "text/plain; charset=utf-8"@,
            ).insert("Content-Length"@, dec_digits(message.spec_bytes().len() as nat)),
    {
        Self::new(500).with_text(message)
    }

    /// The same response with `name` bound to `value` in its headers.
    pub fn with_header(self, name: &str, value: &str) -> (r: Self)
        ensures
            r.spec_status() == self.spec_status(),
            r.spec_body() == self.spec_body(),
            r.spec_headers() == self.spec_headers().insert(name@, value@),
    {
        let mut r = self;
        r.headers.insert(String::from_str(name), String::from_str(value));
        r
    }

    /// The same response carrying `text` as its body, with the content type
    /// set to plain text and the content length set to the body length.
    pub fn with_text(self, text: &str) -> (r: Self)
        ensures
            r.spec_status() == self.spec_status(),
            r.spec_body() == text.spec_bytes(),
            r.spec_headers() == self.spec_headers().insert(
                "Content-Type"@,
                "text/plain; charset=utf-8"@,
            ).insert("Content-Length"@, dec_digits(text.spec_bytes().len() as nat)),
    {
        self.with_body_bytes(text.as_bytes_vec(), "text/plain; charset=utf-8")
    }

    /// The same response carrying `json_str` as its body, with the content
    /// type set to JSON and the content length set to the body length.
    pub fn with_json(self, json_str: &str) -> (r: Self)
        ensures
            r.spec_status() == self.spec_status(),
            r.spec_body() == json_str.spec_bytes(),
            r.spec_headers() == self.spec_headers().insert(
                "Content-Type"@,
                "application/json"@,
            ).insert("Content-Length"@, dec_digits(json_str.spec_bytes().len() as nat)),
    {
        self.with_body_bytes(json_str.as_bytes_vec(), "application/json")
    }

    /// The same response carrying `html` as its body, with the content type
    /// set to HTML and the content length set to the body length.
    pub fn with_html(self, html: &str) -> (r: Self)
        ensures
            r.spec_status() == self.spec_status(),
            r.spec_body() == html.spec_bytes(),
            r.spec_headers() == self.spec_headers().insert(
                "Content-Type"@,
                "text/html; charset=utf-8"@,
            ).insert("Content-Length"@, dec_digits(html.spec_bytes().len() as nat)),
    {
        self.with_body_bytes(html.as_bytes_vec(), "text/html; charset=utf-8")
    }

    /// The same response carrying `data` as its body, with the given content
    /// type and the content length set to the body length.
    pub fn with_binary(self, data: Vec<u8>, content_type: &str) -> (r: Self)
        ensures
            r.spec_status() == self.spec_status(),
            r.spec_body() == data@,
            r.spec_headers() == self.spec_headers().insert("Content-Type"@, content_type@).insert(
                "Content-Length"@,
                dec_digits(data@.len() as nat),
            ),
    {
        self.with_body_bytes(data, content_type)
    }

    /// Replaces the body and sets Content-Type and Content-Length.
    fn with_body_bytes(self, data: Vec<u8>, content_type: &str) -> (r: Self)
        ensures
            r.spec_status() == self.spec_status(),
            r.spec_body() == data@,
            r.spec_headers() == self.spec_headers().insert("Content-Type"@, content_type@).insert(
                "Content-Length"@,
                dec_digits(data@.len() as nat),
            ),
    {
        let mut r = self;
        r.body = data;
        let len_str = dec_string(r.body.len());
        r.headers.insert(String::from_str("Content-Type"), String::from_str(content_type));
        r.headers.insert(String::from_str("Content-Length"), len_str);
        r
    }

    /// The status code.
    pub fn status_code(&self) -> (r: u16)
        ensures
            r == self.spec_status(),
    {
        self.status_code
    }

    /// The headers.
    pub fn headers(&self) -> (r: &HeaderMap)
        ensures
            r@ == self.spec_headers(),
            r.entries_spec() == self.spec_header_entries(),
    {
        &self.headers
    }

    /// The body bytes.
    pub fn body(&self) -> (r: &[u8])
        ensures
            r@ == self.spec_body(),
    {
        self.body.as_slice()
    }

    /// The reason phrase for this response's status code.
    fn status_text(&self) -> (r: &'static str)
        ensures
            r@ == spec_reason(self.spec_status()),
    {
        match self.status_code {
            200 => "OK",
            201 => "Created",
            204 => "No Content",
            400 => "Bad Request",
            401 => "Unauthorized",
            403 => "Forbidden",
            404 => "Not Found",
            500 => "Internal Server Error",
            _ => "Unknown",
        }
    }

    /// Encodes the response for the wire: status line, header lines in
    /// insertion order, a blank line, then the body bytes untouched.
    pub fn to_http_response(&self) -> (r: Vec<u8>)
        ensures
            r@ == spec_http_bytes(
                self.spec_status(),
                self.spec_header_entries(),
                self.spec_body(),
            ),
    {
        let mut line = String::from_str("HTTP/1.1 ");
        line.append(dec_string(self.status_code as usize).as_str());
        line.append(" ");
        line.append(self.status_text());
        line.append("\r\n");
        proof {
            assert(line@ =~= status_line_chars(self.spec_status()));
        }
        let mut out: Vec<u8> = line.as_str().as_bytes_vec();
        let n = self.headers.len();
        let ghost es = self.spec_header_entries();
        let mut i: usize = 0;
        while i < n
            invariant
                i <= n,
                n == es.len(),
                es == self.spec_header_entries(),
                out@ == encode_utf8(status_line_chars(self.spec_status())) + header_lines_bytes(
                    es.take(i as int),
                ),
            decreases n - i,
        {
            let e = self.headers.entry_at(i);
            let mut hl = String::new();
            hl.append(e.0.as_str());
            hl.append(": ");
            hl.append(e.1.as_str());
            hl.append("\r\n");
            proof {
                assert(hl@ =~= header_line_chars(es[i as int]));
            }
            let mut piece = hl.as_str().as_bytes_vec();
            out.append(&mut piece);
            proof {
                assert(es.take(i + 1).drop_last() =~= es.take(i as int));
                assert(es.take(i + 1).last() == es[i as int]);
                assert(out@ =~= encode_utf8(status_line_chars(self.spec_status()))
                    + header_lines_bytes(es.take(i + 1)));
            }
            i = i + 1;
        }
        let mut blank = "\r\n".as_bytes_vec();
        out.append(&mut blank);
        crate::text::push_bytes(&mut out, self.body.as_slice());
        proof {
            assert(es.take(n as int) =~= es);
            assert(out@ =~= spec_http_bytes(
                self.spec_status(),
                self.spec_header_entries(),
                self.spec_body(),
            ));
        }
        out
    }

    /// A 200 response carrying `data` as a JSON body.
    pub fn json(data: &str) -> (r: Self)
        ensures
            r.spec_status() == 200,
            r.spec_body() == data.spec_bytes(),
            r.spec_headers() == Map::<Seq<char>, Seq<char>>::empty().insert(
                "Content-Type"@,
                "application/json"@,
            ).insert("Content-Length"@, dec_digits(data.spec_bytes().len() as nat)),
    {
        Self::ok().with_json(data)
    }

    /// A 200 response carrying `text` as a plain-text body.
    pub fn text(text: &str) -> (r: Self)
        ensures
            r.spec_status() == 200,
            r.spec_body() == text.spec_bytes(),
            r.spec_headers() == Map::<Seq<char>, Seq<char>>::empty().insert(
                "Content-Type"@,
                "text/plain; charset=utf-8"@,
            ).insert("Content-Length"@, dec_digits(text.spec_bytes().len() as nat)),
    {
        Self::ok().with_text(text)
    }

    /// A 200 response carrying `html` as an HTML body.
    pub fn html(html: &str) -> (r: Self)
        ensures
            r.spec_status() == 200,
            r.spec_body() == html.spec_bytes(),
            r.spec_headers() == Map::<Seq<char>, Seq<char>>::empty().insert(
                "Content-Type"@,
                "text/html; charset=utf-8"@,
            ).insert("Content-Length"@, dec_digits(html.spec_bytes().len() as nat)),
    {
        Self::ok().with_html(html)
    }
}

impl Clone for Response {
    /// A copy with the same status, headers and body.
    fn clone(&self) -> (r: Self)
        ensures
            r.spec_status() == self.spec_status(),
            r.spec_headers() == self.spec_headers(),
            r.spec_header_entries() == self.spec_header_entries(),
            r.spec_body() == self.spec_body(),
    {
        let mut body: Vec<u8> = Vec::new();
        crate::text::push_bytes(&mut body, self.body.as_slice());
        proof {
            assert(body@ =~= self.spec_body());
        }
        Response { status_code: self.status_code, headers: self.headers.clone(), body }
    }
}

} // verus!
