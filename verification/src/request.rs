use crate::assoc::map_of_pairs;
use crate::codec::DecodeError;
use crate::headers::HeaderMap;
use crate::method::Method;
use crate::text::{bytes_to_string, push_bytes};
use vstd::prelude::*;
use vstd::slice::slice_to_vec;
use vstd::string::StrSliceExecFns;
use vstd::string::StringSliceAdditionalSpecFns;
use vstd::utf8::{decode_utf8, encode_utf8, valid_utf8};

verus! {

/// The (name, value) pairs that the query-string syntax denotes, in order,
/// names and values percent-decoded. Stated only by the trusted parser
/// below: the pairs depend on the query bytes alone.
pub uninterp spec fn query_pairs_of(q: Seq<u8>) -> Seq<(Seq<char>, Seq<char>)>;

/// Relies on url::form_urlencoded::parse: splits on `&`, drops empty
/// pieces, splits each piece on the first `=`, percent-decodes both sides
/// with `+` as space; an empty query yields no pairs.
#[verifier::external_body]
fn parse_query_pairs(q: &str) -> (r: Vec<(String, String)>)
    ensures
        r@.map_values(|e: (String, String)| (e.0@, e.1@)) == query_pairs_of(q.spec_bytes()),
        q.spec_bytes().len() == 0 ==> r@.len() == 0,
{
    url::form_urlencoded::parse(q.as_bytes()).into_owned().collect()
}

/// The first occurrence of `c` at or after `from`, or the length of `s`.
pub open spec fn find_char(s: Seq<char>, from: int, c: char) -> int
    recommends
        0 <= from <= s.len(),
    decreases s.len() - from when 0 <= from <= s.len()
{
    if from >= s.len() {
        s.len() as int
    } else if s[from] == c {
        from
    } else {
        find_char(s, from + 1, c)
    }
}

/// The path up to but excluding its first question mark: the routing key.
pub open spec fn spec_path_without_query(p: Seq<char>) -> Seq<char> {
    p.take(find_char(p, 0, '?'))
}

/// The query mapping the path denotes: nothing without a question mark,
/// else the decoded pairs after the first question mark, a later duplicate
/// name winning.
pub open spec fn spec_query_params(p: Seq<char>) -> Map<Seq<char>, Seq<char>> {
    let i = find_char(p, 0, '?');
    if i == p.len() {
        Map::empty()
    } else {
        map_of_pairs(query_pairs_of(encode_utf8(p.subrange(i + 1, p.len() as int))))
    }
}

/// An incoming request: a method, the raw path with any query suffix, a
/// header mapping, and an opaque byte body. Immutable after construction.
#[derive(Debug)]
pub struct Request {
    method: Method,
    path: String,
    headers: HeaderMap,
    body: Vec<u8>,
}

impl Request {
    /// The method.
    pub closed spec fn spec_method(&self) -> Method {
        self.method
    }

    /// The raw path, including any query suffix.
    pub closed spec fn spec_path(&self) -> Seq<char> {
        self.path@
    }

    /// The header mapping.
    pub closed spec fn spec_headers(&self) -> Map<Seq<char>, Seq<char>> {
        self.headers@
    }

    /// The body bytes.
    pub closed spec fn spec_body(&self) -> Seq<u8> {
        self.body@
    }

    /// A request assembled from its parts.
    pub fn new(method: Method, path: String, headers: HeaderMap, body: Vec<u8>) -> (r: Self)
        ensures
            r.spec_method() == method,
            r.spec_path() == path@,
            r.spec_headers() == headers@,
            r.spec_body() == body@,
    {
        Request { method, path, headers, body }
    }

    /// The method.
    pub fn method(&self) -> (r: &Method)
        ensures
            *r == self.spec_method(),
    {
        &self.method
    }

    /// The raw path, including any query suffix.
    pub fn path(&self) -> (r: &str)
        ensures
            r@ == self.spec_path(),
    {
        self.path.as_str()
    }

    /// The headers.
    pub fn headers(&self) -> (r: &HeaderMap)
        ensures
            r@ == self.spec_headers(),
    {
        &self.headers
    }

    /// The value of the header named `name`, when one is held.
    pub fn header(&self, name: &str) -> (r: Option<&String>)
        ensures
            r is Some <==> self.spec_headers().contains_key(name@),
            r matches Some(v) ==> v@ == self.spec_headers()[name@],
    {
        self.headers.get(name)
    }

    /// The body bytes.
    pub fn body(&self) -> (r: &[u8])
        ensures
            r@ == self.spec_body(),
    {
        self.body.as_slice()
    }

    /// The body as text: succeeds exactly when the body is valid UTF-8.
    pub fn body_string(&self) -> (r: Result<String, DecodeError>)
        ensures
            r is Ok <==> valid_utf8(self.spec_body()),
            r matches Ok(s) ==> s@ == decode_utf8(self.spec_body()) && encode_utf8(s@)
                == self.spec_body(),
            r matches Err(e) ==> e == DecodeError::InvalidText,
    {
        let mut copy: Vec<u8> = Vec::new();
        push_bytes(&mut copy, self.body.as_slice());
        proof {
            assert(copy@ =~= self.spec_body());
        }
        match bytes_to_string(copy) {
            Some(s) => Ok(s),
            None => Err(DecodeError::InvalidText),
        }
    }

    /// The path up to but excluding its first question mark.
    pub fn path_without_query(&self) -> (r: &str)
        ensures
            r@ == spec_path_without_query(self.spec_path()),
    {
        let s = self.path.as_str();
        let q = find_char_at(s, '?');
        let r = s.substring_char(0, q);
        proof {
            assert(r@ =~= self.spec_path().take(find_char(self.spec_path(), 0, '?')));
        }
        r
    }

    /// The query mapping the path denotes: nothing without a question
    /// mark, else the decoded pairs after the first question mark, a later
    /// duplicate name winning.
    pub fn query_params(&self) -> (r: HeaderMap)
        ensures
            r@ == spec_query_params(self.spec_path()),
    {
        let s = self.path.as_str();
        let n = s.unicode_len();
        let q = find_char_at(s, '?');
        let mut out = HeaderMap::new();
        if q == n {
            return out;
        }
        let query = s.substring_char(q + 1, n);
        let pairs = parse_query_pairs(query);
        let ghost pv = pairs@.map_values(|e: (String, String)| (e.0@, e.1@));
        proof {
            assert(query.spec_bytes() == encode_utf8(
                self.spec_path().subrange(q + 1, self.spec_path().len() as int),
            ));
        }
        let m = pairs.len();
        let mut i: usize = 0;
        while i < m
            invariant
                i <= m,
                m == pairs@.len(),
                pv == pairs@.map_values(|e: (String, String)| (e.0@, e.1@)),
                out@ == map_of_pairs(pv.take(i as int)),
            decreases m - i,
        {
            let name = pairs[i].0.clone();
            let value = pairs[i].1.clone();
            out.insert(name, value);
            proof {
                assert(pv.take(i + 1).drop_last() =~= pv.take(i as int));
                assert(pv.take(i + 1).last() == pv[i as int]);
            }
            i = i + 1;
        }
        proof {
            assert(pv.take(m as int) =~= pv);
        }
        out
    }
}

/// The position of the first `c` in `s`, or its length when absent.
fn find_char_at(s: &str, c: char) -> (r: usize)
    ensures
        r == find_char(s@, 0, c),
        r <= s@.len(),
{
    let n = s.unicode_len();
    let mut i: usize = 0;
    while i < n
        invariant
            i <= n,
            n == s@.len(),
            find_char(s@, 0, c) == find_char(s@, i as int, c),
        decreases n - i,
    {
        if s.get_char(i) == c {
            return i;
        }
        proof {
            assert(find_char(s@, i as int, c) == find_char(s@, i + 1, c));
        }
        i = i + 1;
    }
    n
}

impl Clone for Request {
    /// A copy with the same method, path, headers and body.
    fn clone(&self) -> (r: Self)
        ensures
            r.spec_method() == self.spec_method(),
            r.spec_path() == self.spec_path(),
            r.spec_headers() == self.spec_headers(),
            r.spec_body() == self.spec_body(),
    {
        let mut body: Vec<u8> = Vec::new();
        push_bytes(&mut body, self.body.as_slice());
        proof {
            assert(body@ =~= self.spec_body());
        }
        Request {
            method: self.method,
            path: self.path.clone(),
            headers: self.headers.clone(),
            body,
        }
    }
}

} // verus!
