use crate::assoc::{
    insert_all, lemma_insert_all_concat, lemma_insert_all_from_empty, map_of_pairs,
};
use crate::decimal::parse_usize_chars;
use crate::headers::HeaderMap;
use crate::method::{method_token, Method};
use crate::request::Request;
use crate::text::{
    all_ws_in, bytes_to_string, find_byte, find_byte_in, first_non_ws, first_ws, is_ws,
    is_ws_byte, lemma_find_byte, lemma_find_byte_is, lemma_first_non_ws, lemma_first_ws,
    spec_trim, trim_range,
};
use vstd::prelude::*;
use vstd::slice::{slice_subrange, slice_to_vec};
use vstd::utf8::{decode_utf8, valid_utf8};

verus! {

/// Why a raw request cannot be decoded. Whatever the reason, the server
/// drops the connection without a response.
#[derive(Clone, Copy, Debug, PartialEq, Eq, Structural)]
pub enum DecodeError {
    /// The request line holds fewer than two tokens.
    MalformedRequest,
    /// The method token matches none of the known methods.
    UnsupportedMethod,
    /// The path or a header line is not valid UTF-8 text.
    InvalidText,
    /// Fewer body bytes than the declared Content-Length arrived.
    TruncatedBody,
}

/// `x`, cut off at `hi`.
pub open spec fn clip(x: int, hi: int) -> int {
    if x < hi {
        x
    } else {
        hi
    }
}

/// One past the newline that closes the line starting at `start`, or the
/// end of the input when no newline follows.
pub open spec fn line_end(b: Seq<u8>, start: int) -> int
    recommends
        0 <= start <= b.len(),
{
    if find_byte(b, start, 10) < b.len() {
        find_byte(b, start, 10) + 1
    } else {
        b.len() as int
    }
}

pub proof fn lemma_line_end(b: Seq<u8>, start: int)
    requires
        0 <= start <= b.len(),
    ensures
        start <= line_end(b, start) <= b.len(),
        start < b.len() ==> start < line_end(b, start),
{
    lemma_find_byte(b, start, 10);
}

/// Whether every byte of `[start, end)` is whitespace: such a line ends the
/// header block.
pub open spec fn line_blank(b: Seq<u8>, start: int, end: int) -> bool {
    forall|k: int| start <= k < end ==> is_ws(b[k])
}

/// Where the head (request line and header lines) ends, scanning line by
/// line from `start`: one past the first blank line, or the end of the
/// input when no blank line arrives.
pub open spec fn head_end_from(b: Seq<u8>, start: int) -> int
    recommends
        0 <= start <= b.len(),
    decreases b.len() - start when 0 <= start <= b.len() via head_end_from_decreases
{
    if start >= b.len() {
        b.len() as int
    } else {
        let e = line_end(b, start);
        if line_blank(b, start, e) {
            e
        } else {
            head_end_from(b, e)
        }
    }
}

#[via_fn]
proof fn head_end_from_decreases(b: Seq<u8>, start: int) {
    if 0 <= start < b.len() {
        lemma_line_end(b, start);
    }
}

pub proof fn lemma_head_end_from(b: Seq<u8>, start: int)
    requires
        0 <= start <= b.len(),
    ensures
        start <= head_end_from(b, start) <= b.len(),
    decreases b.len() - start,
{
    if start < b.len() {
        lemma_line_end(b, start);
        let e = line_end(b, start);
        if !line_blank(b, start, e) {
            lemma_head_end_from(b, e);
        }
    }
}

/// Whether the head is complete: a blank line closed by a newline has
/// arrived. Until then more bytes may still belong to the head.
pub open spec fn head_complete_from(b: Seq<u8>, start: int) -> bool
    recommends
        0 <= start <= b.len(),
    decreases b.len() - start when 0 <= start <= b.len() via head_complete_from_decreases
{
    if start >= b.len() {
        false
    } else if find_byte(b, start, 10) >= b.len() {
        false
    } else {
        let e = find_byte(b, start, 10) + 1;
        if line_blank(b, start, e) {
            true
        } else {
            head_complete_from(b, e)
        }
    }
}

#[via_fn]
proof fn head_complete_from_decreases(b: Seq<u8>, start: int) {
    if 0 <= start < b.len() {
        lemma_find_byte(b, start, 10);
    }
}

/// The end of the request line.
pub open spec fn spec_rl_end(b: Seq<u8>) -> int {
    line_end(b, 0)
}

/// Where the method token starts and ends within the request line.
pub open spec fn spec_method_start(b: Seq<u8>) -> int {
    clip(first_non_ws(b, 0), spec_rl_end(b))
}

pub open spec fn spec_method_end(b: Seq<u8>) -> int {
    clip(first_ws(b, spec_method_start(b)), spec_rl_end(b))
}

/// Where the path token starts and ends within the request line.
pub open spec fn spec_path_start(b: Seq<u8>) -> int {
    clip(first_non_ws(b, spec_method_end(b)), spec_rl_end(b))
}

pub open spec fn spec_path_end(b: Seq<u8>) -> int {
    clip(first_ws(b, spec_path_start(b)), spec_rl_end(b))
}

/// Whether the request line holds at least two whitespace-separated tokens.
pub open spec fn spec_has_two_tokens(b: Seq<u8>) -> bool {
    spec_path_start(b) < spec_rl_end(b)
}

/// The raw method token.
pub open spec fn spec_method_tok(b: Seq<u8>) -> Seq<u8> {
    b.subrange(spec_method_start(b), spec_method_end(b))
}

/// The raw path token.
pub open spec fn spec_path_tok(b: Seq<u8>) -> Seq<u8> {
    b.subrange(spec_path_start(b), spec_path_end(b))
}

/// Where the head ends: one past the blank line closing the header block,
/// or the end of the input.
pub open spec fn spec_head_end(b: Seq<u8>) -> int {
    head_end_from(b, spec_rl_end(b))
}

/// The raw header fields in the lines of `[start, end)`, in order: each
/// line splits at its first colon, both sides trimmed of whitespace; a
/// line without a colon is ignored.
pub open spec fn header_pairs(b: Seq<u8>, start: int, end: int) -> Seq<(Seq<u8>, Seq<u8>)>
    recommends
        0 <= start,
        end <= b.len(),
    decreases end - start when 0 <= start && end <= b.len() via header_pairs_decreases
{
    if start >= end {
        Seq::empty()
    } else {
        let e = clip(line_end(b, start), end);
        let c = find_byte(b, start, 58);
        let this: Seq<(Seq<u8>, Seq<u8>)> = if c < e {
            seq![(spec_trim(b.subrange(start, c)), spec_trim(b.subrange(c + 1, e)))]
        } else {
            seq![]
        };
        this + header_pairs(b, e, end)
    }
}

#[via_fn]
proof fn header_pairs_decreases(b: Seq<u8>, start: int, end: int) {
    if 0 <= start && start < end && end <= b.len() {
        lemma_line_end(b, start);
    }
}

/// The raw header fields of the whole input.
pub open spec fn spec_header_fields(b: Seq<u8>) -> Seq<(Seq<u8>, Seq<u8>)> {
    header_pairs(b, spec_rl_end(b), spec_head_end(b))
}

/// Whether every raw field is valid UTF-8 text on both sides.
pub open spec fn pairs_valid(ps: Seq<(Seq<u8>, Seq<u8>)>) -> bool {
    forall|i: int| 0 <= i < ps.len() ==> valid_utf8(ps[i].0) && valid_utf8(ps[i].1)
}

/// The raw fields as text.
pub open spec fn decoded_pairs(ps: Seq<(Seq<u8>, Seq<u8>)>) -> Seq<(Seq<char>, Seq<char>)> {
    ps.map_values(|p: (Seq<u8>, Seq<u8>)| (decode_utf8(p.0), decode_utf8(p.1)))
}

/// The header mapping of the whole input: fields inserted in order, a
/// later duplicate name winning.
pub open spec fn spec_headers_map(b: Seq<u8>) -> Map<Seq<char>, Seq<char>> {
    map_of_pairs(decoded_pairs(spec_header_fields(b)))
}

/// The body length the head declares: the Content-Length value when it is
/// present and parses as a number, and zero otherwise.
pub open spec fn spec_content_length(b: Seq<u8>) -> nat {
    let m = spec_headers_map(b);
    if m.contains_key("Content-Length"@) {
        match parse_usize_chars(m["Content-Length"@]) {
            Some(v) => v,
            None => 0,
        }
    } else {
        0
    }
}

/// Why decoding the input fails, or nothing when it succeeds.
pub open spec fn spec_decode_err(b: Seq<u8>) -> Option<DecodeError> {
    if !spec_has_two_tokens(b) {
        Some(DecodeError::MalformedRequest)
    } else if method_token(spec_method_tok(b)) is None {
        Some(DecodeError::UnsupportedMethod)
    } else if !valid_utf8(spec_path_tok(b)) {
        Some(DecodeError::InvalidText)
    } else if !pairs_valid(spec_header_fields(b)) {
        Some(DecodeError::InvalidText)
    } else if spec_content_length(b) > 0 && spec_head_end(b) + spec_content_length(b) > b.len() {
        Some(DecodeError::TruncatedBody)
    } else {
        None
    }
}

/// The body a successful decode returns: exactly the declared number of
/// bytes after the head, and empty when none are declared; bytes beyond
/// them are ignored.
pub open spec fn spec_body_bytes(b: Seq<u8>) -> Seq<u8> {
    let cl = spec_content_length(b);
    if cl > 0 {
        b.subrange(spec_head_end(b), spec_head_end(b) + cl)
    } else {
        Seq::empty()
    }
}

/// The first position in `[from, to)` that is not whitespace, or `to`.
fn scan_non_ws(s: &[u8], from: usize, to: usize) -> (r: usize)
    requires
        from <= to <= s@.len(),
    ensures
        r == clip(first_non_ws(s@, from as int), to as int),
        from <= r <= to,
{
    let mut i: usize = from;
    while i < to && is_ws_byte(s[i])
        invariant
            from <= i <= to <= s@.len(),
            first_non_ws(s@, from as int) == first_non_ws(s@, i as int),
        decreases to - i,
    {
        proof {
            assert(first_non_ws(s@, i as int) == first_non_ws(s@, i + 1));
        }
        i = i + 1;
    }
    proof {
        lemma_first_non_ws(s@, i as int);
        if i < to {
            assert(first_non_ws(s@, i as int) == i);
        }
    }
    i
}

/// The first whitespace position in `[from, to)`, or `to`.
fn scan_ws(s: &[u8], from: usize, to: usize) -> (r: usize)
    requires
        from <= to <= s@.len(),
    ensures
        r == clip(first_ws(s@, from as int), to as int),
        from <= r <= to,
{
    let mut i: usize = from;
    while i < to && !is_ws_byte(s[i])
        invariant
            from <= i <= to <= s@.len(),
            first_ws(s@, from as int) == first_ws(s@, i as int),
        decreases to - i,
    {
        proof {
            assert(first_ws(s@, i as int) == first_ws(s@, i + 1));
        }
        i = i + 1;
    }
    proof {
        lemma_first_ws(s@, i as int);
        if i < to {
            assert(first_ws(s@, i as int) == i);
        }
    }
    i
}

/// One past the newline closing the line at `from`, or the end of the input.
fn line_end_at(s: &[u8], from: usize) -> (r: usize)
    requires
        from <= s@.len(),
    ensures
        r == line_end(s@, from as int),
        from <= r <= s@.len(),
        from < s@.len() ==> from < r,
{
    let n = s.len();
    let f = find_byte_in(s, from, n, 10);
    proof {
        lemma_find_byte_is(s@, from as int, 10, f as int);
    }
    if f < n {
        f + 1
    } else {
        n
    }
}

/// Where the head ends, scanning line by line from `start`.
fn head_end_at(s: &[u8], start: usize) -> (r: usize)
    requires
        start <= s@.len(),
    ensures
        r == head_end_from(s@, start as int),
        start <= r <= s@.len(),
{
    let n = s.len();
    let mut cur: usize = start;
    while cur < n
        invariant
            start <= cur <= n,
            n == s@.len(),
            head_end_from(s@, start as int) == head_end_from(s@, cur as int),
        decreases n - cur,
    {
        let e = line_end_at(s, cur);
        if all_ws_in(s, cur, e) {
            proof {
                assert(head_end_from(s@, cur as int) == e);
            }
            return e;
        }
        proof {
            assert(head_end_from(s@, cur as int) == head_end_from(s@, e as int));
        }
        cur = e;
    }
    n
}

/// Reads the header lines of `[start, end)` into `hm`, in order: fails
/// exactly when some kept field is not valid UTF-8.
fn collect_headers(s: &[u8], start: usize, end: usize, hm: &mut HeaderMap) -> (r: Result<
    (),
    DecodeError,
>)
    requires
        start <= end <= s@.len(),
    ensures
        r is Ok <==> pairs_valid(header_pairs(s@, start as int, end as int)),
        r is Ok ==> final(hm)@ == insert_all(
            old(hm)@,
            decoded_pairs(header_pairs(s@, start as int, end as int)),
        ),
        r matches Err(e) ==> e == DecodeError::InvalidText,
    decreases end - start,
{
    let ghost all = header_pairs(s@, start as int, end as int);
    if start >= end {
        proof {
            assert(decoded_pairs(all) =~= Seq::<(Seq<char>, Seq<char>)>::empty());
            assert(insert_all(old(hm)@, decoded_pairs(all)) == old(hm)@);
        }
        return Ok(());
    }
    let e0 = line_end_at(s, start);
    let e = if e0 > end {
        end
    } else {
        e0
    };
    let n = s.len();
    let c = find_byte_in(s, start, n, 58);
    proof {
        lemma_find_byte_is(s@, start as int, 58, c as int);
        assert(e == clip(line_end(s@, start as int), end as int));
    }
    let ghost rest = header_pairs(s@, e as int, end as int);
    if c < e {
        let (ka, kb) = trim_range(s, start, c);
        let (va, vb) = trim_range(s, c + 1, e);
        let ghost this = seq![
            (
                spec_trim(s@.subrange(start as int, c as int)),
                spec_trim(s@.subrange(c + 1, e as int)),
            ),
        ];
        proof {
            assert(all == this + rest);
            assert(all[0] == this[0]);
        }
        let key = match bytes_to_string(slice_to_vec(slice_subrange(s, ka, kb))) {
            Some(k) => k,
            None => {
                proof {
                    assert(!valid_utf8(all[0].0));
                }
                return Err(DecodeError::InvalidText);
            },
        };
        let value = match bytes_to_string(slice_to_vec(slice_subrange(s, va, vb))) {
            Some(v) => v,
            None => {
                proof {
                    assert(!valid_utf8(all[0].1));
                }
                return Err(DecodeError::InvalidText);
            },
        };
        let ghost kv = (key@, value@);
        hm.insert(key, value);
        let ghost mid = hm@;
        let res = collect_headers(s, e, end, hm);
        proof {
            if res is Ok {
                assert(pairs_valid(all)) by {
                    assert(forall|i: int|
                        1 <= i < all.len() ==> all[i] == rest[i - 1]);
                }
                let dp = decoded_pairs(this);
                assert(decoded_pairs(all) =~= dp + decoded_pairs(rest));
                lemma_insert_all_concat(old(hm)@, dp, decoded_pairs(rest));
                assert(dp.len() == 1);
                assert(dp.last() == (decode_utf8(this[0].0), decode_utf8(this[0].1)));
                assert(kv == dp.last());
                assert(dp.drop_last() =~= Seq::<(Seq<char>, Seq<char>)>::empty());
                assert(insert_all(old(hm)@, Seq::<(Seq<char>, Seq<char>)>::empty()) == old(
                    hm,
                )@);
                assert(insert_all(old(hm)@, dp) == insert_all(old(hm)@, dp.drop_last()).insert(
                    dp.last().0,
                    dp.last().1,
                ));
                assert(mid == old(hm)@.insert(kv.0, kv.1));
                assert(insert_all(old(hm)@, dp) == mid);
            } else {
                assert(!pairs_valid(all)) by {
                    assert(!pairs_valid(rest));
                    let j = choose|j: int|
                        0 <= j < rest.len() && !(valid_utf8(rest[j].0) && valid_utf8(rest[j].1));
                    assert(all[j + 1] == rest[j]);
                }
            }
        }
        res
    } else {
        proof {
            assert(all =~= rest);
        }
        collect_headers(s, e, end, hm)
    }
}

/// Decodes one request from `input`: the request line's method and path,
/// the header lines up to the first blank line, then exactly the declared
/// Content-Length body bytes; trailing bytes are ignored. Fails exactly as
/// `spec_decode_err` says.
pub fn decode_request(input: &[u8]) -> (r: Result<Request, DecodeError>)
    ensures
        r is Ok <==> spec_decode_err(input@) is None,
        r matches Err(e) ==> spec_decode_err(input@) == Some(e),
        r matches Ok(req) ==> Some(req.spec_method()) == method_token(spec_method_tok(input@))
            && req.spec_path() == decode_utf8(spec_path_tok(input@)) && req.spec_headers()
            == spec_headers_map(input@) && req.spec_body() == spec_body_bytes(input@),
{
    let ghost b = input@;
    let n = input.len();
    let rl_end = line_end_at(input, 0);
    let ms = scan_non_ws(input, 0, rl_end);
    let me = scan_ws(input, ms, rl_end);
    let ps = scan_non_ws(input, me, rl_end);
    if ps >= rl_end {
        return Err(DecodeError::MalformedRequest);
    }
    let pe = scan_ws(input, ps, rl_end);
    let mtok = slice_subrange(input, ms, me);
    let method = match Method::from_bytes(mtok) {
        Some(m) => m,
        None => {
            return Err(DecodeError::UnsupportedMethod);
        },
    };
    let ptok = slice_subrange(input, ps, pe);
    let path = match bytes_to_string(slice_to_vec(ptok)) {
        Some(s) => s,
        None => {
            return Err(DecodeError::InvalidText);
        },
    };
    let he = head_end_at(input, rl_end);
    let mut hm = HeaderMap::new();
    match collect_headers(input, rl_end, he, &mut hm) {
        Ok(_) => (),
        Err(e) => {
            return Err(e);
        },
    }
    proof {
        lemma_insert_all_from_empty(decoded_pairs(spec_header_fields(b)));
        assert(hm@ == spec_headers_map(b));
    }
    let cl: usize = match hm.get("Content-Length") {
        Some(v) => match crate::decimal::parse_dec(v.as_str()) {
            Some(x) => x,
            None => 0,
        },
        None => 0,
    };
    proof {
        assert(cl as nat == spec_content_length(b));
    }
    let mut body: Vec<u8> = Vec::new();
    if cl > 0 {
        if n - he < cl {
            return Err(DecodeError::TruncatedBody);
        }
        body = slice_to_vec(slice_subrange(input, he, he + cl));
    }
    proof {
        assert(body@ == spec_body_bytes(b));
    }
    Ok(Request::new(method, path, hm, body))
}

/// Whether more bytes may still belong to the request that `input` opens:
/// true until the head is complete and the declared body has arrived.
pub fn needs_more(input: &[u8]) -> (r: bool)
    ensures
        r == spec_needs_more(input@),
{
    let ghost b = input@;
    let n = input.len();
    let f0 = find_byte_in(input, 0, n, 10);
    proof {
        assert(b.subrange(0, n as int) =~= b);
        lemma_find_byte_is(b, 0, 10, f0 as int);
    }
    if f0 >= n {
        return true;
    }
    let rl_end = f0 + 1;
    proof {
        assert(rl_end == spec_rl_end(b));
    }
    let mut cur: usize = rl_end;
    let mut complete: bool = false;
    let mut he: usize = n;
    while cur < n && !complete
        invariant
            rl_end <= cur <= n,
            n == b.len(),
            b == input@,
            rl_end as int == spec_rl_end(b),
            find_byte(b, 0, 10) < n as int,
            head_complete_from(b, rl_end as int) == (if complete {
                true
            } else {
                head_complete_from(b, cur as int)
            }),
            head_end_from(b, rl_end as int) == (if complete {
                he as int
            } else {
                head_end_from(b, cur as int)
            }),
            complete ==> rl_end <= he <= n,
        decreases n - cur + (if complete { 0int } else { 1int }),
    {
        let f = find_byte_in(input, cur, n, 10);
        proof {
            lemma_find_byte_is(b, cur as int, 10, f as int);
        }
        if f >= n {
            proof {
                assert(!head_complete_from(b, cur as int));
            }
            return true;
        }
        let e = f + 1;
        if all_ws_in(input, cur, e) {
            proof {
                assert(head_complete_from(b, cur as int));
                assert(line_end(b, cur as int) == e);
                assert(head_end_from(b, cur as int) == e);
            }
            complete = true;
            he = e;
        } else {
            proof {
                assert(head_complete_from(b, cur as int) == head_complete_from(b, e as int));
                assert(head_end_from(b, cur as int) == head_end_from(b, e as int));
            }
            cur = e;
        }
    }
    if !complete {
        proof {
            assert(!head_complete_from(b, rl_end as int));
        }
        return true;
    }
    proof {
        assert(spec_head_complete(b));
        assert(he as int == spec_head_end(b));
    }
    let mut hm = HeaderMap::new();
    match collect_headers(input, rl_end, he, &mut hm) {
        Ok(_) => (),
        Err(_) => {
            return false;
        },
    }
    proof {
        lemma_insert_all_from_empty(decoded_pairs(spec_header_fields(b)));
        assert(hm@ == spec_headers_map(b));
    }
    let cl: usize = match hm.get("Content-Length") {
        Some(v) => match crate::decimal::parse_dec(v.as_str()) {
            Some(x) => x,
            None => 0,
        },
        None => 0,
    };
    proof {
        assert(cl as nat == spec_content_length(b));
    }
    cl > n - he
}

/// Whether the head is complete: the request line and a blank line closed
/// by a newline have both arrived.
pub open spec fn spec_head_complete(b: Seq<u8>) -> bool {
    find_byte(b, 0, 10) < b.len() && head_complete_from(b, spec_rl_end(b))
}

/// Whether more bytes may still belong to the request: the head is not
/// complete yet, or the declared body has not fully arrived. A head whose
/// kept fields are not valid text asks for nothing more: decoding will
/// fail whatever follows.
pub open spec fn spec_needs_more(b: Seq<u8>) -> bool {
    if !spec_head_complete(b) {
        true
    } else if !pairs_valid(spec_header_fields(b)) {
        false
    } else {
        b.len() < spec_head_end(b) + spec_content_length(b)
    }
}

} // verus!
