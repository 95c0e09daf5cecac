use crate::assoc::{lemma_map_of_pairs_absent, map_of_pairs};
use crate::codec::{
    lemma_head_end_from, lemma_line_end, spec_body_bytes, spec_content_length, spec_decode_err,
    spec_head_end, spec_rl_end,
};
use crate::decimal::{dec_digits, lemma_dec_parse_round_trip, parse_usize_chars};
use crate::method::Method;
use crate::response::{spec_http_bytes, status_line_chars};
use vstd::prelude::*;

verus! {

/// Registration is last-wins: after any run of registrations, in any
/// order and with any repetitions, looking up a (method, path) pair finds
/// exactly the handler of its most recent registration. `map_of_pairs` is
/// the table that `Router::add_route` builds up, and the table that
/// `Router::find_handler` answers from.
pub proof fn lemma_last_registration_wins<H>(regs: Seq<((Method, Seq<char>), H)>, i: int)
    requires
        0 <= i < regs.len(),
        forall|j: int| i < j < regs.len() ==> regs[j].0 != regs[i].0,
    ensures
        map_of_pairs(regs).contains_key(regs[i].0),
        map_of_pairs(regs)[regs[i].0] == regs[i].1,
    decreases regs.len(),
{
    if i < regs.len() - 1 {
        assert(regs.drop_last()[i] == regs[i]);
        assert(forall|j: int|
            i < j < regs.len() - 1 ==> regs.drop_last()[j] == regs[j]);
        lemma_last_registration_wins(regs.drop_last(), i);
        assert(regs.last() == regs[regs.len() - 1]);
        assert(regs.last().0 != regs[i].0);
    }
}

/// A pair that no registration ever wrote is absent from the table,
/// whatever else stands in it: the lookup of an unmatched request finds
/// nothing, so no handler is involved and the caller answers with the
/// fixed 404 response.
pub proof fn lemma_unregistered_absent<H>(
    regs: Seq<((Method, Seq<char>), H)>,
    key: (Method, Seq<char>),
)
    requires
        forall|j: int| 0 <= j < regs.len() ==> regs[j].0 != key,
    ensures
        !map_of_pairs(regs).contains_key(key),
{
    lemma_map_of_pairs_absent(regs, key);
}

/// Round-trip of the response encoding, as a standards-compliant client
/// reads it: the encoded bytes end with the body, byte for byte; the
/// Content-Length the body-setting builders wrote parses back to exactly
/// the body's byte length; and the status line carries the decimal status
/// code right after the fixed protocol prefix, parsing back to the code.
pub proof fn lemma_response_round_trip(code: u16, es: Seq<(Seq<char>, Seq<char>)>, body: Seq<u8>)
    requires
        body.len() <= usize::MAX,
        map_of_pairs(es).contains_key("Content-Length"@),
        map_of_pairs(es)["Content-Length"@] == dec_digits(body.len()),
    ensures
        spec_http_bytes(code, es, body).len() >= body.len(),
        spec_http_bytes(code, es, body).subrange(
            spec_http_bytes(code, es, body).len() - body.len(),
            spec_http_bytes(code, es, body).len() as int,
        ) == body,
        parse_usize_chars(map_of_pairs(es)["Content-Length"@]) == Some(body.len()),
        status_line_chars(code).subrange(9, 9 + dec_digits(code as nat).len() as int)
            == dec_digits(code as nat),
        parse_usize_chars(dec_digits(code as nat)) == Some(code as nat),
{
    lemma_dec_parse_round_trip(body.len());
    lemma_dec_parse_round_trip(code as nat);
    reveal_strlit("HTTP/1.1 ");
    assert("HTTP/1.1 "@.len() == 9);
    let d = dec_digits(code as nat);
    assert(status_line_chars(code).subrange(9, 9 + d.len() as int) =~= d);
    let whole = spec_http_bytes(code, es, body);
    assert(whole.subrange(whole.len() - body.len(), whole.len() as int) =~= body);
}

/// What the declared Content-Length yields: a request that decodes
/// returns a body of exactly the declared length, and a Content-Length
/// that is absent, unparseable or zero yields the empty body, whatever
/// bytes follow the head.
pub proof fn lemma_declared_length_is_body_length(b: Seq<u8>)
    requires
        spec_decode_err(b) is None,
    ensures
        spec_body_bytes(b).len() == spec_content_length(b),
        spec_content_length(b) == 0 ==> spec_body_bytes(b) == Seq::<u8>::empty(),
{
    if spec_content_length(b) > 0 {
        lemma_line_end(b, 0);
        lemma_head_end_from(b, spec_rl_end(b));
        assert(spec_head_end(b) + spec_content_length(b) <= b.len());
    }
}

} // verus!
