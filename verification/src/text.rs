use vstd::prelude::*;
use vstd::string::StrSliceExecFns;
use vstd::string::StringSliceAdditionalSpecFns;
use vstd::utf8::{decode_utf8, encode_utf8, valid_utf8};

verus! {

/// Relies on String::from_utf8: succeeds exactly on valid UTF-8, and the
/// string then holds exactly the given bytes.
#[verifier::external_body]
pub(crate) fn bytes_to_string(v: Vec<u8>) -> (r: Option<String>)
    ensures
        r is Some <==> valid_utf8(v@),
        r matches Some(s) ==> s@ == decode_utf8(v@) && encode_utf8(s@) == v@,
{
    String::from_utf8(v).ok()
}

/// Appends a copy of the bytes of `s` to `out`.
pub fn push_bytes(out: &mut Vec<u8>, s: &[u8])
    ensures
        final(out)@ == old(out)@ + s@,
{
    let n = s.len();
    let mut i: usize = 0;
    while i < n
        invariant
            i <= n,
            n == s@.len(),
            out@ == old(out)@ + s@.take(i as int),
        decreases n - i,
    {
        out.push(s[i]);
        proof {
            assert(old(out)@ + s@.take(i + 1) =~= (old(out)@ + s@.take(i as int)).push(
                s@[i as int],
            ));
        }
        i = i + 1;
    }
    proof {
        assert(s@.take(n as int) =~= s@);
    }
}

/// Character-for-character equality of two string slices.
pub fn str_eq(a: &str, b: &str) -> (r: bool)
    ensures
        r == (a@ == b@),
{
    let na = a.unicode_len();
    let nb = b.unicode_len();
    if na != nb {
        return false;
    }
    let mut i: usize = 0;
    while i < na
        invariant
            i <= na,
            na == a@.len(),
            na == b@.len(),
            forall|k: int| 0 <= k < i ==> a@[k] == b@[k],
        decreases na - i,
    {
        if a.get_char(i) != b.get_char(i) {
            return false;
        }
        i = i + 1;
    }
    proof {
        assert(a@ =~= b@);
    }
    true
}

/// Whitespace at the byte level: space, tab, vertical tab, form feed,
/// carriage return and line feed.
pub open spec fn is_ws(b: u8) -> bool {
    b == 32 || b == 9 || b == 10 || b == 11 || b == 12 || b == 13
}

/// The first occurrence of `target` at or after `from`, or the length of
/// `s` when the rest of `s` does not hold it.
pub open spec fn find_byte(s: Seq<u8>, from: int, target: u8) -> int
    recommends
        0 <= from <= s.len(),
    decreases s.len() - from when 0 <= from <= s.len()
{
    if from >= s.len() {
        s.len() as int
    } else if s[from] == target {
        from
    } else {
        find_byte(s, from + 1, target)
    }
}

pub proof fn lemma_find_byte(s: Seq<u8>, from: int, target: u8)
    requires
        0 <= from <= s.len(),
    ensures
        from <= find_byte(s, from, target) <= s.len(),
        forall|k: int| from <= k < find_byte(s, from, target) ==> s[k] != target,
        find_byte(s, from, target) < s.len() ==> s[find_byte(s, from, target)] == target,
    decreases s.len() - from,
{
    if from < s.len() && s[from] != target {
        lemma_find_byte(s, from + 1, target);
    }
}

/// A position with no earlier occurrence, holding the target unless at the
/// end, is the one `find_byte` gives.
pub proof fn lemma_find_byte_is(s: Seq<u8>, from: int, target: u8, r: int)
    requires
        0 <= from <= r <= s.len(),
        forall|k: int| from <= k < r ==> s[k] != target,
        r < s.len() ==> s[r] == target,
    ensures
        find_byte(s, from, target) == r,
{
    lemma_find_byte(s, from, target);
    let f = find_byte(s, from, target);
    if f < r {
        assert(s[f] != target);
    }
    if f > r {
        assert(s[r] != target);
    }
}

/// The first non-whitespace position at or after `from`, or the length of `s`.
pub open spec fn first_non_ws(s: Seq<u8>, from: int) -> int
    recommends
        0 <= from <= s.len(),
    decreases s.len() - from when 0 <= from <= s.len()
{
    if from >= s.len() {
        s.len() as int
    } else if !is_ws(s[from]) {
        from
    } else {
        first_non_ws(s, from + 1)
    }
}

pub proof fn lemma_first_non_ws(s: Seq<u8>, from: int)
    requires
        0 <= from <= s.len(),
    ensures
        from <= first_non_ws(s, from) <= s.len(),
        forall|k: int| from <= k < first_non_ws(s, from) ==> is_ws(s[k]),
        first_non_ws(s, from) < s.len() ==> !is_ws(s[first_non_ws(s, from)]),
    decreases s.len() - from,
{
    if from < s.len() && is_ws(s[from]) {
        lemma_first_non_ws(s, from + 1);
    }
}

/// The first whitespace position at or after `from`, or the length of `s`.
pub open spec fn first_ws(s: Seq<u8>, from: int) -> int
    recommends
        0 <= from <= s.len(),
    decreases s.len() - from when 0 <= from <= s.len()
{
    if from >= s.len() {
        s.len() as int
    } else if is_ws(s[from]) {
        from
    } else {
        first_ws(s, from + 1)
    }
}

pub proof fn lemma_first_ws(s: Seq<u8>, from: int)
    requires
        0 <= from <= s.len(),
    ensures
        from <= first_ws(s, from) <= s.len(),
        forall|k: int| from <= k < first_ws(s, from) ==> !is_ws(s[k]),
        first_ws(s, from) < s.len() ==> is_ws(s[first_ws(s, from)]),
    decreases s.len() - from,
{
    if from < s.len() && !is_ws(s[from]) {
        lemma_first_ws(s, from + 1);
    }
}

/// The least index below which `s.take(until)` keeps no trailing whitespace.
pub open spec fn trim_end_idx(s: Seq<u8>, until: int) -> int
    recommends
        until <= s.len(),
    decreases until when until <= s.len()
{
    if until <= 0 {
        0
    } else if is_ws(s[until - 1]) {
        trim_end_idx(s, until - 1)
    } else {
        until
    }
}

pub proof fn lemma_trim_end_idx(s: Seq<u8>, until: int)
    requires
        0 <= until <= s.len(),
    ensures
        0 <= trim_end_idx(s, until) <= until,
        forall|k: int| trim_end_idx(s, until) <= k < until ==> is_ws(s[k]),
        trim_end_idx(s, until) > 0 ==> !is_ws(s[trim_end_idx(s, until) - 1]),
    decreases until,
{
    if until > 0 && is_ws(s[until - 1]) {
        lemma_trim_end_idx(s, until - 1);
    }
}

/// `s` with leading and trailing whitespace bytes removed.
pub open spec fn spec_trim(s: Seq<u8>) -> Seq<u8> {
    let a = first_non_ws(s, 0);
    let b = trim_end_idx(s, s.len() as int);
    if a >= b {
        Seq::empty()
    } else {
        s.subrange(a, b)
    }
}

/// Whitespace test on one byte.
pub fn is_ws_byte(b: u8) -> (r: bool)
    ensures
        r == is_ws(b),
{
    b == 32 || b == 9 || b == 10 || b == 11 || b == 12 || b == 13
}

/// Whether every byte of `s[from..to]` is whitespace.
pub fn all_ws_in(s: &[u8], from: usize, to: usize) -> (r: bool)
    requires
        from <= to <= s@.len(),
    ensures
        r == (forall|k: int| from <= k < to ==> is_ws(s@[k])),
{
    let mut i: usize = from;
    while i < to
        invariant
            from <= i <= to <= s@.len(),
            forall|k: int| from <= k < i ==> is_ws(s@[k]),
        decreases to - i,
    {
        if !is_ws_byte(s[i]) {
            return false;
        }
        i = i + 1;
    }
    true
}

/// The half-open range of `s` left by trimming whitespace from both ends
/// of `s[from..to]`, as a pair of indices into `s`.
pub fn trim_range(s: &[u8], from: usize, to: usize) -> (r: (usize, usize))
    requires
        from <= to <= s@.len(),
    ensures
        from <= r.0 <= r.1 <= to,
        spec_trim(s@.subrange(from as int, to as int)) == s@.subrange(r.0 as int, r.1 as int),
{
    let ghost t = s@.subrange(from as int, to as int);
    let mut a: usize = from;
    while a < to && is_ws_byte(s[a])
        invariant
            from <= a <= to <= s@.len(),
            t == s@.subrange(from as int, to as int),
            first_non_ws(t, 0) == first_non_ws(t, a - from),
        decreases to - a,
    {
        proof {
            assert(t[a - from] == s@[a as int]);
            assert(first_non_ws(t, a - from) == first_non_ws(t, a - from + 1));
        }
        a = a + 1;
    }
    proof {
        lemma_first_non_ws(t, a - from);
        if a < to {
            assert(t[a - from] == s@[a as int]);
        }
        assert(first_non_ws(t, 0) == a - from);
    }
    let mut b: usize = to;
    while b > a && is_ws_byte(s[b - 1])
        invariant
            from <= a <= b <= to <= s@.len(),
            t == s@.subrange(from as int, to as int),
            trim_end_idx(t, t.len() as int) == trim_end_idx(t, b - from),
        decreases b,
    {
        proof {
            assert(t[b - from - 1] == s@[b - 1]);
            assert(trim_end_idx(t, b - from) == trim_end_idx(t, b - from - 1));
        }
        b = b - 1;
    }
    proof {
        let e = trim_end_idx(t, t.len() as int);
        lemma_trim_end_idx(t, t.len() as int);
        if b > a {
            assert(t[b - from - 1] == s@[b - 1]);
            assert(e == b - from);
            assert(spec_trim(t) =~= s@.subrange(a as int, b as int));
        } else {
            if a < to {
                assert(!is_ws(t[a - from]));
                lemma_trim_end_idx(t, b - from);
                assert(e <= b - from);
                assert(a - from < e ==> is_ws(t[a - from]));
                assert(e <= a - from);
                assert(false);
            }
            assert(spec_trim(t) =~= Seq::<u8>::empty());
            assert(spec_trim(t) =~= s@.subrange(a as int, b as int));
        }
    }
    (a, b)
}

/// The first index at or after `from` holding `target`, or `to` when the
/// range `[from, to)` does not hold it.
pub fn find_byte_in(s: &[u8], from: usize, to: usize, target: u8) -> (r: usize)
    requires
        from <= to <= s@.len(),
    ensures
        from <= r <= to,
        r == find_byte(s@.subrange(from as int, to as int), 0, target) + from,
        forall|k: int| from <= k < r ==> s@[k] != target,
        r < to ==> s@[r as int] == target,
{
    let ghost t = s@.subrange(from as int, to as int);
    let mut i: usize = from;
    while i < to && s[i] != target
        invariant
            from <= i <= to <= s@.len(),
            t == s@.subrange(from as int, to as int),
            find_byte(t, 0, target) == find_byte(t, i - from, target),
            forall|k: int| from <= k < i ==> s@[k] != target,
        decreases to - i,
    {
        proof {
            assert(t[i - from] == s@[i as int]);
            assert(find_byte(t, i - from, target) == find_byte(t, i - from + 1, target));
        }
        i = i + 1;
    }
    proof {
        lemma_find_byte(t, i - from, target);
        if i < to {
            assert(t[i - from] == s@[i as int]);
        }
        assert(find_byte(t, 0, target) == i - from);
    }
    i
}

} // verus!
