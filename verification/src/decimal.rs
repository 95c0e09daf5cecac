use vstd::prelude::*;
use vstd::string::StrSliceExecFns;
use vstd::string::StringExecFns;

verus! {

/// The character for one decimal digit.
pub open spec fn digit_char(d: nat) -> char
    recommends
        d < 10,
{
    ((48 + d) as u8) as char
}

/// The decimal rendering of `n`, most significant digit first, with no
/// sign and no leading zero except for zero itself.
pub open spec fn dec_digits(n: nat) -> Seq<char>
    decreases n,
{
    if n < 10 {
        seq![digit_char(n)]
    } else {
        dec_digits(n / 10) + seq![digit_char(n % 10)]
    }
}

/// Whether `c` is a decimal digit.
pub open spec fn is_digit(c: char) -> bool {
    48 <= c as int <= 57
}

/// The numeric value of a decimal digit character.
pub open spec fn char_digit(c: char) -> nat
    recommends
        is_digit(c),
{
    (c as int - 48) as nat
}

/// Whether every character of `s` is a decimal digit.
pub open spec fn all_digits(s: Seq<char>) -> bool {
    forall|i: int| 0 <= i < s.len() ==> is_digit(s[i])
}

/// The numeric value of a digit string, most significant digit first.
pub open spec fn digits_val(s: Seq<char>) -> nat
    recommends
        all_digits(s),
    decreases s.len(),
{
    if s.len() == 0 {
        0
    } else {
        digits_val(s.drop_last()) * 10 + char_digit(s.last())
    }
}

/// What `str::parse::<usize>` accepts: an optional leading plus sign, then
/// one or more digits, valuing at most `usize::MAX`; and the value it gives.
pub open spec fn parse_usize_chars(s: Seq<char>) -> Option<nat> {
    let t = if s.len() > 0 && s[0] == '+' {
        s.drop_first()
    } else {
        s
    };
    if t.len() > 0 && all_digits(t) && digits_val(t) <= usize::MAX as nat {
        Some(digits_val(t))
    } else {
        None
    }
}

/// A digit string values at least as much as any of its prefixes.
pub proof fn lemma_digits_val_prefix(s: Seq<char>, i: int)
    requires
        0 <= i <= s.len(),
    ensures
        digits_val(s.take(i)) <= digits_val(s),
    decreases s.len() - i,
{
    if i < s.len() {
        assert(s.take(i + 1).drop_last() =~= s.take(i));
        assert(s.take(i + 1).last() == s[i]);
        assert(digits_val(s.take(i)) <= digits_val(s.take(i)) * 10);
        lemma_digits_val_prefix(s, i + 1);
    } else {
        assert(s.take(i) =~= s);
    }
}

/// Rendering a number gives digits only, at least one of them.
pub proof fn lemma_dec_digits_shape(n: nat)
    ensures
        dec_digits(n).len() >= 1,
        all_digits(dec_digits(n)),
        dec_digits(n)[0] != '+',
    decreases n,
{
    if n < 10 {
        assert(is_digit(dec_digits(n)[0]));
    } else {
        lemma_dec_digits_shape(n / 10);
        assert forall|i: int| 0 <= i < dec_digits(n).len() implies is_digit(
            dec_digits(n)[i],
        ) by {
            if i < dec_digits(n / 10).len() {
                assert(dec_digits(n)[i] == dec_digits(n / 10)[i]);
            } else {
                assert(dec_digits(n)[i] == digit_char(n % 10));
            }
        }
    }
}

/// Parsing a rendered number gives the number back.
pub proof fn lemma_dec_parse_round_trip(n: nat)
    ensures
        digits_val(dec_digits(n)) == n,
        n <= usize::MAX as nat ==> parse_usize_chars(dec_digits(n)) == Some(n),
    decreases n,
{
    lemma_dec_digits_shape(n);
    let ds = dec_digits(n);
    if n < 10 {
        assert(char_digit(digit_char(n)) == n);
        assert(ds.drop_last() =~= Seq::<char>::empty());
        assert(digits_val(ds.drop_last()) == 0);
        assert(digits_val(ds) == digits_val(ds.drop_last()) * 10 + char_digit(ds.last()));
    } else {
        lemma_dec_parse_round_trip(n / 10);
        assert(char_digit(digit_char(n % 10)) == n % 10);
        assert(ds.drop_last() =~= dec_digits(n / 10));
        assert(ds.last() == digit_char(n % 10));
        assert(digits_val(ds) == digits_val(ds.drop_last()) * 10 + char_digit(ds.last()));
    }
    assert(digits_val(dec_digits(n)) == n);
    if n <= usize::MAX as nat {
        let s = dec_digits(n);
        assert(s[0] != '+');
        assert(parse_usize_chars(s) == Some(n));
    }
}

/// The string for one decimal digit.
fn digit_str(d: usize) -> (r: &'static str)
    requires
        d < 10,
    ensures
        r@ == seq![digit_char(d as nat)],
{
    let r: &'static str = match d {
        0 => "0",
        1 => "1",
        2 => "2",
        3 => "3",
        4 => "4",
        5 => "5",
        6 => "6",
        7 => "7",
        8 => "8",
        _ => "9",
    };
    proof {
        reveal_strlit("0");
        reveal_strlit("1");
        reveal_strlit("2");
        reveal_strlit("3");
        reveal_strlit("4");
        reveal_strlit("5");
        reveal_strlit("6");
        reveal_strlit("7");
        reveal_strlit("8");
        reveal_strlit("9");
        assert(r@ =~= seq![digit_char(d as nat)]);
    }
    r
}

/// Renders `n` in decimal.
pub fn dec_string(n: usize) -> (s: String)
    ensures
        s@ == dec_digits(n as nat),
    decreases n,
{
    if n < 10 {
        String::from_str(digit_str(n))
    } else {
        let mut s = dec_string(n / 10);
        s.append(digit_str(n % 10));
        proof {
            assert(s@ =~= dec_digits(n as nat));
        }
        s
    }
}

/// Parses `s` as `str::parse::<usize>` would: an optional leading plus
/// sign, then one or more digits, rejecting overflow.
pub fn parse_dec(s: &str) -> (r: Option<usize>)
    ensures
        r is Some <==> parse_usize_chars(s@) is Some,
        r matches Some(v) ==> parse_usize_chars(s@) == Some(v as nat),
{
    let n = s.unicode_len();
    if n == 0 {
        return None;
    }
    let start: usize = if s.get_char(0) == '+' {
        1
    } else {
        0
    };
    let ghost t = if s@[0] == '+' {
        s@.drop_first()
    } else {
        s@
    };
    proof {
        assert(t =~= s@.subrange(start as int, n as int));
    }
    if n == start {
        return None;
    }
    let mut val: usize = 0;
    let mut i: usize = start;
    while i < n
        invariant
            start <= 1,
            start <= i <= n,
            n == s@.len(),
            start == 1 ==> s@[0] == '+',
            start == 0 ==> (s@.len() == 0 || s@[0] != '+'),
            t == s@.subrange(start as int, n as int),
            t.len() == n - start,
            forall|k: int| 0 <= k < i - start ==> is_digit(t[k]),
            val as nat == digits_val(t.take(i - start)),
        decreases n - i,
    {
        let c = s.get_char(i);
        let u = c as u32;
        if u < 48 || u > 57 {
            proof {
                assert(t[i - start] == s@[i as int]);
                assert(!is_digit(t[i - start]));
                assert(!all_digits(t)) by {
                    assert(0 <= i - start < t.len());
                    assert(!is_digit(t[i - start]));
                }
                assert(s@.len() > 0);
                if start == 1 {
                    assert(s@[0] == '+');
                    assert(t == s@.drop_first());
                } else {
                    assert(s@[0] != '+');
                    assert(t =~= s@);
                    assert(t == s@);
                }
                assert(parse_usize_chars(s@) is None);
            }
            return None;
        }
        let d = (u - 48) as usize;
        proof {
            assert(t[i - start] == s@[i as int]);
            assert(is_digit(t[i - start]));
            assert(char_digit(t[i - start]) == d as nat);
            assert(t.take(i - start + 1).drop_last() =~= t.take(i - start));
            assert(t.take(i - start + 1).last() == t[i - start]);
        }
        if val > (usize::MAX - d) / 10 {
            proof {
                assert(val * 10 + d > usize::MAX) by {
                    let q = (usize::MAX - d) / 10;
                    assert(val >= q + 1);
                    assert(val * 10 >= (q + 1) * 10) by (nonlinear_arith)
                        requires
                            val >= q + 1,
                    ;
                    assert((q + 1) * 10 == q * 10 + 10);
                    assert(q * 10 + 10 > usize::MAX - d);
                }
                assert(digits_val(t.take(i - start + 1)) > usize::MAX as nat);
                lemma_digits_val_prefix(t, i - start + 1);
                assert(digits_val(t) > usize::MAX as nat);
                if start == 0 {
                    assert(t =~= s@);
                }
                assert(parse_usize_chars(s@) is None);
            }
            return None;
        }
        proof {
            let q = (usize::MAX - d) / 10;
            assert(val <= q);
            assert(val * 10 <= q * 10) by (nonlinear_arith)
                requires
                    val <= q,
            ;
            assert(q * 10 <= usize::MAX - d);
        }
        val = val * 10 + d;
        i = i + 1;
    }
    proof {
        assert(t.take(i - start) =~= t);
        assert(all_digits(t));
        if start == 0 {
            assert(t =~= s@);
        }
        assert(parse_usize_chars(s@) == Some(val as nat));
    }
    Some(val)
}

} // verus!
