use vstd::prelude::*;
use vstd::string::StringSliceAdditionalSpecFns;

verus! {

/// The request methods the router understands.
#[derive(Clone, Copy, Debug, PartialEq, Eq, Hash, Structural)]
pub enum Method {
    Get,
    Post,
    Put,
    Delete,
}

/// ASCII upper-casing of a single byte; other bytes are unchanged.
pub open spec fn spec_upper(b: u8) -> u8 {
    if 97 <= b && b <= 122 {
        (b - 32) as u8
    } else {
        b
    }
}

/// ASCII upper-casing of a whole token.
pub open spec fn token_upper(s: Seq<u8>) -> Seq<u8> {
    s.map_values(|b: u8| spec_upper(b))
}

/// The method a raw token denotes: an ASCII-case-insensitive match
/// against the fixed method set, or nothing.
pub open spec fn method_token(s: Seq<u8>) -> Option<Method> {
    if token_upper(s) == seq![71u8, 69u8, 84u8] {  // "GET"
        Some(Method::Get)
    } else if token_upper(s) == seq![80u8, 79u8, 83u8, 84u8] {  // "POST"
        Some(Method::Post)
    } else if token_upper(s) == seq![80u8, 85u8, 84u8] {  // "PUT"
        Some(Method::Put)
    } else if token_upper(s) == seq![68u8, 69u8, 76u8, 69u8, 84u8, 69u8] {  // "DELETE"
        Some(Method::Delete)
    } else {
        None
    }
}

/// ASCII upper-casing of a single byte.
fn upper(b: u8) -> (r: u8)
    ensures
        r == spec_upper(b),
{
    if 97 <= b && b <= 122 {
        b - 32
    } else {
        b
    }
}

impl Method {
    /// Recognizes a method from a raw byte token, ASCII-case-insensitively.
    pub fn from_bytes(s: &[u8]) -> (r: Option<Method>)
        ensures
            r == method_token(s@),
    {
        let n = s.len();
        if n == 3 && upper(s[0]) == 71u8 && upper(s[1]) == 69u8 && upper(s[2]) == 84u8 {
            proof {
                assert(token_upper(s@) =~= seq![71u8, 69u8, 84u8]);
            }
            Some(Method::Get)
        } else if n == 4 && upper(s[0]) == 80u8 && upper(s[1]) == 79u8 && upper(s[2]) == 83u8
            && upper(s[3]) == 84u8 {
            proof {
                assert(token_upper(s@) =~= seq![80u8, 79u8, 83u8, 84u8]);
            }
            Some(Method::Post)
        } else if n == 3 && upper(s[0]) == 80u8 && upper(s[1]) == 85u8 && upper(s[2]) == 84u8 {
            proof {
                assert(token_upper(s@) =~= seq![80u8, 85u8, 84u8]);
            }
            Some(Method::Put)
        } else if n == 6 && upper(s[0]) == 68u8 && upper(s[1]) == 69u8 && upper(s[2]) == 76u8
            && upper(s[3]) == 69u8 && upper(s[4]) == 84u8 && upper(s[5]) == 69u8 {
            proof {
                assert(token_upper(s@) =~= seq![68u8, 69u8, 76u8, 69u8, 84u8, 69u8]);
            }
            Some(Method::Delete)
        } else {
            proof {
                assert(token_upper(s@).len() == s@.len());
                assert(method_token(s@) is None) by {
                    if token_upper(s@) == seq![71u8, 69u8, 84u8] {
                        assert(token_upper(s@)[0] == spec_upper(s@[0]));
                        assert(token_upper(s@)[1] == spec_upper(s@[1]));
                        assert(token_upper(s@)[2] == spec_upper(s@[2]));
                    }
                    if token_upper(s@) == seq![80u8, 79u8, 83u8, 84u8] {
                        assert(token_upper(s@)[0] == spec_upper(s@[0]));
                        assert(token_upper(s@)[1] == spec_upper(s@[1]));
                        assert(token_upper(s@)[2] == spec_upper(s@[2]));
                        assert(token_upper(s@)[3] == spec_upper(s@[3]));
                    }
                    if token_upper(s@) == seq![80u8, 85u8, 84u8] {
                        assert(token_upper(s@)[0] == spec_upper(s@[0]));
                        assert(token_upper(s@)[1] == spec_upper(s@[1]));
                        assert(token_upper(s@)[2] == spec_upper(s@[2]));
                    }
                    if token_upper(s@) == seq![68u8, 69u8, 76u8, 69u8, 84u8, 69u8] {
                        assert(token_upper(s@)[0] == spec_upper(s@[0]));
                        assert(token_upper(s@)[1] == spec_upper(s@[1]));
                        assert(token_upper(s@)[2] == spec_upper(s@[2]));
                        assert(token_upper(s@)[3] == spec_upper(s@[3]));
                        assert(token_upper(s@)[4] == spec_upper(s@[4]));
                        assert(token_upper(s@)[5] == spec_upper(s@[5]));
                    }
                }
            }
            None
        }
    }

    /// Recognizes a method from a string token, ASCII-case-insensitively.
    pub fn from_str(s: &str) -> (r: Option<Method>)
        ensures
            r == method_token(s.spec_bytes()),
    {
        Method::from_bytes(s.as_bytes())
    }

    /// The canonical upper-case spelling of the method.
    pub open spec fn spec_name(self) -> Seq<char> {
        match self {
            Method::Get => "GET"@,
            Method::Post => "POST"@,
            Method::Put => "PUT"@,
            Method::Delete => "DELETE"@,
        }
    }

    /// The canonical upper-case spelling of the method.
    pub fn as_str(self) -> (r: &'static str)
        ensures
            r@ == self.spec_name(),
    {
        match self {
            Method::Get => "GET",
            Method::Post => "POST",
            Method::Put => "PUT",
            Method::Delete => "DELETE",
        }
    }
}

} // verus!
