//! The closed set of HTTP request methods and the mapping between a
//! method and its token on the wire.

use vstd::prelude::*;
use vstd::string::StringSliceAdditionalSpecFns;

verus! {

/// The HTTP verbs this server understands. Any other token in a request
/// line is a parse error, never a default.
#[derive(Clone, Copy, Debug, PartialEq, Eq, Hash, Structural)]
pub enum Method {
    Connect,
    Delete,
    Get,
    Head,
    Options,
    Patch,
    Post,
    Put,
    Trace,
}

/// Returned when a request-line token names no known method.
#[derive(Clone, Copy, Debug, PartialEq, Eq, Structural)]
pub struct MethodParseError;

/// The wire token of a method, as bytes.
pub open spec fn spec_token(m: Method) -> Seq<u8> {
    match m {
        Method::Connect => seq!['C' as u8, 'O' as u8, 'N' as u8, 'N' as u8, 'E' as u8, 'C' as u8, 'T' as u8],
        Method::Delete => seq!['D' as u8, 'E' as u8, 'L' as u8, 'E' as u8, 'T' as u8, 'E' as u8],
        Method::Get => seq!['G' as u8, 'E' as u8, 'T' as u8],
        Method::Head => seq!['H' as u8, 'E' as u8, 'A' as u8, 'D' as u8],
        Method::Options => seq!['O' as u8, 'P' as u8, 'T' as u8, 'I' as u8, 'O' as u8, 'N' as u8, 'S' as u8],
        Method::Patch => seq!['P' as u8, 'A' as u8, 'T' as u8, 'C' as u8, 'H' as u8],
        Method::Post => seq!['P' as u8, 'O' as u8, 'S' as u8, 'T' as u8],
        Method::Put => seq!['P' as u8, 'U' as u8, 'T' as u8],
        Method::Trace => seq!['T' as u8, 'R' as u8, 'A' as u8, 'C' as u8, 'E' as u8],
    }
}

/// The method whose token is `t`, if any. Matching is exact and
/// case-sensitive.
pub open spec fn spec_method_of_token(t: Seq<u8>) -> Option<Method> {
    if t == spec_token(Method::Get) {
        Some(Method::Get)
    } else if t == spec_token(Method::Post) {
        Some(Method::Post)
    } else if t == spec_token(Method::Delete) {
        Some(Method::Delete)
    } else if t == spec_token(Method::Put) {
        Some(Method::Put)
    } else if t == spec_token(Method::Options) {
        Some(Method::Options)
    } else if t == spec_token(Method::Connect) {
        Some(Method::Connect)
    } else if t == spec_token(Method::Head) {
        Some(Method::Head)
    } else if t == spec_token(Method::Patch) {
        Some(Method::Patch)
    } else if t == spec_token(Method::Trace) {
        Some(Method::Trace)
    } else {
        None
    }
}

/// Parsing a method's own token always gives that method back.
pub proof fn lemma_token_round_trip(m: Method)
    ensures
        spec_method_of_token(spec_token(m)) == Some(m),
{
    match m {
        Method::Connect => {
            assert(spec_token(Method::Connect) != spec_token(Method::Get));
        },
        _ => {},
    }
}

impl Method {
    /// Decode a wire token into a method, or report that it is unknown.
    pub fn from_token(t: &[u8]) -> (r: Result<Method, MethodParseError>)
        ensures
            match r {
                Ok(m) => spec_method_of_token(t@) == Some(m),
                Err(_) => spec_method_of_token(t@) is None,
            },
    {
        let n = t.len();
        if n == 3 && t[0] == 71 && t[1] == 69 && t[2] == 84 {
            assert(t@ =~= spec_token(Method::Get));
            Ok(Method::Get)
        } else if n == 4 && t[0] == 80 && t[1] == 79 && t[2] == 83 && t[3] == 84 {
            assert(t@ =~= spec_token(Method::Post));
            Ok(Method::Post)
        } else if n == 6 && t[0] == 68 && t[1] == 69 && t[2] == 76 && t[3] == 69 && t[4]
            == 84 && t[5] == 69 {
            assert(t@ =~= spec_token(Method::Delete));
            Ok(Method::Delete)
        } else if n == 3 && t[0] == 80 && t[1] == 85 && t[2] == 84 {
            assert(t@ =~= spec_token(Method::Put));
            Ok(Method::Put)
        } else if n == 7 && t[0] == 79 && t[1] == 80 && t[2] == 84 && t[3] == 73 && t[4]
            == 79 && t[5] == 78 && t[6] == 83 {
            assert(t@ =~= spec_token(Method::Options));
            Ok(Method::Options)
        } else if n == 7 && t[0] == 67 && t[1] == 79 && t[2] == 78 && t[3] == 78 && t[4]
            == 69 && t[5] == 67 && t[6] == 84 {
            assert(t@ =~= spec_token(Method::Connect));
            Ok(Method::Connect)
        } else if n == 4 && t[0] == 72 && t[1] == 69 && t[2] == 65 && t[3] == 68 {
            assert(t@ =~= spec_token(Method::Head));
            Ok(Method::Head)
        } else if n == 5 && t[0] == 80 && t[1] == 65 && t[2] == 84 && t[3] == 67 && t[4]
            == 72 {
            assert(t@ =~= spec_token(Method::Patch));
            Ok(Method::Patch)
        } else if n == 5 && t[0] == 84 && t[1] == 82 && t[2] == 65 && t[3] == 67 && t[4]
            == 69 {
            assert(t@ =~= spec_token(Method::Trace));
            Ok(Method::Trace)
        } else {
            Err(MethodParseError)
        }
    }

    /// Decode a textual method token, as it comes out of a header block
    /// that was already turned into text.
    pub fn from_str(text: &str) -> (r: Result<Method, MethodParseError>)
        ensures
            match r {
                Ok(m) => spec_method_of_token(text.spec_bytes()) == Some(m),
                Err(_) => spec_method_of_token(text.spec_bytes()) is None,
            },
    {
        Method::from_token(text.as_bytes())
    }

    /// The wire token of this method, freshly allocated.
    pub fn token_bytes(&self) -> (r: Vec<u8>)
        ensures
            r@ == spec_token(*self),
    {
        let mut v: Vec<u8> = Vec::new();
        match self {
            Method::Connect => {
                v.push(67);
                v.push(79);
                v.push(78);
                v.push(78);
                v.push(69);
                v.push(67);
                v.push(84);
            },
            Method::Delete => {
                v.push(68);
                v.push(69);
                v.push(76);
                v.push(69);
                v.push(84);
                v.push(69);
            },
            Method::Get => {
                v.push(71);
                v.push(69);
                v.push(84);
            },
            Method::Head => {
                v.push(72);
                v.push(69);
                v.push(65);
                v.push(68);
            },
            Method::Options => {
                v.push(79);
                v.push(80);
                v.push(84);
                v.push(73);
                v.push(79);
                v.push(78);
                v.push(83);
            },
            Method::Patch => {
                v.push(80);
                v.push(65);
                v.push(84);
                v.push(67);
                v.push(72);
            },
            Method::Post => {
                v.push(80);
                v.push(79);
                v.push(83);
                v.push(84);
            },
            Method::Put => {
                v.push(80);
                v.push(85);
                v.push(84);
            },
            Method::Trace => {
                v.push(84);
                v.push(82);
                v.push(65);
                v.push(67);
                v.push(69);
            },
        }
        assert(v@ =~= spec_token(*self));
        v
    }
}

} // verus!
