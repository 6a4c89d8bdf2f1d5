//! Request methods and the tokens that name them.

use vstd::prelude::*;
use crate::http::text::str_eq;
use core::str::FromStr;

verus! {

/// The request methods that a request line may name.
#[derive(Clone, Copy, Debug, PartialEq, Eq, Structural)]
pub enum Method {
    GET,
    DELETE,
    POST,
    PUT,
    HEAD,
    CONNECT,
    OPTIONS,
    TRACE,
    PATCH,
}

/// Says that a token names no method.
#[derive(Clone, Copy, Debug, PartialEq, Eq, Structural)]
pub struct MethodError;

impl Method {
    /// The token that names this method in a request line.
    pub open spec fn token(self) -> Seq<char> {
        match self {
            Method::GET => seq!['G', 'E', 'T'],
            Method::DELETE => seq!['D', 'E', 'L', 'E', 'T', 'E'],
            Method::POST => seq!['P', 'O', 'S', 'T'],
            Method::PUT => seq!['P', 'U', 'T'],
            Method::HEAD => seq!['H', 'E', 'A', 'D'],
            Method::CONNECT => seq!['C', 'O', 'N', 'N', 'E', 'C', 'T'],
            Method::OPTIONS => seq!['O', 'P', 'T', 'I', 'O', 'N', 'S'],
            Method::TRACE => seq!['T', 'R', 'A', 'C', 'E'],
            Method::PATCH => seq!['P', 'A', 'T', 'C', 'H'],
        }
    }

    /// The method that `token` names, letter for letter and in upper case;
    /// `None` for every other token.
    pub open spec fn named(token: Seq<char>) -> Option<Method> {
        if exists|m: Method| #[trigger] m.token() == token {
            Some(choose|m: Method| #[trigger] m.token() == token)
        } else {
            None
        }
    }

    /// No two methods share a token.
    pub proof fn lemma_tokens_differ(m1: Method, m2: Method)
        requires
            m1.token() == m2.token(),
        ensures
            m1 == m2,
    {
        let t1 = m1.token();
        let t2 = m2.token();
        assert(t1.len() == t2.len());
        assert(t1[0] == t2[0]);
        assert(t1[1] == t2[1]);
    }

    /// A token names the method `m` exactly when it is `m`'s token.
    pub proof fn lemma_named(token: Seq<char>, m: Method)
        ensures
            Method::named(token) == Some(m) <==> token == m.token(),
    {
        if token == m.token() {
            let c = choose|c: Method| #[trigger] c.token() == token;
            Method::lemma_tokens_differ(c, m);
        }
    }
}

impl FromStr for Method {
    type Err = MethodError;

    /// Resolves a method token. The match is exact and case-sensitive.
    fn from_str(s: &str) -> (r: Result<Self, Self::Err>)
        ensures
            r == match Method::named(s@) {
                Some(m) => Ok::<Method, MethodError>(m),
                None => Err(MethodError),
            },
    {
        proof {
            reveal_strlit("GET");
            reveal_strlit("DELETE");
            reveal_strlit("POST");
            reveal_strlit("PUT");
            reveal_strlit("HEAD");
            reveal_strlit("CONNECT");
            reveal_strlit("OPTIONS");
            reveal_strlit("TRACE");
            reveal_strlit("PATCH");
            assert("GET"@ =~= Method::GET.token());
            assert("DELETE"@ =~= Method::DELETE.token());
            assert("POST"@ =~= Method::POST.token());
            assert("PUT"@ =~= Method::PUT.token());
            assert("HEAD"@ =~= Method::HEAD.token());
            assert("CONNECT"@ =~= Method::CONNECT.token());
            assert("OPTIONS"@ =~= Method::OPTIONS.token());
            assert("TRACE"@ =~= Method::TRACE.token());
            assert("PATCH"@ =~= Method::PATCH.token());
        }
        let found = if str_eq(s, "GET") {
            Some(Method::GET)
        } else if str_eq(s, "DELETE") {
            Some(Method::DELETE)
        } else if str_eq(s, "POST") {
            Some(Method::POST)
        } else if str_eq(s, "PUT") {
            Some(Method::PUT)
        } else if str_eq(s, "HEAD") {
            Some(Method::HEAD)
        } else if str_eq(s, "CONNECT") {
            Some(Method::CONNECT)
        } else if str_eq(s, "OPTIONS") {
            Some(Method::OPTIONS)
        } else if str_eq(s, "TRACE") {
            Some(Method::TRACE)
        } else if str_eq(s, "PATCH") {
            Some(Method::PATCH)
        } else {
            None
        };
        match found {
            Some(m) => {
                proof {
                    Method::lemma_named(s@, m);
                }
                Ok(m)
            },
            None => {
                assert(Method::named(s@) is None) by {
                    if exists|m: Method| #[trigger] m.token() == s@ {
                        let m = choose|m: Method| #[trigger] m.token() == s@;
                        assert(m.token() == s@);
                    }
                }
                Err(MethodError)
            },
        }
    }
}

} // verus!
