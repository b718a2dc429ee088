//! The request methods of HTTP/1.1.

use crate::text::same_text;
use vstd::prelude::*;

verus! {

/// A request method. The set is closed: a token that names none of these
/// is no method.
#[derive(Clone, Copy, Debug, PartialEq, Eq, Structural)]
pub enum HTTPMethod {
    GET,
    HEAD,
    POST,
    PUT,
    DELETE,
    CONNECT,
    OPTIONS,
    TRACE,
    PATCH,
}

/// A token names no method.
#[derive(Clone, Copy, Debug, PartialEq, Eq, Structural)]
pub struct MethodError;

impl HTTPMethod {
    /// The token that names this method on the wire.
    pub open spec fn name(self) -> Seq<char> {
        match self {
            HTTPMethod::GET => "GET"@,
            HTTPMethod::HEAD => "HEAD"@,
            HTTPMethod::POST => "POST"@,
            HTTPMethod::PUT => "PUT"@,
            HTTPMethod::DELETE => "DELETE"@,
            HTTPMethod::CONNECT => "CONNECT"@,
            HTTPMethod::OPTIONS => "OPTIONS"@,
            HTTPMethod::TRACE => "TRACE"@,
            HTTPMethod::PATCH => "PATCH"@,
        }
    }

    /// The method that `token` names, letter for letter and in upper
    /// case, if it names one.
    pub open spec fn named(token: Seq<char>) -> Option<HTTPMethod> {
        if token == "GET"@ {
            Some(HTTPMethod::GET)
        } else if token == "HEAD"@ {
            Some(HTTPMethod::HEAD)
        } else if token == "POST"@ {
            Some(HTTPMethod::POST)
        } else if token == "PUT"@ {
            Some(HTTPMethod::PUT)
        } else if token == "DELETE"@ {
            Some(HTTPMethod::DELETE)
        } else if token == "CONNECT"@ {
            Some(HTTPMethod::CONNECT)
        } else if token == "OPTIONS"@ {
            Some(HTTPMethod::OPTIONS)
        } else if token == "TRACE"@ {
            Some(HTTPMethod::TRACE)
        } else if token == "PATCH"@ {
            Some(HTTPMethod::PATCH)
        } else {
            None
        }
    }

    /// Reads a method from its token. Nothing is normalised: `get` is no
    /// method.
    pub fn from_str(s: &str) -> (r: Result<HTTPMethod, MethodError>)
        ensures
            match r {
                Ok(method) => HTTPMethod::named(s@) == Some(method),
                Err(_) => HTTPMethod::named(s@) is None,
            },
    {
        if same_text(s, "GET") {
            Ok(HTTPMethod::GET)
        } else if same_text(s, "HEAD") {
            Ok(HTTPMethod::HEAD)
        } else if same_text(s, "POST") {
            Ok(HTTPMethod::POST)
        } else if same_text(s, "PUT") {
            Ok(HTTPMethod::PUT)
        } else if same_text(s, "DELETE") {
            Ok(HTTPMethod::DELETE)
        } else if same_text(s, "CONNECT") {
            Ok(HTTPMethod::CONNECT)
        } else if same_text(s, "OPTIONS") {
            Ok(HTTPMethod::OPTIONS)
        } else if same_text(s, "TRACE") {
            Ok(HTTPMethod::TRACE)
        } else if same_text(s, "PATCH") {
            Ok(HTTPMethod::PATCH)
        } else {
            Err(MethodError)
        }
    }

    /// The name of a method holds only upper-case letters: no space, no
    /// carriage return, no `?`.
    pub proof fn lemma_name_is_upper_case(self)
        ensures
            self.name().len() > 0,
            forall|i: int| 0 <= i < self.name().len() ==> 'A' <= #[trigger] self.name()[i] <= 'Z',
    {
        reveal_strlit("GET");
        reveal_strlit("HEAD");
        reveal_strlit("POST");
        reveal_strlit("PUT");
        reveal_strlit("DELETE");
        reveal_strlit("CONNECT");
        reveal_strlit("OPTIONS");
        reveal_strlit("TRACE");
        reveal_strlit("PATCH");
    }

    /// Every method is the one that its own name names: the nine names
    /// are distinct.
    pub proof fn lemma_named_name(self)
        ensures
            HTTPMethod::named(self.name()) == Some(self),
    {
        reveal_strlit("GET");
        reveal_strlit("HEAD");
        reveal_strlit("POST");
        reveal_strlit("PUT");
        reveal_strlit("DELETE");
        reveal_strlit("CONNECT");
        reveal_strlit("OPTIONS");
        reveal_strlit("TRACE");
        reveal_strlit("PATCH");
        assert("GET"@.len() == 3 && "GET"@[0] == 'G');
        assert("HEAD"@.len() == 4 && "HEAD"@[0] == 'H');
        assert("POST"@.len() == 4 && "POST"@[0] == 'P');
        assert("PUT"@.len() == 3 && "PUT"@[0] == 'P');
        assert("DELETE"@.len() == 6);
        assert("CONNECT"@.len() == 7 && "CONNECT"@[0] == 'C');
        assert("OPTIONS"@.len() == 7 && "OPTIONS"@[0] == 'O');
        assert("TRACE"@.len() == 5 && "TRACE"@[0] == 'T');
        assert("PATCH"@.len() == 5 && "PATCH"@[0] == 'P');
    }
}

} // verus!
