//! The request line: method, target and protocol, read from the bytes that
//! came over the wire.

use crate::method::{HTTPMethod, MethodError};
use crate::query::{parse_query, QueryString, ValueView};
use crate::text::{
    after_stop, before_stop, first_stop, has_stop, lemma_first_stop, lemma_first_stop_is,
    next_word, same_text, split_once, word_breaks, QUESTION_MARK,
};
use vstd::prelude::*;
use vstd::std_specs::convert::FromSpecImpl;
use vstd::utf8::*;

verus! {

/// Why a buffer is no request.
#[derive(Clone, Copy, Debug, PartialEq, Eq, Structural)]
pub enum RequestError {
    /// The request line has fewer than three words.
    Request,
    /// The third word is not `HTTP/1.1`.
    Protocol,
    /// The buffer is not valid UTF-8.
    Encode,
    /// The first word names no method.
    Method,
}

impl RequestError {
    /// The message of each error.
    pub open spec fn text(self) -> Seq<char> {
        match self {
            RequestError::Request => "invalid request"@,
            RequestError::Protocol => "invalid protocol"@,
            RequestError::Encode => "invalid encoding"@,
            RequestError::Method => "invalid method"@,
        }
    }

    /// A short description of the error.
    pub fn msg(&self) -> (r: &str)
        ensures
            r@ == self.text(),
    {
        match self {
            RequestError::Request => "invalid request",
            RequestError::Protocol => "invalid protocol",
            RequestError::Encode => "invalid encoding",
            RequestError::Method => "invalid method",
        }
    }
}

impl From<MethodError> for RequestError {
    fn from(_error: MethodError) -> (r: Self) {
        RequestError::Method
    }
}

impl FromSpecImpl<MethodError> for RequestError {
    open spec fn obeys_from_spec() -> bool {
        true
    }

    open spec fn from_spec(_error: MethodError) -> Self {
        RequestError::Method
    }
}

/// A request as text: its method, its path, and the table of its query
/// string if the target has one.
pub struct RequestView {
    pub method: HTTPMethod,
    pub path: Seq<char>,
    pub query_string: Option<Map<Seq<char>, ValueView>>,
}

/// The first three words of `text`: method, target and protocol. `None`
/// if fewer than three words end in a space or a carriage return.
pub open spec fn request_line(text: Seq<char>) -> Option<(Seq<char>, Seq<char>, Seq<char>)> {
    let breaks = word_breaks();
    let after_method = after_stop(text, breaks);
    let after_target = after_stop(after_method, breaks);
    if has_stop(text, breaks) && has_stop(after_method, breaks) && has_stop(after_target, breaks) {
        Some(
            (
                before_stop(text, breaks),
                before_stop(after_method, breaks),
                before_stop(after_target, breaks),
            ),
        )
    } else {
        None
    }
}

/// The path of a request target: what stands before its first `?`.
pub open spec fn path_of(target: Seq<char>) -> Seq<char> {
    before_stop(target, set!['?'])
}

/// The query of a request target: the table of what follows its first
/// `?`, if it has one.
pub open spec fn query_of(target: Seq<char>) -> Option<Map<Seq<char>, ValueView>> {
    if has_stop(target, set!['?']) {
        Some(parse_query(after_stop(target, set!['?'])))
    } else {
        None
    }
}

/// What a buffer holds: the request that its first line states, or the
/// reason why it states none. The checks come in this order: the
/// encoding, the three words, the protocol, the method.
pub open spec fn parse_request(bytes: Seq<u8>) -> Result<RequestView, RequestError> {
    if !valid_utf8(bytes) {
        Err(RequestError::Encode)
    } else {
        match request_line(decode_utf8(bytes)) {
            None => Err(RequestError::Request),
            Some((method, target, protocol)) => {
                if protocol != "HTTP/1.1"@ {
                    Err(RequestError::Protocol)
                } else {
                    match HTTPMethod::named(method) {
                        None => Err(RequestError::Method),
                        Some(method) => Ok(
                            RequestView {
                                method,
                                path: path_of(target),
                                query_string: query_of(target),
                            },
                        ),
                    }
                }
            },
        }
    }
}

/// The path of a request holds no `?`: the query string is split off it.
pub proof fn lemma_path_has_no_query(bytes: Seq<u8>)
    ensures
        parse_request(bytes) matches Ok(request) ==> !has_stop(request.path, set!['?']),
{
    if parse_request(bytes) is Ok {
        let target = request_line(decode_utf8(bytes))->Some_0.1;
        lemma_first_stop(target, set!['?']);
        lemma_first_stop_is(path_of(target), set!['?'], path_of(target).len() as int);
    }
}

/// A request line made of the name of a method, a space, a target, a
/// space and `HTTP/1.1` with the end of the line is read as that method
/// with the target as its path and no query string, whenever the target
/// holds no `?`, no space and no carriage return.
pub proof fn lemma_plain_request_line(method: HTTPMethod, path: Seq<char>)
    requires
        !has_stop(path, set!['?']),
        !has_stop(path, word_breaks()),
    ensures
        parse_request(encode_utf8(method.name() + " "@ + path + " HTTP/1.1\r\n"@)) == Ok::<
            RequestView,
            RequestError,
        >(RequestView { method, path, query_string: None }),
{
    let breaks = word_breaks();
    let name = method.name();
    let tail = " HTTP/1.1\r\n"@;
    let text = name + " "@ + path + tail;
    reveal_strlit(" ");
    reveal_strlit(" HTTP/1.1\r\n");
    reveal_strlit("HTTP/1.1");
    encode_utf8_valid_utf8(text);
    encode_utf8_decode_utf8(text);
    method.lemma_name_is_upper_case();
    method.lemma_named_name();

    assert(first_stop(text, breaks) == name.len()) by {
        assert forall|j: int| 0 <= j < name.len() implies !breaks.contains(#[trigger] text[j]) by {
            assert(text[j] == name[j]);
        }
        assert(text[name.len() as int] == ' ');
        lemma_first_stop_is(text, breaks, name.len() as int);
    }
    assert(before_stop(text, breaks) =~= name);
    let after_method = after_stop(text, breaks);
    assert(after_method =~= path + tail);

    lemma_first_stop(path, breaks);
    assert(first_stop(after_method, breaks) == path.len()) by {
        assert forall|j: int| 0 <= j < path.len() implies !breaks.contains(
            #[trigger] after_method[j],
        ) by {
            assert(after_method[j] == path[j]);
        }
        assert(after_method[path.len() as int] == tail[0]);
        lemma_first_stop_is(after_method, breaks, path.len() as int);
    }
    assert(before_stop(after_method, breaks) =~= path);
    let after_target = after_stop(after_method, breaks);
    assert(after_target =~= tail.skip(1));

    assert(first_stop(after_target, breaks) == 8) by {
        assert forall|j: int| 0 <= j < 8 implies !breaks.contains(#[trigger] after_target[j]) by {
            assert(after_target[j] == tail[j + 1]);
        }
        assert(after_target[8] == tail[9]);
        lemma_first_stop_is(after_target, breaks, 8);
    }
    assert(before_stop(after_target, breaks) =~= "HTTP/1.1"@);

    lemma_first_stop(path, set!['?']);
    assert(path_of(path) =~= path);
}

/// A request: its method, its path and its parameters. The path and the
/// parameters borrow from the buffer that the request was read from.
#[derive(Debug)]
pub struct Request<'buf> {
    method: HTTPMethod,
    path: &'buf str,
    query_string: Option<QueryString<'buf>>,
}

impl<'buf> View for Request<'buf> {
    type V = RequestView;

    closed spec fn view(&self) -> RequestView {
        RequestView {
            method: self.method,
            path: self.path@,
            query_string: match self.query_string {
                Some(query) => Some(query@),
                None => None,
            },
        }
    }
}

impl<'buf> Request<'buf> {
    /// The query string is split off before the path is stored.
    #[verifier::type_invariant]
    spec fn path_has_no_query(&self) -> bool {
        !has_stop(self.path@, set!['?'])
    }

    /// The path of the request.
    pub fn path(&self) -> (r: &str)
        ensures
            r@ == self@.path,
            !has_stop(r@, set!['?']),
    {
        proof {
            use_type_invariant(self);
        }
        self.path
    }

    /// The method of the request.
    pub fn method(&self) -> (r: &HTTPMethod)
        ensures
            *r == self@.method,
    {
        &self.method
    }

    /// The parameters of the request, if its target had a query string.
    pub fn query_string(&self) -> (r: Option<&QueryString<'buf>>)
        ensures
            match r {
                Some(query) => self@.query_string == Some(query@),
                None => self@.query_string is None,
            },
    {
        self.query_string.as_ref()
    }

    /// Reads a request from a buffer. Only the request line is read;
    /// whatever follows its third word is left alone.
    pub fn try_from(buf: &'buf [u8]) -> (r: Result<Request<'buf>, RequestError>)
        ensures
            match r {
                Ok(request) => parse_request(buf@) == Ok::<RequestView, RequestError>(request@),
                Err(error) => parse_request(buf@) == Err::<RequestView, RequestError>(error),
            },
            !valid_utf8(buf@) ==> (r matches Err(error) && error == RequestError::Encode),
            valid_utf8(buf@) && request_line(decode_utf8(buf@)) is None ==> (r matches Err(error)
                && error == RequestError::Request),
            valid_utf8(buf@) && (request_line(decode_utf8(buf@)) matches Some(words) && words.2
                != "HTTP/1.1"@) ==> (r matches Err(error) && error == RequestError::Protocol),
    {
        let text = match core::str::from_utf8(buf) {
            Ok(text) => text,
            Err(_) => {
                return Err(RequestError::Encode);
            },
        };
        proof {
            encode_utf8_decode_utf8(text@);
        }
        let (method, rest) = match next_word(text) {
            Some(found) => found,
            None => {
                return Err(RequestError::Request);
            },
        };
        let (target, rest) = match next_word(rest) {
            Some(found) => found,
            None => {
                return Err(RequestError::Request);
            },
        };
        let (protocol, _) = match next_word(rest) {
            Some(found) => found,
            None => {
                return Err(RequestError::Request);
            },
        };
        if !same_text(protocol, "HTTP/1.1") {
            return Err(RequestError::Protocol);
        }
        let method = match HTTPMethod::from_str(method) {
            Ok(method) => method,
            Err(error) => {
                return Err(RequestError::from(error));
            },
        };
        proof {
            lemma_first_stop(target@, set!['?']);
        }
        match split_once(target, QUESTION_MARK) {
            Some((path, query)) => {
                proof {
                    lemma_first_stop_is(path@, set!['?'], path@.len() as int);
                }
                let query_string = QueryString::from(query);
                Ok(Request { method, path, query_string: Some(query_string) })
            },
            None => {
                assert(target@ =~= path_of(target@));
                Ok(Request { method, path: target, query_string: None })
            },
        }
    }
}

} // verus!
