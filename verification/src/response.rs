//! Responses and the bytes they are sent as.

use vstd::prelude::*;
use vstd::string::*;
use vstd::utf8::*;

verus! {

/// The status of a response.
#[derive(Clone, Copy, Debug, PartialEq, Eq, Structural)]
pub enum StatusCode {
    StatusOk,
    StatusBadRequest,
    StatusNotFound,
}

impl StatusCode {
    /// The number of the status.
    pub open spec fn code(self) -> nat {
        match self {
            StatusCode::StatusOk => 200,
            StatusCode::StatusBadRequest => 400,
            StatusCode::StatusNotFound => 404,
        }
    }

    /// The reason phrase of the status.
    pub open spec fn reason(self) -> Seq<char> {
        match self {
            StatusCode::StatusOk => "ok"@,
            StatusCode::StatusBadRequest => "bad request"@,
            StatusCode::StatusNotFound => "not found"@,
        }
    }

    /// The number of the status.
    pub fn as_u32(&self) -> (n: u32)
        ensures
            n == self.code(),
    {
        match self {
            StatusCode::StatusOk => 200,
            StatusCode::StatusBadRequest => 400,
            StatusCode::StatusNotFound => 404,
        }
    }

    /// The reason phrase of the status.
    pub fn msg(&self) -> (r: &str)
        ensures
            r@ == self.reason(),
    {
        match self {
            StatusCode::StatusOk => "ok",
            StatusCode::StatusBadRequest => "bad request",
            StatusCode::StatusNotFound => "not found",
        }
    }
}

/// The character of a decimal digit.
pub open spec fn digit(d: nat) -> char
    recommends
        d < 10,
{
    ((0x30 + d) as u8) as char
}

/// A number in decimal notation, without leading zeros.
pub open spec fn decimal(n: nat) -> Seq<char>
    decreases n,
{
    if n < 10 {
        seq![digit(n)]
    } else {
        decimal(n / 10).push(digit(n % 10))
    }
}

/// A response as text: its status and its body, if it has one.
pub struct ResponseView {
    pub status_code: StatusCode,
    pub body: Option<Seq<char>>,
}

impl ResponseView {
    /// The response as it is written: the status line, an empty line, and
    /// the body. No header is written.
    pub open spec fn text(self) -> Seq<char> {
        "HTTP/1.1 "@ + decimal(self.status_code.code()) + " "@ + self.status_code.reason()
            + "\r\n\r\n"@ + match self.body {
            Some(body) => body,
            None => Seq::empty(),
        }
    }

    /// The bytes of the response on the wire.
    pub open spec fn wire(self) -> Seq<u8> {
        encode_utf8(self.text())
    }
}

/// The encoding of a text in two parts is the encoding of the first part
/// followed by that of the second.
pub proof fn lemma_encode_concat(a: Seq<char>, b: Seq<char>)
    ensures
        encode_utf8(a + b) == encode_utf8(a) + encode_utf8(b),
    decreases a.len(),
{
    if a.len() == 0 {
        assert(a + b =~= b);
        assert(encode_utf8(a) + encode_utf8(b) =~= encode_utf8(b));
    } else {
        assert((a + b).drop_first() =~= a.drop_first() + b);
        lemma_encode_concat(a.drop_first(), b);
        assert(encode_utf8(a + b) =~= encode_utf8(a) + encode_utf8(b));
    }
}

/// Appends the bytes of a text.
fn write_text(stream: &mut Vec<u8>, text: &str)
    ensures
        final(stream)@ == old(stream)@ + encode_utf8(text@),
{
    stream.extend_from_slice(text.as_bytes());
    assert(stream@ =~= old(stream)@ + encode_utf8(text@));
}

/// Appends a number in decimal notation.
fn write_decimal(stream: &mut Vec<u8>, n: u32)
    ensures
        final(stream)@ == old(stream)@ + encode_utf8(decimal(n as nat)),
    decreases n,
{
    if n >= 10 {
        write_decimal(stream, n / 10);
    }
    let d: u8 = (n % 10) as u8;
    stream.push(0x30 + d);
    proof {
        let last = seq![digit(d as nat)];
        assert(is_ascii_chars(last));
        is_ascii_chars_encode_utf8(last);
        assert(encode_utf8(last) =~= seq![(0x30 + d) as u8]);
        if n >= 10 {
            let front = decimal((n / 10) as nat);
            assert(decimal(n as nat) =~= front + last);
            lemma_encode_concat(front, last);
            assert(stream@ =~= old(stream)@ + encode_utf8(decimal(n as nat)));
        } else {
            assert(stream@ =~= old(stream)@ + encode_utf8(decimal(n as nat)));
        }
    }
}

/// A response: a status and, if there is anything to show, a body.
#[derive(Debug)]
pub struct Response {
    status_code: StatusCode,
    body: Option<String>,
}

impl View for Response {
    type V = ResponseView;

    closed spec fn view(&self) -> ResponseView {
        ResponseView {
            status_code: self.status_code,
            body: match self.body {
                Some(body) => Some(body@),
                None => None,
            },
        }
    }
}

impl Response {
    /// A response with the given status and body.
    pub fn new(code: StatusCode, body: Option<String>) -> (r: Self)
        ensures
            r@.status_code == code,
            r@.body == match body {
                Some(body) => Some(body@),
                None => None::<Seq<char>>,
            },
    {
        Response { status_code: code, body }
    }

    /// Writes the response at the end of `stream`, as it goes over the
    /// wire: `HTTP/1.1`, the number and the reason phrase of the status,
    /// an empty line, and the body if there is one.
    pub fn send(&self, stream: &mut Vec<u8>)
        ensures
            final(stream)@ == old(stream)@ + self@.wire(),
    {
        let ghost code = decimal(self.status_code.code());
        let ghost reason = self.status_code.reason();
        let ghost body = match self@.body {
            Some(body) => body,
            None => Seq::empty(),
        };
        write_text(stream, "HTTP/1.1 ");
        write_decimal(stream, self.status_code.as_u32());
        write_text(stream, " ");
        write_text(stream, self.status_code.msg());
        write_text(stream, "\r\n\r\n");
        match &self.body {
            Some(body) => write_text(stream, body.as_str()),
            None => {
                assert(encode_utf8(body) =~= Seq::<u8>::empty());
            },
        }
        proof {
            let a = "HTTP/1.1 "@;
            let b = " "@;
            let c = "\r\n\r\n"@;
            lemma_encode_concat(a, code);
            lemma_encode_concat(a + code, b);
            lemma_encode_concat(a + code + b, reason);
            lemma_encode_concat(a + code + b + reason, c);
            lemma_encode_concat(a + code + b + reason + c, body);
            assert(stream@ =~= old(stream)@ + (encode_utf8(a) + encode_utf8(code) + encode_utf8(b)
                + encode_utf8(reason) + encode_utf8(c) + encode_utf8(body)));
        }
    }
}

} // verus!
