//! Answering a connection: what is decided between the bytes that came in
//! and the response that goes out. Reading from the socket, reading view
//! files and writing back are left to the host program.

use crate::method::HTTPMethod;
use crate::request::{parse_request, Request, RequestError, RequestView};
use crate::response::{Response, ResponseView, StatusCode};
use crate::text::same_text;
use vstd::prelude::*;
use vstd::string::*;

verus! {

/// The response to a buffer that holds no request: status 400, no body.
pub open spec fn bad_request() -> ResponseView {
    ResponseView { status_code: StatusCode::StatusBadRequest, body: None }
}

/// The response to a request for which there is no page: status 404, no
/// body.
pub open spec fn not_found() -> ResponseView {
    ResponseView { status_code: StatusCode::StatusNotFound, body: None }
}

/// What answers requests. `handle` is free to answer a request as it
/// likes. A buffer that holds no request is answered with status 400 and
/// no body: an implementation that has its own `handle_bad_request` is
/// held to that too.
pub trait Handler {
    /// Answers a request.
    fn handle(&mut self, request: &Request) -> Response;

    /// Answers a buffer that holds no request.
    fn handle_bad_request(&mut self, err: &RequestError) -> (response: Response)
        ensures
            response@ == bad_request(),
    {
        Response::new(StatusCode::StatusBadRequest, None)
    }
}

/// A server: the address it listens on.
#[derive(Debug)]
pub struct Server {
    addr: String,
}

impl View for Server {
    type V = Seq<char>;

    closed spec fn view(&self) -> Seq<char> {
        self.addr@
    }
}

impl Server {
    /// A server for the given address.
    pub fn new(addr: String) -> (r: Self)
        ensures
            r@ == addr@,
    {
        Server { addr }
    }

    /// The address to listen on.
    pub fn addr(&self) -> (r: &str)
        ensures
            r@ == self@,
    {
        self.addr.as_str()
    }

    /// Answers what one connection sent: the handler gets the request that
    /// the buffer holds, or the reason why it holds none. On a buffer that
    /// holds no request the answer has status 400 and no body.
    pub fn answer<H: Handler>(handler: &mut H, buf: &[u8]) -> (response: Response)
        ensures
            parse_request(buf@) is Err ==> response@ == bad_request(),
    {
        match Request::try_from(buf) {
            Ok(request) => handler.handle(&request),
            Err(error) => handler.handle_bad_request(&error),
        }
    }
}

/// The page that answers a request, if there is one: only `GET` finds a
/// page.
pub open spec fn page_for(request: RequestView) -> Option<Seq<char>> {
    if request.method == HTTPMethod::GET && request.path == "/"@ {
        Some("main.html"@)
    } else if request.method == HTTPMethod::GET && request.path == "/hello"@ {
        Some("hello.html"@)
    } else {
        None
    }
}

/// What a handler of pages wants done for a request.
#[derive(Debug)]
pub enum Plan {
    /// Read this file and answer with `HttpHandler::rendered`.
    Render(String),
    /// Answer with this response.
    Reply(Response),
}

/// A handler that answers with pages kept as files in one directory.
#[derive(Debug)]
pub struct HttpHandler {
    view_path: String,
}

impl View for HttpHandler {
    type V = Seq<char>;

    closed spec fn view(&self) -> Seq<char> {
        self.view_path@
    }
}

impl HttpHandler {
    /// A handler for the pages in the directory `view_path`.
    pub fn new(view_path: String) -> (r: Self)
        ensures
            r@ == view_path@,
    {
        HttpHandler { view_path }
    }

    /// The file of a page: its name inside the directory of the handler.
    pub fn view_file(&self, page: &str) -> (file: String)
        ensures
            file@ == self@ + "/"@ + page@,
    {
        let mut file = self.view_path.clone();
        file.append("/");
        file.append(page);
        file
    }

    /// What to do for a request: render the file of its page, or reply
    /// that nothing was found.
    pub fn plan(&self, request: &Request) -> (r: Plan)
        ensures
            match page_for(request@) {
                Some(page) => r matches Plan::Render(file) && file@ == self@ + "/"@ + page,
                None => r matches Plan::Reply(response) && response@ == not_found(),
            },
    {
        let page = match request.method() {
            HTTPMethod::GET => {
                let path = request.path();
                if same_text(path, "/") {
                    Some("main.html")
                } else if same_text(path, "/hello") {
                    Some("hello.html")
                } else {
                    None
                }
            },
            _ => None,
        };
        match page {
            Some(page) => Plan::Render(self.view_file(page)),
            None => Plan::Reply(Response::new(StatusCode::StatusNotFound, None)),
        }
    }

    /// The response for a page: status 200, with what was read from its
    /// file as the body, or no body if the file could not be read.
    pub fn rendered(contents: Option<String>) -> (response: Response)
        ensures
            response@.status_code == StatusCode::StatusOk,
            response@.body == match contents {
                Some(body) => Some(body@),
                None => None::<Seq<char>>,
            },
    {
        Response::new(StatusCode::StatusOk, contents)
    }
}

} // verus!
