use toy_http::request::{Request, RequestError};
use toy_http::response::{Response, StatusCode};
use toy_http::server::{Handler, HttpHandler, Plan, Server};

struct Echo {
    handled: usize,
}

impl Handler for Echo {
    fn handle(&mut self, request: &Request) -> Response {
        self.handled += 1;
        Response::new(StatusCode::StatusOk, Some(String::from(request.path())))
    }
}

fn wire(response: &Response) -> Vec<u8> {
    let mut stream = Vec::new();
    response.send(&mut stream);
    stream
}

#[test]
fn handler_answers_bad_request_with_400() {
    let mut handler = Echo { handled: 0 };
    for error in [
        RequestError::Request,
        RequestError::Protocol,
        RequestError::Encode,
        RequestError::Method,
    ] {
        let response = handler.handle_bad_request(&error);
        assert_eq!(wire(&response), b"HTTP/1.1 400 bad request\r\n\r\n".to_vec());
    }
    assert_eq!(handler.handled, 0);
}

#[test]
fn server_hands_a_request_to_the_handler() {
    let mut handler = Echo { handled: 0 };
    let response = Server::answer(&mut handler, b"GET /echo?x=1 HTTP/1.1\r\n");
    assert_eq!(wire(&response), b"HTTP/1.1 200 ok\r\n\r\n/echo".to_vec());
    assert_eq!(handler.handled, 1);
}

#[test]
fn server_answers_each_parse_failure_with_400() {
    let mut handler = Echo { handled: 0 };
    let buffers: [&[u8]; 4] =
        [b"GET /\r\n", b"GET / HTTP/1.0\r\n", b"\xff\xff", b"get / HTTP/1.1\r\n"];
    for buf in buffers {
        let response = Server::answer(&mut handler, buf);
        assert_eq!(wire(&response), b"HTTP/1.1 400 bad request\r\n\r\n".to_vec());
    }
    assert_eq!(handler.handled, 0);
}

#[test]
fn server_keeps_its_address() {
    let server = Server::new(String::from("127.0.0.1:3000"));
    assert_eq!(server.addr(), "127.0.0.1:3000");
}

fn plan_for(handler: &HttpHandler, line: &[u8]) -> Plan {
    let request = Request::try_from(line).unwrap();
    handler.plan(&request)
}

#[test]
fn http_handler_renders_main_page() {
    let handler = HttpHandler::new(String::from("/srv/view"));
    match plan_for(&handler, b"GET / HTTP/1.1\r\n") {
        Plan::Render(file) => assert_eq!(file, "/srv/view/main.html"),
        other => panic!("unexpected plan: {:?}", other),
    }
}

#[test]
fn http_handler_renders_hello_page() {
    let handler = HttpHandler::new(String::from("view"));
    match plan_for(&handler, b"GET /hello?name=x HTTP/1.1\r\n") {
        Plan::Render(file) => assert_eq!(file, "view/hello.html"),
        other => panic!("unexpected plan: {:?}", other),
    }
}

#[test]
fn http_handler_finds_nothing_for_other_paths() {
    let handler = HttpHandler::new(String::from("view"));
    for line in [
        &b"GET /other HTTP/1.1\r\n"[..],
        &b"GET /hello/ HTTP/1.1\r\n"[..],
        &b"GET /Hello HTTP/1.1\r\n"[..],
        &b"GET  HTTP/1.1\r\n"[..],
    ] {
        match plan_for(&handler, line) {
            Plan::Reply(response) => {
                assert_eq!(wire(&response), b"HTTP/1.1 404 not found\r\n\r\n".to_vec())
            },
            other => panic!("unexpected plan: {:?}", other),
        }
    }
}

#[test]
fn http_handler_finds_nothing_for_other_methods() {
    let handler = HttpHandler::new(String::from("view"));
    for line in [
        &b"POST / HTTP/1.1\r\n"[..],
        &b"HEAD / HTTP/1.1\r\n"[..],
        &b"PUT /hello HTTP/1.1\r\n"[..],
        &b"DELETE /hello HTTP/1.1\r\n"[..],
    ] {
        match plan_for(&handler, line) {
            Plan::Reply(response) => {
                assert_eq!(wire(&response), b"HTTP/1.1 404 not found\r\n\r\n".to_vec())
            },
            other => panic!("unexpected plan: {:?}", other),
        }
    }
}

#[test]
fn http_handler_view_file_joins_with_a_slash() {
    let handler = HttpHandler::new(String::from("/a/b"));
    assert_eq!(handler.view_file("c.html"), "/a/b/c.html");
    let handler = HttpHandler::new(String::new());
    assert_eq!(handler.view_file("c.html"), "/c.html");
}

#[test]
fn http_handler_rendered_page_is_ok() {
    let response = HttpHandler::rendered(Some(String::from("<h1>hello</h1>")));
    assert_eq!(wire(&response), b"HTTP/1.1 200 ok\r\n\r\n<h1>hello</h1>".to_vec());
}

#[test]
fn http_handler_unreadable_page_is_ok_without_body() {
    let response = HttpHandler::rendered(None);
    assert_eq!(wire(&response), b"HTTP/1.1 200 ok\r\n\r\n".to_vec());
}
