use load_balancer::http_request::HttpRequest;
use load_balancer::http_request::Method;
use load_balancer::http_response::HttpResponse;
use load_balancer::http_response::StatusCodes;
use load_balancer::startup::handle_request;

#[test]
fn method_creation_succeeds_from_valid_string() {
    let valid_strings = vec![
        ("CONNECT", Method::CONNECT),
        ("GET", Method::GET),
        ("HEAD", Method::HEAD),
        ("DELETE", Method::DELETE),
        ("OPTIONS", Method::OPTIONS),
        ("PATCH", Method::PATCH),
        ("POST", Method::POST),
        ("PUT", Method::PUT),
        ("TRACE", Method::TRACE),
    ];

    for (str, expected) in valid_strings.iter() {
        let method = Method::from_str(str).expect("Failed to read valid string as Method");
        assert_eq!(method, *expected);
    }
}

#[test]
fn method_creation_fails_from_invalid_string() {
    assert!(Method::from_str("INVALID").is_none());
}

#[test]
fn http_requests_succeeds_from_valid_string() {
    let http_request_line = "GET /aloha HTTP/1.1";
    let http_request =
        HttpRequest::from_str(http_request_line).expect("Failed to extract the request info.");
    let expected = HttpRequest { method: Method::GET, path: "/aloha".to_string() };
    assert_eq!(http_request, expected);
}

#[test]
fn domain_http_response_builds_ok_string() {
    let str = HttpResponse::new(StatusCodes::OK, Some("Requested path: /foobar".to_string()))
        .response_string();
    assert_eq!(
        str,
        "HTTP/1.1 200 OK\r\nContent-Length: 23\r\n\r\nRequested path: /foobar\r\n"
    )
}

#[test]
fn http_response_http_response_builds_ok_string() {
    let str = HttpResponse::new(StatusCodes::OK, Some("Requested path: /foobar".to_string()))
        .response_string();
    assert_eq!(
        str,
        "HTTP/1.1 200 OK\r\nContent-Length: 23\r\n\r\nRequested path: /foobar\r\n"
    )
}

#[test]
fn http_response_builds_created_string() {
    let str = HttpResponse::new(
        StatusCodes::Created,
        Some("Requested path: /foobar".to_string()),
    )
    .response_string();
    assert_eq!(
        str,
        "HTTP/1.1 201 Created\r\nContent-Length: 23\r\n\r\nRequested path: /foobar\r\n"
    )
}

#[test]
fn http_response_builds_accepted_string() {
    let str = HttpResponse::new(
        StatusCodes::Accepted,
        Some("Requested path: /foobar".to_string()),
    )
    .response_string();
    assert_eq!(
        str,
        "HTTP/1.1 202 Accepted\r\nContent-Length: 23\r\n\r\nRequested path: /foobar\r\n"
    )
}

#[test]
fn http_response_builds_no_content_string() {
    let str = HttpResponse::new(StatusCodes::NoContent, None).response_string();
    assert_eq!(str, "HTTP/1.1 204 No Content\r\nContent-Length: 0\r\n\r\n\r\n")
}

#[test]
fn http_response_builds_not_found_string() {
    let str = HttpResponse::new(StatusCodes::NotFound, None).response_string();
    assert_eq!(str, "HTTP/1.1 404 Not Found\r\nContent-Length: 0\r\n\r\n\r\n")
}

#[test]
fn http_response_builds_internal_server_error_string() {
    let str = HttpResponse::new(StatusCodes::InternalServerError, None).response_string();
    assert_eq!(
        str,
        "HTTP/1.1 500 Internal Server Error\r\nContent-Length: 0\r\n\r\n\r\n"
    )
}

#[test]
fn handle_request_serves_loaded_content_on_get() {
    let response = handle_request(Method::GET, Some("<html></html>".to_string()));
    assert_eq!(response.status_code, StatusCodes::OK);
    assert_eq!(response.content, "<html></html>");
}

#[test]
fn handle_request_answers_not_found_without_content() {
    let response = handle_request(Method::GET, None);
    assert_eq!(response.status_code, StatusCodes::NotFound);
    assert_eq!(response.content, "");

    let response = handle_request(Method::POST, Some("ignored".to_string()));
    assert_eq!(response.status_code, StatusCodes::NotFound);
    assert_eq!(response.content, "");
}

#[test]
fn request_line_with_double_space_has_empty_path() {
    let req = HttpRequest::from_str("GET  /x").expect("parse");
    assert_eq!(req.method, Method::GET);
    assert_eq!(req.path, "");
}
