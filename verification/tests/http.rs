use netlabs::http::{
    body_start, file_request, local_path, requested_file, serialize, FileRequest, FileResponse, HttpError,
    Request,
};

fn path_of(r: Result<FileRequest, HttpError>) -> Option<String> {
    match r {
        Ok(FileRequest::Get(p)) => Some(p),
        Ok(FileRequest::NotFound) => None,
        Err(e) => panic!("unexpected error {e:?}"),
    }
}

#[test]
fn request_line_asks_for_file() {
    assert_eq!(path_of(requested_file(b"GET /files/hello HTTP/1.1\r\n")), Some("/files/hello".to_string()));
    assert_eq!(path_of(requested_file(b"POST /files/hello HTTP/1.1\r\n")), None);
    assert!(matches!(requested_file(b"\x01 / HTTP/1.1\r\n"), Err(HttpError::Malformed)));
}

#[test]
fn method_and_path_needed() {
    assert_eq!(path_of(file_request(Some("GET"), Some("/a"))), Some("/a".to_string()));
    assert_eq!(path_of(file_request(Some("DELETE"), Some("/a"))), None);
    assert!(matches!(file_request(None, Some("/a")), Err(HttpError::BadRequest)));
    assert!(matches!(file_request(Some("GET"), None), Err(HttpError::BadRequest)));
}

#[test]
fn path_on_disk() {
    assert_eq!(local_path("/files/hello"), "files/hello");
    assert_eq!(local_path("/"), "");
}

#[test]
fn response_heads() {
    assert_eq!(FileResponse::Opened(12).status(), "200 OK");
    assert_eq!(FileResponse::NotFound.status(), "404 Not Found");
    assert_eq!(
        FileResponse::Opened(12).head("D"),
        "HTTP/1.1 200 OK\r\nDate: D\r\nContent-Length: 12\r\n\r\n"
    );
    assert_eq!(FileResponse::NotFound.head("D"), "HTTP/1.1 404 Not Found\r\nDate: D\r\n\r\n");
    assert_eq!(
        FileResponse::NotFound.serialize(0),
        "HTTP/1.1 404 Not Found\r\nDate: Thu, 01 Jan 1970 00:00:00 GMT\r\n\r\n"
    );
    assert_eq!(
        FileResponse::Opened(0).serialize(1431704061),
        "HTTP/1.1 200 OK\r\nDate: Fri, 15 May 2015 15:34:21 GMT\r\nContent-Length: 0\r\n\r\n"
    );
}

#[test]
fn client_request_text() {
    let r = Request::new("127.0.0.1".to_string(), 3000, "files/hello".to_string());
    assert_eq!(r.port, 3000);
    assert_eq!(serialize(&r), "GET /files/hello HTTP/1.1\r\nHost: 127.0.0.1\r\n\r\n");
}

#[test]
fn body_after_empty_line() {
    assert_eq!(body_start(b"HTTP/1.1 200 OK\r\nA: b\r\n\r\nbody"), Some(25));
    assert_eq!(body_start(b"HTTP/1.1 200 OK\r\n\r\n"), Some(19));
    assert_eq!(body_start(b"HTTP/1.1 200 OK\r\nA: b\r\n"), None);
    assert_eq!(body_start(b"x\nrest"), Some(2));
    assert_eq!(body_start(b""), None);
}
