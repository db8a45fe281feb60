//! A minimal file server and its client over HTTP/1.1: the request line a
//! client sends, what the server makes of it, the head of the answer, and
//! where the client finds the body.

use vstd::prelude::*;
use vstd::string::{StrSliceExecFns, StringExecFns};
use crate::text::{decimal, decimal_text};

verus! {

/// The method and path that `httparse` reads from `title` (`None` where it
/// refuses the text; a field is `None` where the text ends before it).
pub uninterp spec fn request_title(title: Seq<u8>) -> Option<(Option<Seq<char>>, Option<Seq<char>>)>;

/// Parses `title` with `httparse::Request::parse` (64 header slots) and
/// returns the method and the path it found, or `None` where it returned
/// an error. The result is claimed to be `request_title` of the bytes.
#[verifier::external_body]
fn parse_title(title: &[u8]) -> (r: Option<(Option<String>, Option<String>)>)
    ensures
        r.deep_view() == request_title(title@),
{
    let mut headers = [httparse::EMPTY_HEADER; 64];
    let mut request = httparse::Request::new(&mut headers);
    match request.parse(title) {
        Ok(_) => Some((request.method.map(String::from), request.path.map(String::from))),
        Err(_) => None,
    }
}

/// The IMF-fixdate text (`Fri, 15 May 2015 15:34:21 GMT`) of the instant
/// `secs` seconds after the Unix epoch.
pub uninterp spec fn http_date(secs: u64) -> Seq<char>;

/// Formats the instant `secs` seconds after the Unix epoch with
/// `httpdate::fmt_http_date`. The result is claimed to be `http_date` of
/// `secs`; the crate panics from the year 9999 on, which `requires` rules
/// out.
#[verifier::external_body]
fn format_http_date(secs: u64) -> (s: String)
    requires
        secs < 253402300800,
    ensures
        s@ == http_date(secs),
{
    httpdate::fmt_http_date(std::time::UNIX_EPOCH + std::time::Duration::from_secs(secs))
}

/// Why a request could not be served.
#[derive(Clone, Copy, PartialEq, Eq, Structural, Debug)]
pub enum HttpError {
    /// The request line could not be read.
    Malformed,
    /// The request line has no method or no path.
    BadRequest,
}

/// What a request asks the server for.
pub enum FileRequest {
    /// The file at this path (as the request wrote it, with its slash).
    Get(String),
    /// Something this server does not serve.
    NotFound,
}

pub open spec fn file_spec(method: Option<Seq<char>>, path: Option<Seq<char>>) -> Result<Option<Seq<char>>, HttpError> {
    match (method, path) {
        (Some(m), Some(p)) => if m == "GET"@ {
            Ok(Some(p))
        } else {
            Ok(None)
        },
        _ => Err(HttpError::BadRequest),
    }
}

pub open spec fn request_view(r: Result<FileRequest, HttpError>) -> Result<Option<Seq<char>>, HttpError> {
    match r {
        Ok(FileRequest::Get(p)) => Ok(Some(p@)),
        Ok(FileRequest::NotFound) => Ok(None),
        Err(e) => Err(e),
    }
}

/// What a request with this method and path asks for: a `GET` asks for
/// the file at the path; any other method gets nothing; a request without
/// a method or a path is bad.
pub fn file_request(method: Option<&str>, path: Option<&str>) -> (r: Result<FileRequest, HttpError>)
    ensures
        request_view(r) == file_spec(
            match method {
                Some(m) => Some(m@),
                None => None,
            },
            match path {
                Some(p) => Some(p@),
                None => None,
            },
        ),
{
    match (method, path) {
        (Some(m), Some(p)) => {
            if crate::shell::str_eq(m, "GET") {
                Ok(FileRequest::Get(String::from_str(p)))
            } else {
                Ok(FileRequest::NotFound)
            }
        },
        _ => Err(HttpError::BadRequest),
    }
}

pub open spec fn requested_spec(title: Seq<u8>) -> Result<Option<Seq<char>>, HttpError> {
    match request_title(title) {
        None => Err(HttpError::Malformed),
        Some((m, p)) => file_spec(m, p),
    }
}

/// What the request line `title` asks for.
pub fn requested_file(title: &[u8]) -> (r: Result<FileRequest, HttpError>)
    ensures
        request_view(r) == requested_spec(title@),
{
    match parse_title(title) {
        None => Err(HttpError::Malformed),
        Some((m, p)) => {
            let m2: Option<&str> = match &m {
                Some(s) => Some(s.as_str()),
                None => None,
            };
            let p2: Option<&str> = match &p {
                Some(s) => Some(s.as_str()),
                None => None,
            };
            file_request(m2, p2)
        },
    }
}

/// The path of a requested file on disk: the request's path without its
/// leading character.
pub fn local_path(path: &str) -> (p: String)
    requires
        path@.len() >= 1,
    ensures
        p@ == path@.subrange(1, path@.len() as int),
{
    let n = path.unicode_len();
    String::from_str(path.substring_char(1, n))
}

/// The answer to a request: a file of this many bytes, or nothing found.
#[derive(Clone, Copy, PartialEq, Eq, Structural, Debug)]
pub enum FileResponse {
    Opened(u64),
    NotFound,
}

pub open spec fn status_text(r: FileResponse) -> Seq<char> {
    match r {
        FileResponse::Opened(_) => "200 OK"@,
        FileResponse::NotFound => "404 Not Found"@,
    }
}

/// The head of an answer: status line, date, and the length of the body
/// if there is one, ending with the empty line.
pub open spec fn response_head(r: FileResponse, date: Seq<char>) -> Seq<char> {
    "HTTP/1.1 "@ + status_text(r) + "\r\n"@ + "Date: "@ + date + "\r\n"@ + match r {
        FileResponse::Opened(len) => "Content-Length: "@ + decimal(len as nat) + "\r\n"@ + "\r\n"@,
        FileResponse::NotFound => "\r\n"@,
    }
}

impl FileResponse {
    pub fn status(&self) -> (s: &'static str)
        ensures
            s@ == status_text(*self),
    {
        match self {
            FileResponse::Opened(_) => "200 OK",
            FileResponse::NotFound => "404 Not Found",
        }
    }

    /// The head of this answer, dated `date`.
    pub fn head(&self, date: &str) -> (s: String)
        ensures
            s@ == response_head(*self, date@),
    {
        let mut s = String::from_str("HTTP/1.1 ");
        s.append(self.status());
        s.append("\r\n");
        s.append("Date: ");
        s.append(date);
        s.append("\r\n");
        match self {
            FileResponse::Opened(len) => {
                s.append("Content-Length: ");
                let t = decimal_text(*len as u128);
                s.append(t.as_str());
                s.append("\r\n");
                s.append("\r\n");
            },
            FileResponse::NotFound => {
                s.append("\r\n");
            },
        }
        proof {
            assert(s@ =~= response_head(*self, date@));
        }
        s
    }

    /// The head of this answer, dated `secs` seconds after the Unix epoch.
    pub fn serialize(&self, secs: u64) -> (s: String)
        requires
            secs < 253402300800,
        ensures
            s@ == response_head(*self, http_date(secs)),
    {
        let date = format_http_date(secs);
        self.head(date.as_str())
    }
}

/// What the file client asks for.
pub struct Request {
    pub host: String,
    pub port: u16,
    pub filename: String,
}

/// The request text: the request line, the host, and the empty line.
pub open spec fn request_text(host: Seq<char>, filename: Seq<char>) -> Seq<char> {
    "GET /"@ + filename + " HTTP/1.1\r\n"@ + "Host: "@ + host + "\r\n"@ + "\r\n"@
}

impl Request {
    pub fn new(host: String, port: u16, filename: String) -> (r: Self)
        ensures
            r.host@ == host@,
            r.port == port,
            r.filename@ == filename@,
    {
        Request { host, port, filename }
    }
}

/// The text of `request` as it is sent.
pub fn serialize(request: &Request) -> (s: String)
    ensures
        s@ == request_text(request.host@, request.filename@),
{
    let mut s = String::from_str("GET /");
    s.append(request.filename.as_str());
    s.append(" HTTP/1.1\r\n");
    s.append("Host: ");
    s.append(request.host.as_str());
    s.append("\r\n");
    s.append("\r\n");
    proof {
        assert(s@ =~= request_text(request.host@, request.filename@));
    }
    s
}

/// Where the line that starts at `from` ends (just after its `\n`), if it
/// is complete.
pub open spec fn line_end(data: Seq<u8>, from: int) -> Option<int>
    decreases data.len() - from,
{
    if from >= data.len() {
        None
    } else if data[from] == 10 {
        Some(from + 1)
    } else {
        line_end(data, from + 1)
    }
}

/// Where the body starts: after the first line, from `from` on, that is
/// two bytes long with its `\n` (the empty line after the head).
pub open spec fn body_from(data: Seq<u8>, from: int) -> Option<int>
    decreases data.len() - from,
{
    if from < 0 || from >= data.len() {
        None
    } else {
        match line_end(data, from) {
            None => None,
            Some(e) => if e - from == 2 {
                Some(e)
            } else if from < e <= data.len() {
                body_from(data, e)
            } else {
                None
            },
        }
    }
}

/// Where the body of an answer starts in `data`, if its head is complete.
pub fn body_start(data: &[u8]) -> (r: Option<usize>)
    ensures
        r == (match body_from(data@, 0) {
            Some(e) => Some(e as usize),
            None => None,
        }),
{
    let n = data.len();
    let mut from: usize = 0;
    let mut i: usize = 0;
    while i < n
        invariant
            n == data@.len(),
            from <= i <= n,
            body_from(data@, 0) == body_from(data@, from as int),
            line_end(data@, from as int) == line_end(data@, i as int),
        decreases n - i,
    {
        if data[i] == 10 {
            let e = i + 1;
            if e - from == 2 {
                return Some(e);
            }
            proof {
                assert(line_end(data@, i as int) == Some(e as int));
            }
            from = e;
        }
        i = i + 1;
    }
    proof {
        assert(line_end(data@, n as int) is None);
    }
    None
}

} // verus!
