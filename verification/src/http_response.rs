//! HTTP responses as they go over the wire: status line, content type,
//! content length and content.

use crate::ascii::{decimal_text, unsigned_string};
use vstd::prelude::*;
use vstd::string::*;
use vstd::utf8::encode_utf8;

verus! {

/// The status of a response.
#[derive(Debug, Clone, Copy, PartialEq, Eq, Structural)]
pub enum HttpStatusCode {
    /// 200 OK
    Okay,
    /// 201 Created
    Created,
    /// 404 Not Found
    NotFound,
}

/// The media type of a response's content.
#[derive(Debug, Clone, Copy, PartialEq, Eq, Structural)]
pub enum HttpContentType {
    ApplicationJson,
    PlainText,
    ApplicationOctetStream,
}

/// A response: status, media type and, where there is one, the content.
#[derive(Debug, Clone)]
pub struct HttpResponse {
    pub status_code: HttpStatusCode,
    pub content_type: HttpContentType,
    pub content: Option<String>,
}

impl HttpStatusCode {
    /// The status line.
    pub open spec fn line(self) -> Seq<char> {
        match self {
            HttpStatusCode::Okay => "HTTP/1.1 200 OK"@,
            HttpStatusCode::Created => "HTTP/1.1 201 Created"@,
            HttpStatusCode::NotFound => "HTTP/1.1 404 Not Found"@,
        }
    }

    /// The status line.
    pub fn as_str(&self) -> (line: &'static str)
        ensures
            line@ == self.line(),
    {
        match self {
            HttpStatusCode::Okay => "HTTP/1.1 200 OK",
            HttpStatusCode::Created => "HTTP/1.1 201 Created",
            HttpStatusCode::NotFound => "HTTP/1.1 404 Not Found",
        }
    }
}

impl HttpContentType {
    /// The name of the media type.
    pub open spec fn media_type(self) -> Seq<char> {
        match self {
            HttpContentType::ApplicationJson => "application/json"@,
            HttpContentType::PlainText => "text/plain"@,
            HttpContentType::ApplicationOctetStream => "application/octet-stream"@,
        }
    }

    /// The name of the media type.
    pub fn as_str(&self) -> (name: &'static str)
        ensures
            name@ == self.media_type(),
    {
        match self {
            HttpContentType::ApplicationJson => "application/json",
            HttpContentType::PlainText => "text/plain",
            HttpContentType::ApplicationOctetStream => "application/octet-stream",
        }
    }
}

/// A response that is a status line and nothing more.
pub open spec fn status_text(status: HttpStatusCode) -> Seq<char> {
    status.line() + "\r\n"@ + "\r\n"@
}

/// A response with headers: the status line, the content type and, where
/// there is content, its length in bytes and the content itself behind an
/// empty line.
pub open spec fn response_text(
    status: HttpStatusCode,
    content_type: HttpContentType,
    content: Option<Seq<char>>,
) -> Seq<char> {
    match content {
        Some(text) => status.line() + "\r\nContent-Type: "@ + content_type.media_type()
            + "\r\nContent-Length: "@ + decimal_text(encode_utf8(text).len() as int)
            + "\r\n\r\n"@ + text + "\r\n\r\n"@,
        None => status.line() + "\r\nContent-Type: "@ + content_type.media_type()
            + "\r\n\r\n\r\n"@,
    }
}

/// Writes to `stream` the response that is the status line of
/// `status_code` and nothing more.
pub fn write_status_code(stream: &mut String, status_code: HttpStatusCode)
    ensures
        final(stream)@ == old(stream)@ + status_text(status_code),
{
    stream.append(status_code.as_str());
    stream.append("\r\n");
    stream.append("\r\n");
    assert(final(stream)@ =~= old(stream)@ + status_text(status_code));
}

/// Writes `response` to `stream` as it goes over the wire.
pub fn write_http_response(stream: &mut String, response: &HttpResponse)
    ensures
        final(stream)@ == old(stream)@ + response.text(),
{
    stream.append(response.status_code.as_str());
    stream.append("\r\nContent-Type: ");
    stream.append(response.content_type.as_str());
    match &response.content {
        Some(content) => {
            let length: String = unsigned_string(content.as_str().as_bytes().len() as u64);
            stream.append("\r\nContent-Length: ");
            stream.append(length.as_str());
            stream.append("\r\n\r\n");
            stream.append(content.as_str());
            stream.append("\r\n\r\n");
        },
        None => {
            stream.append("\r\n\r\n\r\n");
        },
    }
    assert(final(stream)@ =~= old(stream)@ + response.text());
}

/// The response that is the status line of `status_code` and nothing more.
pub fn status_response(status_code: HttpStatusCode) -> (text: String)
    ensures
        text@ == status_text(status_code),
{
    let mut text: String = String::new();
    write_status_code(&mut text, status_code);
    assert(text@ =~= status_text(status_code));
    text
}

impl HttpResponse {
    /// The text of this response.
    pub open spec fn text(&self) -> Seq<char> {
        response_text(
            self.status_code,
            self.content_type,
            match self.content {
                Some(content) => Some(content@),
                None => None,
            },
        )
    }

    /// The response as it goes over the wire.
    pub fn render(&self) -> (text: String)
        ensures
            text@ == self.text(),
    {
        let mut text: String = String::new();
        write_http_response(&mut text, self);
        assert(text@ =~= self.text());
        text
    }
}

} // verus!
