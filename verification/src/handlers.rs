//! What the server answers to each request: the route that a request
//! takes and the response of each route.

use crate::http_request::{
    header_value, lowercase, optional_text, HttpError, HttpRequest, RequestModel,
};
use crate::http_response::{
    response_text, status_response, status_text, HttpContentType, HttpResponse, HttpStatusCode,
};
use crate::text::{occurs_at, same_text, split_once, split_text_once, starts_with};
use vstd::prelude::*;
use vstd::string::*;

verus! {

/// The routes of the server.
#[derive(Debug, Clone, Copy, PartialEq, Eq, Structural)]
pub enum Route {
    /// `/`
    Root,
    /// `/user-agent`
    UserAgent,
    /// A path that begins with `/echo/`.
    Echo,
    /// `GET` of a path that begins with `/files/`.
    GetFile,
    /// `POST` to a path that begins with `/files/`.
    PostFile,
    /// Anything else.
    NotFound,
}

/// The route that a request takes, by its path and, for files, its method.
pub open spec fn route_of(request: RequestModel) -> Route {
    if request.path == "/"@ {
        Route::Root
    } else if request.path == "/user-agent"@ {
        Route::UserAgent
    } else if occurs_at(request.path, "/echo/"@, 0) {
        Route::Echo
    } else if request.method == "GET"@ && occurs_at(request.path, "/files/"@, 0) {
        Route::GetFile
    } else if request.method == "POST"@ && occurs_at(request.path, "/files/"@, 0) {
        Route::PostFile
    } else {
        Route::NotFound
    }
}

/// The route that `http` takes.
pub fn route(http: &HttpRequest) -> (r: Route)
    ensures
        r == route_of(http@),
{
    let path: &str = http.path.as_str();
    let method: &str = http.method.as_str();
    if same_text(path, "/") {
        Route::Root
    } else if same_text(path, "/user-agent") {
        Route::UserAgent
    } else if starts_with(path, "/echo/") {
        Route::Echo
    } else if same_text(method, "GET") && starts_with(path, "/files/") {
        Route::GetFile
    } else if same_text(method, "POST") && starts_with(path, "/files/") {
        Route::PostFile
    } else {
        Route::NotFound
    }
}

/// The directory that files are served from: the argument behind
/// `--directory`, where that is the first argument of the program.
pub open spec fn files_dir_of(args: Seq<String>) -> Option<Seq<char>> {
    if args.len() >= 3 && args[1]@ == "--directory"@ {
        Some(args[2]@)
    } else {
        None
    }
}

/// The directory that files are served from, out of the program's arguments.
pub fn get_files_dir(args: &Vec<String>) -> (dir: Option<String>)
    ensures
        optional_text(dir) == files_dir_of(args@),
{
    if args.len() >= 3 && same_text(args[1].as_str(), "--directory") {
        Some(args[2].clone())
    } else {
        None
    }
}

/// The answer to `/`: 200 and nothing more.
pub fn handle_root_path(_http: &HttpRequest) -> (response: String)
    ensures
        response@ == status_text(HttpStatusCode::Okay),
{
    status_response(HttpStatusCode::Okay)
}

/// The answer to a request that no route takes: 404 and nothing more.
pub fn handle_not_found(_http: &HttpRequest) -> (response: String)
    ensures
        response@ == status_text(HttpStatusCode::NotFound),
{
    status_response(HttpStatusCode::NotFound)
}

/// The answer to `/user-agent`: the value of the `User-Agent` header as
/// plain text.
pub fn handle_user_agent(http: &HttpRequest) -> (r: Result<String, HttpError>)
    ensures
        match header_value(http@.headers, lowercase("User-Agent"@)) {
            Some(agent) => r matches Ok(response) && response@ == response_text(
                HttpStatusCode::Okay,
                HttpContentType::PlainText,
                Some(agent),
            ),
            None => r matches Err(e) && e == HttpError::MissingHeader,
        },
{
    match http.get_header("User-Agent") {
        None => Err(HttpError::MissingHeader),
        Some(agent) => {
            let response = HttpResponse {
                status_code: HttpStatusCode::Okay,
                content_type: HttpContentType::PlainText,
                content: Some(agent.clone()),
            };
            Ok(response.render())
        },
    }
}

/// The answer to `/echo/<text>`: the text behind the first `/echo/` of
/// the path, as plain text.
pub fn handle_echo(http: &HttpRequest) -> (r: Result<String, HttpError>)
    ensures
        match split_once(http@.path, "/echo/"@) {
            Some((_, content)) => r matches Ok(response) && response@ == response_text(
                HttpStatusCode::Okay,
                HttpContentType::PlainText,
                Some(content),
            ),
            None => r matches Err(e) && e == HttpError::InvalidPath,
        },
{
    match split_text_once(http.path.as_str(), "/echo/") {
        None => Err(HttpError::InvalidPath),
        Some((_, content)) => {
            let response = HttpResponse {
                status_code: HttpStatusCode::Okay,
                content_type: HttpContentType::PlainText,
                content: Some(content),
            };
            Ok(response.render())
        },
    }
}

/// The name of the file that a request for `/files/<name>` names: what
/// stands behind the first `/files/` of the path.
pub fn requested_file(http: &HttpRequest) -> (r: Result<String, HttpError>)
    ensures
        match split_once(http@.path, "/files/"@) {
            Some((_, name)) => r matches Ok(filename) && filename@ == name,
            None => r matches Err(e) && e == HttpError::InvalidPath,
        },
{
    match split_text_once(http.path.as_str(), "/files/") {
        None => Err(HttpError::InvalidPath),
        Some((_, name)) => Ok(name),
    }
}

/// The answer to `GET /files/<name>` once the file was looked for: its
/// content as an octet stream, or 404 where there is no such file.
pub fn handle_get_file(content: Option<String>) -> (response: String)
    ensures
        response@ == match content {
            Some(text) => response_text(
                HttpStatusCode::Okay,
                HttpContentType::ApplicationOctetStream,
                Some(text@),
            ),
            None => status_text(HttpStatusCode::NotFound),
        },
{
    match content {
        Some(text) => {
            let response = HttpResponse {
                status_code: HttpStatusCode::Okay,
                content_type: HttpContentType::ApplicationOctetStream,
                content: Some(text),
            };
            response.render()
        },
        None => status_response(HttpStatusCode::NotFound),
    }
}

/// What `POST /files/<name>` asks to be written: the name of the file
/// and the body of the request, which has to be there.
pub fn handle_post_file(http: &HttpRequest) -> (r: Result<(String, String), HttpError>)
    ensures
        match split_once(http@.path, "/files/"@) {
            None => r matches Err(e) && e == HttpError::InvalidPath,
            Some((_, name)) => match http@.body {
                None => r matches Err(e) && e == HttpError::MissingBody,
                Some(body) => r matches Ok((filename, content)) && filename@ == name && content@
                    == body,
            },
        },
{
    let filename: String = match requested_file(http) {
        Ok(name) => name,
        Err(e) => {
            return Err(e);
        },
    };
    match &http.body {
        None => Err(HttpError::MissingBody),
        Some(body) => Ok((filename, body.clone())),
    }
}

/// The answer once the file of a `POST` was written: 201 and nothing more.
pub fn file_created() -> (response: String)
    ensures
        response@ == status_text(HttpStatusCode::Created),
{
    status_response(HttpStatusCode::Created)
}

} // verus!
