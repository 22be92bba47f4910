//! An HTTP request as it comes off the wire: request line, headers, body.

use crate::text::{split, split_once, split_text, split_text_once, texts};
use vstd::hash_map::StringHashMap;
use vstd::prelude::*;
use vstd::string::*;

verus! {

/// Why a request cannot be read or answered.
#[derive(Debug, Clone, Copy, PartialEq, Eq, Structural)]
pub enum HttpError {
    /// A header line has no `:`.
    InvalidHeader,
    /// The request has no header of the name that the answer needs.
    MissingHeader,
    /// The path does not hold the prefix of the route.
    InvalidPath,
    /// The request has no body.
    MissingBody,
}

/// The headers of a request in the model: a map from names to values, so
/// that no name occurs twice.
pub type Headers = Map<Seq<char>, Seq<char>>;

/// An HTTP request.
pub struct HttpRequest {
    pub method: String,
    pub path: String,
    pub version: String,
    pub body: Option<String>,
    /// Names in lowercase, each with the value that came last under it.
    pub headers: StringHashMap<String>,
}

/// An HTTP request as mathematical values.
pub struct RequestModel {
    pub method: Seq<char>,
    pub path: Seq<char>,
    pub version: Seq<char>,
    pub body: Option<Seq<char>>,
    pub headers: Headers,
}

/// `text` in lowercase, as `str::to_lowercase` gives it.
pub uninterp spec fn lowercase(text: Seq<char>) -> Seq<char>;

/// Whether `c` has the Unicode property White_Space: the characters that
/// `str::trim_start` takes off.
pub open spec fn is_white_space(c: char) -> bool {
    let n = c as u32;
    ||| 0x09 <= n <= 0x0d
    ||| n == 0x20
    ||| n == 0x85
    ||| n == 0xa0
    ||| n == 0x1680
    ||| 0x2000 <= n <= 0x200a
    ||| n == 0x2028
    ||| n == 0x2029
    ||| n == 0x202f
    ||| n == 0x205f
    ||| n == 0x3000
}

/// `text` without its leading run of White_Space characters.
pub open spec fn trimmed_start(text: Seq<char>) -> Seq<char>
    decreases text.len(),
{
    if text.len() > 0 && is_white_space(text[0]) {
        trimmed_start(text.skip(1))
    } else {
        text
    }
}

/// The texts of a map of headers.
pub open spec fn headers_model(headers: Map<Seq<char>, String>) -> Headers {
    headers.map_values(|value: String| value@)
}

/// The text of an optional string.
pub open spec fn optional_text(text: Option<String>) -> Option<Seq<char>> {
    match text {
        Some(s) => Some(s@),
        None => None,
    }
}

/// The value of the header of the name `name`.
pub open spec fn header_value(headers: Headers, name: Seq<char>) -> Option<Seq<char>> {
    if headers.contains_key(name) {
        Some(headers[name])
    } else {
        None
    }
}

/// The headers that the lines from the `from`-th on hold, up to the first
/// empty line, added to the headers `acc` of the lines before. A header is
/// a name in any case, `:`, and a value whose leading whitespace does not
/// count; a later header replaces an earlier one of the same name.
pub open spec fn headers_of(lines: Seq<Seq<char>>, from: int, acc: Headers) -> Result<
    Headers,
    HttpError,
>
    decreases lines.len() - from,
{
    if from < 0 || from >= lines.len() || lines[from].len() == 0 {
        Ok(acc)
    } else {
        match split_once(lines[from], ":"@) {
            None => Err(HttpError::InvalidHeader),
            Some((name, value)) => headers_of(
                lines,
                from + 1,
                acc.insert(lowercase(name), trimmed_start(value)),
            ),
        }
    }
}

/// The `i`-th word, or the empty text where there are fewer words.
pub open spec fn word(words: Seq<Seq<char>>, i: int) -> Seq<char> {
    if 0 <= i < words.len() {
        words[i]
    } else {
        Seq::empty()
    }
}

/// The body of a request: what stands behind the first empty line.
pub open spec fn body_of(s: Seq<char>) -> Option<Seq<char>> {
    match split_once(s, "\r\n\r\n"@) {
        Some((_, body)) => Some(body),
        None => None,
    }
}

/// The request that the text `s` holds. Its lines end in CR LF; the first
/// holds method, path and version between single spaces; the lines behind
/// it, up to the first empty one, are headers.
pub open spec fn request_of(s: Seq<char>) -> Result<RequestModel, HttpError> {
    let lines = split(s, "\r\n"@);
    let words = split(lines[0], " "@);
    match headers_of(lines, 1, Map::empty()) {
        Err(e) => Err(e),
        Ok(headers) => Ok(
            RequestModel {
                method: word(words, 0),
                path: word(words, 1),
                version: word(words, 2),
                body: body_of(s),
                headers,
            },
        ),
    }
}

impl View for HttpRequest {
    type V = RequestModel;

    open spec fn view(&self) -> RequestModel {
        RequestModel {
            method: self.method@,
            path: self.path@,
            version: self.version@,
            body: optional_text(self.body),
            headers: headers_model(self.headers@),
        }
    }
}

/// Calls `str::to_lowercase`. Trusted: the result is the lowercase text
/// that the standard library gives for this text.
#[verifier::external_body]
fn to_lowercase(text: &str) -> (lower: String)
    ensures
        lower@ == lowercase(text@),
{
    text.to_lowercase()
}

/// Calls `str::trim_start`. Trusted: the result is the text without its
/// leading whitespace, where whitespace is what Unicode gives the property
/// White_Space.
#[verifier::external_body]
fn trim_start(text: &str) -> (trimmed: &str)
    ensures
        trimmed@ == trimmed_start(text@),
{
    text.trim_start()
}

/// Whether `c` has the Unicode property White_Space.
pub fn is_white_space_char(c: char) -> (white: bool)
    ensures
        white == is_white_space(c),
{
    let n: u32 = c as u32;
    (0x09 <= n && n <= 0x0d) || n == 0x20 || n == 0x85 || n == 0xa0 || n == 0x1680 || (0x2000
        <= n && n <= 0x200a) || n == 0x2028 || n == 0x2029 || n == 0x202f || n == 0x205f || n
        == 0x3000
}

/// Putting a header into the map puts its text into the model.
pub proof fn lemma_headers_insert(headers: Map<Seq<char>, String>, name: Seq<char>, value: String)
    ensures
        headers_model(headers.insert(name, value)) == headers_model(headers).insert(name, value@),
{
    assert(headers_model(headers.insert(name, value)) =~= headers_model(headers).insert(
        name,
        value@,
    ));
}

impl HttpRequest {
    /// Puts `value` under the header name `name`, which is taken as it
    /// is. A header that stood under that name is replaced.
    pub fn set_header(&mut self, name: String, value: String)
        ensures
            final(self)@ == (RequestModel {
                headers: old(self)@.headers.insert(name@, value@),
                ..old(self)@
            }),
    {
        proof {
            lemma_headers_insert(self.headers@, name@, value);
        }
        self.headers.insert(name, value);
    }

    /// The value of the header whose name is `name`, letter for letter.
    pub fn header(&self, name: &str) -> (found: Option<&String>)
        ensures
            match header_value(self@.headers, name@) {
                Some(value) => found matches Some(s) && s@ == value,
                None => found is None,
            },
    {
        self.headers.get(name)
    }

    /// Reads a request from its text.
    pub fn parse(val: &str) -> (r: Result<HttpRequest, HttpError>)
        ensures
            match request_of(val@) {
                Ok(model) => r matches Ok(request) && request@ == model,
                Err(e) => r matches Err(err) && err == e,
            },
    {
        let lines: Vec<String> = split_text(val, "\r\n");
        let words: Vec<String> = split_text(lines[0].as_str(), " ");
        let ghost line_texts = texts(lines@);
        let ghost word_texts = texts(words@);
        assert(line_texts[0] == lines@[0]@);
        let method: String = words[0].clone();
        let path: String = if words.len() > 1 {
            words[1].clone()
        } else {
            String::new()
        };
        let version: String = if words.len() > 2 {
            words[2].clone()
        } else {
            String::new()
        };
        proof {
            assert(method@ == word(word_texts, 0));
            assert(path@ == word(word_texts, 1));
            assert(version@ == word(word_texts, 2));
        }
        let body: Option<String> = match split_text_once(val, "\r\n\r\n") {
            Some((_, body)) => Some(body),
            None => None,
        };
        let mut request = HttpRequest {
            method,
            path,
            version,
            body,
            headers: StringHashMap::new(),
        };
        let ghost start = request@;
        let mut i: usize = 1;
        assert(start.headers =~= Map::<Seq<char>, Seq<char>>::empty());
        while i < lines.len() && !lines[i].as_str().is_empty()
            invariant
                1 <= i,
                line_texts == texts(lines@),
                line_texts == split(val@, "\r\n"@),
                request@ == (RequestModel { headers: request@.headers, ..start }),
                headers_of(line_texts, i as int, request@.headers) == headers_of(
                    line_texts,
                    1,
                    Map::empty(),
                ),
            decreases lines@.len() - i,
        {
            assert(line_texts[i as int] == lines@[i as int]@);
            match split_text_once(lines[i].as_str(), ":") {
                None => {
                    return Err(HttpError::InvalidHeader);
                },
                Some((name, value)) => {
                    let lower: String = to_lowercase(name.as_str());
                    let trimmed: String = String::from_str(trim_start(value.as_str()));
                    request.set_header(lower, trimmed);
                },
            }
            i += 1;
        }
        proof {
            if i < lines@.len() {
                assert(line_texts[i as int] == lines@[i as int]@);
            }
        }
        Ok(request)
    }

    /// The value of the header of the name `val`, in whatever case the
    /// name is written.
    pub fn get_header(&self, val: &str) -> (found: Option<&String>)
        ensures
            match header_value(self@.headers, lowercase(val@)) {
                Some(value) => found matches Some(s) && s@ == value,
                None => found is None,
            },
    {
        let name: String = to_lowercase(val);
        self.header(name.as_str())
    }
}

} // verus!
