//! The answers of the HTTP handlers: what a handler replies for each outcome
//! of the store lookup or file action it made.

use vstd::prelude::*;
use vstd::string::StringExecFns;

verus! {

/// The reply of a JSON handler. An error text goes out as the `error` field
/// of a JSON object.
pub enum Reply<T> {
    /// 200, with the payload.
    Done(T),
    /// 202, with an empty body.
    Accepted,
    /// 404, with an error text.
    NotFound(String),
    /// 500, with an error text.
    ServerError(String),
}

/// The error text of a failed listing of `what`.
pub open spec fn fetch_error_of(what: Seq<char>, error: Seq<char>) -> Seq<char> {
    "Failed to fetch "@ + what + ": "@ + error
}

/// The reply of a listing handler (genres, movies, sources): the listing
/// where the store answered, else a server error naming `what` failed and
/// why.
pub fn fetch_reply<T>(what: &str, fetched: Result<T, String>) -> (r: Reply<T>)
    ensures
        match fetched {
            Ok(v) => r == Reply::Done(v),
            Err(e) => r matches Reply::ServerError(m) && m@ == fetch_error_of(what@, e@),
        },
{
    match fetched {
        Ok(v) => Reply::Done(v),
        Err(e) => {
            let mut m = String::from_str("Failed to fetch ");
            m.append(what);
            m.append(": ");
            m.append(e.as_str());
            Reply::ServerError(m)
        },
    }
}

/// The reply of the poster handler: the image where the store holds a
/// non-empty one, not found where it holds none or an empty one, a server
/// error where the store failed.
pub fn image_reply(fetched: Result<Option<Vec<u8>>, String>) -> (r: Reply<Vec<u8>>)
    ensures
        match fetched {
            Ok(Some(image)) => if image@.len() > 0 {
                r == Reply::Done(image)
            } else {
                r matches Reply::NotFound(m) && m@ == "No image found for this movie"@
            },
            Ok(None) => r matches Reply::NotFound(m) && m@ == "No image found for this movie"@,
            Err(e) => r matches Reply::ServerError(m) && m@ == "Failed to fetch image: "@ + e@,
        },
{
    match fetched {
        Ok(Some(image)) => {
            if image.len() > 0 {
                Reply::Done(image)
            } else {
                Reply::NotFound(String::from_str("No image found for this movie"))
            }
        },
        Ok(None) => Reply::NotFound(String::from_str("No image found for this movie")),
        Err(e) => {
            let mut m = String::from_str("Failed to fetch image: ");
            m.append(e.as_str());
            Reply::ServerError(m)
        },
    }
}

/// What the play handler does with the store's answer for the full path of
/// a movie file: open the path it found, or reply not found where there is
/// none, or a server error where the store failed.
pub fn file_to_open(found: Result<Option<String>, String>) -> (r: Result<String, Reply<()>>)
    ensures
        match found {
            Ok(Some(path)) => r == Ok::<String, Reply<()>>(path),
            Ok(None) => r matches Err(Reply::NotFound(m)) && m@
                == "Movie not found or has no file path"@,
            Err(e) => r matches Err(Reply::ServerError(m)) && m@ == "Failed to open file: "@ + e@,
        },
{
    match found {
        Ok(Some(path)) => Ok(path),
        Ok(None) => Err(Reply::NotFound(String::from_str("Movie not found or has no file path"))),
        Err(e) => {
            let mut m = String::from_str("Failed to open file: ");
            m.append(e.as_str());
            Err(Reply::ServerError(m))
        },
    }
}

/// The reply of the play handler once the system was asked to open `path`:
/// accepted where it did, else a server error naming the path and the
/// reason.
pub fn open_reply(path: &str, opened: Result<(), String>) -> (r: Reply<()>)
    ensures
        match opened {
            Ok(_) => r is Accepted,
            Err(e) => r matches Reply::ServerError(m) && m@ == "Failed to open file '"@ + path@
                + "': "@ + e@,
        },
{
    match opened {
        Ok(_) => Reply::Accepted,
        Err(e) => {
            let mut m = String::from_str("Failed to open file '");
            m.append(path);
            m.append("': ");
            m.append(e.as_str());
            Reply::ServerError(m)
        },
    }
}

/// The media type that `mime_guess` lists first for the extension of
/// `path`, as the `mime` crate parses it (lower case), where it knows one.
pub uninterp spec fn guessed_media_type(path: Seq<char>) -> Option<Seq<char>>;

/// `mime_guess::from_path(path).first()`, the parsed `Mime` as text. Claims
/// that the result is `guessed_media_type` of the path, and the one entry of
/// the table that the start page needs: `index.html` is `text/html`
/// (`mime_types.rs`, `("html", &["text/html"])`).
#[verifier::external_body]
fn media_type_guess(path: &str) -> (r: Option<String>)
    ensures
        match r {
            Some(t) => guessed_media_type(path@) == Some(t@),
            None => guessed_media_type(path@) is None,
        },
        r is None ==> path@ != "index.html"@,
        r matches Some(t) ==> (path@ == "index.html"@ ==> t@ == "text/html"@),
{
    mime_guess::from_path(path).first().map(|m| m.as_ref().to_string())
}

/// The content type a static file is served with: the media type guessed
/// from its extension, else `application/octet-stream`.
pub open spec fn content_type_of(path: Seq<char>) -> Seq<char> {
    match guessed_media_type(path) {
        Some(t) => t,
        None => "application/octet-stream"@,
    }
}

/// The content type a static file `path` is served with; the start page is
/// HTML.
pub fn content_type(path: &str) -> (r: String)
    ensures
        r@ == content_type_of(path@),
        path@ == "index.html"@ ==> r@ == "text/html"@,
{
    match media_type_guess(path) {
        Some(t) => t,
        None => String::from_str("application/octet-stream"),
    }
}

/// A page of the web front end: its content type and its bytes.
pub struct Page {
    pub content_type: String,
    pub body: Vec<u8>,
}

/// The reply of a page handler.
pub enum PageReply {
    /// 200, with the page.
    Found(Page),
    /// 404.
    NotFound,
}

/// The name of the page the front end starts from.
pub fn index_page_name() -> (r: &'static str)
    ensures
        r@ == "index.html"@,
{
    "index.html"
}

/// The static file a request path names: the start page for the empty path.
pub fn requested_file(path: &str) -> (r: String)
    ensures
        r@ == if path@.len() == 0 {
            "index.html"@
        } else {
            path@
        },
{
    if path.is_empty() {
        String::from_str("index.html")
    } else {
        String::from_str(path)
    }
}

/// The page for the static file `name` where it is embedded (`content`),
/// served with the content type its extension gives; `None` where it is not,
/// so that the start page stands in for it.
pub fn static_page(name: &str, content: Option<Vec<u8>>) -> (r: Option<Page>)
    ensures
        match content {
            Some(body) => r matches Some(p) && p.body == body && p.content_type@
                == content_type_of(name@),
            None => r is None,
        },
        name@ == "index.html"@ ==> (r matches Some(p) ==> p.content_type@ == "text/html"@),
{
    match content {
        Some(body) => Some(Page { content_type: content_type(name), body }),
        None => None,
    }
}

/// The reply with the start page: served as HTML where it is embedded
/// (`content`), else not found.
pub fn index_reply(content: Option<Vec<u8>>) -> (r: PageReply)
    ensures
        match content {
            Some(body) => r matches PageReply::Found(p) && p.body == body && p.content_type@
                == "text/html"@,
            None => r is NotFound,
        },
{
    match content {
        Some(body) => PageReply::Found(Page { content_type: String::from_str("text/html"), body }),
        None => PageReply::NotFound,
    }
}

} // verus!
