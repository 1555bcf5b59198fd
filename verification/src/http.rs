//! The HTTP face of the image service: request routing, response heads and
//! the `info.json` document.
use crate::storage::{opt_view, MediaType, StorageError};
use crate::text::{str_eq, trim_end_char, trim_end_matches_char, trim_start_matches, trim_start_seq};
use vstd::prelude::*;

verus! {

pub const STATUS_OK: u16 = 200;
pub const STATUS_NOT_MODIFIED: u16 = 304;
pub const STATUS_BAD_REQUEST: u16 = 400;
pub const STATUS_NOT_FOUND: u16 = 404;
pub const STATUS_INTERNAL_SERVER_ERROR: u16 = 500;
pub const STATUS_NOT_IMPLEMENTED: u16 = 501;

/// Serves IIIF image requests found below a path prefix.
#[derive(Clone)]
pub struct HttpImageService<S> {
    pub inner: S,
    pub prefix: String,
}

/// The part of a request path that follows the service prefix: the prefix,
/// without its trailing slashes, is removed from the start as often as it repeats.
pub open spec fn request_path_spec(prefix: Seq<char>, uri_path: Seq<char>) -> Seq<char> {
    trim_start_seq(uri_path, trim_end_char(prefix, '/'))
}

/// A path below the service prefix loses exactly the prefix: when what
/// follows the prefix does not itself start with it, the request path is
/// what follows.
pub proof fn lemma_request_path_strips_prefix(prefix: Seq<char>, rest: Seq<char>)
    requires
        trim_end_char(prefix, '/').len() > 0,
        !(rest.len() >= trim_end_char(prefix, '/').len()
            && rest.take(trim_end_char(prefix, '/').len() as int) == trim_end_char(prefix, '/')),
    ensures
        request_path_spec(prefix, trim_end_char(prefix, '/') + rest) == rest,
{
    let t = trim_end_char(prefix, '/');
    let s = t + rest;
    assert(s.take(t.len() as int) =~= t);
    assert(s.skip(t.len() as int) =~= rest);
    assert(trim_start_seq(rest, t) == rest);
    assert(trim_start_seq(s, t) == trim_start_seq(s.skip(t.len() as int), t));
}

impl<S> HttpImageService<S> {
    pub fn new_with_prefix(image_service: S, prefix: &str) -> (r: Self)
        ensures
            r.inner == image_service,
            r.prefix@ == prefix@,
    {
        HttpImageService { inner: image_service, prefix: String::from_str(prefix) }
    }

    /// The path of a request below the prefix of this service.
    pub fn request_path(&self, uri_path: &str) -> (r: String)
        ensures
            r@ == request_path_spec(self.prefix@, uri_path@),
    {
        let prefix = trim_end_matches_char(self.prefix.as_str(), '/');
        String::from_str(trim_start_matches(uri_path, prefix))
    }
}

/// What a request path asks for.
#[derive(Debug, Clone, PartialEq, Eq)]
pub enum Route {
    /// The root of the service, which answers a health check.
    Health,
    /// The browser's icon, which the service does not have.
    Favicon,
    /// An image or image information request, still to be parsed.
    Image(String),
}

/// Routes a request path below the service prefix.
pub fn route(path: &str) -> (r: Route)
    ensures
        path@ == "/"@ ==> r is Health,
        path@ == "/favicon.ico"@ ==> r is Favicon,
        path@ != "/"@ && path@ != "/favicon.ico"@ ==> (r matches Route::Image(p) && p@ == path@),
{
    proof {
        reveal_strlit("/");
        reveal_strlit("/favicon.ico");
        assert("/"@.len() == 1);
        assert("/favicon.ico"@.len() == 12);
    }
    if str_eq(path, "/") {
        Route::Health
    } else if str_eq(path, "/favicon.ico") {
        Route::Favicon
    } else {
        Route::Image(String::from_str(path))
    }
}

/// The status, content type and text body of a response.
#[derive(Debug, Clone, PartialEq, Eq)]
pub struct TextResponse {
    pub status: u16,
    pub content_type: Option<String>,
    pub body: String,
}

/// A plain-text response.
pub fn text_response(status: u16, body: String) -> (r: TextResponse)
    ensures
        r.status == status,
        opt_view(r.content_type) == Some("text/plain"@),
        r.body == body,
{
    TextResponse { status, content_type: Some(String::from_str("text/plain")), body }
}

/// The response to a request that the service answers without an image:
/// the health check and the icon; `None` for an image request.
pub fn route_response(route: &Route) -> (r: Option<TextResponse>)
    ensures
        route is Health ==> (r matches Some(t) && t.status == STATUS_OK && t.body@ == "OK!"@
            && opt_view(t.content_type) == Some("text/plain"@)),
        route is Favicon ==> (r matches Some(t) && t.status == STATUS_NOT_FOUND
            && t.body@ == "File not found!"@ && opt_view(t.content_type) == Some("text/plain"@)),
        route is Image ==> r is None,
{
    match route {
        Route::Health => Some(text_response(STATUS_OK, String::from_str("OK!"))),
        Route::Favicon => Some(text_response(STATUS_NOT_FOUND, String::from_str("File not found!"))),
        Route::Image(_) => None,
    }
}

/// Why a request could not be turned into an image service request.
#[derive(Clone, Debug, PartialEq, Eq)]
pub enum IiifRequestError {
    /// The URI did not contain an expected element.
    UriMissingElement(String),
    /// The URI contained a text element that was not in UTF-8 (an RFC6570 violation).
    UriNotUtf8(String),
    /// The request contained input that could not be parsed; the payload is
    /// the parser's message.
    ParseError(String),
}

/// The message of a request error.
pub open spec fn iiif_request_error_message(e: IiifRequestError) -> Seq<char> {
    match e {
        IiifRequestError::UriMissingElement(element) => "Request path missing "@ + element@ + "."@,
        IiifRequestError::UriNotUtf8(element) => "Request path "@ + element@ + " was not in UTF-8."@,
        IiifRequestError::ParseError(message) => message@,
    }
}

impl IiifRequestError {
    /// The message of this error, as sent to the client.
    pub fn message(&self) -> (r: String)
        ensures
            r@ == iiif_request_error_message(*self),
    {
        match self {
            IiifRequestError::UriMissingElement(element) => String::from_str("Request path missing ")
                .concat(element.as_str()).concat("."),
            IiifRequestError::UriNotUtf8(element) => String::from_str("Request path ")
                .concat(element.as_str()).concat(" was not in UTF-8."),
            IiifRequestError::ParseError(message) => message.clone(),
        }
    }
}

/// The response to a request that could not be parsed: a bad request, with
/// the error's message as its body and no content type.
pub fn bad_request_response(e: &IiifRequestError) -> (r: TextResponse)
    ensures
        r.status == STATUS_BAD_REQUEST,
        r.content_type is None,
        r.body@ == iiif_request_error_message(*e),
{
    TextResponse { status: STATUS_BAD_REQUEST, content_type: None, body: e.message() }
}

/// The ways in which the image service can fail a request.
#[derive(Debug)]
pub enum ImageServiceError {
    /// The storage failed.
    Storage(StorageError),
    /// No reader handles images of this media type.
    ReaderUnsupported(MediaType),
    /// Any other failure, with its message.
    Internal(String),
}

/// The response to a failed image service request: a missing image is not
/// found, an unreadable media type is not implemented, anything else is an
/// internal error that shows no detail.
pub fn error_response(e: &ImageServiceError) -> (r: TextResponse)
    ensures
        match e {
            ImageServiceError::Storage(StorageError::NotFound) => r.status == STATUS_NOT_FOUND
                && opt_view(r.content_type) == Some("text/plain"@) && r.body@ == "Image file not found"@,
            ImageServiceError::ReaderUnsupported(ty) => r.status == STATUS_NOT_IMPLEMENTED
                && opt_view(r.content_type) == Some("text/plain"@)
                && r.body@ == "No readers found for "@ + ty.text@,
            _ => r.status == STATUS_INTERNAL_SERVER_ERROR && r.content_type is None
                && r.body@ == "An internal error occurred"@,
        },
{
    match e {
        ImageServiceError::Storage(StorageError::NotFound) => text_response(
            STATUS_NOT_FOUND,
            String::from_str("Image file not found"),
        ),
        ImageServiceError::ReaderUnsupported(ty) => text_response(
            STATUS_NOT_IMPLEMENTED,
            String::from_str("No readers found for ").concat(ty.text.as_str()),
        ),
        _ => TextResponse {
            status: STATUS_INTERNAL_SERVER_ERROR,
            content_type: None,
            body: String::from_str("An internal error occurred"),
        },
    }
}

/// The first second that an HTTP date cannot express (the year 10000).
pub const HTTP_DATE_LIMIT: u64 = 253402300800;

/// The IMF-fixdate text that `httpdate::fmt_http_date` gives for a time, in
/// whole seconds since the Unix epoch.
pub uninterp spec fn http_date_text(secs: u64) -> Seq<char>;

/// Calls `httpdate::fmt_http_date` on the time `secs` seconds after the epoch;
/// it panics from the year 10000 on, hence the bound.
#[verifier::external_body]
fn format_http_date(secs: u64) -> (r: String)
    requires
        secs < HTTP_DATE_LIMIT,
    ensures
        r@ == http_date_text(secs),
{
    httpdate::fmt_http_date(std::time::UNIX_EPOCH + std::time::Duration::from_secs(secs))
}

/// The time, in whole seconds since the Unix epoch, that
/// `httpdate::parse_http_date` reads from a text, or `None` where it rejects it.
pub uninterp spec fn parsed_http_date(text: Seq<char>) -> Option<u64>;

/// Calls `httpdate::parse_http_date` and counts the seconds of the result since the epoch.
#[verifier::external_body]
fn parse_http_date(text: &str) -> (r: Option<u64>)
    ensures
        r == parsed_http_date(text@),
{
    match httpdate::parse_http_date(text) {
        Ok(t) => t.duration_since(std::time::UNIX_EPOCH).ok().map(|d| d.as_secs()),
        Err(_) => None,
    }
}

/// The canonical text (`mediatype::MediaTypeBuf::canonicalize`) of a media
/// type, or `None` where the text does not parse as one.
pub uninterp spec fn canonical_media_type(text: Seq<char>) -> Option<Seq<char>>;

/// Parses a media type and displays its canonical form.
#[verifier::external_body]
fn canonicalize_media_type(text: &str) -> (r: Option<String>)
    ensures
        opt_view(r) == canonical_media_type(text@),
{
    text.parse::<mediatype::MediaTypeBuf>().ok().map(|m| m.canonicalize().to_string())
}

/// The time of the `If-Modified-Since` header of a request, when it holds an HTTP date.
pub fn if_modified_since(header: Option<&str>) -> (r: Option<u64>)
    ensures
        r == match header {
            Some(text) => parsed_http_date(text@),
            None => None::<u64>,
        },
{
    match header {
        Some(text) => parse_http_date(text),
        None => None,
    }
}

/// The value of the `Last-Modified` header for a time of last modification.
pub fn last_modified_header(secs: Option<u64>) -> (r: Option<String>)
    requires
        secs matches Some(s) ==> s < HTTP_DATE_LIMIT,
    ensures
        opt_view(r) == match secs {
            Some(s) => Some(http_date_text(s)),
            None => None::<Seq<char>>,
        },
{
    match secs {
        Some(s) => Some(format_http_date(s)),
        None => None,
    }
}

/// What the image service answered.
#[derive(Debug)]
pub enum ResponseKind {
    /// The client's copy is still current.
    CacheHit,
    /// An encoded image of the given media type.
    Image(MediaType),
    /// The information document of an image.
    Info,
}

/// The status and headers of a response to an answered request.
#[derive(Debug)]
pub struct ResponseHead {
    pub status: u16,
    pub content_type: Option<String>,
    pub last_modified: Option<String>,
}

/// The media type of the information document.
pub open spec fn info_content_type() -> Seq<char> {
    "application/ld+json"@
}

/// The head of the response to an answered request. A cache hit is not
/// modified and carries no header; an image carries its canonical media type,
/// the information document its JSON-LD type; both carry the time of the
/// last modification when there is one.
pub fn response_head(kind: &ResponseKind, last_modified_secs: Option<u64>) -> (r: ResponseHead)
    requires
        last_modified_secs matches Some(s) ==> s < HTTP_DATE_LIMIT,
    ensures
        match kind {
            ResponseKind::CacheHit => r.status == STATUS_NOT_MODIFIED && r.content_type is None
                && r.last_modified is None,
            ResponseKind::Image(ty) => r.status == STATUS_OK
                && opt_view(r.content_type) == canonical_media_type(ty.text@),
            ResponseKind::Info => r.status == STATUS_OK
                && opt_view(r.content_type) == Some(info_content_type()),
        },
        !(kind is CacheHit) ==> opt_view(r.last_modified) == match last_modified_secs {
            Some(s) => Some(http_date_text(s)),
            None => None::<Seq<char>>,
        },
{
    let last_modified = last_modified_header(last_modified_secs);
    match kind {
        ResponseKind::CacheHit => ResponseHead {
            status: STATUS_NOT_MODIFIED,
            content_type: None,
            last_modified: None,
        },
        ResponseKind::Image(ty) => ResponseHead {
            status: STATUS_OK,
            content_type: canonicalize_media_type(ty.text.as_str()),
            last_modified,
        },
        ResponseKind::Info => ResponseHead {
            status: STATUS_OK,
            content_type: Some(String::from_str("application/ld+json")),
            last_modified,
        },
    }
}

/// A size at which an image is available.
#[derive(Debug)]
pub struct SizeInfo {
    pub width: u32,
    pub height: u32,
}

/// A tiling of an image: the tile size and the scale factors it is offered at.
#[derive(Debug)]
pub struct TileInfo {
    pub width: u32,
    pub height: u32,
    pub scale_factors: Vec<u32>,
}

/// What the image service knows of an image.
#[derive(Debug)]
pub struct ImageInfo {
    pub width: u32,
    pub height: u32,
    pub sizes: Option<Vec<SizeInfo>>,
    pub tiles: Option<Vec<TileInfo>>,
    pub rights: Option<String>,
}

/// The `info.json` document of an image service (IIIF Image API 3.0, level 0).
#[derive(Debug)]
pub struct InfoDocument {
    pub context: String,
    pub kind: String,
    pub id: String,
    pub protocol: String,
    pub profile: String,
    pub width: u32,
    pub height: u32,
    pub sizes: Option<Vec<SizeInfo>>,
    pub tiles: Option<Vec<TileInfo>>,
    pub rights: Option<String>,
}

/// The path of the identifier of an image: a slash and the image's identifier.
pub fn info_id_path(image_id: &str) -> (r: String)
    ensures
        r@ == "/"@ + image_id@,
{
    String::from_str("/").concat(image_id)
}

/// The URI that `http::Uri` gives when the path and query of the request URI
/// are replaced: `None` when either does not parse or the parts do not make a URI.
pub uninterp spec fn uri_with_path(request_uri: Seq<char>, path_and_query: Seq<char>) -> Option<Seq<char>>;

/// Parses the request URI as an `http::Uri`, replaces its path and query
/// with `path_and_query` (parsed as `http::uri::PathAndQuery`), rebuilds it
/// with `Uri::from_parts` and formats it; `None` where a step fails.
#[verifier::external_body]
fn replace_uri_path(request_uri: &str, path_and_query: &str) -> (r: Option<String>)
    ensures
        opt_view(r) == uri_with_path(request_uri@, path_and_query@),
{
    let uri: hyper::Uri = request_uri.parse().ok()?;
    let mut parts = uri.into_parts();
    parts.path_and_query = Some(path_and_query.parse().ok()?);
    hyper::Uri::from_parts(parts).ok().map(|u| u.to_string())
}

/// The identifier URI of an image's information document: the request URI
/// with its path and query replaced by a slash and the image's identifier;
/// `None` where that is no URI.
pub fn info_id(request_uri: &str, image_id: &str) -> (r: Option<String>)
    ensures
        opt_view(r) == uri_with_path(request_uri@, "/"@ + image_id@),
{
    let path = info_id_path(image_id);
    replace_uri_path(request_uri, path.as_str())
}

/// The information document of the image with the given identifier URI.
pub fn info_document(id: String, info: ImageInfo) -> (r: InfoDocument)
    ensures
        r.context@ == "http://iiif.io/api/image/3/context.json"@,
        r.kind@ == "ImageService3"@,
        r.id == id,
        r.protocol@ == "http://iiif.io/api/image"@,
        r.profile@ == "level0"@,
        r.width == info.width,
        r.height == info.height,
        r.sizes == info.sizes,
        r.tiles == info.tiles,
        r.rights == info.rights,
{
    InfoDocument {
        context: String::from_str("http://iiif.io/api/image/3/context.json"),
        kind: String::from_str("ImageService3"),
        id,
        protocol: String::from_str("http://iiif.io/api/image"),
        profile: String::from_str("level0"),
        width: info.width,
        height: info.height,
        sizes: info.sizes,
        tiles: info.tiles,
        rights: info.rights,
    }
}

} // verus!
