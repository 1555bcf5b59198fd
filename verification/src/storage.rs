//! Storage of source images: identifiers, locations, metadata and errors.
use crate::text::{lemma_first_index_unique, split_once, split_once_char, str_eq};
use vstd::prelude::*;

verus! {

/// `opendal`'s error, carried through the library opaquely.
#[verifier::external_type_specification]
#[verifier::external_body]
pub struct ExOpendalError(opendal::Error);

/// A point in time: whole seconds since the Unix epoch and the nanoseconds past them.
#[derive(Debug, Clone, Copy, PartialEq, Eq)]
pub struct Timestamp {
    pub secs: i64,
    pub nanos: u32,
}

impl Timestamp {
    /// `self` comes strictly before `other`.
    pub open spec fn before(self, other: Timestamp) -> bool {
        self.secs < other.secs || (self.secs == other.secs && self.nanos < other.nanos)
    }
}

/// `self` comes strictly before `other`.
pub fn is_before(a: Timestamp, b: Timestamp) -> (r: bool)
    ensures
        r == a.before(b),
{
    a.secs < b.secs || (a.secs == b.secs && a.nanos < b.nanos)
}

/// The media type of a stored object, kept as its text.
#[derive(Debug, Clone, PartialEq, Eq)]
pub struct MediaType {
    pub text: String,
}

/// The ways in which storage can fail.
#[derive(Debug)]
pub enum StorageError {
    /// The storage provider lacks the credentials to access the given object.
    AccessDenied,
    /// An internal and irrecoverable storage adapter error occurred; the
    /// payload is its message.
    Internal(String),
    /// An object with the given identifier could not be found in the storage.
    NotFound,
    /// Generic storage adapter implementation errors.
    Other(String),
    /// An object was found in storage, but the type of object could not be identified.
    UnknownFormat,
}

/// The message of a storage error.
pub open spec fn storage_error_message(e: StorageError) -> Seq<char> {
    match e {
        StorageError::AccessDenied => "access was denied"@,
        StorageError::NotFound => "data could not be found"@,
        StorageError::Other(reason) => "other: "@ + reason@,
        StorageError::Internal(text) => text@,
        StorageError::UnknownFormat => "the file format of the storage object is unknown"@,
    }
}

impl StorageError {
    /// The message of this error, as shown to operators.
    pub fn message(&self) -> (r: String)
        ensures
            r@ == storage_error_message(*self),
    {
        match self {
            StorageError::AccessDenied => String::from_str("access was denied"),
            StorageError::NotFound => String::from_str("data could not be found"),
            StorageError::Other(reason) => String::from_str("other: ").concat(reason.as_str()),
            StorageError::Internal(text) => text.clone(),
            StorageError::UnknownFormat => String::from_str(
                "the file format of the storage object is unknown",
            ),
        }
    }
}

/// The components of a URI: its scheme, its host and its path.
pub struct UriComponents {
    pub scheme: Option<String>,
    pub host: Option<String>,
    pub path: String,
}

/// The plain value of an optional string.
pub open spec fn opt_view(s: Option<String>) -> Option<Seq<char>> {
    match s {
        Some(t) => Some(t@),
        None => None,
    }
}

impl UriComponents {
    pub open spec fn view(self) -> (Option<Seq<char>>, Option<Seq<char>>, Seq<char>) {
        (opt_view(self.scheme), opt_view(self.host), self.path@)
    }
}

/// What `hyper::Uri` parses from a text: `None` where it rejects the text,
/// else the scheme, the host and the path of the URI.
pub uninterp spec fn parsed_uri(text: Seq<char>) -> Option<(Option<Seq<char>>, Option<Seq<char>>, Seq<char>)>;

/// Parses `text` as a `hyper::Uri` (`str::parse`) and reads back its
/// `scheme_str`, `host` and `path`.
///
/// The contract names the outcome of the parse; URI syntax itself is not restated.
#[verifier::external_body]
fn parse_uri(text: &str) -> (r: Option<UriComponents>)
    ensures
        match r {
            Some(c) => parsed_uri(text@) == Some(c.view()),
            None => parsed_uri(text@) is None,
        },
{
    match text.parse::<hyper::Uri>() {
        Ok(uri) => Some(UriComponents {
            scheme: uri.scheme_str().map(|s| s.to_string()),
            host: uri.host().map(|s| s.to_string()),
            path: uri.path().to_string(),
        }),
        Err(_) => None,
    }
}

/// The text of the media type that `mediatype::MediaTypeBuf` parses from a
/// text, or `None` where it rejects the text.
pub uninterp spec fn parsed_media_type(text: Seq<char>) -> Option<Seq<char>>;

/// Parses `text` as a `mediatype::MediaTypeBuf` (`str::parse`) and displays it.
#[verifier::external_body]
fn parse_media_type(text: &str) -> (r: Option<String>)
    ensures
        opt_view(r) == parsed_media_type(text@),
{
    text.parse::<mediatype::MediaTypeBuf>().ok().map(|m| m.to_string())
}

/// The essence of the first MIME type that `mime_guess` associates with the
/// extension of a path, if any.
pub uninterp spec fn guessed_mime(path: Seq<char>) -> Option<Seq<char>>;

/// Calls `mime_guess::from_path(path).first()` and takes the essence of the result.
#[verifier::external_body]
fn guess_mime(path: &str) -> (r: Option<String>)
    ensures
        opt_view(r) == guessed_mime(path@),
{
    mime_guess::from_path(path).first().map(|m| m.essence_str().to_string())
}

/// The path is absolute: on Unix, it starts at the root.
pub open spec fn is_absolute_path(p: Seq<char>) -> bool {
    p.len() > 0 && p[0] == '/'
}

/// The path that `std::path::Path::join` gives on Unix for a base and an
/// identifier: an absolute identifier replaces the base; otherwise the
/// identifier is appended, after a separator unless the base is empty or
/// already ends in one.
pub open spec fn joined_path(base: Seq<char>, id: Seq<char>) -> Seq<char> {
    if is_absolute_path(id) {
        id
    } else if base.len() == 0 || base.last() == '/' {
        base + id
    } else {
        base + seq!['/'] + id
    }
}

/// Calls `std::path::Path::join`; both inputs are UTF-8, and so is the result.
#[verifier::external_body]
fn join_path(base: &str, id: &str) -> (r: String)
    ensures
        r@ == joined_path(base@, id@),
{
    std::path::Path::new(base).join(id).to_string_lossy().into_owned()
}

/// Whether the kind of a storage backend error is `ErrorKind::NotFound`.
pub uninterp spec fn opendal_error_not_found(e: opendal::Error) -> bool;

/// The message (`Display`) of a storage backend error.
pub uninterp spec fn opendal_error_message(e: opendal::Error) -> Seq<char>;

/// Whether `opendal::Error::kind` of the error is `ErrorKind::NotFound`; the
/// kind is a field of the error, so the answer depends on the error alone.
#[verifier::external_body]
fn opendal_error_is_not_found(e: &opendal::Error) -> (r: bool)
    ensures
        r == opendal_error_not_found(*e),
{
    e.kind() == opendal::ErrorKind::NotFound
}

/// The message (`Display`) of an `opendal::Error`, which is formatted from
/// the error's own fields.
#[verifier::external_body]
fn opendal_error_text(e: &opendal::Error) -> (r: String)
    ensures
        r@ == opendal_error_message(*e),
{
    e.to_string()
}

/// The storage error for a failure of the storage backend: a missing object
/// is `NotFound`, anything else is internal and keeps the backend's message.
pub fn storage_error_for(not_found: bool, text: String) -> (r: StorageError)
    ensures
        not_found ==> r is NotFound,
        !not_found ==> r == StorageError::Internal(text),
{
    if not_found {
        StorageError::NotFound
    } else {
        StorageError::Internal(text)
    }
}

/// Converts a storage backend error into a storage error: `NotFound` when
/// the error's kind is `ErrorKind::NotFound`, else `Internal` with the
/// error's message.
pub fn convert_opendal_error(value: opendal::Error) -> (r: StorageError)
    ensures
        r is NotFound <==> opendal_error_not_found(value),
        !opendal_error_not_found(value) ==> (r matches StorageError::Internal(s) && s@ == opendal_error_message(value)),
{
    let not_found = opendal_error_is_not_found(&value);
    let text = opendal_error_text(&value);
    storage_error_for(not_found, text)
}

/// Where an image identifier points.
#[derive(Debug, Clone, PartialEq, Eq)]
pub enum StorageLocation {
    /// An object in an S3 bucket of a region.
    S3 { region: String, bucket: String, key: String },
    /// A path below the provider's local root.
    Local { path: String },
}

/// A storage location by the texts it holds.
pub enum LocationView {
    S3 { region: Seq<char>, bucket: Seq<char>, key: Seq<char> },
    Local { path: Seq<char> },
}

impl StorageLocation {
    pub open spec fn view(self) -> LocationView {
        match self {
            StorageLocation::S3 { region, bucket, key } => LocationView::S3 {
                region: region@,
                bucket: bucket@,
                key: key@,
            },
            StorageLocation::Local { path } => LocationView::Local { path: path@ },
        }
    }
}

/// The S3 location that the host and path of an `s3://region/bucket/key` URI
/// denote, or the message for a missing part.
pub open spec fn s3_location_spec(host: Option<Seq<char>>, path: Seq<char>) -> Result<LocationView, Seq<char>> {
    match host {
        None => Err("invalid S3 URI specification"@),
        Some(region) => match split_once(path, '/') {
            None => Err("invalid S3 URI specification"@),
            Some((_, bucket_and_path)) => match split_once(bucket_and_path, '/') {
                None => Err("invalid S3 bucket/key specification"@),
                Some((bucket, key)) => Ok(LocationView::S3 { region, bucket, key }),
            },
        },
    }
}

/// The location that an identifier denotes: a URI with the scheme `s3` names an
/// object in a bucket; any other identifier is a path below the local root.
/// An error carries the message of `StorageError::Other`.
pub open spec fn location_spec(id: Seq<char>) -> Result<LocationView, Seq<char>> {
    match parsed_uri(id) {
        Some((Some(scheme), host, path)) => if scheme == "s3"@ {
            s3_location_spec(host, path)
        } else {
            Ok(LocationView::Local { path: id })
        },
        _ => Ok(LocationView::Local { path: id }),
    }
}

/// An identifier that parses as `s3://region/bucket/key`, with a bucket
/// without slashes, locates the object `key` of `bucket` in `region`; the key
/// keeps its slashes.
pub proof fn lemma_s3_location(id: Seq<char>, region: Seq<char>, bucket: Seq<char>, key: Seq<char>)
    requires
        parsed_uri(id) == Some((Some("s3"@), Some(region), seq!['/'] + bucket + seq!['/'] + key)),
        forall|i: int| 0 <= i < bucket.len() ==> bucket[i] != '/',
    ensures
        location_spec(id) == Ok::<LocationView, Seq<char>>(LocationView::S3 { region, bucket, key }),
{
    let path = seq!['/'] + bucket + seq!['/'] + key;
    let rest = bucket + seq!['/'] + key;
    lemma_first_index_unique(path, '/', 0);
    assert(path.take(0) =~= Seq::<char>::empty());
    assert(path.skip(1) =~= rest);
    assert(rest[bucket.len() as int] == '/');
    lemma_first_index_unique(rest, '/', bucket.len() as int);
    assert(rest.take(bucket.len() as int) =~= bucket);
    assert(rest.skip(bucket.len() as int + 1) =~= key);
}

/// Resolves an image identifier to the location of its object.
pub fn locate(id: &str) -> (r: Result<StorageLocation, StorageError>)
    ensures
        match r {
            Ok(l) => location_spec(id@) == Ok::<LocationView, Seq<char>>(l.view()),
            Err(e) => e matches StorageError::Other(m) && location_spec(id@) == Err::<LocationView, Seq<char>>(m@),
        },
{
    proof {
        reveal_strlit("s3");
        reveal_strlit("invalid S3 URI specification");
        reveal_strlit("invalid S3 bucket/key specification");
    }
    let local = StorageLocation::Local { path: String::from_str(id) };
    match parse_uri(id) {
        Some(uri) => {
            let is_s3 = match &uri.scheme {
                Some(scheme) => str_eq(scheme.as_str(), "s3"),
                None => false,
            };
            if !is_s3 {
                return Ok(local);
            }
            let region = match uri.host {
                Some(host) => host,
                None => return Err(StorageError::Other(String::from_str("invalid S3 URI specification"))),
            };
            let (_, bucket_and_path) = match split_once_char(uri.path.as_str(), '/') {
                Some(parts) => parts,
                None => return Err(StorageError::Other(String::from_str("invalid S3 URI specification"))),
            };
            let (bucket, key) = match split_once_char(bucket_and_path, '/') {
                Some(parts) => parts,
                None => return Err(StorageError::Other(String::from_str("invalid S3 bucket/key specification"))),
            };
            Ok(StorageLocation::S3 { region, bucket: String::from_str(bucket), key: String::from_str(key) })
        },
        None => Ok(local),
    }
}

/// `t` truncated to its whole second.
pub open spec fn whole_second(t: Timestamp) -> Timestamp {
    Timestamp { secs: t.secs, nanos: 0 }
}

/// The metadata of a stored object that a provider reports besides its content.
#[derive(Debug, Clone, PartialEq, Eq)]
pub struct ObjectMetadata {
    /// When the object was last modified, to the second.
    pub last_modified: Option<Timestamp>,
    /// The media type of the object.
    pub media_type: MediaType,
}

/// The metadata of an object from what the backend reports of it: the time
/// of its last modification, kept to the second, and its content type, which
/// must be a media type.
pub fn object_metadata(last_modified: Option<Timestamp>, content_type: Option<&str>) -> (r: Result<ObjectMetadata, StorageError>)
    ensures
        r is Ok <==> (content_type matches Some(t) && parsed_media_type(t@) is Some),
        r matches Ok(m) ==> ({
            &&& content_type matches Some(t) && parsed_media_type(t@) == Some(m.media_type.text@)
            &&& m.last_modified == match last_modified {
                Some(t) => Some(whole_second(t)),
                None => None::<Timestamp>,
            }
        }),
        r matches Err(e) ==> e is UnknownFormat,
{
    let last_modified = match last_modified {
        Some(t) => Some(Timestamp { secs: t.secs, nanos: 0 }),
        None => None,
    };
    let media_type = match content_type {
        Some(text) => parse_media_type(text),
        None => None,
    };
    match media_type {
        Some(text) => Ok(ObjectMetadata { last_modified, media_type: MediaType { text } }),
        None => Err(StorageError::UnknownFormat),
    }
}

/// Whether cached credentials may be used at `now`: they may while they have
/// not expired, and always when they never expire.
pub open spec fn credentials_usable(expiry: Option<Timestamp>, now: Timestamp) -> bool {
    match expiry {
        Some(e) => now.before(e),
        None => true,
    }
}

/// Credentials that may be used at some time could be used at every earlier
/// time, and credentials without expiry can always be used.
pub proof fn lemma_credentials_usable_earlier(expiry: Option<Timestamp>, earlier: Timestamp, later: Timestamp)
    requires
        earlier.before(later),
        credentials_usable(expiry, later),
    ensures
        credentials_usable(expiry, earlier),
        credentials_usable(None, earlier),
{
}

/// Whether cached credentials with the given expiry may be used at `now`.
pub fn cached_credentials_usable(expiry: Option<Timestamp>, now: Timestamp) -> (r: bool)
    ensures
        r == credentials_usable(expiry, now),
{
    match expiry {
        Some(e) => is_before(now, e),
        None => true,
    }
}

/// A storage provider for files below a local directory.
pub struct FilesystemStorageProvider {
    pub base: String,
}

/// The media type of a file, from its extension.
pub open spec fn media_type_by_extension(path: Seq<char>) -> Option<Seq<char>> {
    match guessed_mime(path) {
        Some(essence) => parsed_media_type(essence),
        None => None,
    }
}

impl FilesystemStorageProvider {
    /// The path of the file that holds the object with identifier `id`.
    pub fn object_path(&self, id: &str) -> (r: String)
        ensures
            r@ == joined_path(self.base@, id@),
    {
        join_path(self.base.as_str(), id)
    }

    /// The media type of the file at `path`, guessed from its extension.
    pub fn media_type_of(path: &str) -> (r: Result<MediaType, StorageError>)
        ensures
            match r {
                Ok(m) => media_type_by_extension(path@) == Some(m.text@),
                Err(e) => e is UnknownFormat && media_type_by_extension(path@) is None,
            },
    {
        let media_type = match guess_mime(path) {
            Some(essence) => parse_media_type(essence.as_str()),
            None => None,
        };
        match media_type {
            Some(text) => Ok(MediaType { text }),
            None => Err(StorageError::UnknownFormat),
        }
    }
}

/// A storage provider that reads through `opendal`, from a local root or from S3.
pub struct OpenDalStorageProvider {
    pub path: String,
}

impl OpenDalStorageProvider {
    /// A provider whose local root is `path`.
    pub fn new(path: String) -> (r: Self)
        ensures
            r.path == path,
    {
        OpenDalStorageProvider { path }
    }
}

} // verus!
