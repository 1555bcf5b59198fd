use laya::http::{
    bad_request_response, error_response, if_modified_since, info_document, info_id, info_id_path, last_modified_header,
    response_head, route, route_response, text_response, HttpImageService, IiifRequestError, ImageInfo,
    ImageServiceError, ResponseKind, Route, SizeInfo, STATUS_BAD_REQUEST, STATUS_INTERNAL_SERVER_ERROR,
    STATUS_NOT_FOUND, STATUS_NOT_IMPLEMENTED, STATUS_NOT_MODIFIED, STATUS_OK,
};
use laya::storage::{MediaType, StorageError};

#[test]
fn request_paths_lose_the_prefix() {
    let service = HttpImageService::new_with_prefix((), "/iiif/3/");
    assert_eq!(service.prefix, "/iiif/3/");
    assert_eq!(service.request_path("/iiif/3/image.jp2/full/max/0/default.jpg"), "/image.jp2/full/max/0/default.jpg");
    assert_eq!(service.request_path("/iiif/3/iiif/3/x"), "/x");
    assert_eq!(service.request_path("/other/x"), "/other/x");
    assert_eq!(service.request_path("/iiif/3/"), "/");
}

#[test]
fn routes() {
    assert_eq!(route("/"), Route::Health);
    assert_eq!(route("/favicon.ico"), Route::Favicon);
    assert_eq!(route("/a.jp2/info.json"), Route::Image("/a.jp2/info.json".to_string()));
}

#[test]
fn answers_without_an_image() {
    let health = route_response(&Route::Health).unwrap();
    assert_eq!(health.status, STATUS_OK);
    assert_eq!(health.body, "OK!");
    assert_eq!(health.content_type.as_deref(), Some("text/plain"));
    let icon = route_response(&Route::Favicon).unwrap();
    assert_eq!(icon.status, STATUS_NOT_FOUND);
    assert_eq!(icon.body, "File not found!");
    assert!(route_response(&Route::Image("/x".to_string())).is_none());
    let plain = text_response(418, "tea".to_string());
    assert_eq!((plain.status, plain.body.as_str()), (418, "tea"));
}

#[test]
fn request_error_messages() {
    let missing = IiifRequestError::UriMissingElement("identifier".to_string());
    assert_eq!(missing.message(), "Request path missing identifier.");
    let not_utf8 = IiifRequestError::UriNotUtf8("region".to_string());
    assert_eq!(not_utf8.message(), "Request path region was not in UTF-8.");
    let parse = IiifRequestError::ParseError("bad size".to_string());
    assert_eq!(parse.message(), "bad size");
    let response = bad_request_response(&missing);
    assert_eq!(response.status, STATUS_BAD_REQUEST);
    assert!(response.content_type.is_none());
    assert_eq!(response.body, "Request path missing identifier.");
}

#[test]
fn service_errors_become_statuses() {
    let not_found = error_response(&ImageServiceError::Storage(StorageError::NotFound));
    assert_eq!((not_found.status, not_found.body.as_str()), (STATUS_NOT_FOUND, "Image file not found"));
    let unsupported =
        error_response(&ImageServiceError::ReaderUnsupported(MediaType { text: "image/png".to_string() }));
    assert_eq!(unsupported.status, STATUS_NOT_IMPLEMENTED);
    assert_eq!(unsupported.body, "No readers found for image/png");
    let denied = error_response(&ImageServiceError::Storage(StorageError::AccessDenied));
    assert_eq!((denied.status, denied.body.as_str()), (STATUS_INTERNAL_SERVER_ERROR, "An internal error occurred"));
    let internal = error_response(&ImageServiceError::Internal("boom".to_string()));
    assert_eq!(internal.status, STATUS_INTERNAL_SERVER_ERROR);
    assert!(internal.content_type.is_none());
}

#[test]
fn http_dates() {
    assert_eq!(if_modified_since(Some("Sun, 06 Nov 1994 08:49:37 GMT")), Some(784111777));
    assert_eq!(if_modified_since(Some("yesterday")), None);
    assert_eq!(if_modified_since(None), None);
    assert_eq!(last_modified_header(Some(784111777)).as_deref(), Some("Sun, 06 Nov 1994 08:49:37 GMT"));
    assert_eq!(last_modified_header(None), None);
}

#[test]
fn response_heads() {
    let hit = response_head(&ResponseKind::CacheHit, Some(784111777));
    assert_eq!(hit.status, STATUS_NOT_MODIFIED);
    assert!(hit.content_type.is_none() && hit.last_modified.is_none());
    let image = response_head(&ResponseKind::Image(MediaType { text: "image/jpeg".to_string() }), Some(0));
    assert_eq!(image.status, STATUS_OK);
    assert_eq!(image.content_type.as_deref(), Some("image/jpeg"));
    assert_eq!(image.last_modified.as_deref(), Some("Thu, 01 Jan 1970 00:00:00 GMT"));
    let upper = response_head(&ResponseKind::Image(MediaType { text: "IMAGE/JPEG".to_string() }), None);
    assert_eq!(upper.content_type.as_deref(), Some("image/jpeg"));
    let info = response_head(&ResponseKind::Info, None);
    assert_eq!(info.content_type.as_deref(), Some("application/ld+json"));
    assert!(info.last_modified.is_none());
}

#[test]
fn information_documents() {
    assert_eq!(info_id_path("a.jp2"), "/a.jp2");
    let doc = info_document(
        "http://localhost/a.jp2".to_string(),
        ImageInfo { width: 10, height: 20, sizes: Some(vec![SizeInfo { width: 5, height: 10 }]), tiles: None, rights: None },
    );
    assert_eq!(doc.context, "http://iiif.io/api/image/3/context.json");
    assert_eq!(doc.kind, "ImageService3");
    assert_eq!(doc.protocol, "http://iiif.io/api/image");
    assert_eq!(doc.profile, "level0");
    assert_eq!((doc.width, doc.height), (10, 20));
    assert_eq!(doc.sizes.unwrap()[0].width, 5);
}

#[test]
fn info_ids_keep_the_request_origin() {
    assert_eq!(
        info_id("http://example.org/iiif/3/abc/info.json?x=1", "abc").as_deref(),
        Some("http://example.org/abc")
    );
    assert_eq!(info_id("/iiif/3/abc/info.json", "abc").as_deref(), Some("/abc"));
    assert_eq!(info_id("http://example.org/iiif/3/a b/info.json", "a b"), None);
}
