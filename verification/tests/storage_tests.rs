use laya::storage::{
    cached_credentials_usable, convert_opendal_error, is_before, locate, object_metadata, storage_error_for,
    FilesystemStorageProvider, OpenDalStorageProvider, StorageError, StorageLocation, Timestamp,
};

#[test]
fn s3_identifiers_name_bucket_objects() {
    let location = locate("s3://eu-west-1/bucket/path/to/key.jp2").unwrap();
    assert_eq!(
        location,
        StorageLocation::S3 {
            region: "eu-west-1".to_string(),
            bucket: "bucket".to_string(),
            key: "path/to/key.jp2".to_string()
        }
    );
}

#[test]
fn other_identifiers_are_local_paths() {
    assert_eq!(locate("images/a.jp2").unwrap(), StorageLocation::Local { path: "images/a.jp2".to_string() });
    assert_eq!(
        locate("http://example.org/a.jp2").unwrap(),
        StorageLocation::Local { path: "http://example.org/a.jp2".to_string() }
    );
}

#[test]
fn s3_identifiers_need_a_key() {
    match locate("s3://eu-west-1/bucket") {
        Err(StorageError::Other(message)) => assert_eq!(message, "invalid S3 bucket/key specification"),
        other => panic!("unexpected {:?}", other),
    }
}

#[test]
fn storage_error_messages() {
    assert_eq!(StorageError::AccessDenied.message(), "access was denied");
    assert_eq!(StorageError::NotFound.message(), "data could not be found");
    assert_eq!(StorageError::Other("x".to_string()).message(), "other: x");
    assert_eq!(StorageError::Internal("disk".to_string()).message(), "disk");
    assert_eq!(StorageError::UnknownFormat.message(), "the file format of the storage object is unknown");
}

#[test]
fn backend_errors() {
    assert!(matches!(storage_error_for(true, "gone".to_string()), StorageError::NotFound));
    assert!(matches!(storage_error_for(false, "io".to_string()), StorageError::Internal(m) if m == "io"));
    let missing = opendal::Error::new(opendal::ErrorKind::NotFound, "missing");
    assert!(matches!(convert_opendal_error(missing), StorageError::NotFound));
    let other = opendal::Error::new(opendal::ErrorKind::Unexpected, "broken");
    match convert_opendal_error(other) {
        StorageError::Internal(message) => assert!(message.contains("broken")),
        e => panic!("unexpected {:?}", e),
    }
}

#[test]
fn object_metadata_keeps_whole_seconds() {
    let meta = object_metadata(Some(Timestamp { secs: 10, nanos: 5 }), Some("image/jp2")).unwrap();
    assert_eq!(meta.last_modified, Some(Timestamp { secs: 10, nanos: 0 }));
    assert_eq!(meta.media_type.text, "image/jp2");
    assert!(matches!(object_metadata(None, None), Err(StorageError::UnknownFormat)));
    assert!(matches!(object_metadata(None, Some("not a type")), Err(StorageError::UnknownFormat)));
}

#[test]
fn cached_credentials() {
    let now = Timestamp { secs: 100, nanos: 0 };
    assert!(cached_credentials_usable(None, now));
    assert!(cached_credentials_usable(Some(Timestamp { secs: 100, nanos: 1 }), now));
    assert!(!cached_credentials_usable(Some(now), now));
    assert!(!cached_credentials_usable(Some(Timestamp { secs: 99, nanos: 999 }), now));
    assert!(is_before(Timestamp { secs: 1, nanos: 9 }, Timestamp { secs: 2, nanos: 0 }));
    let expiry = Some(Timestamp { secs: 200, nanos: 0 });
    assert!(cached_credentials_usable(expiry, Timestamp { secs: 199, nanos: 999_999_999 }));
    assert!(cached_credentials_usable(expiry, Timestamp { secs: 50, nanos: 0 }));
}

#[test]
fn filesystem_objects() {
    let provider = FilesystemStorageProvider { base: "/data".to_string() };
    assert_eq!(provider.object_path("a.jp2"), "/data/a.jp2");
    assert_eq!(provider.object_path("dir/b.jp2"), "/data/dir/b.jp2");
    assert_eq!(provider.object_path("/elsewhere/c.jp2"), "/elsewhere/c.jp2");
    let slashed = FilesystemStorageProvider { base: "/data/".to_string() };
    assert_eq!(slashed.object_path("a.jp2"), "/data/a.jp2");
    let empty = FilesystemStorageProvider { base: String::new() };
    assert_eq!(empty.object_path("a.jp2"), "a.jp2");
    assert_eq!(provider.object_path(""), "/data/");
    assert_eq!(FilesystemStorageProvider::media_type_of("/data/a.png").unwrap().text, "image/png");
    assert!(matches!(
        FilesystemStorageProvider::media_type_of("/data/a.unknownextension"),
        Err(StorageError::UnknownFormat)
    ));
    assert_eq!(OpenDalStorageProvider::new("/srv".to_string()).path, "/srv");
}
