use rust_sync::error::SyncError;
use rust_sync::{is_s3_path, parse_s3_path};

#[test]
fn s3_scheme_is_recognised() {
    assert!(is_s3_path("s3://bucket/prefix"));
    assert!(is_s3_path("s3://"));
    assert!(!is_s3_path("S3://bucket"));
    assert!(!is_s3_path("/home/user/data"));
    assert!(!is_s3_path("s3:/bucket"));
    assert!(!is_s3_path(""));
}

#[test]
fn parse_splits_bucket_and_prefix() {
    let (bucket, prefix) = parse_s3_path("s3://my-bucket/photos/2024").unwrap();
    assert_eq!(bucket, "my-bucket");
    assert_eq!(prefix, "photos/2024");
}

#[test]
fn parse_without_prefix_gives_empty_prefix() {
    let (bucket, prefix) = parse_s3_path("s3://my-bucket").unwrap();
    assert_eq!(bucket, "my-bucket");
    assert_eq!(prefix, "");
    let (bucket, prefix) = parse_s3_path("s3://my-bucket/").unwrap();
    assert_eq!(bucket, "my-bucket");
    assert_eq!(prefix, "");
}

#[test]
fn parse_keeps_later_slashes_in_prefix() {
    let (bucket, prefix) = parse_s3_path("s3://b/a//c/").unwrap();
    assert_eq!(bucket, "b");
    assert_eq!(prefix, "a//c/");
}

#[test]
fn parse_of_bare_scheme_gives_empty_bucket() {
    let (bucket, prefix) = parse_s3_path("s3://").unwrap();
    assert_eq!(bucket, "");
    assert_eq!(prefix, "");
}

#[test]
fn parse_refuses_non_s3_paths() {
    assert_eq!(parse_s3_path("/local/dir"), Err(SyncError::InvalidS3Path));
    assert_eq!(parse_s3_path("http://bucket/x"), Err(SyncError::InvalidS3Path));
}

#[test]
fn parse_handles_non_ascii() {
    let (bucket, prefix) = parse_s3_path("s3://корзина/папка/файл").unwrap();
    assert_eq!(bucket, "корзина");
    assert_eq!(prefix, "папка/файл");
}

#[test]
fn round_trip_of_written_location() {
    for (bucket, prefix) in [("b1", "p/q"), ("data", ""), ("x", "y")] {
        let location = if prefix.is_empty() {
            format!("s3://{}", bucket)
        } else {
            format!("s3://{}/{}", bucket, prefix)
        };
        assert!(is_s3_path(&location));
        let (b, p) = parse_s3_path(&location).unwrap();
        assert_eq!(b, bucket);
        assert_eq!(p, prefix);
    }
}
