use http_types::body::{file_media_type, read_window};
use http_types::language::LanguageRange;
use http_types::media_type::{css, png};
use http_types::Method;

#[test]
fn parse_test() {
    let range = LanguageRange::from_str("en").unwrap();
    assert_eq!(range.subtags(), &["en"]);

    let range = LanguageRange::from_str("en-CA").unwrap();
    assert_eq!(range.subtags(), &["en", "CA"]);

    let range = LanguageRange::from_str("zh-Hant-CN-x-private1-private2").unwrap();
    assert_eq!(range.subtags(), &["zh", "Hant", "CN", "x", "private1", "private2"]);
}

#[test]
fn test_iter() {
    let range = LanguageRange::from_str("en-CA").unwrap();
    let subtags: Vec<_> = range.subtags().iter().collect();
    assert_eq!(&subtags, &["en", "CA"]);
}

#[test]
fn language_range_errors_and_display() {
    assert_eq!(LanguageRange::from_str("").unwrap_err().status(), 500);
    assert!(LanguageRange::from_str("toolongtag").is_err());
    assert!(LanguageRange::from_str("e1").is_err());
    assert_eq!(LanguageRange::from_str("en-").unwrap_err().status(), 500);
    assert!(LanguageRange::from_str("en--CA").is_err());
    assert!(LanguageRange::from_str("*-en").is_err());
    assert_eq!(LanguageRange::from_str("*").unwrap().subtags(), &["*"]);
    assert!(LanguageRange::from_str("en-c@").is_err());
    assert!(LanguageRange::from_str("en-123456789").is_err());
    let range = LanguageRange::from_str("de-CH-1996").unwrap();
    assert_eq!(range.to_string(), "de-CH-1996");
}

#[test]
fn method_names() {
    for m in [
        Method::Get,
        Method::Head,
        Method::Post,
        Method::Put,
        Method::Delete,
        Method::Connect,
        Method::Options,
        Method::Trace,
        Method::Patch,
    ] {
        assert_eq!(Method::from_str(&m.to_string()).unwrap(), m);
    }
    assert_eq!(Method::Patch.as_str(), "PATCH");
    assert!(Method::from_str("get").is_err());
}

#[test]
fn body_read_window() {
    // attempting to read past the length: a buffer of 13 over a body of 11
    assert_eq!(read_window(Some(11), 0, 13), 11);
    // exactly right, then done
    assert_eq!(read_window(Some(11), 11, 13), 0);
    // a length greater than what remains in the buffer
    assert_eq!(read_window(Some(15), 5, 4), 4);
    // no length: the whole buffer
    assert_eq!(read_window(None, 100, 7), 7);
}

#[test]
fn body_file_media_type() {
    assert_eq!(file_media_type(Some(png()), Some("css")).essence(), "image/png");
    assert_eq!(file_media_type(None, Some("css")).essence(), css().essence());
    assert_eq!(file_media_type(None, Some("bin")).essence(), "application/octet-stream");
    assert_eq!(file_media_type(None, None).essence(), "application/octet-stream");
}

#[test]
fn language_range_round_trip() {
    for text in ["en", "zh-Hant-CN-x-private1-private2", "de-CH-1996", "*"] {
        let range = LanguageRange::from_str(text).unwrap();
        let again = LanguageRange::from_str(&range.to_string()).unwrap();
        assert_eq!(again.subtags(), range.subtags());
        assert_eq!(range.value().as_str(), text);
    }
}

#[test]
fn url_parse_serializes() {
    let url = http_types::Url::parse("HTTPS://Example.net").unwrap();
    assert_eq!(url.as_str(), "https://example.net/");
    assert!(http_types::Url::parse("no scheme").is_err());
    let joined = http_types::Url::join_str("https://example.net/a/b", "../c").unwrap().unwrap();
    assert_eq!(joined.as_str(), "https://example.net/c");
    assert!(http_types::Url::join_str("relative", "x").is_none());
}

#[test]
fn error_status_codes() {
    let e = http_types::Error::Status(418, "teapot");
    assert_eq!(e.status(), 418);
    assert_eq!(e.associated_status_code(), Some(418));
    let e = http_types::Error::StatusCodeInvalid(7);
    assert_eq!(e.associated_status_code(), None);
    assert_eq!(e.status(), 500);
}

#[test]
fn multipart_decisions() {
    let ct = http_types::MediaType::from_str("multipart/form-data; boundary=XyZ").unwrap();
    assert_eq!(http_types::multipart::boundary(Some(&ct)).unwrap(), "xyz");
    let e = http_types::multipart::boundary(Some(&http_types::media_type::json())).unwrap_err();
    assert_eq!(e.status(), 400);
    assert!(http_types::multipart::boundary(None).is_err());
    let m = http_types::multipart::entry_media_type(None).unwrap();
    assert_eq!(m.essence(), "text/plain");
    let m = http_types::multipart::entry_media_type(Some("image/png")).unwrap();
    assert_eq!(m.essence(), "image/png");
}
