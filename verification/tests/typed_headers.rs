use std::time::{Duration, SystemTime, UNIX_EPOCH};

use http_types::auth::{AuthenticationScheme, Authorization, BasicAuth};
use http_types::cache::{CacheDirective, ClearDirective, ClearSiteData, Etag};
use http_types::client_hints::SaveData;
use http_types::conditional::{
    ETag, IfMatch, IfModifiedSince, IfRange, LastModified, MatchDirective, VaryDirective,
};
use http_types::content::{ContentEncoding, ContentLength, ContentLocation, Encoding};
use http_types::headers::{apply_header, constants, HeaderName, Headers};
use http_types::Url;

fn name(s: &str) -> HeaderName {
    HeaderName::from_str(s).unwrap()
}

fn secs(t: SystemTime) -> u64 {
    t.duration_since(UNIX_EPOCH).unwrap().as_secs()
}

#[test]
fn basic_auth_smoke() {
    let username = "nori";
    let password = "secret_fish!!";
    let authz = BasicAuth::new(username, password);

    let mut headers = Headers::new();
    apply_header(&authz, &mut headers);

    let authz = BasicAuth::from_headers(&headers).unwrap().unwrap();

    assert_eq!(authz.username(), username);
    assert_eq!(authz.password(), password);
}

#[test]
fn basic_auth_bad_request_on_parse_error() {
    let mut headers = Headers::new();
    headers.insert(constants::authorization(), "<nori ate the tag. yum.>").unwrap();
    let err = BasicAuth::from_headers(&headers).unwrap_err();
    assert_eq!(err.associated_status_code(), Some(400));
}

#[test]
fn basic_auth_header_value_is_base64() {
    let authz = BasicAuth::new("Aladdin", "open sesame");
    assert_eq!(authz.value().as_str(), "Basic QWxhZGRpbjpvcGVuIHNlc2FtZQ==");
}

#[test]
fn basic_auth_base64_padding() {
    assert_eq!(BasicAuth::new("a", "b").value().as_str(), "Basic YTpi");
    assert_eq!(BasicAuth::new("ab", "c").value().as_str(), "Basic YWI6Yw==");
    assert_eq!(BasicAuth::new("ab", "cd").value().as_str(), "Basic YWI6Y2Q=");
    assert_eq!(BasicAuth::new("~~", "?>").value().as_str(), "Basic fn46Pz4=");
}

#[test]
fn basic_auth_credential_errors() {
    let err = BasicAuth::from_credentials(b"not base64!").unwrap_err();
    assert_eq!(err.associated_status_code(), Some(400));
    // "nocolon" in base64
    let err = BasicAuth::from_credentials(b"bm9jb2xvbg==").unwrap_err();
    assert_eq!(err.associated_status_code(), Some(400));
    // the bytes ff fe in base64: not UTF-8
    assert!(BasicAuth::from_credentials(b"//4=").is_err());
    let ok = BasicAuth::from_credentials(b"YTpiOmM=").unwrap();
    assert_eq!(ok.username(), "a");
    assert_eq!(ok.password(), "b:c");
}

#[test]
fn basic_auth_rejects_other_schemes() {
    let mut headers = Headers::new();
    headers.insert(constants::authorization(), "Bearer abc").unwrap();
    let err = BasicAuth::from_headers(&headers).unwrap_err();
    assert_eq!(err.associated_status_code(), Some(400));
    assert!(BasicAuth::from_headers(&Headers::new()).unwrap().is_none());
}

#[test]
fn authorization_round_trip_and_errors() {
    let auth = Authorization::new(AuthenticationScheme::Bearer, "token123".to_string());
    let mut headers = Headers::new();
    apply_header(&auth, &mut headers);
    let back = Authorization::from_headers(&headers).unwrap().unwrap();
    assert_eq!(back.scheme(), AuthenticationScheme::Bearer);
    assert_eq!(back.credentials(), "token123");
    assert!(Authorization::from_str("Basic").is_err());
    assert!(Authorization::from_str("Unknown creds").is_err());
}

#[test]
fn authentication_scheme_names() {
    assert_eq!(AuthenticationScheme::from_str("HOBA").unwrap(), AuthenticationScheme::Hoba);
    assert_eq!(AuthenticationScheme::ScramSha256.as_str(), "SCRAM-SHA-256");
    assert!(AuthenticationScheme::from_str("basic").is_err());
}

#[test]
fn save_data_smoke() {
    let expect = SaveData::new(true);

    let mut headers = Headers::new();
    expect.apply(&mut headers);

    let expect = SaveData::from_headers(&headers).unwrap().unwrap();
    assert_eq!(expect, SaveData::new(true));
}

#[test]
fn save_data_bad_request_on_parse_error() {
    let mut headers = Headers::new();
    headers.insert(constants::save_data(), "<nori ate the tag. yum.>").unwrap();
    let err = SaveData::from_headers(&headers).unwrap_err();
    assert_eq!(err.status(), 400);
}

#[test]
fn if_modified_since_smoke() {
    let time = SystemTime::now() + Duration::from_secs(5 * 60);
    let expires = IfModifiedSince::new(secs(time));

    let mut headers = Headers::new();
    apply_header(&expires, &mut headers);

    let expires = IfModifiedSince::from_headers(&headers).unwrap().unwrap();

    // HTTP dates only have second-precision
    let elapsed = secs(time) - expires.modified();
    assert_eq!(elapsed, 0);
}

#[test]
fn if_modified_since_bad_request_on_parse_error() {
    let mut headers = Headers::new();
    headers.insert(constants::if_modified_since(), "<nori ate the tag. yum.>").unwrap();
    let err = IfModifiedSince::from_headers(&headers).unwrap_err();
    assert_eq!(err.status(), 400);
}

#[test]
fn last_modified_smoke() {
    let time = SystemTime::now() + Duration::from_secs(5 * 60);
    let last_modified = LastModified::new(secs(time));

    let mut headers = Headers::new();
    apply_header(&last_modified, &mut headers);

    let last_modified = LastModified::from_headers(&headers).unwrap().unwrap();

    // HTTP dates only have second-precision
    let elapsed = secs(time) - last_modified.modified();
    assert_eq!(elapsed, 0);
}

#[test]
fn last_modified_bad_request_on_parse_error() {
    let mut headers = Headers::new();
    headers.insert(constants::last_modified(), "<nori ate the tag. yum.>").unwrap();
    let err = LastModified::from_headers(&headers).unwrap_err();
    assert_eq!(err.status(), 400);
}

#[test]
fn http_date_text_is_imf_fixdate() {
    let mut headers = Headers::new();
    LastModified::new(784111777).apply(&mut headers);
    assert_eq!(
        *headers.get(&constants::last_modified()).unwrap(),
        "Sun, 06 Nov 1994 08:49:37 GMT"
    );
    let mut headers = Headers::new();
    headers.insert(constants::last_modified(), "Sunday, 06-Nov-94 08:49:37 GMT").unwrap();
    assert_eq!(LastModified::from_headers(&headers).unwrap().unwrap().modified(), 784111777);
    let mut headers = Headers::new();
    headers.insert(constants::last_modified(), "Sun Nov  6 08:49:37 1994").unwrap();
    assert_eq!(LastModified::from_headers(&headers).unwrap().unwrap().modified(), 784111777);
}

#[test]
fn if_range_time() {
    let time = SystemTime::now() + Duration::from_secs(5 * 60);
    let if_range = IfRange::Date(secs(time));

    let mut headers = Headers::new();
    if_range.apply(&mut headers);

    let if_range = IfRange::from_headers(&headers).unwrap().unwrap();

    let header_time = match if_range {
        IfRange::Date(d) => d,
        _ => panic!("Invalid If-Range header"),
    };

    // HTTP dates only have second-precision
    let elapsed = secs(time) - header_time;
    assert_eq!(elapsed, 0);
}

#[test]
fn if_range_etag() {
    let etag = ETag::new(String::from("foobar"));
    let if_range = IfRange::from(etag.clone());

    let mut headers = Headers::new();
    if_range.apply(&mut headers);

    let if_range = IfRange::from_headers(&headers).unwrap().unwrap();

    let header_etag = match if_range {
        IfRange::ETag(t) => t,
        _ => panic!("Invalid If-Range header"),
    };

    assert_eq!(header_etag, etag);
}

#[test]
fn if_range_bad_request_on_parse_error() {
    let mut headers = Headers::new();
    headers.insert(constants::if_range(), "<nori ate the tag. yum.>").unwrap();
    let err = IfRange::from_headers(&headers).unwrap_err();
    assert_eq!(err.status(), 400);
}

#[test]
fn if_match_smoke() {
    let mut entries = IfMatch::new();
    entries.push(MatchDirective::from(ETag::new("0xcafebeef".to_string())));
    entries.push(MatchDirective::from(ETag::new("0xbeefcafe".to_string())));

    let mut headers = Headers::new();
    entries.apply(&mut headers);

    let entries = IfMatch::from_headers(&headers).unwrap().unwrap();
    let mut entries = entries.entries().iter();
    assert!(entries.next().unwrap().eq_etag(&ETag::new("0xcafebeef".to_string())));
    assert!(entries.next().unwrap().eq_etag(&ETag::new("0xbeefcafe".to_string())));
}

#[test]
fn if_match_wildcard_and_errors() {
    let mut headers = Headers::new();
    headers.insert(constants::if_match(), "*, \"a\" ,").unwrap();
    let m = IfMatch::from_headers(&headers).unwrap().unwrap();
    assert_eq!(m.entries().len(), 2);
    assert_eq!(m.entries()[0], MatchDirective::Wildcard);
    assert_eq!(m.value().as_str(), "*, \"a\"");
    let mut headers = Headers::new();
    headers.insert(constants::if_match(), "\"a\", nope").unwrap();
    assert_eq!(IfMatch::from_headers(&headers).unwrap_err().status(), 400);
}

#[test]
fn etag_parsing() {
    assert_eq!(Etag::from_str("\"abc\"").unwrap(), Etag::Strong("abc".to_string()));
    assert_eq!(Etag::from_str("W/\"abc\"").unwrap(), Etag::Weak("abc".to_string()));
    assert_eq!(Etag::from_str("/W\"abc\"").unwrap_err().status(), 400);
    assert_eq!(Etag::from_str("abc").unwrap_err().status(), 400);
    assert_eq!(Etag::new_weak("x".to_string()).to_string(), "W/\"x\"");
    let mut headers = Headers::new();
    Etag::new("0xcafebeef".to_string()).apply(&mut headers);
    let back = Etag::from_headers(&headers).unwrap().unwrap();
    assert_eq!(back, Etag::new("0xcafebeef".to_string()));
}

#[test]
fn weak_etag_round_trip() {
    let mut headers = Headers::new();
    Etag::new_weak("v1".to_string()).apply(&mut headers);
    assert_eq!(headers.get(&constants::etag()).unwrap().last().as_str(), "W/\"v1\"");
    let back = Etag::from_headers(&headers).unwrap().unwrap();
    assert_eq!(back, Etag::Weak("v1".to_string()));
}

#[test]
fn vary_directives() {
    let d = VaryDirective::from_str(" * ").unwrap();
    assert_eq!(d, VaryDirective::Wildcard);
    let d = VaryDirective::from_str(" Accept-Encoding ").unwrap();
    assert_eq!(d, VaryDirective::HeaderName(name("accept-encoding")));
    assert_eq!(d.value().as_str(), "accept-encoding");
    assert!(d == "ACCEPT-ENCODING");
    assert_eq!(VaryDirective::from_str("ünï").unwrap_err().status(), 500);
}

#[test]
fn content_length_smoke() {
    let content_len = ContentLength::new(12);

    let mut headers = Headers::new();
    apply_header(&content_len, &mut headers);

    let content_len = ContentLength::from_headers(&headers).unwrap().unwrap();
    assert_eq!(content_len.len(), 12);
}

#[test]
fn content_length_bad_request_on_parse_error() {
    let mut headers = Headers::new();
    headers.insert(constants::content_length(), "<nori ate the tag. yum.>").unwrap();
    let err = ContentLength::from_headers(&headers).unwrap_err();
    assert_eq!(err.associated_status_code(), Some(400));
}

#[test]
fn content_length_trims_and_takes_last() {
    let mut headers = Headers::new();
    headers.append(constants::content_length(), "1").unwrap();
    headers.append(constants::content_length(), " 42 ").unwrap();
    assert_eq!(ContentLength::from_headers(&headers).unwrap().unwrap().len(), 42);
    let mut headers = Headers::new();
    headers.insert(constants::content_length(), "18446744073709551616").unwrap();
    assert!(ContentLength::from_headers(&headers).is_err());
}

#[test]
fn content_location_smoke() {
    let content_location =
        ContentLocation::new(Url::parse("https://example.net/test.json").unwrap());

    let mut headers = Headers::new();
    apply_header(&content_location, &mut headers);

    let content_location =
        ContentLocation::from_headers("https://example.net/", &headers).unwrap().unwrap();
    assert_eq!(
        content_location.location(),
        &Url::parse("https://example.net/test.json").unwrap()
    );
}

#[test]
fn content_location_bad_request_on_parse_error() {
    let mut headers = Headers::new();
    headers.insert(constants::content_location(), "htt://<nori ate the tag. yum.>").unwrap();
    let err = ContentLocation::from_headers("https://example.net", &headers).unwrap_err();
    assert_eq!(err.associated_status_code(), None);
}

#[test]
fn content_location_relative_and_bad_base() {
    let mut headers = Headers::new();
    headers.insert(constants::content_location(), " /a/b ").unwrap();
    let loc = ContentLocation::from_headers("https://example.net/x/y", &headers).unwrap().unwrap();
    assert_eq!(loc.location().as_str(), "https://example.net/a/b");
    assert!(ContentLocation::from_headers("not a url", &headers).is_err());
}

#[test]
fn content_encoding_round_trip() {
    let mut enc = ContentEncoding::new();
    enc.push(Encoding::Gzip);
    enc.push(Encoding::Brotli);
    let mut headers = Headers::new();
    enc.apply(&mut headers);
    assert_eq!(*headers.get(&constants::content_encoding()).unwrap(), "gzip, br");
    let back = ContentEncoding::from_headers(&headers).unwrap().unwrap();
    assert_eq!(back.entries(), &[Encoding::Gzip, Encoding::Brotli]);
}

#[test]
fn mod_smoke() {
    let mut entries = ClearSiteData::new();
    entries.push(ClearDirective::Cache);
    entries.push(ClearDirective::Cookies);

    let mut headers = Headers::new();
    entries.apply(&mut headers);

    let entries = ClearSiteData::from_headers(&headers).unwrap().unwrap();
    let mut entries = entries.entries().iter();
    assert_eq!(entries.next().unwrap(), &ClearDirective::Cache);
    assert_eq!(entries.next().unwrap(), &ClearDirective::Cookies);
}

#[test]
fn mod_wildcard() {
    let mut entries = ClearSiteData::new();
    entries.push(ClearDirective::Cache);
    entries.set_wildcard(true);

    let mut headers = Headers::new();
    entries.apply(&mut headers);

    let entries = ClearSiteData::from_headers(&headers).unwrap().unwrap();
    assert!(entries.wildcard());
    let mut entries = entries.entries().iter();
    assert_eq!(entries.next().unwrap(), &ClearDirective::Cache);
}

#[test]
fn parse_quotes_correctly() {
    let mut headers = Headers::new();
    headers.insert(name("clear-site-data"), r#""cookies""#).unwrap();

    let entries = ClearSiteData::from_headers(&headers).unwrap().unwrap();
    assert!(!entries.wildcard());
    let mut entries = entries.entries().iter();
    assert_eq!(entries.next().unwrap(), &ClearDirective::Cookies);

    let mut headers = Headers::new();
    headers.insert(name("clear-site-data"), r#""*""#).unwrap();

    let entries = ClearSiteData::from_headers(&headers).unwrap().unwrap();
    assert!(entries.wildcard());
    let mut entries = entries.entries().iter();
    assert_eq!(entries.next(), None);
}

#[test]
fn clear_site_data_unknown_directive() {
    let mut headers = Headers::new();
    headers.insert(name("clear-site-data"), r#""cache", cookies"#).unwrap();
    assert_eq!(ClearSiteData::from_headers(&headers).unwrap_err().status(), 500);
    let mut entries = ClearSiteData::new();
    entries.set_wildcard(true);
    assert_eq!(entries.value().as_str(), "\"*\"");
}

#[test]
fn cache_directive_kinds() {
    assert!(CacheDirective::MaxAge(5).is_req());
    assert!(CacheDirective::MaxAge(5).is_res());
    assert!(CacheDirective::OnlyIfCached.is_req());
    assert!(!CacheDirective::OnlyIfCached.is_res());
    assert!(!CacheDirective::Immutable.is_req());
    assert!(!CacheDirective::Immutable.is_res());
    assert!(CacheDirective::Public.is_res());
    assert!(!CacheDirective::Public.is_req());
}

#[test]
fn basic_auth_from_decoded_bytes() {
    let auth = BasicAuth::from_decoded(b"user:pa:ss".to_vec()).unwrap();
    assert_eq!(auth.username(), "user");
    assert_eq!(auth.password(), "pa:ss");
    assert!(BasicAuth::from_decoded(vec![0xff, b':', b'x']).is_err());
    assert!(BasicAuth::from_decoded(b"nopassword".to_vec()).is_err());
}

#[test]
fn weak_tags_in_conditions_read_back() {
    let weak = ETag::new_weak(String::from("w1"));
    let mut headers = Headers::new();
    IfRange::from(weak.clone()).apply(&mut headers);
    match IfRange::from_headers(&headers).unwrap().unwrap() {
        IfRange::ETag(t) => assert_eq!(t, weak),
        _ => panic!("a weak tag read back as a date"),
    }
    let mut entries = IfMatch::new();
    entries.push(MatchDirective::from(weak.clone()));
    entries.push(MatchDirective::Wildcard);
    let mut headers = Headers::new();
    entries.apply(&mut headers);
    let back = IfMatch::from_headers(&headers).unwrap().unwrap();
    assert_eq!(back.entries()[0], MatchDirective::ETag(weak));
    assert_eq!(back.entries()[1], MatchDirective::Wildcard);
}
