use http_types::media_type::{self as mt};
use http_types::mime::Mime;
use http_types::MediaType;

#[test]
fn mime_parse_test() {
    let mime = Mime::from_str("text/html").unwrap();
    assert_eq!(mime.basetype(), "text");
    assert_eq!(mime.subtype(), "html");

    // technically invalid mime, but allow anyway
    let mime = Mime::from_str("text/html;").unwrap();
    assert_eq!(mime.basetype(), "text");
    assert_eq!(mime.subtype(), "html");

    let mime = Mime::from_str("text/html; charset=utf-8").unwrap();
    assert_eq!(mime.basetype(), "text");
    assert_eq!(mime.subtype(), "html");
    assert_eq!(mime.param("charset").unwrap().as_str(), "utf-8");

    let mime = Mime::from_str("text/html; charset=utf-8;").unwrap();
    assert_eq!(mime.basetype(), "text");
    assert_eq!(mime.subtype(), "html");
    assert_eq!(mime.param("charset").unwrap().as_str(), "utf-8");

    assert!(Mime::from_str("text").is_err());
    assert!(Mime::from_str("text/").is_err());
    assert!(Mime::from_str("t/").is_err());
    assert!(Mime::from_str("t/h").is_ok());
}

#[test]
fn media_type_doc_example() {
    let media_type = MediaType::from_str("text/html;charset=utf-8").unwrap();
    assert_eq!(media_type.essence(), "text/html");
    assert_eq!(media_type.param("charset").unwrap().as_str(), "utf-8");
}

#[test]
fn media_type_errors() {
    assert_eq!(MediaType::from_str("/html").unwrap_err().status(), 400);
    assert_eq!(MediaType::from_str("te xt/html").unwrap_err().status(), 400);
    assert_eq!(MediaType::from_str("text/ht ml").unwrap_err().status(), 400);
    assert_eq!(MediaType::from_str("text/html; a b=c").unwrap_err().status(), 400);
    assert_eq!(MediaType::from_str("text/html; a=b c").unwrap_err().status(), 400);
}

#[test]
fn media_type_params() {
    let m = MediaType::from_str("Text/HTML; Charset=UTF-8; flag; q=1; charset=latin1").unwrap();
    assert_eq!(m.basetype(), "Text");
    assert_eq!(m.essence(), "Text/HTML");
    assert_eq!(m.param("CHARSET").unwrap().as_str(), "latin1");
    assert_eq!(m.param("q").unwrap().as_str(), "1");
    assert!(m.param("flag").is_none());
    assert_eq!(m.to_string(), "Text/HTML; charset=latin1; q=1");
}

#[test]
fn media_type_constants_and_display() {
    assert_eq!(mt::html().to_string(), "text/html; charset=utf-8");
    assert_eq!(mt::html().param("charset").unwrap().as_str(), "utf-8");
    assert_eq!(mt::json().to_string(), "application/json");
    assert!(mt::json().param("charset").is_none());
    assert_eq!(mt::any().essence(), "*/*");
    assert_eq!(mt::svg().value().as_str(), "image/svg+xml");
    assert!(mt::html() == MediaType::from_str("text/html").unwrap());
    assert!(mt::html() != mt::css());
}

#[test]
fn media_type_from_extension() {
    assert_eq!(MediaType::from_extension("html").unwrap().essence(), "text/html");
    assert_eq!(MediaType::from_extension("mjs").unwrap().essence(), "application/javascript");
    assert_eq!(MediaType::from_extension("json").unwrap().essence(), "application/json");
    assert_eq!(MediaType::from_extension("svg").unwrap().essence(), "image/svg+xml");
    assert!(MediaType::from_extension("exe").is_none());
}

#[test]
fn media_type_sniff() {
    let png = [0x89, 0x50, 0x4E, 0x47, 0x0D, 0x0A, 0x1A, 0x0A, 0, 0];
    assert_eq!(MediaType::sniff(&png).unwrap().essence(), "image/png");
    let jpeg = [0xFF, 0xD8, 0xFF, 0xAA];
    assert_eq!(MediaType::sniff(&jpeg).unwrap().essence(), "image/jpeg");
    assert_eq!(MediaType::sniff(b"plain words").unwrap_err().status(), 500);
}

#[test]
fn sniffable_leaves_out_truncated_brands() {
    // A box length of 17 that fits the buffer, with the last brand cut short.
    let mut heif = vec![0, 0, 0, 17, b'f', b't', b'y', b'p', b'a', b'b', b'c', b'd'];
    heif.extend_from_slice(&[0, 0, 0, 0, 0]);
    assert!(!mt::sniffable(&heif));
    // The same header with whole brands sniffs.
    let mut whole = vec![0, 0, 0, 20, b'f', b't', b'y', b'p', b'a', b'v', b'i', b'f'];
    whole.extend_from_slice(&[0, 0, 0, 0, b'm', b'i', b'f', b'1']);
    assert!(mt::sniffable(&whole));
    assert_eq!(MediaType::sniff(&whole).unwrap().essence(), "image/avif");
    // An office document header whose offset field overflows the matcher.
    let mut office = vec![b'P', b'K', 3, 4];
    office.extend_from_slice(&[0; 14]);
    office.extend_from_slice(&[0xff, 0xff, 0xff, 0xff]);
    office.extend_from_slice(&[0; 8]);
    office.extend_from_slice(b"[Content_Types].xml");
    assert!(!mt::sniffable(&office));
    // Without the marker file name the office matcher stops early.
    let mut zip = vec![b'P', b'K', 3, 4];
    zip.extend_from_slice(&[0; 14]);
    zip.extend_from_slice(&[0xff, 0xff, 0xff, 0xff]);
    assert!(mt::sniffable(&zip));
    assert_eq!(MediaType::sniff(&zip).unwrap().essence(), "application/zip");
    // A TIFF header with `CR` and nothing after it.
    let cr2 = [b'I', b'I', 0x2a, 0, 0, 0, 0, 0, b'C', b'R'];
    assert!(!mt::sniffable(&cr2));
    let cr2 = [b'I', b'I', 0x2a, 0, 0, 0, 0, 0, b'C', b'R', 2];
    assert!(mt::sniffable(&cr2));
    assert_eq!(MediaType::sniff(&cr2).unwrap().essence(), "image/x-canon-cr2");
    assert!(mt::sniffable(b"plain words"));
}

#[test]
fn media_type_round_trip() {
    for text in [
        "text/html",
        "image/svg+xml",
        "text/plain; charset=utf-8",
        "a/b; x=",
        "t/; q=1",
        "text/html; charset=latin1; q=1; level=2",
    ] {
        let m = MediaType::from_str(text).unwrap();
        let again = MediaType::from_str(&m.to_string()).unwrap();
        assert_eq!(again.to_string(), m.to_string());
        assert_eq!(again.basetype(), m.basetype());
        assert_eq!(again.subtype(), m.subtype());
        assert_eq!(again.param("q"), m.param("q"));
    }
    let m = MediaType::from_str("text/html; charset=latin1; q=1").unwrap();
    assert_eq!(m.to_string(), "text/html; charset=latin1; q=1");
    assert_eq!(m.param("charset").unwrap().as_str(), "latin1");
}

#[test]
fn param_kind_unwrap_gives_the_pairs() {
    let mut kind = mt::ParamKind::Vec(Vec::new());
    assert_eq!(kind.unwrap().len(), 0);
    let name = mt::ParamName::from_str("Charset").unwrap();
    assert_eq!(name.as_str(), "charset");
    assert!(mt::ParamName::from_str("ünï").is_err());
}

#[test]
fn empty_subtype_without_parameters_does_not_read_back() {
    let m = MediaType::from_str("a/;").unwrap();
    assert_eq!(m.subtype(), "");
    assert_eq!(m.to_string(), "a/");
    assert_eq!(MediaType::from_str(&m.to_string()).unwrap_err().status(), 400);
}

#[test]
fn checked_from_str_tells_unterminated_text() {
    assert!(MediaType::checked_from_str("text/html; charset").is_none());
    let m = MediaType::checked_from_str("text/html; charset=utf-8").unwrap().unwrap();
    assert_eq!(m.essence(), "text/html");
    assert_eq!(MediaType::checked_from_str("nope").unwrap().unwrap_err().status(), 400);
}
