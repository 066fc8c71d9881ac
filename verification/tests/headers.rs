use http_types::headers::{proposal_parts, Header, HeaderName, HeaderValue, Headers, ToHeader};

fn name(s: &str) -> HeaderName {
    HeaderName::from_str(s).unwrap()
}

#[test]
fn header_from_strings() {
    let strings = ("Content-Length", "12");
    assert_eq!(strings.header_name(), "Content-Length");
    assert_eq!(strings.header_value(), "12");
}

#[test]
fn header_name_test_header_name_static_non_static() {
    let static_header = HeaderName::from_lowercase_str("hello");
    let non_static_header = HeaderName::from_str("hello").unwrap();

    assert_eq!(&static_header, &non_static_header);
    assert_eq!(&static_header, &static_header);
    assert_eq!(&non_static_header, &non_static_header);

    assert_eq!(static_header, non_static_header);
    assert_eq!(static_header, static_header);
    assert_eq!(non_static_header, non_static_header);
}

#[test]
fn test_debug() {
    let header_value = HeaderValue::from_str("foo0").unwrap();
    assert_eq!(header_value.debug_string(), "\"foo0\"");
}

#[test]
fn headers_test_header_name_static_non_static() {
    let static_const = HeaderName::from_lowercase_str("hello");
    let static_header = HeaderName::from_lowercase_str("hello");
    let non_static_header = HeaderName::from_str("hello").unwrap();

    let mut headers = Headers::new();
    headers.append(static_const.clone(), "foo0").unwrap();
    headers.append(static_header.clone(), "foo1").unwrap();
    headers.append(non_static_header.clone(), "foo2").unwrap();

    for n in [&static_const, &static_header, &non_static_header] {
        let values = headers.get(n).unwrap();
        let got: Vec<&str> = values.as_slice().iter().map(|v| v.as_str()).collect();
        assert_eq!(got, ["foo0", "foo1", "foo2"]);
    }
}

#[test]
fn mod_test_header_name_static_non_static() {
    let static_const = HeaderName::from_lowercase_str("hello");
    let static_header = HeaderName::from_lowercase_str("hello");
    let non_static_header = HeaderName::from_str("hello").unwrap();

    let mut headers = Headers::new();
    headers.append(static_const.clone(), HeaderValue::from_str("foo0").unwrap()).unwrap();
    headers.append(static_header.clone(), HeaderValue::from_str("foo1").unwrap()).unwrap();
    headers.append(non_static_header.clone(), HeaderValue::from_str("foo2").unwrap()).unwrap();

    let expected = [
        HeaderValue::from_str("foo0").unwrap(),
        HeaderValue::from_str("foo1").unwrap(),
        HeaderValue::from_str("foo2").unwrap(),
    ];
    assert_eq!(headers.get(&static_const).unwrap().as_slice(), &expected[..]);
    assert_eq!(headers.get(&static_header).unwrap().as_slice(), &expected[..]);
    assert_eq!(headers.get(&non_static_header).unwrap().as_slice(), &expected[..]);
}

#[test]
fn index_into_headers() {
    let mut headers = Headers::new();
    headers.insert(name("hello"), "foo0").unwrap();
    assert_eq!(*headers.index_str("hello"), "foo0");
    assert_eq!(*headers.get(&name("hello")).unwrap(), "foo0");
}

#[test]
fn test_debug_single() {
    let mut headers = Headers::new();
    headers.insert(name("single"), "foo0").unwrap();
    assert_eq!(headers.debug_string(), r#"{"single": "foo0"}"#);
}

#[test]
fn test_debug_multiple() {
    let mut headers = Headers::new();
    headers.append(name("multi"), "foo0").unwrap();
    headers.append(name("multi"), "foo1").unwrap();
    assert_eq!(headers.debug_string(), r#"{"multi": ["foo0", "foo1"]}"#);
}

#[test]
fn insert_replaces_and_remove_deletes() {
    let mut headers = Headers::new();
    headers.append(name("x-a"), "1").unwrap();
    headers.append(name("x-a"), "2").unwrap();
    let previous = headers.insert(name("X-A"), "3").unwrap().unwrap();
    assert_eq!(previous.len(), 2);
    assert_eq!(*headers.get(&name("x-a")).unwrap(), "3");
    assert_eq!(headers.len(), 1);
    let removed = headers.remove(&name("x-a")).unwrap();
    assert_eq!(removed, "3");
    assert!(headers.get(&name("x-a")).is_none());
    assert_eq!(headers.len(), 0);
}

#[test]
fn header_names_are_lowercased_and_ascii() {
    assert_eq!(name("Content-TYPE").as_str(), "content-type");
    assert!(HeaderName::from_str("héllo").is_err());
    assert!(HeaderName::from_ascii(vec![0xC3, 0xA9]).is_err());
    assert_eq!(HeaderName::from_ascii(b"X-Foo".to_vec()).unwrap().as_str(), "x-foo");
}

#[test]
fn header_values_must_be_ascii() {
    let err = HeaderValue::from_str("naïve").unwrap_err();
    assert_eq!(err.status(), 500);
    assert!(HeaderValue::from_bytes(vec![0xff]).is_err());
    assert_eq!(HeaderValue::from_bytes(b"ok".to_vec()).unwrap().as_str(), "ok");
}

#[test]
fn debug_escapes_quotes_and_controls() {
    let v = HeaderValue::from_str("a\"b\\c\td").unwrap();
    assert_eq!(v.debug_string(), format!("{:?}", "a\"b\\c\td"));
}

#[test]
fn names_and_values_iterate_in_order() {
    let mut headers = Headers::new();
    headers.append(name("a"), "1").unwrap();
    headers.append(name("b"), "2").unwrap();
    headers.append(name("a"), "3").unwrap();
    let mut names = headers.names();
    assert_eq!(names.next().unwrap().as_str(), "a");
    assert_eq!(names.next().unwrap().as_str(), "b");
    assert!(names.next().is_none());
    let mut values = headers.values();
    assert_eq!(values.next().unwrap().as_str(), "1");
    assert_eq!(values.next().unwrap().as_str(), "3");
    assert_eq!(values.next().unwrap().as_str(), "2");
    assert!(values.next().is_none());
}

#[test]
fn values_collect_rest_drains_in_order() {
    let mut headers = Headers::new();
    headers.append(name("a"), "1").unwrap();
    headers.append(name("b"), "2").unwrap();
    headers.append(name("a"), "3").unwrap();
    let all: Vec<&str> = headers.values().collect_rest().iter().map(|v| v.as_str()).collect();
    assert_eq!(all, ["1", "3", "2"]);
    let mut values = headers.values();
    assert_eq!(values.next().unwrap().as_str(), "1");
    let rest: Vec<&str> = values.collect_rest().iter().map(|v| v.as_str()).collect();
    assert_eq!(rest, ["3", "2"]);
    assert!(values.next().is_none());
    let names: Vec<&str> = headers.names().collect_rest().iter().map(|n| n.as_str()).collect();
    assert_eq!(names, ["a", "b"]);
}

#[test]
fn to_header_pairs() {
    let (n, v) = ("Content-Length", "12").to_header().unwrap();
    assert_eq!(n.as_str(), "content-length");
    assert_eq!(v.as_str(), "12");
    assert!(("ünï", "12").to_header().is_err());
}

#[test]
fn get_mut_changes_values_in_place() {
    let mut headers = Headers::new();
    headers.insert(name("x-list"), "a").unwrap();
    headers.insert(name("x-other"), "z").unwrap();
    {
        let values = headers.get_mut(&name("x-list")).unwrap();
        values.append(http_types::headers::HeaderValues::new(HeaderValue::from_str("b").unwrap()));
    }
    let got: Vec<&str> = headers
        .get(&name("x-list"))
        .unwrap()
        .as_slice()
        .iter()
        .map(|v| v.as_str())
        .collect();
    assert_eq!(got, ["a", "b"]);
    assert_eq!(*headers.get(&name("x-other")).unwrap(), "z");
    assert!(headers.get_mut(&name("missing")).is_none());
}

#[test]
fn proposal_parts_skip_blanks_and_note_the_wildcard() {
    let mut headers = Headers::new();
    headers.insert(name("accept-language"), " en-CA;q=0.5, *, , fr ").unwrap();
    headers.append(name("accept-language"), "de").unwrap();
    let (parts, wildcard) = proposal_parts(&headers, &name("accept-language")).unwrap();
    assert_eq!(parts, vec!["en-CA;q=0.5", "fr", "de"]);
    assert!(wildcard);
    headers.insert(name("accept-encoding"), "gzip").unwrap();
    let (parts, wildcard) = proposal_parts(&headers, &name("accept-encoding")).unwrap();
    assert_eq!(parts, vec!["gzip"]);
    assert!(!wildcard);
    assert!(proposal_parts(&headers, &name("accept")).is_none());
}

#[test]
fn value_at_mut_counts_entry_after_entry() {
    let mut headers = Headers::new();
    headers.append(name("a"), "1").unwrap();
    headers.append(name("b"), "2").unwrap();
    headers.append(name("a"), "3").unwrap();
    {
        let v = headers.value_at_mut(1).unwrap();
        assert_eq!(v.as_str(), "3");
        *v = HeaderValue::from_str("three").unwrap();
    }
    let all: Vec<&str> = headers.values().collect_rest().iter().map(|v| v.as_str()).collect();
    assert_eq!(all, ["1", "three", "2"]);
    assert!(headers.value_at_mut(3).is_none());
}
