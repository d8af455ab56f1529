use std::io::Read;
use zaphyl::encoding::{accepts_coding, negotiate_encoding, BodyEncoder, Encoding};
use zaphyl::message::{insert_header, response_head};
use zaphyl::relay::{accumulate_cache_body, count_chunk, is_safe_method, take_in, Intake};

fn zero(text: &str) -> bool {
    text.parse::<f32>().is_ok_and(|q| q == 0.0)
}

/// Encode a payload in two chunks plus a finish, then decode with the
/// matching decoder and confirm the round-trip is lossless and shrinks.
fn round_trip(encoding: Encoding) {
    let original = "zaphyl ".repeat(500);
    let bytes = original.as_bytes();
    let mut encoder = BodyEncoder::new(encoding, 6).unwrap();
    let mut out = encoder.push(&bytes[..1000]).unwrap();
    out.extend(encoder.push(&bytes[1000..]).unwrap());
    out.extend(encoder.finish().unwrap());
    assert!(
        out.len() < bytes.len(),
        "{encoding:?} should shrink the body"
    );

    let mut decoded = Vec::new();
    match encoding {
        Encoding::Gzip => {
            flate2::read::GzDecoder::new(&out[..])
                .read_to_end(&mut decoded)
                .unwrap();
        }
        Encoding::Brotli => {
            brotli::Decompressor::new(&out[..], 4096)
                .read_to_end(&mut decoded)
                .unwrap();
        }
        Encoding::Zstd => {
            zstd::stream::read::Decoder::new(&out[..])
                .unwrap()
                .read_to_end(&mut decoded)
                .unwrap();
        }
    }
    assert_eq!(decoded, bytes, "{encoding:?} round-trip mismatch");
}

#[test]
fn body_encoder_round_trips_gzip() {
    round_trip(Encoding::Gzip);
}

#[test]
fn body_encoder_round_trips_brotli() {
    round_trip(Encoding::Brotli);
}

#[test]
fn body_encoder_round_trips_zstd() {
    round_trip(Encoding::Zstd);
}

#[test]
fn levels_beyond_a_coding_are_clamped() {
    for encoding in [Encoding::Gzip, Encoding::Brotli, Encoding::Zstd] {
        for level in [0, 9, 11, 22, u32::MAX] {
            let mut encoder = BodyEncoder::new(encoding, level).unwrap();
            let mut out = encoder.push(b"small").unwrap();
            out.extend(encoder.finish().unwrap());
            assert!(!out.is_empty());
        }
    }
}

#[test]
fn negotiate_prefers_brotli_then_zstd_then_gzip() {
    let negotiate = |value: Option<&str>| negotiate_encoding(value, &zero);
    assert_eq!(negotiate(Some("gzip, br, zstd")), Some(Encoding::Brotli));
    assert_eq!(negotiate(Some("gzip, zstd")), Some(Encoding::Zstd));
    assert_eq!(negotiate(Some("gzip")), Some(Encoding::Gzip));
    assert_eq!(negotiate(Some("identity")), None);
    assert_eq!(negotiate(None), None);
    // `q=0` means explicitly not acceptable: fall through to the next coding.
    assert_eq!(negotiate(Some("br;q=0, gzip")), Some(Encoding::Gzip));
    assert_eq!(negotiate(Some("BR ; q=0.000, GZip;q=0.5")), Some(Encoding::Gzip));
}

#[test]
fn codings_are_named_as_in_the_header() {
    assert_eq!(Encoding::Brotli.header_value(), "br");
    assert_eq!(Encoding::Zstd.header_value(), "zstd");
    assert_eq!(Encoding::Gzip.header_value(), "gzip");
    assert!(accepts_coding("br;q=1, gzip;q=0", "br", &zero));
    assert!(!accepts_coding("br;q=1, gzip;q=0", "gzip", &zero));
    assert!(!accepts_coding("brx", "br", &zero));
}

fn value(list: &[(String, String)], name: &str) -> Option<String> {
    list.iter().find(|(n, _)| n == name).map(|(_, v)| v.clone())
}

#[test]
fn response_head_sanitizes_untrusted_values() {
    // An out-of-range status falls back to 502; a header with a control
    // character in its value is dropped; valid ones survive.
    let untrusted = vec![
        ("x-ok".to_owned(), "fine".to_owned()),
        ("x-bad".to_owned(), "bad\nvalue".to_owned()),
    ];
    let head = response_head(1000, &untrusted, Some(5));
    assert_eq!(head.status, 502);
    assert_eq!(value(&head.headers, "x-ok").as_deref(), Some("fine"));
    assert!(value(&head.headers, "x-bad").is_none());
    assert_eq!(value(&head.headers, "content-length").as_deref(), Some("5"));
    // A valid status and no content-length are preserved as-is.
    let head = response_head(201, &vec![], None);
    assert_eq!(head.status, 201);
    assert!(value(&head.headers, "content-length").is_none());
}

#[test]
fn header_names_are_lower_case_tokens() {
    let given = vec![
        ("X-Upper".to_owned(), "1".to_owned()),
        ("bad name".to_owned(), "2".to_owned()),
    ];
    let head = response_head(99, &given, None);
    assert_eq!(head.status, 502);
    assert_eq!(head.headers, [("x-upper".to_owned(), "1".to_owned())]);
    assert_eq!(response_head(100, &vec![], None).status, 100);
    assert_eq!(response_head(999, &vec![], None).status, 999);
}

#[test]
fn inserting_a_header_replaces_every_one_of_its_name() {
    let pair = |n: &str, v: &str| (n.to_owned(), v.to_owned());
    let mut list = vec![pair("a", "1"), pair("b", "2"), pair("a", "3")];
    insert_header(&mut list, "A", "4");
    assert_eq!(list.len(), 2);
    assert!(list.contains(&pair("b", "2")));
    assert!(list.iter().any(|(n, v)| n.eq_ignore_ascii_case("a") && v == "4"));
}

#[test]
fn only_safe_methods_are_early_data_eligible() {
    for method in [
        http::Method::GET,
        http::Method::HEAD,
        http::Method::OPTIONS,
        http::Method::TRACE,
    ] {
        assert!(is_safe_method(method.as_str()), "{method} should be safe");
    }
    for method in [
        http::Method::POST,
        http::Method::PUT,
        http::Method::PATCH,
        http::Method::DELETE,
    ] {
        assert!(!is_safe_method(method.as_str()), "{method} should not be safe");
    }
}

#[test]
fn gathered_bodies_stop_at_their_cap() {
    let mut body = Vec::new();
    let mut overflow = false;
    accumulate_cache_body(false, &mut body, &mut overflow, b"skipped", 4);
    assert!(body.is_empty());
    accumulate_cache_body(true, &mut body, &mut overflow, b"1234", 4);
    assert_eq!(body, b"1234");
    assert!(!overflow);
    accumulate_cache_body(true, &mut body, &mut overflow, b"5", 4);
    assert!(overflow);
    assert!(body.is_empty());

    // Pieces within the cap add up to the whole body.
    let (mut body, mut overflow) = (Vec::new(), false);
    for piece in [&b"12"[..], b"", b"34"] {
        accumulate_cache_body(true, &mut body, &mut overflow, piece, 4);
    }
    assert_eq!(body, b"1234");
    assert!(!overflow);

    let mut buffered = Vec::new();
    assert_eq!(take_in(&mut buffered, b"ab", 2, None), Intake::Buffer);
    assert_eq!(take_in(&mut buffered, b"c", 2, Some(3)), Intake::Bypass);
    assert_eq!(take_in(&mut buffered, b"d", 9, Some(3)), Intake::Refuse);
    assert_eq!(buffered, b"abcd");

    let mut seen = 0;
    assert!(count_chunk(&mut seen, 3, Some(5)));
    assert!(!count_chunk(&mut seen, 3, Some(5)));
    assert_eq!(seen, 6);
    assert!(count_chunk(&mut seen, 100, None));
}
