use boguin::header::HeaderValue;
use boguin::message::{Method, StatusCode, Version};
use boguin::text::parse_unsigned;
use boguin::util::{
    get_content_length, get_declared_length, is_chunked, is_persistent_connection,
    is_redirect_method_get, is_redirect_status,
};

fn status(code: u16) -> StatusCode {
    StatusCode::from_u16(code).unwrap()
}

fn value(bytes: &[u8]) -> HeaderValue {
    HeaderValue::from_bytes(bytes).unwrap()
}

#[test]
fn redirect_statuses_are_recognised() {
    for code in [301, 302, 303, 307, 308] {
        assert!(is_redirect_status(status(code)), "{}", code);
    }
}

#[test]
fn other_statuses_do_not_redirect() {
    for code in [200, 404, 500, 100, 300, 304, 305, 306, 309, 599] {
        assert!(!is_redirect_status(status(code)), "{}", code);
    }
}

#[test]
fn only_the_five_redirect() {
    let mut redirecting = Vec::new();
    for code in 100..600u16 {
        if is_redirect_status(status(code)) {
            redirecting.push(code);
        }
    }
    assert_eq!(redirecting, vec![301, 302, 303, 307, 308]);
}

#[test]
fn status_codes_have_three_digits_below_600() {
    assert!(StatusCode::from_u16(99).is_none());
    assert!(StatusCode::from_u16(600).is_none());
    assert!(StatusCode::from_u16(0).is_none());
    assert_eq!(StatusCode::from_u16(100).unwrap().as_u16(), 100);
    assert_eq!(StatusCode::from_u16(599).unwrap().as_u16(), 599);
    assert!(status(100).is_informational());
    assert!(status(199).is_informational());
    assert!(!status(200).is_informational());
}

#[test]
fn post_becomes_get_after_301() {
    assert!(is_redirect_method_get(status(301), &Method::Post));
}

#[test]
fn get_stays_after_301() {
    assert!(!is_redirect_method_get(status(301), &Method::Get));
}

#[test]
fn every_method_becomes_get_after_303() {
    assert!(is_redirect_method_get(status(303), &Method::Get));
    assert!(is_redirect_method_get(status(303), &Method::Post));
    assert!(is_redirect_method_get(status(303), &Method::Put));
    assert!(is_redirect_method_get(status(303), &Method::Head));
}

#[test]
fn post_stays_after_307_and_308() {
    assert!(!is_redirect_method_get(status(307), &Method::Post));
    assert!(!is_redirect_method_get(status(308), &Method::Post));
}

#[test]
fn post_becomes_get_after_302() {
    assert!(is_redirect_method_get(status(302), &Method::Post));
    assert!(!is_redirect_method_get(status(302), &Method::Put));
    assert!(!is_redirect_method_get(status(302), &Method::Delete));
}

#[test]
fn an_extension_method_named_post_is_post() {
    let post = Method::from_bytes(b"POST").unwrap();
    assert!(matches!(post, Method::Post));
    let lower = Method::from_bytes(b"post").unwrap();
    assert!(matches!(lower, Method::Extension(_)));
    assert!(!is_redirect_method_get(status(301), &lower));
}

#[test]
fn content_length_of_one_value() {
    let five = value(b"5");
    assert_eq!(get_content_length(&vec![&five]), Some(5));
}

#[test]
fn content_length_of_equal_values() {
    let a = value(b"5");
    let b = value(b"5");
    assert_eq!(get_content_length(&vec![&a, &b]), Some(5));
}

#[test]
fn content_length_of_different_values() {
    let a = value(b"5");
    let b = value(b"6");
    assert_eq!(get_content_length(&vec![&a, &b]), None);
}

#[test]
fn content_length_of_an_unreadable_value() {
    let abc = value(b"abc");
    assert_eq!(get_content_length(&vec![&abc]), None);
}

#[test]
fn content_length_passes_over_unreadable_values() {
    let abc = value(b"abc");
    let five = value(b"5");
    let bytes = value(&[0xff, 0x35]);
    assert_eq!(get_content_length(&vec![&abc, &five]), Some(5));
    assert_eq!(get_content_length(&vec![&five, &abc, &five]), Some(5));
    assert_eq!(get_content_length(&vec![&bytes, &five]), Some(5));
    let six = value(b"6");
    assert_eq!(get_content_length(&vec![&five, &abc, &six]), None);
}

#[test]
fn content_length_of_no_value() {
    assert_eq!(get_content_length(&vec![]), None);
}

#[test]
fn content_length_reads_numbers_as_written() {
    assert_eq!(get_declared_length(&value(b"0")), Some(0));
    assert_eq!(get_declared_length(&value(b"007")), Some(7));
    assert_eq!(get_declared_length(&value(b"+12")), Some(12));
    assert_eq!(get_declared_length(&value(b"1234567890")), Some(1234567890));
    assert_eq!(get_declared_length(&value(b"")), None);
    assert_eq!(get_declared_length(&value(b"+")), None);
    assert_eq!(get_declared_length(&value(b"-1")), None);
    assert_eq!(get_declared_length(&value(b" 5")), None);
    assert_eq!(get_declared_length(&value(b"5 ")), None);
    assert_eq!(get_declared_length(&value(b"5,5")), None);
    assert_eq!(get_declared_length(&value(b"0x10")), None);
    assert_eq!(get_declared_length(&value(b"++1")), None);
}

#[test]
fn lengths_agree_with_the_standard_parser() {
    let cases: [&str; 14] = [
        "0", "5", "+5", "-5", "", "+", "abc", "12a", "00012", " 1", "1 ",
        "18446744073709551615", "18446744073709551616", "99999999999999999999999",
    ];
    for case in cases {
        assert_eq!(parse_unsigned(case.as_bytes()), case.parse::<usize>().ok(), "{:?}", case);
    }
}

#[test]
fn a_length_that_does_not_fit_is_unreadable() {
    let max = usize::MAX.to_string();
    assert_eq!(parse_unsigned(max.as_bytes()), Some(usize::MAX));
    let over = format!("{}0", max);
    assert_eq!(parse_unsigned(over.as_bytes()), None);
    let mut next = max.into_bytes();
    let last = next.len() - 1;
    next[last] += 1;
    assert_eq!(parse_unsigned(&next), None);
}

#[test]
fn http_11_without_connection_field_is_persistent() {
    assert!(is_persistent_connection(Version::Http11, &vec![]));
}

#[test]
fn http_10_is_never_persistent() {
    assert!(!is_persistent_connection(Version::Http10, &vec![]));
    let keep = value(b"keep-alive");
    assert!(!is_persistent_connection(Version::Http10, &vec![&keep]));
    assert!(!is_persistent_connection(Version::Http09, &vec![]));
    assert!(!is_persistent_connection(Version::H2, &vec![]));
}

#[test]
fn connection_close_is_not_persistent() {
    let close = value(b"close");
    assert!(!is_persistent_connection(Version::Http11, &vec![&close]));
}

#[test]
fn close_is_found_anywhere_in_any_value() {
    let keep = value(b"keep-alive");
    let list = value(b"upgrade, close");
    let inside = value(b"enclosed");
    assert!(is_persistent_connection(Version::Http11, &vec![&keep]));
    assert!(!is_persistent_connection(Version::Http11, &vec![&keep, &list]));
    assert!(!is_persistent_connection(Version::Http11, &vec![&inside]));
    let upper = value(b"Close");
    assert!(is_persistent_connection(Version::Http11, &vec![&upper]));
}

#[test]
fn a_connection_value_that_is_no_text_is_not_persistent() {
    let binary = value(&[0x80, 0x81]);
    assert!(!is_persistent_connection(Version::Http11, &vec![&binary]));
    let keep = value(b"keep-alive");
    assert!(!is_persistent_connection(Version::Http11, &vec![&keep, &binary]));
}

#[test]
fn chunked_is_decided_by_the_last_value() {
    let chunked = value(b"chunked");
    let gzip = value(b"gzip");
    let both = value(b"gzip, chunked");
    assert!(is_chunked(&vec![&chunked]));
    assert!(is_chunked(&vec![&gzip, &chunked]));
    assert!(is_chunked(&vec![&both]));
    assert!(!is_chunked(&vec![&chunked, &gzip]));
    assert!(!is_chunked(&vec![&gzip]));
    assert!(!is_chunked(&vec![]));
}

#[test]
fn chunked_must_end_the_value() {
    assert!(!is_chunked(&vec![&value(b"chunked ")]));
    assert!(!is_chunked(&vec![&value(b"chunke")]));
    assert!(!is_chunked(&vec![&value(b"Chunked")]));
    assert!(is_chunked(&vec![&value(b"xchunked")]));
    assert!(!is_chunked(&vec![&value(b"")]));
    let mut binary = vec![0x80u8];
    binary.extend_from_slice(b"chunked");
    assert!(!is_chunked(&vec![&value(&binary)]));
}
