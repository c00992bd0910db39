use bart::decimal::{decimal_string, parse_decimal, IntErrorKind};
use bart::fields::{flag_bool, numeric_str_u32, numeric_str_u8, FieldError};
use bart::parse::{check_api_error, etd, extract, routes, stations, ApiErrorNode};
use bart::Error;

fn error_node(text: &str, details: &str) -> ApiErrorNode {
    ApiErrorNode { text: Some(text.to_string()), details: Some(details.to_string()) }
}

// ── check_api_error ─────────────────────────────────────────────────────────

#[test]
fn api_error_ok_on_normal_response() {
    assert!(check_api_error(None).is_ok());
}

#[test]
fn api_error_surfaces_text() {
    let node = error_node("Invalid station", "");
    let Err(Error::Api(msg)) = check_api_error(Some(&node)) else {
        panic!("expected Err")
    };
    assert_eq!(msg, "Invalid station");
}

#[test]
fn api_error_appends_details() {
    let node = error_node("Bad request", "check your API key");
    let Err(Error::Api(msg)) = check_api_error(Some(&node)) else {
        panic!("expected Err")
    };
    assert_eq!(msg, "Bad request: check your API key");
}

#[test]
fn api_error_omits_separator_when_details_empty() {
    let node = error_node("Something went wrong", "");
    let Err(Error::Api(msg)) = check_api_error(Some(&node)) else {
        panic!("expected Err")
    };
    assert!(!msg.contains(':'));
}

#[test]
fn api_error_without_members_is_unknown() {
    let node = ApiErrorNode { text: None, details: None };
    let Err(Error::Api(msg)) = check_api_error(Some(&node)) else {
        panic!("expected Err")
    };
    assert_eq!(msg, "unknown error");
    let node = ApiErrorNode { text: None, details: Some("NOPE".to_string()) };
    let Err(Error::Api(msg)) = check_api_error(Some(&node)) else {
        panic!("expected Err")
    };
    assert_eq!(msg, "unknown error: NOPE");
}

// ── extract ─────────────────────────────────────────────────────────────────

#[test]
fn extract_missing_pointer_is_api_error() {
    let r: Result<Vec<u8>, Error> = extract(None, "/root/stations/station");
    assert!(matches!(r, Err(Error::Api(_))));
    let Err(Error::Api(msg)) = r else { unreachable!() };
    assert_eq!(msg, "missing field at '/root/stations/station'");
}

#[test]
fn extract_present_node_is_returned() {
    let r: Result<u8, Error> = extract(Some(7), "/root/station");
    assert!(matches!(r, Ok(7)));
}

// ── envelopes ───────────────────────────────────────────────────────────────

#[test]
fn stations_error_response() {
    let node = error_node("Invalid", "");
    assert!(matches!(stations(Some(&node), Some(1u8)), Err(Error::Api(_))));
}

#[test]
fn routes_error_response() {
    let node = error_node("Invalid", "");
    assert!(matches!(routes(Some(&node), Some(1u8)), Err(Error::Api(_))));
}

#[test]
fn etd_error_response() {
    let node = error_node("Invalid station", "NOPE is not valid");
    assert!(matches!(etd(Some(&node), Some(1u8)), Err(Error::Api(_))));
}

#[test]
fn envelope_missing_payload_names_pointer() {
    let Err(Error::Api(msg)) = routes::<u8>(None, None) else { panic!("expected Err") };
    assert_eq!(msg, "missing field at '/root/routes/route'");
    let Err(Error::Api(msg)) = etd::<u8>(None, None) else { panic!("expected Err") };
    assert_eq!(msg, "missing field at '/root/station'");
    assert!(matches!(stations(None, Some(3u8)), Ok(3)));
}

#[test]
fn error_describes_itself() {
    assert_eq!(Error::Api("Invalid".to_string()).to_string(), "API error: Invalid");
    assert_eq!(Error::Json("bad".to_string()).to_string(), "JSON error: bad");
    assert_eq!(Error::Http("down".to_string()).to_string(), "HTTP error: down");
}

// ── numbers and flags ───────────────────────────────────────────────────────

#[test]
fn parse_decimal_matches_str_parse() {
    for s in ["0", "7", "+7", "255", "256", "", "+", "-", "-1", "1a", "00012", "99999999999", "9a99999999999"] {
        let ours = parse_decimal(s, 255);
        let std: Result<u8, _> = s.parse::<u8>();
        match (ours, std) {
            (Ok(a), Ok(b)) => assert_eq!(a as u8, b, "{s}"),
            (Err(k), Err(e)) => assert_eq!(k.message(), e.to_string(), "{s}"),
            (a, b) => panic!("{s}: {a:?} vs {b:?}"),
        }
    }
    assert_eq!(parse_decimal("4294967295", u32::MAX), Ok(u32::MAX));
    assert_eq!(parse_decimal("4294967296", u32::MAX), Err(IntErrorKind::PosOverflow));
    assert_eq!(parse_decimal("42949672x6", u32::MAX), Err(IntErrorKind::InvalidDigit));
    assert_eq!(parse_decimal("42949672961x", u32::MAX), Err(IntErrorKind::PosOverflow));
}

#[test]
fn decimal_string_roundtrips() {
    for n in [0u64, 9, 10, 99, 100, 255, 4294967295, u64::MAX] {
        assert_eq!(decimal_string(n), n.to_string());
    }
    for n in [0u32, 1, 42, 65535, u32::MAX] {
        assert_eq!(parse_decimal(&decimal_string(n as u64), u32::MAX), Ok(n));
    }
}

#[test]
fn flags_read_zero_and_one() {
    assert!(matches!(flag_bool("1"), Ok(true)));
    assert!(matches!(flag_bool("0"), Ok(false)));
    let Err(e) = flag_bool("yes") else { panic!("expected Err") };
    assert!(matches!(&e, FieldError::NotAFlag(t) if t == "yes"));
    assert_eq!(e.to_string(), "expected '0' or '1', got 'yes'");
}

#[test]
fn numeric_fields_check_their_range() {
    assert!(matches!(numeric_str_u8("6"), Ok(6)));
    assert!(matches!(numeric_str_u8("300"), Err(FieldError::Number(IntErrorKind::PosOverflow))));
    assert!(matches!(numeric_str_u32("300"), Ok(300)));
    assert!(matches!(numeric_str_u32(""), Err(FieldError::Number(IntErrorKind::Empty))));
    let Err(e) = numeric_str_u32("x") else { panic!("expected Err") };
    assert_eq!(e.to_string(), "invalid digit found in string");
}
