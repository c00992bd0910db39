use bart::common::hex_to_rgb;
use bart::etd::Minutes;
use bart::{Direction, Estimate, Etd, Route, StationEtd};

fn estimate_with_hex(hex: &str) -> Estimate {
    Estimate {
        minutes: Minutes::Mins(5),
        platform: 1,
        direction: Direction::North,
        length: 6,
        color: "YELLOW".to_string(),
        hexcolor: hex.to_string(),
        bikeflag: true,
        delay: 0,
        cancelflag: false,
        dynamicflag: false,
    }
}

fn route_with_hex(hex: &str) -> Route {
    Route {
        name: "Test Route".to_string(),
        abbr: "TEST".to_string(),
        route_id: "ROUTE 1".to_string(),
        number: 1,
        hexcolor: hex.to_string(),
        color: "BLUE".to_string(),
        direction: Direction::North,
    }
}

// ── common ──────────────────────────────────────────────────────────────────

#[test]
fn direction_roundtrips() {
    let n = Direction::from_name("North").unwrap();
    assert_eq!(n, Direction::North);
    assert_eq!(n.name(), "North");

    let s = Direction::from_name("South").unwrap();
    assert_eq!(s, Direction::South);
}

#[test]
fn hex_to_rgb_with_hash() {
    assert_eq!(hex_to_rgb("#FF9933"), Some((0xFF, 0x99, 0x33)));
}

#[test]
fn hex_to_rgb_without_hash() {
    assert_eq!(hex_to_rgb("0099CC"), Some((0x00, 0x99, 0xCC)));
}

#[test]
fn hex_to_rgb_rejects_short() {
    assert_eq!(hex_to_rgb("#FFF"), None);
}

#[test]
fn hex_to_rgb_rejects_invalid_chars() {
    assert_eq!(hex_to_rgb("#ZZZZZZ"), None);
}

#[test]
fn hex_to_rgb_takes_one_leading_hash() {
    assert_eq!(hex_to_rgb("#ff9933"), Some((0xFF, 0x99, 0x33)));
    assert_eq!(hex_to_rgb("##ff9933"), None);
    assert_eq!(hex_to_rgb("#"), None);
    assert_eq!(hex_to_rgb(""), None);
}

#[test]
fn hex_to_rgb_needs_six_hex_digits() {
    assert_eq!(hex_to_rgb("+F+1+a"), None);
    assert_eq!(hex_to_rgb("-F0000"), None);
    assert_eq!(hex_to_rgb("1234567"), None);
    assert_eq!(hex_to_rgb("aBcDeF"), Some((0xAB, 0xCD, 0xEF)));
}

#[test]
fn hex_to_rgb_rejects_non_ascii_fields() {
    // Six bytes long, but not six hex digits.
    assert_eq!(hex_to_rgb("ééé"), None);
    assert_eq!(hex_to_rgb("aébcd"), None);
    assert_eq!(hex_to_rgb("#ab\u{e9}ab"), None);
}

// ── minutes ─────────────────────────────────────────────────────────────────

#[test]
fn minutes_leaving() {
    let m = Minutes::from_api("Leaving").unwrap();
    assert!(matches!(m, Minutes::Leaving));
    assert_eq!(m.to_string(), "Leaving");
    assert_eq!(m.as_mins(), None);
}

#[test]
fn minutes_numeric() {
    let m = Minutes::from_api("8").unwrap();
    assert!(matches!(m, Minutes::Mins(8)));
    assert_eq!(m.to_string(), "8 min");
    assert_eq!(m.as_mins(), Some(8));
}

#[test]
fn minutes_zero() {
    let m = Minutes::from_api("0").unwrap();
    assert!(matches!(m, Minutes::Mins(0)));
}

#[test]
fn minutes_invalid_rejects() {
    let r = Minutes::from_api("soon");
    assert!(r.is_none());
}

#[test]
fn minutes_edge_cases() {
    assert_eq!(Minutes::from_api("+12"), Some(Minutes::Mins(12)));
    assert_eq!(Minutes::from_api("4294967295"), Some(Minutes::Mins(u32::MAX)));
    assert_eq!(Minutes::from_api("4294967296"), None);
    assert_eq!(Minutes::from_api(""), None);
    assert_eq!(Minutes::from_api("leaving"), None);
    assert_eq!(Minutes::Mins(1234).to_string(), "1234 min");
}

// ── estimates ───────────────────────────────────────────────────────────────

#[test]
fn estimate_rgb_parses_hexcolor() {
    let e = estimate_with_hex("#FFFF33");
    assert_eq!(e.rgb(), Some((0xFF, 0xFF, 0x33)));
}

#[test]
fn estimate_rgb_returns_none_for_invalid_hex() {
    let e = estimate_with_hex("bad");
    assert_eq!(e.rgb(), None);
}

#[test]
fn estimate_flags() {
    let mut e = estimate_with_hex("#FFFF33");
    assert!(!e.is_delayed());
    assert!(e.bikes_allowed());
    assert!(!e.is_cancelled());
    e.delay = 120;
    e.cancelflag = true;
    e.bikeflag = false;
    assert!(e.is_delayed());
    assert!(e.is_cancelled());
    assert!(!e.bikes_allowed());
}

// ── routes ──────────────────────────────────────────────────────────────────

#[test]
fn rgb_parses_hexcolor() {
    let r = route_with_hex("#0099CC");
    assert_eq!(r.rgb(), Some((0x00, 0x99, 0xCC)));
}

#[test]
fn rgb_returns_none_for_invalid_hex() {
    let r = route_with_hex("not-a-color");
    assert_eq!(r.rgb(), None);
}

#[test]
fn retain_direction_keeps_order() {
    let mut a = route_with_hex("#111111");
    a.name = "a".to_string();
    let mut b = route_with_hex("#222222");
    b.name = "b".to_string();
    b.direction = Direction::South;
    let mut c = route_with_hex("#333333");
    c.name = "c".to_string();
    let mut routes = vec![a, b, c];
    bart::route::retain_direction(&mut routes, Direction::North);
    let names: Vec<&str> = routes.iter().map(|r| r.name.as_str()).collect();
    assert_eq!(names, vec!["a", "c"]);
}

// ── grouping ────────────────────────────────────────────────────────────────

fn etd(dest: &str, dir: Direction, mins: &[Minutes]) -> Etd {
    Etd {
        destination: dest.to_string(),
        abbreviation: dest.to_uppercase(),
        limited: false,
        estimate: mins
            .iter()
            .map(|m| {
                let mut e = estimate_with_hex("#FFFF33");
                e.minutes = *m;
                e.direction = dir;
                e
            })
            .collect(),
    }
}

#[test]
fn next_mins_reads_first_estimate() {
    assert_eq!(etd("A", Direction::North, &[Minutes::Mins(4), Minutes::Mins(9)]).next_mins(), Some(4));
    assert_eq!(etd("A", Direction::North, &[Minutes::Leaving, Minutes::Mins(9)]).next_mins(), None);
    assert_eq!(etd("A", Direction::North, &[]).next_mins(), None);
}

#[test]
fn by_direction_splits_and_sorts_stably() {
    let stn = StationEtd {
        name: "Embarcadero".to_string(),
        abbr: "EMBR".to_string(),
        etd: vec![
            etd("Richmond", Direction::North, &[Minutes::Mins(17)]),
            etd("SF Airport", Direction::South, &[Minutes::Mins(2)]),
            etd("Antioch", Direction::North, &[Minutes::Mins(20)]),
            etd("Dublin", Direction::North, &[Minutes::Mins(17)]),
            etd("Daly City", Direction::South, &[Minutes::Leaving]),
            etd("Nowhere", Direction::North, &[]),
            etd("Millbrae", Direction::South, &[Minutes::Mins(0)]),
        ],
    };
    let g = stn.by_direction();
    let north: Vec<&str> = g.north.iter().map(|e| e.destination.as_str()).collect();
    let south: Vec<&str> = g.south.iter().map(|e| e.destination.as_str()).collect();
    assert_eq!(north, vec!["Richmond", "Dublin", "Antioch"]);
    // Trains at the platform come first; a destination without estimates
    // counts as southbound and sorts as 0 minutes; equal keys keep their order.
    assert_eq!(south, vec!["Daly City", "Nowhere", "Millbrae", "SF Airport"]);
}

#[test]
fn by_direction_of_no_service_is_empty() {
    let stn = StationEtd { name: "Fremont".to_string(), abbr: "FRMT".to_string(), etd: vec![] };
    let g = stn.by_direction();
    assert!(g.north.is_empty());
    assert!(g.south.is_empty());
}

#[test]
fn hex_colors_read_back() {
    for (r, g, b) in [(0u8, 0u8, 0u8), (255, 255, 255), (0x12, 0xAB, 0x9F), (1, 2, 3)] {
        let text = format!("#{r:02X}{g:02X}{b:02X}");
        assert_eq!(hex_to_rgb(&text), Some((r, g, b)));
        assert_eq!(hex_to_rgb(&text[1..]), hex_to_rgb(&text));
    }
}

#[test]
fn minutes_read_back_from_api_text() {
    for n in [0u32, 8, 59, 1000, u32::MAX] {
        let text = bart::decimal::decimal_string(n as u64);
        assert_eq!(Minutes::from_api(&text), Some(Minutes::Mins(n)));
    }
    assert_eq!(Minutes::from_api(&Minutes::Leaving.to_string()), Some(Minutes::Leaving));
    // The displayed text of a number of minutes is not an API value.
    assert_eq!(Minutes::from_api(&Minutes::Mins(8).to_string()), None);
}

#[test]
fn by_direction_puts_platform_trains_before_zero_minutes() {
    let stn = StationEtd {
        name: "Glen Park".to_string(),
        abbr: "GLEN".to_string(),
        etd: vec![
            etd("Zero", Direction::North, &[Minutes::Mins(0)]),
            etd("Platform", Direction::North, &[Minutes::Leaving]),
            etd("Later", Direction::North, &[Minutes::Mins(3)]),
            etd("Also platform", Direction::North, &[Minutes::Leaving]),
        ],
    };
    let g = stn.by_direction();
    let north: Vec<&str> = g.north.iter().map(|e| e.destination.as_str()).collect();
    assert_eq!(north, vec!["Platform", "Also platform", "Zero", "Later"]);
}

#[test]
fn by_direction_sorts_destinations_without_estimates_as_zero() {
    let stn = StationEtd {
        name: "Glen Park".to_string(),
        abbr: "GLEN".to_string(),
        etd: vec![
            etd("X", Direction::South, &[Minutes::Mins(0)]),
            etd("Y", Direction::South, &[]),
            etd("Z", Direction::South, &[Minutes::Leaving]),
            etd("W", Direction::South, &[Minutes::Mins(1)]),
        ],
    };
    let g = stn.by_direction();
    let south: Vec<&str> = g.south.iter().map(|e| e.destination.as_str()).collect();
    assert_eq!(south, vec!["Z", "X", "Y", "W"]);
    assert!(g.north.is_empty());
}
