use bart::board::{app_view, board_message, unknown_station_message, AppView};
use bart::board::{board_view, BoardEvent, BoardState, BoardView, WatchAction, WatchEvent, WatchState};
use bart::board::{board_times, dot_color, no_departures, refresh_due, selected_station, station_title, updated_label};
use bart::cli;
use bart::etd::Minutes;
use bart::render::{color_icon, dir_icon, render_estimates, render_routes, render_stations};
use bart::request::{estimates_request, routes_request, stations_request, ClientRequests, PUBLIC_KEY};
use bart::station::find_by_abbr;
use bart::text::{join, pad_right};
use bart::{Direction, Estimate, Etd, Route, Station, StationEtd};

fn station(abbr: &str, name: &str, city: &str) -> Station {
    Station {
        name: name.to_string(),
        abbr: abbr.to_string(),
        gtfs_latitude: "37.7".to_string(),
        gtfs_longitude: "-122.4".to_string(),
        address: "1 Main St".to_string(),
        city: city.to_string(),
        county: "x".to_string(),
        state: "CA".to_string(),
        zipcode: "94000".to_string(),
    }
}

fn route(color: &str, hex: &str, name: &str, dir: Direction) -> Route {
    Route {
        name: name.to_string(),
        abbr: "X-Y".to_string(),
        route_id: "ROUTE 1".to_string(),
        number: 1,
        hexcolor: hex.to_string(),
        color: color.to_string(),
        direction: dir,
    }
}

fn est(m: Minutes, dir: Direction, color: &str, hex: &str) -> Estimate {
    Estimate {
        minutes: m,
        platform: 1,
        direction: dir,
        length: 8,
        color: color.to_string(),
        hexcolor: hex.to_string(),
        bikeflag: true,
        delay: 0,
        cancelflag: false,
        dynamicflag: false,
    }
}

fn etd(dest: &str, ests: Vec<Estimate>) -> Etd {
    Etd { destination: dest.to_string(), abbreviation: "X".to_string(), limited: false, estimate: ests }
}

#[test]
fn text_helpers() {
    assert_eq!(pad_right("ab", 4), "ab  ");
    assert_eq!(pad_right("abcdef", 4), "abcdef");
    assert_eq!(pad_right("é", 3), format!("{:<3}", "é"));
    let parts = vec!["a".to_string(), "b".to_string(), "c".to_string()];
    assert_eq!(join(&parts, ", "), "a, b, c");
    assert_eq!(join(&vec![], ", "), "");
}

#[test]
fn icons() {
    assert_eq!(color_icon((255, 9, 51)), "\x1b[38;2;255;9;51m●\x1b[0m");
    assert_eq!(dir_icon(&Direction::North), "↑");
    assert_eq!(dir_icon(&Direction::South), "↓");
}

#[test]
fn station_list() {
    let out = render_stations(&vec![station("GLEN", "Glen Park", "San Francisco"), station("12TH", "12th St. Oakland City Center", "Oakland")]);
    assert_eq!(
        out,
        "GLEN    Glen Park  (San Francisco, CA)\n12TH    12th St. Oakland City Center  (Oakland, CA)\n"
    );
}

#[test]
fn route_list_plain_and_with_icons() {
    let routes = vec![
        route("BLUE", "#0099cc", "Daly City to Dublin/Pleasanton", Direction::North),
        route("BLUE", "#0099cc", "Dublin/Pleasanton to Daly City", Direction::South),
        route("GREEN", "bad", "Daly City to Berryessa", Direction::North),
    ];
    assert_eq!(
        render_routes(&routes, false),
        "\n  North\n    BLUE      Daly City to Dublin/Pleasanton\n    GREEN     Daly City to Berryessa\n\n  South\n    BLUE      Dublin/Pleasanton to Daly City\n\n"
    );
    assert_eq!(
        render_routes(&routes, true),
        "\n  ↑\n    \x1b[38;2;0;153;204m●\x1b[0m  Daly City to Dublin/Pleasanton\n      Daly City to Berryessa\n\n  ↓\n    \x1b[38;2;0;153;204m●\x1b[0m  Dublin/Pleasanton to Daly City\n\n"
    );
    let north_only = vec![route("RED", "#ff0000", "Richmond to Millbrae", Direction::South)];
    assert_eq!(render_routes(&north_only, false), "\n  South\n    RED       Richmond to Millbrae\n\n");
    assert_eq!(render_routes(&vec![], false), "\n");
}

#[test]
fn departure_board() {
    let stn = StationEtd {
        name: "Embarcadero".to_string(),
        abbr: "EMBR".to_string(),
        etd: vec![
            etd("Richmond", vec![est(Minutes::Mins(17), Direction::North, "RED", "#ff0000"), est(Minutes::Mins(33), Direction::North, "RED", "#ff0000")]),
            etd("Dublin/Pleasanton", vec![est(Minutes::Mins(17), Direction::North, "BLUE", "#0099cc")]),
            etd("SF Airport", vec![est(Minutes::Leaving, Direction::South, "YELLOW", "#ffff33"), est(Minutes::Mins(14), Direction::South, "YELLOW", "#ffff33")]),
            etd("Antioch", vec![est(Minutes::Mins(5), Direction::North, "YELLOW", "#ffff33")]),
        ],
    };
    let out = render_estimates(&vec![stn], false);
    let expected = format!(
        "Embarcadero (EMBR)\n\n  North\n    {:<8}  {:<26}  {}\n    {:<8}  {:<26}  {}\n    {:<8}  {:<26}  {}\n\n  South\n    {:<8}  {:<26}  {}\n\n",
        "YELLOW", "Antioch", " 5 min",
        "RED", "Richmond", "17 min, 33 min",
        "BLUE", "Dublin/Pleasanton", "17 min",
        "YELLOW", "SF Airport", "Leaving, 14 min",
    );
    assert_eq!(out, expected);
    let empty = StationEtd { name: "Fremont".to_string(), abbr: "FRMT".to_string(), etd: vec![] };
    assert_eq!(render_estimates(&vec![empty], true), "Fremont (FRMT)\n\n");
}

#[test]
fn browser_board_pieces() {
    let leaving = vec![est(Minutes::Leaving, Direction::South, "Y", "#ffff33"), est(Minutes::Mins(14), Direction::South, "Y", "#ffff33")];
    assert_eq!(board_times(&leaving), "Leaving, 14");
    let numbers = vec![est(Minutes::Mins(2), Direction::South, "Y", "#ffff33"), est(Minutes::Mins(14), Direction::South, "Y", "#ffff33")];
    assert_eq!(board_times(&numbers), "2, 14 min");
    assert_eq!(board_times(&vec![]), " min");
    assert_eq!(dot_color(&etd("A", numbers)), "#ffff33");
    assert_eq!(dot_color(&etd("A", vec![])), "");
    assert_eq!(updated_label(0), "Updated just now");
    assert_eq!(updated_label(42), "Updated 42s ago");
    let s = station("GLEN", "Glen Park", "San Francisco");
    assert_eq!(station_title(&s), "Glen Park (GLEN)");
    assert!(no_departures(&vec![StationEtd { name: "F".to_string(), abbr: "F".to_string(), etd: vec![] }]));
    assert!(no_departures(&vec![]));
    assert_eq!(selected_station(Some("".to_string())), None);
    assert_eq!(selected_station(Some("GLEN".to_string())), Some("GLEN".to_string()));
    assert_eq!(selected_station(None), None);
}

#[test]
fn refresh_schedule() {
    assert!(refresh_due(None, 60));
    assert!(!refresh_due(Some(59_999_999_999), 60));
    assert!(refresh_due(Some(60_000_000_000), 60));
    assert!(refresh_due(Some(0), 0));
}

#[test]
fn station_lookup() {
    let list = vec![station("GLEN", "Glen Park", "San Francisco"), station("EMBR", "Embarcadero", "San Francisco")];
    assert_eq!(find_by_abbr(&list, "EMBR").map(|s| s.name.as_str()), Some("Embarcadero"));
    assert!(find_by_abbr(&list, "NOPE").is_none());
}

#[test]
fn cli_direction_filter() {
    assert_eq!(cli::Direction::North.api_str(), "n");
    assert_eq!(cli::Direction::South.api_str(), "s");
    assert_eq!(cli::Direction::South.as_model(), Direction::South);
}

#[test]
fn requests() {
    let r = estimates_request(PUBLIC_KEY, "GLEN", Some("n"));
    assert_eq!(r.url(), "https://api.bart.gov/api/etd.aspx");
    let q: Vec<(&str, &str)> = r.query.iter().map(|(a, b)| (a.as_str(), b.as_str())).collect();
    assert_eq!(q, vec![("key", PUBLIC_KEY), ("json", "y"), ("cmd", "etd"), ("orig", "GLEN"), ("dir", "n")]);
    let r = stations_request("k");
    let q: Vec<(&str, &str)> = r.query.iter().map(|(a, b)| (a.as_str(), b.as_str())).collect();
    assert_eq!(q, vec![("key", "k"), ("json", "y"), ("cmd", "stns")]);
    assert_eq!(routes_request("k").path, "/api/route.aspx");
    assert_eq!(estimates_request("k", "EMBR", None).query.len(), 4);
}

#[test]
fn stations_sort_by_name_stably() {
    let mut list = vec![
        station("WOAK", "West Oakland", "Oakland"),
        station("12TH", "12th St. Oakland City Center", "Oakland"),
        station("ASHB", "Ashby", "Berkeley"),
        station("DUP1", "Ashby", "First"),
        station("ANTC", "Antioch", "Antioch"),
    ];
    bart::station::sort_by_name(&mut list);
    let got: Vec<(&str, &str)> = list.iter().map(|s| (s.name.as_str(), s.abbr.as_str())).collect();
    assert_eq!(
        got,
        vec![
            ("12th St. Oakland City Center", "12TH"),
            ("Antioch", "ANTC"),
            ("Ashby", "ASHB"),
            ("Ashby", "DUP1"),
            ("West Oakland", "WOAK"),
        ]
    );
    assert!(bart::station::name_lt(&station("A", "Zz", "x"), &station("B", "Zzz", "x")));
    assert!(!bart::station::name_lt(&station("A", "b", "x"), &station("B", "B", "x")));
}

fn trains(color: &str, dir: Direction, mins: &[u32]) -> Vec<Estimate> {
    mins.iter().map(|m| est(Minutes::Mins(*m), dir, color, "#000000")).collect()
}

#[test]
fn readme_estimates_board() {
    let stn = StationEtd {
        name: "Embarcadero".to_string(),
        abbr: "EMBR".to_string(),
        etd: vec![
            etd("Antioch", trains("YELLOW", Direction::North, &[20, 38, 58])),
            etd("Daly City", trains("BLUE", Direction::South, &[4, 18, 37])),
            etd("Dublin/Pleasanton", trains("BLUE", Direction::North, &[17, 39, 56])),
            etd("Millbrae", trains("RED", Direction::South, &[6, 21, 41])),
            etd("Richmond", trains("RED", Direction::North, &[17, 33, 53])),
            etd("SF Airport", trains("YELLOW", Direction::South, &[2, 14, 34])),
        ],
    };
    let expected = "Embarcadero (EMBR)

  North
    BLUE      Dublin/Pleasanton           17 min, 39 min, 56 min
    RED       Richmond                    17 min, 33 min, 53 min
    YELLOW    Antioch                     20 min, 38 min, 58 min

  South
    YELLOW    SF Airport                   2 min, 14 min, 34 min
    BLUE      Daly City                    4 min, 18 min, 37 min
    RED       Millbrae                     6 min, 21 min, 41 min

";
    assert_eq!(render_estimates(&vec![stn], false), expected);
}

#[test]
fn readme_routes_list() {
    let routes = vec![
        route("BLUE", "#0099cc", "Daly City to Dublin/Pleasanton", Direction::North),
        route("GREEN", "#339933", "Daly City to Berryessa/North San Jose", Direction::North),
        route("BLUE", "#0099cc", "Dublin/Pleasanton to Daly City", Direction::South),
        route("GREEN", "#339933", "Berryessa/North San Jose to Daly City", Direction::South),
    ];
    let expected = "
  North
    BLUE      Daly City to Dublin/Pleasanton
    GREEN     Daly City to Berryessa/North San Jose

  South
    BLUE      Dublin/Pleasanton to Daly City
    GREEN     Berryessa/North San Jose to Daly City

";
    assert_eq!(render_routes(&routes, false), expected);
}

#[test]
fn board_state_and_view() {
    let mut st = BoardState::new();
    assert_eq!(board_view(&st), BoardView::Loading);
    st.step(BoardEvent::Tick);
    assert_eq!(st.elapsed, 1);
    let empty = StationEtd { name: "F".to_string(), abbr: "F".to_string(), etd: vec![] };
    st.step(BoardEvent::Fetched(vec![empty]));
    assert_eq!(st.elapsed, 0);
    assert_eq!(board_view(&st), BoardView::NoDepartures);
    let full = StationEtd {
        name: "G".to_string(),
        abbr: "G".to_string(),
        etd: vec![etd("A", vec![est(Minutes::Mins(3), Direction::North, "Y", "#ffff33")])],
    };
    st.step(BoardEvent::Fetched(vec![full]));
    assert_eq!(board_view(&st), BoardView::Departures);
    st.step(BoardEvent::Failed("timeout".to_string()));
    assert_eq!(board_view(&st), BoardView::Error("timeout".to_string()));
    assert_eq!(st.etds.len(), 1);
}

#[test]
fn later_times_are_not_padded() {
    let stn = StationEtd {
        name: "Glen Park".to_string(),
        abbr: "GLEN".to_string(),
        etd: vec![etd(
            "Millbrae",
            vec![
                est(Minutes::Mins(3), Direction::South, "RED", "#ff0000"),
                est(Minutes::Mins(9), Direction::South, "RED", "#ff0000"),
                est(Minutes::Mins(24), Direction::South, "RED", "#ff0000"),
            ],
        ), etd(
            "Daly City",
            vec![
                est(Minutes::Leaving, Direction::South, "BLUE", "#0099cc"),
                est(Minutes::Mins(7), Direction::South, "BLUE", "#0099cc"),
            ],
        )],
    };
    let out = render_estimates(&vec![stn], false);
    let expected = format!(
        "Glen Park (GLEN)\n\n  South\n    {:<8}  {:<26}  {}\n    {:<8}  {:<26}  {}\n\n",
        "BLUE", "Daly City", "Leaving, 7 min",
        "RED", "Millbrae", " 3 min, 9 min, 24 min",
    );
    assert_eq!(out, expected);
}

#[test]
fn page_view_choice() {
    let list = vec![station("GLEN", "Glen Park", "San Francisco"), station("EMBR", "Embarcadero", "San Francisco")];
    assert!(matches!(app_view(&vec![], Some("GLEN".to_string())), AppView::Blank));
    assert!(matches!(app_view(&vec![], None), AppView::Blank));
    assert!(matches!(app_view(&list, None), AppView::Picker));
    match app_view(&list, Some("EMBR".to_string())) {
        AppView::Board(s) => assert_eq!(s.name, "Embarcadero"),
        other => panic!("expected a board, got {other:?}"),
    }
    match app_view(&list, Some("NOPE".to_string())) {
        AppView::UnknownStation(a) => assert_eq!(unknown_station_message(&a), "Unknown station: NOPE"),
        other => panic!("expected an unknown station, got {other:?}"),
    }
}

#[test]
fn board_cards() {
    assert_eq!(board_message(&BoardView::Error("timeout".to_string())), Some("Error: timeout".to_string()));
    assert_eq!(board_message(&BoardView::Loading), Some("Loading\u{2026}".to_string()));
    assert_eq!(board_message(&BoardView::NoDepartures), Some("No departures available.".to_string()));
    assert_eq!(board_message(&BoardView::Departures), None);
}

#[test]
fn watch_loop_steps() {
    let mut w = WatchState::new(60);
    assert_eq!(w.step(WatchEvent::Wake(0)), WatchAction::Fetch);
    assert_eq!(w.step(WatchEvent::Failed), WatchAction::Fail);
    let full = StationEtd {
        name: "G".to_string(),
        abbr: "G".to_string(),
        etd: vec![etd("A", vec![est(Minutes::Mins(3), Direction::North, "Y", "#ffff33")])],
    };
    assert_eq!(w.step(WatchEvent::Fetched(vec![full])), WatchAction::Refreshed);
    assert!(w.fetched);
    assert_eq!(w.etds.len(), 1);
    assert_eq!(w.step(WatchEvent::Wake(59_999_999_999)), WatchAction::Redraw);
    assert_eq!(w.step(WatchEvent::Wake(60_000_000_000)), WatchAction::Fetch);
    assert_eq!(w.step(WatchEvent::Failed), WatchAction::Fail);
    assert_eq!(w.etds.len(), 1);
    assert_eq!(w.step(WatchEvent::Fetched(vec![])), WatchAction::Refreshed);
    assert!(w.etds.is_empty());
    assert_eq!(w.step(WatchEvent::Interrupted), WatchAction::Quit);
    assert_eq!(w.interval_secs, 60);
}

#[test]
fn client_requests_carry_their_key() {
    let c = ClientRequests::new();
    assert_eq!(c.key(), PUBLIC_KEY);
    let c = ClientRequests::with_key("my-key".to_string());
    for r in [c.stations(), c.routes(), c.estimates("GLEN"), c.estimates_filtered("GLEN", "s")] {
        assert_eq!(r.query[0], ("key".to_string(), "my-key".to_string()));
        assert_eq!(r.query[1], ("json".to_string(), "y".to_string()));
    }
    let filtered = c.estimates_filtered("GLEN", "s");
    let q: Vec<(&str, &str)> = filtered.query.iter().map(|(a, b)| (a.as_str(), b.as_str())).collect();
    assert_eq!(q, vec![("key", "my-key"), ("json", "y"), ("cmd", "etd"), ("orig", "GLEN"), ("dir", "s")]);
    assert_eq!(c.routes().path, "/api/route.aspx");
    assert_eq!(c.stations().path, "/api/stn.aspx");
    assert_eq!(c.estimates("GLEN").url(), "https://api.bart.gov/api/etd.aspx");
}
