//! The text that the command line shows: station lists, routes grouped by
//! direction and departure boards.

use vstd::prelude::*;
use vstd::string::*;
use vstd::utf8::*;

use crate::common::{spec_hex_to_rgb, Direction};
use crate::decimal::{decimal_chars, decimal_string};
use crate::etd::{heading, sorted_by_departure, targets, Estimate, Etd, StationEtd};
use crate::route::{routes_toward, Route};
use crate::station::Station;
use crate::text::{joined, lemma_padded, pad_left, pad_right, padded, padded_left};
use crate::etd::Minutes;

verus! {

/// The terminal escape sequence that draws a dot in the color `(r, g, b)`.
pub open spec fn color_icon_text(r: u8, g: u8, b: u8) -> Seq<char> {
    "\x1b[38;2;"@ + decimal_chars(r as nat) + ";"@ + decimal_chars(g as nat) + ";"@
        + decimal_chars(b as nat) + "m\u{25cf}\x1b[0m"@
}

/// A colored dot for a terminal that supports 24-bit color.
pub fn color_icon(rgb: (u8, u8, u8)) -> (s: String)
    ensures
        s@ == color_icon_text(rgb.0, rgb.1, rgb.2),
{
    let (r, g, b) = rgb;
    let mut s = "\x1b[38;2;".to_owned();
    s.append(decimal_string(r as u64).as_str());
    s.append(";");
    s.append(decimal_string(g as u64).as_str());
    s.append(";");
    s.append(decimal_string(b as u64).as_str());
    s.append("m\u{25cf}\x1b[0m");
    s
}

/// The arrow that stands for a direction.
pub open spec fn dir_icon_text(dir: Direction) -> Seq<char> {
    match dir {
        Direction::North => "\u{2191}"@,
        Direction::South => "\u{2193}"@,
    }
}

/// An arrow for the direction of travel.
pub fn dir_icon(dir: &Direction) -> (s: &'static str)
    ensures
        s@ == dir_icon_text(*dir),
{
    match dir {
        Direction::North => "\u{2191}",
        Direction::South => "\u{2193}",
    }
}

/// The dot for a hex color, or nothing when the color does not parse.
pub open spec fn icon_for(hexcolor: Seq<char>) -> Seq<char> {
    match spec_hex_to_rgb(encode_utf8(hexcolor)) {
        Some((r, g, b)) => color_icon_text(r, g, b),
        None => Seq::<char>::empty(),
    }
}

fn icon_for_exec(hexcolor: &String) -> (s: String)
    ensures
        s@ == icon_for(hexcolor@),
{
    match crate::common::hex_to_rgb(hexcolor.as_str()) {
        Some(c) => color_icon(c),
        None => String::new(),
    }
}

// ── stations ────────────────────────────────────────────────────────────────

/// One line of the station list: abbreviation, name, city and state.
pub open spec fn station_line(s: Station) -> Seq<char> {
    padded(s.abbr@, 6) + "  "@ + s.name@ + "  ("@ + s.city@ + ", "@ + s.state@ + ")\n"@
}

/// The station list, one line per station.
pub open spec fn stations_text(stations: Seq<Station>) -> Seq<char>
    decreases stations.len(),
{
    if stations.len() == 0 {
        Seq::<char>::empty()
    } else {
        stations_text(stations.drop_last()) + station_line(stations.last())
    }
}

/// Renders the station list.
pub fn render_stations(stations: &Vec<Station>) -> (out: String)
    ensures
        out@ == stations_text(stations@),
{
    let mut out = String::new();
    let mut i: usize = 0;
    while i < stations.len()
        invariant
            i <= stations@.len(),
            out@ == stations_text(stations@.take(i as int)),
        decreases stations@.len() - i,
    {
        let s = &stations[i];
        let ghost before = out@;
        out.append(pad_right(s.abbr.as_str(), 6).as_str());
        out.append("  ");
        out.append(s.name.as_str());
        out.append("  (");
        out.append(s.city.as_str());
        out.append(", ");
        out.append(s.state.as_str());
        out.append(")\n");
        proof {
            let next = stations@.take(i + 1);
            assert(next.drop_last() =~= stations@.take(i as int));
            assert(out@ =~= before + station_line(*s));
        }
        i = i + 1;
    }
    assert(stations@.take(stations@.len() as int) =~= stations@);
    out
}

// ── routes ──────────────────────────────────────────────────────────────────

/// The header line of a direction's group.
pub open spec fn direction_header(dir: Direction, icons: bool) -> Seq<char> {
    "\n  "@ + (if icons {
        dir_icon_text(dir)
    } else {
        dir.spec_name()
    }) + "\n"@
}

fn push_direction_header(out: &mut String, dir: Direction, icons: bool)
    ensures
        final(out)@ == old(out)@ + direction_header(dir, icons),
{
    out.append("\n  ");
    if icons {
        out.append(dir_icon(&dir));
    } else {
        out.append(dir.name());
    }
    out.append("\n");
}

/// One line of the route list.
pub open spec fn route_line(r: Route, icons: bool) -> Seq<char> {
    if icons {
        "    "@ + icon_for(r.hexcolor@) + "  "@ + r.name@ + "\n"@
    } else {
        "    "@ + padded(r.color@, 8) + "  "@ + r.name@ + "\n"@
    }
}

/// The lines of a group of routes.
pub open spec fn route_lines(routes: Seq<Route>, icons: bool) -> Seq<char>
    decreases routes.len(),
{
    if routes.len() == 0 {
        Seq::<char>::empty()
    } else {
        route_lines(routes.drop_last(), icons) + route_line(routes.last(), icons)
    }
}

/// The routes that travel in `dir`, under their header; nothing when there are none.
pub open spec fn routes_section(routes: Seq<Route>, dir: Direction, icons: bool) -> Seq<char> {
    let group = routes_toward(routes, dir);
    if group.len() == 0 {
        Seq::<char>::empty()
    } else {
        direction_header(dir, icons) + route_lines(group, icons)
    }
}

/// The route list: northbound routes, then southbound ones, then a blank line.
pub open spec fn routes_text(routes: Seq<Route>, icons: bool) -> Seq<char> {
    routes_section(routes, Direction::North, icons) + routes_section(routes, Direction::South, icons)
        + "\n"@
}

fn push_route_section(out: &mut String, routes: &Vec<Route>, dir: Direction, icons: bool)
    ensures
        final(out)@ == old(out)@ + routes_section(routes@, dir, icons),
{
    let n = routes.len();
    let mut any = false;
    let mut i: usize = 0;
    while i < n
        invariant
            i <= n,
            n == routes@.len(),
            any == (routes_toward(routes@.take(i as int), dir).len() > 0),
        decreases n - i,
    {
        assert(routes@.take(i + 1).drop_last() =~= routes@.take(i as int));
        if routes[i].direction == dir {
            any = true;
        }
        i = i + 1;
    }
    assert(routes@.take(n as int) =~= routes@);
    if !any {
        assert(out@ =~= out@ + Seq::<char>::empty());
        return;
    }
    let ghost start = out@;
    push_direction_header(out, dir, icons);
    let mut i: usize = 0;
    while i < n
        invariant
            i <= n,
            n == routes@.len(),
            out@ == start + direction_header(dir, icons) + route_lines(
                routes_toward(routes@.take(i as int), dir),
                icons,
            ),
        decreases n - i,
    {
        let r = &routes[i];
        let ghost before = out@;
        let ghost pre = routes_toward(routes@.take(i as int), dir);
        assert(routes@.take(i + 1).drop_last() =~= routes@.take(i as int));
        if r.direction == dir {
            out.append("    ");
            if icons {
                out.append(icon_for_exec(&r.hexcolor).as_str());
            } else {
                out.append(pad_right(r.color.as_str(), 8).as_str());
            }
            out.append("  ");
            out.append(r.name.as_str());
            out.append("\n");
            proof {
                assert(out@ =~= before + route_line(*r, icons));
                assert(pre.push(*r).drop_last() =~= pre);
            }
        }
        i = i + 1;
    }
}

/// Renders the routes grouped by direction.
pub fn render_routes(routes: &Vec<Route>, icons: bool) -> (out: String)
    ensures
        out@ == routes_text(routes@, icons),
{
    let mut out = String::new();
    push_route_section(&mut out, routes, Direction::North, icons);
    push_route_section(&mut out, routes, Direction::South, icons);
    out.append("\n");
    proof {
        assert(out@ =~= routes_text(routes@, icons));
    }
    out
}


// ── departure boards ────────────────────────────────────────────────────────

/// How a departure board shows minutes: `"Leaving"`, or the number
/// right-aligned in two characters followed by `" min"` (`" 2 min"`, `"17 min"`).
pub open spec fn board_minutes_text(m: Minutes) -> Seq<char> {
    match m {
        Minutes::Leaving => "Leaving"@,
        Minutes::Mins(n) => padded_left(decimal_chars(n as nat), 2) + " min"@,
    }
}

fn board_minutes(m: Minutes) -> (s: String)
    ensures
        s@ == board_minutes_text(m),
{
    match m {
        Minutes::Leaving => "Leaving".to_owned(),
        Minutes::Mins(n) => {
            let mut s = pad_left(decimal_string(n as u64).as_str(), 2);
            s.append(" min");
            s
        },
    }
}

/// The shown minutes of each estimate: the first right-aligned so that the
/// columns of a board line up, the later ones as [`Minutes::to_string`] gives them.
pub open spec fn minutes_texts(ests: Seq<Estimate>) -> Seq<Seq<char>> {
    Seq::new(
        ests.len(),
        |i: int|
            if i == 0 {
                board_minutes_text(ests[i].minutes)
            } else {
                ests[i].minutes.spec_text()
            },
    )
}

/// The departure times of a destination, joined by `", "`.
pub open spec fn times_text(ests: Seq<Estimate>) -> Seq<char> {
    joined(minutes_texts(ests), ", "@)
}

fn push_times(out: &mut String, ests: &Vec<Estimate>)
    ensures
        final(out)@ == old(out)@ + times_text(ests@),
{
    let ghost start = out@;
    let mut i: usize = 0;
    while i < ests.len()
        invariant
            i <= ests@.len(),
            out@ == start + joined(minutes_texts(ests@.take(i as int)), ", "@),
        decreases ests@.len() - i,
    {
        let ghost pre = minutes_texts(ests@.take(i as int));
        let ghost next = minutes_texts(ests@.take(i + 1));
        assert(next.drop_last() =~= pre);
        if i > 0 {
            assert(next.last() == ests@[i as int].minutes.spec_text());
            out.append(", ");
            out.append(ests[i].minutes.to_string().as_str());
        } else {
            assert(next.last() == board_minutes_text(ests@[i as int].minutes));
            assert(next.len() == 1);
            assert(out@ =~= start);
            out.append(board_minutes(ests[i].minutes).as_str());
        }
        proof {
            if i > 0 {
                assert(out@ =~= start + (joined(pre, ", "@) + ", "@ + next.last()));
            } else {
                assert(out@ =~= start + next[0]);
            }
        }
        i = i + 1;
    }
    assert(ests@.take(ests@.len() as int) =~= ests@);
}

/// The times of a destination hold one part per train, in order: the first
/// train's minutes right-aligned in two columns then `" min"` (or
/// `"Leaving"`), and each further train adds `", "` and its minutes then
/// `" min"` (or `"Leaving"`), unpadded.
pub proof fn lemma_times_text_parts(ests: Seq<Estimate>, e: Estimate)
    ensures
        times_text(Seq::<Estimate>::empty()) == Seq::<char>::empty(),
        e.minutes == Minutes::Leaving ==> times_text(seq![e]) == "Leaving"@,
        forall|m: u32|
            e.minutes == Minutes::Mins(m) ==> times_text(seq![e]) == padded_left(decimal_chars(m as nat), 2)
                + " min"@,
        ests.len() > 0 && e.minutes == Minutes::Leaving ==> times_text(ests.push(e)) == times_text(ests)
            + ", Leaving"@,
        forall|m: u32|
            ests.len() > 0 && e.minutes == Minutes::Mins(m) ==> times_text(ests.push(e)) == times_text(ests)
                + ", "@ + decimal_chars(m as nat) + " min"@,
{
    reveal_strlit(", ");
    reveal_strlit(", Leaving");
    reveal_strlit("Leaving");
    let t = ests.push(e);
    assert(minutes_texts(Seq::<Estimate>::empty()) =~= Seq::<Seq<char>>::empty());
    assert(minutes_texts(seq![e]) =~= seq![board_minutes_text(e.minutes)]);
    if ests.len() > 0 {
        assert(minutes_texts(t).drop_last() =~= minutes_texts(ests));
        assert(minutes_texts(t).last() == e.minutes.spec_text());
        reveal_strlit(" min");
        let j = times_text(ests);
        assert(j + ", "@ + "Leaving"@ =~= j + ", Leaving"@);
    }
}

/// One line of a departure board: the first train's line color, the
/// destination and the minutes of every train.
pub open spec fn etd_line(e: Etd, icons: bool) -> Seq<char> {
    let first = e.estimate@[0];
    if icons {
        "    "@ + icon_for(first.hexcolor@) + "  "@ + padded(e.destination@, 26) + "  "@
            + times_text(e.estimate@) + "\n"@
    } else {
        "    "@ + padded(first.color@, 8) + "  "@ + padded(e.destination@, 26) + "  "@
            + times_text(e.estimate@) + "\n"@
    }
}

pub open spec fn etd_lines(group: Seq<Etd>, icons: bool) -> Seq<char>
    decreases group.len(),
{
    if group.len() == 0 {
        Seq::<char>::empty()
    } else {
        etd_lines(group.drop_last(), icons) + etd_line(group.last(), icons)
    }
}

/// A direction's destinations under their header; nothing when there are none.
pub open spec fn etd_section(group: Seq<Etd>, dir: Direction, icons: bool) -> Seq<char> {
    if group.len() == 0 {
        Seq::<char>::empty()
    } else {
        direction_header(dir, icons) + etd_lines(group, icons)
    }
}

/// The board of one station: its name, then its northbound and southbound
/// destinations sorted by next departure, then a blank line.
pub open spec fn station_board(stn: StationEtd, icons: bool) -> Seq<char> {
    stn.name@ + " ("@ + stn.abbr@ + ")\n"@ + etd_section(
        sorted_by_departure(heading(stn.etd@, true)),
        Direction::North,
        icons,
    ) + etd_section(sorted_by_departure(heading(stn.etd@, false)), Direction::South, icons)
        + "\n"@
}

pub open spec fn boards_text(stations: Seq<StationEtd>, icons: bool) -> Seq<char>
    decreases stations.len(),
{
    if stations.len() == 0 {
        Seq::<char>::empty()
    } else {
        boards_text(stations.drop_last(), icons) + station_board(stations.last(), icons)
    }
}

/// A destination can be shown: it has a first train, whose line color the board shows.
pub open spec fn etd_showable(e: Etd) -> bool {
    e.estimate@.len() > 0
}

pub open spec fn boards_showable(stations: Seq<StationEtd>) -> bool {
    forall|i: int, j: int|
        0 <= i < stations.len() && 0 <= j < stations[i].etd@.len() ==> etd_showable(#[trigger] stations[i].etd@[j])
}

/// A board line shows, after its color column, the destination's name
/// left-aligned in 26 columns and then the times; the plain and the icon
/// board differ only in that column: the color's name in 8 columns, or the
/// dot of the first train's color.
pub proof fn lemma_etd_line_columns(e: Etd)
    ensures
        ({
            let tail = "  "@ + padded(e.destination@, 26) + "  "@ + times_text(e.estimate@) + "\n"@;
            &&& etd_line(e, false) == "    "@ + padded(e.estimate@[0].color@, 8) + tail
            &&& etd_line(e, true) == "    "@ + icon_for(e.estimate@[0].hexcolor@) + tail
            &&& padded(e.destination@, 26).take(e.destination@.len() as int) == e.destination@
        }),
{
    lemma_padded(e.destination@, 26);
    let tail = "  "@ + padded(e.destination@, 26) + "  "@ + times_text(e.estimate@) + "\n"@;
    assert(etd_line(e, false) =~= "    "@ + padded(e.estimate@[0].color@, 8) + tail);
    assert(etd_line(e, true) =~= "    "@ + icon_for(e.estimate@[0].hexcolor@) + tail);
}

fn push_etd_line(out: &mut String, e: &Etd, icons: bool)
    requires
        etd_showable(*e),
    ensures
        final(out)@ == old(out)@ + etd_line(*e, icons),
{
    let ghost before = out@;
    let first = &e.estimate[0];
    out.append("    ");
    if icons {
        out.append(icon_for_exec(&first.hexcolor).as_str());
    } else {
        out.append(pad_right(first.color.as_str(), 8).as_str());
    }
    out.append("  ");
    out.append(pad_right(e.destination.as_str(), 26).as_str());
    out.append("  ");
    push_times(out, &e.estimate);
    out.append("\n");
    assert(out@ =~= before + etd_line(*e, icons));
}

fn push_etd_section(out: &mut String, group: &Vec<&Etd>, dir: Direction, icons: bool)
    requires
        forall|k: int| 0 <= k < group@.len() ==> etd_showable(*#[trigger] group@[k]),
    ensures
        final(out)@ == old(out)@ + etd_section(targets(group@), dir, icons),
{
    if group.len() == 0 {
        assert(out@ =~= out@ + Seq::<char>::empty());
        return;
    }
    let ghost start = out@;
    push_direction_header(out, dir, icons);
    let mut i: usize = 0;
    while i < group.len()
        invariant
            i <= group@.len(),
            forall|k: int| 0 <= k < group@.len() ==> etd_showable(*#[trigger] group@[k]),
            out@ == start + direction_header(dir, icons) + etd_lines(
                targets(group@).take(i as int),
                icons,
            ),
        decreases group@.len() - i,
    {
        let e: &Etd = group[i];
        assert(targets(group@).take(i + 1).drop_last() =~= targets(group@).take(i as int));
        assert(targets(group@).take(i + 1).last() == *e);
        assert(etd_showable(*group@[i as int]));
        push_etd_line(out, e, icons);
        i = i + 1;
    }
    assert(targets(group@).take(group@.len() as int) =~= targets(group@));
}

#[verifier::spinoff_prover]
#[verifier::rlimit(40)]
fn push_station_board(out: &mut String, stn: &StationEtd, icons: bool)
    requires
        forall|j: int| 0 <= j < stn.etd@.len() ==> etd_showable(#[trigger] stn.etd@[j]),
    ensures
        final(out)@ == old(out)@ + station_board(*stn, icons),
{
    let ghost before = out@;
    out.append(stn.name.as_str());
    out.append(" (");
    out.append(stn.abbr.as_str());
    out.append(")\n");
    let groups = stn.by_direction();
    assert forall|k: int| 0 <= k < groups.north@.len() implies etd_showable(*#[trigger] groups.north@[k]) by {
        assert(stn.etd@.contains(*groups.north@[k]));
    }
    assert forall|k: int| 0 <= k < groups.south@.len() implies etd_showable(*#[trigger] groups.south@[k]) by {
        assert(stn.etd@.contains(*groups.south@[k]));
    }
    push_etd_section(out, &groups.north, Direction::North, icons);
    push_etd_section(out, &groups.south, Direction::South, icons);
    out.append("\n");
    assert(out@ =~= before + station_board(*stn, icons));
}

/// Renders the departure boards of the given stations.
pub fn render_estimates(stations: &Vec<StationEtd>, icons: bool) -> (out: String)
    requires
        boards_showable(stations@),
    ensures
        out@ == boards_text(stations@, icons),
{
    let mut out = String::new();
    let mut i: usize = 0;
    while i < stations.len()
        invariant
            i <= stations@.len(),
            boards_showable(stations@),
            out@ == boards_text(stations@.take(i as int), icons),
        decreases stations@.len() - i,
    {
        let stn = &stations[i];
        let ghost before = out@;
        assert forall|j: int| 0 <= j < stn.etd@.len() implies etd_showable(#[trigger] stn.etd@[j]) by {
            assert(etd_showable(stations@[i as int].etd@[j]));
        }
        push_station_board(&mut out, stn, icons);
        assert(stations@.take(i + 1).drop_last() =~= stations@.take(i as int));
        i = i + 1;
    }
    assert(stations@.take(stations@.len() as int) =~= stations@);
    out
}

} // verus!
