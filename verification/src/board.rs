//! What a live departure board decides and shows besides the departures
//! themselves: when to fetch again, how old the data is, and the compact
//! time lists of the browser board.

use vstd::prelude::*;
use vstd::string::*;
use vstd::utf8::*;

use crate::decimal::{
    decimal_chars, decimal_string, lemma_decimal_chars_bytes, lemma_parse_decimal_roundtrip,
    parse_unsigned, IntErrorKind,
};
use crate::etd::{Estimate, Etd, Minutes, StationEtd};
use crate::station::{find_by_abbr, Station};
use crate::text::joined;

verus! {

/// How old the shown data is: `"Updated just now"` or `"Updated <n>s ago"`.
pub open spec fn updated_text(secs: u64) -> Seq<char> {
    if secs == 0 {
        "Updated just now"@
    } else {
        "Updated "@ + decimal_chars(secs as nat) + "s ago"@
    }
}

/// Says how long ago the data was fetched.
pub fn updated_label(secs: u64) -> (s: String)
    ensures
        s@ == updated_text(secs),
{
    if secs == 0 {
        "Updated just now".to_owned()
    } else {
        let mut s = "Updated ".to_owned();
        s.append(decimal_string(secs).as_str());
        s.append("s ago");
        s
    }
}

/// Whether the data is due for a new fetch: nothing was fetched yet, or at
/// least `interval_secs` seconds have passed since the last fetch.
pub fn refresh_due(since_last_fetch_nanos: Option<u128>, interval_secs: u64) -> (r: bool)
    ensures
        r == match since_last_fetch_nanos {
            None => true,
            Some(n) => n >= interval_secs * 1_000_000_000,
        },
{
    match since_last_fetch_nanos {
        None => true,
        Some(n) => n >= (interval_secs as u128) * 1_000_000_000,
    }
}

/// The compact text of one estimate on the browser board: the number of
/// minutes, or `"Leaving"`.
pub open spec fn compact_minutes(m: Minutes) -> Seq<char> {
    match m {
        Minutes::Leaving => "Leaving"@,
        Minutes::Mins(n) => decimal_chars(n as nat),
    }
}

pub open spec fn compact_parts(ests: Seq<Estimate>) -> Seq<Seq<char>> {
    ests.map_values(|e: Estimate| compact_minutes(e.minutes))
}

pub open spec fn any_leaving(ests: Seq<Estimate>) -> bool {
    exists|i: int| 0 <= i < ests.len() && #[trigger] ests[i].minutes == Minutes::Leaving
}

/// The times of a destination on the browser board: the parts joined by
/// `", "`, followed by `" min"` unless some train is leaving.
pub open spec fn board_times_text(ests: Seq<Estimate>) -> Seq<char> {
    if any_leaving(ests) {
        joined(compact_parts(ests), ", "@)
    } else {
        joined(compact_parts(ests), ", "@) + " min"@
    }
}

/// Formats the departure times of a destination for the browser board.
pub fn board_times(ests: &Vec<Estimate>) -> (s: String)
    ensures
        s@ == board_times_text(ests@),
{
    let mut s = String::new();
    let mut leaving = false;
    let mut i: usize = 0;
    while i < ests.len()
        invariant
            i <= ests@.len(),
            s@ == joined(compact_parts(ests@.take(i as int)), ", "@),
            leaving == any_leaving(ests@.take(i as int)),
        decreases ests@.len() - i,
    {
        let ghost pre = compact_parts(ests@.take(i as int));
        let ghost next = compact_parts(ests@.take(i + 1));
        let ghost before = s@;
        assert(next.drop_last() =~= pre);
        assert(next.last() == compact_minutes(ests@[i as int].minutes));
        if i > 0 {
            s.append(", ");
        } else {
            assert(next.len() == 1);
            assert(s@ =~= Seq::<char>::empty());
        }
        match ests[i].minutes {
            Minutes::Leaving => {
                s.append("Leaving");
                leaving = true;
            },
            Minutes::Mins(n) => {
                s.append(decimal_string(n as u64).as_str());
            },
        }
        proof {
            if i > 0 {
                assert(s@ =~= joined(pre, ", "@) + ", "@ + next.last());
            } else {
                assert(s@ =~= next[0]);
            }
            let t = ests@.take(i + 1);
            if leaving {
                if ests@[i as int].minutes == Minutes::Leaving {
                    assert(t[i as int] == ests@[i as int]);
                } else {
                    let j = choose|j: int| 0 <= j < i && #[trigger] ests@.take(i as int)[j].minutes == Minutes::Leaving;
                    assert(t[j] == ests@.take(i as int)[j]);
                }
            } else {
                assert forall|j: int| 0 <= j < t.len() implies !(#[trigger] t[j].minutes == Minutes::Leaving) by {
                    if j < i {
                        assert(t[j] == ests@.take(i as int)[j]);
                    }
                }
            }
        }
        i = i + 1;
    }
    assert(ests@.take(ests@.len() as int) =~= ests@);
    if !leaving {
        s.append(" min");
    }
    s
}

/// The browser board's times hold one part per train, in order: no train
/// gives just `" min"`; one train gives its minutes and `" min"`, or
/// `"Leaving"`; and each further train adds `", "` and its own part, with
/// the `" min"` suffix kept at the end only while no train is leaving.
pub proof fn lemma_board_times_parts(ests: Seq<Estimate>, e: Estimate)
    ensures
        board_times_text(Seq::<Estimate>::empty()) == " min"@,
        e.minutes == Minutes::Leaving ==> board_times_text(seq![e]) == "Leaving"@,
        forall|m: u32| e.minutes == Minutes::Mins(m) ==> board_times_text(seq![e]) == decimal_chars(m as nat) + " min"@,
        ests.len() > 0 && any_leaving(ests) ==> board_times_text(ests.push(e)) == board_times_text(ests)
            + ", "@ + compact_minutes(e.minutes),
        ests.len() > 0 && !any_leaving(ests) && e.minutes == Minutes::Leaving ==> board_times_text(ests.push(e))
            == board_times_text(ests).take(board_times_text(ests).len() - 4) + ", Leaving"@,
        forall|m: u32|
            ests.len() > 0 && !any_leaving(ests) && e.minutes == Minutes::Mins(m) ==> board_times_text(
                ests.push(e),
            ) == board_times_text(ests).take(board_times_text(ests).len() - 4) + ", "@ + decimal_chars(m as nat)
                + " min"@,
        compact_minutes(Minutes::Leaving) == "Leaving"@,
        forall|m: u32| #[trigger] compact_minutes(Minutes::Mins(m)) == decimal_chars(m as nat),
{
    reveal_strlit(" min");
    reveal_strlit(", ");
    reveal_strlit(", Leaving");
    reveal_strlit("Leaving");
    let t = ests.push(e);
    assert(compact_parts(Seq::<Estimate>::empty()) =~= Seq::<Seq<char>>::empty());
    assert(!any_leaving(Seq::<Estimate>::empty()));
    assert(compact_parts(seq![e]) =~= seq![compact_minutes(e.minutes)]);
    assert(any_leaving(seq![e]) <==> e.minutes == Minutes::Leaving) by {
        if e.minutes == Minutes::Leaving {
            assert(seq![e][0].minutes == Minutes::Leaving);
        }
    }
    assert(compact_parts(t) =~= compact_parts(ests).push(compact_minutes(e.minutes)));
    assert(compact_parts(t).drop_last() =~= compact_parts(ests));
    assert(any_leaving(t) <==> any_leaving(ests) || e.minutes == Minutes::Leaving) by {
        if any_leaving(ests) {
            let j = choose|j: int| 0 <= j < ests.len() && #[trigger] ests[j].minutes == Minutes::Leaving;
            assert(t[j] == ests[j]);
        }
        if e.minutes == Minutes::Leaving {
            assert(t[ests.len() as int] == e);
        }
        if any_leaving(t) {
            let j = choose|j: int| 0 <= j < t.len() && #[trigger] t[j].minutes == Minutes::Leaving;
            if j < ests.len() {
                assert(t[j] == ests[j]);
            }
        }
    }
    if ests.len() > 0 {
        let jp = joined(compact_parts(ests), ", "@);
        assert(joined(compact_parts(t), ", "@) == jp + ", "@ + compact_minutes(e.minutes));
        if !any_leaving(ests) {
            assert((jp + " min"@).take((jp + " min"@).len() - 4) =~= jp);
            assert(", "@ + "Leaving"@ =~= ", Leaving"@);
            assert(jp + ", "@ + "Leaving"@ =~= jp + ", Leaving"@);
        }
    }
}

/// The number a label shows is the elapsed seconds themselves: for any
/// positive `secs` the label is `"Updated "`, a decimal numeral that reads
/// back as `secs`, and `"s ago"`.
pub proof fn lemma_updated_text_shows_seconds(secs: u64)
    requires
        secs > 0,
    ensures
        ({
            let t = updated_text(secs);
            let n = t.subrange(8, t.len() - 5);
            &&& t == "Updated "@ + n + "s ago"@
            &&& parse_unsigned(encode_utf8(n), u64::MAX as nat) == Ok::<nat, IntErrorKind>(secs as nat)
        }),
{
    reveal_strlit("Updated ");
    reveal_strlit("s ago");
    let d = decimal_chars(secs as nat);
    let t = updated_text(secs);
    assert(t.subrange(8, t.len() - 5) =~= d);
    lemma_decimal_chars_bytes(secs as nat);
    lemma_parse_decimal_roundtrip(secs as nat, u64::MAX as nat);
}

/// The color of the dot shown for a destination: its first train's hex
/// color, or nothing when there is no train.
pub fn dot_color(etd: &Etd) -> (s: String)
    ensures
        s@ == (if etd.estimate@.len() > 0 {
            etd.estimate@[0].hexcolor@
        } else {
            Seq::<char>::empty()
        }),
{
    if etd.estimate.len() > 0 {
        etd.estimate[0].hexcolor.clone()
    } else {
        String::new()
    }
}

/// Whether none of the stations has any departure.
pub fn no_departures(data: &Vec<StationEtd>) -> (r: bool)
    ensures
        r == forall|i: int| 0 <= i < data@.len() ==> (#[trigger] data@[i]).etd@.len() == 0,
{
    let mut i: usize = 0;
    while i < data.len()
        invariant
            i <= data@.len(),
            forall|j: int| 0 <= j < i ==> (#[trigger] data@[j]).etd@.len() == 0,
        decreases data@.len() - i,
    {
        if data[i].etd.len() > 0 {
            return false;
        }
        i = i + 1;
    }
    true
}

/// The title of a station's board: `"<name> (<abbr>)"`.
pub fn station_title(station: &Station) -> (s: String)
    ensures
        s@ == station.name@ + " ("@ + station.abbr@ + ")"@,
{
    let mut s = station.name.clone();
    s.append(" (");
    s.append(station.abbr.as_str());
    s.append(")");
    s
}

/// The station selected by a location hash: none when the hash is absent or empty.
pub fn selected_station(hash: Option<String>) -> (r: Option<String>)
    ensures
        r == match hash {
            Some(h) => if h@.len() > 0 { Some(h) } else { None },
            None => None,
        },
{
    match hash {
        Some(h) => if h.as_str().is_empty() { None } else { Some(h) },
        None => None,
    }
}


/// What the browser's departure board holds: the last departures fetched,
/// the seconds since then, and the error of the last failed fetch.
pub struct BoardState {
    pub etds: Vec<StationEtd>,
    pub elapsed: u32,
    pub error: Option<String>,
}

/// What happens to a departure board.
pub enum BoardEvent {
    /// A fetch returned these departures.
    Fetched(Vec<StationEtd>),
    /// A fetch failed with this message.
    Failed(String),
    /// A second passed.
    Tick,
}

impl BoardState {
    /// A board that has fetched nothing yet.
    pub fn new() -> (s: BoardState)
        ensures
            s.etds@.len() == 0,
            s.elapsed == 0,
            s.error is None,
    {
        BoardState { etds: Vec::new(), elapsed: 0, error: None }
    }

    /// Applies an event: fresh departures replace the old ones and clear the
    /// age and the error; a failure keeps the departures and records its
    /// message; a tick ages the data by one second.
    pub fn step(&mut self, event: BoardEvent)
        requires
            event is Tick ==> old(self).elapsed < u32::MAX,
        ensures
            match event {
                BoardEvent::Fetched(d) => final(self).etds@ == d@ && final(self).elapsed == 0
                    && final(self).error is None,
                BoardEvent::Failed(m) => final(self).etds@ == old(self).etds@ && final(self).elapsed
                    == old(self).elapsed && final(self).error == Some(m),
                BoardEvent::Tick => final(self).etds@ == old(self).etds@ && final(self).elapsed
                    == old(self).elapsed + 1 && final(self).error == old(self).error,
            },
    {
        match event {
            BoardEvent::Fetched(d) => {
                self.etds = d;
                self.elapsed = 0;
                self.error = None;
            },
            BoardEvent::Failed(m) => {
                self.error = Some(m);
            },
            BoardEvent::Tick => {
                self.elapsed = self.elapsed + 1;
            },
        }
    }
}

/// What the departure board shows.
#[derive(Debug, Clone, PartialEq, Eq)]
pub enum BoardView {
    /// The last fetch failed: `"Error: <message>"`.
    Error(String),
    /// Nothing was fetched yet.
    Loading,
    /// Every station reports no departures.
    NoDepartures,
    /// The departures of the stations, under the updated label.
    Departures,
}

/// Decides what the board shows: an error wins; with no data the board is
/// loading; data without any departure says so; otherwise the departures.
pub fn board_view(state: &BoardState) -> (v: BoardView)
    ensures
        match state.error {
            Some(e) => v == BoardView::Error(e),
            None => if state.etds@.len() == 0 {
                v == BoardView::Loading
            } else if forall|i: int|
                0 <= i < state.etds@.len() ==> (#[trigger] state.etds@[i]).etd@.len() == 0 {
                v == BoardView::NoDepartures
            } else {
                v == BoardView::Departures
            },
        },
{
    match &state.error {
        Some(e) => BoardView::Error(e.clone()),
        None => {
            if state.etds.len() == 0 {
                BoardView::Loading
            } else if no_departures(&state.etds) {
                BoardView::NoDepartures
            } else {
                BoardView::Departures
            }
        },
    }
}

/// What the browser's card shows for a board that is not showing departures:
/// the error, the loading note, or the note that no train departs.
pub fn board_message(view: &BoardView) -> (r: Option<String>)
    ensures
        match view {
            BoardView::Error(e) => r matches Some(m) && m@ == "Error: "@ + e@,
            BoardView::Loading => r matches Some(m) && m@ == "Loading\u{2026}"@,
            BoardView::NoDepartures => r matches Some(m) && m@ == "No departures available."@,
            BoardView::Departures => r is None,
        },
{
    match view {
        BoardView::Error(e) => {
            let mut m = "Error: ".to_owned();
            m.append(e.as_str());
            Some(m)
        },
        BoardView::Loading => Some("Loading\u{2026}".to_owned()),
        BoardView::NoDepartures => Some("No departures available.".to_owned()),
        BoardView::Departures => None,
    }
}

/// What the browser page shows.
#[derive(Debug)]
pub enum AppView<'a> {
    /// The station list has not arrived yet: nothing.
    Blank,
    /// No station is selected: the station picker.
    Picker,
    /// The departure board of the selected station.
    Board(&'a Station),
    /// The selected abbreviation names no station.
    UnknownStation(String),
}

/// Decides what the page shows, from the stations loaded so far and the
/// selected abbreviation (the location hash, when it is not empty): nothing
/// before the stations arrive; the picker when none is selected; the board
/// of the first station with the selected abbreviation; or, when no station
/// has it, the unknown-station card.
pub fn app_view<'a>(stations: &'a Vec<Station>, selected: Option<String>) -> (v: AppView<'a>)
    ensures
        stations@.len() == 0 ==> v is Blank,
        stations@.len() > 0 && selected is None ==> v is Picker,
        stations@.len() > 0 && selected is Some ==> match v {
            AppView::Board(s) => exists|i: int|
                0 <= i < stations@.len() && stations@[i] == *s && s.abbr@ == selected->0@
                    && forall|j: int| 0 <= j < i ==> #[trigger] stations@[j].abbr@ != selected->0@,
            AppView::UnknownStation(a) => a@ == selected->0@ && forall|i: int|
                0 <= i < stations@.len() ==> #[trigger] stations@[i].abbr@ != selected->0@,
            _ => false,
        },
{
    if stations.len() == 0 {
        return AppView::Blank;
    }
    match selected {
        None => AppView::Picker,
        Some(abbr) => match find_by_abbr(stations, abbr.as_str()) {
            Some(s) => AppView::Board(s),
            None => AppView::UnknownStation(abbr),
        },
    }
}

/// The card shown for an abbreviation that names no station.
pub fn unknown_station_message(abbr: &str) -> (m: String)
    ensures
        m@ == "Unknown station: "@ + abbr@,
{
    let mut m = "Unknown station: ".to_owned();
    m.append(abbr);
    m
}

/// What the terminal's watch loop holds: the seconds between fetches, the
/// departures of the last successful fetch, and whether one succeeded yet.
pub struct WatchState {
    pub interval_secs: u64,
    pub etds: Vec<StationEtd>,
    pub fetched: bool,
}

/// What happens to the watch loop.
pub enum WatchEvent {
    /// The loop wakes up, this many nanoseconds after the last successful fetch.
    Wake(u128),
    /// A fetch returned these departures.
    Fetched(Vec<StationEtd>),
    /// A fetch failed.
    Failed,
    /// Ctrl-C was pressed while the loop waited.
    Interrupted,
}

/// What the watch loop does next.
#[derive(Debug, Clone, Copy, PartialEq, Eq, Structural)]
pub enum WatchAction {
    /// Fetch the departures now.
    Fetch,
    /// Restart the fetch timer, redraw the board and wait a second.
    Refreshed,
    /// Redraw the board with the departures held and wait a second.
    Redraw,
    /// Leave the alternate screen and return the fetch's error.
    Fail,
    /// Leave the alternate screen and return successfully.
    Quit,
}

impl WatchState {
    /// A watch loop that fetches every `interval_secs` seconds and has fetched nothing yet.
    pub fn new(interval_secs: u64) -> (s: WatchState)
        ensures
            s.interval_secs == interval_secs,
            s.etds@.len() == 0,
            !s.fetched,
    {
        WatchState { interval_secs, etds: Vec::new(), fetched: false }
    }

    /// Applies an event. A wake-up fetches when nothing was fetched yet or
    /// the interval has passed, and redraws otherwise; fresh departures
    /// replace the held ones; a failed fetch, and only that, ends the loop
    /// with its error; Ctrl-C, and only that, ends it successfully. Nothing
    /// but a successful fetch changes what the board shows.
    pub fn step(&mut self, event: WatchEvent) -> (a: WatchAction)
        ensures
            final(self).interval_secs == old(self).interval_secs,
            match event {
                WatchEvent::Wake(n) => {
                    &&& final(self).etds@ == old(self).etds@
                    &&& final(self).fetched == old(self).fetched
                    &&& a == if !old(self).fetched || n >= old(self).interval_secs * 1_000_000_000 {
                        WatchAction::Fetch
                    } else {
                        WatchAction::Redraw
                    }
                },
                WatchEvent::Fetched(d) => final(self).etds@ == d@ && final(self).fetched
                    && a == WatchAction::Refreshed,
                WatchEvent::Failed => final(self).etds@ == old(self).etds@ && final(self).fetched
                    == old(self).fetched && a == WatchAction::Fail,
                WatchEvent::Interrupted => final(self).etds@ == old(self).etds@ && final(self).fetched
                    == old(self).fetched && a == WatchAction::Quit,
            },
    {
        match event {
            WatchEvent::Wake(n) => {
                let since = if self.fetched { Some(n) } else { None };
                if refresh_due(since, self.interval_secs) {
                    WatchAction::Fetch
                } else {
                    WatchAction::Redraw
                }
            },
            WatchEvent::Fetched(d) => {
                self.etds = d;
                self.fetched = true;
                WatchAction::Refreshed
            },
            WatchEvent::Failed => WatchAction::Fail,
            WatchEvent::Interrupted => WatchAction::Quit,
        }
    }
}

} // verus!
