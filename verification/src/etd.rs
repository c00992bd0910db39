//! Real-time departure estimate data returned by the BART ETD endpoint.

use vstd::prelude::*;
use vstd::string::*;
use vstd::utf8::*;

use crate::common::{hex_to_rgb, spec_hex_to_rgb, Direction};
use crate::decimal::{
    decimal_chars, decimal_digits, decimal_string, lemma_decimal_chars_bytes,
    lemma_parse_decimal_roundtrip, parse_decimal, parse_unsigned,
};
use crate::text::str_eq;

verus! {

/// Departure time for a single train.
///
/// The API represents time as a numeric string (minutes until departure) or the
/// literal string `"Leaving"` when the train is currently at the platform.
#[derive(Debug, Clone, Copy, PartialEq, Eq, Structural)]
pub enum Minutes {
    /// Train is currently at the platform.
    Leaving,
    /// Minutes until departure.
    Mins(u32),
}

/// The minutes that an API string denotes: `"Leaving"`, or an unsigned
/// decimal number that fits in a `u32`.
pub open spec fn spec_minutes_from_api(s: Seq<char>, bytes: Seq<u8>) -> Option<Minutes> {
    if s == "Leaving"@ {
        Some(Minutes::Leaving)
    } else {
        match parse_unsigned(bytes, u32::MAX as nat) {
            Ok(n) => Some(Minutes::Mins(n as u32)),
            Err(_) => None,
        }
    }
}

impl Minutes {
    pub open spec fn spec_as_mins(self) -> Option<u32> {
        match self {
            Minutes::Leaving => None,
            Minutes::Mins(n) => Some(n),
        }
    }

    /// Returns `Some(n)` for [`Mins`](Minutes::Mins), or `None` for [`Leaving`](Minutes::Leaving).
    pub fn as_mins(&self) -> (r: Option<u32>)
        ensures
            r == self.spec_as_mins(),
    {
        match self {
            Minutes::Leaving => None,
            Minutes::Mins(n) => Some(*n),
        }
    }

    /// The text shown for these minutes: `"Leaving"` or `"<n> min"`.
    pub open spec fn spec_text(self) -> Seq<char> {
        match self {
            Minutes::Leaving => "Leaving"@,
            Minutes::Mins(n) => decimal_chars(n as nat) + " min"@,
        }
    }

    /// Renders the minutes as the departure boards show them.
    pub fn to_string(&self) -> (s: String)
        ensures
            s@ == self.spec_text(),
    {
        match self {
            Minutes::Leaving => "Leaving".to_owned(),
            Minutes::Mins(n) => {
                let mut s = decimal_string(*n as u64);
                s.append(" min");
                s
            },
        }
    }

    /// Reads the minutes from the API's string: `"Leaving"` or a number.
    /// Returns `None` for any other text.
    pub fn from_api(s: &str) -> (r: Option<Minutes>)
        ensures
            r == spec_minutes_from_api(s@, s.spec_bytes()),
    {
        if str_eq(s, "Leaving") {
            Some(Minutes::Leaving)
        } else {
            match parse_decimal(s, u32::MAX) {
                Ok(n) => Some(Minutes::Mins(n)),
                Err(_) => None,
            }
        }
    }
}

/// Reading the API text of a number of minutes gives that number back, and
/// the text shown for a leaving train reads back as leaving. (The text shown
/// for a number, `"<n> min"`, is not an API value and does not read back.)
pub proof fn lemma_minutes_api_roundtrip(n: u32)
    ensures
        spec_minutes_from_api(decimal_chars(n as nat), encode_utf8(decimal_chars(n as nat)))
            == Some(Minutes::Mins(n)),
        spec_minutes_from_api(Minutes::Leaving.spec_text(), encode_utf8(Minutes::Leaving.spec_text()))
            == Some(Minutes::Leaving),
{
    lemma_decimal_chars_bytes(n as nat);
    lemma_parse_decimal_roundtrip(n as nat, u32::MAX as nat);
    reveal_strlit("Leaving");
    crate::decimal::lemma_decimal_digits(n as nat);
    assert(decimal_chars(n as nat)[0] != "Leaving"@[0]) by {
        assert(decimal_chars(n as nat)[0] == decimal_digits(n as nat)[0] as char);
        assert(crate::decimal::is_digit(decimal_digits(n as nat)[0]));
    }
}

/// A single upcoming departure for a destination.
#[derive(Debug, Clone)]
pub struct Estimate {
    /// Minutes until departure; see [`Minutes`].
    pub minutes: Minutes,
    /// Platform number.
    pub platform: u8,
    /// Direction of travel.
    pub direction: Direction,
    /// Number of cars in the train.
    pub length: u8,
    /// Color name for the line, e.g. `"YELLOW"`.
    pub color: String,
    /// Hex color code, e.g. `"#ffff33"`.
    pub hexcolor: String,
    /// Whether bikes are permitted on this train.
    pub bikeflag: bool,
    /// Delay in seconds (`0` if on time).
    pub delay: u32,
    /// Whether this departure has been cancelled.
    pub cancelflag: bool,
    /// Whether this departure is dynamically scheduled.
    pub dynamicflag: bool,
}

impl Estimate {
    /// Returns `true` if the train is running behind schedule.
    pub fn is_delayed(&self) -> (r: bool)
        ensures
            r == (self.delay > 0),
    {
        self.delay > 0
    }

    /// Returns `true` if this departure has been cancelled.
    pub fn is_cancelled(&self) -> (r: bool)
        ensures
            r == self.cancelflag,
    {
        self.cancelflag
    }

    /// Returns `true` if bikes are permitted on this train.
    pub fn bikes_allowed(&self) -> (r: bool)
        ensures
            r == self.bikeflag,
    {
        self.bikeflag
    }

    /// Parses [`hexcolor`](Self::hexcolor) into `(r, g, b)` components.
    pub fn rgb(&self) -> (r: Option<(u8, u8, u8)>)
        ensures
            r == spec_hex_to_rgb(encode_utf8(self.hexcolor@)),
    {
        hex_to_rgb(self.hexcolor.as_str())
    }
}


/// Upcoming departures from one station toward a single destination.
#[derive(Debug, Clone)]
pub struct Etd {
    /// Destination station name, e.g. `"Antioch"`.
    pub destination: String,
    /// Destination station abbreviation, e.g. `"ANTC"`.
    pub abbreviation: String,
    /// Whether this is limited service (not all stops served).
    pub limited: bool,
    /// Next departures toward this destination (typically three).
    pub estimate: Vec<Estimate>,
}

impl Etd {
    /// The minutes of the first estimate, when there is one and the train is not leaving.
    pub open spec fn spec_next_mins(self) -> Option<u32> {
        if self.estimate@.len() > 0 {
            self.estimate@[0].minutes.spec_as_mins()
        } else {
            None
        }
    }

    /// Minutes until the next departure, or `None` if the train is already leaving.
    pub fn next_mins(&self) -> (r: Option<u32>)
        ensures
            r == self.spec_next_mins(),
    {
        if self.estimate.len() > 0 {
            self.estimate[0].minutes.as_mins()
        } else {
            None
        }
    }
}

/// Departure estimates for a station, grouped by destination.
#[derive(Debug, Clone)]
pub struct StationEtd {
    /// Station name, e.g. `"Glen Park"`.
    pub name: String,
    /// Station abbreviation, e.g. `"GLEN"`.
    pub abbr: String,
    /// Departures grouped by destination. Empty when the API reports no service.
    pub etd: Vec<Etd>,
}

/// Departures from a station split into northbound and southbound groups.
///
/// Returned by [`StationEtd::by_direction`]. Each group is sorted by next
/// departure time, with trains already at the platform appearing first.
#[derive(Debug)]
pub struct DirectionGroups<'a> {
    /// Northbound departures, sorted by next departure time.
    pub north: Vec<&'a Etd>,
    /// Southbound departures, sorted by next departure time.
    pub south: Vec<&'a Etd>,
}

/// A destination counts as northbound when its first estimate travels north.
pub open spec fn is_northbound(e: Etd) -> bool {
    e.estimate@.len() > 0 && e.estimate@[0].direction == Direction::North
}

/// Whether the next train to this destination is already at the platform.
pub open spec fn is_leaving(e: Etd) -> bool {
    e.estimate@.len() > 0 && e.estimate@[0].minutes == Minutes::Leaving
}

/// The key departures are ordered by: the next minutes; `0` for a destination
/// without estimates; and `-1`, below every minutes value, for a train that is
/// already at the platform, so that those come first.
pub open spec fn departure_key(e: Etd) -> int {
    if is_leaving(e) {
        -1
    } else {
        match e.spec_next_mins() {
            Some(m) => m as int,
            None => 0,
        }
    }
}

/// The destinations of `s` whose direction (northbound or not) is `north`, in order.
pub open spec fn heading(s: Seq<Etd>, north: bool) -> Seq<Etd>
    decreases s.len(),
{
    if s.len() == 0 {
        s
    } else if is_northbound(s.last()) == north {
        heading(s.drop_last(), north).push(s.last())
    } else {
        heading(s.drop_last(), north)
    }
}

/// The destinations of `s` whose key is `k`, in order.
pub open spec fn with_key(s: Seq<Etd>, k: int) -> Seq<Etd>
    decreases s.len(),
{
    if s.len() == 0 {
        s
    } else if departure_key(s.last()) == k {
        with_key(s.drop_last(), k).push(s.last())
    } else {
        with_key(s.drop_last(), k)
    }
}

pub open spec fn sorted_by_key(s: Seq<Etd>) -> bool {
    forall|i: int, j: int| 0 <= i < j < s.len() ==> departure_key(s[i]) <= departure_key(s[j])
}

/// `out` is `input` stably sorted by departure key: it is ordered by key, and
/// for every key it lists exactly the destinations of `input` with that key,
/// in the order they came in.
pub open spec fn stably_sorted_from(out: Seq<Etd>, input: Seq<Etd>) -> bool {
    &&& sorted_by_key(out)
    &&& forall|k: int| #[trigger] with_key(out, k) == with_key(input, k)
}

/// `g` with `e` placed after every destination whose key is at most its own
/// (searching from the back).
pub open spec fn insert_by_departure(g: Seq<Etd>, e: Etd) -> Seq<Etd>
    decreases g.len(),
{
    if g.len() == 0 {
        seq![e]
    } else if departure_key(g.last()) <= departure_key(e) {
        g.push(e)
    } else {
        insert_by_departure(g.drop_last(), e).push(g.last())
    }
}

/// `s` sorted by departure key, keeping the input order among equal keys.
pub open spec fn sorted_by_departure(s: Seq<Etd>) -> Seq<Etd>
    decreases s.len(),
{
    if s.len() == 0 {
        s
    } else {
        insert_by_departure(sorted_by_departure(s.drop_last()), s.last())
    }
}

/// Inserting into a sorted group keeps it sorted, adds `e` at the end of the
/// class of its key and leaves every other class alone.
pub proof fn lemma_insert_by_departure(g: Seq<Etd>, e: Etd)
    requires
        sorted_by_key(g),
    ensures
        sorted_by_key(insert_by_departure(g, e)),
        insert_by_departure(g, e).len() == g.len() + 1,
        forall|i: int|
            0 <= i < insert_by_departure(g, e).len() ==> #[trigger] insert_by_departure(g, e)[i]
                == e || g.contains(insert_by_departure(g, e)[i]),
        forall|k: int|
            #[trigger] with_key(insert_by_departure(g, e), k) == if k == departure_key(e) {
                with_key(g, k).push(e)
            } else {
                with_key(g, k)
            },
    decreases g.len(),
{
    let x = departure_key(e);
    let ins = insert_by_departure(g, e);
    if g.len() == 0 {
        assert(seq![e].drop_last() =~= g);
        assert forall|k: int| #[trigger] with_key(ins, k) == if k == x {
            with_key(g, k).push(e)
        } else {
            with_key(g, k)
        } by {
            assert(ins.drop_last() =~= g);
        }
    } else if departure_key(g.last()) <= x {
        assert(ins.drop_last() =~= g);
        assert forall|i: int| 0 <= i < ins.len() implies #[trigger] ins[i] == e || g.contains(ins[i]) by {
            if i < g.len() {
                assert(ins[i] == g[i]);
            }
        }
        assert forall|i: int, j: int| 0 <= i < j < ins.len() implies departure_key(ins[i])
            <= departure_key(ins[j]) by {
            if j == g.len() {
                assert(departure_key(g[i]) <= departure_key(g[g.len() - 1]));
            }
        }
    } else {
        let gp = g.drop_last();
        let last = g.last();
        assert forall|i: int, j: int| 0 <= i < j < gp.len() implies departure_key(gp[i])
            <= departure_key(gp[j]) by {
            assert(gp[i] == g[i] && gp[j] == g[j]);
        }
        lemma_insert_by_departure(gp, e);
        let insp = insert_by_departure(gp, e);
        assert(ins == insp.push(last));
        assert(ins.drop_last() =~= insp);
        assert forall|i: int| 0 <= i < ins.len() implies #[trigger] ins[i] == e || g.contains(ins[i]) by {
            if i < insp.len() {
                assert(ins[i] == insp[i]);
                if insp[i] != e {
                    let j = choose|j: int| 0 <= j < gp.len() && gp[j] == insp[i];
                    assert(g[j] == gp[j]);
                }
            } else {
                assert(ins[i] == g[g.len() - 1]);
            }
        }
        assert forall|i: int, j: int| 0 <= i < j < ins.len() implies departure_key(ins[i])
            <= departure_key(ins[j]) by {
            if j == ins.len() - 1 {
                assert(ins[i] == insp[i]);
                if insp[i] != e {
                    let m = choose|m: int| 0 <= m < gp.len() && gp[m] == insp[i];
                    assert(g[m] == gp[m]);
                    assert(departure_key(g[m]) <= departure_key(g[g.len() - 1]));
                }
            } else {
                assert(ins[i] == insp[i] && ins[j] == insp[j]);
            }
        }
        assert forall|k: int| #[trigger] with_key(ins, k) == if k == x {
            with_key(g, k).push(e)
        } else {
            with_key(g, k)
        } by {
            assert(with_key(insp, k) == if k == x {
                with_key(gp, k).push(e)
            } else {
                with_key(gp, k)
            });
        }
    }
}

/// The sort that groups use is a stable sort by departure key.
pub proof fn lemma_sorted_by_departure_is_stable(s: Seq<Etd>)
    ensures
        stably_sorted_from(sorted_by_departure(s), s),
        sorted_by_departure(s).len() == s.len(),
    decreases s.len(),
{
    if s.len() > 0 {
        lemma_sorted_by_departure_is_stable(s.drop_last());
        lemma_insert_by_departure(sorted_by_departure(s.drop_last()), s.last());
    }
}

/// In a sorted group, every destination whose next train is already at the
/// platform comes before every other destination.
pub proof fn lemma_leaving_sorted_first(s: Seq<Etd>, i: int, j: int)
    requires
        0 <= i < j < s.len(),
        is_leaving(sorted_by_departure(s)[j]),
    ensures
        is_leaving(sorted_by_departure(s)[i]),
{
    lemma_sorted_by_departure_is_stable(s);
    let t = sorted_by_departure(s);
    assert(departure_key(t[i]) <= departure_key(t[j]));
}

/// The groups put platform trains first: in a group sorted by departure, no
/// destination with a minutes value comes before one whose train is leaving.
pub open spec fn leaving_first(g: Seq<Etd>) -> bool {
    forall|i: int, j: int|
        0 <= i < j < g.len() && is_leaving(#[trigger] g[j]) ==> is_leaving(#[trigger] g[i])
}

/// For a sorted group, inserting at the first position whose key exceeds the
/// new key is the same as inserting by searching from the back.
proof fn lemma_insert_at_split(g: Seq<Etd>, p: int, e: Etd)
    requires
        sorted_by_key(g),
        0 <= p <= g.len(),
        forall|j: int| 0 <= j < p ==> departure_key(#[trigger] g[j]) <= departure_key(e),
        forall|j: int| p <= j < g.len() ==> departure_key(#[trigger] g[j]) > departure_key(e),
    ensures
        g.insert(p, e) == insert_by_departure(g, e),
    decreases g.len(),
{
    if g.len() == 0 {
        assert(g.insert(p, e) =~= seq![e]);
    } else if p == g.len() {
        assert(g.insert(p, e) =~= g.push(e));
        assert(departure_key(g[g.len() - 1]) <= departure_key(e));
    } else {
        let gp = g.drop_last();
        assert(departure_key(g[g.len() - 1]) > departure_key(e));
        assert forall|i: int, j: int| 0 <= i < j < gp.len() implies departure_key(gp[i])
            <= departure_key(gp[j]) by {
            assert(gp[i] == g[i] && gp[j] == g[j]);
        }
        assert forall|j: int| 0 <= j < p implies departure_key(#[trigger] gp[j]) <= departure_key(e) by {
            assert(gp[j] == g[j]);
        }
        assert forall|j: int| p <= j < gp.len() implies departure_key(#[trigger] gp[j]) > departure_key(e) by {
            assert(gp[j] == g[j]);
        }
        lemma_insert_at_split(gp, p, e);
        assert(g.insert(p, e) =~= gp.insert(p, e).push(g.last()));
    }
}

/// The destinations that a group of references points to.
pub open spec fn targets(g: Seq<&Etd>) -> Seq<Etd> {
    g.map_values(|r: &Etd| *r)
}

proof fn lemma_with_key_add(a: Seq<Etd>, b: Seq<Etd>, k: int)
    ensures
        with_key(a + b, k) == with_key(a, k) + with_key(b, k),
    decreases b.len(),
{
    if b.len() == 0 {
        assert(a + b =~= a);
        assert(with_key(a, k) + with_key(b, k) =~= with_key(a, k));
    } else {
        lemma_with_key_add(a, b.drop_last(), k);
        assert((a + b).drop_last() =~= a + b.drop_last());
        assert((a + b).last() == b.last());
        if departure_key(b.last()) == k {
            assert(with_key(a, k) + with_key(b, k) =~= (with_key(a, k) + with_key(
                b.drop_last(),
                k,
            )).push(b.last()));
        }
    }
}

proof fn lemma_with_key_all_other(s: Seq<Etd>, k: int)
    requires
        forall|i: int| 0 <= i < s.len() ==> departure_key(#[trigger] s[i]) != k,
    ensures
        with_key(s, k) == Seq::<Etd>::empty(),
    decreases s.len(),
{
    if s.len() > 0 {
        let p = s.drop_last();
        assert forall|i: int| 0 <= i < p.len() implies departure_key(#[trigger] p[i]) != k by {
            assert(p[i] == s[i]);
        }
        lemma_with_key_all_other(p, k);
        assert(departure_key(s[s.len() - 1]) != k);
    }
}

/// Inserting `e` after every element whose key is at most its own keeps the
/// group sorted and appends `e` to the class of its key.
proof fn lemma_insert_keeps_classes(g: Seq<Etd>, p: int, e: Etd)
    requires
        sorted_by_key(g),
        0 <= p <= g.len(),
        forall|j: int| 0 <= j < p ==> departure_key(#[trigger] g[j]) <= departure_key(e),
        forall|j: int| p <= j < g.len() ==> departure_key(#[trigger] g[j]) > departure_key(e),
    ensures
        sorted_by_key(g.insert(p, e)),
        forall|k: int|
            #[trigger] with_key(g.insert(p, e), k) == if k == departure_key(e) {
                with_key(g, k).push(e)
            } else {
                with_key(g, k)
            },
{
    let x = departure_key(e);
    let a = g.take(p);
    let b = g.skip(p);
    assert(g =~= a + b);
    assert(g.insert(p, e) =~= a + seq![e] + b);
    assert forall|k: int|
        #[trigger] with_key(g.insert(p, e), k) == if k == x {
            with_key(g, k).push(e)
        } else {
            with_key(g, k)
        } by {
        lemma_with_key_add(a + seq![e], b, k);
        lemma_with_key_add(a, seq![e], k);
        lemma_with_key_add(a, b, k);
        assert(seq![e].drop_last() =~= Seq::<Etd>::empty());
        assert(with_key(Seq::<Etd>::empty(), k) == Seq::<Etd>::empty());
        if k == x {
            assert forall|i: int| 0 <= i < b.len() implies departure_key(#[trigger] b[i]) != k by {
                assert(b[i] == g[p + i]);
            }
            lemma_with_key_all_other(b, k);
            assert(with_key(seq![e], k) =~= seq![e]);
            assert(with_key(a, k) + seq![e] + Seq::<Etd>::empty() =~= (with_key(a, k)
                + Seq::<Etd>::empty()).push(e));
        } else {
            assert(with_key(seq![e], k) =~= Seq::<Etd>::empty());
            assert(with_key(a, k) + Seq::<Etd>::empty() + with_key(b, k) =~= with_key(a, k)
                + with_key(b, k));
        }
    }
    let h = g.insert(p, e);
    assert forall|i: int, j: int| 0 <= i < j < h.len() implies departure_key(h[i])
        <= departure_key(h[j]) by {
        if j < p {
            assert(h[i] == g[i] && h[j] == g[j]);
        } else if j == p {
            assert(h[i] == g[i]);
        } else if i < p {
            assert(h[i] == g[i] && h[j] == g[j - 1]);
        } else if i == p {
            assert(h[j] == g[j - 1]);
        } else {
            assert(h[i] == g[i - 1] && h[j] == g[j - 1]);
        }
    }
}

/// The departure key of `e`.
fn key_of(e: &Etd) -> (k: i64)
    ensures
        k == departure_key(*e),
{
    if e.estimate.len() > 0 {
        match e.estimate[0].minutes {
            Minutes::Leaving => -1,
            Minutes::Mins(m) => m as i64,
        }
    } else {
        0
    }
}

/// Inserts `e` into the sorted group `g` after every element whose key is at most its own.
fn insert_by_key<'a>(g: &mut Vec<&'a Etd>, e: &'a Etd)
    requires
        sorted_by_key(targets(old(g)@)),
    ensures
        sorted_by_key(targets(final(g)@)),
        final(g)@.len() == old(g)@.len() + 1,
        forall|k: int|
            #[trigger] with_key(targets(final(g)@), k) == if k == departure_key(*e) {
                with_key(targets(old(g)@), k).push(*e)
            } else {
                with_key(targets(old(g)@), k)
            },
        forall|v: Etd| targets(final(g)@).contains(v) <==> (targets(old(g)@).contains(v) || v == *e),
        targets(final(g)@) == insert_by_departure(targets(old(g)@), *e),
{
    let key = key_of(e);
    let ghost t = targets(g@);
    let mut p: usize = 0;
    while p < g.len() && key_of(g[p]) <= key
        invariant
            p <= g@.len(),
            t == targets(g@),
            key == departure_key(*e),
            sorted_by_key(t),
            forall|j: int| 0 <= j < p ==> departure_key(#[trigger] t[j]) <= key,
        decreases g@.len() - p,
    {
        p = p + 1;
    }
    proof {
        if p < g@.len() {
            assert(departure_key(t[p as int]) > key);
            assert forall|j: int| p <= j < t.len() implies departure_key(#[trigger] t[j]) > key by {
                if j > p {
                    assert(departure_key(t[p as int]) <= departure_key(t[j]));
                }
            }
        }
        lemma_insert_keeps_classes(t, p as int, *e);
        lemma_insert_at_split(t, p as int, *e);
    }
    g.insert(p, e);
    proof {
        assert(targets(g@) =~= t.insert(p as int, *e));
        let n = targets(g@);
        assert forall|v: Etd| n.contains(v) <==> (t.contains(v) || v == *e) by {
            if n.contains(v) {
                let i = choose|i: int| 0 <= i < n.len() && n[i] == v;
                if i < p {
                    assert(t[i] == v);
                } else if i > p {
                    assert(t[i - 1] == v);
                }
            }
            if t.contains(v) {
                let i = choose|i: int| 0 <= i < t.len() && t[i] == v;
                if i < p {
                    assert(n[i] == v);
                } else {
                    assert(n[i + 1] == v);
                }
            }
            if v == *e {
                assert(n[p as int] == v);
            }
        }
    }
}

/// Splitting by direction loses and invents nothing: every destination goes
/// to exactly one side, the northbound side when its first train travels
/// north, the other side otherwise (a destination without trains too).
pub proof fn lemma_heading_partition(s: Seq<Etd>)
    ensures
        heading(s, true).len() + heading(s, false).len() == s.len(),
        forall|i: int|
            0 <= i < s.len() && s[i].estimate@.len() > 0 && s[i].estimate@[0].direction == Direction::North
                ==> heading(s, true).contains(#[trigger] s[i]),
        forall|i: int|
            0 <= i < s.len() && !(s[i].estimate@.len() > 0 && s[i].estimate@[0].direction == Direction::North)
                ==> heading(s, false).contains(#[trigger] s[i]),
        forall|x: Etd|
            heading(s, true).contains(x) ==> x.estimate@.len() > 0 && x.estimate@[0].direction
                == Direction::North,
        forall|x: Etd|
            heading(s, false).contains(x) ==> !(x.estimate@.len() > 0 && x.estimate@[0].direction
                == Direction::North),
    decreases s.len(),
{
    if s.len() > 0 {
        let p = s.drop_last();
        lemma_heading_partition(p);
        let l = s.last();
        let n = heading(p, true);
        let o = heading(p, false);
        assert forall|i: int|
            0 <= i < s.len() && s[i].estimate@.len() > 0 && s[i].estimate@[0].direction == Direction::North
                implies heading(s, true).contains(#[trigger] s[i]) by {
            if i < p.len() {
                assert(p[i] == s[i]);
                let k = choose|k: int| 0 <= k < n.len() && n[k] == p[i];
                if is_northbound(l) {
                    assert(n.push(l)[k] == n[k]);
                }
            } else {
                assert(heading(s, true) == n.push(l));
                assert(n.push(l)[n.len() as int] == l);
            }
        }
        assert forall|i: int|
            0 <= i < s.len() && !(s[i].estimate@.len() > 0 && s[i].estimate@[0].direction == Direction::North)
                implies heading(s, false).contains(#[trigger] s[i]) by {
            if i < p.len() {
                assert(p[i] == s[i]);
                let k = choose|k: int| 0 <= k < o.len() && o[k] == p[i];
                if !is_northbound(l) {
                    assert(o.push(l)[k] == o[k]);
                }
            } else {
                assert(heading(s, false) == o.push(l));
                assert(o.push(l)[o.len() as int] == l);
            }
        }
        assert forall|x: Etd| heading(s, true).contains(x) implies x.estimate@.len() > 0
            && x.estimate@[0].direction == Direction::North by {
            if is_northbound(l) {
                let k = choose|k: int| 0 <= k < n.push(l).len() && n.push(l)[k] == x;
                if k < n.len() {
                    assert(n.contains(x));
                }
            }
        }
        assert forall|x: Etd| heading(s, false).contains(x) implies !(x.estimate@.len() > 0
            && x.estimate@[0].direction == Direction::North) by {
            if !is_northbound(l) {
                let k = choose|k: int| 0 <= k < o.push(l).len() && o.push(l)[k] == x;
                if k < o.len() {
                    assert(o.contains(x));
                }
            }
        }
    }
}

/// A destination's key is its first train's minutes and nothing else: `-1`
/// when that train is at the platform, its minutes otherwise, and `0` when
/// there is no train. No other field of an estimate enters it.
pub proof fn lemma_departure_key_is_first_minutes(e: Etd)
    ensures
        e.estimate@.len() == 0 ==> departure_key(e) == 0,
        e.estimate@.len() > 0 && e.estimate@[0].minutes == Minutes::Leaving ==> departure_key(e) == -1,
        forall|m: u32|
            e.estimate@.len() > 0 && e.estimate@[0].minutes == Minutes::Mins(m) ==> departure_key(e) == m,
{
}

/// In a group sorted by departure, destinations come in the order of their
/// first train's minutes alone: a train at the platform before any train with
/// minutes, `a` minutes before `b` minutes only when `a <= b`, and a
/// destination without trains counts as `0` minutes.
pub proof fn lemma_sorted_by_first_minutes(s: Seq<Etd>, i: int, j: int, a: u32, b: u32)
    requires
        0 <= i < j < s.len(),
    ensures
        ({
            let g = sorted_by_departure(s);
            &&& (g[i].estimate@.len() > 0 && g[i].estimate@[0].minutes == Minutes::Mins(a)
                && g[j].estimate@.len() > 0 && g[j].estimate@[0].minutes == Minutes::Mins(b)) ==> a <= b
            &&& (g[j].estimate@.len() > 0 && g[j].estimate@[0].minutes == Minutes::Leaving) ==> (
            g[i].estimate@.len() > 0 && g[i].estimate@[0].minutes == Minutes::Leaving)
            &&& (g[i].estimate@.len() > 0 && g[i].estimate@[0].minutes == Minutes::Mins(a)
                && g[j].estimate@.len() == 0) ==> a == 0
            &&& (g[i].estimate@.len() == 0 && g[j].estimate@.len() > 0) ==> g[j].estimate@[0].minutes
                != Minutes::Leaving
        }),
{
    lemma_sorted_by_departure_is_stable(s);
    let g = sorted_by_departure(s);
    assert(departure_key(g[i]) <= departure_key(g[j]));
    lemma_departure_key_is_first_minutes(g[i]);
    lemma_departure_key_is_first_minutes(g[j]);
}

impl StationEtd {
    /// Splits and sorts departures into northbound and southbound groups.
    ///
    /// Within each group, destinations are ordered by their next departure time,
    /// with trains already at the platform (`Leaving`) sorted first. A
    /// destination without estimates is southbound and sorts as 0 minutes.
    pub fn by_direction(&self) -> (groups: DirectionGroups<'_>)
        ensures
            stably_sorted_from(targets(groups.north@), heading(self.etd@, true)),
            stably_sorted_from(targets(groups.south@), heading(self.etd@, false)),
            targets(groups.north@) == sorted_by_departure(heading(self.etd@, true)),
            targets(groups.south@) == sorted_by_departure(heading(self.etd@, false)),
            leaving_first(targets(groups.north@)),
            leaving_first(targets(groups.south@)),
            groups.north@.len() + groups.south@.len() == self.etd@.len(),
            forall|i: int| 0 <= i < groups.north@.len() ==> is_northbound(*#[trigger] groups.north@[i]),
            forall|i: int| 0 <= i < groups.south@.len() ==> !is_northbound(*#[trigger] groups.south@[i]),
            forall|i: int| 0 <= i < groups.north@.len() ==> self.etd@.contains(*#[trigger] groups.north@[i]),
            forall|i: int| 0 <= i < groups.south@.len() ==> self.etd@.contains(*#[trigger] groups.south@[i]),
    {
        let mut north: Vec<&Etd> = Vec::new();
        let mut south: Vec<&Etd> = Vec::new();
        let n = self.etd.len();
        let mut i: usize = 0;
        while i < n
            invariant
                i <= n,
                n == self.etd@.len(),
                north@.len() + south@.len() == i,
                sorted_by_key(targets(north@)),
                sorted_by_key(targets(south@)),
                targets(north@) == sorted_by_departure(heading(self.etd@.take(i as int), true)),
                targets(south@) == sorted_by_departure(heading(self.etd@.take(i as int), false)),
                forall|k: int| #[trigger] with_key(targets(north@), k) == with_key(heading(self.etd@.take(i as int), true), k),
                forall|k: int| #[trigger] with_key(targets(south@), k) == with_key(heading(self.etd@.take(i as int), false), k),
                forall|v: Etd| targets(north@).contains(v) ==> is_northbound(v),
                forall|v: Etd| targets(south@).contains(v) ==> !is_northbound(v),
                forall|v: Etd| targets(north@).contains(v) ==> self.etd@.contains(v),
                forall|v: Etd| targets(south@).contains(v) ==> self.etd@.contains(v),
            decreases n - i,
        {
            let e = &self.etd[i];
            let ghost pre = self.etd@.take(i as int);
            let ghost next = self.etd@.take(i + 1);
            assert(next.drop_last() =~= pre);
            assert(next.last() == *e);
            assert(self.etd@.contains(*e)) by {
                assert(self.etd@[i as int] == *e);
            }
            let north_bound = e.estimate.len() > 0 && match e.estimate[0].direction {
                Direction::North => true,
                Direction::South => false,
            };
            assert(north_bound == is_northbound(*e));
            if north_bound {
                insert_by_key(&mut north, e);
                assert forall|k: int| #[trigger] with_key(heading(next, true), k) == if k == departure_key(*e) {
                    with_key(heading(pre, true), k).push(*e)
                } else {
                    with_key(heading(pre, true), k)
                } by {
                    assert(heading(next, true) =~= heading(pre, true).push(*e));
                    assert(heading(pre, true).push(*e).drop_last() =~= heading(pre, true));
                }
                assert(heading(next, false) == heading(pre, false));
                assert(heading(next, true) =~= heading(pre, true).push(*e));
                assert(heading(pre, true).push(*e).drop_last() =~= heading(pre, true));
            } else {
                insert_by_key(&mut south, e);
                assert forall|k: int| #[trigger] with_key(heading(next, false), k) == if k == departure_key(*e) {
                    with_key(heading(pre, false), k).push(*e)
                } else {
                    with_key(heading(pre, false), k)
                } by {
                    assert(heading(next, false) =~= heading(pre, false).push(*e));
                    assert(heading(pre, false).push(*e).drop_last() =~= heading(pre, false));
                }
                assert(heading(next, true) == heading(pre, true));
                assert(heading(next, false) =~= heading(pre, false).push(*e));
                assert(heading(pre, false).push(*e).drop_last() =~= heading(pre, false));
            }
            i = i + 1;
        }
        assert(self.etd@.take(n as int) =~= self.etd@);
        proof {
            assert forall|j: int| 0 <= j < north@.len() implies is_northbound(*#[trigger] north@[j]) by {
                assert(targets(north@)[j] == *north@[j]);
                assert(targets(north@).contains(*north@[j]));
            }
            assert forall|j: int| 0 <= j < north@.len() implies self.etd@.contains(*#[trigger] north@[j]) by {
                assert(targets(north@)[j] == *north@[j]);
                assert(targets(north@).contains(*north@[j]));
            }
            assert forall|j: int| 0 <= j < south@.len() implies self.etd@.contains(*#[trigger] south@[j]) by {
                assert(targets(south@)[j] == *south@[j]);
                assert(targets(south@).contains(*south@[j]));
            }
            assert forall|j: int| 0 <= j < south@.len() implies !is_northbound(*#[trigger] south@[j]) by {
                assert(targets(south@)[j] == *south@[j]);
                assert(targets(south@).contains(*south@[j]));
            }
        }
        proof {
            assert forall|a: int, b: int|
                0 <= a < b < targets(north@).len() && is_leaving(#[trigger] targets(north@)[b])
                    implies is_leaving(#[trigger] targets(north@)[a]) by {
                assert(departure_key(targets(north@)[a]) <= departure_key(targets(north@)[b]));
            }
            assert forall|a: int, b: int|
                0 <= a < b < targets(south@).len() && is_leaving(#[trigger] targets(south@)[b])
                    implies is_leaving(#[trigger] targets(south@)[a]) by {
                assert(departure_key(targets(south@)[a]) <= departure_key(targets(south@)[b]));
            }
        }
        DirectionGroups { north, south }
    }
}

} // verus!
