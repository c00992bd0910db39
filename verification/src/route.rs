//! Route data returned by the BART routes endpoint.

use vstd::prelude::*;
use vstd::utf8::*;

use crate::common::{hex_to_rgb, spec_hex_to_rgb, Direction};

verus! {

/// A single BART route (one direction of a line).
///
/// Each physical line (Blue, Yellow, etc.) has two routes: one northbound and one southbound.
#[derive(Debug, Clone)]
pub struct Route {
    /// Full route name, e.g. `"Daly City to Dublin/Pleasanton"`.
    pub name: String,
    /// Origin–destination code, e.g. `"DALY-DUBL"`.
    pub abbr: String,
    /// Internal route identifier, e.g. `"ROUTE 12"`.
    pub route_id: String,
    /// Route number, e.g. `12`.
    pub number: u8,
    /// Hex color code for the line, e.g. `"#0099CC"`.
    pub hexcolor: String,
    /// Color name for the line, e.g. `"BLUE"`.
    pub color: String,
    /// Direction of travel.
    pub direction: Direction,
}

impl Route {
    /// Parses [`hexcolor`](Self::hexcolor) into `(r, g, b)` components.
    pub fn rgb(&self) -> (r: Option<(u8, u8, u8)>)
        ensures
            r == spec_hex_to_rgb(encode_utf8(self.hexcolor@)),
    {
        hex_to_rgb(self.hexcolor.as_str())
    }
}

/// The routes of `routes` that travel in direction `dir`, in order.
pub open spec fn routes_toward(routes: Seq<Route>, dir: Direction) -> Seq<Route>
    decreases routes.len(),
{
    if routes.len() == 0 {
        routes
    } else if routes.last().direction == dir {
        routes_toward(routes.drop_last(), dir).push(routes.last())
    } else {
        routes_toward(routes.drop_last(), dir)
    }
}

/// Keeps only the routes that travel in direction `dir`, in their order.
pub fn retain_direction(routes: &mut Vec<Route>, dir: Direction)
    ensures
        final(routes)@ == routes_toward(old(routes)@, dir),
{
    let ghost orig = routes@;
    let ghost mut j: int = 0;
    let mut i: usize = 0;
    while i < routes.len()
        invariant
            0 <= j <= orig.len(),
            i == routes_toward(orig.take(j), dir).len(),
            routes@ =~= routes_toward(orig.take(j), dir) + orig.skip(j),
        decreases orig.len() - j,
    {
        proof {
            assert(orig.take(j + 1).drop_last() =~= orig.take(j));
            assert(routes@[i as int] == orig[j]);
        }
        if routes[i].direction == dir {
            i = i + 1;
        } else {
            routes.remove(i);
        }
        proof {
            j = j + 1;
        }
    }
    assert(orig.take(j) =~= orig);
}

} // verus!
