//! Station data returned by the BART stations endpoint.

use vstd::prelude::*;
use vstd::string::*;
use vstd::utf8::*;

use crate::text::str_eq;

verus! {

/// A single BART station.
#[derive(Debug, Clone)]
pub struct Station {
    /// Full station name, e.g. `"Glen Park"`.
    pub name: String,
    /// Station abbreviation used as the station ID in API calls, e.g. `"GLEN"`.
    pub abbr: String,
    /// Latitude per the GTFS feed (parse to `f64` as needed).
    pub gtfs_latitude: String,
    /// Longitude per the GTFS feed (parse to `f64` as needed).
    pub gtfs_longitude: String,
    /// Street address.
    pub address: String,
    /// City name.
    pub city: String,
    /// County name (inconsistently cased across stations in the API response).
    pub county: String,
    /// State abbreviation (`"CA"` for all current stations).
    pub state: String,
    /// ZIP code.
    pub zipcode: String,
}

/// Finds the first station with the given abbreviation.
pub fn find_by_abbr<'a>(stations: &'a Vec<Station>, abbr: &str) -> (r: Option<&'a Station>)
    ensures
        match r {
            Some(s) => exists|i: int|
                0 <= i < stations@.len() && stations@[i] == *s && s.abbr@ == abbr@ && forall|j: int|
                    0 <= j < i ==> #[trigger] stations@[j].abbr@ != abbr@,
            None => forall|i: int| 0 <= i < stations@.len() ==> #[trigger] stations@[i].abbr@ != abbr@,
        },
{
    let mut i: usize = 0;
    while i < stations.len()
        invariant
            i <= stations@.len(),
            forall|j: int| 0 <= j < i ==> #[trigger] stations@[j].abbr@ != abbr@,
        decreases stations@.len() - i,
    {
        if str_eq(stations[i].abbr.as_str(), abbr) {
            return Some(&stations[i]);
        }
        i = i + 1;
    }
    None
}


// ── ordering by name ────────────────────────────────────────────────────────

/// Lexicographic order on bytes, as `str` orders strings: `a` comes strictly
/// before `b`.
pub open spec fn bytes_lt(a: Seq<u8>, b: Seq<u8>) -> bool
    decreases a.len(),
{
    if a.len() == 0 {
        b.len() > 0
    } else if b.len() == 0 {
        false
    } else if a[0] != b[0] {
        a[0] < b[0]
    } else {
        bytes_lt(a.drop_first(), b.drop_first())
    }
}

/// The bytes a station is ordered by: those of its name.
pub open spec fn name_key(s: Station) -> Seq<u8> {
    encode_utf8(s.name@)
}

proof fn lemma_bytes_lt_irreflexive(a: Seq<u8>)
    ensures
        !bytes_lt(a, a),
    decreases a.len(),
{
    if a.len() > 0 {
        lemma_bytes_lt_irreflexive(a.drop_first());
    }
}

proof fn lemma_bytes_lt_transitive(a: Seq<u8>, b: Seq<u8>, c: Seq<u8>)
    requires
        bytes_lt(a, b),
        bytes_lt(b, c),
    ensures
        bytes_lt(a, c),
    decreases a.len(),
{
    if a.len() > 0 && b.len() > 0 && c.len() > 0 && a[0] == b[0] && b[0] == c[0] {
        lemma_bytes_lt_transitive(a.drop_first(), b.drop_first(), c.drop_first());
    }
}

proof fn lemma_bytes_lt_total(a: Seq<u8>, b: Seq<u8>)
    ensures
        bytes_lt(a, b) || bytes_lt(b, a) || a == b,
    decreases a.len(),
{
    if a.len() > 0 && b.len() > 0 && a[0] == b[0] {
        lemma_bytes_lt_total(a.drop_first(), b.drop_first());
        if a.drop_first() == b.drop_first() {
            assert(a =~= seq![a[0]] + a.drop_first());
            assert(b =~= seq![b[0]] + b.drop_first());
        }
    } else if a.len() == 0 && b.len() == 0 {
        assert(a =~= b);
    }
}

/// Whether the name of `a` comes strictly before the name of `b`.
pub fn name_lt(a: &Station, b: &Station) -> (r: bool)
    ensures
        r == bytes_lt(name_key(*a), name_key(*b)),
{
    let x = a.name.as_str().as_bytes();
    let y = b.name.as_str().as_bytes();
    let mut i: usize = 0;
    assert(x@.skip(0) =~= x@ && y@.skip(0) =~= y@);
    while i < x.len() && i < y.len() && x[i] == y[i]
        invariant
            i <= x@.len(),
            i <= y@.len(),
            x@ == name_key(*a),
            y@ == name_key(*b),
            bytes_lt(x@, y@) == bytes_lt(x@.skip(i as int), y@.skip(i as int)),
        decreases x@.len() - i,
    {
        assert(x@.skip(i as int).drop_first() =~= x@.skip(i + 1));
        assert(y@.skip(i as int).drop_first() =~= y@.skip(i + 1));
        i = i + 1;
    }
    if i == x.len() {
        i < y.len()
    } else if i == y.len() {
        false
    } else {
        x[i] < y[i]
    }
}

/// `g` with `e` placed after every station, counted from the back, whose
/// name does not come after its own.
pub open spec fn insert_by_name(g: Seq<Station>, e: Station) -> Seq<Station>
    decreases g.len(),
{
    if g.len() == 0 {
        seq![e]
    } else if !bytes_lt(name_key(e), name_key(g.last())) {
        g.push(e)
    } else {
        insert_by_name(g.drop_last(), e).push(g.last())
    }
}

/// `s` sorted by name, keeping the input order among equal names.
pub open spec fn sorted_by_name(s: Seq<Station>) -> Seq<Station>
    decreases s.len(),
{
    if s.len() == 0 {
        s
    } else {
        insert_by_name(sorted_by_name(s.drop_last()), s.last())
    }
}

pub open spec fn names_sorted(s: Seq<Station>) -> bool {
    forall|i: int, j: int| 0 <= i < j < s.len() ==> !bytes_lt(name_key(s[j]), name_key(s[i]))
}

/// The stations of `s` named `name`, in order.
pub open spec fn named(s: Seq<Station>, name: Seq<u8>) -> Seq<Station>
    decreases s.len(),
{
    if s.len() == 0 {
        s
    } else if name_key(s.last()) == name {
        named(s.drop_last(), name).push(s.last())
    } else {
        named(s.drop_last(), name)
    }
}

proof fn lemma_insert_by_name(g: Seq<Station>, e: Station)
    requires
        names_sorted(g),
    ensures
        names_sorted(insert_by_name(g, e)),
        insert_by_name(g, e).len() == g.len() + 1,
        forall|i: int|
            0 <= i < insert_by_name(g, e).len() ==> #[trigger] insert_by_name(g, e)[i] == e
                || g.contains(insert_by_name(g, e)[i]),
        forall|k: Seq<u8>|
            #[trigger] named(insert_by_name(g, e), k) == if k == name_key(e) {
                named(g, k).push(e)
            } else {
                named(g, k)
            },
    decreases g.len(),
{
    let x = name_key(e);
    let ins = insert_by_name(g, e);
    if g.len() == 0 {
        assert(seq![e].drop_last() =~= g);
        assert forall|k: Seq<u8>| #[trigger] named(ins, k) == if k == x {
            named(g, k).push(e)
        } else {
            named(g, k)
        } by {
            assert(ins.drop_last() =~= g);
        }
    } else if !bytes_lt(x, name_key(g.last())) {
        assert(ins.drop_last() =~= g);
        assert forall|i: int| 0 <= i < ins.len() implies #[trigger] ins[i] == e || g.contains(ins[i]) by {
            if i < g.len() {
                assert(ins[i] == g[i]);
            }
        }
        assert forall|i: int, j: int| 0 <= i < j < ins.len() implies !bytes_lt(
            name_key(ins[j]),
            name_key(ins[i]),
        ) by {
            if j == g.len() {
                let l = name_key(g[g.len() - 1]);
                let gi = name_key(g[i]);
                if i < g.len() - 1 {
                    assert(!bytes_lt(l, gi));
                }
                if bytes_lt(x, gi) {
                    lemma_bytes_lt_total(l, gi);
                    if bytes_lt(gi, l) {
                        lemma_bytes_lt_transitive(x, gi, l);
                    }
                }
            }
        }
    } else {
        let gp = g.drop_last();
        let last = g.last();
        assert forall|i: int, j: int| 0 <= i < j < gp.len() implies !bytes_lt(
            name_key(gp[j]),
            name_key(gp[i]),
        ) by {
            assert(gp[i] == g[i] && gp[j] == g[j]);
        }
        lemma_insert_by_name(gp, e);
        let insp = insert_by_name(gp, e);
        assert(ins == insp.push(last));
        assert(ins.drop_last() =~= insp);
        assert forall|i: int| 0 <= i < ins.len() implies #[trigger] ins[i] == e || g.contains(ins[i]) by {
            if i < insp.len() {
                assert(ins[i] == insp[i]);
                if insp[i] != e {
                    let j = choose|j: int| 0 <= j < gp.len() && gp[j] == insp[i];
                    assert(g[j] == gp[j]);
                }
            } else {
                assert(ins[i] == g[g.len() - 1]);
            }
        }
        assert forall|i: int, j: int| 0 <= i < j < ins.len() implies !bytes_lt(
            name_key(ins[j]),
            name_key(ins[i]),
        ) by {
            if j == ins.len() - 1 {
                assert(ins[i] == insp[i]);
                if insp[i] != e {
                    let m = choose|m: int| 0 <= m < gp.len() && gp[m] == insp[i];
                    assert(g[m] == gp[m]);
                    assert(!bytes_lt(name_key(g[g.len() - 1]), name_key(g[m])));
                } else {
                    if bytes_lt(name_key(last), x) {
                        lemma_bytes_lt_transitive(x, name_key(last), x);
                        lemma_bytes_lt_irreflexive(x);
                    }
                }
            } else {
                assert(ins[i] == insp[i] && ins[j] == insp[j]);
            }
        }
        assert forall|k: Seq<u8>| #[trigger] named(ins, k) == if k == x {
            named(g, k).push(e)
        } else {
            named(g, k)
        } by {
            assert(named(insp, k) == if k == x {
                named(gp, k).push(e)
            } else {
                named(gp, k)
            });
            if k == x {
                if name_key(last) == x {
                    lemma_bytes_lt_irreflexive(x);
                }
            }
        }
    }
}

/// Sorting by name is a stable sort: the result is ordered by name, and for
/// every name it lists exactly the stations of that name, in the order they came in.
pub proof fn lemma_sorted_by_name_is_stable(s: Seq<Station>)
    ensures
        names_sorted(sorted_by_name(s)),
        forall|k: Seq<u8>| #[trigger] named(sorted_by_name(s), k) == named(s, k),
        sorted_by_name(s).len() == s.len(),
    decreases s.len(),
{
    if s.len() > 0 {
        lemma_sorted_by_name_is_stable(s.drop_last());
        lemma_insert_by_name(sorted_by_name(s.drop_last()), s.last());
    }
}

/// Inserting at the position found by scanning back past every station whose
/// name comes after the new one is the same as `insert_by_name`.
proof fn lemma_insert_at_back_scan(g: Seq<Station>, p: int, e: Station)
    requires
        0 <= p <= g.len(),
        forall|j: int| p <= j < g.len() ==> bytes_lt(name_key(e), name_key(#[trigger] g[j])),
        p > 0 ==> !bytes_lt(name_key(e), name_key(g[p - 1])),
    ensures
        g.insert(p, e) == insert_by_name(g, e),
    decreases g.len(),
{
    if g.len() == 0 {
        assert(g.insert(p, e) =~= seq![e]);
    } else if p == g.len() {
        assert(g.insert(p, e) =~= g.push(e));
    } else {
        let gp = g.drop_last();
        assert(bytes_lt(name_key(e), name_key(g[g.len() - 1])));
        assert forall|j: int| p <= j < gp.len() implies bytes_lt(name_key(e), name_key(#[trigger] gp[j])) by {
            assert(gp[j] == g[j]);
        }
        if p > 0 {
            assert(gp[p - 1] == g[p - 1]);
        }
        lemma_insert_at_back_scan(gp, p, e);
        assert(g.insert(p, e) =~= gp.insert(p, e).push(g.last()));
    }
}

/// Sorts the stations alphabetically by name; stations with the same name
/// keep their order.
pub fn sort_by_name(stations: &mut Vec<Station>)
    ensures
        final(stations)@ == sorted_by_name(old(stations)@),
{
    let ghost orig = stations@;
    let n = stations.len();
    let mut i: usize = 0;
    while i < n
        invariant
            i <= n,
            n == orig.len(),
            stations@.len() == n,
            stations@.take(i as int) == sorted_by_name(orig.take(i as int)),
            stations@.skip(i as int) == orig.skip(i as int),
        decreases n - i,
    {
        let ghost g = stations@.take(i as int);
        assert(stations@[i as int] == orig[i as int]) by {
            assert(stations@.skip(i as int)[0] == orig.skip(i as int)[0]);
        }
        let x = stations.remove(i);
        let mut p: usize = i;
        while p > 0 && name_lt(&x, &stations[p - 1])
            invariant
                p <= i,
                i < n,
                stations@.len() == n - 1,
                stations@.take(i as int) == g,
                forall|j: int| p <= j < i ==> bytes_lt(name_key(x), name_key(#[trigger] g[j])),
            decreases p,
        {
            assert(stations@[p - 1] == g[p - 1]);
            p = p - 1;
        }
        proof {
            if p > 0 {
                assert(stations@[p - 1] == g[p - 1]);
            }
            lemma_insert_at_back_scan(g, p as int, x);
            assert(orig.take(i + 1).drop_last() =~= orig.take(i as int));
            assert(orig.take(i + 1).last() == x);
        }
        let ghost rest = stations@.skip(i as int);
        stations.insert(p, x);
        proof {
            assert(stations@.take(i + 1) =~= g.insert(p as int, x));
            assert(stations@.skip(i + 1) =~= orig.skip(i + 1)) by {
                assert(rest =~= orig.skip(i + 1)) by {
                    assert forall|j: int| 0 <= j < rest.len() implies rest[j] == orig.skip(i + 1)[j] by {
                        assert(orig.skip(i as int)[j + 1] == orig[i + 1 + j]);
                    }
                }
            }
        }
        i = i + 1;
    }
    assert(stations@.take(n as int) =~= stations@);
    assert(orig.take(n as int) =~= orig);
}

} // verus!
