//! The requests the client sends to the BART Legacy API.

use vstd::prelude::*;
use vstd::string::*;

verus! {

/// Where the API is served.
pub const BASE_URL: &'static str = "https://api.bart.gov";
/// BART's public demo key.
pub const PUBLIC_KEY: &'static str = "MW9S-E7SL-26DU-VV8V";

/// An authenticated GET request: the endpoint's path and its query parameters.
#[derive(Debug, Clone)]
pub struct ApiRequest {
    pub path: String,
    pub query: Vec<(String, String)>,
}

/// The text of the query parameters.
pub open spec fn query_text(q: Seq<(String, String)>) -> Seq<(Seq<char>, Seq<char>)> {
    q.map_values(|p: (String, String)| (p.0@, p.1@))
}

/// The parameters every request carries: the key, and a request for JSON.
pub open spec fn common_query(key: Seq<char>) -> Seq<(Seq<char>, Seq<char>)> {
    seq![("key"@, key), ("json"@, "y"@)]
}

fn pair(a: &str, b: &str) -> (p: (String, String))
    ensures
        p.0@ == a@,
        p.1@ == b@,
{
    (a.to_owned(), b.to_owned())
}

fn request(key: &str, path: &str, extra: Vec<(String, String)>) -> (r: ApiRequest)
    ensures
        r.path@ == path@,
        query_text(r.query@) == common_query(key@) + query_text(extra@),
{
    let mut query: Vec<(String, String)> = Vec::new();
    query.push(pair("key", key));
    query.push(pair("json", "y"));
    let mut extra = extra;
    let ghost first = query@;
    let ghost rest = extra@;
    query.append(&mut extra);
    proof {
        assert(query@ =~= first + rest);
        assert(query_text(first + rest) =~= query_text(first) + query_text(rest));
        assert(query_text(first) =~= common_query(key@));
    }
    ApiRequest { path: path.to_owned(), query }
}

/// The request for the list of all stations.
pub fn stations_request(key: &str) -> (r: ApiRequest)
    ensures
        r.path@ == "/api/stn.aspx"@,
        query_text(r.query@) == common_query(key@) + seq![("cmd"@, "stns"@)],
{
    let mut extra: Vec<(String, String)> = Vec::new();
    extra.push(pair("cmd", "stns"));
    proof { assert(query_text(extra@) =~= seq![("cmd"@, "stns"@)]); }
    request(key, "/api/stn.aspx", extra)
}

/// The request for the list of all routes.
pub fn routes_request(key: &str) -> (r: ApiRequest)
    ensures
        r.path@ == "/api/route.aspx"@,
        query_text(r.query@) == common_query(key@) + seq![("cmd"@, "routes"@)],
{
    let mut extra: Vec<(String, String)> = Vec::new();
    extra.push(pair("cmd", "routes"));
    proof { assert(query_text(extra@) =~= seq![("cmd"@, "routes"@)]); }
    request(key, "/api/route.aspx", extra)
}

/// The request for the departure estimates of station `orig`, filtered to the
/// direction `dir` (`"n"` or `"s"`) when one is given.
pub fn estimates_request(key: &str, orig: &str, dir: Option<&str>) -> (r: ApiRequest)
    ensures
        r.path@ == "/api/etd.aspx"@,
        query_text(r.query@) == common_query(key@) + seq![("cmd"@, "etd"@), ("orig"@, orig@)]
            + match dir {
            Some(d) => seq![("dir"@, d@)],
            None => Seq::<(Seq<char>, Seq<char>)>::empty(),
        },
{
    let mut extra: Vec<(String, String)> = Vec::new();
    extra.push(pair("cmd", "etd"));
    extra.push(pair("orig", orig));
    match dir {
        Some(d) => {
            extra.push(pair("dir", d));
        },
        None => {},
    }
    proof {
        assert(query_text(extra@) =~= seq![("cmd"@, "etd"@), ("orig"@, orig@)] + match dir {
            Some(d) => seq![("dir"@, d@)],
            None => Seq::<(Seq<char>, Seq<char>)>::empty(),
        });
    }
    request(key, "/api/etd.aspx", extra)
}

impl ApiRequest {
    /// The full address of the endpoint.
    pub fn url(&self) -> (u: String)
        ensures
            u@ == BASE_URL@ + self.path@,
    {
        let mut u = BASE_URL.to_owned();
        u.append(self.path.as_str());
        u
    }
}

/// The requests of one client. It keeps the key it was made with for its
/// whole life, and every request it makes starts its query with that key
/// and the request for JSON.
pub struct ClientRequests {
    key: String,
}

impl View for ClientRequests {
    type V = Seq<char>;

    /// The key every request carries.
    closed spec fn view(&self) -> Seq<char> {
        self.key@
    }
}

impl ClientRequests {
    /// Requests that carry BART's public demo key.
    pub fn new() -> (c: ClientRequests)
        ensures
            c@ == PUBLIC_KEY@,
    {
        ClientRequests::with_key(PUBLIC_KEY.to_owned())
    }

    /// Requests that carry the given key.
    pub fn with_key(key: String) -> (c: ClientRequests)
        ensures
            c@ == key@,
    {
        ClientRequests { key }
    }

    /// The key every request carries.
    pub fn key(&self) -> (k: &str)
        ensures
            k@ == self@,
    {
        self.key.as_str()
    }

    /// The request for the list of all stations.
    pub fn stations(&self) -> (r: ApiRequest)
        ensures
            r.path@ == "/api/stn.aspx"@,
            query_text(r.query@) == common_query(self@) + seq![("cmd"@, "stns"@)],
    {
        stations_request(self.key.as_str())
    }

    /// The request for the list of all routes.
    pub fn routes(&self) -> (r: ApiRequest)
        ensures
            r.path@ == "/api/route.aspx"@,
            query_text(r.query@) == common_query(self@) + seq![("cmd"@, "routes"@)],
    {
        routes_request(self.key.as_str())
    }

    /// The request for the departure estimates of station `orig`.
    pub fn estimates(&self, orig: &str) -> (r: ApiRequest)
        ensures
            r.path@ == "/api/etd.aspx"@,
            query_text(r.query@) == common_query(self@) + seq![("cmd"@, "etd"@), ("orig"@, orig@)],
    {
        let r = estimates_request(self.key.as_str(), orig, None);
        proof {
            assert(common_query(self@) + seq![("cmd"@, "etd"@), ("orig"@, orig@)]
                + Seq::<(Seq<char>, Seq<char>)>::empty() =~= common_query(self@) + seq![
                ("cmd"@, "etd"@),
                ("orig"@, orig@),
            ]);
        }
        r
    }

    /// The request for the departure estimates of station `orig` in the
    /// direction `dir` (`"n"` or `"s"`).
    pub fn estimates_filtered(&self, orig: &str, dir: &str) -> (r: ApiRequest)
        ensures
            r.path@ == "/api/etd.aspx"@,
            query_text(r.query@) == common_query(self@) + seq![
                ("cmd"@, "etd"@),
                ("orig"@, orig@),
                ("dir"@, dir@),
            ],
    {
        let r = estimates_request(self.key.as_str(), orig, Some(dir));
        proof {
            assert(common_query(self@) + seq![("cmd"@, "etd"@), ("orig"@, orig@)] + seq![("dir"@, dir@)]
                =~= common_query(self@) + seq![("cmd"@, "etd"@), ("orig"@, orig@), ("dir"@, dir@)]);
        }
        r
    }
}

/// Every request a client makes carries its key first and then asks for
/// JSON: the query of each starts with the same two pairs.
pub proof fn lemma_requests_carry_key(key: Seq<char>, rest: Seq<(Seq<char>, Seq<char>)>)
    ensures
        (common_query(key) + rest).take(2) == seq![("key"@, key), ("json"@, "y"@)],
        (common_query(key) + rest)[0] == ("key"@, key),
{
    assert((common_query(key) + rest).take(2) =~= common_query(key));
}

} // verus!
