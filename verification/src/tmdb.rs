//! Resolution through an outside titles-search service: the candidate name
//! (with any trailing "(year)" stripped) is sent as a query, and the first
//! result's name comes back, sanitised of path-unsafe characters, always
//! with the fixed low certainty 1/10 — never confident enough to accept
//! without a human confirming it.

use vstd::prelude::*;

use crate::certainty::Certainty;

verus! {

#[verifier::external_type_specification]
#[verifier::external_body]
pub struct ExValue(serde_json::Value);

/// Relies on ureq's get: sends the query to the titles-search endpoint
/// with a bearer token and returns the response body, or nothing on any
/// network or protocol failure. Nothing is promised of the body: it came
/// over the network.
#[verifier::external_body]
fn tmdb_fetch(url: &str, token: &str, query: &str) -> Option<String> {
    let req = ureq::get(url).set("Authorization", &format!("Bearer {}", token)).query(
        "query",
        query,
    );
    let res = req.call().ok()?;
    res.into_string().ok()
}

/// Relies on serde_json::from_str: parses a JSON document, or nothing if
/// the text is not JSON. Nothing is promised of the value.
#[verifier::external_body]
fn parse_json(s: &str) -> Option<serde_json::Value> {
    serde_json::from_str(s).ok()
}

pub assume_specification<'a>[ serde_json::Value::pointer ](
    v: &'a serde_json::Value,
    pointer: &str,
) -> Option<&'a serde_json::Value>;

pub assume_specification<'a>[ serde_json::Value::as_str ](v: &'a serde_json::Value) -> Option<
    &'a str,
>;

/// Whether the name ends in a parenthesised run of digits, starting at `k`:
/// `(`, one or more digits, `)` at the very end.
pub open spec fn year_suffix_at(s: Seq<char>, k: int) -> bool {
    &&& 0 <= k
    &&& k + 3 <= s.len()
    &&& s[k] == '('
    &&& s[s.len() - 1] == ')'
    &&& forall|j: int| k < j < s.len() - 1 ==> crate::episode::is_digit(#[trigger] s[j])
}

/// The name with a trailing "(year)" removed: everything before the
/// earliest year suffix, or the name unchanged if there is none.
pub open spec fn strip_year_spec(s: Seq<char>) -> Seq<char> {
    if exists|k: int| year_suffix_at(s, k) {
        s.take(choose|k: int| year_suffix_at(s, k) && forall|k2: int|
            year_suffix_at(s, k2) ==> k <= k2)
    } else {
        s
    }
}

/// A name with path-unsafe characters replaced: `/` and `\` become spaces.
pub open spec fn sanitise_spec(s: Seq<char>) -> Seq<char> {
    s.map_values(
        |c: char|
            if c == '/' || c == '\\' {
                ' '
            } else {
                c
            },
    )
}

/// Strip a trailing parenthesised year from a candidate name: the search
/// service finds nothing when one is left on.
#[verifier::loop_isolation(false)]
pub fn strip_year(name: &str) -> (r: String)
    ensures
        r@ == strip_year_spec(name@),
{
    let n = name.unicode_len();
    let mut k: usize = 0;
    while k < n
        invariant
            k <= n,
            n == name@.len(),
            forall|j: int| 0 <= j < k ==> !year_suffix_at(name@, j),
        decreases n - k,
    {
        if name.get_char(k) == '(' && n - k >= 3 && name.get_char(n - 1) == ')' {
            let mut j = k + 1;
            let mut all_digits = true;
            while j < n - 1
                invariant
                    k + 1 <= j <= n - 1,
                    all_digits == forall|t: int|
                        k < t < j ==> crate::episode::is_digit(#[trigger] name@[t]),
                decreases n - 1 - j,
            {
                let c = name.get_char(j) as u32;
                if !(48 <= c && c <= 57) {
                    all_digits = false;
                    proof {
                        assert(!crate::episode::is_digit(name@[j as int]));
                    }
                }
                j = j + 1;
            }
            if all_digits {
                proof {
                    assert(year_suffix_at(name@, k as int));
                    assert(forall|k2: int| year_suffix_at(name@, k2) ==> k as int <= k2);
                    let kk = choose|kk: int|
                        year_suffix_at(name@, kk) && forall|k2: int|
                            year_suffix_at(name@, k2) ==> kk <= k2;
                    assert(kk == k as int);
                }
                let r = name.substring_char(0, k).to_owned();
                proof {
                    assert(r@ =~= strip_year_spec(name@));
                }
                return r;
            }
        }
        k = k + 1;
    }
    proof {
        assert(!exists|k: int| year_suffix_at(name@, k)) by {
            if exists|k: int| year_suffix_at(name@, k) {
                let w = choose|w: int| year_suffix_at(name@, w);
                assert(!year_suffix_at(name@, w));
            }
        }
    }
    name.to_owned()
}

/// Replace path-unsafe characters in a returned title with spaces, so the
/// name can stand in a remote path.
#[verifier::loop_isolation(false)]
pub fn sanitise_name(name: &str) -> (r: String)
    ensures
        r@ == sanitise_spec(name@),
        forall|j: int| 0 <= j < r@.len() ==> r@[j] != '/' && r@[j] != '\\',
{
    let n = name.unicode_len();
    let mut out = String::new();
    let mut i: usize = 0;
    proof {
        reveal_strlit(" ");
        assert(out@ =~= sanitise_spec(name@).take(0));
    }
    while i < n
        invariant
            i <= n,
            out@ =~= sanitise_spec(name@).take(i as int),
        decreases n - i,
    {
        let c = name.get_char(i);
        if c == '/' || c == '\\' {
            out.append(" ");
        } else {
            out.append(name.substring_char(i, i + 1));
        }
        i = i + 1;
        proof {
            assert(out@ =~= sanitise_spec(name@).take(i as int));
        }
    }
    proof {
        assert(out@ =~= sanitise_spec(name@));
    }
    out
}

/// Resolves candidate names through the outside titles-search service.
pub struct TmdbResolver {
    pub protocol: String,
    pub host: String,
    pub token: String,
}

impl TmdbResolver {
    /// Build a resolver that will query `protocol://host` with the token.
    pub fn new(protocol: &str, host: &str, token: &str) -> (r: TmdbResolver)
        ensures
            r.protocol@ == protocol@,
            r.host@ == host@,
            r.token@ == token@,
    {
        TmdbResolver {
            protocol: protocol.to_owned(),
            host: host.to_owned(),
            token: token.to_owned(),
        }
    }

    /// The endpoint queried for title searches:
    /// `protocol://host/3/search/tv`.
    pub fn search_url(&self) -> (r: String)
        ensures
            r@ == self.protocol@ + "://"@ + self.host@ + "/3/search/tv"@,
    {
        proof {
            reveal_strlit("://");
            reveal_strlit("/3/search/tv");
        }
        let mut url = self.protocol.clone();
        url.append("://");
        url.append(self.host.as_str());
        url.append("/3/search/tv");
        proof {
            assert(url@ =~= self.protocol@ + "://"@ + self.host@ + "/3/search/tv"@);
        }
        url
    }

    /// The first matching title for the candidate name, sanitised, or
    /// nothing on any failure: a down service degrades to no answer.
    /// What is handed to the service is fixed exactly: the search URL of
    /// [`Self::search_url`], the configured token, and the candidate with
    /// any trailing year stripped.
    pub fn get_first_match(&self, name: &str) -> (r: Option<String>)
        ensures
            r matches Some(s) ==> forall|j: int|
                0 <= j < s@.len() ==> s@[j] != '/' && s@[j] != '\\',
    {
        let url = self.search_url();
        let query = strip_year(name);
        let body = match tmdb_fetch(url.as_str(), self.token.as_str(), query.as_str()) {
            Some(b) => b,
            None => {
                return None;
            },
        };
        let parsed = match parse_json(body.as_str()) {
            Some(v) => v,
            None => {
                return None;
            },
        };
        let found = match parsed.pointer("/results/0/name") {
            Some(v) => v,
            None => {
                return None;
            },
        };
        match found.as_str() {
            Some(s) => Some(sanitise_name(s)),
            None => None,
        }
    }

    /// Resolve through the service: any match comes back with the fixed
    /// low certainty 1/10, so a human must confirm it.
    pub fn resolve(&self, name: &str) -> (r: Option<(String, Certainty)>)
        ensures
            r matches Some((s, c)) ==> c == (Certainty { num: 1u64, den: 10u64 }) && forall|j: int|
                0 <= j < s@.len() ==> s@[j] != '/' && s@[j] != '\\',
    {
        match self.get_first_match(name) {
            Some(n) => Some((n, Certainty::tenth())),
            None => None,
        }
    }
}

} // verus!
