//! The show-resolution strategies and their priority chain: exact or
//! fuzzy matching against the known shows first, the outside
//! titles-search service last, each tried in order until one answers.

use vstd::prelude::*;

use crate::certainty::Certainty;
use crate::config::Tmdb;
use crate::strsim::{known_views, strsim_resolve_spec, StrsimResolver};
use crate::tmdb::TmdbResolver;

verus! {

/// One resolution strategy.
pub enum BasicResolver {
    /// Exact and similarity-based matching against the known shows.
    Strsim(StrsimResolver),
    /// The outside titles-search service.
    Tmdb(TmdbResolver),
}

/// A priority chain of strategies: the first answer wins.
pub struct MultiResolver {
    pub resolvers: Vec<BasicResolver>,
}

/// A resolver: a single strategy, or a chain of them.
pub enum Resolver {
    Basic(BasicResolver),
    Multi(MultiResolver),
}

/// The mathematical value of a resolution result.
pub open spec fn res_view(r: Option<(String, Certainty)>) -> Option<(Seq<char>, Certainty)> {
    match r {
        None => None,
        Some((s, c)) => Some((s@, c)),
    }
}

/// What one strategy may answer for a name. The similarity strategy's
/// answer is pinned exactly; the outside service's answer depends on the
/// network, so only its certainty (exactly 1/10) and the absence of
/// path-unsafe characters are pinned.
pub open spec fn admissible_basic(
    b: BasicResolver,
    name: Seq<char>,
    out: Option<(Seq<char>, Certainty)>,
) -> bool {
    match b {
        BasicResolver::Strsim(s) => {
            match (out, strsim_resolve_spec(known_views(s.known_shows@), name)) {
                (None, None) => true,
                (Some((n, c)), Some(u)) => n == u.0 && c.num == u.1.0 && c.den == u.1.1,
                _ => false,
            }
        },
        BasicResolver::Tmdb(_) => {
            match out {
                None => true,
                Some((n, c)) => c == (Certainty { num: 1u64, den: 10u64 }) && forall|j: int|
                    0 <= j < n.len() ==> n[j] != '/' && n[j] != '\\',
            }
        },
    }
}

/// What a chain may answer from its `i`-th strategy on: the first
/// strategy with an answer decides, and the chain answers nothing only
/// when every strategy answered nothing.
pub open spec fn admissible_chain(
    rs: Seq<BasicResolver>,
    i: int,
    name: Seq<char>,
    out: Option<(Seq<char>, Certainty)>,
) -> bool
    decreases rs.len() - i,
{
    if i < 0 || i >= rs.len() {
        out is None
    } else {
        exists|o: Option<(Seq<char>, Certainty)>|
            {
                &&& #[trigger] admissible_basic(rs[i], name, o)
                &&& if o is Some {
                    out == o
                } else {
                    admissible_chain(rs, i + 1, name, out)
                }
            }
    }
}

/// What a resolver may answer for a name.
pub open spec fn admissible(r: Resolver, name: Seq<char>, out: Option<(Seq<char>, Certainty)>) -> bool {
    match r {
        Resolver::Basic(b) => admissible_basic(b, name, out),
        Resolver::Multi(m) => admissible_chain(m.resolvers@, 0, name, out),
    }
}

impl BasicResolver {
    /// Resolve a name with this strategy.
    pub fn resolve(&self, name: &str) -> (r: Option<(String, Certainty)>)
        ensures
            admissible_basic(*self, name@, res_view(r)),
    {
        match self {
            BasicResolver::Strsim(s) => s.resolve(name),
            BasicResolver::Tmdb(t) => t.resolve(name),
        }
    }
}

impl MultiResolver {
    /// Build a chain over the strategies, in priority order.
    pub fn new(resolvers: Vec<BasicResolver>) -> (r: MultiResolver)
        ensures
            r.resolvers@ == resolvers@,
    {
        MultiResolver { resolvers }
    }

    /// Resolve a name: the first strategy with an answer decides.
    pub fn resolve(&self, name: &str) -> (r: Option<(String, Certainty)>)
        ensures
            admissible_chain(self.resolvers@, 0, name@, res_view(r)),
    {
        let ghost rs = self.resolvers@;
        let mut k: usize = 0;
        while k < self.resolvers.len()
            invariant
                k <= rs.len(),
                rs == self.resolvers@,
                forall|out: Option<(Seq<char>, Certainty)>|
                    #[trigger] admissible_chain(rs, k as int, name@, out) ==> admissible_chain(
                        rs,
                        0,
                        name@,
                        out,
                    ),
            decreases rs.len() - k,
        {
            let res = self.resolvers[k].resolve(name);
            if res.is_some() {
                proof {
                    assert(admissible_basic(rs[k as int], name@, res_view(res)));
                    assert(admissible_chain(rs, k as int, name@, res_view(res)));
                }
                return res;
            }
            proof {
                assert(admissible_basic(rs[k as int], name@, res_view(res)));
                assert forall|out: Option<(Seq<char>, Certainty)>|
                    #[trigger] admissible_chain(rs, k as int + 1, name@, out) implies
                    admissible_chain(rs, 0, name@, out) by {
                    let o = res_view(res);
                    assert(admissible_basic(rs[k as int], name@, o) && (if o is Some {
                        out == o
                    } else {
                        admissible_chain(rs, k as int + 1, name@, out)
                    }));
                    assert(admissible_chain(rs, k as int, name@, out));
                }
            }
            k = k + 1;
        }
        proof {
            assert(admissible_chain(rs, rs.len() as int, name@, res_view(
                None::<(String, Certainty)>,
            )));
        }
        None
    }
}

impl Resolver {
    /// Resolve a name with this resolver.
    pub fn resolve(&self, name: &str) -> (r: Option<(String, Certainty)>)
        ensures
            admissible(*self, name@, res_view(r)),
    {
        match self {
            Resolver::Basic(b) => b.resolve(name),
            Resolver::Multi(m) => m.resolve(name),
        }
    }
}

/// Build the configured resolver: similarity against the known shows
/// always, and the outside titles-search service behind it only when it
/// is enabled, since it costs a network round trip and a quota.
pub fn get_resolver(known_shows: &Vec<String>, tmdb: &Tmdb) -> (r: Resolver)
    requires
        tmdb.enabled ==> tmdb.token is Some,
    ensures
        !tmdb.enabled ==> (r matches Resolver::Basic(b) && b matches BasicResolver::Strsim(s)
            && known_views(s.known_shows@) == known_views(known_shows@)),
        tmdb.enabled ==> (r matches Resolver::Multi(m) && m.resolvers@.len() == 2
            && (m.resolvers@[0] matches BasicResolver::Strsim(s) && known_views(s.known_shows@)
            == known_views(known_shows@)) && m.resolvers@[1] matches BasicResolver::Tmdb(_)),
{
    let strsim_resolver = StrsimResolver::new(known_shows);
    if !tmdb.enabled {
        return Resolver::Basic(BasicResolver::Strsim(strsim_resolver));
    }
    let token = match &tmdb.token {
        Some(t) => t.as_str(),
        None => "",
    };
    let tmdb_resolver = TmdbResolver::new(tmdb.protocol.as_str(), tmdb.host.as_str(), token);
    let mut resolvers: Vec<BasicResolver> = Vec::new();
    resolvers.push(BasicResolver::Strsim(strsim_resolver));
    resolvers.push(BasicResolver::Tmdb(tmdb_resolver));
    Resolver::Multi(MultiResolver::new(resolvers))
}


/// Some answer a resolver may give for a name: a witness of
/// admissibility. Every resolver has one.
pub open spec fn some_admissible(r: Resolver, name: Seq<char>) -> Option<(Seq<char>, Certainty)> {
    choose|o: Option<(Seq<char>, Certainty)>| admissible(r, name, o)
}

proof fn lemma_admissible_basic_exists(b: BasicResolver, name: Seq<char>) -> (o: Option<
    (Seq<char>, Certainty),
>)
    ensures
        admissible_basic(b, name, o),
{
    match b {
        BasicResolver::Strsim(s) => {
            let known = known_views(s.known_shows@);
            crate::strsim::lemma_strsim_result_fits(known, name);
            match strsim_resolve_spec(known, name) {
                None => None,
                Some(u) => {
                    let c = Certainty { num: u.1.0 as u64, den: u.1.1 as u64 };
                    assert(c.num as int == u.1.0 && c.den as int == u.1.1);
                    Some((u.0, c))
                },
            }
        },
        BasicResolver::Tmdb(_) => None,
    }
}

proof fn lemma_admissible_chain_exists(rs: Seq<BasicResolver>, i: int, name: Seq<char>) -> (out:
    Option<(Seq<char>, Certainty)>)
    ensures
        admissible_chain(rs, i, name, out),
    decreases rs.len() - i,
{
    if i < 0 || i >= rs.len() {
        None
    } else {
        let o = lemma_admissible_basic_exists(rs[i], name);
        if o is Some {
            assert(admissible_chain(rs, i, name, o));
            o
        } else {
            let out = lemma_admissible_chain_exists(rs, i + 1, name);
            assert(admissible_basic(rs[i], name, o) && (if o is Some {
                out == o
            } else {
                admissible_chain(rs, i + 1, name, out)
            }));
            assert(admissible_chain(rs, i, name, out));
            out
        }
    }
}

/// Every resolver has an admissible answer for every name, and
/// [`some_admissible`] picks one.
pub proof fn lemma_admissible_exists(r: Resolver, name: Seq<char>)
    ensures
        admissible(r, name, some_admissible(r, name)),
{
    match r {
        Resolver::Basic(b) => {
            let o = lemma_admissible_basic_exists(b, name);
            assert(admissible(r, name, o));
        },
        Resolver::Multi(m) => {
            let out = lemma_admissible_chain_exists(m.resolvers@, 0, name);
            assert(admissible(r, name, out));
        },
    }
}

} // verus!
