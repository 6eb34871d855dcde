use vstd::prelude::*;

use crate::cache::{keys_distinct, lemma_lookup_after_store, live_value, stored, Slot, TtlCache};
use crate::query::{search_of, Search, SearchView};
use crate::response::{ranked_response, AurResponse};

verus! {

/// How long an answer of the catalog is served from the cache, in
/// milliseconds.
pub const CACHE_TTL_MS: u64 = 60_000;

/// The queries that hold no search term: the empty query, and the marker of
/// a maintainer search, whole or in part, alone.
pub open spec fn is_blank_query(s: Seq<char>) -> bool {
    ||| s.len() == 0
    ||| s == seq!['!']
    ||| s == seq!['!', 'm']
    ||| s == seq!['!', 'm', ' ']
}

/// The search a query asks for; `None` for a query that holds no search
/// term, which is answered with an invitation to type one.
pub fn query_key(query: &str) -> (r: Option<Search>)
    ensures
        r is None <==> is_blank_query(query@),
        r matches Some(k) ==> k@ == search_of(query@),
{
    let n = query.unicode_len();
    let blank = if n == 0 {
        true
    } else if n > 3 {
        false
    } else {
        let c0 = query.get_char(0);
        if n == 1 {
            c0 == '!'
        } else if n == 2 {
            c0 == '!' && query.get_char(1) == 'm'
        } else {
            c0 == '!' && query.get_char(1) == 'm' && query.get_char(2) == ' '
        }
    };
    proof {
        if n == 1 && query@[0] == '!' {
            assert(query@ =~= seq!['!']);
        }
        if n == 2 && query@[0] == '!' && query@[1] == 'm' {
            assert(query@ =~= seq!['!', 'm']);
        }
        if n == 3 && query@[0] == '!' && query@[1] == 'm' && query@[2] == ' ' {
            assert(query@ =~= seq!['!', 'm', ' ']);
        }
    }
    if blank {
        None
    } else {
        Some(Search::from(query))
    }
}

/// What the catalog is asked to search by for a query.
pub open spec fn search_field(k: SearchView) -> Seq<char> {
    match k {
        SearchView::Package(_) => "name"@,
        SearchView::Maintainer(_) => "maintainer"@,
    }
}

pub open spec fn is_param(p: (String, String), name: Seq<char>, value: Seq<char>) -> bool {
    p.0@ == name && p.1@ == value
}

/// The query parameters of the catalog request for `query`.
pub fn search_params(query: &Search) -> (r: Vec<(String, String)>)
    ensures
        r@.len() == 4,
        is_param(r@[0], "v"@, "5"@),
        is_param(r@[1], "type"@, "search"@),
        is_param(r@[2], "by"@, search_field(query@)),
        is_param(r@[3], "arg"@, query@.text()),
{
    let by = if query.is_maintainer() {
        "maintainer"
    } else {
        "name"
    };
    let mut r: Vec<(String, String)> = Vec::new();
    r.push((String::from_str("v"), String::from_str("5")));
    r.push((String::from_str("type"), String::from_str("search")));
    r.push((String::from_str("by"), String::from_str(by)));
    r.push((String::from_str("arg"), query.text().clone()));
    r
}

/// The cached answer to `query` at instant `now`, if one is live. Where there
/// is none, the caller asks the catalog and hands its answer to
/// `store_search`.
pub fn cached_search<'a>(
    cache: &'a TtlCache<AurResponse>,
    query: &Search,
    now: u64,
) -> (r: Option<&'a AurResponse>)
    requires
        cache.wf(),
    ensures
        match r {
            Some(v) => live_value(cache@, query@, now as int) == Some(*v),
            None => live_value(cache@, query@, now as int) is None,
        },
{
    cache.get(query, now)
}

/// Orders the catalog's answer to `query` by popularity, stores it for
/// `CACHE_TTL_MS` from `now` in place of any earlier answer, and returns the
/// stored answer as the cache serves it. An error the catalog answered with
/// is cached like a result; a failure to reach the catalog never gets here.
pub fn store_search<'a>(
    cache: &'a mut TtlCache<AurResponse>,
    query: Search,
    response: AurResponse,
    now: u64,
) -> (r: &'a AurResponse)
    requires
        old(cache).wf(),
        now + CACHE_TTL_MS <= u64::MAX,
    ensures
        final(cache).wf(),
        ranked_response(response, *r),
        final(cache)@ == stored(old(cache)@, query, *r, (now + CACHE_TTL_MS) as u64),
        live_value(final(cache)@, query@, now as int) == Some(*r),
{
    let ghost before = cache@;
    let key = query.clone();
    let ranked = response.ranked();
    cache.insert(query, ranked, CACHE_TTL_MS, now);
    proof {
        lemma_lookup_after_store(before, query, ranked, (now + CACHE_TTL_MS) as u64, key@, now as int);
    }
    cache.get(&key, now).unwrap()
}

/// An answer stored at `now` is what every lookup of its query finds until
/// `CACHE_TTL_MS` later, so repeated searches in that time see the same
/// items in the same order; from then on no lookup finds it.
pub proof fn lemma_answer_lifetime(
    s: Seq<Slot<AurResponse>>,
    query: Search,
    v: AurResponse,
    now: u64,
    t: int,
)
    requires
        keys_distinct(s),
        now + CACHE_TTL_MS <= u64::MAX,
    ensures
        live_value(stored(s, query, v, (now + CACHE_TTL_MS) as u64), query@, t) == (if t < now
            + CACHE_TTL_MS {
            Some(v)
        } else {
            None
        }),
{
    lemma_lookup_after_store(s, query, v, (now + CACHE_TTL_MS) as u64, query@, t);
}

/// Two lookups of one key that both find a value find the same value: a
/// cached answer is served unchanged for as long as it lives.
pub proof fn lemma_repeat_lookup<V>(s: Seq<Slot<V>>, k: SearchView, t1: int, t2: int)
    requires
        keys_distinct(s),
        live_value(s, k, t1) is Some,
        live_value(s, k, t2) is Some,
    ensures
        live_value(s, k, t1) == live_value(s, k, t2),
{
}

} // verus!
