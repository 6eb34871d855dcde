use vstd::prelude::*;

verus! {

/// What a query asks for, as it is compared and cached.
pub enum SearchView {
    Package(Seq<char>),
    Maintainer(Seq<char>),
}

impl SearchView {
    pub open spec fn text(self) -> Seq<char> {
        match self {
            SearchView::Package(t) => t,
            SearchView::Maintainer(t) => t,
        }
    }
}

/// The marker that turns a query into a search by maintainer.
pub open spec fn maintainer_marker() -> Seq<char> {
    seq!['!', 'm', ' ']
}

pub open spec fn has_maintainer_marker(s: Seq<char>) -> bool {
    s.len() >= 3 && s.subrange(0, 3) == maintainer_marker()
}

/// The key of a raw query: a search by maintainer when the query starts with
/// the marker (which is stripped), else a search by package name.
pub open spec fn search_of(s: Seq<char>) -> SearchView {
    if has_maintainer_marker(s) {
        SearchView::Maintainer(s.subrange(3, s.len() as int))
    } else {
        SearchView::Package(s)
    }
}

/// A normalised search request: by package name or by maintainer. Keys
/// compare and order by the kind of search, then by the term.
#[derive(Debug, PartialOrd, Ord)]
pub enum Search {
    Package(String),
    Maintainer(String),
}

impl View for Search {
    type V = SearchView;

    open spec fn view(&self) -> SearchView {
        match self {
            Search::Package(t) => SearchView::Package(t@),
            Search::Maintainer(t) => SearchView::Maintainer(t@),
        }
    }
}

impl Search {
    /// Builds the key of a raw query string.
    pub fn from(query: &str) -> (r: Search)
        ensures
            r@ == search_of(query@),
    {
        let n = query.unicode_len();
        if n >= 3 && query.get_char(0) == '!' && query.get_char(1) == 'm' && query.get_char(2)
            == ' ' {
            assert(query@.subrange(0, 3) =~= maintainer_marker());
            Search::Maintainer(String::from_str(query.substring_char(3, n)))
        } else {
            proof {
                if has_maintainer_marker(query@) {
                    assert(query@.subrange(0, 3)[0] == '!');
                    assert(query@.subrange(0, 3)[1] == 'm');
                    assert(query@.subrange(0, 3)[2] == ' ');
                }
            }
            Search::Package(String::from_str(query))
        }
    }

    /// The search term, without the kind of search.
    pub fn text(&self) -> (r: &String)
        ensures
            r@ == self@.text(),
    {
        match self {
            Search::Package(t) => t,
            Search::Maintainer(t) => t,
        }
    }

    pub fn is_maintainer(&self) -> (r: bool)
        ensures
            r == (self@ is Maintainer),
    {
        match self {
            Search::Package(_) => false,
            Search::Maintainer(_) => true,
        }
    }
}

impl core::ops::Deref for Search {
    type Target = String;

    fn deref(&self) -> (r: &String)
        ensures
            r@ == self@.text(),
    {
        self.text()
    }
}

impl Clone for Search {
    fn clone(&self) -> (r: Search)
        ensures
            r@ == self@,
    {
        match self {
            Search::Package(t) => Search::Package(t.clone()),
            Search::Maintainer(t) => Search::Maintainer(t.clone()),
        }
    }
}

impl PartialEq for Search {
    fn eq(&self, o: &Search) -> (r: bool)
        ensures
            r == (self@ == o@),
    {
        match self {
            Search::Package(a) => match o {
                Search::Package(b) => a.eq(b),
                Search::Maintainer(_) => false,
            },
            Search::Maintainer(a) => match o {
                Search::Package(_) => false,
                Search::Maintainer(b) => a.eq(b),
            },
        }
    }
}

impl vstd::std_specs::cmp::PartialEqSpecImpl for Search {
    open spec fn obeys_eq_spec() -> bool {
        true
    }

    open spec fn eq_spec(&self, o: &Search) -> bool {
        self@ == o@
    }
}

impl Eq for Search {

}

/// A raw query is a maintainer search exactly when it starts with the marker,
/// and its term is then the rest of the query; any other query searches by
/// package name for the whole string.
pub proof fn lemma_search_key(s: Seq<char>)
    ensures
        has_maintainer_marker(s) ==> search_of(s) == SearchView::Maintainer(s.subrange(3, s.len() as int)),
        !has_maintainer_marker(s) ==> search_of(s) == SearchView::Package(s),
{
}

} // verus!
