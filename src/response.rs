use vstd::prelude::*;

use crate::package::{normalized, raw_dates_valid, Packages, RawPackage};
use crate::ranking::{sort_by_popularity, stably_ranked};

verus! {

/// What the catalog answered to a search, after normalisation.
pub enum AurResponse {
    Error { error: String },
    Result { total: usize, results: Vec<Packages> },
}

/// What the catalog answered to a search, as it was sent.
pub enum RawResponse {
    Error { error: String },
    Result { results: Vec<RawPackage> },
}

/// The message of the error that replaces a result holding a record whose
/// timestamps cannot be written out.
pub open spec fn bad_record_message() -> Seq<char> {
    "the catalog sent a timestamp outside the calendar"@
}

/// `out` holds the normalised forms of `raw`, in the same order.
pub open spec fn all_normalized(raw: Seq<RawPackage>, out: Seq<Packages>) -> bool {
    &&& out.len() == raw.len()
    &&& forall|i: int| 0 <= i < raw.len() ==> normalized(#[trigger] raw[i], out[i])
}

pub open spec fn all_dates_valid(raw: Seq<RawPackage>) -> bool {
    forall|i: int| 0 <= i < raw.len() ==> raw_dates_valid(#[trigger] raw[i])
}

/// Normalises each record of a result; `None` when one of them cannot be.
fn normalize_all(raw: Vec<RawPackage>) -> (r: Option<Vec<Packages>>)
    ensures
        r is Some <==> all_dates_valid(raw@),
        r matches Some(out) ==> all_normalized(raw@, out@),
{
    let ghost orig = raw@;
    let mut out: Vec<Packages> = Vec::new();
    for p in it: raw.into_iter()
        invariant
            it.seq() == orig,
            all_normalized(orig.subrange(0, it.index() as int), out@),
            all_dates_valid(orig.subrange(0, it.index() as int)),
    {
        let ghost i = it.index() as int;
        match Packages::from_raw(p) {
            Some(n) => {
                out.push(n);
                assert(orig.subrange(0, i + 1)[i] == orig[i]);
                assert forall|j: int| 0 <= j < i + 1 implies normalized(
                    #[trigger] orig.subrange(0, i + 1)[j],
                    out@[j],
                ) by {
                    if j < i {
                        assert(orig.subrange(0, i + 1)[j] == orig.subrange(0, i)[j]);
                    }
                }
                assert forall|j: int| 0 <= j < i + 1 implies raw_dates_valid(
                    #[trigger] orig.subrange(0, i + 1)[j],
                ) by {
                    if j < i {
                        assert(orig.subrange(0, i + 1)[j] == orig.subrange(0, i)[j]);
                    }
                }
            },
            None => {
                assert(!raw_dates_valid(orig[i]));
                return None;
            },
        }
    }
    assert(orig.subrange(0, orig.len() as int) =~= orig);
    Some(out)
}

/// `after` is `before` with its result ordered by popularity; an error is
/// left as it is.
pub open spec fn ranked_response(before: AurResponse, after: AurResponse) -> bool {
    &&& before is Error ==> after is Error && after->Error_error@ == before->Error_error@
    &&& before is Result ==> after is Result && after->Result_total == after->Result_results@.len()
        && stably_ranked(before->Result_results@, after->Result_results@)
}

impl AurResponse {
    /// Normalises the catalog's answer. An error passes through verbatim; a
    /// result keeps its records in order, and counts them.
    pub fn from_raw(raw: RawResponse) -> (r: AurResponse)
        ensures
            raw is Error ==> r is Error && r->Error_error@ == raw->Error_error@,
            raw is Result && all_dates_valid(raw->Result_results@) ==> r is Result
                && r->Result_total == r->Result_results@.len() && all_normalized(
                raw->Result_results@,
                r->Result_results@,
            ),
            raw is Result && !all_dates_valid(raw->Result_results@) ==> r is Error
                && r->Error_error@ == bad_record_message(),
    {
        match raw {
            RawResponse::Error { error } => AurResponse::Error { error },
            RawResponse::Result { results } => match normalize_all(results) {
                Some(results) => AurResponse::Result { total: results.len(), results },
                None => AurResponse::Error {
                    error: String::from_str("the catalog sent a timestamp outside the calendar"),
                },
            },
        }
    }

    /// Orders a result by popularity, most popular first and stable among
    /// equals; an error is left as it is.
    pub fn ranked(self) -> (r: AurResponse)
        ensures
            ranked_response(self, r),
    {
        match self {
            AurResponse::Error { error } => AurResponse::Error { error },
            AurResponse::Result { total: _, results } => {
                let results = sort_by_popularity(results);
                AurResponse::Result { total: results.len(), results }
            },
        }
    }
}

} // verus!
