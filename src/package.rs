use vstd::prelude::*;

use crate::markup::{field_text, null_to_none, push_char};

verus! {

/// The text of a non-negative integer in decimal digits.
pub open spec fn decimal(n: nat) -> Seq<char>
    decreases n,
{
    if n < 10 {
        seq![digit_char(n)]
    } else {
        decimal(n / 10).push(digit_char(n % 10))
    }
}

pub open spec fn digit_char(d: nat) -> char {
    (('0' as nat) + d) as char
}

/// Appends the decimal digits of `n`.
pub fn write_decimal(out: &mut String, n: u64)
    ensures
        final(out)@ == old(out)@ + decimal(n as nat),
    decreases n,
{
    if n >= 10 {
        write_decimal(out, n / 10);
    }
    let d = (n % 10) as u32;
    let c = char_from_digit(d);
    push_char(out, c);
    assert(final(out)@ =~= old(out)@ + decimal(n as nat));
}

fn char_from_digit(d: u32) -> (c: char)
    requires
        d < 10,
    ensures
        c == digit_char(d as nat),
{
    ((d as u8) + 48u8) as char
}

/// What chrono writes for a POSIX time in seconds, as `YYYY-MM-DD HH:MM` in
/// UTC; `None` where the instant lies outside its calendar.
pub uninterp spec fn minute_stamp_of(secs: int) -> Option<Seq<char>>;

/// The last second of the year 9999.
pub const LAST_SECOND_OF_9999: i64 = 253402300799;

/// Relies on chrono's `DateTime::from_timestamp`, which gives `None` only for
/// an instant outside its calendar (which reaches well past the years 1970 to
/// 9999), and on its `format` with `%Y-%m-%d %H:%M`, whose text depends on the
/// instant alone.
#[verifier::external_body]
pub(crate) fn posix_to_datefmt(secs: i64) -> (r: Option<String>)
    ensures
        match r {
            Some(t) => minute_stamp_of(secs as int) == Some(t@),
            None => minute_stamp_of(secs as int) is None,
        },
        0 <= secs <= LAST_SECOND_OF_9999 ==> r is Some,
{
    match chrono::DateTime::from_timestamp(secs, 0) {
        Some(d) => Some(d.format("%Y-%m-%d %H:%M").to_string()),
        None => None,
    }
}

pub open spec fn opt_view(o: Option<String>) -> Option<Seq<char>> {
    match o {
        Some(t) => Some(t@),
        None => None,
    }
}

/// The text of an optional timestamp: empty where the catalog gave none.
pub open spec fn stamp_text(ts: Option<i64>) -> Option<Seq<char>> {
    match ts {
        Some(t) => minute_stamp_of(t as int),
        None => Some(Seq::empty()),
    }
}

/// A package record as the catalog sends it, before normalisation.
///
/// The popularity score is carried twice: as an order key, where a larger
/// key is a more popular package, and as the text that shows it.
pub struct RawPackage {
    pub id: u64,
    pub name: String,
    pub version: String,
    pub description: Option<String>,
    pub popularity_rank: u32,
    pub popularity_text: String,
    pub num_votes: u32,
    pub maintainer: Option<String>,
    pub package_url: Option<String>,
    pub package_base: String,
    pub first_submitted: Option<i64>,
    pub last_modified: Option<i64>,
}

/// A normalised package record: free-text fields escaped for HTML, missing
/// ones as `None`, timestamps as `YYYY-MM-DD HH:MM`.
pub struct Packages {
    pub id: u64,
    pub name: String,
    pub version: String,
    pub description: String,
    pub popularity_rank: u32,
    pub popularity_text: String,
    pub num_votes: u32,
    pub maintainer: String,
    pub package_url: String,
    pub package_base: String,
    pub first_submitted: String,
    pub last_modified: String,
}

/// Whether `raw` has timestamps that can be written out.
pub open spec fn raw_dates_valid(raw: RawPackage) -> bool {
    stamp_text(raw.first_submitted) is Some && stamp_text(raw.last_modified) is Some
}

/// `p` is the normalised form of `raw`.
pub open spec fn normalized(raw: RawPackage, p: Packages) -> bool {
    &&& p.id == raw.id
    &&& p.name@ == raw.name@
    &&& p.version@ == raw.version@
    &&& p.description@ == field_text(opt_view(raw.description))
    &&& p.popularity_rank == raw.popularity_rank
    &&& p.popularity_text@ == raw.popularity_text@
    &&& p.num_votes == raw.num_votes
    &&& p.maintainer@ == field_text(opt_view(raw.maintainer))
    &&& p.package_url@ == field_text(opt_view(raw.package_url))
    &&& p.package_base@ == raw.package_base@
    &&& Some(p.first_submitted@) == stamp_text(raw.first_submitted)
    &&& Some(p.last_modified@) == stamp_text(raw.last_modified)
}

/// The address the package's sources are cloned from.
pub open spec fn git_url(base: Seq<char>) -> Seq<char> {
    "https://aur.archlinux.org/"@ + base + ".git"@
}

/// The HTML text that presents a package.
pub open spec fn pretty_text(p: Packages) -> Seq<char> {
    "\u{1f4e6} <b>"@ + p.name@ + "</b>\n\n\u{2139}\u{fe0f}"@ + p.description@
        + "\n\n\u{1f517}<a href='"@ + git_url(p.package_base@) + "'>Git</a> | <a href='"@
        + p.package_url@ + "'>Source</a>\n- Maintainer: <code>"@ + p.maintainer@
        + "</code>\n- Votes: <code>"@ + decimal(p.num_votes as nat)
        + "</code>\n- Version: <code>"@ + p.version@ + "</code>\n- Popularity: <code>"@
        + p.popularity_text@ + "</code>\n- Last Updated: <code>"@ + p.last_modified@
        + "</code>\n- First Submitted: <code>"@ + p.first_submitted@ + "</code>"@
}

fn stamp(ts: Option<i64>) -> (r: Option<String>)
    ensures
        opt_view(r) == stamp_text(ts),
{
    match ts {
        Some(t) => posix_to_datefmt(t),
        None => Some(String::new()),
    }
}

impl Packages {
    /// Normalises a record of the catalog; `None` when one of its
    /// timestamps lies outside the calendar.
    pub fn from_raw(raw: RawPackage) -> (r: Option<Packages>)
        ensures
            r is Some <==> raw_dates_valid(raw),
            r matches Some(p) ==> normalized(raw, p),
    {
        let first = stamp(raw.first_submitted);
        let last = stamp(raw.last_modified);
        match (first, last) {
            (Some(first_submitted), Some(last_modified)) => Some(
                Packages {
                    id: raw.id,
                    name: raw.name,
                    version: raw.version,
                    description: null_to_none(raw.description),
                    popularity_rank: raw.popularity_rank,
                    popularity_text: raw.popularity_text,
                    num_votes: raw.num_votes,
                    maintainer: null_to_none(raw.maintainer),
                    package_url: null_to_none(raw.package_url),
                    package_base: raw.package_base,
                    first_submitted,
                    last_modified,
                },
            ),
            _ => None,
        }
    }

    /// The address the package's sources are cloned from.
    pub fn git(&self) -> (r: String)
        ensures
            r@ == git_url(self.package_base@),
    {
        let mut r = String::from_str("https://aur.archlinux.org/");
        r.append(self.package_base.as_str());
        r.append(".git");
        r
    }

    /// The HTML text that presents the package.
    pub fn pretty(&self) -> (r: String)
        ensures
            r@ == pretty_text(*self),
    {
        let mut r = String::from_str("\u{1f4e6} <b>");
        r.append(self.name.as_str());
        r.append("</b>\n\n\u{2139}\u{fe0f}");
        r.append(self.description.as_str());
        r.append("\n\n\u{1f517}<a href='");
        let git = self.git();
        r.append(git.as_str());
        r.append("'>Git</a> | <a href='");
        r.append(self.package_url.as_str());
        r.append("'>Source</a>\n- Maintainer: <code>");
        r.append(self.maintainer.as_str());
        r.append("</code>\n- Votes: <code>");
        write_decimal(&mut r, self.num_votes as u64);
        r.append("</code>\n- Version: <code>");
        r.append(self.version.as_str());
        r.append("</code>\n- Popularity: <code>");
        r.append(self.popularity_text.as_str());
        r.append("</code>\n- Last Updated: <code>");
        r.append(self.last_modified.as_str());
        r.append("</code>\n- First Submitted: <code>");
        r.append(self.first_submitted.as_str());
        r.append("</code>");
        assert(git@ == git_url(self.package_base@));
        r
    }
}

} // verus!
