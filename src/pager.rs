use vstd::prelude::*;

verus! {

/// How many results one page shows.
pub const PAGE_SIZE: usize = 50;

/// The part of a result list that one page shows, and the offset that asks
/// for the next page (`0` where there is none).
pub struct PageWindow {
    pub start: usize,
    pub end: usize,
    pub next_offset: usize,
}

/// The page of a list of `len` items that starts at `offset`: the items from
/// `offset` up to `PAGE_SIZE` of them, and the offset of the following page,
/// or `0` where the list ends on this page.
pub open spec fn page_of(len: int, offset: int) -> (int, int, int) {
    let start = if offset < len { offset } else { len };
    let end = if offset + PAGE_SIZE < len { offset + PAGE_SIZE } else { len };
    let next = if offset + PAGE_SIZE < len { offset + PAGE_SIZE } else { 0 };
    (start, end, next)
}

/// The window of the page at `offset` over `len` items.
pub fn page(len: usize, offset: usize) -> (r: PageWindow)
    ensures
        (r.start as int, r.end as int, r.next_offset as int) == page_of(len as int, offset as int),
        r.start <= r.end <= len,
{
    let start = if offset < len { offset } else { len };
    if offset < len && len - offset > PAGE_SIZE {
        PageWindow { start, end: offset + PAGE_SIZE, next_offset: offset + PAGE_SIZE }
    } else {
        PageWindow { start, end: len, next_offset: 0 }
    }
}

/// The first page shows the first `PAGE_SIZE` items, or all of them where
/// there are no more, and points to offset `PAGE_SIZE` only where more
/// follow; a page that starts at or past the end is empty and points back
/// to the start.
pub proof fn lemma_page_ends(len: int, offset: int)
    requires
        0 <= len,
        len <= offset,
    ensures
        page_of(len, 0) == (0int, if PAGE_SIZE < len {
            PAGE_SIZE as int
        } else {
            len
        }, if PAGE_SIZE < len {
            PAGE_SIZE as int
        } else {
            0int
        }),
        page_of(len, offset).0 == page_of(len, offset).1,
        page_of(len, offset).2 == 0,
{
}

pub open spec fn is_digit(c: char) -> bool {
    '0' <= c && c <= '9'
}

pub open spec fn all_digits(s: Seq<char>) -> bool {
    forall|i: int| 0 <= i < s.len() ==> is_digit(#[trigger] s[i])
}

/// The number that a string of decimal digits writes.
pub open spec fn digits_value(s: Seq<char>) -> nat
    decreases s.len(),
{
    if s.len() == 0 {
        0
    } else {
        digits_value(s.drop_last()) * 10 + (s.last() as nat - '0' as nat) as nat
    }
}

/// The digits of an offset, without the `+` sign it may carry.
pub open spec fn unsigned_part(s: Seq<char>) -> Seq<char> {
    if s.len() > 0 && s[0] == '+' {
        s.drop_first()
    } else {
        s
    }
}

/// The offset a caller's text asks for: its decimal value where it is a
/// decimal number, with an optional `+`, that fits a `usize`; `0` otherwise.
pub open spec fn offset_value(s: Seq<char>) -> nat {
    let d = unsigned_part(s);
    if d.len() > 0 && all_digits(d) && digits_value(d) <= usize::MAX {
        digits_value(d)
    } else {
        0
    }
}

proof fn lemma_digits_monotone(s: Seq<char>, k: int)
    requires
        0 <= k <= s.len(),
        all_digits(s),
    ensures
        digits_value(s) >= digits_value(s.subrange(0, k)),
    decreases s.len() - k,
{
    if k < s.len() {
        lemma_digits_monotone(s, k + 1);
        let p = s.subrange(0, k + 1);
        assert(p.drop_last() =~= s.subrange(0, k));
        assert(is_digit(s[k]));
    } else {
        assert(s.subrange(0, k) =~= s);
    }
}

/// Reads the offset that a caller handed back; text that is not a number,
/// or a number too large, reads as `0`.
pub fn parse_offset(text: &str) -> (r: usize)
    ensures
        r == offset_value(text@),
{
    let n = text.unicode_len();
    let digits: &str = if n > 0 && text.get_char(0) == '+' {
        text.substring_char(1, n)
    } else {
        text
    };
    assert(digits@ =~= unsigned_part(text@));
    let ghost d = digits@;
    if digits.unicode_len() == 0 {
        return 0;
    }
    let mut value: usize = 0;
    for c in it: digits.chars()
        invariant
            it.seq() == d,
            d == unsigned_part(text@),
            d.len() > 0,
            all_digits(d.subrange(0, it.index() as int)),
            value == digits_value(d.subrange(0, it.index() as int)),
    {
        let ghost i = it.index() as int;
        let ghost p = d.subrange(0, i + 1);
        assert(p.drop_last() =~= d.subrange(0, i));
        assert(p.last() == c);
        if !('0' <= c && c <= '9') {
            assert(!all_digits(d)) by {
                assert(!is_digit(d[i]));
            }
            return 0;
        }
        let dv = ((c as u32) - ('0' as u32)) as usize;
        assert(dv == (p.last() as nat - '0' as nat));
        if value > (usize::MAX - dv) / 10 {
            proof {
                assert(digits_value(p) > usize::MAX) by (nonlinear_arith)
                    requires
                        value > (usize::MAX - dv) / 10,
                        digits_value(p) == value * 10 + dv,
                        dv <= 9,
                ;
                if all_digits(d) {
                    lemma_digits_monotone(d, i + 1);
                }
            }
            return 0;
        }
        assert(value * 10 + dv <= usize::MAX) by (nonlinear_arith)
            requires
                value <= (usize::MAX - dv) / 10,
                dv <= 9,
        ;
        value = value * 10 + dv;
        assert(all_digits(p));
    }
    assert(d.subrange(0, d.len() as int) =~= d);
    value
}

} // verus!
