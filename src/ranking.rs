use vstd::prelude::*;

use std::collections::VecDeque;

use crate::package::Packages;

verus! {

/// Holds of the packages whose popularity order key is `k`.
pub open spec fn with_rank(k: u32) -> spec_fn(Packages) -> bool {
    |p: Packages| p.popularity_rank == k
}

/// More popular packages come first.
pub open spec fn ranked(s: Seq<Packages>) -> bool {
    forall|i: int, j: int|
        0 <= i < j < s.len() ==> s[i].popularity_rank >= s[j].popularity_rank
}

/// `out` is `orig` ordered by popularity, most popular first, where packages
/// of equal popularity keep the order they had in `orig`.
///
/// For each popularity, the packages that have it appear in `out` exactly as
/// they appear in `orig`; with `ranked` this fixes `out` completely.
pub open spec fn stably_ranked(orig: Seq<Packages>, out: Seq<Packages>) -> bool {
    &&& ranked(out)
    &&& forall|k: u32| #[trigger] out.filter(with_rank(k)) == orig.filter(with_rank(k))
}

proof fn lemma_filter_none(s: Seq<Packages>, k: u32)
    requires
        forall|i: int| 0 <= i < s.len() ==> s[i].popularity_rank != k,
    ensures
        s.filter(with_rank(k)) == Seq::<Packages>::empty(),
    decreases s.len(),
{
    reveal(Seq::filter);
    if s.len() > 0 {
        lemma_filter_none(s.drop_last(), k);
    }
    assert(s.filter(with_rank(k)) =~= Seq::<Packages>::empty());
}

/// Every package of `x` is more popular than every package of `y`.
pub open spec fn all_above(x: Seq<Packages>, y: Seq<Packages>) -> bool {
    forall|i: int, j: int|
        0 <= i < x.len() && 0 <= j < y.len() ==> x[i].popularity_rank > y[j].popularity_rank
}

/// Every package of `x` is at least as popular as every package of `y`.
pub open spec fn all_at_least(x: Seq<Packages>, y: Seq<Packages>) -> bool {
    forall|i: int, j: int|
        0 <= i < x.len() && 0 <= j < y.len() ==> x[i].popularity_rank >= y[j].popularity_rank
}

proof fn lemma_ranked_concat(x: Seq<Packages>, y: Seq<Packages>)
    requires
        ranked(x),
        ranked(y),
        all_at_least(x, y),
    ensures
        ranked(x + y),
{
    assert forall|i: int, j: int| 0 <= i < j < (x + y).len() implies (x + y)[i].popularity_rank
        >= (x + y)[j].popularity_rank by {
        if j < x.len() {
        } else if i < x.len() {
            assert((x + y)[j] == y[j - x.len()]);
        } else {
            assert((x + y)[i] == y[i - x.len()]);
            assert((x + y)[j] == y[j - x.len()]);
        }
    }
}

/// Where every package of `x` is more popular than every package of `y`,
/// the packages of one popularity come from one of them alone.
proof fn lemma_filter_commute(x: Seq<Packages>, y: Seq<Packages>, k: u32)
    requires
        all_above(x, y),
    ensures
        x.filter(with_rank(k)) + y.filter(with_rank(k)) == y.filter(with_rank(k)) + x.filter(
            with_rank(k),
        ),
{
    if exists|j: int| 0 <= j < y.len() && y[j].popularity_rank == k {
        let j = choose|j: int| 0 <= j < y.len() && y[j].popularity_rank == k;
        lemma_filter_none(x, k);
        assert(x.filter(with_rank(k)) + y.filter(with_rank(k)) =~= y.filter(with_rank(k)));
        assert(y.filter(with_rank(k)) + x.filter(with_rank(k)) =~= y.filter(with_rank(k)));
    } else {
        lemma_filter_none(y, k);
        assert(x.filter(with_rank(k)) + y.filter(with_rank(k)) =~= x.filter(with_rank(k)));
        assert(y.filter(with_rank(k)) + x.filter(with_rank(k)) =~= x.filter(with_rank(k)));
    }
}

proof fn lemma_take_first(before: Seq<Packages>, ta: Seq<Packages>, tb: Seq<Packages>, x: Packages, k: u32)
    requires
        before.filter(with_rank(k)) == ta.filter(with_rank(k)) + tb.filter(with_rank(k)),
        all_above(tb, seq![x]),
    ensures
        before.push(x).filter(with_rank(k)) == ta.push(x).filter(with_rank(k)) + tb.filter(
            with_rank(k),
        ),
{
    assert(before.push(x) =~= before + seq![x]);
    assert(ta.push(x) =~= ta + seq![x]);
    Seq::filter_distributes_over_add(before, seq![x], with_rank(k));
    Seq::filter_distributes_over_add(ta, seq![x], with_rank(k));
    lemma_filter_commute(tb, seq![x], k);
    assert(before.push(x).filter(with_rank(k)) =~= ta.filter(with_rank(k)) + (tb.filter(
        with_rank(k),
    ) + seq![x].filter(with_rank(k))));
    assert(ta.push(x).filter(with_rank(k)) + tb.filter(with_rank(k)) =~= ta.filter(with_rank(k))
        + (seq![x].filter(with_rank(k)) + tb.filter(with_rank(k))));
}

proof fn lemma_take_second(before: Seq<Packages>, ta: Seq<Packages>, tb: Seq<Packages>, y: Packages, k: u32)
    requires
        before.filter(with_rank(k)) == ta.filter(with_rank(k)) + tb.filter(with_rank(k)),
    ensures
        before.push(y).filter(with_rank(k)) == ta.filter(with_rank(k)) + tb.push(y).filter(
            with_rank(k),
        ),
{
    assert(before.push(y) =~= before + seq![y]);
    assert(tb.push(y) =~= tb + seq![y]);
    Seq::filter_distributes_over_add(before, seq![y], with_rank(k));
    Seq::filter_distributes_over_add(tb, seq![y], with_rank(k));
    assert(before.push(y).filter(with_rank(k)) =~= ta.filter(with_rank(k)) + tb.push(y).filter(
        with_rank(k),
    ));
}

proof fn lemma_take_rest(
    before: Seq<Packages>,
    ta: Seq<Packages>,
    ra: Seq<Packages>,
    tb: Seq<Packages>,
    rb: Seq<Packages>,
    k: u32,
)
    requires
        before.filter(with_rank(k)) == ta.filter(with_rank(k)) + tb.filter(with_rank(k)),
        ra.len() == 0 || rb.len() == 0,
        all_above(tb, ra),
    ensures
        (before + ra + rb).filter(with_rank(k)) == (ta + ra).filter(with_rank(k)) + (tb
            + rb).filter(with_rank(k)),
{
    Seq::filter_distributes_over_add(before, ra, with_rank(k));
    Seq::filter_distributes_over_add(before + ra, rb, with_rank(k));
    Seq::filter_distributes_over_add(ta, ra, with_rank(k));
    Seq::filter_distributes_over_add(tb, rb, with_rank(k));
    let fa = ta.filter(with_rank(k));
    let fb = tb.filter(with_rank(k));
    let fra = ra.filter(with_rank(k));
    let frb = rb.filter(with_rank(k));
    if ra.len() == 0 {
        assert(fra =~= Seq::<Packages>::empty()) by {
            reveal(Seq::filter);
        }
        assert(fa + fb + fra + frb =~= (fa + fra) + (fb + frb));
    } else {
        assert(frb =~= Seq::<Packages>::empty()) by {
            reveal(Seq::filter);
        }
        lemma_filter_commute(tb, ra, k);
        assert(fb + fra == fra + fb);
        assert(fa + fb + fra + frb =~= fa + (fb + fra));
        assert((fa + fra) + (fb + frb) =~= fa + (fra + fb));
    }
}

/// Merges two ordered runs, taking from `a` first among equals.
fn merge(a: VecDeque<Packages>, b: VecDeque<Packages>) -> (r: VecDeque<Packages>)
    requires
        ranked(a@),
        ranked(b@),
    ensures
        ranked(r@),
        forall|k: u32| #[trigger] r@.filter(with_rank(k)) == a@.filter(with_rank(k)) + b@.filter(
            with_rank(k),
        ),
{
    let ghost a0 = a@;
    let ghost b0 = b@;
    let mut a = a;
    let mut b = b;
    let mut out: VecDeque<Packages> = VecDeque::new();
    proof {
        reveal(Seq::filter);
        assert(a0.subrange(0, 0) =~= Seq::<Packages>::empty());
        assert(b0.subrange(0, 0) =~= Seq::<Packages>::empty());
        assert(a0.subrange(0, a0.len() as int) =~= a0);
        assert(b0.subrange(0, b0.len() as int) =~= b0);
    }
    while a.len() > 0 && b.len() > 0
        invariant
            ranked(a@),
            ranked(b@),
            ranked(out@),
            a@.len() <= a0.len(),
            b@.len() <= b0.len(),
            a@ == a0.subrange(a0.len() - a@.len(), a0.len() as int),
            b@ == b0.subrange(b0.len() - b@.len(), b0.len() as int),
            all_at_least(out@, a@),
            all_at_least(out@, b@),
            all_above(b0.subrange(0, b0.len() - b@.len()), a@),
            forall|k: u32| #[trigger]
                out@.filter(with_rank(k)) == a0.subrange(0, a0.len() - a@.len()).filter(
                    with_rank(k),
                ) + b0.subrange(0, b0.len() - b@.len()).filter(with_rank(k)),
        decreases a@.len() + b@.len(),
    {
        let ghost ta = a0.subrange(0, a0.len() - a@.len());
        let ghost tb = b0.subrange(0, b0.len() - b@.len());
        let ghost before = out@;
        if a[0].popularity_rank >= b[0].popularity_rank {
            let x = a.pop_front().unwrap();
            out.push_back(x);
            proof {
                let ta1 = a0.subrange(0, a0.len() - a@.len());
                assert(ta1 =~= ta.push(x));
                assert(all_above(tb, seq![x]));
                assert forall|k: u32| #[trigger]
                    out@.filter(with_rank(k)) == ta1.filter(with_rank(k)) + tb.filter(
                        with_rank(k),
                    ) by {
                    lemma_take_first(before, ta, tb, x, k);
                }
                assert forall|i: int, j: int|
                    0 <= i < out@.len() && 0 <= j < b@.len() implies out@[i].popularity_rank
                    >= b@[j].popularity_rank by {
                    if i == before.len() {
                        assert(b@[0].popularity_rank >= b@[j].popularity_rank);
                    }
                }
                assert(all_at_least(out@, a@));
            }
        } else {
            let y = b.pop_front().unwrap();
            out.push_back(y);
            proof {
                let tb1 = b0.subrange(0, b0.len() - b@.len());
                assert(tb1 =~= tb.push(y));
                assert forall|k: u32| #[trigger]
                    out@.filter(with_rank(k)) == ta.filter(with_rank(k)) + tb1.filter(
                        with_rank(k),
                    ) by {
                    lemma_take_second(before, ta, tb, y, k);
                }
                assert forall|i: int, j: int|
                    0 <= i < tb1.len() && 0 <= j < a@.len() implies tb1[i].popularity_rank
                    > a@[j].popularity_rank by {
                    if i < tb.len() {
                        assert(tb1[i] == tb[i]);
                    } else {
                        assert(a@[0].popularity_rank >= a@[j].popularity_rank);
                    }
                }
                assert forall|i: int, j: int|
                    0 <= i < out@.len() && 0 <= j < a@.len() implies out@[i].popularity_rank
                    >= a@[j].popularity_rank by {
                    if i == before.len() {
                        assert(a@[0].popularity_rank >= a@[j].popularity_rank);
                    }
                }
            }
        }
    }
    let ghost ta = a0.subrange(0, a0.len() - a@.len());
    let ghost tb = b0.subrange(0, b0.len() - b@.len());
    let ghost before = out@;
    let ghost ra = a@;
    let ghost rb = b@;
    proof {
        assert(a0 =~= ta + ra);
        assert(b0 =~= tb + rb);
        lemma_ranked_concat(before, ra);
        lemma_ranked_concat(before + ra, rb);
        if ra.len() == 0 {
            assert(before + ra =~= before);
        } else {
            assert(rb.len() == 0);
            assert(before + ra + rb =~= before + ra);
        }
    }
    out.append(&mut a);
    out.append(&mut b);
    assert forall|k: u32| #[trigger]
        out@.filter(with_rank(k)) == a0.filter(with_rank(k)) + b0.filter(with_rank(k)) by {
        lemma_take_rest(before, ta, ra, tb, rb, k);
    }
    out
}

fn sort_run(v: VecDeque<Packages>) -> (r: VecDeque<Packages>)
    ensures
        stably_ranked(v@, r@),
    decreases v@.len(),
{
    let n = v.len();
    if n <= 1 {
        return v;
    }
    let ghost v0 = v@;
    let mut a = v;
    let b = a.split_off(n / 2);
    let ghost a0 = a@;
    let ghost b0 = b@;
    let a = sort_run(a);
    let b = sort_run(b);
    let r = merge(a, b);
    assert(v0 =~= a0 + b0);
    assert forall|k: u32| #[trigger] r@.filter(with_rank(k)) == v0.filter(with_rank(k)) by {
        Seq::filter_distributes_over_add(a0, b0, with_rank(k));
    }
    r
}

/// Orders packages by popularity, most popular first; packages of equal
/// popularity keep their order.
pub fn sort_by_popularity(items: Vec<Packages>) -> (r: Vec<Packages>)
    ensures
        stably_ranked(items@, r@),
{
    let ghost orig = items@;
    let mut run: VecDeque<Packages> = VecDeque::new();
    for x in it: items.into_iter()
        invariant
            it.seq() == orig,
            run@ == orig.subrange(0, it.index() as int),
    {
        run.push_back(x);
        assert(run@ =~= orig.subrange(0, it.index() + 1));
    }
    assert(run@ =~= orig);
    let mut sorted = sort_run(run);
    let ghost s = sorted@;
    let mut out: Vec<Packages> = Vec::new();
    while sorted.len() > 0
        invariant
            sorted@.len() <= s.len(),
            sorted@ == s.subrange(s.len() - sorted@.len(), s.len() as int),
            out@ == s.subrange(0, s.len() - sorted@.len()),
        decreases sorted@.len(),
    {
        let x = sorted.pop_front().unwrap();
        out.push(x);
        assert(out@ =~= s.subrange(0, s.len() - sorted@.len()));
    }
    assert(out@ =~= s);
    out
}

} // verus!
