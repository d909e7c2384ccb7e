//! A stable sort of a selection of mirrors.
use std::cmp::Ordering;
use vstd::prelude::*;

use crate::criteria::{criteria_order, rate_order, rates_comparable, sort_key, SortCriteria, SortDir, SortKey};
use crate::keys::{int_of, length};
use crate::mirror::{Mirror, Rate};
use crate::text::{flip, lemma_lex_equal, lemma_lex_flip, lemma_lex_transitive};

verus! {

/// The order of the mirrors at two positions of the list.
pub open spec fn sel_order(c: SortCriteria, ms: Seq<Mirror>, x: usize, y: usize) -> Ordering {
    criteria_order(c, ms[int_of(x)], ms[int_of(y)])
}

/// Every selected position names a mirror of the list.
pub open spec fn in_bounds(ms: Seq<Mirror>, sel: Seq<usize>) -> bool {
    forall|k: int| 0 <= k < sel.len() ==> #[trigger] int_of(sel[k]) < ms.len()
}

/// Any two selected mirrors' rates can be compared without overflow.
pub open spec fn all_rates_comparable(ms: Seq<Mirror>, sel: Seq<usize>) -> bool {
    forall|p: int, q: int|
        0 <= p < sel.len() && 0 <= q < sel.len() ==> rates_comparable(
            #[trigger] ms[int_of(sel[p])].rate,
            #[trigger] ms[int_of(sel[q])].rate,
        )
}

/// The criteria order the selected mirrors as a total preorder: swapping two
/// flips their order, and "not after" is transitive.
pub open spec fn consistent(c: SortCriteria, ms: Seq<Mirror>, sel: Seq<usize>) -> bool {
    &&& forall|p: int, q: int|
        0 <= p < sel.len() && 0 <= q < sel.len() ==> #[trigger] sel_order(c, ms, sel[q], sel[p])
            == flip(sel_order(c, ms, sel[p], sel[q]))
    &&& forall|p: int, q: int, r: int|
        #![trigger sel_order(c, ms, sel[p], sel[q]), sel_order(c, ms, sel[q], sel[r])]
        0 <= p < sel.len() && 0 <= q < sel.len() && 0 <= r < sel.len() && sel_order(
            c,
            ms,
            sel[p],
            sel[q],
        ) != Ordering::Greater && sel_order(c, ms, sel[q], sel[r]) != Ordering::Greater
            ==> sel_order(c, ms, sel[p], sel[r]) != Ordering::Greater
}

/// `out` lists, in order, no mirror after one it should follow, and mirrors
/// that compare equal keep the order of their positions `src` in the input.
pub open spec fn sorted_stable(c: SortCriteria, ms: Seq<Mirror>, out: Seq<usize>, src: Seq<int>) -> bool {
    forall|k1: int, k2: int|
        #![trigger out[k1], out[k2]]
        0 <= k1 < k2 < out.len() ==> sel_order(c, ms, out[k1], out[k2]) != Ordering::Greater && (
        sel_order(c, ms, out[k1], out[k2]) == Ordering::Equal ==> src[k1] < src[k2])
}

/// `out` is `sel` rearranged, element `k` of `out` being element `src[k]` of
/// `sel`; and, where the criteria are a total preorder on the selected
/// mirrors, `out` is sorted and equal mirrors keep their relative order.
pub open spec fn is_stable_sort(
    c: SortCriteria,
    ms: Seq<Mirror>,
    sel: Seq<usize>,
    out: Seq<usize>,
    src: Seq<int>,
) -> bool {
    &&& out.len() == sel.len()
    &&& src.len() == sel.len()
    &&& forall|k: int| 0 <= k < out.len() ==> 0 <= #[trigger] src[k] < sel.len() && out[k] == sel[src[k]]
    &&& forall|k1: int, k2: int| 0 <= k1 < out.len() && 0 <= k2 < out.len() && k1 != k2 ==> #[trigger] src[k1] != #[trigger] src[k2]
    &&& consistent(c, ms, sel) ==> sorted_stable(c, ms, out, src)
}

fn is_greater(o: Ordering) -> (r: bool)
    ensures
        r == (o == Ordering::Greater),
{
    match o {
        Ordering::Greater => true,
        _ => false,
    }
}

/// Sorts the selected positions by the criteria, stably, by insertion.
pub fn stable_sort(c: SortCriteria, ms: &[Mirror], sel: &Vec<usize>) -> (out: Vec<usize>)
    requires
        in_bounds(ms@, sel@),
        c.key == SortKey::Rate ==> all_rates_comparable(ms@, sel@),
    ensures
        exists|src: Seq<int>| is_stable_sort(c, ms@, sel@, out@, src),
{
    let n = sel.len();
    let mut out: Vec<usize> = Vec::new();
    let ghost mut src: Seq<int> = Seq::empty();
    let mut k: usize = 0;
    while k < n
        invariant
            n == sel@.len(),
            k <= n,
            in_bounds(ms@, sel@),
            c.key == SortKey::Rate ==> all_rates_comparable(ms@, sel@),
            out@.len() == int_of(k),
            src.len() == int_of(k),
            forall|q: int| 0 <= q < k ==> 0 <= #[trigger] src[q] < k && out@[q] == sel@[src[q]],
            forall|q1: int, q2: int| 0 <= q1 < k && 0 <= q2 < k && q1 != q2 ==> #[trigger] src[q1] != #[trigger] src[q2],
            consistent(c, ms@, sel@) ==> sorted_stable(c, ms@, out@, src),
        decreases n - k,
    {
        let x = sel[k];
        let ghost xk = int_of(k);
        assert(int_of(sel@[xk]) < ms@.len());
        let mut p: usize = k;
        loop
            invariant
                p <= k,
                k < n,
                n == sel@.len(),
                x == sel@[xk],
                xk == int_of(k),
                in_bounds(ms@, sel@),
                int_of(x) < ms@.len(),
                c.key == SortKey::Rate ==> all_rates_comparable(ms@, sel@),
                out@.len() == int_of(k),
                src.len() == int_of(k),
                forall|q: int| 0 <= q < k ==> 0 <= #[trigger] src[q] < k && out@[q] == sel@[src[q]],
                forall|q: int| p <= q < k ==> sel_order(c, ms@, #[trigger] out@[q], x) == Ordering::Greater,
            ensures
                p <= k,
                forall|q: int| p <= q < k ==> sel_order(c, ms@, #[trigger] out@[q], x) == Ordering::Greater,
                p > 0 ==> sel_order(c, ms@, out@[int_of(p) - 1], x) != Ordering::Greater,
            decreases p,
        {
            if p == 0 {
                break;
            }
            let y = out[p - 1];
            proof {
                let q = src[int_of(p) - 1];
                assert(int_of(sel@[q]) < ms@.len());
                if c.key == SortKey::Rate {
                    assert(rates_comparable(ms@[int_of(sel@[q])].rate, ms@[int_of(sel@[xk])].rate));
                }
            }
            if !is_greater(c.compare(&ms[y], &ms[x])) {
                break;
            }
            p = p - 1;
        }
        proof {
            let ghost o = out@;
            let ghost no = o.insert(int_of(p), x);
            let ghost ns = src.insert(int_of(p), xk);
            if consistent(c, ms@, sel@) {
                assert forall|k1: int, k2: int| 0 <= k1 < k2 < no.len() implies sel_order(c, ms@, no[k1], no[k2]) != Ordering::Greater && (
                    sel_order(c, ms@, no[k1], no[k2]) == Ordering::Equal ==> ns[k1] < ns[k2]) by {
                    if k2 < p {
                        assert(no[k1] == o[k1] && no[k2] == o[k2]);
                    } else if k1 > p {
                        assert(no[k1] == o[k1 - 1] && no[k2] == o[k2 - 1]);
                        assert(o[k1 - 1] == o[k1 - 1] && o[k2 - 1] == o[k2 - 1]);
                    } else if k1 < p && k2 > p {
                        assert(no[k1] == o[k1] && no[k2] == o[k2 - 1]);
                        assert(o[k1] == o[k1] && o[k2 - 1] == o[k2 - 1]);
                    } else if k2 == p {
                        // an earlier mirror before the inserted one
                        assert(no[k2] == x);
                        assert(no[k1] == o[k1]);
                        let a = src[k1];
                        let b = src[int_of(p) - 1];
                        assert(o[k1] == sel@[a]);
                        assert(o[int_of(p) - 1] == sel@[b]);
                        if k1 < p - 1 {
                            assert(o[k1] == o[k1] && o[int_of(p) - 1] == o[int_of(p) - 1]);
                            assert(sel_order(c, ms@, sel@[a], sel@[b]) != Ordering::Greater);
                        }
                        assert(sel_order(c, ms@, sel@[b], sel@[xk]) != Ordering::Greater);
                        assert(sel_order(c, ms@, sel@[a], sel@[xk]) != Ordering::Greater);
                    } else {
                        // the inserted mirror before a later one
                        assert(k1 == p);
                        assert(no[k1] == x);
                        assert(no[k2] == o[k2 - 1]);
                        let b = src[k2 - 1];
                        assert(o[k2 - 1] == sel@[b]);
                        assert(sel_order(c, ms@, o[k2 - 1], x) == Ordering::Greater);
                        assert(sel_order(c, ms@, sel@[xk], sel@[b]) == flip(sel_order(c, ms@, sel@[b], sel@[xk])));
                    }
                }
            }
        }
        out.insert(p, x);
        proof {
            src = src.insert(int_of(p), xk);
        }
        k = k + 1;
    }
    assert(is_stable_sort(c, ms@, sel@, out@, src));
    out
}

/// A rearrangement of `n` positions reaches every position.
proof fn lemma_rearrangement_onto(s: Seq<int>, n: int, a: int)
    requires
        s.len() == n,
        forall|k: int| 0 <= k < n ==> 0 <= #[trigger] s[k] < n,
        forall|k1: int, k2: int| 0 <= k1 < n && 0 <= k2 < n && k1 != k2 ==> #[trigger] s[k1] != #[trigger] s[k2],
        0 <= a < n,
    ensures
        exists|m: int| 0 <= m < n && s[m] == a,
{
    let range = vstd::set_lib::set_int_range(0, n);
    vstd::set_lib::lemma_int_range(0, n);
    assert(s.no_duplicates());
    s.unique_seq_to_set();
    assert(s.to_set().subset_of(range)) by {
        assert forall|x: int| s.to_set().contains(x) implies range.contains(x) by {
            let k = choose|k: int| 0 <= k < s.len() && s[k] == x;
        }
    }
    vstd::set_lib::lemma_subset_equality(s.to_set(), range);
    assert(range.contains(a));
    assert(s.to_set().contains(a));
}

/// Under criteria that order the selection consistently, sorting it stably
/// has a single outcome.
pub proof fn lemma_stable_sort_unique(
    c: SortCriteria,
    ms: Seq<Mirror>,
    sel: Seq<usize>,
    out1: Seq<usize>,
    src1: Seq<int>,
    out2: Seq<usize>,
    src2: Seq<int>,
)
    requires
        consistent(c, ms, sel),
        is_stable_sort(c, ms, sel, out1, src1),
        is_stable_sort(c, ms, sel, out2, src2),
    ensures
        out1 == out2,
{
    let n = length(sel);
    assert forall|k: int| 0 <= k < n implies src1[k] == src2[k] by {
        lemma_stable_sort_prefix(c, ms, sel, out1, src1, out2, src2, k + 1);
    }
    assert forall|k: int| 0 <= k < n implies out1[k] == out2[k] by {
        assert(out1[k] == sel[src1[k]]);
        assert(out2[k] == sel[src2[k]]);
    }
    assert(out1 =~= out2);
}

proof fn lemma_stable_sort_prefix(
    c: SortCriteria,
    ms: Seq<Mirror>,
    sel: Seq<usize>,
    out1: Seq<usize>,
    src1: Seq<int>,
    out2: Seq<usize>,
    src2: Seq<int>,
    len: int,
)
    requires
        consistent(c, ms, sel),
        is_stable_sort(c, ms, sel, out1, src1),
        is_stable_sort(c, ms, sel, out2, src2),
        0 <= len <= sel.len(),
    ensures
        forall|j: int| 0 <= j < len ==> src1[j] == src2[j],
    decreases len,
{
    if len > 0 {
        let n = length(sel);
        let k = len - 1;
        lemma_stable_sort_prefix(c, ms, sel, out1, src1, out2, src2, k);
        let a = src1[k];
        let b = src2[k];
        if a != b {
            lemma_rearrangement_onto(src2, n, a);
            let m = choose|m: int| 0 <= m < n && src2[m] == a;
            lemma_rearrangement_onto(src1, n, b);
            let m1 = choose|m: int| 0 <= m < n && src1[m] == b;
            if m < k {
                assert(src1[m] == src2[m]);
                assert(src1[m] != src1[k]);
            }
            if m1 < k {
                assert(src2[m1] == src1[m1]);
                assert(src2[m1] != src2[k]);
            }
            assert(m > k && m1 > k);
            assert(out2[k] == sel[b] && out2[m] == sel[a]);
            assert(out1[k] == sel[a] && out1[m1] == sel[b]);
            assert(out2[k] == out2[k] && out2[m] == out2[m]);
            assert(out1[k] == out1[k] && out1[m1] == out1[m1]);
            assert(sel_order(c, ms, sel[b], sel[a]) == flip(sel_order(c, ms, sel[a], sel[b])));
        }
    }
}

/// A measured download took at least a millisecond.
pub open spec fn rate_timed(r: Option<Rate>) -> bool {
    r is Some ==> r.unwrap().download_time.millis() > 0
}

proof fn lemma_rate_flip(a: Option<Rate>, b: Option<Rate>)
    ensures
        rate_order(b, a) == flip(rate_order(a, b)),
{
}

proof fn lemma_rate_transitive(a: Option<Rate>, b: Option<Rate>, d: Option<Rate>)
    requires
        rate_timed(a),
        rate_timed(b),
        rate_timed(d),
        rate_order(a, b) != Ordering::Greater,
        rate_order(b, d) != Ordering::Greater,
    ensures
        rate_order(a, d) != Ordering::Greater,
{
    if a is Some && b is Some && d is Some {
        Rate::lemma_cross_transitive(a.unwrap(), b.unwrap(), d.unwrap());
    }
}

/// Swapping two mirrors flips their order under any criteria, and a
/// mirror is equal to itself: what `SortCriteria::compare` returns for
/// `(b, a)` is the reverse of what it returns for `(a, b)`, and it returns
/// `Equal` for `(a, a)`.
pub proof fn lemma_order_flip(c: SortCriteria, a: Mirror, b: Mirror)
    ensures
        criteria_order(c, b, a) == flip(criteria_order(c, a, b)),
        criteria_order(c, a, a) == Ordering::Equal,
{
    if c.key == SortKey::Rate {
        lemma_rate_flip(a.rate, b.rate);
    } else {
        lemma_lex_flip(sort_key(c.key, a), sort_key(c.key, b));
        lemma_lex_equal(sort_key(c.key, a), sort_key(c.key, a));
    }
}

/// Sorting descending orders two mirrors as sorting ascending orders them
/// the other way round: what `SortCriteria::compare` returns under `Desc` is
/// the reverse of what it returns under `Asc` for the same key.
pub proof fn lemma_descending_reverses(key: SortKey, a: Mirror, b: Mirror)
    ensures
        criteria_order(SortCriteria { key, dir: SortDir::Desc }, a, b) == criteria_order(
            SortCriteria { key, dir: SortDir::Asc },
            b,
            a,
        ),
        criteria_order(SortCriteria { key, dir: SortDir::Desc }, a, b) == flip(
            criteria_order(SortCriteria { key, dir: SortDir::Asc }, a, b),
        ),
{
    lemma_order_flip(SortCriteria { key, dir: SortDir::Asc }, a, b);
}

/// "Not after" is transitive under any criteria, except for rates measured
/// in no time at all.
pub proof fn lemma_order_transitive(c: SortCriteria, a: Mirror, b: Mirror, d: Mirror)
    requires
        c.key == SortKey::Rate ==> rate_timed(a.rate) && rate_timed(b.rate) && rate_timed(d.rate),
        criteria_order(c, a, b) != Ordering::Greater,
        criteria_order(c, b, d) != Ordering::Greater,
    ensures
        criteria_order(c, a, d) != Ordering::Greater,
{
    lemma_order_flip(c, a, b);
    lemma_order_flip(c, b, d);
    lemma_order_flip(c, a, d);
    if c.key == SortKey::Rate {
        lemma_rate_flip(a.rate, b.rate);
        lemma_rate_flip(b.rate, d.rate);
        lemma_rate_flip(a.rate, d.rate);
        if c.dir == SortDir::Desc {
            lemma_rate_transitive(d.rate, b.rate, a.rate);
        } else {
            lemma_rate_transitive(a.rate, b.rate, d.rate);
        }
    } else {
        let ka = sort_key(c.key, a);
        let kb = sort_key(c.key, b);
        let kd = sort_key(c.key, d);
        lemma_lex_flip(ka, kb);
        lemma_lex_flip(kb, kd);
        lemma_lex_flip(ka, kd);
        if c.dir == SortDir::Desc {
            lemma_lex_transitive(kd, kb, ka);
        } else {
            lemma_lex_transitive(ka, kb, kd);
        }
    }
}

/// Every sort criteria order the selected mirrors as a total preorder, so
/// sorting them is sorted and stable; sorting by rate needs each measured
/// download to have taken at least a millisecond.
pub proof fn lemma_criteria_consistent(c: SortCriteria, ms: Seq<Mirror>, sel: Seq<usize>)
    requires
        in_bounds(ms, sel),
        c.key == SortKey::Rate ==> forall|k: int| 0 <= k < sel.len() ==> rate_timed(#[trigger] ms[int_of(sel[k])].rate),
    ensures
        consistent(c, ms, sel),
{
    assert forall|p: int, q: int| 0 <= p < sel.len() && 0 <= q < sel.len() implies #[trigger] sel_order(c, ms, sel[q], sel[p])
        == flip(sel_order(c, ms, sel[p], sel[q])) by {
        lemma_order_flip(c, ms[int_of(sel[p])], ms[int_of(sel[q])]);
    }
    assert forall|p: int, q: int, r: int|
        #![trigger sel_order(c, ms, sel[p], sel[q]), sel_order(c, ms, sel[q], sel[r])]
        0 <= p < sel.len() && 0 <= q < sel.len() && 0 <= r < sel.len() && sel_order(c, ms, sel[p], sel[q])
            != Ordering::Greater && sel_order(c, ms, sel[q], sel[r]) != Ordering::Greater implies sel_order(
        c,
        ms,
        sel[p],
        sel[r],
    ) != Ordering::Greater by {
        if c.key == SortKey::Rate {
            assert(rate_timed(ms[int_of(sel[p])].rate));
            assert(rate_timed(ms[int_of(sel[q])].rate));
            assert(rate_timed(ms[int_of(sel[r])].rate));
        }
        lemma_order_transitive(c, ms[int_of(sel[p])], ms[int_of(sel[q])], ms[int_of(sel[r])]);
    }
}

} // verus!
