//! Stable sorting: finds the order in which the entries of a list stand once
//! sorted, entries of equal rank keeping their places relative to each other.

use vstd::prelude::*;

verus! {

/// A list whose entries can be compared by their places.
pub trait Ranking {
    /// How many entries there are.
    spec fn count(&self) -> nat;

    /// Whether the entry at `i` ranks at or before the one at `j`.
    spec fn le(&self, i: int, j: int) -> bool;

    /// Any two entries can be compared.
    proof fn le_total(&self, i: int, j: int)
        ensures
            self.le(i, j) || self.le(j, i),
    ;

    /// Ranks are transitive.
    proof fn le_transitive(&self, i: int, j: int, k: int)
        requires
            self.le(i, j),
            self.le(j, k),
        ensures
            self.le(i, k),
    ;

    /// Compares the entries at `i` and `j`.
    fn at_most(&self, i: usize, j: usize) -> (r: bool)
        requires
            i < self.count(),
            j < self.count(),
        ensures
            r == self.le(i as int, j as int),
    ;
}

/// Whether the entry at `i` stands before the one at `j` after a stable sort.
pub open spec fn stands_before(le: spec_fn(int, int) -> bool, i: int, j: int) -> bool {
    le(i, j) && (le(j, i) ==> i < j)
}

/// Whether `places` lists the places of `n` entries in the order of a stable
/// sort.
pub open spec fn is_stable_order(
    n: nat,
    le: spec_fn(int, int) -> bool,
    places: Seq<usize>,
) -> bool {
    &&& places.len() == n
    &&& forall|a: int| 0 <= a < n ==> (#[trigger] places[a]) < n
    &&& forall|x: usize| x < n ==> #[trigger] places.contains(x)
    &&& forall|a: int, b: int|
        0 <= a < b < n ==> stands_before(le, #[trigger] places[a] as int, #[trigger] places[b] as int)
}

/// The order of a stable sort is unique.
pub proof fn law_stable_order_is_unique(
    n: nat,
    le: spec_fn(int, int) -> bool,
    p: Seq<usize>,
    q: Seq<usize>,
)
    requires
        is_stable_order(n, le, p),
        is_stable_order(n, le, q),
    ensures
        p == q,
{
    assert forall|a: int| 0 <= a < n implies p[a] == q[a] by {
        lemma_same_place(n, le, p, q, a);
    }
    assert(p =~= q);
}

proof fn lemma_same_place(
    n: nat,
    le: spec_fn(int, int) -> bool,
    p: Seq<usize>,
    q: Seq<usize>,
    a: int,
)
    requires
        is_stable_order(n, le, p),
        is_stable_order(n, le, q),
        0 <= a < n,
    ensures
        p[a] == q[a],
    decreases a,
{
    assert forall|b: int| 0 <= b < a implies p[b] == q[b] by {
        lemma_same_place(n, le, p, q, b);
    }
    assert(q.contains(p[a]));
    assert(p.contains(q[a]));
    let c = choose|c: int| 0 <= c < q.len() && q[c] == p[a];
    let d = choose|d: int| 0 <= d < p.len() && p[d] == q[a];
    if c < a {
        assert(stands_before(le, p[c] as int, p[a] as int));
    } else if d < a {
        assert(stands_before(le, q[d] as int, q[a] as int));
    } else if c > a {
        assert(stands_before(le, q[a] as int, q[c] as int));
        if d > a {
            assert(stands_before(le, p[a] as int, p[d] as int));
        }
    }
}

/// `places` lists exactly the places from `lo` to `hi`, in sorted order.
spec fn sorted_range<R: Ranking>(ranking: R, places: Seq<usize>, lo: int, hi: int) -> bool {
    &&& places.len() == hi - lo
    &&& forall|a: int| 0 <= a < places.len() ==> lo <= (#[trigger] places[a]) < hi
    &&& forall|x: usize| lo <= x < hi ==> #[trigger] places.contains(x)
    &&& forall|a: int, b: int|
        0 <= a < b < places.len() ==> stands_before(
            |i: int, j: int| ranking.le(i, j),
            #[trigger] places[a] as int,
            #[trigger] places[b] as int,
        )
}

proof fn lemma_before_transitive<R: Ranking>(ranking: &R, i: int, j: int, k: int)
    requires
        stands_before(|x: int, y: int| ranking.le(x, y), i, j),
        stands_before(|x: int, y: int| ranking.le(x, y), j, k),
    ensures
        stands_before(|x: int, y: int| ranking.le(x, y), i, k),
{
    ranking.le_transitive(i, j, k);
    if ranking.le(k, i) {
        ranking.le_transitive(k, i, j);
        ranking.le_transitive(j, k, i);
    }
}

fn merge<R: Ranking>(
    ranking: &R,
    a: &Vec<usize>,
    b: &Vec<usize>,
    lo: usize,
    mid: usize,
    hi: usize,
) -> (r: Vec<usize>)
    requires
        lo <= mid <= hi <= ranking.count(),
        sorted_range(*ranking, a@, lo as int, mid as int),
        sorted_range(*ranking, b@, mid as int, hi as int),
    ensures
        sorted_range(*ranking, r@, lo as int, hi as int),
{
    let ghost le = |x: int, y: int| ranking.le(x, y);
    let mut out: Vec<usize> = Vec::new();
    let mut i: usize = 0;
    let mut j: usize = 0;
    while i < a.len() || j < b.len()
        invariant
            le == (|x: int, y: int| ranking.le(x, y)),
            lo <= mid <= hi <= ranking.count(),
            sorted_range(*ranking, a@, lo as int, mid as int),
            sorted_range(*ranking, b@, mid as int, hi as int),
            i <= a@.len(),
            j <= b@.len(),
            out@.len() == i + j,
            forall|x: int| 0 <= x < out@.len() ==> lo <= (#[trigger] out@[x]) < hi,
            forall|x: int| 0 <= x < i ==> out@.contains(#[trigger] a@[x]),
            forall|x: int| 0 <= x < j ==> out@.contains(#[trigger] b@[x]),
            forall|x: int, y: int|
                0 <= x < y < out@.len() ==> stands_before(
                    le,
                    #[trigger] out@[x] as int,
                    #[trigger] out@[y] as int,
                ),
            forall|x: int, y: int|
                0 <= x < out@.len() && i <= y < a@.len() ==> stands_before(
                    le,
                    #[trigger] out@[x] as int,
                    #[trigger] a@[y] as int,
                ),
            forall|x: int, y: int|
                0 <= x < out@.len() && j <= y < b@.len() ==> stands_before(
                    le,
                    #[trigger] out@[x] as int,
                    #[trigger] b@[y] as int,
                ),
        decreases a@.len() - i + b@.len() - j,
    {
        let first: bool = if i >= a.len() {
            false
        } else if j >= b.len() {
            true
        } else {
            proof {
                ranking.le_total(a@[i as int] as int, b@[j as int] as int);
            }
            ranking.at_most(a[i], b[j])
        };
        let ghost before = out@;
        if first {
            let x: usize = a[i];
            out.push(x);
            proof {
                assert forall|y: int| j <= y < b@.len() implies stands_before(
                    le,
                    x as int,
                    #[trigger] b@[y] as int,
                ) by {
                    assert(stands_before(le, x as int, b@[j as int] as int));
                    if y > j {
                        lemma_before_transitive(ranking, x as int, b@[j as int] as int, b@[y] as int);
                    }
                }
            }
            i = i + 1;
        } else {
            let x: usize = b[j];
            out.push(x);
            proof {
                assert forall|y: int| i <= y < a@.len() implies stands_before(
                    le,
                    x as int,
                    #[trigger] a@[y] as int,
                ) by {
                    assert(stands_before(le, x as int, a@[i as int] as int));
                    if y > i {
                        lemma_before_transitive(ranking, x as int, a@[i as int] as int, a@[y] as int);
                    }
                }
            }
            j = j + 1;
        }
        proof {
            assert(out@[before.len() as int] == out@.last());
            assert forall|v: usize| before.contains(v) implies out@.contains(v) by {
                let k = choose|k: int| 0 <= k < before.len() && before[k] == v;
                assert(out@[k] == v);
            }
        }
    }
    assert forall|x: usize| lo <= x < hi implies #[trigger] out@.contains(x) by {
        if x < mid {
            assert(a@.contains(x));
        } else {
            assert(b@.contains(x));
        }
    }
    out
}

fn sort_range<R: Ranking>(ranking: &R, lo: usize, hi: usize) -> (r: Vec<usize>)
    requires
        lo <= hi <= ranking.count(),
    ensures
        sorted_range(*ranking, r@, lo as int, hi as int),
    decreases hi - lo,
{
    if hi - lo <= 1 {
        let mut out: Vec<usize> = Vec::new();
        if lo < hi {
            out.push(lo);
            assert(out@[0] == lo);
        }
        out
    } else {
        let mid: usize = lo + (hi - lo) / 2;
        let a: Vec<usize> = sort_range(ranking, lo, mid);
        let b: Vec<usize> = sort_range(ranking, mid, hi);
        merge(ranking, &a, &b, lo, mid, hi)
    }
}

/// Sorts `n` entries by merging.
pub fn stable_order<R: Ranking>(ranking: &R, n: usize) -> (r: Vec<usize>)
    requires
        n == ranking.count(),
    ensures
        is_stable_order(n as nat, |i: int, j: int| ranking.le(i, j), r@),
{
    sort_range(ranking, 0, n)
}

/// The entries of `s` at `places`, in that order.
pub open spec fn gathered<T>(s: Seq<T>, places: Seq<usize>) -> Seq<T> {
    Seq::new(places.len(), |k: int| s[places[k] as int])
}

/// Whether `places` names each place of `n` entries once.
spec fn each_once(n: nat, places: Seq<usize>) -> bool {
    &&& places.len() == n
    &&& forall|a: int| 0 <= a < n ==> (#[trigger] places[a]) < n
    &&& forall|a: int, b: int| 0 <= a < b < n ==> #[trigger] places[a] != #[trigger] places[b]
}

proof fn lemma_gathered_multiset<T>(s: Seq<T>, places: Seq<usize>)
    requires
        each_once(s.len(), places),
    ensures
        gathered(s, places).to_multiset() == s.to_multiset(),
    decreases s.len(),
{
    broadcast use vstd::seq_lib::group_to_multiset_ensures;

    if s.len() == 0 {
        assert(gathered(s, places) =~= s);
    } else {
        let n = s.len();
        let p = places.last();
        let rest = s.remove(p as int);
        let fewer = Seq::new(
            (n - 1) as nat,
            |k: int|
                if places[k] > p {
                    (places[k] - 1) as usize
                } else {
                    places[k]
                },
        );
        assert forall|k: int| 0 <= k < n - 1 implies places[k] != p by {
            assert(places[k] != places[n - 1]);
        }
        assert(each_once(rest.len(), fewer)) by {
            assert forall|a: int| 0 <= a < n - 1 implies (#[trigger] fewer[a]) < n - 1 by {
                assert(places[a] != p && places[a] < n);
            }
            assert forall|a: int, b: int| 0 <= a < b < n - 1 implies #[trigger] fewer[a]
                != #[trigger] fewer[b] by {
                assert(places[a] != places[b]);
                assert(places[a] != p && places[b] != p);
            }
        }
        lemma_gathered_multiset(rest, fewer);
        let front = gathered(rest, fewer);
        assert forall|k: int| 0 <= k < n - 1 implies front[k] == gathered(s, places)[k] by {
            assert(places[k] != p);
            assert(places[k] < n);
        }
        assert(gathered(s, places) =~= front.push(s[p as int]));
        assert(rest.to_multiset() == s.to_multiset().remove(s[p as int]));
        assert(s.to_multiset().count(s[p as int]) > 0);
        assert(s.to_multiset().remove(s[p as int]).insert(s[p as int]) =~= s.to_multiset());
    }
}

/// Sorting loses nothing and adds nothing.
pub proof fn law_sorting_keeps_everything<T>(
    s: Seq<T>,
    le: spec_fn(int, int) -> bool,
    places: Seq<usize>,
)
    requires
        is_stable_order(s.len(), le, places),
    ensures
        gathered(s, places).to_multiset() == s.to_multiset(),
{
    assert forall|a: int, b: int| 0 <= a < b < s.len() implies #[trigger] places[a]
        != #[trigger] places[b] by {
        assert(stands_before(le, places[a] as int, places[b] as int));
    }
    lemma_gathered_multiset(s, places);
}

/// Whether `places` lists, in ascending order, exactly the places below `n` that
/// `keep` keeps.
pub open spec fn lists_places(places: Seq<usize>, n: nat, keep: spec_fn(int) -> bool) -> bool {
    &&& forall|a: int| 0 <= a < places.len() ==> (#[trigger] places[a]) < n && keep(
        places[a] as int,
    )
    &&& forall|a: int, b: int|
        0 <= a < b < places.len() ==> #[trigger] places[a] < #[trigger] places[b]
    &&& forall|x: usize| x < n && keep(x as int) ==> #[trigger] places.contains(x)
}

/// Gathering puts at each place what stands at the place that is named for it.
pub proof fn law_gathering_follows_the_places<T>(s: Seq<T>, places: Seq<usize>, k: int)
    requires
        0 <= k < places.len(),
    ensures
        gathered(s, places).len() == places.len(),
        gathered(s, places)[k] == s[places[k] as int],
{
}

} // verus!
