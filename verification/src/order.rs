//! Stable ordering of indices by integer keys.
use vstd::prelude::*;
use crate::text::{chars_of, put, texts};

verus! {

/// Whether index `i` comes before index `j`: by key, then by index.
pub open spec fn before(keys: Seq<i128>, i: int, j: int) -> bool {
    keys[i] < keys[j] || (keys[i] == keys[j] && i < j)
}

/// Whether `p` lists the indices from `lo` to `hi`, each once, in the order
/// that `before` gives.
pub open spec fn lists(keys: Seq<i128>, p: Seq<usize>, lo: int, hi: int) -> bool {
    &&& p.len() == hi - lo
    &&& forall|a: int| 0 <= a < p.len() ==> lo <= #[trigger] p[a] < hi
    &&& forall|a: int, b: int|
        0 <= a < b < p.len() ==> before(keys, #[trigger] p[a] as int, #[trigger] p[b] as int)
    &&& forall|i: usize| lo <= i < hi ==> #[trigger] p.contains(i)
}

/// Whether `p` is the stable order of all indices of `keys`.
pub open spec fn stable_order(keys: Seq<i128>, p: Seq<usize>) -> bool {
    lists(keys, p, 0, keys.len() as int)
}

/// There is only one stable order.
pub proof fn lemma_stable_order_unique(keys: Seq<i128>, p: Seq<usize>, q: Seq<usize>)
    requires
        stable_order(keys, p),
        stable_order(keys, q),
    ensures
        p == q,
{
    lemma_same_prefix(keys, p, q, p.len() as int);
    assert(p =~= q);
}

proof fn lemma_same_prefix(keys: Seq<i128>, p: Seq<usize>, q: Seq<usize>, n: int)
    requires
        stable_order(keys, p),
        stable_order(keys, q),
        0 <= n <= p.len(),
    ensures
        forall|a: int| 0 <= a < n ==> p[a] == q[a],
    decreases n,
{
    if n > 0 {
        lemma_same_prefix(keys, p, q, n - 1);
        let k = n - 1;
        if p[k] != q[k] {
            assert(q.contains(p[k]));
            assert(p.contains(q[k]));
            let a = choose|a: int| 0 <= a < q.len() && q[a] == p[k];
            let b = choose|b: int| 0 <= b < p.len() && p[b] == q[k];
            if a < k {
                assert(p[a] == q[a]);
                assert(before(keys, p[a] as int, p[k] as int));
            } else if b < k {
                assert(p[b] == q[b]);
                assert(before(keys, q[b] as int, q[k] as int));
            } else {
                assert(before(keys, q[k] as int, q[a] as int));
                assert(before(keys, p[k] as int, p[b] as int));
            }
        }
    }
}

/// The stable order of all indices of `keys`.
pub open spec fn the_order(keys: Seq<i128>) -> Seq<usize> {
    choose|p: Seq<usize>| stable_order(keys, p)
}

proof fn insertion_point(keys: Seq<i128>, q: Seq<usize>, h: int, k: int) -> (r: int)
    requires
        lists(keys, q, 0, h),
        0 <= k <= q.len(),
        forall|a: int| k <= a < q.len() ==> before(keys, h, #[trigger] q[a] as int),
    ensures
        0 <= r <= q.len(),
        forall|a: int| 0 <= a < r ==> before(keys, #[trigger] q[a] as int, h),
        forall|a: int| r <= a < q.len() ==> before(keys, h, #[trigger] q[a] as int),
    decreases k,
{
    if k == 0 {
        0
    } else if before(keys, h, q[k - 1] as int) {
        insertion_point(keys, q, h, k - 1)
    } else {
        assert forall|a: int| 0 <= a < k implies before(keys, #[trigger] q[a] as int, h) by {
            if a < k - 1 {
                assert(before(keys, q[a] as int, q[k - 1] as int));
            }
        }
        k
    }
}

proof fn listing(keys: Seq<i128>, hi: int) -> (p: Seq<usize>)
    requires
        0 <= hi <= keys.len() <= usize::MAX,
    ensures
        lists(keys, p, 0, hi),
    decreases hi,
{
    if hi == 0 {
        Seq::empty()
    } else {
        let h = hi - 1;
        let q = listing(keys, h);
        let k = insertion_point(keys, q, h, q.len() as int);
        let p = q.insert(k, h as usize);
        assert forall|a: int, b: int| 0 <= a < b < p.len() implies before(
            keys,
            #[trigger] p[a] as int,
            #[trigger] p[b] as int,
        ) by {
            let x = if a < k {
                a
            } else {
                a - 1
            };
            let y = if b < k {
                b
            } else {
                b - 1
            };
            if a == k {
                assert(p[b] == q[y]);
            } else if b == k {
                assert(p[a] == q[x]);
            } else {
                assert(p[a] == q[x] && p[b] == q[y]);
            }
        }
        assert forall|i: usize| 0 <= i < hi implies #[trigger] p.contains(i) by {
            if i == h {
                assert(p[k] == i);
            } else {
                assert(q.contains(i));
                let a = choose|a: int| 0 <= a < q.len() && q[a] == i;
                if a < k {
                    assert(p[a] == i);
                } else {
                    assert(p[a + 1] == i);
                }
            }
        }
        p
    }
}

/// There is a stable order of all indices.
pub proof fn lemma_the_order(keys: Seq<i128>)
    requires
        keys.len() <= usize::MAX,
    ensures
        stable_order(keys, the_order(keys)),
{
    let p = listing(keys, keys.len() as int);
    assert(stable_order(keys, p));
}

fn comes_first(keys: &Vec<i128>, i: usize, j: usize) -> (r: bool)
    requires
        i < keys@.len(),
        j < keys@.len(),
    ensures
        r == before(keys@, i as int, j as int),
{
    keys[i] < keys[j] || (keys[i] == keys[j] && i < j)
}

/// Merges the ordered lists of two neighbouring index ranges.
fn merge(keys: &Vec<i128>, x: &Vec<usize>, y: &Vec<usize>, lo: usize, mid: usize, hi: usize) -> (out:
    Vec<usize>)
    requires
        lo <= mid <= hi <= keys@.len(),
        lists(keys@, x@, lo as int, mid as int),
        lists(keys@, y@, mid as int, hi as int),
    ensures
        lists(keys@, out@, lo as int, hi as int),
{
    let mut out: Vec<usize> = Vec::new();
    let mut i: usize = 0;
    let mut j: usize = 0;
    while i < x.len() || j < y.len()
        invariant
            lo <= mid <= hi <= keys@.len(),
            lists(keys@, x@, lo as int, mid as int),
            lists(keys@, y@, mid as int, hi as int),
            i <= x@.len(),
            j <= y@.len(),
            out@.len() == i + j,
            forall|a: int| 0 <= a < out@.len() ==> lo <= #[trigger] out@[a] < hi,
            forall|a: int, b: int|
                0 <= a < b < out@.len() ==> before(
                    keys@,
                    #[trigger] out@[a] as int,
                    #[trigger] out@[b] as int,
                ),
            forall|a: int, b: int|
                0 <= a < out@.len() && i <= b < x@.len() ==> before(
                    keys@,
                    #[trigger] out@[a] as int,
                    #[trigger] x@[b] as int,
                ),
            forall|a: int, b: int|
                0 <= a < out@.len() && j <= b < y@.len() ==> before(
                    keys@,
                    #[trigger] out@[a] as int,
                    #[trigger] y@[b] as int,
                ),
            forall|b: int| 0 <= b < i ==> out@.contains(#[trigger] x@[b]),
            forall|b: int| 0 <= b < j ==> out@.contains(#[trigger] y@[b]),
        decreases x.len() - i + y.len() - j,
    {
        let ghost out0 = out@;
        if j == y.len() || (i < x.len() && comes_first(keys, x[i], y[j])) {
            out.push(x[i]);
            i += 1;
        } else {
            out.push(y[j]);
            j += 1;
        }
        proof {
            assert(out@[out0.len() as int] == out@.last());
            assert forall|v: usize| #[trigger] out0.contains(v) implies out@.contains(v) by {
                let a = choose|a: int| 0 <= a < out0.len() && out0[a] == v;
                assert(out@[a] == v);
            }
            assert(out@.contains(out@.last()));
        }
    }
    assert forall|v: usize| lo <= v < hi implies #[trigger] out@.contains(v) by {
        if v < mid {
            assert(x@.contains(v));
        } else {
            assert(y@.contains(v));
        }
    }
    out
}

fn order_range(keys: &Vec<i128>, lo: usize, hi: usize) -> (out: Vec<usize>)
    requires
        lo <= hi <= keys@.len(),
    ensures
        lists(keys@, out@, lo as int, hi as int),
    decreases hi - lo,
{
    let mut out: Vec<usize> = Vec::new();
    if hi - lo < 2 {
        if lo < hi {
            out.push(lo);
            assert(out@[0] == lo);
        }
        out
    } else {
        let mid: usize = lo + (hi - lo) / 2;
        let x = order_range(keys, lo, mid);
        let y = order_range(keys, mid, hi);
        merge(keys, &x, &y, lo, mid, hi)
    }
}

/// The stable order of the indices of `keys`.
pub fn order_of(keys: &Vec<i128>) -> (p: Vec<usize>)
    ensures
        stable_order(keys@, p@),
        p@ == the_order(keys@),
{
    let p = order_range(keys, 0, keys.len());
    proof {
        assert(stable_order(keys@, p@));
        lemma_stable_order_unique(keys@, p@, the_order(keys@));
    }
    p
}

// ---- Texts ----

/// Dictionary order by code point, as strings compare.
pub open spec fn text_less(a: Seq<char>, b: Seq<char>) -> bool
    decreases a.len(),
{
    if b.len() == 0 {
        false
    } else if a.len() == 0 {
        true
    } else if a[0] != b[0] {
        a[0] < b[0]
    } else {
        text_less(a.skip(1), b.skip(1))
    }
}

/// Dictionary order is a strict total order.
pub proof fn lemma_text_order(a: Seq<char>, b: Seq<char>, c: Seq<char>)
    ensures
        !text_less(a, a),
        text_less(a, b) && text_less(b, c) ==> text_less(a, c),
        text_less(a, b) || text_less(b, a) || a == b,
        !(text_less(a, b) && text_less(b, a)),
    decreases a.len(),
{
    if a.len() > 0 {
        lemma_text_order(
            a.skip(1),
            if b.len() > 0 {
                b.skip(1)
            } else {
                b
            },
            if c.len() > 0 {
                c.skip(1)
            } else {
                c
            },
        );
        if b.len() > 0 && a[0] == b[0] && a.skip(1) == b.skip(1) {
            assert(a =~= seq![a[0]] + a.skip(1));
            assert(b =~= seq![b[0]] + b.skip(1));
        }
    } else if b.len() == 0 {
        assert(a =~= b);
    }
}

fn less_from(a: &Vec<char>, b: &Vec<char>, i: usize) -> (r: bool)
    requires
        i <= a@.len(),
        i <= b@.len(),
    ensures
        r == text_less(a@.skip(i as int), b@.skip(i as int)),
{
    let mut k: usize = i;
    while k < a.len() && k < b.len() && a[k] == b[k]
        invariant
            i <= k <= a@.len(),
            k <= b@.len(),
            text_less(a@.skip(i as int), b@.skip(i as int)) == text_less(
                a@.skip(k as int),
                b@.skip(k as int),
            ),
        decreases a.len() - k,
    {
        assert(a@.skip(k as int).skip(1) =~= a@.skip(k + 1));
        assert(b@.skip(k as int).skip(1) =~= b@.skip(k + 1));
        k += 1;
    }
    if k == b.len() {
        false
    } else if k == a.len() {
        true
    } else {
        a[k] < b[k]
    }
}

/// Whether one text comes before another.
pub fn is_text_less(a: &str, b: &str) -> (r: bool)
    ensures
        r == text_less(a@, b@),
{
    let x = chars_of(a);
    let y = chars_of(b);
    assert(x@.skip(0) =~= x@);
    assert(y@.skip(0) =~= y@);
    less_from(&x, &y, 0)
}

/// How many of the first `n` texts come before `t`.
pub open spec fn count_less(all: Seq<Seq<char>>, n: int, t: Seq<char>) -> int
    decreases n,
{
    if n <= 0 {
        0
    } else if text_less(all[n - 1], t) {
        count_less(all, n - 1, t) + 1
    } else {
        count_less(all, n - 1, t)
    }
}

proof fn lemma_count_bound(all: Seq<Seq<char>>, n: int, t: Seq<char>)
    requires
        0 <= n,
    ensures
        0 <= count_less(all, n, t) <= n,
    decreases n,
{
    if n > 0 {
        lemma_count_bound(all, n - 1, t);
    }
}

proof fn lemma_count_grows(all: Seq<Seq<char>>, n: int, a: Seq<char>, b: Seq<char>)
    requires
        0 <= n,
        text_less(a, b),
    ensures
        count_less(all, n, a) <= count_less(all, n, b),
        (exists|i: int| 0 <= i < n && #[trigger] all[i] == a) ==> count_less(all, n, a) < count_less(
            all,
            n,
            b,
        ),
    decreases n,
{
    if n > 0 {
        lemma_count_grows(all, n - 1, a, b);
        lemma_text_order(all[n - 1], a, b);
        if exists|i: int| 0 <= i < n && #[trigger] all[i] == a {
            let i = choose|i: int| 0 <= i < n && #[trigger] all[i] == a;
            if i < n - 1 {
                assert(all[i] == a);
            }
        }
    }
}

/// The place of each text among all of them: how many come before it.
pub open spec fn text_keys(all: Seq<Seq<char>>) -> Seq<i128> {
    Seq::new(all.len(), |i: int| count_less(all, all.len() as int, all[i]) as i128)
}

/// The keys order as the texts do.
pub proof fn lemma_text_keys(all: Seq<Seq<char>>, i: int, j: int)
    requires
        0 <= i < all.len(),
        0 <= j < all.len(),
        all.len() <= usize::MAX,
    ensures
        (text_keys(all)[i] < text_keys(all)[j]) == text_less(all[i], all[j]),
        (text_keys(all)[i] == text_keys(all)[j]) == (all[i] == all[j]),
{
    let n = all.len() as int;
    lemma_count_bound(all, n, all[i]);
    lemma_count_bound(all, n, all[j]);
    lemma_text_order(all[i], all[j], all[i]);
    if text_less(all[i], all[j]) {
        lemma_count_grows(all, n, all[i], all[j]);
    } else if text_less(all[j], all[i]) {
        lemma_count_grows(all, n, all[j], all[i]);
    }
}

/// The places of texts, as sort keys.
pub fn text_keys_of(v: &Vec<String>) -> (r: Vec<i128>)
    ensures
        r@ == text_keys(texts(v@)),
{
    let mut r: Vec<i128> = Vec::new();
    let ghost all = texts(v@);
    let mut i: usize = 0;
    while i < v.len()
        invariant
            i <= v@.len(),
            all == texts(v@),
            r@.len() == i,
            forall|j: int| 0 <= j < i ==> #[trigger] r@[j] == text_keys(all)[j],
        decreases v.len() - i,
    {
        let mut n: i128 = 0;
        let mut k: usize = 0;
        while k < v.len()
            invariant
                i < v@.len(),
                k <= v@.len() <= usize::MAX,
                all == texts(v@),
                0 <= n <= k,
                n == count_less(all, k as int, all[i as int]),
            decreases v.len() - k,
        {
            assert(all[k as int] == v@[k as int]@);
            assert(all[i as int] == v@[i as int]@);
            if is_text_less(v[k].as_str(), v[i].as_str()) {
                n += 1;
            }
            k += 1;
        }
        r.push(n);
        i += 1;
    }
    assert(r@ =~= text_keys(all));
    r
}

/// Whether `sorted` lists all of `all`, each once, in dictionary order.
pub open spec fn in_order(all: Seq<Seq<char>>, sorted: Seq<Seq<char>>) -> bool {
    exists|p: Seq<usize>| #[trigger]
        stable_order(text_keys(all), p) && sorted == p.map_values(|i: usize| all[i as int])
}

/// In dictionary order no text stands before a lesser one, and the texts are
/// those that were there.
pub proof fn lemma_in_order(all: Seq<Seq<char>>, sorted: Seq<Seq<char>>)
    requires
        in_order(all, sorted),
        all.len() <= usize::MAX,
    ensures
        sorted.len() == all.len(),
        forall|a: int, b: int|
            0 <= a < b < sorted.len() ==> !text_less(#[trigger] sorted[b], #[trigger] sorted[a]),
        forall|t: Seq<char>| sorted.contains(t) <==> #[trigger] all.contains(t),
{
    let p = choose|p: Seq<usize>| #[trigger]
        stable_order(text_keys(all), p) && sorted == p.map_values(|i: usize| all[i as int]);
    assert forall|a: int, b: int| 0 <= a < b < sorted.len() implies !text_less(
        #[trigger] sorted[b],
        #[trigger] sorted[a],
    ) by {
        assert(before(text_keys(all), p[a] as int, p[b] as int));
        lemma_text_keys(all, p[b] as int, p[a] as int);
    }
    assert forall|t: Seq<char>| sorted.contains(t) <==> #[trigger] all.contains(t) by {
        if sorted.contains(t) {
            let a = choose|a: int| 0 <= a < sorted.len() && sorted[a] == t;
            assert(all[p[a] as int] == t);
        }
        if all.contains(t) {
            let i = choose|i: int| 0 <= i < all.len() && all[i] == t;
            assert(p.contains(i as usize));
            let a = choose|a: int| 0 <= a < p.len() && p[a] == i as usize;
            assert(sorted[a] == t);
        }
    }
}

/// The texts in dictionary order.
pub fn sorted_texts(v: &Vec<String>) -> (r: Vec<String>)
    ensures
        in_order(texts(v@), texts(r@)),
{
    let keys = text_keys_of(v);
    let p = order_of(&keys);
    let ghost all = texts(v@);
    let ghost pick = |i: usize| all[i as int];
    let mut r: Vec<String> = Vec::new();
    let mut a: usize = 0;
    assert(texts(r@) =~= p@.take(0).map_values(pick));
    while a < p.len()
        invariant
            a <= p@.len(),
            all == texts(v@),
            pick == (|i: usize| all[i as int]),
            stable_order(text_keys(all), p@),
            texts(r@) == p@.take(a as int).map_values(pick),
        decreases p.len() - a,
    {
        assert(p@[a as int] < all.len());
        assert(all[p@[a as int] as int] == v@[p@[a as int] as int]@);
        put(&mut r, v[p[a]].as_str());
        a += 1;
        assert(texts(r@) =~= p@.take(a as int).map_values(pick));
    }
    assert(p@.take(a as int) =~= p@);
    r
}

} // verus!
