//! Plots of per-frame values: tabs, axes, the points that are drawn, and the
//! sizes of exported pictures.
use vstd::prelude::*;
use crate::metrics::ffmpeg::MetricKind;
use crate::num::{hundred, lower, lower_of, one, upper, upper_of, zero, Num, INFINITE, NEG_INFINITE};
use crate::text::same;

verus! {

/// A metric's axis: its label and its range without data.
#[derive(Debug, Clone, Copy)]
pub struct PlotDef {
    pub label: &'static str,
    pub lo: Num,
    pub hi: Num,
}

/// The number 10.
#[verifier::allow_in_spec]
pub fn ten() -> Num
    returns
        (Num { bits: 0x4024_0000_0000_0000 }),
{
    Num { bits: 0x4024_0000_0000_0000 }
}

pub open spec fn axis_label(kind: MetricKind) -> Seq<char> {
    match kind {
        MetricKind::Psnr => "PSNR (higher is better, min 0, max 100)"@,
        MetricKind::Ssim => "SSIM (higher is better, min 0, max 1)"@,
        MetricKind::Vmaf => "VMAF (higher is better, min 0, max 100)"@,
        MetricKind::Xpsnr => "XPSNR (higher is better, min 0, max 100)"@,
        MetricKind::Ssim2 => "SSIMULACRA2 (higher is better, min 0, max 100)"@,
        MetricKind::But => "BUTTERAUGLI (lower is better, min 0)"@,
        MetricKind::Cvvdp => "CVVDP (cumulative JOD, higher is better, 10 = identical)"@,
    }
}

pub open spec fn axis_top(kind: MetricKind) -> Num {
    match kind {
        MetricKind::Ssim => one(),
        MetricKind::But | MetricKind::Cvvdp => ten(),
        _ => hundred(),
    }
}

/// A metric's axis.
pub fn plot_def(kind: MetricKind) -> (r: PlotDef)
    ensures
        r.label@ == axis_label(kind),
        r.lo == zero(),
        r.hi == axis_top(kind),
{
    match kind {
        MetricKind::Psnr => PlotDef {
            label: "PSNR (higher is better, min 0, max 100)",
            lo: zero(),
            hi: hundred(),
        },
        MetricKind::Ssim => PlotDef {
            label: "SSIM (higher is better, min 0, max 1)",
            lo: zero(),
            hi: one(),
        },
        MetricKind::Vmaf => PlotDef {
            label: "VMAF (higher is better, min 0, max 100)",
            lo: zero(),
            hi: hundred(),
        },
        MetricKind::Xpsnr => PlotDef {
            label: "XPSNR (higher is better, min 0, max 100)",
            lo: zero(),
            hi: hundred(),
        },
        MetricKind::Ssim2 => PlotDef {
            label: "SSIMULACRA2 (higher is better, min 0, max 100)",
            lo: zero(),
            hi: hundred(),
        },
        MetricKind::But => PlotDef {
            label: "BUTTERAUGLI (lower is better, min 0)",
            lo: zero(),
            hi: ten(),
        },
        MetricKind::Cvvdp => PlotDef {
            label: "CVVDP (cumulative JOD, higher is better, 10 = identical)",
            lo: zero(),
            hi: ten(),
        },
    }
}

pub open spec fn title_text(kind: MetricKind) -> Seq<char> {
    match kind {
        MetricKind::Psnr => "PSNR"@,
        MetricKind::Ssim => "SSIM"@,
        MetricKind::Vmaf => "VMAF"@,
        MetricKind::Xpsnr => "XPSNR"@,
        MetricKind::Ssim2 => "SSIM2"@,
        MetricKind::But => "BUTTERAUGLI"@,
        MetricKind::Cvvdp => "CVVDP"@,
    }
}

/// The title of a metric's tab.
pub fn tab_title(kind: MetricKind) -> (r: &'static str)
    ensures
        r@ == title_text(kind),
{
    match kind {
        MetricKind::Psnr => "PSNR",
        MetricKind::Ssim => "SSIM",
        MetricKind::Vmaf => "VMAF",
        MetricKind::Xpsnr => "XPSNR",
        MetricKind::Ssim2 => "SSIM2",
        MetricKind::But => "BUTTERAUGLI",
        MetricKind::Cvvdp => "CVVDP",
    }
}

/// The tab to show: that of the metric being computed while a run is on, else
/// the current one.
pub fn follow_live_tab(measuring: bool, live: Option<MetricKind>, current: MetricKind) -> (r:
    MetricKind)
    ensures
        r == if measuring && live is Some {
            live->0
        } else {
            current
        },
{
    if measuring {
        match live {
            Some(k) => k,
            None => current,
        }
    } else {
        current
    }
}

// ---- Axes ----

/// The extent of the drawn series: the longest one's length, and the least and
/// the greatest value.
#[derive(Debug, Clone, Copy)]
pub struct Extent {
    pub longest: usize,
    pub lo: Num,
    pub hi: Num,
}

/// The least and the greatest of some values, after those already seen.
pub open spec fn spread(values: Seq<Num>, lo: Num, hi: Num) -> (Num, Num)
    decreases values.len(),
{
    if values.len() == 0 {
        (lo, hi)
    } else {
        let s = spread(values.drop_last(), lo, hi);
        (lower(s.0, values.last()), upper(s.1, values.last()))
    }
}

/// The extent of several series.
pub open spec fn extent_of(series: Seq<Seq<Num>>) -> (nat, Num, Num)
    decreases series.len(),
{
    if series.len() == 0 {
        (0, Num { bits: INFINITE }, Num { bits: NEG_INFINITE })
    } else {
        let e = extent_of(series.drop_last());
        let s = spread(series.last(), e.1, e.2);
        (
            if series.last().len() > e.0 {
                series.last().len()
            } else {
                e.0
            },
            s.0,
            s.1,
        )
    }
}

pub open spec fn series_views(v: Seq<Vec<Num>>) -> Seq<Seq<Num>> {
    v.map_values(|s: Vec<Num>| s@)
}

fn spread_of(values: &Vec<Num>, lo: Num, hi: Num) -> (r: (Num, Num))
    ensures
        r == spread(values@, lo, hi),
{
    let mut a = lo;
    let mut b = hi;
    let mut i: usize = 0;
    assert(values@.take(0) =~= Seq::<Num>::empty());
    while i < values.len()
        invariant
            i <= values@.len(),
            (a, b) == spread(values@.take(i as int), lo, hi),
        decreases values.len() - i,
    {
        assert(values@.take(i + 1).drop_last() =~= values@.take(i as int));
        a = lower_of(a, values[i]);
        b = upper_of(b, values[i]);
        i += 1;
    }
    assert(values@.take(i as int) =~= values@);
    (a, b)
}

/// The extent of the drawn series; `None` where none has a value.
pub fn extent(series: &Vec<Vec<Num>>) -> (r: Option<Extent>)
    ensures
        match r {
            Some(e) => e.longest > 0 && extent_of(series_views(series@)) == (
                e.longest as nat,
                e.lo,
                e.hi,
            ),
            None => extent_of(series_views(series@)).0 == 0,
        },
{
    let ghost all = series_views(series@);
    let mut e = Extent {
        longest: 0,
        lo: Num { bits: INFINITE },
        hi: Num { bits: NEG_INFINITE },
    };
    let mut i: usize = 0;
    assert(all.take(0) =~= Seq::<Seq<Num>>::empty());
    while i < series.len()
        invariant
            i <= series@.len(),
            all == series_views(series@),
            extent_of(all.take(i as int)) == (e.longest as nat, e.lo, e.hi),
        decreases series.len() - i,
    {
        assert(all.take(i + 1).drop_last() =~= all.take(i as int));
        assert(all.take(i + 1).last() == series@[i as int]@);
        let s = spread_of(&series[i], e.lo, e.hi);
        let n: usize = series[i].len();
        e = Extent {
            longest: if n > e.longest {
                n
            } else {
                e.longest
            },
            lo: s.0,
            hi: s.1,
        };
        i += 1;
    }
    assert(all.take(i as int) =~= all);
    if e.longest == 0 {
        None
    } else {
        Some(e)
    }
}

proof fn lemma_spread_bounds(values: Seq<Num>, lo: Num, hi: Num)
    requires
        !lo.nan(),
        !hi.nan(),
    ensures
        ({
            let s = spread(values, lo, hi);
            &&& !s.0.nan() && !s.1.nan()
            &&& s.0.place() <= lo.place() && hi.place() <= s.1.place()
            &&& forall|i: int|
                0 <= i < values.len() ==> !(#[trigger] values[i]).less(s.0) && !s.1.less(values[i])
        }),
    decreases values.len(),
{
    if values.len() > 0 {
        lemma_spread_bounds(values.drop_last(), lo, hi);
        let t = values.drop_last();
        let s = spread(values, lo, hi);
        assert forall|i: int| 0 <= i < values.len() implies !(#[trigger] values[i]).less(s.0)
            && !s.1.less(values[i]) by {
            if i < t.len() {
                assert(t[i] == values[i]);
            }
        }
    }
}

/// Every drawn value lies within the extent.
pub proof fn lemma_extent_holds_values(series: Seq<Seq<Num>>)
    ensures
        ({
            let e = extent_of(series);
            &&& !e.1.nan() && !e.2.nan()
            &&& forall|s: int| 0 <= s < series.len() ==> (#[trigger] series[s]).len() <= e.0
            &&& forall|s: int, i: int|
                0 <= s < series.len() && 0 <= i < series[s].len() ==> !(
                #[trigger] series[s][i]).less(e.1) && !e.2.less(series[s][i])
        }),
    decreases series.len(),
{
    if series.len() > 0 {
        let t = series.drop_last();
        lemma_extent_holds_values(t);
        let e = extent_of(t);
        lemma_spread_bounds(series.last(), e.1, e.2);
        let g = extent_of(series);
        assert forall|s: int| 0 <= s < series.len() implies (#[trigger] series[s]).len() <= g.0 by {
            if s < t.len() {
                assert(t[s] == series[s]);
            }
        }
        assert forall|s: int, i: int|
            0 <= s < series.len() && 0 <= i < series[s].len() implies !(
        #[trigger] series[s][i]).less(g.1) && !g.2.less(series[s][i]) by {
            if s < t.len() {
                assert(t[s][i] == series[s][i]);
            } else {
                assert(series.last()[i] == series[s][i]);
            }
        }
    } else {
        assert(!extent_of(series).1.nan() && !extent_of(series).2.nan());
    }
}

/// The ranges of a view; without data there is none for the frames.
#[derive(Debug, Clone, Copy)]
pub struct FitBounds {
    pub x: Option<(Num, Num)>,
    pub y: (Num, Num),
}

/// The union of two views; one without data adds nothing.
pub open spec fn union_of(a: FitBounds, b: FitBounds) -> FitBounds {
    match (a.x, b.x) {
        (Some(p), Some(q)) => FitBounds {
            x: Some((lower(p.0, q.0), upper(p.1, q.1))),
            y: (lower(a.y.0, b.y.0), upper(a.y.1, b.y.1)),
        },
        (None, Some(_)) => b,
        _ => a,
    }
}

pub fn union_bounds(a: FitBounds, b: FitBounds) -> (r: FitBounds)
    ensures
        r == union_of(a, b),
{
    match (a.x, b.x) {
        (Some(p), Some(q)) => FitBounds {
            x: Some((lower_of(p.0, q.0), upper_of(p.1, q.1))),
            y: (lower_of(a.y.0, b.y.0), upper_of(a.y.1, b.y.1)),
        },
        (None, Some(_)) => b,
        _ => a,
    }
}

/// Whether one range of numbers holds another.
pub open spec fn holds_range(outer: (Num, Num), inner: (Num, Num)) -> bool {
    !inner.0.less(outer.0) && !outer.1.less(inner.1)
}

/// A live view only grows: the union holds both views that have data.
pub proof fn lemma_union_grows(a: FitBounds, b: FitBounds)
    requires
        a.x is Some && b.x is Some,
        !(a.x->0).0.nan() && !(a.x->0).1.nan() && !a.y.0.nan() && !a.y.1.nan(),
        !(b.x->0).0.nan() && !(b.x->0).1.nan() && !b.y.0.nan() && !b.y.1.nan(),
    ensures
        union_of(a, b).x is Some,
        holds_range(union_of(a, b).x->0, a.x->0) && holds_range(union_of(a, b).x->0, b.x->0),
        holds_range(union_of(a, b).y, a.y) && holds_range(union_of(a, b).y, b.y),
{
}

/// What the plot keeps from frame to frame.
#[derive(Debug, Clone, Copy)]
pub struct PlotFit {
    /// The view that grows while a series of this tab is computed.
    pub live_fit: Option<(MetricKind, FitBounds)>,
    /// The view is to be let follow the data, as soon as it can be.
    pub follow_pending: bool,
}

/// The view to draw, and whether it is to be let follow the data.
pub struct FitStep {
    pub fit: PlotFit,
    pub bounds: FitBounds,
    pub follow: bool,
}

/// One frame: while a series is computed the view grows and a new phase asks
/// to follow; afterwards it fits the data exactly, and what was still owed is
/// asked once.
pub open spec fn fit_step(
    s: PlotFit,
    kind: MetricKind,
    any_running: bool,
    fresh: FitBounds,
) -> FitStep {
    if any_running {
        let known = s.live_fit is Some && (s.live_fit->0).0 == kind;
        let grown = if known {
            union_of((s.live_fit->0).1, fresh)
        } else {
            fresh
        };
        FitStep {
            fit: PlotFit { live_fit: Some((kind, grown)), follow_pending: s.follow_pending },
            bounds: grown,
            follow: !known || s.follow_pending,
        }
    } else {
        FitStep {
            fit: PlotFit { live_fit: None, follow_pending: false },
            bounds: fresh,
            follow: s.follow_pending,
        }
    }
}

impl PlotFit {
    pub fn new() -> (r: PlotFit)
        ensures
            r.live_fit is None,
            !r.follow_pending,
    {
        PlotFit { live_fit: None, follow_pending: false }
    }

    /// Takes the view that fits the drawn series now; returns the view to
    /// draw, and whether it is to be let follow the data.
    pub fn step(&mut self, kind: MetricKind, any_running: bool, fresh: FitBounds) -> (r: (
        FitBounds,
        bool,
    ))
        ensures
            ({
                let s = fit_step(*old(self), kind, any_running, fresh);
                *final(self) == s.fit && r == (s.bounds, s.follow)
            }),
    {
        if any_running {
            let known: Option<FitBounds> = match self.live_fit {
                Some(l) => if l.0 == kind {
                    Some(l.1)
                } else {
                    None
                },
                None => None,
            };
            let grown = match known {
                Some(prev) => union_bounds(prev, fresh),
                None => fresh,
            };
            let follow = known.is_none() || self.follow_pending;
            self.live_fit = Some((kind, grown));
            (grown, follow)
        } else {
            let follow = self.follow_pending;
            self.live_fit = None;
            self.follow_pending = false;
            (fresh, follow)
        }
    }

    /// After an attempt to let the view follow: it is still owed where the
    /// view could not be reached.
    pub fn followed(&mut self, reached: bool)
        ensures
            final(self).live_fit == old(self).live_fit,
            final(self).follow_pending == !reached,
    {
        self.follow_pending = !reached;
    }
}

// ---- Drawn points ----

/// The first point of bucket `b`.
pub open spec fn bucket_start(b: int, n: int, buckets: int) -> int {
    b * n / buckets
}

/// The point after the last of bucket `b`.
pub open spec fn bucket_end(b: int, n: int, buckets: int) -> int {
    let s = bucket_start(b, n, buckets);
    let e = (b + 1) * n / buckets;
    let e1 = if e < s + 1 {
        s + 1
    } else {
        e
    };
    if e1 > n {
        n
    } else {
        e1
    }
}

/// The first of the least values from `s` to `e`.
pub open spec fn least_at(v: Seq<Num>, s: int, e: int) -> int
    decreases e - s,
{
    if e <= s + 1 {
        s
    } else {
        let m = least_at(v, s, e - 1);
        if v[e - 1].less(v[m]) {
            e - 1
        } else {
            m
        }
    }
}

/// The first of the greatest values from `s` to `e`.
pub open spec fn greatest_at(v: Seq<Num>, s: int, e: int) -> int
    decreases e - s,
{
    if e <= s + 1 {
        s
    } else {
        let m = greatest_at(v, s, e - 1);
        if v[m].less(v[e - 1]) {
            e - 1
        } else {
            m
        }
    }
}

/// The points kept of a bucket: the least and the greatest, in order.
pub open spec fn bucket_picks(v: Seq<Num>, s: int, e: int) -> Seq<int> {
    let lo = least_at(v, s, e);
    let hi = greatest_at(v, s, e);
    if lo < hi {
        seq![lo, hi]
    } else if hi < lo {
        seq![hi, lo]
    } else {
        seq![lo]
    }
}

/// The points kept of the first `b` buckets.
pub open spec fn picks(v: Seq<Num>, b: int, buckets: int) -> Seq<int>
    decreases b,
{
    if b <= 0 {
        Seq::empty()
    } else {
        picks(v, b - 1, buckets) + bucket_picks(
            v,
            bucket_start(b - 1, v.len() as int, buckets),
            bucket_end(b - 1, v.len() as int, buckets),
        )
    }
}

/// The points to draw: all of a short series; of a long one the first, the
/// extremes of each bucket, and the last.
pub open spec fn drawn(v: Seq<Num>, target: nat) -> Seq<int> {
    let t = if target < 4 {
        4
    } else {
        target as int
    };
    if v.len() <= t {
        Seq::new(v.len(), |i: int| i)
    } else {
        let kept = seq![0int] + picks(v, t / 2, t / 2);
        if kept.last() != v.len() - 1 || v.last().nan() {
            kept.push(v.len() - 1)
        } else {
            kept
        }
    }
}

pub open spec fn ints(v: Seq<usize>) -> Seq<int> {
    v.map_values(|i: usize| i as int)
}

proof fn lemma_bucket(b: int, n: int, buckets: int)
    requires
        0 <= b < buckets,
        buckets < n,
    ensures
        0 <= bucket_start(b, n, buckets) < bucket_end(b, n, buckets) <= n,
        (b + 1) * n / buckets <= n,
        b + 1 < buckets ==> bucket_start(b + 1, n, buckets) == bucket_end(b, n, buckets),
        b + 1 == buckets ==> bucket_end(b, n, buckets) == n,
{
    assert(b * n >= 0) by (nonlinear_arith)
        requires
            0 <= b,
            0 <= n,
    ;
    assert((b + 1) * n == b * n + n) by (nonlinear_arith);
    assert((b + 1) * n <= buckets * n) by (nonlinear_arith)
        requires
            b + 1 <= buckets,
            0 <= n,
    ;
    assert(0 <= b * n / buckets) by (nonlinear_arith)
        requires
            b * n >= 0,
            buckets > 0,
    ;
    let x = b * n;
    let y = (b + 1) * n;
    assert(y / buckets >= x / buckets + 1) by (nonlinear_arith)
        requires
            y == x + n,
            n > buckets,
            buckets > 0,
    ;
    assert(y / buckets <= n) by (nonlinear_arith)
        requires
            y <= buckets * n,
            buckets > 0,
    ;
    if b + 1 == buckets {
        assert(y / buckets == n) by (nonlinear_arith)
            requires
                y == buckets * n,
                buckets > 0,
        ;
    }
}

fn extremes(v: &Vec<Num>, s: usize, e: usize) -> (r: (usize, usize))
    requires
        s < e <= v@.len(),
    ensures
        r.0 == least_at(v@, s as int, e as int),
        r.1 == greatest_at(v@, s as int, e as int),
        s <= r.0 < e,
        s <= r.1 < e,
{
    let mut lo: usize = s;
    let mut hi: usize = s;
    let mut i: usize = s + 1;
    while i < e
        invariant
            s < i <= e <= v@.len(),
            s <= lo < i,
            s <= hi < i,
            lo == least_at(v@, s as int, i as int),
            hi == greatest_at(v@, s as int, i as int),
        decreases e - i,
    {
        if v[i].is_less(v[lo]) {
            lo = i;
        }
        if v[hi].is_less(v[i]) {
            hi = i;
        }
        i += 1;
    }
    (lo, hi)
}

/// The points of a series to draw, about `target` of them.
pub fn decimate_minmax(v: &Vec<Num>, target: usize) -> (r: Vec<usize>)
    ensures
        ints(r@) == drawn(v@, target as nat),
{
    let t: usize = if target < 4 {
        4
    } else {
        target
    };
    let n: usize = v.len();
    let mut out: Vec<usize> = Vec::new();
    if n <= t {
        let mut i: usize = 0;
        while i < n
            invariant
                i <= n,
                n == v@.len(),
                out@.len() == i,
                forall|j: int| 0 <= j < i ==> #[trigger] out@[j] == j,
            decreases n - i,
        {
            out.push(i);
            i += 1;
        }
        assert(ints(out@) =~= drawn(v@, target as nat));
        return out;
    }
    let buckets: usize = t / 2;
    out.push(0);
    let mut b: usize = 0;
    assert(ints(out@) =~= seq![0int] + picks(v@, 0, buckets as int));
    while b < buckets
        invariant
            b <= buckets,
            0 < buckets < n,
            n == v@.len(),
            out@.len() > 0,
            ints(out@) == seq![0int] + picks(v@, b as int, buckets as int),
        decreases buckets - b,
    {
        proof {
            lemma_bucket(b as int, n as int, buckets as int);
            assert((b + 1) * n <= u128::MAX && b * n <= u128::MAX) by (nonlinear_arith)
                requires
                    0 <= b < usize::MAX,
                    0 <= n <= usize::MAX,
                    usize::MAX <= u64::MAX,
            ;
        }
        let s: usize = (b as u128 * n as u128 / buckets as u128) as usize;
        let e: usize = ((b as u128 + 1) * n as u128 / buckets as u128) as usize;
        let e: usize = if e < s + 1 {
            s + 1
        } else {
            e
        };
        let e: usize = if e > n {
            n
        } else {
            e
        };
        let ghost before = ints(out@);
        let (lo, hi): (usize, usize) = extremes(v, s, e);
        if lo < hi {
            out.push(lo);
            out.push(hi);
        } else if hi < lo {
            out.push(hi);
            out.push(lo);
        } else {
            out.push(lo);
        }
        assert(ints(out@) =~= before + bucket_picks(v@, s as int, e as int));
        b += 1;
        assert(ints(out@) =~= seq![0int] + picks(v@, b as int, buckets as int));
    }
    assert(ints(out@).last() == out@.last());
    if out[out.len() - 1] != n - 1 || v[n - 1].is_nan() {
        out.push(n - 1);
    }
    assert(ints(out@) =~= drawn(v@, target as nat));
    out
}

proof fn lemma_least(v: Seq<Num>, s: int, e: int)
    requires
        0 <= s < e <= v.len(),
        forall|i: int| s <= i < e ==> !(#[trigger] v[i]).nan(),
    ensures
        s <= least_at(v, s, e) < e,
        s <= greatest_at(v, s, e) < e,
        forall|i: int|
            s <= i < e ==> !(#[trigger] v[i]).less(v[least_at(v, s, e)]) && !v[greatest_at(
                v,
                s,
                e,
            )].less(v[i]),
    decreases e - s,
{
    if e > s + 1 {
        lemma_least(v, s, e - 1);
    }
}

proof fn lemma_bucket_of(i: int, n: int, buckets: int, k: int) -> (b: int)
    requires
        0 <= i < n,
        0 < k <= buckets < n,
        i < bucket_end(k - 1, n, buckets),
    ensures
        0 <= b < k,
        bucket_start(b, n, buckets) <= i < bucket_end(b, n, buckets),
    decreases k,
{
    lemma_bucket(k - 1, n, buckets);
    if bucket_start(k - 1, n, buckets) <= i {
        k - 1
    } else if k == 1 {
        assert(bucket_start(0, n, buckets) == 0) by (nonlinear_arith)
            requires
                buckets > 0,
                bucket_start(0, n, buckets) == 0 * n / buckets,
        ;
        0
    } else {
        lemma_bucket(k - 2, n, buckets);
        lemma_bucket_of(i, n, buckets, k - 1)
    }
}

proof fn lemma_picked(v: Seq<Num>, b: int, k: int, buckets: int)
    requires
        0 <= b < k,
    ensures
        picks(v, k, buckets).contains(
            least_at(
                v,
                bucket_start(b, v.len() as int, buckets),
                bucket_end(b, v.len() as int, buckets),
            ),
        ),
        picks(v, k, buckets).contains(
            greatest_at(
                v,
                bucket_start(b, v.len() as int, buckets),
                bucket_end(b, v.len() as int, buckets),
            ),
        ),
    decreases k,
{
    let n = v.len() as int;
    let (s, e) = (bucket_start(b, n, buckets), bucket_end(b, n, buckets));
    let prev = picks(v, k - 1, buckets);
    let all = picks(v, k, buckets);
    if b < k - 1 {
        lemma_picked(v, b, k - 1, buckets);
        let i = choose|i: int| 0 <= i < prev.len() && prev[i] == least_at(v, s, e);
        let j = choose|j: int| 0 <= j < prev.len() && prev[j] == greatest_at(v, s, e);
        assert(all[i] == prev[i] && all[j] == prev[j]);
    } else {
        let p = bucket_picks(v, s, e);
        assert(all =~= prev + p);
        let m = prev.len() as int;
        if p.len() == 1 {
            assert(all[m] == p[0]);
        } else {
            assert(all[m] == p[0] && all[m + 1] == p[1]);
        }
    }
}

proof fn lemma_within(v: Seq<Num>, s: int, e: int)
    requires
        s < e,
    ensures
        s <= least_at(v, s, e) < e,
        s <= greatest_at(v, s, e) < e,
    decreases e - s,
{
    if e > s + 1 {
        lemma_within(v, s, e - 1);
    }
}

proof fn lemma_picks_in_order(v: Seq<Num>, b: int, buckets: int)
    requires
        0 <= b <= buckets,
        0 < buckets < v.len(),
    ensures
        b <= picks(v, b, buckets).len() <= 2 * b,
        forall|i: int|
            0 <= i < picks(v, b, buckets).len() ==> 0 <= #[trigger] picks(v, b, buckets)[i] < bucket_end(
                b - 1,
                v.len() as int,
                buckets,
            ),
        forall|i: int, j: int|
            0 <= i < j < picks(v, b, buckets).len() ==> #[trigger] picks(v, b, buckets)[i]
                < #[trigger] picks(v, b, buckets)[j],
    decreases b,
{
    let n = v.len() as int;
    if b > 0 {
        lemma_picks_in_order(v, b - 1, buckets);
        lemma_bucket(b - 1, n, buckets);
        if b > 1 {
            lemma_bucket(b - 2, n, buckets);
        }
        lemma_within(v, bucket_start(b - 1, n, buckets), bucket_end(b - 1, n, buckets));
    }
}

/// The points to draw come in the order of the series, from its first to its
/// last, and there are at most two more than asked for.
pub proof fn lemma_drawn_in_order(v: Seq<Num>, target: nat)
    requires
        v.len() > 0,
    ensures
        drawn(v, target)[0] == 0,
        drawn(v, target).last() == v.len() - 1,
        forall|i: int, j: int|
            0 <= i < j < drawn(v, target).len() ==> #[trigger] drawn(v, target)[i]
                <= #[trigger] drawn(v, target)[j],
        drawn(v, target).len() <= (if target < 4 {
            4
        } else {
            target
        }) + 2,
{
    let t = if target < 4 {
        4
    } else {
        target as int
    };
    if v.len() > t {
        lemma_picks_in_order(v, t / 2, t / 2);
        lemma_bucket(t / 2 - 1, v.len() as int, t / 2);
    }
}

/// Spikes survive thinning: for every value of a series without NaN, a point
/// is drawn that is no greater and one that is no less.
pub proof fn lemma_drawn_keeps_extremes(v: Seq<Num>, target: nat, i: int)
    requires
        0 <= i < v.len(),
        forall|k: int| 0 <= k < v.len() ==> !(#[trigger] v[k]).nan(),
    ensures
        exists|a: int|
            0 <= a < drawn(v, target).len() && 0 <= #[trigger] drawn(v, target)[a] < v.len() && !v[i].less(
                v[drawn(v, target)[a]],
            ),
        exists|a: int|
            0 <= a < drawn(v, target).len() && 0 <= #[trigger] drawn(v, target)[a] < v.len()
                && !v[drawn(v, target)[a]].less(v[i]),
{
    let t = if target < 4 {
        4
    } else {
        target as int
    };
    let d = drawn(v, target);
    if v.len() <= t {
        assert(d[i] == i);
    } else {
        let n = v.len() as int;
        let buckets = t / 2;
        lemma_bucket(buckets - 1, n, buckets);
        let b = lemma_bucket_of(i, n, buckets, buckets);
        let (s, e) = (bucket_start(b, n, buckets), bucket_end(b, n, buckets));
        lemma_bucket(b, n, buckets);
        lemma_least(v, s, e);
        lemma_picked(v, b, buckets, buckets);
        let p = picks(v, buckets, buckets);
        let x = choose|x: int| 0 <= x < p.len() && p[x] == least_at(v, s, e);
        let y = choose|y: int| 0 <= y < p.len() && p[y] == greatest_at(v, s, e);
        assert(d[x + 1] == p[x]);
        assert(d[y + 1] == p[y]);
    }
}

// ---- Exported pictures ----

/// The size of an exported picture.
#[derive(Debug, Clone, Copy, PartialEq, Eq, Structural)]
pub enum PlotSize {
    S1280,
    S1600,
    S2400,
    S3200,
}

impl Default for PlotSize {
    fn default() -> (r: PlotSize)
        ensures
            r == PlotSize::S3200,
    {
        PlotSize::S3200
    }
}

pub open spec fn all_sizes() -> Seq<PlotSize> {
    seq![PlotSize::S1280, PlotSize::S1600, PlotSize::S2400, PlotSize::S3200]
}

impl PlotSize {
    /// All sizes, the smallest first.
    pub fn all() -> (r: Vec<PlotSize>)
        ensures
            r@ == all_sizes(),
    {
        let r = vec![PlotSize::S1280, PlotSize::S1600, PlotSize::S2400, PlotSize::S3200];
        assert(r@ =~= all_sizes());
        r
    }

    pub open spec fn label_text(self) -> Seq<char> {
        match self {
            PlotSize::S1280 => "1280×320"@,
            PlotSize::S1600 => "1600×400"@,
            PlotSize::S2400 => "2400×600"@,
            PlotSize::S3200 => "3200×800"@,
        }
    }

    pub fn label(self) -> (r: &'static str)
        ensures
            r@ == self.label_text(),
    {
        match self {
            PlotSize::S1280 => "1280×320",
            PlotSize::S1600 => "1600×400",
            PlotSize::S2400 => "2400×600",
            PlotSize::S3200 => "3200×800",
        }
    }

    pub open spec fn size(self) -> (u32, u32) {
        match self {
            PlotSize::S1280 => (1280, 320),
            PlotSize::S1600 => (1600, 400),
            PlotSize::S2400 => (2400, 600),
            PlotSize::S3200 => (3200, 800),
        }
    }

    /// Width and height.
    pub fn dims(self) -> (r: (u32, u32))
        ensures
            r == self.size(),
    {
        match self {
            PlotSize::S1280 => (1280, 320),
            PlotSize::S1600 => (1600, 400),
            PlotSize::S2400 => (2400, 600),
            PlotSize::S3200 => (3200, 800),
        }
    }

    /// The size with a label; `None` where no size has it.
    pub fn from_label(s: &str) -> (r: Option<PlotSize>)
        ensures
            match r {
                Some(m) => m.label_text() == s@,
                None => forall|m: PlotSize| (#[trigger] m.label_text()) != s@,
            },
    {
        if same(s, "1280×320") {
            Some(PlotSize::S1280)
        } else if same(s, "1600×400") {
            Some(PlotSize::S1600)
        } else if same(s, "2400×600") {
            Some(PlotSize::S2400)
        } else if same(s, "3200×800") {
            Some(PlotSize::S3200)
        } else {
            None
        }
    }
}

/// No two sizes share a label, so a stored label gives back the size that it
/// was stored for.
pub proof fn lemma_size_labels_distinct(a: PlotSize, b: PlotSize)
    requires
        a.label_text() == b.label_text(),
    ensures
        a == b,
{
    reveal_strlit("1280×320");
    reveal_strlit("1600×400");
    reveal_strlit("2400×600");
    reveal_strlit("3200×800");
    assert("1280×320"@[1] == '2' && "1280×320"@[0] == '1');
    assert("1600×400"@[1] == '6' && "1600×400"@[0] == '1');
    assert("2400×600"@[0] == '2');
    assert("3200×800"@[0] == '3');
}

/// Every picture is four times as wide as it is high.
pub proof fn lemma_sizes_are_wide(s: PlotSize)
    ensures
        s.size().0 == 4 * s.size().1,
{
}

/// The axis of SSIM ends at 1, those of Butteraugli and CVVDP at 10, and all
/// others at 100.
pub proof fn lemma_axis_tops(kind: MetricKind)
    ensures
        kind is Ssim ==> axis_top(kind) == (Num { bits: 0x3ff0_0000_0000_0000 }),
        kind is But || kind is Cvvdp ==> axis_top(kind) == (Num { bits: 0x4024_0000_0000_0000 }),
        !(kind is Ssim || kind is But || kind is Cvvdp) ==> axis_top(kind) == (Num {
            bits: 0x4059_0000_0000_0000,
        }),
{
}

proof fn lemma_spread_is_reached(values: Seq<Num>, lo: Num, hi: Num)
    requires
        !lo.nan(),
        !hi.nan(),
    ensures
        ({
            let s = spread(values, lo, hi);
            &&& s.0 == lo || exists|i: int| 0 <= i < values.len() && #[trigger] values[i] == s.0
            &&& s.1 == hi || exists|i: int| 0 <= i < values.len() && #[trigger] values[i] == s.1
        }),
    decreases values.len(),
{
    if values.len() > 0 {
        let head = values.drop_last();
        let n = values.len() - 1;
        lemma_spread_is_reached(head, lo, hi);
        lemma_spread_bounds(head, lo, hi);
        let h = spread(head, lo, hi);
        assert(values[n] == values.last());
        if h.0 != lo {
            let i = choose|i: int| 0 <= i < head.len() && #[trigger] head[i] == h.0;
            assert(values[i] == h.0);
        }
        if h.1 != hi {
            let i = choose|i: int| 0 <= i < head.len() && #[trigger] head[i] == h.1;
            assert(values[i] == h.1);
        }
    }
}

/// The extent is no greater than it must be: some series is as long, and its
/// ends are drawn values, where any is drawn.
pub proof fn lemma_extent_is_reached(series: Seq<Seq<Num>>)
    ensures
        ({
            let e = extent_of(series);
            &&& e.0 == 0 || exists|s: int| 0 <= s < series.len() && (#[trigger] series[s]).len() == e.0
            &&& e.1 == (Num { bits: INFINITE }) || exists|s: int|
                0 <= s < series.len() && (#[trigger] series[s]).contains(e.1)
            &&& e.2 == (Num { bits: NEG_INFINITE }) || exists|s: int|
                0 <= s < series.len() && (#[trigger] series[s]).contains(e.2)
        }),
    decreases series.len(),
{
    if series.len() > 0 {
        let head = series.drop_last();
        let n = series.len() - 1;
        lemma_extent_is_reached(head);
        lemma_extent_holds_values(head);
        let h = extent_of(head);
        let e = extent_of(series);
        lemma_spread_is_reached(series.last(), h.1, h.2);
        assert(series[n] == series.last());
        if h.0 != 0 {
            let s = choose|s: int| 0 <= s < head.len() && (#[trigger] head[s]).len() == h.0;
            assert(series[s].len() == h.0);
        }
        if e.1 == h.1 && h.1 != (Num { bits: INFINITE }) {
            let s = choose|s: int| 0 <= s < head.len() && (#[trigger] head[s]).contains(h.1);
            assert(series[s].contains(e.1));
        } else if e.1 != h.1 {
            assert(series[n].contains(e.1));
        }
        if e.2 == h.2 && h.2 != (Num { bits: NEG_INFINITE }) {
            let s = choose|s: int| 0 <= s < head.len() && (#[trigger] head[s]).contains(h.2);
            assert(series[s].contains(e.2));
        } else if e.2 != h.2 {
            assert(series[n].contains(e.2));
        }
    }
}

/// While a series is computed, a view of the same metric grows from the one
/// before, and one of another metric starts anew and asks to follow. Once none
/// is, the view is that of the data, nothing is kept, and what was owed is
/// asked.
pub proof fn lemma_views_follow_data(s: PlotFit, kind: MetricKind, any_running: bool, fresh: FitBounds)
    ensures
        ({
            let step = fit_step(s, kind, any_running, fresh);
            let same = s.live_fit is Some && (s.live_fit->0).0 == kind;
            &&& !any_running ==> step.bounds == fresh && step.fit.live_fit is None
                && !step.fit.follow_pending && step.follow == s.follow_pending
            &&& any_running && !same ==> step.bounds == fresh && step.follow
            &&& any_running && same ==> step.bounds == union_of((s.live_fit->0).1, fresh) && step.follow
                == s.follow_pending
            &&& any_running ==> step.fit.live_fit == Some((kind, step.bounds)) && step.fit.follow_pending
                == s.follow_pending
        }),
{
}

} // verus!
